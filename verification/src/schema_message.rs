//! What the `json_schema` assertion says about the error it reports, in this
//! library's own words rather than the validator's.
//!
//! Every JSON value an error carries arrives already rendered the way Python's
//! `repr` renders it; names and patterns arrive raw and are quoted here.
use vstd::prelude::*;
use crate::pyrepr::{repr_str, repr_str_spec};
use crate::text::{chars_of, decimal, join, join_chars, lemma_views_push, push_decimal, push_str, string_of, views};

verus! {

broadcast use vstd::string::group_string_axioms;

/// What kind of rule an instance broke, with what the message needs of it.
#[derive(Debug, PartialEq, Eq)]
pub enum SchemaErrorKind {
    /// `type`: the names of the allowed types, in the keyword's order.
    Type { names: Vec<String> },
    /// `required`: the missing property, rendered.
    Required { property: String },
    /// `additionalProperties`: the unexpected property names.
    AdditionalProperties { unexpected: Vec<String> },
    /// `unevaluatedProperties`: the unevaluated property names.
    UnevaluatedProperties { unexpected: Vec<String> },
    /// `enum`: the allowed values, rendered.
    Enum { options: String },
    /// `const`: the expected value, rendered.
    Constant { expected_value: String },
    /// `pattern`: the pattern.
    Pattern { pattern: String },
    /// `format`: the format's name.
    Format { format: String },
    /// `minimum`: the limit, rendered.
    Minimum { limit: String },
    /// `maximum`: the limit, rendered.
    Maximum { limit: String },
    /// `exclusiveMinimum`: the limit, rendered.
    ExclusiveMinimum { limit: String },
    /// `exclusiveMaximum`: the limit, rendered.
    ExclusiveMaximum { limit: String },
    /// `multipleOf`: the divisor, rendered.
    MultipleOf { multiple_of: String },
    /// `minLength`.
    MinLength { limit: u64 },
    /// `maxLength`.
    MaxLength { limit: u64 },
    /// `minItems`.
    MinItems { limit: u64 },
    /// `maxItems`.
    MaxItems { limit: u64 },
    /// `additionalItems`: how many items were allowed.
    AdditionalItems { limit: u64 },
    /// `unevaluatedItems`: the unevaluated items.
    UnevaluatedItems { unexpected: Vec<String> },
    /// `minProperties`.
    MinProperties { limit: u64 },
    /// `maxProperties`.
    MaxProperties { limit: u64 },
    /// `uniqueItems`.
    UniqueItems,
    /// `contains`.
    Contains,
    /// `anyOf`: no branch matched.
    AnyOf,
    /// `oneOf`: no branch matched.
    OneOfNotValid,
    /// `oneOf`: more than one branch matched.
    OneOfMultipleValid,
    /// `not`.
    Not,
    /// The `false` schema.
    FalseSchema,
    /// `propertyNames`: what is wrong with the name.
    PropertyNames { error: Box<SchemaError> },
    /// A keyword's own message.
    Custom { message: String },
    /// A malformed schema, an unresolvable reference, or a pattern the
    /// engine gave up on.
    Other,
}

/// One validation error: the offending instance, rendered, and the rule it
/// broke.
#[derive(Debug, PartialEq, Eq)]
pub struct SchemaError {
    /// The instance as Python's `repr` writes it.
    pub instance: String,
    /// The rule it broke.
    pub kind: SchemaErrorKind,
}

/// `value` quoted the way Python's `repr` quotes a string.
pub open spec fn quoted(value: Seq<char>) -> Seq<char> {
    repr_str_spec(value)
}

/// Each name quoted, joined with `, `.
pub open spec fn quoted_list(values: Seq<Seq<char>>) -> Seq<char> {
    join(Seq::new(values.len(), |i: int| quoted(values[i])), seq![',', ' '])
}

/// The texts of a list of strings.
pub open spec fn texts(v: Seq<String>) -> Seq<Seq<char>> {
    Seq::new(v.len(), |i: int| v[i]@)
}

/// The message for an error.
pub open spec fn describe_spec(e: SchemaError) -> Seq<char>
    decreases e,
{
    let inst = e.instance@;
    match e.kind {
        SchemaErrorKind::Type { names } => inst + " is not of type "@ + quoted_list(texts(names@)),
        SchemaErrorKind::Required { property } => property@ + " is a required property"@,
        SchemaErrorKind::AdditionalProperties { unexpected } => "unexpected properties "@
            + quoted_list(texts(unexpected@)),
        SchemaErrorKind::UnevaluatedProperties { unexpected } => "unevaluated properties "@
            + quoted_list(texts(unexpected@)),
        SchemaErrorKind::Enum { options } => inst + " is not one of "@ + options@,
        SchemaErrorKind::Constant { expected_value } => inst + " does not equal "@ + expected_value@,
        SchemaErrorKind::Pattern { pattern } => inst + " does not match pattern "@ + quoted(pattern@),
        SchemaErrorKind::Format { format } => inst + " is not a valid "@ + quoted(format@),
        SchemaErrorKind::Minimum { limit } => inst + " is less than the minimum "@ + limit@,
        SchemaErrorKind::Maximum { limit } => inst + " is greater than the maximum "@ + limit@,
        SchemaErrorKind::ExclusiveMinimum { limit } => inst
            + " is not greater than the exclusive minimum "@ + limit@,
        SchemaErrorKind::ExclusiveMaximum { limit } => inst
            + " is not less than the exclusive maximum "@ + limit@,
        SchemaErrorKind::MultipleOf { multiple_of } => inst + " is not a multiple of "@
            + multiple_of@,
        SchemaErrorKind::MinLength { limit } => inst + " is shorter than "@ + decimal(limit as nat)
            + " characters"@,
        SchemaErrorKind::MaxLength { limit } => inst + " is longer than "@ + decimal(limit as nat)
            + " characters"@,
        SchemaErrorKind::MinItems { limit } => inst + " has fewer than "@ + decimal(limit as nat)
            + " items"@,
        SchemaErrorKind::MaxItems { limit } => inst + " has more than "@ + decimal(limit as nat)
            + " items"@,
        SchemaErrorKind::AdditionalItems { limit } => inst + " has more than "@ + decimal(
            limit as nat,
        ) + " items"@,
        SchemaErrorKind::UnevaluatedItems { unexpected } => "unevaluated items "@ + quoted_list(
            texts(unexpected@),
        ),
        SchemaErrorKind::MinProperties { limit } => inst + " has fewer than "@ + decimal(
            limit as nat,
        ) + " properties"@,
        SchemaErrorKind::MaxProperties { limit } => inst + " has more than "@ + decimal(
            limit as nat,
        ) + " properties"@,
        SchemaErrorKind::UniqueItems => inst + " has non-unique elements"@,
        SchemaErrorKind::Contains => inst + " contains no matching item"@,
        SchemaErrorKind::AnyOf => inst + " does not match any of the given schemas"@,
        SchemaErrorKind::OneOfNotValid => inst + " does not match any of the given schemas"@,
        SchemaErrorKind::OneOfMultipleValid => inst + " matches more than one of the given schemas"@,
        SchemaErrorKind::Not => inst + " is valid under the negated schema"@,
        SchemaErrorKind::FalseSchema => inst + " is not allowed here"@,
        SchemaErrorKind::PropertyNames { error } => "invalid property name: "@ + describe_spec(
            *error,
        ),
        SchemaErrorKind::Custom { message } => message@,
        SchemaErrorKind::Other => inst + " does not satisfy the schema"@,
    }
}

/// Each name quoted, joined with `, `.
pub fn quoted_names(values: &Vec<String>) -> (s: String)
    ensures
        s@ == quoted_list(texts(values@)),
{
    let ghost want = Seq::new(values@.len(), |i: int| quoted(values@[i]@));
    let mut pieces: Vec<Vec<char>> = Vec::new();
    let mut i: usize = 0;
    while i < values.len()
        invariant
            i <= values@.len(),
            want == Seq::new(values@.len(), |i: int| quoted(values@[i]@)),
            views(pieces@) == want.take(i as int),
        decreases values@.len() - i,
    {
        let q = chars_of(repr_str(values[i].as_str()).as_str());
        proof { lemma_views_push(pieces@, q); }
        pieces.push(q);
        assert(want.take(i as int).push(want[i as int]) =~= want.take(i + 1));
        i += 1;
    }
    assert(want.take(values@.len() as int) =~= want);
    assert(want =~= Seq::new(texts(values@).len(), |i: int| quoted(texts(values@)[i])));
    let joined = join_chars(&pieces, &[',', ' ']);
    assert([',', ' ']@ =~= seq![',', ' ']);
    string_of(joined.as_slice())
}

fn decimal_text(n: u64) -> (s: String)
    ensures
        s@ == decimal(n as nat),
{
    let mut out: Vec<char> = Vec::new();
    push_decimal(&mut out, n);
    assert(out@ =~= decimal(n as nat));
    string_of(out.as_slice())
}

fn concat2(a: &str, b: &str) -> (s: String)
    ensures
        s@ == a@ + b@,
{
    let mut s = String::new();
    push_str(&mut s, a);
    push_str(&mut s, b);
    s
}

fn concat3(a: &str, b: &str, c: &str) -> (s: String)
    ensures
        s@ == a@ + b@ + c@,
{
    let mut s = concat2(a, b);
    push_str(&mut s, c);
    s
}

fn count_message(inst: &str, middle: &str, limit: u64, tail: &str) -> (s: String)
    ensures
        s@ == inst@ + middle@ + decimal(limit as nat) + tail@,
{
    let mut s = concat3(inst, middle, decimal_text(limit).as_str());
    push_str(&mut s, tail);
    s
}

/// The message for a validation error, in this library's words.
pub fn describe(e: &SchemaError) -> (s: String)
    ensures
        s@ == describe_spec(*e),
    decreases e,
{
    let inst = e.instance.as_str();
    match &e.kind {
        SchemaErrorKind::Type { names } => concat3(inst, " is not of type ", quoted_names(names).as_str()),
        SchemaErrorKind::Required { property } => concat2(property.as_str(), " is a required property"),
        SchemaErrorKind::AdditionalProperties { unexpected } => concat2(
            "unexpected properties ",
            quoted_names(unexpected).as_str(),
        ),
        SchemaErrorKind::UnevaluatedProperties { unexpected } => concat2(
            "unevaluated properties ",
            quoted_names(unexpected).as_str(),
        ),
        SchemaErrorKind::Enum { options } => concat3(inst, " is not one of ", options.as_str()),
        SchemaErrorKind::Constant { expected_value } => concat3(
            inst,
            " does not equal ",
            expected_value.as_str(),
        ),
        SchemaErrorKind::Pattern { pattern } => concat3(
            inst,
            " does not match pattern ",
            repr_str(pattern.as_str()).as_str(),
        ),
        SchemaErrorKind::Format { format } => concat3(
            inst,
            " is not a valid ",
            repr_str(format.as_str()).as_str(),
        ),
        SchemaErrorKind::Minimum { limit } => concat3(inst, " is less than the minimum ", limit.as_str()),
        SchemaErrorKind::Maximum { limit } => concat3(
            inst,
            " is greater than the maximum ",
            limit.as_str(),
        ),
        SchemaErrorKind::ExclusiveMinimum { limit } => concat3(
            inst,
            " is not greater than the exclusive minimum ",
            limit.as_str(),
        ),
        SchemaErrorKind::ExclusiveMaximum { limit } => concat3(
            inst,
            " is not less than the exclusive maximum ",
            limit.as_str(),
        ),
        SchemaErrorKind::MultipleOf { multiple_of } => concat3(
            inst,
            " is not a multiple of ",
            multiple_of.as_str(),
        ),
        SchemaErrorKind::MinLength { limit } => count_message(inst, " is shorter than ", *limit, " characters"),
        SchemaErrorKind::MaxLength { limit } => count_message(inst, " is longer than ", *limit, " characters"),
        SchemaErrorKind::MinItems { limit } => count_message(inst, " has fewer than ", *limit, " items"),
        SchemaErrorKind::MaxItems { limit } => count_message(inst, " has more than ", *limit, " items"),
        SchemaErrorKind::AdditionalItems { limit } => count_message(inst, " has more than ", *limit, " items"),
        SchemaErrorKind::UnevaluatedItems { unexpected } => concat2(
            "unevaluated items ",
            quoted_names(unexpected).as_str(),
        ),
        SchemaErrorKind::MinProperties { limit } => count_message(
            inst,
            " has fewer than ",
            *limit,
            " properties",
        ),
        SchemaErrorKind::MaxProperties { limit } => count_message(
            inst,
            " has more than ",
            *limit,
            " properties",
        ),
        SchemaErrorKind::UniqueItems => concat2(inst, " has non-unique elements"),
        SchemaErrorKind::Contains => concat2(inst, " contains no matching item"),
        SchemaErrorKind::AnyOf => concat2(inst, " does not match any of the given schemas"),
        SchemaErrorKind::OneOfNotValid => concat2(inst, " does not match any of the given schemas"),
        SchemaErrorKind::OneOfMultipleValid => concat2(inst, " matches more than one of the given schemas"),
        SchemaErrorKind::Not => concat2(inst, " is valid under the negated schema"),
        SchemaErrorKind::FalseSchema => concat2(inst, " is not allowed here"),
        SchemaErrorKind::PropertyNames { error } => {
            let inner = describe(error);
            concat2("invalid property name: ", inner.as_str())
        },
        SchemaErrorKind::Custom { message } => crate::text::owned(message.as_str()),
        SchemaErrorKind::Other => concat2(inst, " does not satisfy the schema"),
    }
}


// ---------------------------------------------------------------------------
// The details of the `json_schema` assertion
// ---------------------------------------------------------------------------

/// Why a file could not be read, as far as the detail tells it.
#[derive(Debug, Clone, Copy, PartialEq, Eq)]
pub enum IoCause {
    /// The file is not there.
    NotFound,
    /// Reading it is not allowed.
    PermissionDenied,
    /// It is a directory.
    IsADirectory,
    /// Its bytes are not UTF-8.
    InvalidData,
    /// Anything else.
    Other,
}

/// The words for a cause.
pub open spec fn io_cause_text(c: IoCause) -> Seq<char> {
    match c {
        IoCause::NotFound => "no such file or directory"@,
        IoCause::PermissionDenied => "permission denied"@,
        IoCause::IsADirectory => "is a directory"@,
        IoCause::InvalidData => "not valid UTF-8"@,
        IoCause::Other => "cannot be read"@,
    }
}

/// A file that could not be read: the cause, then the path quoted.
pub fn describe_io_error(cause: IoCause, path: &str) -> (s: String)
    ensures
        s@ == io_cause_text(cause) + ": "@ + quoted(path@),
{
    let words = match cause {
        IoCause::NotFound => "no such file or directory",
        IoCause::PermissionDenied => "permission denied",
        IoCause::IsADirectory => "is a directory",
        IoCause::InvalidData => "not valid UTF-8",
        IoCause::Other => "cannot be read",
    };
    concat3(words, ": ", repr_str(path).as_str())
}

/// What kind of JSON parse failure the parser reported.
#[derive(Debug, Clone, Copy, PartialEq, Eq)]
pub enum JsonFailure {
    /// The input ended too early.
    Eof,
    /// A value of the wrong kind, at a line and column.
    Data { line: u64, column: u64 },
    /// Anything else, at a line and column.
    Syntax { line: u64, column: u64 },
}

/// A JSON parse failure in this library's words: a byte order mark or an
/// empty (all-whitespace) input is named as such, whatever the parser said;
/// otherwise the kind of failure with its position.
pub open spec fn json_failure_text(input: Seq<char>, f: JsonFailure) -> Seq<char> {
    if input.len() > 0 && input[0] == '\u{feff}' {
        "unexpected UTF-8 byte order mark"@
    } else if crate::text::trim(input).len() == 0 {
        "no output to parse"@
    } else {
        match f {
            JsonFailure::Eof => "unexpected end of input"@,
            JsonFailure::Data { line, column } => "unexpected value at line "@ + decimal(line as nat)
                + " column "@ + decimal(column as nat),
            JsonFailure::Syntax { line, column } => "invalid syntax at line "@ + decimal(line as nat)
                + " column "@ + decimal(column as nat),
        }
    }
}

/// Describe a JSON parse failure of `input`.
pub fn describe_json_error(input: &str, f: JsonFailure) -> (s: String)
    ensures
        s@ == json_failure_text(input@, f),
{
    proof {
        reveal_strlit("");
    }
    let chars = chars_of(input);
    if chars.len() > 0 && chars[0] == '\u{feff}' {
        return crate::text::owned("unexpected UTF-8 byte order mark");
    }
    let t = crate::text::trim_chars(chars.as_slice());
    if t.len() == 0 {
        return crate::text::owned("no output to parse");
    }
    match f {
        JsonFailure::Eof => crate::text::owned("unexpected end of input"),
        JsonFailure::Data { line, column } => {
            let mut s = count_message("", "unexpected value at line ", line, " column ");
            push_str(&mut s, decimal_text(column).as_str());
            s
        },
        JsonFailure::Syntax { line, column } => {
            let mut s = count_message("", "invalid syntax at line ", line, " column ");
            push_str(&mut s, decimal_text(column).as_str());
            s
        },
    }
}

/// How a `json_schema` assertion came out.
#[derive(Debug, PartialEq, Eq)]
pub enum SchemaOutcome {
    /// The assertion names no usable schema.
    NoSchema,
    /// The schema file could not be read, for this reason.
    SchemaUnreadable(String),
    /// The schema file is not JSON, for this reason.
    SchemaNotJson(String),
    /// The schema is not a schema, for this reason.
    InvalidSchema(String),
    /// The output is not JSON, for this reason.
    OutputNotJson(String),
    /// The output matches the schema.
    Matches,
    /// The output breaks the schema: the dotted path to the offending part
    /// (empty at the root) and what is wrong there.
    Fails { path: String, why: String },
}

/// Whether a `json_schema` assertion passed, and its detail.
pub open spec fn schema_outcome_spec(o: SchemaOutcome) -> (bool, Seq<char>) {
    match o {
        SchemaOutcome::NoSchema => (false, "json_schema requires an object schema or schema path"@),
        SchemaOutcome::SchemaUnreadable(why) => (false, "schema file unreadable: "@ + why@),
        SchemaOutcome::SchemaNotJson(why) => (false, "invalid schema JSON: "@ + why@),
        SchemaOutcome::InvalidSchema(why) => (false, "invalid schema: "@ + why@),
        SchemaOutcome::OutputNotJson(why) => (false, "invalid JSON output: "@ + why@),
        SchemaOutcome::Matches => (true, "matches JSON schema"@),
        SchemaOutcome::Fails { path, why } => (
            false,
            "schema validation failed"@ + (if path@.len() > 0 {
                " at "@ + path@
            } else {
                Seq::<char>::empty()
            }) + ": "@ + why@,
        ),
    }
}

/// The verdict and detail of a `json_schema` assertion.
pub fn schema_outcome(o: &SchemaOutcome) -> (r: (bool, String))
    ensures
        (r.0, r.1@) == schema_outcome_spec(*o),
{
    match o {
        SchemaOutcome::NoSchema => (false, crate::text::owned("json_schema requires an object schema or schema path")),
        SchemaOutcome::SchemaUnreadable(why) => (false, concat2("schema file unreadable: ", why.as_str())),
        SchemaOutcome::SchemaNotJson(why) => (false, concat2("invalid schema JSON: ", why.as_str())),
        SchemaOutcome::InvalidSchema(why) => (false, concat2("invalid schema: ", why.as_str())),
        SchemaOutcome::OutputNotJson(why) => (false, concat2("invalid JSON output: ", why.as_str())),
        SchemaOutcome::Matches => (true, crate::text::owned("matches JSON schema")),
        SchemaOutcome::Fails { path, why } => {
            let mut d = crate::text::owned("schema validation failed");
            if path.as_str().is_empty() {
            } else {
                push_str(&mut d, " at ");
                push_str(&mut d, path.as_str());
            }
            push_str(&mut d, ": ");
            push_str(&mut d, why.as_str());
            (false, d)
        },
    }
}

// ---------------------------------------------------------------------------
// Checking output against a schema
// ---------------------------------------------------------------------------

/// What `serde_json::from_str` into a `Value` reports for `text`: `None`
/// when it parses, else the kind of failure with its position.
pub uninterp spec fn json_failure_of(text: Seq<char>) -> Option<JsonFailure>;

/// Whether `jsonschema::validator_for` accepts the schema written as the
/// JSON text `schema`.
pub uninterp spec fn schema_compiles(schema: Seq<char>) -> bool;

/// Whether the compiled schema written as `schema` finds the JSON text
/// `instance` valid (`Validator::is_valid`).
pub uninterp spec fn schema_accepts(schema: Seq<char>, instance: Seq<char>) -> bool;

/// `serde_json::from_str` into a `Value`, reduced to the failure it
/// reports: end of input, a value of the wrong kind, or any other syntax
/// error, the last two with their line and column. Trusted to depend on the
/// text alone.
#[verifier::external_body]
fn json_parse_failure(text: &str) -> (r: Option<JsonFailure>)
    ensures
        r == json_failure_of(text@),
{
    match serde_json::from_str::<serde_json::Value>(text) {
        Ok(_) => None,
        Err(e) => Some(match e.classify() {
            serde_json::error::Category::Eof => JsonFailure::Eof,
            serde_json::error::Category::Data => JsonFailure::Data { line: e.line() as u64, column: e.column() as u64 },
            _ => JsonFailure::Syntax { line: e.line() as u64, column: e.column() as u64 },
        }),
    }
}

/// `jsonschema::validator_for` on the schema text, parsed. Trusted to
/// answer as a function of the text.
#[verifier::external_body]
fn compiles_schema(schema: &str) -> (r: bool)
    requires
        json_failure_of(schema@) is None,
    ensures
        r == schema_compiles(schema@),
{
    match serde_json::from_str::<serde_json::Value>(schema) {
        Ok(v) => jsonschema::validator_for(&v).is_ok(),
        Err(_) => false,
    }
}

/// `Validator::is_valid` of the compiled schema on the parsed instance.
/// Trusted to answer as a function of the two texts.
#[verifier::external_body]
fn accepts_instance(schema: &str, instance: &str) -> (r: bool)
    requires
        json_failure_of(schema@) is None,
        schema_compiles(schema@),
        json_failure_of(instance@) is None,
    ensures
        r == schema_accepts(schema@, instance@),
{
    match (serde_json::from_str::<serde_json::Value>(schema), serde_json::from_str::<serde_json::Value>(instance)) {
        (Ok(s), Ok(i)) => match jsonschema::validator_for(&s) {
            Ok(v) => v.is_valid(&i),
            Err(_) => false,
        },
        _ => false,
    }
}

/// How a schema check comes out, before a failure is explained.
#[derive(Debug, PartialEq, Eq)]
pub enum SchemaVerdict {
    /// The schema text is not JSON, for this reason.
    SchemaNotJson(String),
    /// The schema text is JSON but not a schema.
    SchemaInvalid,
    /// The output is not JSON, for this reason.
    OutputNotJson(String),
    /// The output matches the schema.
    Matches,
    /// The output breaks the schema.
    Rejected,
}

/// A verdict with its texts as characters.
pub enum VerdictView {
    SchemaNotJson(Seq<char>),
    SchemaInvalid,
    OutputNotJson(Seq<char>),
    Matches,
    Rejected,
}

/// The characters of a verdict.
pub open spec fn verdict_view(v: SchemaVerdict) -> VerdictView {
    match v {
        SchemaVerdict::SchemaNotJson(a) => VerdictView::SchemaNotJson(a@),
        SchemaVerdict::SchemaInvalid => VerdictView::SchemaInvalid,
        SchemaVerdict::OutputNotJson(a) => VerdictView::OutputNotJson(a@),
        SchemaVerdict::Matches => VerdictView::Matches,
        SchemaVerdict::Rejected => VerdictView::Rejected,
    }
}

/// The verdict on `raw_output` against the schema written as `schema`: the
/// schema must be JSON and a schema; then the output, trimmed of
/// surrounding whitespace, must be JSON; then it matches or breaks the
/// schema. A parse failure is described from the untrimmed text.
pub open spec fn schema_verdict_spec(schema: Seq<char>, raw_output: Seq<char>) -> VerdictView {
    let instance = crate::text::trim(raw_output);
    match json_failure_of(schema) {
        Some(f) => VerdictView::SchemaNotJson(json_failure_text(schema, f)),
        None => if !schema_compiles(schema) {
            VerdictView::SchemaInvalid
        } else {
            match json_failure_of(instance) {
                Some(f) => VerdictView::OutputNotJson(json_failure_text(raw_output, f)),
                None => if schema_accepts(schema, instance) {
                    VerdictView::Matches
                } else {
                    VerdictView::Rejected
                },
            }
        },
    }
}

/// Check `raw_output` against the schema written as `schema`.
pub fn json_schema_verdict(schema: &str, raw_output: &str) -> (v: SchemaVerdict)
    ensures
        verdict_view(v) == schema_verdict_spec(schema@, raw_output@),
{
    match json_parse_failure(schema) {
        Some(f) => return SchemaVerdict::SchemaNotJson(describe_json_error(schema, f)),
        None => {},
    }
    if !compiles_schema(schema) {
        return SchemaVerdict::SchemaInvalid;
    }
    let trimmed = string_of(crate::text::trim_chars(chars_of(raw_output).as_slice()).as_slice());
    match json_parse_failure(trimmed.as_str()) {
        Some(f) => SchemaVerdict::OutputNotJson(describe_json_error(raw_output, f)),
        None => if accepts_instance(schema, trimmed.as_str()) {
            SchemaVerdict::Matches
        } else {
            SchemaVerdict::Rejected
        },
    }
}

/// Where a `json_schema` assertion's schema comes from.
#[derive(Debug, PartialEq, Eq)]
pub enum SchemaSource {
    /// The file at this path, relative to the recipe's directory.
    FileNamed(String),
    /// The file named by a `schema_path` that is not a string: its path is
    /// the value's text.
    FileNamedByValue,
    /// The `schema` object itself.
    Inline,
    /// Nowhere: the assertion names no usable schema.
    Missing,
}

/// Where a schema comes from, with its path as characters.
pub enum SourceView {
    FileNamed(Seq<char>),
    FileNamedByValue,
    Inline,
    Missing,
}

/// The characters of a schema source.
pub open spec fn source_view(s: SchemaSource) -> SourceView {
    match s {
        SchemaSource::FileNamed(p) => SourceView::FileNamed(p@),
        SchemaSource::FileNamedByValue => SourceView::FileNamedByValue,
        SchemaSource::Inline => SourceView::Inline,
        SchemaSource::Missing => SourceView::Missing,
    }
}

/// Where the schema of the assertion `a` comes from: `schema_path` when it
/// is present and not null (a null one falls through); else `schema` when
/// it is an object, or names a file when it is a string; else nowhere.
pub open spec fn schema_source_spec(a: crate::config::JsonView) -> SourceView {
    match crate::report::field_of(a, "schema_path"@) {
        Some(v) if !(v is Null) => match v {
            crate::config::JsonView::Str(p) => SourceView::FileNamed(p),
            _ => SourceView::FileNamedByValue,
        },
        _ => match crate::report::field_of(a, "schema"@) {
            Some(crate::config::JsonView::Object(_)) => SourceView::Inline,
            Some(crate::config::JsonView::Str(p)) => SourceView::FileNamed(p),
            _ => SourceView::Missing,
        },
    }
}

/// Where the schema of a `json_schema` assertion comes from.
pub fn schema_source(assertion: &crate::config::Json) -> (s: SchemaSource)
    ensures
        source_view(s) == schema_source_spec(crate::config::json_view(*assertion)),
{
    match crate::report::field_exec(assertion, "schema_path") {
        Some(crate::config::Json::Null) | None => {},
        Some(crate::config::Json::Str(p)) => return SchemaSource::FileNamed(crate::text::owned(p.as_str())),
        Some(_) => return SchemaSource::FileNamedByValue,
    }
    match crate::report::field_exec(assertion, "schema") {
        Some(crate::config::Json::Object(_)) => SchemaSource::Inline,
        Some(crate::config::Json::Str(p)) => SchemaSource::FileNamed(crate::text::owned(p.as_str())),
        _ => SchemaSource::Missing,
    }
}

} // verus!
