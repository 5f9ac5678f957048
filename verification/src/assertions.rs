//! The built-in assertions.
//!
//! | Type | Reads | Detail |
//! |---|---|---|
//! | `output_contains` | the raw output | `contains <repr>` |
//! | `output_not_contains` | the raw output | `does not contain <repr>` |
//! | `screen_contains` | the screen | `contains <repr>` |
//! | `screen_not_contains` | the screen | `does not contain <repr>` |
//! | `exit_code` | the exit code | `expected <str>, got <str>` |
//! | `file_exists` | the filesystem | the resolved path |
//! | `file_contains` | the filesystem | `contains <repr>` |
//! | `json_schema` | the raw output | the validation's verdict |
//!
//! Nothing here can end a run: an unknown type, a missing key or a value of
//! the wrong type comes back as a failed result whose detail says so.
//!
//! An assertion is read from JSON. What the logic reads of a JSON value is its
//! type (with the text of a string and the whole number a number equals, if
//! any) and how Python prints it with `str` and with `repr`; the three
//! assertions that need the filesystem or a schema validator say what they
//! need, and the caller reports what it found.
use vstd::prelude::*;
use crate::pypath::{join_spec, parse_spec, render_spec, PyPath};
use crate::pyrepr::{repr_str, repr_str_spec};
use crate::result::AssertionResult;
use crate::text::{contains, decimal, owned, push_decimal, push_str, str_contains, str_eq, string_of};

verus! {

broadcast use vstd::string::group_string_axioms;

/// A JSON value's type, with what the assertions read of it.
#[derive(Debug, Clone, PartialEq, Eq)]
pub enum FieldValue {
    /// `null`.
    Null,
    /// `true` or `false`.
    Bool(bool),
    /// An integer, with its value when it fits in 64 bits.
    Int(Option<i64>),
    /// A number with a fraction or exponent, with the whole number it equals
    /// exactly, if any.
    Float(Option<i64>),
    /// A string.
    Str(String),
    /// An array.
    List,
    /// An object.
    Object,
}

/// One field of an assertion as read from JSON.
#[derive(Debug, Clone, PartialEq, Eq)]
pub struct Field {
    /// The value.
    pub value: FieldValue,
    /// How Python's `str` prints it.
    pub str_text: String,
    /// How Python's `repr` prints it.
    pub repr_text: String,
}

/// The fields of an assertion the built-ins read.
#[derive(Debug, Clone, PartialEq, Eq)]
pub struct AssertionSpec {
    /// `type`.
    pub kind: Option<Field>,
    /// `name`.
    pub name: Option<Field>,
    /// `value`.
    pub value: Option<Field>,
    /// `detail`.
    pub detail: Option<Field>,
    /// `path`.
    pub path: Option<Field>,
}

/// The text of a string field.
pub open spec fn field_str(f: Option<Field>) -> Option<Seq<char>> {
    match f {
        Some(Field { value: FieldValue::Str(s), .. }) => Some(s@),
        _ => None,
    }
}

/// Python's name for a field's type.
pub open spec fn type_name_spec(v: FieldValue) -> Seq<char> {
    match v {
        FieldValue::Null => "NoneType"@,
        FieldValue::Bool(_) => "bool"@,
        FieldValue::Int(_) => "int"@,
        FieldValue::Float(_) => "float"@,
        FieldValue::Str(_) => "str"@,
        FieldValue::List => "list"@,
        FieldValue::Object => "dict"@,
    }
}

/// Python's name for a field's type.
pub fn python_type_name(v: &FieldValue) -> (s: &'static str)
    ensures
        s@ == type_name_spec(*v),
{
    match v {
        FieldValue::Null => "NoneType",
        FieldValue::Bool(_) => "bool",
        FieldValue::Int(_) => "int",
        FieldValue::Float(_) => "float",
        FieldValue::Str(_) => "str",
        FieldValue::List => "list",
        FieldValue::Object => "dict",
    }
}

/// An assertion's name: its `name` when that is a string, else its `type`
/// when that is a string, else `assertion`.
pub open spec fn assertion_name(a: AssertionSpec) -> Seq<char> {
    match field_str(a.name) {
        Some(n) => n,
        None => match field_str(a.kind) {
            Some(k) => k,
            None => "assertion"@,
        },
    }
}

fn field_text(f: &Option<Field>) -> (r: Option<&str>)
    ensures
        match field_str(*f) {
            Some(s) => r matches Some(t) && t@ == s,
            None => r is None,
        },
{
    match f {
        Some(Field { value: FieldValue::Str(s), .. }) => Some(s.as_str()),
        _ => None,
    }
}

/// An assertion's name.
pub fn name_of(a: &AssertionSpec) -> (s: String)
    ensures
        s@ == assertion_name(*a),
{
    match field_text(&a.name) {
        Some(n) => owned(n),
        None => match field_text(&a.kind) {
            Some(k) => owned(k),
            None => owned("assertion"),
        },
    }
}

/// Python's `==` between an expected value and an exit code: `None` equals
/// only a missing code; `True` and `False` are 1 and 0; a number equals the
/// code when it is exactly that whole number; nothing else equals a code.
pub open spec fn python_eq(expected: FieldValue, exit_code: Option<i32>) -> bool {
    match exit_code {
        None => expected is Null,
        Some(code) => match expected {
            FieldValue::Bool(b) => (if b {
                1int
            } else {
                0int
            }) == code as int,
            FieldValue::Int(Some(i)) => i as int == code as int,
            FieldValue::Float(Some(i)) => i as int == code as int,
            _ => false,
        },
    }
}

fn python_eq_exec(expected: &FieldValue, exit_code: Option<i32>) -> (r: bool)
    ensures
        r == python_eq(*expected, exit_code),
{
    match exit_code {
        None => match expected {
            FieldValue::Null => true,
            _ => false,
        },
        Some(code) => match expected {
            FieldValue::Bool(b) => (if *b {
                1i64
            } else {
                0i64
            }) == code as i64,
            FieldValue::Int(Some(i)) => *i == code as i64,
            FieldValue::Float(Some(i)) => *i == code as i64,
            _ => false,
        },
    }
}

/// A recipe-relative path: an absolute path as it is, a relative one joined
/// lexically to the recipe's working directory (or `.`).
pub open spec fn recipe_path_spec(cwd: Option<Seq<char>>, path: Seq<char>) -> Seq<char> {
    let candidate = parse_spec(path);
    if candidate.absolute {
        render_spec(candidate)
    } else {
        render_spec(
            join_spec(
                parse_spec(
                    match cwd {
                        Some(c) => c,
                        None => "."@,
                    },
                ),
                candidate,
            ),
        )
    }
}

/// Resolve a path the way the file assertions do.
pub fn recipe_path(cwd: Option<&str>, path: &str) -> (s: String)
    ensures
        s@ == recipe_path_spec(
            match cwd {
                Some(c) => Some(c@),
                None => None,
            },
            path@,
        ),
{
    let candidate = PyPath::parse(path);
    if candidate.is_absolute() {
        return candidate.to_string();
    }
    let base = PyPath::parse(
        match cwd {
            Some(c) => c,
            None => ".",
        },
    );
    base.join(&candidate).to_string()
}

/// What evaluating an assertion needs before it has a verdict.
#[derive(Debug, Clone, PartialEq, Eq)]
pub enum Check {
    /// The verdict, needing nothing more.
    Done(AssertionResult),
    /// Whether a file exists at `path`.
    FileExists {
        /// The assertion's name.
        name: String,
        /// The resolved path.
        path: String,
    },
    /// Whether the file at `path` holds `needle`.
    FileContains {
        /// The assertion's name.
        name: String,
        /// The resolved path.
        path: String,
        /// The text to look for.
        needle: String,
    },
    /// Whether the raw output validates against the assertion's schema.
    JsonSchema {
        /// The assertion's name.
        name: String,
    },
}

/// The four assertions that search a text.
pub open spec fn is_contains_kind(k: Seq<char>) -> bool {
    k == "output_contains"@ || k == "output_not_contains"@ || k == "screen_contains"@ || k
        == "screen_not_contains"@
}

/// `{kind} requires a 'key'`.
pub open spec fn missing_key(kind: Seq<char>, key: Seq<char>) -> Seq<char> {
    kind + " requires a "@ + repr_str_spec(key)
}

/// `{kind} 'key' must be a string, got {type}`.
pub open spec fn not_a_string(kind: Seq<char>, key: Seq<char>, v: FieldValue) -> Seq<char> {
    kind + " "@ + repr_str_spec(key) + " must be a string, got "@ + type_name_spec(v)
}

/// The detail a `detail` field sets: a non-empty string overrides.
pub open spec fn custom_detail(a: AssertionSpec) -> Option<Seq<char>> {
    match field_str(a.detail) {
        Some(d) => if d.len() > 0 {
            Some(d)
        } else {
            None
        },
        None => None,
    }
}

/// The failed result with `detail`.
pub open spec fn failed(r: AssertionResult, name: Seq<char>, detail: Seq<char>) -> bool {
    r.name@ == name && !r.passed && r.detail@ == detail
}

/// A required string `key`: its text, or the failure detail.
pub open spec fn required_str(f: Option<Field>, kind: Seq<char>, key: Seq<char>) -> Result<
    Seq<char>,
    Seq<char>,
> {
    match f {
        None => Err(missing_key(kind, key)),
        Some(field) => match field.value {
            FieldValue::Str(s) => Ok(s@),
            _ => Err(not_a_string(kind, key, field.value)),
        },
    }
}

/// What evaluating `a` against the screen, the raw output and the exit code
/// comes to, with `cwd` the recipe's working directory.
pub open spec fn check_spec(
    c: Check,
    a: AssertionSpec,
    cwd: Option<Seq<char>>,
    screen: Seq<char>,
    raw: Seq<char>,
    exit_code: Option<i32>,
) -> bool {
    let name = assertion_name(a);
    match a.kind {
        None => c matches Check::Done(r) && failed(r, name, "assertion has no 'type'"@),
        Some(kind_field) => match kind_field.value {
            FieldValue::Str(k) => {
                let kind = k@;
                if is_contains_kind(kind) {
                    let want = kind == "output_contains"@ || kind == "screen_contains"@;
                    let hay = if kind == "output_contains"@ || kind == "output_not_contains"@ {
                        raw
                    } else {
                        screen
                    };
                    match required_str(a.value, kind, "value"@) {
                        Err(e) => c matches Check::Done(r) && failed(r, name, e),
                        Ok(needle) => c matches Check::Done(r) && r.name@ == name && r.passed == (
                        contains(hay, needle) == want) && r.detail@ == match custom_detail(a) {
                            Some(d) => d,
                            None => (if want {
                                "contains "@
                            } else {
                                "does not contain "@
                            }) + repr_str_spec(needle),
                        },
                    }
                } else if kind == "exit_code"@ {
                    match a.value {
                        None => c matches Check::Done(r) && failed(
                            r,
                            name,
                            missing_key(kind, "value"@),
                        ),
                        Some(v) => c matches Check::Done(r) && r.name@ == name && r.passed
                            == python_eq(v.value, exit_code) && r.detail@ == "expected "@
                            + v.str_text@ + ", got "@ + match exit_code {
                            Some(code) => crate::junit::int_text(code as int),
                            None => "None"@,
                        },
                    }
                } else if kind == "file_exists"@ {
                    match a.value {
                        None => c matches Check::Done(r) && failed(
                            r,
                            name,
                            missing_key(kind, "value"@),
                        ),
                        Some(v) => c matches Check::FileExists { name: n, path } && n@ == name
                            && path@ == recipe_path_spec(cwd, v.str_text@),
                    }
                } else if kind == "file_contains"@ {
                    match a.path {
                        None => c matches Check::Done(r) && failed(
                            r,
                            name,
                            missing_key(kind, "path"@),
                        ),
                        Some(p) => match required_str(a.value, kind, "value"@) {
                            Err(e) => c matches Check::Done(r) && failed(r, name, e),
                            Ok(needle) => c matches Check::FileContains { name: n, path, needle: nd }
                                && n@ == name && path@ == recipe_path_spec(cwd, p.str_text@) && nd@
                                == needle,
                        },
                    }
                } else if kind == "json_schema"@ {
                    c matches Check::JsonSchema { name: n } && n@ == name
                } else {
                    c matches Check::Done(r) && failed(
                        r,
                        name,
                        "unknown assertion type "@ + repr_str_spec(kind),
                    )
                }
            },
            _ => c matches Check::Done(r) && failed(
                r,
                name,
                "unknown assertion type "@ + kind_field.repr_text@,
            ),
        },
    }
}

fn failure(name: String, detail: String) -> (r: AssertionResult)
    ensures
        r.name == name,
        !r.passed,
        r.detail == detail,
{
    AssertionResult { name, passed: false, detail }
}

fn missing_key_text(kind: &str, key: &str) -> (s: String)
    ensures
        s@ == missing_key(kind@, key@),
{
    let mut s = owned(kind);
    push_str(&mut s, " requires a ");
    let q = repr_str(key);
    push_str(&mut s, q.as_str());
    s
}

fn required_str_exec<'a>(f: &'a Option<Field>, kind: &str, key: &str) -> (r: Result<&'a str, String>)
    ensures
        match required_str(*f, kind@, key@) {
            Ok(s) => r matches Ok(t) && t@ == s,
            Err(e) => r matches Err(m) && m@ == e,
        },
{
    match f {
        None => Err(missing_key_text(kind, key)),
        Some(field) => match &field.value {
            FieldValue::Str(s) => Ok(s.as_str()),
            other => {
                let mut m = owned(kind);
                push_str(&mut m, " ");
                let q = repr_str(key);
                push_str(&mut m, q.as_str());
                push_str(&mut m, " must be a string, got ");
                push_str(&mut m, python_type_name(other));
                Err(m)
            },
        },
    }
}

/// Evaluate assertion `a` against the screen, the raw output and the exit
/// code: the verdict, or what the caller has to look at first for the file
/// and schema assertions.
pub fn evaluate(
    a: &AssertionSpec,
    cwd: Option<&str>,
    screen: &str,
    raw_output: &str,
    exit_code: Option<i32>,
) -> (c: Check)
    ensures
        check_spec(
            c,
            *a,
            match cwd {
                Some(s) => Some(s@),
                None => None,
            },
            screen@,
            raw_output@,
            exit_code,
        ),
{
    let name = name_of(a);
    let kind_field = match &a.kind {
        None => {
            return Check::Done(failure(name, owned("assertion has no 'type'")));
        },
        Some(k) => k,
    };
    let kind = match &kind_field.value {
        FieldValue::Str(k) => k.as_str(),
        _ => {
            let mut d = owned("unknown assertion type ");
            push_str(&mut d, kind_field.repr_text.as_str());
            return Check::Done(failure(name, d));
        },
    };
    let output_kind = str_eq(kind, "output_contains") || str_eq(kind, "output_not_contains");
    let screen_kind = str_eq(kind, "screen_contains") || str_eq(kind, "screen_not_contains");
    if output_kind || screen_kind {
        let want = str_eq(kind, "output_contains") || str_eq(kind, "screen_contains");
        let hay = if output_kind {
            raw_output
        } else {
            screen
        };
        let needle = match required_str_exec(&a.value, kind, "value") {
            Err(e) => {
                return Check::Done(failure(name, e));
            },
            Ok(n) => n,
        };
        let found = str_contains(hay, needle);
        let detail = match field_text(&a.detail) {
            Some(d) if !d.is_empty() => owned(d),
            _ => {
                let mut d = owned(if want {
                    "contains "
                } else {
                    "does not contain "
                });
                let q = repr_str(needle);
                push_str(&mut d, q.as_str());
                d
            },
        };
        return Check::Done(AssertionResult { name, passed: found == want, detail });
    }
    if str_eq(kind, "exit_code") {
        let v = match &a.value {
            None => {
                return Check::Done(failure(name, missing_key_text(kind, "value")));
            },
            Some(v) => v,
        };
        let passed = python_eq_exec(&v.value, exit_code);
        let mut d = owned("expected ");
        push_str(&mut d, v.str_text.as_str());
        push_str(&mut d, ", got ");
        match exit_code {
            Some(code) => {
                let mut digits: Vec<char> = Vec::new();
                if code < 0 {
                    push_str(&mut d, "-");
                    let magnitude: i64 = -(code as i64);
                    push_decimal(&mut digits, magnitude as u64);
                } else {
                    push_decimal(&mut digits, code as u64);
                }
                let t = string_of(digits.as_slice());
                push_str(&mut d, t.as_str());
            },
            None => push_str(&mut d, "None"),
        }
        assert(d@ == "expected "@ + v.str_text@ + ", got "@ + match exit_code {
            Some(code) => crate::junit::int_text(code as int),
            None => "None"@,
        });
        assert(!is_contains_kind(kind@));
        return Check::Done(AssertionResult { name, passed, detail: d });
    }
    if str_eq(kind, "file_exists") {
        return match &a.value {
            None => Check::Done(failure(name, missing_key_text(kind, "value"))),
            Some(v) => Check::FileExists { name, path: recipe_path(cwd, v.str_text.as_str()) },
        };
    }
    if str_eq(kind, "file_contains") {
        let p = match &a.path {
            None => {
                return Check::Done(failure(name, missing_key_text(kind, "path")));
            },
            Some(p) => p,
        };
        return match required_str_exec(&a.value, kind, "value") {
            Err(e) => Check::Done(failure(name, e)),
            Ok(needle) => Check::FileContains {
                name,
                path: recipe_path(cwd, p.str_text.as_str()),
                needle: owned(needle),
            },
        };
    }
    if str_eq(kind, "json_schema") {
        return Check::JsonSchema { name };
    }
    let mut d = owned("unknown assertion type ");
    let q = repr_str(kind);
    push_str(&mut d, q.as_str());
    Check::Done(failure(name, d))
}

/// The verdict of `file_exists`: whether the file was there, with the
/// resolved path as the detail.
pub fn file_exists_result(name: &str, path: &str, exists: bool) -> (r: AssertionResult)
    ensures
        r.name@ == name@,
        r.passed == exists,
        r.detail@ == path@,
{
    AssertionResult { name: owned(name), passed: exists, detail: owned(path) }
}

/// The verdict of `file_contains` on the file's text (empty when the file is
/// missing).
pub fn file_contains_result(name: &str, text: &str, needle: &str) -> (r: AssertionResult)
    ensures
        r.name@ == name@,
        r.passed == contains(text@, needle@),
        r.detail@ == "contains "@ + repr_str_spec(needle@),
{
    let mut d = owned("contains ");
    let q = repr_str(needle);
    push_str(&mut d, q.as_str());
    AssertionResult { name: owned(name), passed: str_contains(text, needle), detail: d }
}

/// The assertion types answered here, in name order.
pub open spec fn builtin_types() -> Seq<Seq<char>> {
    seq![
        "exit_code"@,
        "file_contains"@,
        "file_exists"@,
        "json_schema"@,
        "output_contains"@,
        "output_not_contains"@,
        "screen_contains"@,
        "screen_not_contains"@,
    ]
}

/// The built-in assertion types, in name order, for a caller that needs to
/// know whether a name is claimed before dispatching.
pub fn builtin_registry() -> (r: Vec<&'static str>)
    ensures
        r@.len() == builtin_types().len(),
        forall|i: int| 0 <= i < r@.len() ==> #[trigger] r@[i]@ == builtin_types()[i],
{
    let r = vec![
        "exit_code",
        "file_contains",
        "file_exists",
        "json_schema",
        "output_contains",
        "output_not_contains",
        "screen_contains",
        "screen_not_contains",
    ];
    r
}


/// The assertion a recipe's expected exit code adds: `exit_code` with the
/// code as its value.
pub open spec fn expected_exit_assertion(a: AssertionSpec, code: i32) -> bool {
    &&& a.kind matches Some(k) && k.value matches FieldValue::Str(t) && t@ == "exit_code"@
    &&& a.value matches Some(v) && v.value == FieldValue::Int(Some(code as i64)) && v.str_text@
        == crate::junit::int_text(code as int) && v.repr_text@ == crate::junit::int_text(code as int)
    &&& a.name is None && a.detail is None && a.path is None
}

pub(crate) fn int_string(n: i32) -> (s: String)
    ensures
        s@ == crate::junit::int_text(n as int),
{
    let mut digits: Vec<char> = Vec::new();
    let mut s = String::new();
    if n < 0 {
        push_str(&mut s, "-");
        let magnitude: i64 = -(n as i64);
        push_decimal(&mut digits, magnitude as u64);
    } else {
        push_decimal(&mut digits, n as u64);
    }
    let t = string_of(digits.as_slice());
    push_str(&mut s, t.as_str());
    s
}

/// The assertions a recipe evaluates, in order: its own, then an `exit_code`
/// assertion when it expects an exit code. An explicit `exit_code` assertion
/// does not replace the added one; both are evaluated.
pub fn evaluated_list(assertions: Vec<AssertionSpec>, expect_exit_code: Option<i32>) -> (out: Vec<
    AssertionSpec,
>)
    ensures
        match expect_exit_code {
            None => out@ == assertions@,
            Some(code) => out@.len() == assertions@.len() + 1 && out@.take(assertions@.len() as int)
                == assertions@ && expected_exit_assertion(out@.last(), code),
        },
{
    let mut out = assertions;
    match expect_exit_code {
        None => {},
        Some(code) => {
            let ghost before = out@;
            let text = int_string(code);
            let repr = int_string(code);
            out.push(
                AssertionSpec {
                    kind: Some(
                        Field {
                            value: FieldValue::Str(owned("exit_code")),
                            str_text: owned("exit_code"),
                            repr_text: owned("'exit_code'"),
                        },
                    ),
                    name: None,
                    value: Some(
                        Field { value: FieldValue::Int(Some(code as i64)), str_text: text, repr_text: repr },
                    ),
                    detail: None,
                    path: None,
                },
            );
            assert(out@.take(before.len() as int) =~= before);
        },
    }
    out
}


/// The exit-code assertion a recipe's expected code adds passes exactly when
/// the target exited with that code.
pub proof fn lemma_expected_exit_code_passes_exactly_on_that_code(
    a: AssertionSpec,
    code: i32,
    cwd: Option<Seq<char>>,
    screen: Seq<char>,
    raw: Seq<char>,
    exit_code: Option<i32>,
    c: Check,
)
    requires
        expected_exit_assertion(a, code),
        check_spec(c, a, cwd, screen, raw, exit_code),
    ensures
        c matches Check::Done(r) && r.passed == (exit_code == Some(code)),
{
    reveal_strlit("exit_code");
    reveal_strlit("output_contains");
    reveal_strlit("output_not_contains");
    reveal_strlit("screen_contains");
    reveal_strlit("screen_not_contains");
    assert("exit_code"@ != "output_contains"@);
    assert("exit_code"@ != "output_not_contains"@);
    assert("exit_code"@ != "screen_contains"@);
    assert("exit_code"@ != "screen_not_contains"@);
}

/// What marks an assertion type that evaluation does not know.
pub open spec fn unknown_type_prefix() -> Seq<char> {
    "unknown assertion type "@
}

/// Whether `s` begins with `p`.
pub open spec fn begins_with(s: Seq<char>, p: Seq<char>) -> bool {
    p.len() <= s.len() && s.take(p.len() as int) == p
}

/// Every type the registry names is known to evaluation: an assertion of a
/// registered type without a detail of its own never comes back as an
/// unknown type, whatever else it holds.
pub proof fn lemma_every_registered_type_is_evaluated(
    c: Check,
    a: AssertionSpec,
    cwd: Option<Seq<char>>,
    screen: Seq<char>,
    raw: Seq<char>,
    exit_code: Option<i32>,
    i: int,
)
    requires
        0 <= i < builtin_types().len(),
        a.kind matches Some(f) && f.value matches FieldValue::Str(k) && k@ == builtin_types()[i],
        a.detail is None,
        check_spec(c, a, cwd, screen, raw, exit_code),
    ensures
        !(c matches Check::Done(r) && begins_with(r.detail@, unknown_type_prefix())),
{
    reveal_strlit("unknown assertion type ");
    reveal_strlit("exit_code");
    reveal_strlit("file_contains");
    reveal_strlit("file_exists");
    reveal_strlit("json_schema");
    reveal_strlit("output_contains");
    reveal_strlit("output_not_contains");
    reveal_strlit("screen_contains");
    reveal_strlit("screen_not_contains");
    reveal_strlit("contains ");
    reveal_strlit("does not contain ");
    reveal_strlit("expected ");
    let kind = builtin_types()[i];
    assert(kind.len() > 0 && kind[0] != 'u');
    assert(custom_detail(a) is None);
    if let Check::Done(r) = c {
        let d = r.detail@;
        if begins_with(d, unknown_type_prefix()) {
            assert(d[0] == 'u') by {
                assert(d.take(23)[0] == d[0]);
            }
            assert(is_contains_kind(kind) || kind == "exit_code"@ || kind == "file_exists"@ || kind
                == "file_contains"@ || kind == "json_schema"@);
            assert(forall|x: Seq<char>, y: Seq<char>| x.len() > 0 ==> #[trigger] (x + y)[0] == x[0]);
            assert(false);
        }
    }
}

/// Each text assertion searches its own text: `output_contains` and
/// `output_not_contains` search the raw output, `screen_contains` and
/// `screen_not_contains` the screen. With a string `value`, the assertion is
/// decided at once, passes exactly when the value occurs in that text (for
/// the `contains` kinds) or does not (for the `not_contains` kinds), and
/// without a detail of its own says `contains` or `does not contain` and the value's repr.
pub proof fn lemma_text_assertions_search_their_own_text(
    c: Check,
    a: AssertionSpec,
    cwd: Option<Seq<char>>,
    screen: Seq<char>,
    raw: Seq<char>,
    exit_code: Option<i32>,
    kind: Seq<char>,
    needle: Seq<char>,
)
    requires
        a.kind matches Some(f) && f.value matches FieldValue::Str(k) && k@ == kind,
        kind == "output_contains"@ || kind == "output_not_contains"@ || kind == "screen_contains"@
            || kind == "screen_not_contains"@,
        field_str(a.value) == Some(needle),
        check_spec(c, a, cwd, screen, raw, exit_code),
    ensures
        c matches Check::Done(r) && r.passed == (if kind == "output_contains"@ {
            contains(raw, needle)
        } else if kind == "output_not_contains"@ {
            !contains(raw, needle)
        } else if kind == "screen_contains"@ {
            contains(screen, needle)
        } else {
            !contains(screen, needle)
        }),
        custom_detail(a) is None ==> (c matches Check::Done(r) && r.detail@ == (if kind
            == "output_contains"@ || kind == "screen_contains"@ {
            "contains "@
        } else {
            "does not contain "@
        }) + repr_str_spec(needle)),
{
    reveal_strlit("output_contains");
    reveal_strlit("output_not_contains");
    reveal_strlit("screen_contains");
    reveal_strlit("screen_not_contains");
    assert("output_contains"@.len() != "output_not_contains"@.len());
    assert("output_contains"@[0] != "screen_contains"@[0]);
    assert("output_contains"@.len() != "screen_not_contains"@.len());
    assert("output_not_contains"@.len() != "screen_contains"@.len());
    assert("output_not_contains"@[0] != "screen_not_contains"@[0]);
    assert("screen_contains"@.len() != "screen_not_contains"@.len());
    assert(required_str(a.value, kind, "value"@) == Ok::<Seq<char>, Seq<char>>(needle));
}

} // verus!
