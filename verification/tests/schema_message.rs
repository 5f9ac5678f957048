use termproof::config::Json;
use termproof::schema_message::{
    describe, json_schema_verdict, quoted_names, schema_outcome, schema_source, SchemaError, SchemaErrorKind,
    SchemaOutcome, SchemaSource, SchemaVerdict,
};

fn error(instance: &str, kind: SchemaErrorKind) -> SchemaError {
    SchemaError { instance: instance.to_string(), kind }
}

#[test]
fn a_type_error_names_the_type_with_python_quotes() {
    let e = error("{'a': 1}", SchemaErrorKind::Type { names: vec!["array".to_string()] });
    assert_eq!(describe(&e), "{'a': 1} is not of type 'array'");
}

#[test]
fn several_allowed_types_are_listed() {
    let e = error("1", SchemaErrorKind::Type { names: vec!["string".to_string(), "null".to_string()] });
    assert_eq!(describe(&e), "1 is not of type 'string', 'null'");
}

#[test]
fn a_missing_property_is_named() {
    let e = error("{'a': 1}", SchemaErrorKind::Required { property: "'zzz'".to_string() });
    assert_eq!(describe(&e), "'zzz' is a required property");
}

#[test]
fn counts_are_written_in_decimal() {
    let e = error("[1, 2, 3]", SchemaErrorKind::MaxItems { limit: 1 });
    assert_eq!(describe(&e), "[1, 2, 3] has more than 1 items");
    let e = error("'ab'", SchemaErrorKind::MinLength { limit: 12 });
    assert_eq!(describe(&e), "'ab' is shorter than 12 characters");
    let e = error("{}", SchemaErrorKind::MinProperties { limit: 3 });
    assert_eq!(describe(&e), "{} has fewer than 3 properties");
}

#[test]
fn a_failed_any_of_reports_the_parent() {
    let e = error("{}", SchemaErrorKind::AnyOf);
    assert_eq!(describe(&e), "{} does not match any of the given schemas");
    let e = error("{}", SchemaErrorKind::OneOfMultipleValid);
    assert_eq!(describe(&e), "{} matches more than one of the given schemas");
}

#[test]
fn a_constant_keeps_its_rendering() {
    let e = error("'x'", SchemaErrorKind::Constant { expected_value: "\"it's\"".to_string() });
    assert_eq!(describe(&e), "'x' does not equal \"it's\"");
}

#[test]
fn patterns_and_formats_are_quoted_here() {
    let e = error("'x'", SchemaErrorKind::Pattern { pattern: "^a+$".to_string() });
    assert_eq!(describe(&e), "'x' does not match pattern '^a+$'");
    let e = error("'x'", SchemaErrorKind::Format { format: "it's".to_string() });
    assert_eq!(describe(&e), "'x' is not a valid \"it's\"");
}

#[test]
fn unexpected_properties_are_listed() {
    let e = error(
        "{'b': 1, 'c': 2}",
        SchemaErrorKind::AdditionalProperties { unexpected: vec!["b".to_string(), "c".to_string()] },
    );
    assert_eq!(describe(&e), "unexpected properties 'b', 'c'");
}

#[test]
fn a_bad_property_name_describes_the_name() {
    let inner = error("'Bad'", SchemaErrorKind::Pattern { pattern: "^[a-z]+$".to_string() });
    let e = error("{'Bad': 1}", SchemaErrorKind::PropertyNames { error: Box::new(inner) });
    assert_eq!(describe(&e), "invalid property name: 'Bad' does not match pattern '^[a-z]+$'");
}

#[test]
fn a_custom_message_is_kept_and_anything_else_is_generic() {
    let e = error("1", SchemaErrorKind::Custom { message: "too odd".to_string() });
    assert_eq!(describe(&e), "too odd");
    let e = error("1", SchemaErrorKind::Other);
    assert_eq!(describe(&e), "1 does not satisfy the schema");
}

#[test]
fn no_names_quote_to_nothing() {
    assert_eq!(quoted_names(&vec![]), "");
}

fn assertion(members: Vec<(&str, Json)>) -> Json {
    let mut all = vec![("type".to_string(), Json::Str("json_schema".into()))];
    all.extend(members.into_iter().map(|(k, v)| (k.to_string(), v)));
    Json::Object(all)
}

fn object_schema() -> Json {
    Json::Object(vec![("type".to_string(), Json::Str("object".into()))])
}

#[test]
fn json_schema_reports_the_fixed_message_when_there_is_no_schema() {
    for a in [
        assertion(vec![]),
        assertion(vec![("schema", Json::Array(vec![]))]),
        assertion(vec![("schema", Json::Number("5".into()))]),
        assertion(vec![("schema", Json::Null)]),
    ] {
        assert_eq!(schema_source(&a), SchemaSource::Missing);
    }
    let (passed, detail) = schema_outcome(&SchemaOutcome::NoSchema);
    assert!(!passed);
    assert_eq!(detail, "json_schema requires an object schema or schema path");
}

#[test]
fn a_null_schema_path_is_not_a_path() {
    let a = assertion(vec![("schema_path", Json::Null), ("schema", object_schema())]);
    assert_eq!(schema_source(&a), SchemaSource::Inline);
    assert_eq!(json_schema_verdict(r#"{"type":"object"}"#, "{}"), SchemaVerdict::Matches);
}

#[test]
fn json_schema_passes_a_matching_instance() {
    assert_eq!(json_schema_verdict(r#"{"type":"object"}"#, "  {\"a\": 1}  "), SchemaVerdict::Matches);
}

#[test]
fn an_instance_of_the_wrong_type_is_rejected() {
    let schema = r#"{"properties":{"a":{"type":"string"}}}"#;
    assert_eq!(json_schema_verdict(schema, "{\"a\": 1}"), SchemaVerdict::Rejected);
}

#[test]
fn a_schema_path_wins_and_a_string_schema_names_a_file() {
    let a = assertion(vec![("schema_path", Json::Str("s.json".into())), ("schema", object_schema())]);
    assert_eq!(schema_source(&a), SchemaSource::FileNamed("s.json".into()));
    let a = assertion(vec![("schema", Json::Str("t.json".into()))]);
    assert_eq!(schema_source(&a), SchemaSource::FileNamed("t.json".into()));
    let a = assertion(vec![("schema_path", Json::Number("3".into()))]);
    assert_eq!(schema_source(&a), SchemaSource::FileNamedByValue);
}

#[test]
fn each_parse_failure_is_described() {
    assert_eq!(json_schema_verdict("{", "{}"), SchemaVerdict::SchemaNotJson("unexpected end of input".into()));
    assert_eq!(json_schema_verdict(r#"{"type":5}"#, "{}"), SchemaVerdict::SchemaInvalid);
    assert_eq!(json_schema_verdict(r#"{"type":"object"}"#, "   "), SchemaVerdict::OutputNotJson("no output to parse".into()));
}
