use termproof::assertions::{
    builtin_registry, evaluate, file_contains_result, file_exists_result, name_of, recipe_path,
    AssertionSpec, Check, Field, FieldValue,
};
use termproof::result::AssertionResult;

fn text(s: &str) -> Field {
    Field {
        value: FieldValue::Str(s.to_string()),
        str_text: s.to_string(),
        repr_text: format!("'{s}'"),
    }
}

fn field(value: FieldValue, str_text: &str, repr_text: &str) -> Field {
    Field { value, str_text: str_text.to_string(), repr_text: repr_text.to_string() }
}

fn spec(kind: &str, value: Option<Field>) -> AssertionSpec {
    AssertionSpec { kind: Some(text(kind)), name: None, value, detail: None, path: None }
}

fn done(c: Check) -> AssertionResult {
    match c {
        Check::Done(r) => r,
        other => panic!("expected a verdict, got {other:?}"),
    }
}

fn eval(a: AssertionSpec, screen: &str, raw: &str, code: Option<i32>) -> AssertionResult {
    done(evaluate(&a, None, screen, raw, code))
}

#[test]
fn contains_searches_only_its_own_haystack() {
    assert!(!eval(spec("output_contains", Some(text("S"))), "S", "R", None).passed);
    assert!(!eval(spec("screen_contains", Some(text("R"))), "S", "R", None).passed);
}

#[test]
fn the_contains_detail_is_the_same_either_way() {
    let hit = eval(spec("output_contains", Some(text("R"))), "", "R", None);
    let miss = eval(spec("output_contains", Some(text("R"))), "", "", None);
    assert_eq!(hit.detail, "contains 'R'");
    assert_eq!(miss.detail, "contains 'R'");
    assert!(hit.passed && !miss.passed);
    let not = eval(spec("screen_not_contains", Some(text("x"))), "abc", "", None);
    assert!(not.passed);
    assert_eq!(not.detail, "does not contain 'x'");
}

#[test]
fn an_empty_needle_is_always_present() {
    assert!(eval(spec("output_contains", Some(text(""))), "", "", None).passed);
    assert!(!eval(spec("output_not_contains", Some(text(""))), "", "", None).passed);
}

#[test]
fn an_empty_detail_override_falls_through() {
    let mut a = spec("output_contains", Some(text("R")));
    a.detail = Some(text("mine"));
    assert_eq!(eval(a, "", "R", None).detail, "mine");
    let mut b = spec("output_contains", Some(text("R")));
    b.detail = Some(text(""));
    assert_eq!(eval(b, "", "R", None).detail, "contains 'R'");
}

#[test]
fn the_name_defaults_to_the_type() {
    assert_eq!(eval(spec("screen_contains", Some(text(""))), "", "", None).name, "screen_contains");
    let mut a = spec("screen_contains", Some(text("")));
    a.name = Some(text("mine"));
    assert_eq!(name_of(&a), "mine");
    let nameless = AssertionSpec { kind: None, name: None, value: None, detail: None, path: None };
    assert_eq!(name_of(&nameless), "assertion");
}

#[test]
fn exit_code_compares_the_way_python_compares() {
    let rows: [(Field, Option<i32>, bool, &str); 8] = [
        (field(FieldValue::Int(Some(0)), "0", "0"), Some(0), true, "expected 0, got 0"),
        (field(FieldValue::Int(Some(1)), "1", "1"), Some(0), false, "expected 1, got 0"),
        (field(FieldValue::Bool(true), "True", "True"), Some(1), true, "expected True, got 1"),
        (field(FieldValue::Bool(false), "False", "False"), Some(0), true, "expected False, got 0"),
        (field(FieldValue::Float(Some(0)), "0.0", "0.0"), Some(0), true, "expected 0.0, got 0"),
        (text("0"), Some(0), false, "expected 0, got 0"),
        (field(FieldValue::Int(Some(0)), "0", "0"), None, false, "expected 0, got None"),
        (field(FieldValue::Null, "None", "None"), None, true, "expected None, got None"),
    ];
    for (value, code, passed, detail) in rows {
        let r = eval(spec("exit_code", Some(value)), "", "", code);
        assert_eq!(r.passed, passed, "{detail}");
        assert_eq!(r.detail, detail);
    }
    let neg = eval(spec("exit_code", Some(field(FieldValue::Int(Some(-3)), "-3", "-3"))), "", "", Some(-3));
    assert!(neg.passed);
    assert_eq!(neg.detail, "expected -3, got -3");
}

#[test]
fn paths_join_the_way_pathlib_joins_them() {
    let cases = [
        ("/tmp/fx/exists.txt", "/tmp/fx/exists.txt"),
        ("exists.txt", "/tmp/fx/exists.txt"),
        ("./exists.txt", "/tmp/fx/exists.txt"),
        ("sub/../exists.txt", "/tmp/fx/sub/../exists.txt"),
        ("", "/tmp/fx"),
    ];
    for (input, want) in cases {
        match evaluate(&spec("file_exists", Some(text(input))), Some("/tmp/fx"), "", "", None) {
            Check::FileExists { path, .. } => assert_eq!(path, want, "{input}"),
            other => panic!("{other:?}"),
        }
    }
    assert_eq!(recipe_path(Some("/tmp/fx//"), "exists.txt"), "/tmp/fx/exists.txt");
    assert_eq!(recipe_path(None, "a/b"), "a/b");
}

#[test]
fn file_exists_stringifies_whatever_it_is_given() {
    for (value, want) in [
        (field(FieldValue::Int(Some(5)), "5", "5"), "/tmp/fx/5"),
        (field(FieldValue::Bool(true), "True", "True"), "/tmp/fx/True"),
        (field(FieldValue::Null, "None", "None"), "/tmp/fx/None"),
    ] {
        match evaluate(&spec("file_exists", Some(value)), Some("/tmp/fx"), "", "", None) {
            Check::FileExists { path, name } => {
                assert_eq!(path, want);
                assert_eq!(name, "file_exists");
            }
            other => panic!("{other:?}"),
        }
    }
    let r = file_exists_result("file_exists", "/tmp/fx/5", false);
    assert!(!r.passed);
    assert_eq!(r.detail, "/tmp/fx/5");
}

#[test]
fn file_contains_reads_the_resolved_file() {
    let mut a = spec("file_contains", Some(text("needle")));
    a.path = Some(text("log.txt"));
    match evaluate(&a, Some("/work"), "", "", None) {
        Check::FileContains { path, needle, .. } => {
            assert_eq!(path, "/work/log.txt");
            assert_eq!(needle, "needle");
        }
        other => panic!("{other:?}"),
    }
    let r = file_contains_result("file_contains", "a needle here", "needle");
    assert!(r.passed);
    assert_eq!(r.detail, "contains 'needle'");
    assert!(!file_contains_result("file_contains", "", "needle").passed);
}

#[test]
fn malformed_assertions_fail_instead_of_ending_the_run() {
    let none = AssertionSpec { kind: None, name: None, value: None, detail: None, path: None };
    assert_eq!(eval(none, "", "", None).detail, "assertion has no 'type'");
    let numbered = AssertionSpec {
        kind: Some(field(FieldValue::Int(Some(7)), "7", "7")),
        name: None,
        value: None,
        detail: None,
        path: None,
    };
    let r = eval(numbered, "", "", None);
    assert_eq!((r.name.as_str(), r.detail.as_str()), ("assertion", "unknown assertion type 7"));
    assert_eq!(eval(spec("nope", None), "", "", None).detail, "unknown assertion type 'nope'");
    assert_eq!(eval(spec("output_contains", None), "", "", None).detail, "output_contains requires a 'value'");
    assert_eq!(
        eval(spec("screen_contains", Some(field(FieldValue::List, "[]", "[]"))), "", "", None).detail,
        "screen_contains 'value' must be a string, got list"
    );
    assert_eq!(eval(spec("exit_code", None), "", "", None).detail, "exit_code requires a 'value'");
    assert_eq!(eval(spec("file_contains", Some(text("x"))), "", "", None).detail, "file_contains requires a 'path'");
    assert!(matches!(evaluate(&spec("json_schema", None), None, "", "", None), Check::JsonSchema { .. }));
}

#[test]
fn the_registry_lists_the_built_ins_in_name_order() {
    let r = builtin_registry();
    assert_eq!(r.len(), 8);
    let mut sorted = r.clone();
    sorted.sort();
    assert_eq!(r, sorted);
    assert!(r.contains(&"json_schema"));
}

#[test]
fn an_expected_exit_code_adds_an_exit_code_assertion() {
    let own = vec![spec("output_contains", Some(text("ok")))];
    let list = termproof::assertions::evaluated_list(own.clone(), Some(-1));
    assert_eq!(list.len(), 2);
    assert_eq!(list[0], own[0]);
    let r = eval(list[1].clone(), "", "", Some(-1));
    assert!(r.passed);
    assert_eq!(r.name, "exit_code");
    assert_eq!(r.detail, "expected -1, got -1");
    assert!(!eval(list[1].clone(), "", "", Some(0)).passed);
    assert_eq!(termproof::assertions::evaluated_list(own.clone(), None), own);
}
