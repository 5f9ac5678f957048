use termproof::junit::{junit_case, xml_sanitize};
use termproof::config::Json;
use termproof::report::{cli_summary, evidence_links, generate_markdown, generate_markdown_single, validate_recipe_json, TimeoutReading};
use termproof::result::{AssertionResult, RunRecord, StepResult};

fn sample_result(passed: bool) -> RunRecord {
    RunRecord {
        recipe_name: "demo".into(),
        passed,
        exit_code: Some(0),
        priority: "P2".into(),
        execution: "scripted".into(),
        renderer: "default".into(),
        score_text: if passed { "1.00".into() } else { "0.50".into() },
        steps: vec![StepResult {
            name: "step1".into(),
            passed,
            detail: "ok".into(),
            screen: "hello".into(),
        }],
        assertions: vec![AssertionResult {
            name: "exit_code".into(),
            passed,
            detail: "exit 0".into(),
        }],
        artifacts: vec![("screenshot".to_string(), "/tmp/final.svg".to_string())],
    }
}

#[test]
fn markdown_contains_header() {
    let r = sample_result(true);
    let md = generate_markdown(&[r]);
    assert!(md.contains("# TUI Verification"));
    assert!(md.contains("demo"));
}

#[test]
fn markdown_is_exact() {
    let md = generate_markdown_single(&sample_result(false));
    assert_eq!(
        md,
        "# TUI Verification - 0/1 Passed\n\n\
         | Recipe | Renderer | Priority | Execution | Result | Score | Evidence |\n\
         | --- | --- | --- | --- | --- | --- | --- |\n\
         | `demo` | `default` | `P2` | `scripted` | FAIL | 0.50 | [screenshot](/tmp/final.svg) |\n\
         \n\
         <details><summary>FAIL demo [default]</summary>\n\
         \n\
         ### Assertions\n\
         \n\
         - FAIL `exit_code` - exit 0\n\
         \n\
         ### Steps\n\
         \n\
         - FAIL `step1` - ok\n\
         \n\
         </details>\n"
    );
}

#[test]
fn evidence_follows_a_fixed_order_or_is_a_dash() {
    let arts = vec![
        ("video".to_string(), "v.mp4".to_string()),
        ("cast".to_string(), "s.cast".to_string()),
        ("screenshot".to_string(), "a.svg".to_string()),
        ("other".to_string(), "x".to_string()),
    ];
    assert_eq!(evidence_links(&arts), "[screenshot](a.svg) / [video](v.mp4) / [cast](s.cast)");
    assert_eq!(evidence_links(&[]), "-");
}

#[test]
fn the_summary_counts_passes() {
    let runs = vec![sample_result(true), sample_result(false), sample_result(true)];
    assert_eq!(cli_summary(&runs), "2/3 passed");
    assert!(generate_markdown(&runs).starts_with("# TUI Verification - 2/3 Passed\n"));
}

#[test]
fn junit_is_valid_xml() {
    let mut r = sample_result(false);
    r.steps[0].detail = "bad\x01byte".into();
    let c = junit_case(&r);
    assert_eq!(c.name, "demo");
    assert_eq!(c.classname, "scripted");
    let f = c.failure.expect("a failed run has a failure");
    assert_eq!(f.message, "demo failed (score 0.50)");
    assert!(!f.description.contains('\x01'));
    assert!(!c.system_out.contains('\x01'));
    assert_eq!(
        f.description,
        "Recipe: demo\nRenderer: default\nPriority: P2\nExecution: scripted\nScore: 0.50\n\
         Exit code: Some(0)\n\nSteps:\n  FAIL step1: badbyte\n\nAssertions:\n  FAIL exit_code: exit 0\n\n\
         Artifacts:\n  screenshot: /tmp/final.svg"
    );
}

#[test]
fn junit_needs_no_artifacts() {
    let mut r = sample_result(true);
    r.artifacts.clear();
    let c = junit_case(&r);
    assert!(c.failure.is_none());
    assert_eq!(c.system_out, "Steps:\n  PASS step1: ok\n\nAssertions:\n  PASS exit_code: exit 0");
    assert!(!c.system_out.contains("Artifacts:"));
}

#[test]
fn a_non_default_renderer_names_the_case() {
    let mut r = sample_result(false);
    r.renderer = "wide".into();
    r.exit_code = Some(-2);
    r.steps.clear();
    let c = junit_case(&r);
    assert_eq!(c.name, "demo [wide]");
    assert!(c.failure.unwrap().description.contains("Exit code: Some(-2)\n\nAssertions:"));
}

#[test]
fn sanitizing_keeps_tabs_and_newlines_and_drops_controls() {
    assert_eq!(xml_sanitize("a\tb\nc\rd\x00e\x1bf\u{FFFE}g\u{FDD0}h"), "a\tb\nc\rdefgh");
}

fn obj(members: Vec<(&str, Json)>) -> Json {
    Json::Object(members.into_iter().map(|(k, v)| (k.to_string(), v)).collect())
}

#[test]
fn a_complete_recipe_document_has_no_problems() {
    let doc = obj(vec![
        ("name", Json::Str("demo".into())),
        ("command", obj(vec![("argv", Json::Array(vec![Json::Str("echo".into())]))])),
        ("cols", Json::Number("80".into())),
        ("rows", Json::Number("24".into())),
    ]);
    assert!(validate_recipe_json(&doc, &TimeoutReading::Positive).is_empty());
}

#[test]
fn each_missing_field_is_named() {
    assert_eq!(
        validate_recipe_json(&obj(vec![]), &TimeoutReading::NoNumber),
        vec!["missing required field: name", "missing required field: command"]
    );
    let doc = obj(vec![("name", Json::Number("1".into())), ("command", obj(vec![("argv", Json::Str("x".into()))]))]);
    assert_eq!(
        validate_recipe_json(&doc, &TimeoutReading::NoNumber),
        vec!["missing required field: name", "missing required field: command.argv"]
    );
    assert_eq!(
        validate_recipe_json(&Json::Null, &TimeoutReading::NoNumber),
        vec!["missing required field: name", "missing required field: command"]
    );
}

#[test]
fn counts_and_timeouts_out_of_range_are_reported_in_order() {
    let doc = obj(vec![
        ("name", Json::Str("demo".into())),
        ("command", obj(vec![("argv", Json::Array(vec![]))])),
        ("cols", Json::Number("0".into())),
        ("rows", Json::Number("0".into())),
    ]);
    assert_eq!(
        validate_recipe_json(&doc, &TimeoutReading::NotPositive("-1".into())),
        vec!["timeout_seconds must be > 0, got -1", "cols must be > 0", "rows must be > 0"]
    );
    let doc = obj(vec![
        ("name", Json::Str("demo".into())),
        ("command", obj(vec![("argv", Json::Array(vec![]))])),
        ("cols", Json::Number("0.0".into())),
    ]);
    assert!(validate_recipe_json(&doc, &TimeoutReading::Positive).is_empty());
}
