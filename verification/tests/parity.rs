use termproof::parity::{
    compare, compare_detail, compare_with, render, summarize, DetailMode, Divergence, ParityError,
    RecipeOutcome, RunSummary, ScoredRun,
};
use termproof::result::AssertionResult;

fn assertion(name: &str, passed: bool, detail: &str) -> AssertionResult {
    AssertionResult { name: name.to_string(), passed, detail: detail.to_string() }
}

fn run(name: &str, passed: bool, score: f64, assertions: Vec<AssertionResult>) -> ScoredRun<f64> {
    ScoredRun {
        recipe_name: name.to_string(),
        renderer: String::new(),
        passed,
        score,
        assertions,
    }
}

fn differs(a: f64, b: f64) -> bool {
    (a - b).abs() > f64::EPSILON
}

#[test]
fn identical_runs_agree() {
    let a = summarize(&[run("login", true, 1.0, vec![assertion("ok", true, "fine")])]);
    assert!(compare(&a, &a, "left", "right", differs).unwrap().is_empty());
    assert!(compare_detail(&a, &a, "left", "right", differs).unwrap().is_empty());
}

#[test]
fn an_empty_side_is_an_error_not_agreement() {
    let full = summarize(&[run("login", true, 1.0, vec![])]);
    let empty: RunSummary<f64> = RunSummary::default();
    assert_eq!(
        compare(&full, &empty, "left", "right", differs),
        Err(ParityError::Empty { side: "right".to_string() })
    );
    assert_eq!(
        compare(&empty, &full, "left", "right", differs),
        Err(ParityError::Empty { side: "left".to_string() })
    );
    assert_eq!(
        ParityError::Empty { side: "right".to_string() }.message(),
        "`right` contained no recipes; refusing to report agreement"
    );
}

#[test]
fn a_differing_verdict_is_reported() {
    let l = summarize(&[run("login", true, 1.0, vec![])]);
    let r = summarize(&[run("login", false, 0.0, vec![])]);
    assert_eq!(
        compare(&l, &r, "a", "b", differs).unwrap(),
        vec![Divergence::Verdict { recipe: "login".to_string(), left: true, right: false }]
    );
}

#[test]
fn a_score_difference_survives_an_agreeing_verdict() {
    let l = summarize(&[run("login", false, 0.5, vec![])]);
    let r = summarize(&[run("login", false, 0.0, vec![])]);
    assert_eq!(
        compare(&l, &r, "a", "b", differs).unwrap(),
        vec![Divergence::Score { recipe: "login".to_string(), left: 0.5, right: 0.0 }]
    );
}

#[test]
fn assertion_level_differences_are_named() {
    let l = summarize(&[run(
        "login",
        true,
        1.0,
        vec![assertion("shared", true, ""), assertion("only_l", true, "")],
    )]);
    let r = summarize(&[run(
        "login",
        true,
        1.0,
        vec![assertion("shared", false, ""), assertion("only_r", true, "")],
    )]);
    let d = compare(&l, &r, "a", "b", differs).unwrap();
    let found = d
        .iter()
        .find_map(|x| match x {
            Divergence::Assertions { differing, only_left, only_right, .. } => {
                Some((differing.clone(), only_left.clone(), only_right.clone()))
            }
            _ => None,
        })
        .expect("assertion divergence");
    assert_eq!(found.0, vec!["shared".to_string()]);
    assert_eq!(found.1, vec!["only_l".to_string()]);
    assert_eq!(found.2, vec!["only_r".to_string()]);
}

#[test]
fn wording_is_ignored_by_default() {
    let l = summarize(&[run("login", true, 1.0, vec![assertion("ok", true, "matched at line 3")])]);
    let r = summarize(&[run("login", true, 1.0, vec![assertion("ok", true, "found on row 3")])]);
    assert!(compare(&l, &r, "a", "b", differs).unwrap().is_empty());
}

#[test]
fn wording_is_reported_when_asked_for() {
    let l = summarize(&[run("login", true, 1.0, vec![assertion("ok", true, "one")])]);
    let r = summarize(&[run("login", true, 1.0, vec![assertion("ok", true, "two")])]);
    assert_eq!(
        compare_detail(&l, &r, "a", "b", differs).unwrap(),
        vec![Divergence::Detail { recipe: "login".to_string(), differing: vec!["ok".to_string()] }]
    );
    assert_eq!(
        compare_with(&l, &r, "a", "b", DetailMode::default(), differs).unwrap(),
        vec![]
    );
}

#[test]
fn one_recipe_under_two_renderers_stays_two_entries() {
    let mut a = run("login", true, 1.0, vec![]);
    a.renderer = "alpha".to_string();
    let mut b = run("login", false, 0.0, vec![]);
    b.renderer = "beta".to_string();
    let s = summarize(&[a, b]);
    assert_eq!(s.len(), 2);
    assert!(s.get("login:alpha").is_some());
    assert!(s.get("login:beta").is_some());
    assert!(s.get("login").is_none());
}

#[test]
fn a_recipe_only_one_side_ran_is_reported() {
    let l = summarize(&[run("login", true, 1.0, vec![]), run("logout", true, 1.0, vec![])]);
    let r = summarize(&[run("login", true, 1.0, vec![])]);
    assert_eq!(
        compare(&l, &r, "a", "b", differs).unwrap(),
        vec![Divergence::OnlyIn { recipe: "logout".to_string(), side: "a".to_string() }]
    );
}

#[test]
fn agreement_renders_as_a_sentence_not_an_empty_list() {
    let out = render(&[], "left", "right");
    assert!(out.contains("agree on every recipe"), "{out}");
}

#[test]
fn every_divergence_kind_renders() {
    let all = vec![
        Divergence::OnlyIn { recipe: "a".into(), side: "left".into() },
        Divergence::Verdict { recipe: "b".into(), left: true, right: false },
        Divergence::Score { recipe: "c".into(), left: "1.00".into(), right: "0.50".into() },
        Divergence::Assertions {
            recipe: "d".into(),
            differing: vec!["x".into()],
            only_left: vec!["y".into()],
            only_right: vec!["z".into()],
        },
        Divergence::Detail { recipe: "e".into(), differing: vec!["w".into()] },
    ];
    let out = render(&all, "left", "right");
    for expected in ["ran only in", "verdict differs", "score", "disagree", "wording"] {
        assert!(out.contains(expected), "{expected} missing from:\n{out}");
    }
    assert!(out.contains("**5 divergence(s)**"), "{out}");
}

#[test]
fn the_report_is_exact() {
    let all = vec![
        Divergence::Verdict { recipe: "b".to_string(), left: true, right: false },
        Divergence::Assertions {
            recipe: "d".to_string(),
            differing: vec![],
            only_left: vec!["y".to_string(), "w".to_string()],
            only_right: vec![],
        },
    ];
    assert_eq!(
        render(&all, "old", "new"),
        "# Parity report\n\n**2 divergence(s)** between `old` and `new`.\n\n\
         - `b` \u{2014} **verdict differs**: `old` PASS, `new` FAIL\n\
         - `d` \u{2014} assertion differences:\n  - only in `old`: `y`, `w`\n"
    );
    assert_eq!(
        render(&[], "old", "new"),
        "# Parity report\n\n`old` and `new` agree on every recipe.\n"
    );
}

#[test]
fn the_last_result_for_a_key_wins() {
    let s = summarize(&[
        run("login", true, 1.0, vec![assertion("a", true, "first"), assertion("a", false, "second")]),
        run("login", false, 0.25, vec![assertion("b", true, "")]),
    ]);
    assert_eq!(s.len(), 1);
    let o: &RecipeOutcome<f64> = s.get("login").unwrap();
    assert!(!o.passed());
    assert_eq!(*o.score(), 0.25);
    assert_eq!(o.assertion("b"), Some((true, String::new())));
    assert_eq!(o.assertion("a"), None);
}

#[test]
fn recorded_assertions_are_kept_in_name_order() {
    let mut o = RecipeOutcome::new(true, 1.0);
    o.record_assertion("zeta", true, "z");
    o.record_assertion("alpha", false, "a");
    o.record_assertion("zeta", false, "z2");
    let names: Vec<&str> = o.assertions().iter().map(|a| a.0.as_str()).collect();
    assert_eq!(names, vec!["alpha", "zeta"]);
    assert_eq!(o.assertion("zeta"), Some((false, "z2".to_string())));
}

#[test]
fn divergences_follow_key_order_across_both_sides() {
    let l = summarize(&[run("b", true, 1.0, vec![]), run("d", true, 1.0, vec![])]);
    let r = summarize(&[run("a", true, 1.0, vec![]), run("c", true, 1.0, vec![])]);
    let d = compare(&l, &r, "L", "R", differs).unwrap();
    let keys: Vec<String> = d
        .iter()
        .map(|x| match x {
            Divergence::OnlyIn { recipe, side } => format!("{recipe}@{side}"),
            _ => String::new(),
        })
        .collect();
    assert_eq!(keys, vec!["a@R", "b@L", "c@R", "d@L"]);
}
