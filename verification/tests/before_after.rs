use termproof::before_after::{build_before_after, compute_deltas, BehaviorDelta, RunOutcome};

fn run(name: &str, renderer: &str, passed: bool) -> RunOutcome {
    RunOutcome { recipe_name: name.to_string(), renderer: renderer.to_string(), passed }
}

#[test]
fn identical_runs_have_no_deltas() {
    let runs = vec![run("a", "default", true), run("b", "default", false)];
    assert!(compute_deltas(&runs, &runs).is_empty());
}

#[test]
fn a_regression_is_reported() {
    let d = compute_deltas(&[run("login", "default", true)], &[run("login", "default", false)]);
    assert_eq!(d.len(), 1);
    assert_eq!(d[0].explanation(), "login [default]: PASS -> FAIL");
}

#[test]
fn a_fix_is_reported_too() {
    let d = compute_deltas(&[run("a", "r", false)], &[run("a", "r", true)]);
    assert_eq!(d[0].before_outcome, "FAIL");
    assert_eq!(d[0].after_outcome, "PASS");
}

#[test]
fn a_recipe_that_stopped_running_is_a_delta_not_a_gap() {
    let d = compute_deltas(&[run("gone", "r", true)], &[]);
    assert_eq!(d[0].after_outcome, "SKIP");
}

#[test]
fn a_newly_added_recipe_is_reported() {
    let d = compute_deltas(&[], &[run("new", "r", true)]);
    assert_eq!(d[0].before_outcome, "SKIP");
    assert_eq!(d[0].after_outcome, "PASS");
}

#[test]
fn ordering_follows_before_then_new_arrivals() {
    let before = vec![run("b", "r", true), run("a", "r", true)];
    let after = vec![run("z", "r", true), run("a", "r", false), run("b", "r", false)];
    let d = compute_deltas(&before, &after);
    let names: Vec<&str> = d.iter().map(|x| x.recipe.as_str()).collect();
    assert_eq!(names, ["b", "a", "z"]);
}

#[test]
fn the_same_recipe_under_two_renderers_is_two_entries() {
    let before = vec![run("a", "x", true), run("a", "y", true)];
    let after = vec![run("a", "x", false), run("a", "y", false)];
    assert_eq!(compute_deltas(&before, &after).len(), 2);
}

#[test]
fn explanation_reads_as_one_line() {
    let d = BehaviorDelta {
        recipe: "r".into(),
        renderer: "tmux".into(),
        before_outcome: "SKIP".into(),
        after_outcome: "FAIL".into(),
    };
    assert_eq!(d.explanation(), "r [tmux]: SKIP -> FAIL");
}

#[test]
fn no_deltas_says_so_rather_than_rendering_nothing() {
    let r = build_before_after(vec![run("login", "default", true)], vec![run("login", "default", true)]);
    assert!(r.to_markdown().contains("none"), "{}", r.to_markdown());
    assert_eq!(r.to_markdown(), "**Behavioral deltas:** none \u{2014} before/after outcomes match.\n");
}

#[test]
fn markdown_lists_every_delta() {
    let r = build_before_after(
        vec![run("a", "d", true), run("b", "d", true)],
        vec![run("a", "d", false), run("b", "d", false)],
    );
    let md = r.to_markdown();
    assert!(md.contains("- a [d]: PASS -> FAIL"), "{md}");
    assert!(md.contains("- b [d]: PASS -> FAIL"), "{md}");
    assert_eq!(md, "**Behavioral deltas:**\n\n- a [d]: PASS -> FAIL\n- b [d]: PASS -> FAIL\n");
}

#[test]
fn build_keeps_both_sides_alongside_the_deltas() {
    let r = build_before_after(vec![run("a", "d", true)], vec![run("a", "d", false)]);
    assert_eq!(r.before.len(), 1);
    assert_eq!(r.after.len(), 1);
    assert_eq!(r.deltas.len(), 1);
}
