use termproof::vocabulary::{
    all_markers, any_marker, count_markers, marker_on_unrelated_line, strip_tool_result_errors,
    FailureDetector,
};

#[test]
fn line_anchored_verbs_ignore_prose() {
    let d = FailureDetector::new();
    assert!(d.detects("Traceback (most recent call last):"));
    assert!(d.detects("  error: something broke"));
    assert!(!d.detects("I will explain what an exception is in Python."));
    assert!(!d.detects("no errors were found"));
}

#[test]
fn line_verbs_respect_word_boundaries() {
    let d = FailureDetector::new();
    assert!(d.detects("panic: at the disco"));
    assert!(d.detects("panic"));
    assert!(!d.detects("panicking is unhelpful"));
    assert!(!d.detects("tracebacks explained"));
    assert!(d.detects("error: boom"));
}

#[test]
fn word_matching_sits_between_anchored_and_substring() {
    const W: [&str; 1] = ["panic"];
    let d = FailureDetector::markers_only().anywhere(&[]).words(&W);
    assert!(d.detects("the process hit a panic and died"), "not line-anchored");
    assert!(!d.detects("panicking is unhelpful"), "but still word-bounded");
}

#[test]
fn substring_markers_match_anywhere() {
    const M: [&str; 1] = ["no results found"];
    let d = FailureDetector::markers_only().anywhere(&M);
    assert!(d.detects("Search returned: No Results Found."));
    assert!(!d.detects("a panic here"), "markers_only drops the line-anchored verb set");
}

#[test]
fn the_two_strategies_compose() {
    const M: [&str; 1] = ["unknown command"];
    let d = FailureDetector::new().anywhere(&M);
    assert!(d.detects("Unknown command: /nope"));
    assert!(d.detects("panic: at the disco"));
    assert!(!d.detects("all good"));
}

#[test]
fn tool_result_errors_can_be_excluded() {
    const M: [&str; 1] = ["error:"];
    let screen = "SFT Submission Status\nmemory_write └ error: disabled";
    assert!(FailureDetector::markers_only().anywhere(&M).detects(screen));
    assert!(
        !FailureDetector::markers_only()
            .anywhere(&M)
            .ignoring_tool_result_errors()
            .detects(screen),
        "another tool failing is not this recipe's concern"
    );
}

#[test]
fn anchoring_already_excludes_tool_result_errors() {
    let screen = "SFT Submission Status\nmemory_write └ error: disabled";
    assert!(!FailureDetector::new().detects(screen));
}

#[test]
fn a_custom_verb_set_replaces_the_default() {
    const V: [&str; 1] = ["permission denied"];
    let d = FailureDetector::new().line_verbs(&V);
    assert!(d.detects("Permission denied: /etc/shadow"));
    assert!(!d.detects("Traceback"), "default verbs were replaced");
}

#[test]
fn the_core_set_is_the_default_for_markers_only() {
    let d = FailureDetector::markers_only();
    assert!(d.detects("the tool reported error: boom"));
    assert!(d.detects("Traceback (most recent call last)"));
    assert!(!d.detects("all good"));
}

#[test]
fn extra_markers_add_to_the_core_rather_than_replacing_it() {
    const E: [&str; 1] = ["no results found"];
    let d = FailureDetector::markers_only().extra(&E);
    assert!(d.detects("No results found"), "the extra marker");
    assert!(d.detects("Traceback"), "and still the core set");
}

#[test]
fn markers_are_matched_case_insensitively_on_both_sides() {
    assert!(any_marker("no results found", &["No Results Found"]));
    assert!(any_marker("NO RESULTS FOUND", &["no results found"]));
    assert_eq!(count_markers("Alpha Beta", &["ALPHA", "beta"]), 2);
    assert!(all_markers("alpha beta", &["Alpha", "BETA"]));
    const M: [&str; 1] = ["No Results Found"];
    assert!(FailureDetector::markers_only()
        .anywhere(&M)
        .detects("search: no results found"));
}

#[test]
fn unrelated_line_matching_is_case_sensitive_on_purpose() {
    let screen = "> Run echo hello_marker\nHELLO_MARKER\n";
    assert!(!marker_on_unrelated_line(screen, "hello_marker", &["Run echo"]));
    let exact = "> Run echo hello_marker\nhello_marker\n";
    assert!(marker_on_unrelated_line(exact, "hello_marker", &["Run echo"]));
}

#[test]
fn marker_counting() {
    assert_eq!(count_markers("Alpha Beta", &["alpha", "beta", "gamma"]), 2);
    assert!(all_markers("Alpha Beta", &["alpha", "beta"]));
    assert!(!all_markers("Alpha", &["alpha", "beta"]));
    assert!(any_marker("Alpha", &["alpha", "beta"]));
    assert!(!any_marker("Delta", &["alpha", "beta"]));
}

#[test]
fn prompt_echo_is_excluded_from_output_checks() {
    let echo_only = "> Run echo hello_marker\n";
    assert!(!marker_on_unrelated_line(echo_only, "hello_marker", &["Run echo"]));
    let with_output = "> Run echo hello_marker\nhello_marker\n";
    assert!(marker_on_unrelated_line(with_output, "hello_marker", &["Run echo"]));
}

#[test]
fn stripping_keeps_every_other_line_in_order() {
    let screen = "one\ntool └ Error: nope\ntwo\r\nthree\n";
    assert_eq!(strip_tool_result_errors(screen), "one\ntwo\nthree");
    assert_eq!(strip_tool_result_errors("x └   EXCEPTION: y"), "");
    assert_eq!(strip_tool_result_errors(""), "");
}

#[test]
fn words_scan_left_to_right_without_overlap() {
    // `match_indices` does not report the overlapping hit at index 3, so the
    // only candidate (index 1) is preceded by a word character.
    const W: [&str; 1] = ["a-a"];
    let d = FailureDetector::markers_only().anywhere(&[]).words(&W);
    assert!(!d.detects("ba-a-a "));
    assert!(d.detects("x a-a y"));
}

#[test]
fn an_empty_word_matches_at_a_boundary() {
    const W: [&str; 1] = [""];
    let d = FailureDetector::markers_only().anywhere(&[]).words(&W);
    assert!(d.detects(""));
    assert!(d.detects("a  b"));
    assert!(!d.detects("ab cd"));
    assert!(!d.detects("ab"));
}

#[test]
fn default_detector_is_the_line_anchored_one() {
    let d = FailureDetector::default();
    assert!(d.detects("   Traceback"));
    assert!(!d.detects("it said traceback"));
}
