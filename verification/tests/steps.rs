use std::time::Duration;
use termproof::pyregex::compile_pattern;
use termproof::pyrepr::repr_str;
use termproof::session::{MockSession, Session};
use termproof::steps::{
    display_name, match_detail, send_line_step, send_text_step, try_match, wait_for_idle_step,
    wait_for_text_step, watch_for_match, Found,
};

fn regex_detail(screen: &str, pattern: &str) -> Option<String> {
    let mut s = MockSession::new(screen, screen);
    let p = compile_pattern(pattern).unwrap();
    watch_for_match(&mut s, &p, pattern, "1:wait_for_regex", Duration::from_millis(50))
        .map(|r| r.detail)
}

fn text_detail(screen: &str, text: &str) -> String {
    let mut s = MockSession::new(screen, screen);
    wait_for_text_step(&mut s, "1:wait_for_text", text, Duration::from_millis(50)).detail
}

#[test]
fn found_text_is_single_quoted() {
    assert_eq!(text_detail("hello", "hello"), "found 'hello'");
}

#[test]
fn text_that_was_not_found_is_single_quoted_too() {
    assert_eq!(text_detail("hello", "zzz"), "timed out waiting for 'zzz'");
}

#[test]
fn an_apostrophe_flips_the_quoting() {
    assert_eq!(text_detail("it's here", "it's"), "found \"it's\"");
}

#[test]
fn a_match_with_no_groups_reports_the_whole_match() {
    assert_eq!(regex_detail("abc 42", r"\d+").unwrap(), r"matched '\\d+' -> match='42'");
}

#[test]
fn positional_groups_render_as_a_python_tuple() {
    assert_eq!(
        regex_detail("alice 42", r"(\w+) (\d+)").unwrap(),
        r"matched '(\\w+) (\\d+)' -> groups=('alice', '42') (full: 'alice 42')"
    );
}

#[test]
fn a_one_element_group_tuple_keeps_its_trailing_comma() {
    assert_eq!(
        regex_detail("42", r"(?P<n>\d+)").unwrap(),
        r"matched '(?P<n>\\d+)' -> n='42'; groups=('42',) (full: '42')"
    );
}

#[test]
fn unmatched_groups_render_as_none() {
    assert_eq!(
        regex_detail("b", "(?P<x>a)?(?P<y>b)").unwrap(),
        "matched '(?P<x>a)?(?P<y>b)' -> x=None, y='b'; groups=(None, 'b') (full: 'b')"
    );
}

#[test]
fn an_apostrophe_in_a_match_flips_the_quoting() {
    assert_eq!(
        regex_detail("it's here", "(it's)").unwrap(),
        "matched \"(it's)\" -> groups=(\"it's\",) (full: \"it's\")"
    );
}

#[test]
fn a_newline_in_a_match_is_escaped_not_embedded() {
    let d = regex_detail("h\nllo", "(?s)h.llo").unwrap();
    assert_eq!(d, r"matched '(?s)h.llo' -> match='h\nllo'");
    assert!(!d.contains('\n'), "a detail must stay on one line: {d:?}");
}

#[test]
fn an_invalid_pattern_is_single_quoted() {
    assert!(compile_pattern("[bad").is_err());
    assert_eq!(repr_str("[bad"), "'[bad'");
}

#[test]
fn wait_for_regex_captures_named_groups() {
    let d = regex_detail("user: alice id: 42", r"user: (?P<user>\w+) id: (?P<id>\d+)").unwrap();
    assert!(d.contains("alice"));
    assert!(d.contains("42"));
}

#[test]
fn wait_for_regex_no_synthetic_boundary() {
    let mut s = MockSession::new("FIRST", "SECOND");
    let p = compile_pattern(r"FIRST.SECOND").unwrap();
    assert!(watch_for_match(&mut s, &p, r"FIRST.SECOND", "x", Duration::from_millis(50)).is_none());
}

#[test]
fn the_raw_output_is_searched_when_the_screen_has_no_match() {
    let p = compile_pattern(r"\d+").unwrap();
    let r = try_match(&p, r"\d+", "step", "no digits", "code 7").unwrap();
    assert!(r.passed);
    assert_eq!(r.name, "step");
    assert_eq!(r.detail, r"matched '\\d+' -> match='7'");
    assert_eq!(r.screen, "no digits");
    assert!(try_match(&p, r"\d+", "step", "", "").is_none());
}

#[test]
fn output_that_arrives_later_is_matched() {
    let mut s = MockSession::new("booting", "");
    s.enqueue("\nready 3", "", 4);
    let p = compile_pattern(r"ready (\d)").unwrap();
    let r = watch_for_match(&mut s, &p, r"ready (\d)", "w", Duration::from_millis(500)).unwrap();
    assert_eq!(r.detail, r"matched 'ready (\\d)' -> groups=('3',) (full: 'ready 3')");
    assert_eq!(r.screen, "booting\nready 3");
}

#[test]
fn a_detail_is_built_from_what_was_found() {
    let found = Found {
        full: "k=v".to_string(),
        named: vec![("key".to_string(), Some("k".to_string())), ("alt".to_string(), None)],
        groups: vec![Some("k".to_string()), None],
    };
    assert_eq!(
        match_detail("(?P<key>k)=v", &found),
        "matched '(?P<key>k)=v' -> key='k', alt=None; groups=('k', None) (full: 'k=v')"
    );
}

#[test]
fn display_names_default_to_index_and_action() {
    assert_eq!(display_name(None, 3, "press"), "3:press");
    assert_eq!(display_name(Some("login"), 3, "press"), "login");
}

#[test]
fn send_text_records_input() {
    let mut s = MockSession::new("", "");
    let r = send_text_step(&mut s, "1:send_text", "hi");
    assert!(r.passed);
    assert_eq!(r.detail, "sent text");
    assert_eq!(s.sent(), &["hi".to_string()]);
}

#[test]
fn send_line_appends_cr() {
    let mut s = MockSession::new("", "");
    let r = send_line_step(&mut s, "1:send_line", "hi");
    assert!(r.passed);
    assert_eq!(r.detail, "sent line");
    assert_eq!(s.sent(), &["hi\r".to_string()]);
}

#[test]
fn sending_to_an_exited_target_fails_with_the_session_error() {
    let mut s = MockSession::new("", "");
    s.set_alive(false);
    let r = send_text_step(&mut s, "1:send_text", "hi");
    assert!(!r.passed);
    assert_eq!(r.detail, "session not alive");
    assert!(!s.is_alive());
}

#[test]
fn idle_detail_quotes_the_window() {
    let mut s = MockSession::new("x", "");
    let r = wait_for_idle_step(&mut s, "i", Duration::ZERO, Duration::from_secs(5), "1.0");
    assert!(r.passed);
    assert_eq!(r.detail, "stable for 1.0s");
    assert_eq!(r.screen, "x");
}


#[test]
fn a_match_present_at_the_first_poll_is_found_even_with_no_time_left() {
    let mut s = MockSession::new("ready 1", "");
    let p = compile_pattern(r"ready (\d)").unwrap();
    let r = watch_for_match(&mut s, &p, r"ready (\d)", "w", Duration::ZERO).unwrap();
    assert!(r.passed);
    assert_eq!(r.screen, "ready 1");
}

#[test]
fn a_match_queued_for_the_first_poll_is_seen() {
    let mut s = MockSession::new("", "");
    s.enqueue("ready 2", "", 1);
    let p = compile_pattern(r"ready (\d)").unwrap();
    assert!(watch_for_match(&mut s, &p, r"ready (\d)", "w", Duration::ZERO).is_some());
}

#[test]
fn a_run_goes_on_after_a_pass_and_stops_after_a_failure() {
    let step = |passed| termproof::result::StepResult { name: "s".into(), passed, detail: String::new(), screen: String::new() };
    let mut out = Vec::new();
    assert!(termproof::steps::record_step(&mut out, step(true)));
    assert!(!termproof::steps::record_step(&mut out, step(false)));
    assert_eq!(out.len(), 2);
}

fn step_json(members: Vec<(&str, termproof::config::Json)>) -> termproof::config::Json {
    termproof::config::Json::Object(members.into_iter().map(|(k, v)| (k.to_string(), v)).collect())
}

#[test]
fn dispatch_unknown_action_fails() {
    let step = step_json(vec![("action", termproof::config::Json::Str("nope".into()))]);
    let (name, detail) = termproof::steps::route_step(&step, 1).unwrap_err();
    assert_eq!(name, "1:nope");
    assert!(detail.contains("unknown step action"));
}

#[test]
fn dispatch_missing_action_fails() {
    let step = step_json(vec![("name", termproof::config::Json::Str("mine".into()))]);
    assert_eq!(
        termproof::steps::route_step(&step, 2),
        Err(("mine".to_string(), "step 'action' must be a string".to_string()))
    );
    let step = step_json(vec![("action", termproof::config::Json::Str("sleep".into()))]);
    assert_eq!(termproof::steps::route_step(&step, 3), Ok(termproof::steps::StepAction::Sleep));
}

#[test]
fn a_missing_text_field_is_named() {
    let step = step_json(vec![("text", termproof::config::Json::Number("1".into()))]);
    assert_eq!(
        termproof::steps::required_step_text(&step, "send_text", "text"),
        Err("send_text 'text' must be a string".to_string())
    );
}
