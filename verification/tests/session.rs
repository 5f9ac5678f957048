use std::time::Duration;
use termproof::session::{MockSession, Session};

#[test]
fn wait_for_text_finds_screen() {
    let mut s = MockSession::new("hello world", "");
    assert!(s.wait_for_text("world", Duration::from_millis(80)));
}

#[test]
fn wait_for_text_times_out() {
    let mut s = MockSession::new("hello", "");
    assert!(!s.wait_for_text("MISSING", Duration::from_millis(80)));
}

#[test]
fn wait_for_idle_stable() {
    let mut s = MockSession::new("stable\n", "");
    assert!(s.wait_for_idle(Duration::from_millis(20), Duration::from_millis(300)));
}

#[test]
fn wait_for_text_searches_the_raw_output_too() {
    let mut s = MockSession::new("", "boot ok");
    assert!(s.wait_for_text("ok", Duration::from_millis(80)));
}

#[test]
fn screen_and_raw_are_never_joined() {
    let mut s = MockSession::new("FIRST", "SECOND");
    assert!(!s.wait_for_text("FIRSTSECOND", Duration::from_millis(40)));
}

#[test]
fn each_queued_delta_arrives_after_its_own_polls() {
    let mut s = MockSession::new("", "");
    s.enqueue("A", "a", 1);
    s.enqueue("B", "b", 3);
    s.read_available(Duration::ZERO);
    assert_eq!(s.screen(), "A");
    assert_eq!(s.raw_output(), "a");
    s.read_available(Duration::ZERO);
    assert_eq!(s.screen(), "A");
    s.read_available(Duration::ZERO);
    assert_eq!(s.screen(), "AB");
    assert_eq!(s.raw_output(), "ab");
    s.read_available(Duration::ZERO);
    assert_eq!(s.screen(), "AB");
}

#[test]
fn deltas_arriving_together_keep_queue_order() {
    let mut s = MockSession::new("a", "x");
    s.enqueue("c", "z", 3);
    s.enqueue("b", "y", 2);
    s.enqueue("d", "w", 3);
    s.read_available(Duration::ZERO);
    s.read_available(Duration::ZERO);
    assert_eq!(s.screen(), "ab");
    s.read_available(Duration::ZERO);
    assert_eq!(s.screen(), "abcd");
    assert_eq!(s.raw_output(), "xyzw");
}

#[test]
fn a_countdown_of_zero_arrives_at_the_next_poll() {
    let mut s = MockSession::new("a", "");
    s.enqueue("b", "", 0);
    assert_eq!(s.screen(), "a");
    s.read_available(Duration::ZERO);
    assert_eq!(s.screen(), "ab");
}

#[test]
fn waiting_sees_output_that_arrives_later() {
    let mut s = MockSession::new("loading", "");
    s.enqueue("\nready", "", 3);
    assert!(s.wait_for_text("ready", Duration::from_millis(500)));
}

#[test]
fn an_exited_session_gets_one_last_look() {
    let mut s = MockSession::new("", "");
    s.enqueue("bye", "", 3);
    s.set_alive(false);
    assert!(!s.wait_for_text("bye", Duration::from_millis(500)));
    let mut t = MockSession::new("", "");
    t.enqueue("bye", "", 2);
    t.set_alive(false);
    assert!(t.wait_for_text("bye", Duration::from_millis(500)));
}

#[test]
fn send_text_and_send_line_record_what_was_sent() {
    let mut s = MockSession::new("", "");
    assert_eq!(s.send_text("hi"), Ok(()));
    assert_eq!(s.send_line("there"), Ok(()));
    assert_eq!(s.sent(), &["hi".to_string(), "there\r".to_string()]);
}

#[test]
fn a_dead_session_refuses_input() {
    let mut s = MockSession::new("", "");
    s.set_alive(false);
    assert_eq!(s.send_text("hi"), Err("session not alive".to_string()));
    assert!(s.sent().is_empty());
    assert!(!s.is_alive());
}

#[test]
fn setters_replace_the_buffers() {
    let mut s = MockSession::default();
    assert!(!s.is_alive());
    s.set_screen("screen");
    s.set_raw("raw");
    assert_eq!(s.screen(), "screen");
    assert_eq!(s.raw_output(), "raw");
}

#[test]
fn an_exited_session_satisfies_the_idle_wait() {
    let mut s = MockSession::new("x", "");
    s.set_alive(false);
    assert!(s.wait_for_idle(Duration::from_secs(60), Duration::from_secs(60)));
}

#[test]
fn send_line_on_an_exited_session_fails_as_send_text_does() {
    let mut s = MockSession::new("", "");
    s.set_alive(false);
    assert_eq!(s.send_line("x"), Err("session not alive".to_string()));
    assert!(s.sent().is_empty());
}
