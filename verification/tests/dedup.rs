use termproof::attributed::{attributed_screen_from_ansi_text, attributed_screen_from_text, AttributedScreen};
use termproof::dedup::Deduper;

fn text(s: &str) -> AttributedScreen {
    attributed_screen_from_text(s, 20, 2)
}

fn ansi(s: &str) -> AttributedScreen {
    attributed_screen_from_ansi_text(s, 20, 2)
}

#[test]
fn the_first_screen_always_renders() {
    let mut d = Deduper::default();
    assert_eq!(d.check("first", &text("hello")), None);
}

#[test]
fn an_unchanged_screen_reuses_the_previous() {
    let mut d = Deduper::default();
    d.check("first", &text("hello"));
    assert_eq!(d.check("second", &text("hello")), Some("first"));
}

#[test]
fn a_changed_screen_renders() {
    let mut d = Deduper::default();
    d.check("first", &text("hello"));
    assert_eq!(d.check("second", &text("goodbye")), None);
}

#[test]
fn a_run_of_identical_screens_all_point_at_the_first() {
    let mut d = Deduper::default();
    d.check("first", &text("hello"));
    assert_eq!(d.check("second", &text("hello")), Some("first"));
    assert_eq!(d.check("third", &text("hello")), Some("first"));
}

#[test]
fn same_text_different_colour_is_a_different_screenshot() {
    let mut d = Deduper::default();
    d.check("red", &ansi("\x1b[31mhi"));
    assert_eq!(d.check("green", &ansi("\x1b[32mhi")), None);
}

#[test]
fn identical_colour_and_text_still_dedupes() {
    let mut d = Deduper::default();
    d.check("red", &ansi("\x1b[31mhi"));
    assert_eq!(d.check("red-again", &ansi("\x1b[31mhi")), Some("red"));
}

#[test]
fn only_the_immediately_previous_screen_counts() {
    let mut d = Deduper::default();
    d.check("a", &text("one"));
    d.check("b", &text("two"));
    assert_eq!(d.check("c", &text("one")), None);
}

#[test]
fn forgetting_makes_the_next_identical_screen_render() {
    let mut d = Deduper::default();
    d.check("first", &text("hello"));
    d.forget();
    assert_eq!(d.check("second", &text("hello")), None);
}

#[test]
fn last_rendered_tracks_the_reusable_label() {
    let mut d = Deduper::default();
    assert_eq!(d.last_rendered(), None);
    d.check("first", &text("hello"));
    assert_eq!(d.last_rendered(), Some("first"));
    d.check("second", &text("hello"));
    assert_eq!(d.last_rendered(), Some("first"));
    d.check("third", &text("other"));
    assert_eq!(d.last_rendered(), Some("third"));
}

#[test]
fn the_module_example_holds() {
    let mut deduper = Deduper::default();
    let menu = attributed_screen_from_text("menu open", 20, 2);
    let same = attributed_screen_from_text("menu open", 20, 2);
    let gone = attributed_screen_from_text("menu closed", 20, 2);
    assert_eq!(deduper.check("opened", &menu), None);
    assert_eq!(deduper.check("still-open", &same), Some("opened"));
    assert_eq!(deduper.check("closed", &gone), None);
}
