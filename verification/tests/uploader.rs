use termproof::uploader::{clip, combined_output, tool_failure, ArtifactUploader, FallbackUploader, MAX_ERROR_LENGTH};

struct Fail(&'static str);
impl ArtifactUploader for Fail {
    fn upload(&mut self, _: &str) -> Option<String> {
        None
    }
    fn last_error(&self) -> Option<&str> {
        Some(self.0)
    }
}

struct Good;
impl ArtifactUploader for Good {
    fn upload(&mut self, _: &str) -> Option<String> {
        Some("https://x/y".to_string())
    }
    fn last_error(&self) -> Option<&str> {
        None
    }
}

struct Flaky {
    calls: usize,
}
impl ArtifactUploader for Flaky {
    fn upload(&mut self, _: &str) -> Option<String> {
        self.calls += 1;
        None
    }
    fn last_error(&self) -> Option<&str> {
        if self.calls > 1 {
            Some("denied")
        } else {
            Some("timeout")
        }
    }
}

struct Silent;
impl ArtifactUploader for Silent {
    fn upload(&mut self, _: &str) -> Option<String> {
        None
    }
    fn last_error(&self) -> Option<&str> {
        Some("")
    }
}

#[test]
fn fallback_returns_first_success() {
    let mut fb = FallbackUploader::new(vec![Box::new(Fail("nope")), Box::new(Good)]);
    assert_eq!(fb.upload("/tmp/a").as_deref(), Some("https://x/y"));
    assert!(fb.last_error().is_none());
}

#[test]
fn fallback_records_the_primarys_failure_even_when_a_later_one_succeeds() {
    let mut fb = FallbackUploader::new(vec![Box::new(Fail("CAT minting failed")), Box::new(Good)]);
    for _ in 0..10 {
        assert!(fb.upload("/tmp/a").is_some());
    }
    assert_eq!(fb.degraded(), ["CAT minting failed"]);
}

#[test]
fn fallback_records_distinct_failure_modes_separately() {
    let mut fb = FallbackUploader::new(vec![Box::new(Flaky { calls: 0 }), Box::new(Good)]);
    fb.upload("/tmp/a");
    fb.upload("/tmp/b");
    assert_eq!(fb.degraded(), ["timeout", "denied"]);
}

#[test]
fn fallback_records_nothing_when_the_primary_succeeds() {
    let mut fb = FallbackUploader::new(vec![Box::new(Good)]);
    fb.upload("/tmp/a");
    assert!(fb.degraded().is_empty());
}

#[test]
fn fallback_aggregates_errors() {
    let mut fb = FallbackUploader::new(vec![Box::new(Fail("a")), Box::new(Fail("b"))]);
    assert!(fb.upload("/tmp/a").is_none());
    assert_eq!(fb.last_error(), Some("a; b"));
}

#[test]
fn empty_errors_are_not_aggregated() {
    let mut fb = FallbackUploader::new(vec![Box::new(Silent), Box::new(Fail("b"))]);
    assert!(fb.upload("/tmp/a").is_none());
    assert_eq!(fb.last_error(), Some("b"));
    let mut none = FallbackUploader::new(vec![Box::new(Silent)]);
    assert!(none.upload("/tmp/a").is_none());
    assert_eq!(none.last_error(), Some("all uploaders returned no URL"));
    let mut empty = FallbackUploader::new(vec![]);
    assert!(empty.upload("/tmp/a").is_none());
    assert_eq!(empty.last_error(), Some("all uploaders returned no URL"));
}

#[test]
fn a_success_clears_the_previous_failure() {
    let mut fb = FallbackUploader::new(vec![Box::new(Flaky { calls: 0 })]);
    assert!(fb.upload("/tmp/a").is_none());
    assert_eq!(fb.last_error(), Some("timeout"));
    let mut ok = FallbackUploader::new(vec![Box::new(Good)]);
    assert!(ok.upload("/tmp/a").is_some());
    assert_eq!(ok.last_error(), None);
}

#[test]
fn clip_does_not_panic_on_multibyte_boundary() {
    let long = "€".repeat(MAX_ERROR_LENGTH);
    let clipped = clip(&long);
    assert!(clipped.ends_with("..."));
    assert!(clipped.is_char_boundary(clipped.len()));
}

#[test]
fn clip_trims_and_caps_at_five_hundred_bytes() {
    assert_eq!(clip("  short  "), "short");
    let exact = "x".repeat(500);
    assert_eq!(clip(&exact), exact);
    let long = "y".repeat(501);
    let clipped = clip(&long);
    assert_eq!(clipped.len(), 500);
    assert_eq!(clipped, format!("{}...", "y".repeat(497)));
    let euros = clip(&"€".repeat(200));
    // 165 three-byte characters fit in 497 bytes.
    assert_eq!(euros, format!("{}...", "€".repeat(165)));
}

#[test]
fn output_streams_combine_only_when_they_say_something() {
    assert_eq!(combined_output("out\n", "err\n"), "out\n\nerr\n");
    assert_eq!(combined_output("  \n", "err"), "err");
    assert_eq!(combined_output("out", ""), "out");
    assert_eq!(combined_output("", " "), "");
}

#[test]
fn a_failed_tool_names_itself_its_code_and_its_output() {
    assert_eq!(tool_failure("gsutil", 1, "  denied  "), "gsutil exited 1: denied");
    assert_eq!(tool_failure("x", -1, ""), "x exited -1: ");
}

struct Recording {
    seen: std::rc::Rc<std::cell::RefCell<Vec<String>>>,
    answer: Option<&'static str>,
}
impl ArtifactUploader for Recording {
    fn upload(&mut self, path: &str) -> Option<String> {
        self.seen.borrow_mut().push(path.to_string());
        self.answer.map(|s| s.to_string())
    }
    fn last_error(&self) -> Option<&str> {
        Some("down")
    }
}

#[test]
fn each_uploader_is_handed_the_path_in_order_until_one_answers() {
    let seen = std::rc::Rc::new(std::cell::RefCell::new(Vec::new()));
    let mk = |answer| Box::new(Recording { seen: seen.clone(), answer }) as Box<dyn ArtifactUploader>;
    let mut fb = FallbackUploader::new(vec![mk(None), mk(Some("https://b")), mk(Some("https://c"))]);
    assert_eq!(fb.upload("/tmp/x").as_deref(), Some("https://b"));
    assert_eq!(*seen.borrow(), vec!["/tmp/x".to_string(), "/tmp/x".to_string()]);
    assert_eq!(fb.degraded(), &["down".to_string()]);
}
