use std::cell::Cell;
use termproof::video::{render_mp4_or_fail, VideoBackend, VideoError};

struct Fake {
    fail: bool,
    calls: Cell<u32>,
}

impl VideoBackend for Fake {
    fn name(&self) -> &str {
        "fake"
    }

    fn render(&self, _cast: &str, _out: &str, _fps: u32) -> Result<(), VideoError> {
        self.calls.set(self.calls.get() + 1);
        if self.fail {
            Err(VideoError::AggMissing("agg not found in PATH".to_string()))
        } else {
            Ok(())
        }
    }
}

#[test]
fn no_video_is_made_unless_asked_for() {
    let b = Fake { fail: true, calls: Cell::new(0) };
    assert_eq!(render_mp4_or_fail(&b, "s.cast", "s.mp4", 10, false), Ok(None));
    assert_eq!(b.calls.get(), 0);
}

#[test]
fn a_requested_video_is_rendered_and_its_path_returned() {
    let b = Fake { fail: false, calls: Cell::new(0) };
    assert_eq!(render_mp4_or_fail(&b, "s.cast", "s.mp4", 10, true), Ok(Some("s.mp4".to_string())));
    assert_eq!(b.calls.get(), 1);
}

#[test]
fn missing_tools_fail_loudly_when_video_was_requested() {
    let b = Fake { fail: true, calls: Cell::new(0) };
    let err = render_mp4_or_fail(&b, "s.cast", "s.mp4", 10, true).unwrap_err();
    assert_eq!(err.message(), "agg not found: agg not found in PATH");
    assert_eq!(VideoError::FfmpegMissing("x".into()).message(), "ffmpeg not found: x");
    assert_eq!(VideoError::RenderFailed("y".into()).message(), "video render failed: y");
    assert_eq!(b.name(), "fake");
}

struct Echo {
    seen: std::cell::RefCell<Vec<(String, String, u32)>>,
}

impl VideoBackend for Echo {
    fn name(&self) -> &str {
        "echo"
    }

    fn render(&self, cast: &str, out: &str, fps: u32) -> Result<(), VideoError> {
        self.seen.borrow_mut().push((cast.to_string(), out.to_string(), fps));
        Err(VideoError::RenderFailed(format!("{cast}->{out}")))
    }
}

#[test]
fn the_backend_gets_the_paths_and_rate_and_its_error_comes_back() {
    let b = Echo { seen: std::cell::RefCell::new(Vec::new()) };
    assert_eq!(
        render_mp4_or_fail(&b, "a.cast", "a.mp4", 24, true),
        Err(VideoError::RenderFailed("a.cast->a.mp4".to_string()))
    );
    assert_eq!(*b.seen.borrow(), vec![("a.cast".to_string(), "a.mp4".to_string(), 24)]);
}
