//! Video rendering of a recorded session, with a loud failure: a video that
//! was asked for and could not be made is an error, never a silent no-op.
use vstd::prelude::*;
use crate::text::{owned, push_str};

verus! {

broadcast use vstd::string::group_string_axioms;

/// Why a video could not be made.
#[derive(Debug, Clone, PartialEq, Eq)]
pub enum VideoError {
    /// The `agg` renderer is missing.
    AggMissing(String),
    /// `ffmpeg` is missing.
    FfmpegMissing(String),
    /// A rendering command failed.
    RenderFailed(String),
}

impl VideoError {
    /// The error's message.
    pub fn message(&self) -> (m: String)
        ensures
            m@ == match self {
                VideoError::AggMissing(s) => "agg not found: "@ + s@,
                VideoError::FfmpegMissing(s) => "ffmpeg not found: "@ + s@,
                VideoError::RenderFailed(s) => "video render failed: "@ + s@,
            },
    {
        let mut m = String::new();
        match self {
            VideoError::AggMissing(s) => {
                push_str(&mut m, "agg not found: ");
                push_str(&mut m, s.as_str());
            },
            VideoError::FfmpegMissing(s) => {
                push_str(&mut m, "ffmpeg not found: ");
                push_str(&mut m, s.as_str());
            },
            VideoError::RenderFailed(s) => {
                push_str(&mut m, "video render failed: ");
                push_str(&mut m, s.as_str());
            },
        }
        m
    }
}

/// Something that renders a recorded session to a video file.
pub trait VideoBackend {
    /// The backend's name.
    fn name(&self) -> &str;

    /// Whether rendering the recording at `cast` to `out` at `fps` frames per
    /// second may end in `r`. A backend that does not say may end in
    /// anything.
    open spec fn renders(&self, cast: Seq<char>, out: Seq<char>, fps: u32, r: Result<(), VideoError>) -> bool {
        true
    }

    /// Render the recording at `cast_path` to `output_path` at `fps` frames
    /// per second.
    fn render(&self, cast_path: &str, output_path: &str, fps: u32) -> (r: Result<(), VideoError>)
        ensures
            self.renders(cast_path@, output_path@, fps, r),
    ;
}

/// Render a video only when one was asked for: nothing when it was not, the
/// video's path when it was and rendering succeeded, and the backend's
/// error, not a silent success, when it was and rendering failed.
pub fn render_mp4_or_fail<B: VideoBackend>(
    backend: &B,
    cast_path: &str,
    mp4_path: &str,
    fps: u32,
    render_video: bool,
) -> (r: Result<Option<String>, VideoError>)
    ensures
        !render_video ==> r == Ok::<Option<String>, VideoError>(None),
        render_video ==> exists|b: Result<(), VideoError>|
            #[trigger] backend.renders(cast_path@, mp4_path@, fps, b) && match b {
                Ok(()) => r matches Ok(Some(path)) && path@ == mp4_path@,
                Err(e) => r == Err::<Option<String>, VideoError>(e),
            },
{
    if !render_video {
        return Ok(None);
    }
    match backend.render(cast_path, mp4_path, fps) {
        Ok(()) => Ok(Some(owned(mp4_path))),
        Err(e) => Err(e),
    }
}

} // verus!
