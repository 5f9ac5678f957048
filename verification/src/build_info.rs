//! Provenance for the binary under test: where it came from, so a result can
//! be traced to an exact artifact months later.
use vstd::prelude::*;
use crate::text::{chars_of, str_eq, string_of, trim, trim_chars};

verus! {

broadcast use vstd::string::group_string_axioms;

/// A binary already present on the host.
pub const MODE_INSTALLED: &'static str = "installed";

/// A binary built from a checkout, tied to a change or commit.
pub const MODE_SOURCE: &'static str = "source";

/// A binary from a distribution package.
pub const MODE_PACKAGE: &'static str = "package";

/// Where the binary under test came from.
#[derive(Debug, Clone, PartialEq, Eq)]
pub struct BuildInfo {
    /// One of `installed`, `source`, `package`.
    pub mode: String,
    /// Absolute path to the binary.
    pub binary_path: String,
    /// Whatever `<binary> --version` printed, or `"unknown"`.
    pub version: String,
    /// Code-review or change identifier this build came from, if any.
    pub change_id: Option<String>,
    /// VCS commit hash this build came from, if any.
    pub commit_hash: Option<String>,
    /// Build-system target that produced it, if any.
    pub build_target: Option<String>,
    /// When this record was made, not when the binary was built.
    pub build_timestamp: Option<String>,
}

/// Whether the record is complete enough to trust, given whether the binary
/// exists: a source build must name a target and a change or commit, and
/// every build needs a binary path that exists. An unknown mode is never
/// trusted.
pub open spec fn provenance_spec(b: BuildInfo, exists: bool) -> bool {
    if b.mode@ == MODE_SOURCE@ {
        b.build_target is Some && (b.change_id is Some || b.commit_hash is Some) && b.binary_path@.len()
            > 0 && exists
    } else if b.mode@ == MODE_INSTALLED@ || b.mode@ == MODE_PACKAGE@ {
        b.binary_path@.len() > 0 && exists
    } else {
        false
    }
}

impl BuildInfo {
    /// Whether this record is complete enough to trust, when the binary's
    /// existence on disk is `exists`. A source build must name both a target
    /// and a change or commit; an installed or packaged binary needs only to
    /// exist. Whatever the disk says, an incomplete record is never trusted.
    /// Asking the disk about `binary_path` is the caller's part.
    pub fn provenance_holds(&self, exists: bool) -> (r: bool)
        ensures
            r == provenance_spec(*self, exists),
    {
        if str_eq(self.mode.as_str(), MODE_SOURCE) {
            self.build_target.is_some() && (self.change_id.is_some() || self.commit_hash.is_some())
                && !self.binary_path.as_str().is_empty() && exists
        } else if str_eq(self.mode.as_str(), MODE_INSTALLED) || str_eq(self.mode.as_str(), MODE_PACKAGE) {
            !self.binary_path.as_str().is_empty() && exists
        } else {
            false
        }
    }

    /// The record for an installed binary whose `--version` printed
    /// `version`, made at `timestamp`.
    pub fn from_installed(binary_path: &str, version: String, timestamp: String) -> (b: Self)
        ensures
            b.mode@ == MODE_INSTALLED@,
            b.binary_path@ == binary_path@,
            b.version == version,
            b.change_id is None,
            b.commit_hash is None,
            b.build_target is None,
            b.build_timestamp == Some(timestamp),
    {
        BuildInfo {
            mode: MODE_INSTALLED.to_owned(),
            binary_path: binary_path.to_owned(),
            version,
            change_id: None,
            commit_hash: None,
            build_target: None,
            build_timestamp: Some(timestamp),
        }
    }

    /// The record for a binary built from a checkout, whose `--version`
    /// printed `version` (`unknown` when there is no binary path), made at
    /// `timestamp`.
    pub fn from_source_build(
        build_target: &str,
        change_id: Option<String>,
        commit_hash: Option<String>,
        binary_path: &str,
        version: String,
        timestamp: String,
    ) -> (b: Self)
        ensures
            b.mode@ == MODE_SOURCE@,
            b.binary_path@ == binary_path@,
            b.version@ == (if binary_path@.len() == 0 { "unknown"@ } else { version@ }),
            b.change_id == change_id,
            b.commit_hash == commit_hash,
            b.build_target matches Some(t) && t@ == build_target@,
            b.build_timestamp == Some(timestamp),
    {
        let version = if binary_path.is_empty() { "unknown".to_owned() } else { version };
        BuildInfo {
            mode: MODE_SOURCE.to_owned(),
            binary_path: binary_path.to_owned(),
            version,
            change_id,
            commit_hash,
            build_target: Some(build_target.to_owned()),
            build_timestamp: Some(timestamp),
        }
    }
}

/// What a `--version` probe reports: the trimmed standard output, else the
/// trimmed standard error, else `unknown`.
pub open spec fn version_spec(stdout: Seq<char>, stderr: Seq<char>) -> Seq<char> {
    if trim(stdout).len() > 0 {
        trim(stdout)
    } else if trim(stderr).len() > 0 {
        trim(stderr)
    } else {
        "unknown"@
    }
}

/// The version a `<binary> --version` probe reports from what the binary
/// printed.
pub fn version_from_output(stdout: &str, stderr: &str) -> (v: String)
    ensures
        v@ == version_spec(stdout@, stderr@),
{
    let out = trim_chars(chars_of(stdout).as_slice());
    if out.len() > 0 {
        return string_of(out.as_slice());
    }
    let err = trim_chars(chars_of(stderr).as_slice());
    if err.len() > 0 {
        return string_of(err.as_slice());
    }
    "unknown".to_owned()
}

/// A source build with neither a change nor a commit is never trusted,
/// whatever else it records.
pub proof fn lemma_untraceable_source_build_is_untrusted(b: BuildInfo, exists: bool)
    requires
        b.mode@ == MODE_SOURCE@,
        b.change_id is None,
        b.commit_hash is None,
    ensures
        !provenance_spec(b, exists),
{
}

} // verus!
