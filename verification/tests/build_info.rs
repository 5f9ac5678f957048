use termproof::build_info::{version_from_output, BuildInfo, MODE_INSTALLED, MODE_PACKAGE, MODE_SOURCE};

/// The provenance check: the record's rules, with the disk asked whether
/// the binary is there.
fn verify(b: &BuildInfo) -> bool {
    b.provenance_holds(!b.binary_path.is_empty() && std::path::Path::new(&b.binary_path).exists())
}

fn record(mode: &str, path: &str) -> BuildInfo {
    BuildInfo {
        mode: mode.to_string(),
        binary_path: path.to_string(),
        version: "unknown".to_string(),
        change_id: None,
        commit_hash: None,
        build_target: None,
        build_timestamp: None,
    }
}

#[test]
fn installed_missing_binary_unverified() {
    assert!(!verify(&record(MODE_INSTALLED, "/nonexistent/binary")));
}

#[test]
fn source_requires_target_and_ref() {
    let bi = BuildInfo::from_source_build("//t:x", None, None, "", "ignored".to_string(), "now".to_string());
    assert_eq!(bi.version, "unknown");
    assert!(!verify(&bi));
}

#[test]
fn unknown_mode_unverified() {
    assert!(!verify(&record("weird", "")));
}

#[test]
fn an_existing_installed_binary_is_trusted() {
    let path = "/".to_string();
    assert!(verify(&record(MODE_INSTALLED, &path)));
    assert!(verify(&record(MODE_PACKAGE, &path)));
    assert!(!verify(&record(MODE_SOURCE, &path)));
}

#[test]
fn a_traceable_source_build_is_trusted_when_it_exists() {
    let mut bi = record(MODE_SOURCE, "/bin/x");
    bi.build_target = Some("//t:x".into());
    bi.commit_hash = Some("abc".into());
    assert!(bi.provenance_holds(true));
    assert!(!bi.provenance_holds(false));
    bi.commit_hash = None;
    assert!(!bi.provenance_holds(true));
}

#[test]
fn from_installed_keeps_what_it_was_given() {
    let bi = BuildInfo::from_installed("/bin/x", "x 1.0".into(), "t".into());
    assert_eq!(bi.mode, "installed");
    assert_eq!(bi.version, "x 1.0");
    assert_eq!(bi.build_timestamp.as_deref(), Some("t"));
}

#[test]
fn a_version_probe_prefers_stdout_then_stderr() {
    assert_eq!(version_from_output("  tool 1.2\n", "warn"), "tool 1.2");
    assert_eq!(version_from_output(" \n", " tool 2 "), "tool 2");
    assert_eq!(version_from_output("", ""), "unknown");
    let bi = BuildInfo::from_installed("/bin/sh", "x".to_string(), "t".to_string());
    assert_eq!(bi.mode, MODE_INSTALLED);
    assert_eq!(bi.build_timestamp.as_deref(), Some("t"));
}
