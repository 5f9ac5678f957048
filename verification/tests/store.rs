use termproof::store::{ensure_within_base, new_run_dir, sanitize_component, validate_artifact_path};

#[test]
fn sanitize_replaces_unsafe_chars() {
    assert_eq!(sanitize_component("hello world!"), "hello-world-");
    assert_eq!(sanitize_component(""), "default");
    assert_eq!(sanitize_component("a/b\\c"), "a-b-c");
}

#[test]
fn traversal_is_rejected() {
    let base = "/tmp/base";
    let evil = "/tmp/base/../etc/passwd";
    assert!(ensure_within_base(base, evil).is_err());
}

#[test]
fn a_path_under_the_base_is_accepted() {
    assert!(ensure_within_base("/tmp/base", "/tmp/base/run/x.json").is_ok());
    assert!(ensure_within_base("/tmp/base/", "/tmp/base/./run/../y").is_ok());
    assert!(ensure_within_base("/tmp/base", "/tmp/base").is_ok());
    assert!(ensure_within_base("/tmp/base", "/tmp/basement").is_err());
    assert!(ensure_within_base("/tmp/base", "tmp/base/x").is_err());
}

#[test]
fn the_traversal_message_names_both_paths() {
    assert_eq!(
        ensure_within_base("/b", "/c").unwrap_err(),
        "path traversal detected: /c escapes base /b"
    );
}

#[test]
fn artifact_paths_with_dotdot_are_refused() {
    assert_eq!(
        validate_artifact_path("/run", "a/../b").unwrap_err(),
        "artifact path contains '..': a/../b"
    );
    assert!(validate_artifact_path("/run", "shots/1.png").is_ok());
    assert!(validate_artifact_path("/run", "/elsewhere/x").is_ok());
    assert!(validate_artifact_path("", "x").is_ok());
}

#[test]
fn unicode_letters_survive_sanitizing() {
    assert_eq!(sanitize_component("réc_1-x"), "réc_1-x");
}

#[test]
fn a_run_directory_is_named_by_time_recipe_renderer_and_process() {
    assert_eq!(
        new_run_dir("/tmp/runs", "20240101-000000-000001", "my recipe", "default", 42, "00ff"),
        "/tmp/runs/20240101-000000-000001-my-recipe-default-42-00ff"
    );
    assert_eq!(new_run_dir("runs/", "t", "", "a/b", 7, "x"), "runs/t-default-a-b-7-x");
}
