use termproof::selection::{normalize_path, select_names, RecipePaths, SelectionConfig};

fn recipe(name: &str, paths: &[&str]) -> RecipePaths {
    RecipePaths { name: name.to_string(), ci_paths: paths.iter().map(|p| p.to_string()).collect() }
}

fn all() -> Vec<RecipePaths> {
    vec![
        recipe("smoke", &[]),
        recipe("payments", &["src/payments/**"]),
        recipe("search", &["src/search/**/*.rs"]),
    ]
}

fn cfg() -> SelectionConfig<'static> {
    SelectionConfig { harness_root: "verify/", repo_marker: "/repo/", smoke: &["smoke"] }
}

fn names(changed: &[&str]) -> Vec<String> {
    let owned: Vec<String> = changed.iter().map(|s| s.to_string()).collect();
    select_names(&all(), &owned, &cfg())
}

#[test]
fn smoke_runs_even_when_nothing_matches() {
    assert_eq!(names(&["docs/readme.md"]), vec!["smoke".to_string()]);
}

#[test]
fn a_matching_path_adds_its_recipe() {
    assert_eq!(names(&["src/payments/api.rs"]), vec!["smoke".to_string(), "payments".to_string()]);
}

#[test]
fn a_harness_change_suppresses_every_other_match() {
    assert_eq!(names(&["src/payments/api.rs", "verify/runner.rs"]), vec!["smoke".to_string()]);
}

#[test]
fn absolute_paths_are_made_repo_relative() {
    assert_eq!(
        names(&["/home/someone/repo/src/search/index.rs"]),
        vec!["smoke".to_string(), "search".to_string()]
    );
}

#[test]
fn windows_separators_and_dot_prefixes_normalise() {
    assert_eq!(names(&[".\\src\\payments\\api.rs"]), vec!["smoke".to_string(), "payments".to_string()]);
}

#[test]
fn a_star_crosses_directory_separators() {
    assert_eq!(
        names(&["src/search/backend/index/mod.rs"]),
        vec!["smoke".to_string(), "search".to_string()]
    );
}

#[test]
fn a_broken_glob_does_not_stop_the_others() {
    let recipes = vec![recipe("smoke", &[]), recipe("broken", &["["]), recipe("payments", &["src/payments/**"])];
    let changed = vec!["src/payments/api.rs".to_string()];
    let got = select_names(&recipes, &changed, &cfg());
    assert!(got.contains(&"payments".to_string()), "{got:?}");
}

#[test]
fn a_smoke_name_that_does_not_exist_is_ignored() {
    let config = SelectionConfig { harness_root: "verify/", repo_marker: "/repo/", smoke: &["smoke", "nonexistent"] };
    let changed = vec!["docs/readme.md".to_string()];
    assert_eq!(select_names(&all(), &changed, &config), vec!["smoke".to_string()]);
}

#[test]
fn selection_preserves_the_input_order() {
    let changed = vec!["src/search/index.rs".to_string(), "src/payments/api.rs".to_string()];
    assert_eq!(
        select_names(&all(), &changed, &cfg()),
        vec!["smoke".to_string(), "payments".to_string(), "search".to_string()]
    );
}

#[test]
fn an_empty_changeset_still_runs_smoke() {
    assert_eq!(select_names(&all(), &[], &cfg()), vec!["smoke".to_string()]);
}

#[test]
fn paths_normalise_to_repo_relative_form() {
    assert_eq!(normalize_path("  ./././a\\b/  ", "/repo/"), "a/b");
    assert_eq!(normalize_path("/x/repo/y/repo/z//", "/repo/"), "y/repo/z");
    assert_eq!(normalize_path("plain", ""), "plain");
}
