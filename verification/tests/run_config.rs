use termproof::run_config::pick;

#[test]
fn a_flag_beats_the_config_which_beats_the_default() {
    assert_eq!(pick(Some("flag"), Some("cfg"), "builtin"), "flag");
    assert_eq!(pick(None, Some("cfg"), "builtin"), "cfg");
    assert_eq!(pick(None, None, "builtin"), "builtin");
}

use termproof::run_config::{Discovery, Output, Publisher, Requirements};

#[test]
fn excluding_a_recipe_by_glob() {
    let d = Discovery { exclude: vec!["slow-*".to_string(), "plugins".to_string()], ..Default::default() };
    assert!(d.excludes("slow-startup"));
    assert!(d.excludes("plugins"));
    assert!(!d.excludes("smoke"));
}

#[test]
fn an_unparseable_exclude_pattern_excludes_nothing() {
    let d = Discovery { exclude: vec!["[".to_string()], ..Default::default() };
    assert!(!d.excludes("smoke"));
}

#[test]
fn nothing_is_excluded_by_default() {
    assert!(!Discovery::default().excludes("smoke"));
}

#[test]
fn defaults_set_nothing() {
    let o = Output::default();
    assert!(o.artifact_dir.is_none() && o.publishers.is_empty());
    assert_eq!(o.require, Requirements::default());
    assert!(Publisher::default().settings.is_empty());
}
