use termproof::command::{
    is_recipe_file_name, recipe_wanted, renderer_wanted, run_exit_code, shell_words, EXIT_FAILURE,
    EXIT_SUCCESS, EXIT_USAGE,
};

#[test]
fn recipe_files_are_recognised_by_suffix_in_any_ascii_case() {
    assert!(is_recipe_file_name("login.recipe.json"));
    assert!(is_recipe_file_name("LOGIN.Recipe.YAML"));
    assert!(is_recipe_file_name("a.recipe.yml"));
    assert!(!is_recipe_file_name(".recipe.json"));
    assert!(!is_recipe_file_name("login.json"));
    assert!(!is_recipe_file_name("login.recipe.json.bak"));
}

#[test]
fn filters_keep_what_they_name() {
    let names = vec!["kept".to_string()];
    assert!(recipe_wanted(None, &[], "P2", "anything"));
    assert!(recipe_wanted(Some("P0"), &names, "P0", "kept"));
    assert!(!recipe_wanted(Some("P0"), &names, "P1", "kept"));
    assert!(!recipe_wanted(None, &names, "P0", "dropped"));
    assert!(renderer_wanted(None, "wide"));
    assert!(renderer_wanted(Some("wide"), "wide"));
    assert!(!renderer_wanted(Some("wide"), "default"));
}

#[test]
fn any_failure_fails_the_run() {
    assert_eq!(run_exit_code(false, &[true, true]), EXIT_SUCCESS);
    assert_eq!(run_exit_code(false, &[true, false]), EXIT_FAILURE);
    assert_eq!(run_exit_code(true, &[true]), EXIT_FAILURE);
    assert_eq!(run_exit_code(false, &[]), EXIT_SUCCESS);
    assert_eq!((EXIT_SUCCESS, EXIT_FAILURE, EXIT_USAGE), (0, 1, 2));
}

#[test]
fn command_lines_split_like_a_shell() {
    assert_eq!(shell_words("sh -c 'echo hi there'"), vec!["sh", "-c", "echo hi there"]);
    assert_eq!(shell_words("a \"b c\" d\\ e"), vec!["a", "b c", "d e"]);
    assert_eq!(shell_words("  spaced   out  "), vec!["spaced", "out"]);
    assert_eq!(shell_words("it\"'\"s"), vec!["it's"]);
    assert_eq!(shell_words("''"), Vec::<String>::new());
    assert_eq!(shell_words("'a\\b'"), vec!["a\\b"]);
}
