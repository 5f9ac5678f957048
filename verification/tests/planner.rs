use termproof::planner::plan_items;

fn r(path: &str, name: &str, renderers: &[&str]) -> (String, String, Vec<(String, Vec<String>)>) {
    (
        path.to_string(),
        name.to_string(),
        renderers.iter().map(|x| (x.to_string(), vec![format!("--{x}")])).collect(),
    )
}

#[test]
fn the_plan_is_sorted_by_name_then_renderer() {
    let plan = plan_items(vec![r("b.json", "beta", &["tmux", "default"]), r("a.json", "alpha", &["x"])]);
    let keys: Vec<(String, String)> = plan.iter().map(|p| (p.recipe_name.clone(), p.renderer.clone())).collect();
    assert_eq!(
        keys,
        vec![
            ("alpha".to_string(), "x".to_string()),
            ("beta".to_string(), "default".to_string()),
            ("beta".to_string(), "tmux".to_string()),
        ]
    );
    assert_eq!(plan[0].recipe_path, "a.json");
    assert_eq!(plan[2].renderer_argv, vec!["--tmux".to_string()]);
}

#[test]
fn equal_keys_keep_their_input_order() {
    let plan = plan_items(vec![r("first.json", "same", &["d"]), r("second.json", "same", &["d"])]);
    assert_eq!(plan[0].recipe_path, "first.json");
    assert_eq!(plan[1].recipe_path, "second.json");
}

#[test]
fn an_empty_input_plans_nothing() {
    assert!(plan_items(vec![]).is_empty());
    assert!(plan_items(vec![r("a", "a", &[])]).is_empty());
}

#[test]
fn ordering_is_by_code_point() {
    let plan = plan_items(vec![r("1", "b", &["r"]), r("2", "B", &["r"]), r("3", "é", &["r"]), r("4", "", &["r"])]);
    let names: Vec<&str> = plan.iter().map(|p| p.recipe_name.as_str()).collect();
    assert_eq!(names, ["", "B", "b", "é"]);
}
