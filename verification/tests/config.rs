use termproof::config::{config_document, config_layer, config_layers, deep_merge, merge_layers, Json};

fn num(n: i64) -> Json {
    Json::Number(n.to_string())
}

fn obj(members: Vec<(&str, Json)>) -> Json {
    Json::Object(members.into_iter().map(|(k, v)| (k.to_string(), v)).collect())
}

fn get<'a>(j: &'a Json, k: &str) -> Option<&'a Json> {
    match j {
        Json::Object(m) => m.iter().find(|(key, _)| key == k).map(|(_, v)| v),
        _ => None,
    }
}

#[test]
fn deep_merge_overlay_wins_at_leaf() {
    let base = obj(vec![("a", obj(vec![("x", num(1)), ("y", num(2))])), ("b", num(3))]);
    let overlay = obj(vec![("a", obj(vec![("y", num(99)), ("z", num(100))])), ("c", num(4))]);
    let merged = deep_merge(base, overlay);
    let a = get(&merged, "a").unwrap();
    assert_eq!(get(a, "x"), Some(&num(1)));
    assert_eq!(get(a, "y"), Some(&num(99)));
    assert_eq!(get(a, "z"), Some(&num(100)));
    assert_eq!(get(&merged, "b"), Some(&num(3)));
    assert_eq!(get(&merged, "c"), Some(&num(4)));
}

#[test]
fn a_non_object_overlay_replaces_the_base() {
    let base = obj(vec![("a", num(1))]);
    assert_eq!(deep_merge(base, Json::Array(vec![num(2)])), Json::Array(vec![num(2)]));
    let base = obj(vec![("a", obj(vec![("x", num(1))]))]);
    let merged = deep_merge(base, obj(vec![("a", Json::Str("flat".to_string()))]));
    assert_eq!(get(&merged, "a"), Some(&Json::Str("flat".to_string())));
}

#[test]
fn user_defaults_do_not_wipe_what_they_do_not_mention() {
    let builtin = obj(vec![("steps", obj(vec![("sleep", Json::Str("S".into()))])), ("docker", obj(vec![("image", Json::Str("".into()))]))]);
    let user = obj(vec![("docker", obj(vec![("image", Json::Str("user-image".into()))]))]);
    let project = obj(vec![("docker", obj(vec![("image", Json::Str("project-image".into())), ("workdir", Json::Str("/project".into()))]))]);
    let merged = merge_layers(builtin, vec![user, project]);
    let docker = get(&merged, "docker").unwrap();
    assert_eq!(get(docker, "image"), Some(&Json::Str("project-image".into())));
    assert_eq!(get(docker, "workdir"), Some(&Json::Str("/project".into())));
    assert!(get(&merged, "steps").is_some());
}

#[test]
fn layers_go_user_then_project_then_explicit() {
    assert_eq!(
        config_layers("/p", None, Some("/home/u"), Some("/x.yaml")),
        vec![
            "/home/u/.config/tui-verifier/config.yaml",
            "/home/u/.config/termproof/config.yaml",
            "/p/.tui-verifier/config.yaml",
            "/p/.termproof/config.yaml",
            "/x.yaml",
        ]
    );
    assert_eq!(
        config_layers("proj", Some("user.yaml"), Some("/home/u"), None),
        vec!["user.yaml", "proj/.tui-verifier/config.yaml", "proj/.termproof/config.yaml"]
    );
}

#[test]
fn a_file_that_is_not_an_object_contributes_nothing() {
    assert_eq!(config_layer(None), Json::Object(vec![]));
    assert_eq!(config_layer(Some(Json::Array(vec![]))), Json::Object(vec![]));
    assert_eq!(config_layer(Some(obj(vec![("a", num(1))]))), obj(vec![("a", num(1))]));
}

#[test]
fn a_config_file_is_read_as_yaml() {
    assert_eq!(config_document("  \n"), Ok(None));
    assert_eq!(
        config_document("docker:\n  image: x\n"),
        Ok(Some(Json::Object(vec![(
            "docker".to_string(),
            Json::Object(vec![("image".to_string(), Json::Str("x".to_string()))])
        )])))
    );
    assert_eq!(config_document("a: 1\n"), Ok(Some(Json::Object(vec![("a".to_string(), num(1))]))));
    assert!(config_document("a: [1, 2\n").is_err());
}
