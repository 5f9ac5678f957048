use sha2::Digest;
use termproof::cache::{cache_key_of, cache_path, key_from_bytes, cache_payload, encode, resolve_ci, CacheOptions, CiContent, CiInput};
use termproof::text::sort_texts;

#[test]
fn hex_is_lowercase_two_digits_per_byte() {
    assert_eq!(encode(&[0x00, 0x0f, 0xab, 0xff]), "000fabff");
    assert_eq!(encode(&[]), "");
}

#[test]
fn cache_paths_sanitise_each_component() {
    assert_eq!(cache_path("/c", "my recipe", "a/b"), "/c/my-recipe/a-b.json");
    assert_eq!(cache_path("/c/", "", "x"), "/c/default/x.json");
    assert_eq!(cache_path("", "r", "d"), "r/d.json");
}

fn options(render_video: bool) -> CacheOptions {
    CacheOptions {
        renderer: "default".to_string(),
        renderer_argv: vec!["--a".to_string(), "q\"x".to_string()],
        out_dir: "out".to_string(),
        screen_renderer: "svg".to_string(),
        video_backend: "agg_ffmpeg".to_string(),
        render_video,
        video_fps: 12,
    }
}

#[test]
fn the_payload_is_compact_sorted_json() {
    assert_eq!(
        cache_payload(&options(false)),
        "{\"out_dir\":\"out\",\"render_video\":false,\"renderer\":\"default\",\"renderer_argv\":[\"--a\",\"q\\\"x\"],\"screen_renderer\":\"svg\",\"video_backend\":\"\",\"video_fps\":0}"
    );
    assert_eq!(
        cache_payload(&options(true)),
        "{\"out_dir\":\"out\",\"render_video\":true,\"renderer\":\"default\",\"renderer_argv\":[\"--a\",\"q\\\"x\"],\"screen_renderer\":\"svg\",\"video_backend\":\"agg_ffmpeg\",\"video_fps\":12}"
    );
}

#[test]
fn the_payload_matches_what_serde_json_writes() {
    let o = options(true);
    let mut m = serde_json::Map::new();
    m.insert("renderer".into(), o.renderer.clone().into());
    m.insert("renderer_argv".into(), serde_json::to_value(&o.renderer_argv).unwrap());
    m.insert("out_dir".into(), o.out_dir.clone().into());
    m.insert("screen_renderer".into(), o.screen_renderer.clone().into());
    m.insert("render_video".into(), true.into());
    m.insert("video_backend".into(), o.video_backend.clone().into());
    m.insert("video_fps".into(), 12u32.into());
    assert_eq!(cache_payload(&o), serde_json::to_string(&serde_json::Value::Object(m)).unwrap());
}

#[test]
fn the_key_digests_path_bytes_ci_and_options() {
    let ci = vec![
        CiInput { resolved: "/ci/a".to_string(), content: CiContent::File(Some(b"A".to_vec())) },
        CiInput { resolved: "/ci/gone".to_string(), content: CiContent::Missing },
        CiInput {
            resolved: "/ci/d".to_string(),
            content: CiContent::Dir(Some(vec![("/ci/d/f".to_string(), Some(b"F".to_vec()))])),
        },
    ];
    let o = options(false);
    let key = cache_key_of("r.json", Some(b"{}"), &ci, &o);
    let mut h = sha2::Sha256::new();
    h.update(b"r.json");
    h.update(b"{}");
    h.update(b"/ci/aA");
    h.update(b"/ci/gone<missing>");
    h.update(b"/ci/d/ci/d/fF");
    h.update(cache_payload(&o).as_bytes());
    assert_eq!(key, encode(&h.finalize()));
    assert_eq!(key.len(), 64);
    let missing = cache_key_of("r.json", None, &[], &o);
    let mut h = sha2::Sha256::new();
    h.update(b"r.json<missing>");
    h.update(cache_payload(&o).as_bytes());
    assert_eq!(missing, encode(&h.finalize()));
}

#[test]
fn ci_paths_resolve_against_the_base_or_the_recipe_directory() {
    assert_eq!(resolve_ci("/abs/x", Some("base"), "r/recipe.json"), "/abs/x");
    assert_eq!(resolve_ci("x", Some("base"), "r/recipe.json"), "base/x");
    assert_eq!(resolve_ci("x", None, "r/recipe.json"), "r/x");
    assert_eq!(resolve_ci("x", None, "recipe.json"), "x");
    assert_eq!(resolve_ci("x", None, "/"), "./x");
}

#[test]
fn texts_sort_as_strings_do() {
    let v: Vec<String> = vec!["b", "a", "B", "", "ab", "a"].into_iter().map(String::from).collect();
    let mut want = v.clone();
    want.sort();
    assert_eq!(sort_texts(&v), want);
}

fn hex_sha256(data: &[u8]) -> String {
    sha2::Sha256::digest(data).iter().map(|b| format!("{b:02x}")).collect()
}

#[test]
fn key_from_bytes_hashes_the_bytes_then_the_options_object() {
    assert_eq!(key_from_bytes("r", "d", &[], b"abc"), hex_sha256(b"abc{}"));
    let extra = vec![("a".to_string(), "1".to_string()), ("b".to_string(), "x\"y".to_string())];
    assert_eq!(key_from_bytes("r", "d", &extra, b"abc"), hex_sha256(b"abc{\"a\":\"1\",\"b\":\"x\\\"y\"}"));
}

#[test]
fn key_from_bytes_ignores_the_recipe_name_and_renderer() {
    let extra = vec![("k".to_string(), "v".to_string())];
    assert_eq!(key_from_bytes("one", "a", &extra, b"x"), key_from_bytes("two", "b", &extra, b"x"));
    assert_ne!(key_from_bytes("one", "a", &extra, b"x"), key_from_bytes("one", "a", &extra, b"y"));
}

#[test]
fn ci_paths_in_any_order_sort_alike() {
    let a: Vec<String> = vec!["b/x".into(), "a".into(), "c".into(), "a".into()];
    let b: Vec<String> = vec!["a".into(), "c".into(), "a".into(), "b/x".into()];
    assert_eq!(sort_texts(&a), sort_texts(&b));
}
