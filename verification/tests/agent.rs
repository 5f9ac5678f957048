use termproof::agent::{
    agent_candidates, agent_checks, agent_prompt, bounded_reply, brace_tails_exec, preferred_object, shell_quote,
    parse_agent_output, verdict_text, MAX_AGENT_OUTPUT_BYTES,
};
use termproof::config::Json;

fn args(v: &[&str]) -> Vec<String> {
    v.iter().map(|s| s.to_string()).collect()
}

/// What a reply's verdict is, found the way the runner finds it.
fn verdict(output: &str) -> Option<serde_json::Map<String, serde_json::Value>> {
    let text = verdict_text(&bounded_reply(output))?;
    match serde_json::from_str::<serde_json::Value>(&text) {
        Ok(serde_json::Value::Object(m)) => Some(m),
        _ => None,
    }
}

#[test]
fn prompt_includes_target_and_checks() {
    let checks = agent_checks(&args(&["Pi launcher banner renders"]));
    let mut data = serde_json::Map::new();
    data.insert("recipe".to_string(), serde_json::Value::String("pi-agent".to_string()));
    data.insert(
        "checks".to_string(),
        serde_json::Value::Array(checks.into_iter().map(serde_json::Value::String).collect()),
    );
    let context = serde_json::to_string_pretty(&serde_json::Value::Object(data)).unwrap();
    let p = agent_prompt(&args(&["pi", "--help"]), &context);
    assert!(p.contains("pi --help"), "prompt missing target");
    assert!(p.contains("Pi launcher banner renders"));
    assert!(p.contains("Return JSON only"));
}

#[test]
fn no_checks_ask_for_the_default_one() {
    assert_eq!(agent_checks(&[]), vec!["Codex operator completed the verification".to_string()]);
}

#[test]
fn arguments_with_spaces_or_quotes_are_single_quoted() {
    assert_eq!(shell_quote(&args(&["echo", "a b", "it's", "x\"y"])), "echo 'a b' 'it'\\''s' 'x\"y'");
    assert_eq!(shell_quote(&[]), "");
}

#[test]
fn the_prompt_quotes_the_context_in_a_json_fence() {
    let p = agent_prompt(&args(&["t"]), "{}");
    assert!(p.starts_with("You are the Codex operator"));
    assert!(p.contains("Target command: `t`\n\nRecipe context:\n```json\n{}\n```\n"));
    assert!(p.ends_with("```\n"));
}

#[test]
fn parse_fenced_json() {
    let out = "```json\n{\"assertions\":{\"ok\":true},\"transcript\":\"done\",\"notes\":\"n\"}\n```";
    let parsed = parse_agent_output(out);
    assert_eq!(parsed.assertions, vec![("ok".to_string(), true)]);
    assert_eq!(parsed.transcript, "done");
    assert_eq!(parsed.metadata, vec![("notes".to_string(), Json::Str("n".to_string()))]);
}

#[test]
fn parse_truncated_output_still_finds_json() {
    let out = "noise {\"assertions\":{\"a\":true},\"transcript\":\"t\"} trailing garbage ...";
    let parsed = parse_agent_output(out);
    assert_eq!(parsed.assertions, vec![("a".to_string(), true)]);
}

#[test]
fn parse_malformed_returns_raw() {
    let out = "not json at all";
    let parsed = parse_agent_output(out);
    assert!(parsed.assertions.is_empty());
    assert_eq!(parsed.transcript, out);
}

#[test]
fn candidates_come_whole_then_lines_from_the_end_then_chunks() {
    let out = "  a\n\nb  \n```JSON x```";
    assert_eq!(
        agent_candidates(out),
        vec!["a\n\nb  \n```JSON x```", "```JSON x```", "b", "a", "x", "a\n\nb"]
            .into_iter()
            .map(|s| s.to_string())
            .collect::<Vec<_>>()
    );
}

#[test]
fn each_brace_is_tried_from_the_last() {
    let tails = brace_tails_exec("x{a}y{b");
    assert_eq!(
        tails,
        vec![("{b".to_string(), None), ("{a}y{b".to_string(), Some("{a}".to_string()))]
    );
}

#[test]
fn a_keyed_object_is_preferred_over_an_earlier_plain_one() {
    assert_eq!(preferred_object(&[false, true, true]), Some(1));
    assert_eq!(preferred_object(&[false, false]), Some(0));
    assert_eq!(preferred_object(&[]), None);
}

#[test]
fn parse_bounded_truncates_large_output() {
    let big = "x".repeat(MAX_AGENT_OUTPUT_BYTES + 100) + r#"{"assertions":{"ok":true}}"#;
    let parsed = parse_agent_output(&big);
    assert!(parsed.transcript.len() <= MAX_AGENT_OUTPUT_BYTES);
    assert!(parsed.assertions.is_empty());
    assert_eq!(bounded_reply(&big).len(), MAX_AGENT_OUTPUT_BYTES);
}

#[test]
fn the_bound_falls_back_to_a_character_boundary() {
    let big = "x".repeat(MAX_AGENT_OUTPUT_BYTES - 1) + "é";
    let bounded = bounded_reply(&big);
    assert_eq!(bounded.len(), MAX_AGENT_OUTPUT_BYTES - 1);
    assert_eq!(bounded_reply("short"), "short");
}

#[test]
fn the_verdict_text_is_the_first_keyed_object() {
    let out = "{\"a\":1}\n{\"transcript\":\"t\"}";
    assert_eq!(verdict_text(out).as_deref(), Some("{\"transcript\":\"t\"}"));
    assert_eq!(verdict_text("no json here"), None);
    assert_eq!(verdict_text("{\"a\":1}").as_deref(), Some("{\"a\":1}"));
}

#[test]
fn the_prompt_context_is_cut_only_when_even_the_marked_text_is_too_long() {
    let small = "{}";
    assert_eq!(termproof::agent::prompt_context(small, small), "{}");
    let big = "x".repeat(termproof::agent::MAX_PROMPT_CONTEXT_CHARS + 5);
    let marked_small = "{\"truncated\": true}";
    assert_eq!(termproof::agent::prompt_context(&big, marked_small), marked_small);
    let cut = termproof::agent::prompt_context(&big, &big);
    assert_eq!(cut.len(), termproof::agent::MAX_PROMPT_CONTEXT_CHARS + "... [truncated]".len());
    assert!(cut.ends_with("x... [truncated]"));
}

#[test]
fn a_check_that_is_not_a_boolean_counts_as_failed() {
    let parsed = parse_agent_output(r#"{"assertions":{"a":true,"b":"yes"},"score":1}"#);
    assert_eq!(parsed.assertions, vec![("a".to_string(), true), ("b".to_string(), false)]);
    assert_eq!(parsed.transcript, r#"{"assertions":{"a":true,"b":"yes"},"score":1}"#);
    assert_eq!(parsed.metadata, vec![("score".to_string(), Json::Number("1".to_string()))]);
}
