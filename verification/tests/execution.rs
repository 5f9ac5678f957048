use termproof::execution::{
    agent_assertions, agent_raw_output, agent_step, select_mode, AgentDrivenMode, ExecutionError,
    ScriptedProcessMode, ScriptedPtyMode,
};

#[test]
fn only_scripted_pty_recipes_run() {
    assert_eq!(select_mode("scripted", true), Ok(ScriptedPtyMode));
    let err = select_mode("agent-driven", true).unwrap_err();
    assert_eq!(
        err.message(),
        "config error: execution mode 'agent-driven' is not wired to the CLI yet; only 'scripted' runs"
    );
    match select_mode("scripted", false) {
        Err(ExecutionError::Config(m)) => assert!(m.starts_with("command.pty is false")),
        other => panic!("unexpected {other:?}"),
    }
}

#[test]
fn modes_have_names_and_errors_have_messages() {
    assert_eq!(ScriptedPtyMode.name(), "scripted_pty");
    assert_eq!(ScriptedProcessMode.name(), "scripted_process");
    assert_eq!(AgentDrivenMode.name(), "agent_driven");
    assert_eq!(ExecutionError::Timeout("late".into()).message(), "timeout: late");
    assert_eq!(ExecutionError::Session("gone".into()).message(), "session error: gone");
    assert_eq!(ExecutionError::Step("bad".into()).message(), "step error: bad");
}

#[test]
fn agent_verdicts_follow_the_reports() {
    let checks = vec!["banner".to_string(), "menu".to_string()];
    let reports = vec![("menu".to_string(), true), ("banner".to_string(), false)];
    let a = agent_assertions(&checks, &reports);
    assert_eq!(a.len(), 2);
    assert_eq!((a[0].name.as_str(), a[0].passed), ("banner", false));
    assert_eq!(a[0].detail, "agent did not report pass");
    assert_eq!((a[1].name.as_str(), a[1].passed), ("menu", true));
    assert_eq!(a[1].detail, "agent reported pass");
    let d = agent_assertions(&[], &[]);
    assert_eq!(d.len(), 1);
    assert_eq!(d[0].name, "Codex operator completed the verification");
    assert!(!d[0].passed);
}

#[test]
fn agent_runs_record_one_step_and_their_raw_output() {
    let s = agent_step("saw it");
    assert_eq!((s.name.as_str(), s.passed, s.screen.as_str()), ("codex-operator", true, "saw it"));
    assert_eq!(
        agent_raw_output("demo"),
        "{\"assertions\":{},\"transcript\":\"agent executed for recipe demo\"}"
    );
}
