//! How a recipe is executed: which mode a recipe selects, the errors that
//! stop an execution, and the verdicts of the agent-driven mode.
//!
//! Only scripted recipes on a pseudo-terminal run; anything else is refused
//! with a diagnostic naming the reason, since running it another way would
//! report a verdict about something the recipe did not ask for.
use vstd::prelude::*;
use crate::result::{AssertionResult, StepResult};
use crate::text::{owned, push_str, str_eq};

verus! {

broadcast use vstd::string::group_string_axioms;

/// Why an execution stopped.
#[derive(Debug, Clone, PartialEq, Eq)]
pub enum ExecutionError {
    /// A step failed to execute.
    Step(String),
    /// The session backend failed.
    Session(String),
    /// The recipe or the configuration is unusable.
    Config(String),
    /// A timeout.
    Timeout(String),
}

impl ExecutionError {
    /// The error's message: its kind, a colon, and the reason.
    pub fn message(&self) -> (m: String)
        ensures
            m@ == match self {
                ExecutionError::Step(s) => "step error: "@ + s@,
                ExecutionError::Session(s) => "session error: "@ + s@,
                ExecutionError::Config(s) => "config error: "@ + s@,
                ExecutionError::Timeout(s) => "timeout: "@ + s@,
            },
    {
        let mut m = String::new();
        match self {
            ExecutionError::Step(s) => {
                push_str(&mut m, "step error: ");
                push_str(&mut m, s.as_str());
            },
            ExecutionError::Session(s) => {
                push_str(&mut m, "session error: ");
                push_str(&mut m, s.as_str());
            },
            ExecutionError::Config(s) => {
                push_str(&mut m, "config error: ");
                push_str(&mut m, s.as_str());
            },
            ExecutionError::Timeout(s) => {
                push_str(&mut m, "timeout: ");
                push_str(&mut m, s.as_str());
            },
        }
        m
    }
}

/// Scripted execution on a pseudo-terminal.
#[derive(Debug, Clone, Copy, PartialEq, Eq)]
pub struct ScriptedPtyMode;

/// Scripted execution without a pseudo-terminal.
#[derive(Debug, Clone, Copy, PartialEq, Eq)]
pub struct ScriptedProcessMode;

/// Execution handed to an agent.
#[derive(Debug, Clone, Copy, PartialEq, Eq)]
pub struct AgentDrivenMode;

impl ScriptedPtyMode {
    /// The mode's name.
    pub fn name(&self) -> (s: &'static str)
        ensures
            s@ == "scripted_pty"@,
    {
        "scripted_pty"
    }
}

impl ScriptedProcessMode {
    /// The mode's name.
    pub fn name(&self) -> (s: &'static str)
        ensures
            s@ == "scripted_process"@,
    {
        "scripted_process"
    }
}

impl AgentDrivenMode {
    /// The mode's name.
    pub fn name(&self) -> (s: &'static str)
        ensures
            s@ == "agent_driven"@,
    {
        "agent_driven"
    }
}

/// The refusal for an execution mode other than `scripted`.
pub open spec fn unwired_mode_message(execution: Seq<char>) -> Seq<char> {
    "execution mode '"@ + execution + "' is not wired to the CLI yet; only 'scripted' runs"@
}

/// The refusal for a recipe that asks not to use a pseudo-terminal.
pub open spec fn non_pty_message() -> Seq<char> {
    "command.pty is false, and non-pty sessions are not wired yet; running the target on a pty regardless would verify something the recipe did not ask for"@
}

/// The mode a recipe runs in: a scripted recipe on a pseudo-terminal runs
/// scripted on a pseudo-terminal; any other execution mode, and then a
/// recipe that turns the pseudo-terminal off, is refused as a configuration
/// error saying why.
pub fn select_mode(execution: &str, pty: bool) -> (r: Result<ScriptedPtyMode, ExecutionError>)
    ensures
        execution@ != "scripted"@ ==> (r matches Err(ExecutionError::Config(m)) && m@
            == unwired_mode_message(execution@)),
        execution@ == "scripted"@ && !pty ==> (r matches Err(ExecutionError::Config(m)) && m@
            == non_pty_message()),
        execution@ == "scripted"@ && pty ==> r is Ok,
{
    if !str_eq(execution, "scripted") {
        let mut m = String::new();
        push_str(&mut m, "execution mode '");
        push_str(&mut m, execution);
        push_str(&mut m, "' is not wired to the CLI yet; only 'scripted' runs");
        return Err(ExecutionError::Config(m));
    }
    if !pty {
        return Err(
            ExecutionError::Config(
                owned(
                    "command.pty is false, and non-pty sessions are not wired yet; running the target on a pty regardless would verify something the recipe did not ask for",
                ),
            ),
        );
    }
    Ok(ScriptedPtyMode)
}

/// The check an agent-driven recipe has when it lists none.
pub open spec fn default_check() -> Seq<char> {
    "Codex operator completed the verification"@
}

/// What the agent reported for `check`: the first report of that name, or a
/// failure when there is none.
pub open spec fn reported(reports: Seq<(String, bool)>, check: Seq<char>) -> bool
    decreases reports.len(),
{
    if reports.len() == 0 {
        false
    } else if reports[0].0@ == check {
        reports[0].1
    } else {
        reported(reports.drop_first(), check)
    }
}

/// The assertion an agent-driven run records for one check.
pub open spec fn agent_assertion(a: AssertionResult, check: Seq<char>, reports: Seq<(String, bool)>) -> bool {
    &&& a.name@ == check
    &&& a.passed == reported(reports, check)
    &&& a.detail@ == if a.passed {
        "agent reported pass"@
    } else {
        "agent did not report pass"@
    }
}

fn reported_exec(reports: &[(String, bool)], check: &str) -> (r: bool)
    ensures
        r == reported(reports@, check@),
{
    let mut i: usize = 0;
    assert(reports@.skip(0) =~= reports@);
    while i < reports.len()
        invariant
            i <= reports@.len(),
            reported(reports@, check@) == reported(reports@.skip(i as int), check@),
        decreases reports@.len() - i,
    {
        if str_eq(reports[i].0.as_str(), check) {
            return reports[i].1;
        }
        assert(reports@.skip(i as int).drop_first() =~= reports@.skip(i + 1));
        i = i + 1;
    }
    false
}

/// The assertions of an agent-driven run: one per check (or the single
/// default check when the recipe lists none), passing where the agent
/// reported the check as passed.
pub fn agent_assertions(checks: &[String], reports: &[(String, bool)]) -> (out: Vec<AssertionResult>)
    ensures
        checks@.len() == 0 ==> out@.len() == 1 && agent_assertion(out@[0], default_check(), reports@),
        checks@.len() > 0 ==> out@.len() == checks@.len() && forall|i: int|
            0 <= i < checks@.len() ==> agent_assertion(#[trigger] out@[i], checks@[i]@, reports@),
{
    let mut out: Vec<AssertionResult> = Vec::new();
    if checks.len() == 0 {
        let check = "Codex operator completed the verification";
        let passed = reported_exec(reports, check);
        let detail = if passed {
            owned("agent reported pass")
        } else {
            owned("agent did not report pass")
        };
        out.push(AssertionResult { name: owned(check), passed, detail });
        return out;
    }
    let mut i: usize = 0;
    while i < checks.len()
        invariant
            i <= checks@.len(),
            out@.len() == i,
            forall|k: int| 0 <= k < i ==> agent_assertion(#[trigger] out@[k], checks@[k]@, reports@),
        decreases checks@.len() - i,
    {
        let check = checks[i].as_str();
        let passed = reported_exec(reports, check);
        let detail = if passed {
            owned("agent reported pass")
        } else {
            owned("agent did not report pass")
        };
        out.push(AssertionResult { name: owned(check), passed, detail });
        i = i + 1;
    }
    out
}

/// The single step an agent-driven run records: the operator, passing, with
/// the transcript as its screen.
pub fn agent_step(transcript: &str) -> (s: StepResult)
    ensures
        s.name@ == "codex-operator"@,
        s.passed,
        s.detail@ == "agent mode via ExecutionContext"@,
        s.screen@ == transcript@,
{
    StepResult {
        name: owned("codex-operator"),
        passed: true,
        detail: owned("agent mode via ExecutionContext"),
        screen: owned(transcript),
    }
}

/// The raw output an agent-driven run records for recipe `name`.
pub fn agent_raw_output(name: &str) -> (s: String)
    ensures
        s@ == "{\"assertions\":{},\"transcript\":\"agent executed for recipe "@ + name@ + "\"}"@,
{
    let mut s = String::new();
    push_str(&mut s, "{\"assertions\":{},\"transcript\":\"agent executed for recipe ");
    push_str(&mut s, name);
    push_str(&mut s, "\"}");
    s
}

} // verus!
