//! What a run reports: one result per step, one per assertion, and the
//! verdict they add up to.
use vstd::prelude::*;

verus! {

/// The outcome of one step.
#[derive(Debug, Clone, PartialEq, Eq)]
pub struct StepResult {
    /// Step display name: the step's `name`, or `"{index}:{action}"`.
    pub name: String,
    /// Whether the step succeeded.
    pub passed: bool,
    /// Evidence detail, such as `found 'hello'`.
    pub detail: String,
    /// The screen when the step finished.
    pub screen: String,
}

/// The outcome of one assertion.
#[derive(Debug, Clone, PartialEq, Eq)]
pub struct AssertionResult {
    /// Assertion name or type.
    pub name: String,
    /// Whether the assertion held.
    pub passed: bool,
    /// Evidence detail.
    pub detail: String,
}

/// A run's result as the reports read it. The score is already written out
/// the way the reports print it, with two decimals.
#[derive(Debug, Clone, PartialEq, Eq)]
pub struct RunRecord {
    /// Recipe identifier.
    pub recipe_name: String,
    /// Overall pass/fail.
    pub passed: bool,
    /// Process exit code, if any.
    pub exit_code: Option<i32>,
    /// Priority label.
    pub priority: String,
    /// Execution mode.
    pub execution: String,
    /// Renderer name.
    pub renderer: String,
    /// The score with two decimals, such as `0.50`.
    pub score_text: String,
    /// Per-step results in order.
    pub steps: Vec<StepResult>,
    /// Per-assertion results.
    pub assertions: Vec<AssertionResult>,
    /// Artifact name and path, in name order.
    pub artifacts: Vec<(String, String)>,
}

/// Every step passed and every assertion held.
pub open spec fn all_passed(steps: Seq<StepResult>, assertions: Seq<AssertionResult>) -> bool {
    (forall|i: int| 0 <= i < steps.len() ==> #[trigger] steps[i].passed) && (forall|i: int|
        0 <= i < assertions.len() ==> #[trigger] assertions[i].passed)
}

/// A run passes only when every step and every assertion did.
pub fn run_passed(steps: &[StepResult], assertions: &[AssertionResult]) -> (b: bool)
    ensures
        b == all_passed(steps@, assertions@),
{
    let mut i: usize = 0;
    while i < steps.len()
        invariant
            i <= steps@.len(),
            forall|k: int| 0 <= k < i ==> #[trigger] steps@[k].passed,
        decreases steps@.len() - i,
    {
        if !steps[i].passed {
            return false;
        }
        i = i + 1;
    }
    let mut j: usize = 0;
    while j < assertions.len()
        invariant
            j <= assertions@.len(),
            forall|k: int| 0 <= k < steps@.len() ==> #[trigger] steps@[k].passed,
            forall|k: int| 0 <= k < j ==> #[trigger] assertions@[k].passed,
        decreases assertions@.len() - j,
    {
        if !assertions[j].passed {
            return false;
        }
        j = j + 1;
    }
    true
}

} // verus!
