use vstd::prelude::*;

use crate::analyzer::{outcome_failed, ExecutionOutcome};
use crate::finding::Finding;

verus! {

/// Unified result of one analysis run.
#[derive(Debug, Clone, PartialEq, Eq)]
pub struct Analysis {
    pub findings: Vec<Finding>,
    pub outcomes: Vec<ExecutionOutcome>,
}

/// Whether some recorded analyzer execution failed.
pub open spec fn any_failed(outcomes: Seq<ExecutionOutcome>) -> bool {
    exists|i: int| 0 <= i < outcomes.len() && outcome_failed(#[trigger] outcomes[i])
}

impl Analysis {
    pub fn new(findings: Vec<Finding>, outcomes: Vec<ExecutionOutcome>) -> (r: Self)
        ensures
            r.findings == findings,
            r.outcomes == outcomes,
    {
        Analysis { findings, outcomes }
    }

    pub fn empty() -> (r: Self)
        ensures
            r.findings@.len() == 0,
            r.outcomes@.len() == 0,
    {
        Analysis { findings: Vec::new(), outcomes: Vec::new() }
    }

    /// Whether any enabled analyzer failed to execute.
    pub fn has_execution_failures(&self) -> (r: bool)
        ensures
            r == any_failed(self.outcomes@),
    {
        let mut i: usize = 0;
        while i < self.outcomes.len()
            invariant
                i <= self.outcomes@.len(),
                forall|j: int| 0 <= j < i ==> !outcome_failed(#[trigger] self.outcomes@[j]),
            decreases self.outcomes@.len() - i,
        {
            if self.outcomes[i].is_failed() {
                return true;
            }
            i = i + 1;
        }
        false
    }
}

impl Default for Analysis {
    fn default() -> (r: Self)
        ensures
            r.findings@.len() == 0,
            r.outcomes@.len() == 0,
    {
        Analysis::empty()
    }
}

} // verus!
