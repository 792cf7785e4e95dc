use vstd::prelude::*;

use crate::case::OperationIdV1;
use crate::fingerprint::CandidateRejectionV1;

verus! {

/// Registered test-only candidate fault: the targeted keyed move is omitted
/// from the runtime candidate while the oracle still applies it.
#[derive(Clone, Copy, Debug, PartialEq, Eq, Structural)]
pub struct TraceFaultV1 {
    target: OperationIdV1,
}

impl TraceFaultV1 {
    /// The spec-level target.
    pub closed spec fn spec_target(self) -> OperationIdV1 {
        self.target
    }

    /// Creates a fault that omits the given operation.
    pub fn omit_operation(target: OperationIdV1) -> (fault: Self)
        ensures
            fault.spec_target() == target,
    {
        TraceFaultV1 { target }
    }

    /// Returns the omitted operation.
    pub fn target(self) -> (target: OperationIdV1)
        ensures
            target == self.spec_target(),
    {
        self.target
    }
}

/// Closed outcome of one replayed transaction.
#[derive(Clone, Copy, Debug, PartialEq, Eq, Structural)]
pub enum TraceOutcomeV1 {
    /// One new generation was published.
    Commit,
    /// The commit was a true no-op.
    Noop,
    /// The runtime rejected the candidate.
    Reject(CandidateRejectionV1),
}

/// Result of comparing one transaction against the clean rebuild.
#[derive(Clone, Copy, Debug, PartialEq, Eq, Structural)]
pub enum TraceComparisonV1 {
    /// Observed and expected states agree.
    Match,
    /// Observed and expected states differ.
    Mismatch,
}

} // verus!
