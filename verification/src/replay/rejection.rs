use vstd::prelude::*;

use crate::case::{OperationIdV1, TransactionIdV1};
use crate::error::{HarnessError, HarnessErrorKind};
use crate::failure::{ReplayFailureV1, ReplayFailureView};
use crate::fingerprint::{
    CandidateRejectionV1, FailureFingerprintKindV1, FailureFingerprintV1, FingerprintFieldV1,
    FingerprintLocationView, FingerprintView, SummaryView,
};

verus! {

/// Runtime capacity dimensions a candidate can exceed.
#[derive(Clone, Copy, Debug, PartialEq, Eq, Structural)]
pub enum RuntimeCapacityKindV1 {
    Operations,
    StructuralChanges,
    LiveNodes,
    LiveFragments,
    LivePropertySlots,
    RetainedGenerations,
}

/// Closed classes of runtime transaction errors, as plain values.
#[derive(Clone, Copy, Debug, PartialEq, Eq, Structural)]
pub enum RuntimeTransactionErrorKindV1 {
    CapacityExceeded(RuntimeCapacityKindV1),
    Headless,
    HeadlessUnavailable,
    StaleBase,
    MissingNode,
    MissingFragment,
    MissingKey,
    DuplicateKey,
    UnknownProperty,
    PropertyTypeMismatch,
    IndexOutOfBounds,
    GenerationExhausted,
    InvariantViolation,
}

/// The candidate rejection reported for one runtime error class.
pub open spec fn rejection_of(kind: RuntimeTransactionErrorKindV1) -> CandidateRejectionV1 {
    match kind {
        RuntimeTransactionErrorKindV1::CapacityExceeded(capacity) => match capacity {
            RuntimeCapacityKindV1::Operations => CandidateRejectionV1::CapacityOperations,
            RuntimeCapacityKindV1::StructuralChanges => CandidateRejectionV1::CapacityStructural,
            RuntimeCapacityKindV1::LiveNodes => CandidateRejectionV1::CapacityLiveNodes,
            RuntimeCapacityKindV1::LiveFragments => CandidateRejectionV1::CapacityLiveFragments,
            RuntimeCapacityKindV1::LivePropertySlots => CandidateRejectionV1::CapacityLiveProperties,
            RuntimeCapacityKindV1::RetainedGenerations => {
                CandidateRejectionV1::CapacityRetainedGenerations
            },
        },
        RuntimeTransactionErrorKindV1::Headless => CandidateRejectionV1::InvariantViolation,
        RuntimeTransactionErrorKindV1::HeadlessUnavailable => CandidateRejectionV1::InvariantViolation,
        RuntimeTransactionErrorKindV1::StaleBase => CandidateRejectionV1::StaleBase,
        RuntimeTransactionErrorKindV1::MissingNode => CandidateRejectionV1::MissingNode,
        RuntimeTransactionErrorKindV1::MissingFragment => CandidateRejectionV1::MissingFragment,
        RuntimeTransactionErrorKindV1::MissingKey => CandidateRejectionV1::MissingKey,
        RuntimeTransactionErrorKindV1::DuplicateKey => CandidateRejectionV1::DuplicateKey,
        RuntimeTransactionErrorKindV1::UnknownProperty => CandidateRejectionV1::UnknownProperty,
        RuntimeTransactionErrorKindV1::PropertyTypeMismatch => CandidateRejectionV1::PropertyTypeMismatch,
        RuntimeTransactionErrorKindV1::IndexOutOfBounds => CandidateRejectionV1::IndexOutOfBounds,
        RuntimeTransactionErrorKindV1::GenerationExhausted => CandidateRejectionV1::GenerationExhausted,
        RuntimeTransactionErrorKindV1::InvariantViolation => CandidateRejectionV1::InvariantViolation,
    }
}

/// Maps one runtime error class to its closed candidate rejection.
pub fn map_kind(kind: RuntimeTransactionErrorKindV1) -> (rejection: CandidateRejectionV1)
    ensures
        rejection == rejection_of(kind),
{
    match kind {
        RuntimeTransactionErrorKindV1::CapacityExceeded(capacity) => map_capacity(capacity),
        RuntimeTransactionErrorKindV1::Headless => CandidateRejectionV1::InvariantViolation,
        RuntimeTransactionErrorKindV1::HeadlessUnavailable => CandidateRejectionV1::InvariantViolation,
        RuntimeTransactionErrorKindV1::StaleBase => CandidateRejectionV1::StaleBase,
        RuntimeTransactionErrorKindV1::MissingNode => CandidateRejectionV1::MissingNode,
        RuntimeTransactionErrorKindV1::MissingFragment => CandidateRejectionV1::MissingFragment,
        RuntimeTransactionErrorKindV1::MissingKey => CandidateRejectionV1::MissingKey,
        RuntimeTransactionErrorKindV1::DuplicateKey => CandidateRejectionV1::DuplicateKey,
        RuntimeTransactionErrorKindV1::UnknownProperty => CandidateRejectionV1::UnknownProperty,
        RuntimeTransactionErrorKindV1::PropertyTypeMismatch => CandidateRejectionV1::PropertyTypeMismatch,
        RuntimeTransactionErrorKindV1::IndexOutOfBounds => CandidateRejectionV1::IndexOutOfBounds,
        RuntimeTransactionErrorKindV1::GenerationExhausted => CandidateRejectionV1::GenerationExhausted,
        RuntimeTransactionErrorKindV1::InvariantViolation => CandidateRejectionV1::InvariantViolation,
    }
}

fn map_capacity(capacity: RuntimeCapacityKindV1) -> (rejection: CandidateRejectionV1)
    ensures
        rejection == rejection_of(RuntimeTransactionErrorKindV1::CapacityExceeded(capacity)),
{
    match capacity {
        RuntimeCapacityKindV1::Operations => CandidateRejectionV1::CapacityOperations,
        RuntimeCapacityKindV1::StructuralChanges => CandidateRejectionV1::CapacityStructural,
        RuntimeCapacityKindV1::LiveNodes => CandidateRejectionV1::CapacityLiveNodes,
        RuntimeCapacityKindV1::LiveFragments => CandidateRejectionV1::CapacityLiveFragments,
        RuntimeCapacityKindV1::LivePropertySlots => CandidateRejectionV1::CapacityLiveProperties,
        RuntimeCapacityKindV1::RetainedGenerations => CandidateRejectionV1::CapacityRetainedGenerations,
    }
}

/// Turns one runtime rejection into its trace rejection and located replay
/// failure; the runtime's operation index is resolved against the operations
/// actually staged in the candidate.
pub fn candidate_rejection_v1(
    kind: RuntimeTransactionErrorKindV1,
    operation_index: Option<usize>,
    transaction: TransactionIdV1,
    candidate_ids: &[OperationIdV1],
) -> (result: Result<(CandidateRejectionV1, ReplayFailureV1), HarnessError>)
    ensures
        match operation_index {
            Some(index) if index >= candidate_ids@.len() => {
                result matches Err(error) && error.is_unlocated(HarnessErrorKind::TraceMismatch)
            },
            _ => result matches Ok((rejection, failure)) && rejection == rejection_of(kind)
                && failure@ == (ReplayFailureView {
                    transaction,
                    operation: match operation_index {
                        Some(index) => Some(candidate_ids@[index as int]),
                        None => None,
                    },
                    fingerprint: FingerprintView {
                        kind: FailureFingerprintKindV1::CandidateRejected,
                        location: FingerprintLocationView::Global,
                        field: FingerprintFieldV1::IdentityLifecycle,
                        expected: SummaryView::Absent,
                        observed: SummaryView::Absent,
                        rejection: Some(rejection_of(kind)),
                    },
                }),
        },
{
    let rejection = map_kind(kind);
    let operation = match operation_index {
        None => None,
        Some(index) => {
            if index >= candidate_ids.len() {
                return Err(HarnessError::new(HarnessErrorKind::TraceMismatch));
            }
            Some(candidate_ids[index])
        },
    };
    let fingerprint = FailureFingerprintV1::candidate_rejected(rejection);
    Ok((rejection, ReplayFailureV1::new(transaction, operation, fingerprint)))
}

} // verus!
