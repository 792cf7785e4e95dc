use vstd::prelude::*;

use crate::case::{OperationIdV1, TransactionIdV1};
use crate::fingerprint::{FailureFingerprintV1, FingerprintView};

verus! {

/// Mathematical form of a replay failure.
pub struct ReplayFailureView {
    pub transaction: TransactionIdV1,
    pub operation: Option<OperationIdV1>,
    pub fingerprint: FingerprintView,
}

/// The first failure of one replay, located at its transaction.
#[derive(Debug)]
pub struct ReplayFailureV1 {
    transaction: TransactionIdV1,
    operation: Option<OperationIdV1>,
    fingerprint: FailureFingerprintV1,
}

impl View for ReplayFailureV1 {
    type V = ReplayFailureView;

    closed spec fn view(&self) -> ReplayFailureView {
        ReplayFailureView {
            transaction: self.transaction,
            operation: self.operation,
            fingerprint: self.fingerprint@,
        }
    }
}

impl ReplayFailureV1 {
    /// Creates one located failure.
    pub fn new(
        transaction: TransactionIdV1,
        operation: Option<OperationIdV1>,
        fingerprint: FailureFingerprintV1,
    ) -> (failure: Self)
        ensures
            failure@ == (ReplayFailureView { transaction, operation, fingerprint: fingerprint@ }),
    {
        ReplayFailureV1 { transaction, operation, fingerprint }
    }

    /// Returns the failing transaction.
    pub fn transaction(&self) -> (transaction: TransactionIdV1)
        ensures
            transaction == self@.transaction,
    {
        self.transaction
    }

    /// Returns the failing operation, when one is known.
    pub fn operation(&self) -> (operation: Option<OperationIdV1>)
        ensures
            operation == self@.operation,
    {
        self.operation
    }

    /// Returns the failure fingerprint.
    pub fn fingerprint(&self) -> (fingerprint: &FailureFingerprintV1)
        ensures
            fingerprint@ == self@.fingerprint,
    {
        &self.fingerprint
    }
}

} // verus!
