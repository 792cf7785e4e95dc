use vstd::prelude::*;

use crate::case::{OperationIdV1, TransactionIdV1};

verus! {

/// Bounded harness dimensions whose inclusive ceiling can be exceeded.
#[derive(Clone, Copy, Debug, PartialEq, Eq, Structural)]
pub enum HarnessLimitKind {
    /// Transactions in one case.
    Transactions,
    /// Operations in one transaction.
    OperationsPerTransaction,
    /// Operations in one case.
    Operations,
    /// Live keyed memberships in one observed state.
    LiveMemberships,
    /// Segments in one semantic path.
    PathDepth,
    /// Normalized nodes in one observed state.
    NormalizedNodes,
    /// Normalized fragments in one observed state.
    NormalizedFragments,
    /// Normalized property slots in one observed state.
    NormalizedProperties,
    /// Applicable generated actions.
    ApplicableActions,
    /// Canonical trace bytes.
    TraceBytes,
}

/// Closed failure classes of the replay harness.
#[derive(Clone, Copy, Debug, PartialEq, Eq, Structural)]
pub enum HarnessErrorKind {
    /// The case names an unregistered fixture revision.
    UnsupportedVersion,
    /// A bounded harness dimension was exceeded.
    LimitExceeded(HarnessLimitKind),
    /// An operation is semantically invalid for the current state.
    InvalidOperation,
    /// A semantic path does not address the fixture.
    InvalidSemanticPath,
    /// The runtime could not be initialized.
    RuntimeInitialization,
    /// The runtime rejected a candidate the oracle expected to succeed.
    UnexpectedCandidateRejection,
    /// Observed and expected logical states differ.
    StateMismatch,
    /// Physical identities violated the lifecycle contract.
    IdentityMismatch,
    /// A commit or rejection had an incoherent shape.
    TraceMismatch,
    /// Checked harness arithmetic could not represent a value.
    ArithmeticExhausted,
}

/// Privacy-safe harness failure with an optional case location.
#[derive(Clone, Copy, Debug, PartialEq, Eq, Structural)]
pub struct HarnessError {
    kind: HarnessErrorKind,
    transaction: Option<TransactionIdV1>,
    operation: Option<OperationIdV1>,
}

impl HarnessError {
    /// The failure class.
    pub closed spec fn spec_kind(self) -> HarnessErrorKind {
        self.kind
    }

    /// The transaction location, if any.
    pub closed spec fn spec_transaction(self) -> Option<TransactionIdV1> {
        self.transaction
    }

    /// The operation location, if any.
    pub closed spec fn spec_operation(self) -> Option<OperationIdV1> {
        self.operation
    }

    /// Holds when the error has the given class and no location.
    pub open spec fn is_unlocated(self, kind: HarnessErrorKind) -> bool {
        &&& self.spec_kind() == kind
        &&& self.spec_transaction().is_none()
        &&& self.spec_operation().is_none()
    }

    /// Holds when the error has the given class and is located at a transaction only.
    pub open spec fn is_at_transaction(self, kind: HarnessErrorKind, transaction: TransactionIdV1) -> bool {
        &&& self.spec_kind() == kind
        &&& self.spec_transaction() == Some(transaction)
        &&& self.spec_operation().is_none()
    }

    /// Holds when the error has the given class and is located at one operation.
    pub open spec fn is_at_operation(
        self,
        kind: HarnessErrorKind,
        transaction: TransactionIdV1,
        operation: OperationIdV1,
    ) -> bool {
        &&& self.spec_kind() == kind
        &&& self.spec_transaction() == Some(transaction)
        &&& self.spec_operation() == Some(operation)
    }

    /// Creates an unlocated error.
    pub fn new(kind: HarnessErrorKind) -> (error: Self)
        ensures
            error.is_unlocated(kind),
    {
        HarnessError { kind, transaction: None, operation: None }
    }

    /// Creates an unlocated limit error.
    pub fn limit(kind: HarnessLimitKind) -> (error: Self)
        ensures
            error.is_unlocated(HarnessErrorKind::LimitExceeded(kind)),
    {
        Self::new(HarnessErrorKind::LimitExceeded(kind))
    }

    /// Relocates the error at a transaction, clearing any operation location.
    pub fn at_transaction(self, transaction: TransactionIdV1) -> (error: Self)
        ensures
            error.is_at_transaction(self.spec_kind(), transaction),
    {
        HarnessError { kind: self.kind, transaction: Some(transaction), operation: None }
    }

    /// Relocates the error at one operation of a transaction.
    pub fn at_operation(self, transaction: TransactionIdV1, operation: OperationIdV1) -> (error: Self)
        ensures
            error.is_at_operation(self.spec_kind(), transaction, operation),
    {
        HarnessError { kind: self.kind, transaction: Some(transaction), operation: Some(operation) }
    }

    /// Returns the closed failure class.
    pub fn kind(&self) -> (kind: HarnessErrorKind)
        ensures
            kind == self.spec_kind(),
    {
        self.kind
    }

    /// Returns the transaction location, if any.
    pub fn transaction(&self) -> (transaction: Option<TransactionIdV1>)
        ensures
            transaction == self.spec_transaction(),
    {
        self.transaction
    }

    /// Returns the operation location, if any.
    pub fn operation(&self) -> (operation: Option<OperationIdV1>)
        ensures
            operation == self.spec_operation(),
    {
        self.operation
    }
}

} // verus!
