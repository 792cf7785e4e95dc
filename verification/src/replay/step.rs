//! The decisions of one replay, step by step: what the runtime side reports
//! of the initial snapshot and of each transaction, as plain values, and what
//! the replay concludes from each report.

use vstd::prelude::*;

use crate::case::{OperationIdV1, TransactionIdV1};
use crate::error::{HarnessError, HarnessErrorKind};
use crate::fingerprint::FailureFingerprintV1;
use crate::identity::{
    IdentityIndexV1, IdentityLedgerV1, IdentitySummaryV1, IncarnationTokensV1, LedgerOutcome,
    LedgerState, LiveHandlesV1, alias_fingerprint, empty_ledger_state, initial_outcome,
    balanced, lemma_clean_initial_snapshot, lemma_empty_ledger_balanced,
    lemma_initial_keeps_balance, lemma_transition_keeps_balance, lemma_transition_records_one_snapshot,
    transition_outcome,
};
use crate::replay::commit::{
    CommitShapeV1, RejectionShapeV1, coherent_noop, coherent_publication, coherent_rejection,
    verify_commit_shape, verify_rejection_shape,
};
use crate::replay::rejection::{RuntimeTransactionErrorKindV1, candidate_rejection_v1};
use crate::replay::{failure_error, fingerprint_error_kind, observation_error_kind};

verus! {

/// An error as its class, its transaction and its operation.
pub type ErrorView = (HarnessErrorKind, Option<TransactionIdV1>, Option<OperationIdV1>);

/// The class and location of an error.
pub open spec fn error_view(error: HarnessError) -> ErrorView {
    (error.spec_kind(), error.spec_transaction(), error.spec_operation())
}

/// What the runtime side saw after a commit.
pub enum AfterCommitV1 {
    /// Building the expected state or observing the committed one failed.
    Failed(HarnessError),
    /// The committed state differs from the expected state.
    Mismatch(FailureFingerprintV1),
    /// The committed state is the expected state: its identities, and the
    /// incarnation tokens and live handles the identity ledger checks.
    Complete {
        before_tokens: IncarnationTokensV1,
        after: IdentityIndexV1,
        after_tokens: IncarnationTokensV1,
        live: LiveHandlesV1,
    },
}

/// What became of a transaction's candidate.
pub enum CandidateV1 {
    /// Resolving or applying an operation failed; the error carries its own
    /// location.
    Failed(HarnessError),
    /// The runtime refused the candidate while staging or committing it: the
    /// refusal, the position the runtime named among the staged operations,
    /// the operations staged, and the committed state before and after.
    Rejected {
        kind: RuntimeTransactionErrorKindV1,
        operation_index: Option<usize>,
        staged: Vec<OperationIdV1>,
        shape: RejectionShapeV1,
    },
    /// The candidate committed.
    Committed { shape: CommitShapeV1, after: AfterCommitV1 },
}

/// What the runtime side reports of one transaction.
pub struct StepReportV1 {
    /// The complete observation of the committed state before the
    /// transaction, or the error that stopped building or observing it.
    pub before: Result<IdentityIndexV1, HarnessError>,
    /// What became of the candidate.
    pub candidate: CandidateV1,
}

/// What the runtime side reports of the initial state: its generation, and
/// its complete observation or the error that stopped it.
pub type InitialReportV1 = (u64, Result<IdentityIndexV1, HarnessError>);

/// Mathematical form of a replay in progress.
pub struct ReplayStateView {
    pub verified: u32,
    pub publications: u32,
    pub noops: u32,
    pub generation: u64,
    pub ledger: LedgerState,
}

/// A replay in progress: its counts, the committed generation and the
/// identity ledger.
pub struct ReplayStateV1 {
    verified: u32,
    publications: u32,
    noops: u32,
    generation: u64,
    ledger: IdentityLedgerV1,
}

impl View for ReplayStateV1 {
    type V = ReplayStateView;

    closed spec fn view(&self) -> ReplayStateView {
        ReplayStateView {
            verified: self.verified,
            publications: self.publications,
            noops: self.noops,
            generation: self.generation,
            ledger: self.ledger@,
        }
    }
}

impl ReplayStateV1 {
    /// Transactions verified so far.
    pub fn verified_step_count(&self) -> (count: u32)
        ensures
            count == self@.verified,
    {
        self.verified
    }

    /// Publications so far.
    pub fn publication_count(&self) -> (count: u32)
        ensures
            count == self@.publications,
    {
        self.publications
    }

    /// No-op commits so far.
    pub fn noop_count(&self) -> (count: u32)
        ensures
            count == self@.noops,
    {
        self.noops
    }

    /// The committed generation.
    pub fn generation(&self) -> (generation: u64)
        ensures
            generation == self@.generation,
    {
        self.generation
    }

    /// The identity checks so far.
    pub fn identity(&self) -> (summary: IdentitySummaryV1)
        ensures
            summary == self@.ledger.summary,
    {
        self.ledger.summary()
    }
}

/// What the initial report leads to: the replay's first state, or its error.
pub open spec fn initial_result(report: InitialReportV1) -> Result<ReplayStateView, ErrorView> {
    match report.1 {
        Err(error) => Err(error_view(error)),
        Ok(identities) => match initial_outcome(empty_ledger_state(), identities@) {
            LedgerOutcome::Continue(ledger) => Ok(
                ReplayStateView { verified: 0, publications: 0, noops: 0, generation: report.0, ledger },
            ),
            LedgerOutcome::Mismatch(fingerprint) => Err(
                (fingerprint_error_kind(fingerprint.kind), None, None),
            ),
            LedgerOutcome::Failed(kind) => Err((kind, None, None)),
        },
    }
}

/// A commit shape that is a coherent no-op or a coherent publication, as its
/// receipt says.
pub open spec fn coherent_commit(shape: CommitShapeV1) -> bool {
    if shape.receipt_empty {
        coherent_noop(shape)
    } else {
        coherent_publication(shape)
    }
}

/// What a committed candidate whose observation is complete leads to.
pub open spec fn committed_result(
    state: ReplayStateView,
    transaction: TransactionIdV1,
    shape: CommitShapeV1,
    outcome: LedgerOutcome,
) -> Result<ReplayStateView, ErrorView> {
    match outcome {
        LedgerOutcome::Continue(ledger) => {
            let bumped = if shape.receipt_empty {
                state.noops
            } else {
                state.publications
            };
            if bumped == u32::MAX || state.verified == u32::MAX {
                Err((HarnessErrorKind::ArithmeticExhausted, None, None))
            } else {
                Ok(
                    ReplayStateView {
                        verified: (state.verified + 1) as u32,
                        publications: if shape.receipt_empty {
                            state.publications
                        } else {
                            (state.publications + 1) as u32
                        },
                        noops: if shape.receipt_empty {
                            (state.noops + 1) as u32
                        } else {
                            state.noops
                        },
                        generation: shape.after_generation,
                        ledger,
                    },
                )
            }
        },
        LedgerOutcome::Mismatch(fingerprint) => Err(
            (fingerprint_error_kind(fingerprint.kind), Some(transaction), None),
        ),
        LedgerOutcome::Failed(kind) => Err((kind, Some(transaction), None)),
    }
}

/// What one transaction's report leads to: the next state, or the replay's
/// error. In order: the observation before the transaction and its aliases;
/// a candidate error; a refusal, checked against the staged operations and
/// the unchanged committed state; a commit, checked for a coherent shape on
/// the committed generation, then its observation, then the identity
/// transition.
pub open spec fn step_result(
    state: ReplayStateView,
    transaction: TransactionIdV1,
    report: StepReportV1,
) -> Result<ReplayStateView, ErrorView> {
    match report.before {
        Err(error) => Err((error.spec_kind(), Some(transaction), None)),
        Ok(before) => match alias_fingerprint(before@) {
            Some(fingerprint) => Err(
                (fingerprint_error_kind(fingerprint.kind), Some(transaction), None),
            ),
            None => match report.candidate {
                CandidateV1::Failed(error) => Err(error_view(error)),
                CandidateV1::Rejected { kind, operation_index, staged, shape } => {
                    if operation_index matches Some(index) && index >= staged@.len() {
                        Err((HarnessErrorKind::TraceMismatch, None, None))
                    } else if !coherent_rejection(shape) {
                        Err((HarnessErrorKind::TraceMismatch, Some(transaction), None))
                    } else {
                        Err(
                            (
                                HarnessErrorKind::UnexpectedCandidateRejection,
                                Some(transaction),
                                match operation_index {
                                    Some(index) => Some(staged@[index as int]),
                                    None => None,
                                },
                            ),
                        )
                    }
                },
                CandidateV1::Committed { shape, after } => {
                    if !coherent_commit(shape) || shape.before_generation != state.generation {
                        Err((HarnessErrorKind::TraceMismatch, Some(transaction), None))
                    } else {
                        match after {
                            AfterCommitV1::Failed(error) => Err(
                                (error.spec_kind(), Some(transaction), None),
                            ),
                            AfterCommitV1::Mismatch(fingerprint) => Err(
                                (fingerprint_error_kind(fingerprint@.kind), Some(transaction), None),
                            ),
                            AfterCommitV1::Complete { before_tokens, after, after_tokens, live } => {
                                committed_result(
                                    state,
                                    transaction,
                                    shape,
                                    transition_outcome(
                                        state.ledger,
                                        before@,
                                        before_tokens@,
                                        after@,
                                        after_tokens@,
                                        live@,
                                    ),
                                )
                            },
                        }
                    }
                },
            },
        },
    }
}

/// A replay state that agrees with itself: every verified transaction was a
/// publication or a no-op, every publication advanced the generation by one
/// from `initial_generation`, and every verified transaction, and the
/// initial state, was one alias-free snapshot.
pub open spec fn consistent(state: ReplayStateView, initial_generation: u64) -> bool {
    &&& state.publications + state.noops == state.verified
    &&& state.generation == initial_generation + state.publications
    &&& state.ledger.summary.spec_alias_free_snapshots() == state.verified + 1
    &&& balanced(state.ledger)
}

/// The initial state agrees with itself.
pub proof fn lemma_initial_consistent(report: InitialReportV1)
    ensures
        initial_result(report) matches Ok(state) ==> consistent(state, report.0),
{
    if let Ok(identities) = report.1 {
        if alias_fingerprint(identities@) is None {
            lemma_clean_initial_snapshot(identities@);
        }
        lemma_empty_ledger_balanced();
        lemma_initial_keeps_balance(empty_ledger_state(), identities@);
    }
}

/// Each step keeps a state in agreement with itself.
pub proof fn lemma_step_consistent(
    state: ReplayStateView,
    transaction: TransactionIdV1,
    report: StepReportV1,
    initial_generation: u64,
)
    requires
        consistent(state, initial_generation),
    ensures
        step_result(state, transaction, report) matches Ok(next) ==> consistent(
            next,
            initial_generation,
        ) && next.verified == state.verified + 1,
{
    if let CandidateV1::Committed { shape, after } = report.candidate {
        if let AfterCommitV1::Complete { before_tokens, after, after_tokens, live } = after {
            lemma_transition_records_one_snapshot(
                state.ledger,
                report.before->Ok_0@,
                before_tokens@,
                after@,
                after_tokens@,
                live@,
            );
            lemma_transition_keeps_balance(
                state.ledger,
                report.before->Ok_0@,
                before_tokens@,
                after@,
                after_tokens@,
                live@,
            );
        }
    }
}

/// Starts a replay from the runtime side's report of the initial state: a
/// failed observation is returned as it is; an aliased snapshot is reported
/// as its fingerprint's family; otherwise the ledger records one alias-free
/// snapshot.
pub fn replay_initial_v1(report: InitialReportV1) -> (result: Result<ReplayStateV1, HarnessError>)
    ensures
        match initial_result(report) {
            Ok(state) => result matches Ok(started) && started@ == state,
            Err(view) => result matches Err(error) && error_view(error) == view,
        },
{
    let (generation, observed) = report;
    let identities = match observed {
        Ok(identities) => identities,
        Err(error) => return Err(error),
    };
    let mut ledger = IdentityLedgerV1::new();
    proof {
        assert(ledger@ == empty_ledger_state());
    }
    match ledger.verify_initial_aliases(&identities) {
        Ok(None) => {},
        Ok(Some(fingerprint)) => {
            return Err(HarnessError::new(observation_error_kind(fingerprint.kind())));
        },
        Err(error) => return Err(error),
    }
    Ok(ReplayStateV1 { verified: 0, publications: 0, noops: 0, generation, ledger })
}

/// Decides one transaction from the runtime side's report of it: the state
/// moves on when the transaction matched, and the replay's error is returned
/// otherwise.
pub fn replay_step_v1(
    state: &mut ReplayStateV1,
    transaction: TransactionIdV1,
    report: StepReportV1,
) -> (result: Result<(), HarnessError>)
    ensures
        match step_result(old(state)@, transaction, report) {
            Ok(next) => result is Ok && final(state)@ == next,
            Err(view) => result matches Err(error) && error_view(error) == view,
        },
{
    let ghost report_view = report;
    let StepReportV1 { before, candidate } = report;
    let before = match before {
        Ok(before) => before,
        Err(error) => return Err(error.at_transaction(transaction)),
    };
    match IdentityLedgerV1::first_alias(&before) {
        Ok(None) => {},
        Ok(Some(fingerprint)) => {
            return Err(
                HarnessError::new(observation_error_kind(fingerprint.kind())).at_transaction(
                    transaction,
                ),
            );
        },
        Err(error) => return Err(error),
    }
    match candidate {
        CandidateV1::Failed(error) => Err(error),
        CandidateV1::Rejected { kind, operation_index, staged, shape } => {
            let failure = match candidate_rejection_v1(
                kind,
                operation_index,
                transaction,
                staged.as_slice(),
            ) {
                Ok((_, failure)) => failure,
                Err(error) => return Err(error),
            };
            match verify_rejection_shape(shape) {
                Ok(()) => {},
                Err(error) => return Err(error.at_transaction(transaction)),
            }
            Err(failure_error(&failure))
        },
        CandidateV1::Committed { shape, after } => {
            match verify_commit_shape(shape) {
                Ok(_) => {},
                Err(error) => return Err(error.at_transaction(transaction)),
            }
            if shape.before_generation != state.generation {
                return Err(
                    HarnessError::new(HarnessErrorKind::TraceMismatch).at_transaction(transaction),
                );
            }
            match after {
                AfterCommitV1::Failed(error) => Err(error.at_transaction(transaction)),
                AfterCommitV1::Mismatch(fingerprint) => Err(
                    HarnessError::new(observation_error_kind(fingerprint.kind())).at_transaction(
                        transaction,
                    ),
                ),
                AfterCommitV1::Complete { before_tokens, after, after_tokens, live } => {
                    let bumped = if shape.receipt_empty {
                        state.noops
                    } else {
                        state.publications
                    };
                    let checked = state.ledger.verify_transition(
                        &before,
                        &before_tokens,
                        &after,
                        &after_tokens,
                        &live,
                    );
                    match checked {
                        Ok(None) => {},
                        Ok(Some(fingerprint)) => {
                            return Err(
                                HarnessError::new(
                                    observation_error_kind(fingerprint.kind()),
                                ).at_transaction(transaction),
                            );
                        },
                        Err(error) => return Err(error.at_transaction(transaction)),
                    }
                    if bumped == u32::MAX || state.verified == u32::MAX {
                        return Err(HarnessError::new(HarnessErrorKind::ArithmeticExhausted));
                    }
                    if shape.receipt_empty {
                        state.noops = state.noops + 1;
                    } else {
                        state.publications = state.publications + 1;
                    }
                    state.verified = state.verified + 1;
                    state.generation = shape.after_generation;
                    Ok(())
                },
            }
        },
    }
}

} // verus!
