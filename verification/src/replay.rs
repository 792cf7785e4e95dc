//! Exact replay of generated cases: case validation, commit and rejection
//! shapes, the scalar replay report, and the replay over the runtime side's reports.

use vstd::prelude::*;

use crate::case::{
    CaseView, GeneratedCaseV1, REGISTERED_FIXTURE_REVISION_V1, TransactionIdV1, TransactionView,
    total_operations, transactions_view,
};
use crate::error::{HarnessError, HarnessErrorKind, HarnessLimitKind};
use crate::failure::ReplayFailureV1;
use crate::fingerprint::FailureFingerprintKindV1;
use crate::fixture::HarnessLimitsV1;
use crate::identity::IdentitySummaryV1;
use crate::trace::TraceOutcomeV1;

pub mod commit;
pub mod fault;
pub mod rejection;
pub mod step;

use step::{
    ErrorView, InitialReportV1, ReplayStateView, StepReportV1, consistent, error_view,
    initial_result, lemma_initial_consistent, lemma_step_consistent, replay_initial_v1,
    replay_step_v1, step_result,
};

verus! {

/// Scalar, physical-identity-free result of one complete replay.
#[derive(Clone, Copy, Debug, PartialEq, Eq, Structural)]
pub struct ReplayReportV1 {
    transaction_count: u32,
    operation_count: usize,
    verified_step_count: u32,
    publication_count: u32,
    noop_count: u32,
    final_generation: u64,
    identity: IdentitySummaryV1,
}

/// Mathematical form of a replay report.
pub struct ReplayReportView {
    pub transaction_count: u32,
    pub operation_count: usize,
    pub verified_step_count: u32,
    pub publication_count: u32,
    pub noop_count: u32,
    pub final_generation: u64,
    pub identity: IdentitySummaryV1,
}

impl View for ReplayReportV1 {
    type V = ReplayReportView;

    closed spec fn view(&self) -> ReplayReportView {
        ReplayReportView {
            transaction_count: self.transaction_count,
            operation_count: self.operation_count,
            verified_step_count: self.verified_step_count,
            publication_count: self.publication_count,
            noop_count: self.noop_count,
            final_generation: self.final_generation,
            identity: self.identity,
        }
    }
}

impl ReplayReportV1 {
    /// Assembles a report.
    pub fn new(
        transaction_count: u32,
        operation_count: usize,
        verified_step_count: u32,
        publication_count: u32,
        noop_count: u32,
        final_generation: u64,
        identity: IdentitySummaryV1,
    ) -> (report: Self)
        ensures
            report@ == (ReplayReportView {
                transaction_count,
                operation_count,
                verified_step_count,
                publication_count,
                noop_count,
                final_generation,
                identity,
            }),
    {
        ReplayReportV1 {
            transaction_count,
            operation_count,
            verified_step_count,
            publication_count,
            noop_count,
            final_generation,
            identity,
        }
    }

    /// Returns the number of transactions supplied by the exact case.
    pub fn transaction_count(self) -> (count: u32)
        ensures
            count == self@.transaction_count,
    {
        self.transaction_count
    }

    /// Returns the number of operations supplied by the exact case.
    pub fn operation_count(self) -> (count: usize)
        ensures
            count == self@.operation_count,
    {
        self.operation_count
    }

    /// Returns transactions fully checked before and after candidate commit.
    pub fn verified_step_count(self) -> (count: u32)
        ensures
            count == self@.verified_step_count,
    {
        self.verified_step_count
    }

    /// Returns nonempty logical publications observed during replay.
    pub fn publication_count(self) -> (count: u32)
        ensures
            count == self@.publication_count,
    {
        self.publication_count
    }

    /// Returns true no-op candidate commits observed during replay.
    pub fn noop_count(self) -> (count: u32)
        ensures
            count == self@.noop_count,
    {
        self.noop_count
    }

    /// Returns the final logical runtime generation.
    pub fn final_generation(self) -> (generation: u64)
        ensures
            generation == self@.final_generation,
    {
        self.final_generation
    }

    /// Returns aggregated transient identity checks.
    pub fn identity(self) -> (identity: IdentitySummaryV1)
        ensures
            identity == self@.identity,
    {
        self.identity
    }
}

/// A located harness failure: its kind, and the transaction it concerns, if any.
pub type LocatedFailure = (HarnessErrorKind, Option<TransactionIdV1>);

/// Whether an error is exactly the located failure.
pub open spec fn error_is(error: HarnessError, failure: LocatedFailure) -> bool {
    match failure.1 {
        None => error.is_unlocated(failure.0),
        Some(transaction) => error.is_at_transaction(failure.0, transaction),
    }
}

/// The first failure of the per-transaction scan from `index` on: an
/// overfull transaction, or an operation total that no longer fits in `usize`.
pub open spec fn operations_scan_failure(
    transactions: Seq<TransactionView>,
    per_transaction: usize,
    index: int,
) -> Option<LocatedFailure>
    decreases transactions.len() - index,
{
    if index < 0 || index >= transactions.len() {
        None
    } else if transactions[index].1.len() > per_transaction {
        Some(
            (
                HarnessErrorKind::LimitExceeded(HarnessLimitKind::OperationsPerTransaction),
                Some(transactions[index].0),
            ),
        )
    } else if total_operations(transactions.take(index + 1)) > usize::MAX {
        Some((HarnessErrorKind::ArithmeticExhausted, None))
    } else {
        operations_scan_failure(transactions, per_transaction, index + 1)
    }
}

/// The first empty transaction at or after `index`, if any.
pub open spec fn first_empty_transaction(transactions: Seq<TransactionView>, index: int) -> Option<
    TransactionIdV1,
>
    decreases transactions.len() - index,
{
    if index < 0 || index >= transactions.len() {
        None
    } else if transactions[index].1.len() == 0 {
        Some(transactions[index].0)
    } else {
        first_empty_transaction(transactions, index + 1)
    }
}

/// Why a case cannot be replayed under the harness limits, if it cannot: an
/// unregistered fixture, too many transactions, an overfull transaction or an
/// unrepresentable total in transaction order, too many operations, then the
/// first empty transaction.
pub open spec fn case_validation_failure(
    limits: HarnessLimitsV1,
    case: crate::case::CaseView,
) -> Option<LocatedFailure> {
    let transactions = case.transactions;
    if case.fixture_revision != REGISTERED_FIXTURE_REVISION_V1 {
        Some((HarnessErrorKind::UnsupportedVersion, None))
    } else if transactions.len() > limits.transactions {
        Some((HarnessErrorKind::LimitExceeded(HarnessLimitKind::Transactions), None))
    } else if operations_scan_failure(transactions, limits.operations_per_transaction, 0) is Some {
        operations_scan_failure(transactions, limits.operations_per_transaction, 0)
    } else if total_operations(transactions) > limits.operations {
        Some((HarnessErrorKind::LimitExceeded(HarnessLimitKind::Operations), None))
    } else if first_empty_transaction(transactions, 0) is Some {
        Some((HarnessErrorKind::InvalidOperation, first_empty_transaction(transactions, 0)))
    } else if transactions.len() > u32::MAX {
        Some((HarnessErrorKind::ArithmeticExhausted, None))
    } else {
        None
    }
}

proof fn lemma_total_step(transactions: Seq<TransactionView>, index: int)
    requires
        0 <= index < transactions.len(),
    ensures
        total_operations(transactions.take(index + 1)) == total_operations(transactions.take(index))
            + transactions[index].1.len(),
{
    assert(transactions.take(index + 1).drop_last() =~= transactions.take(index));
}

/// Checks a case against the registered fixture and the harness limits, and
/// returns its transaction and operation counts.
pub fn validate_case(limits: HarnessLimitsV1, case: &GeneratedCaseV1) -> (result: Result<
    (u32, usize),
    HarnessError,
>)
    ensures
        match result {
            Ok((transaction_count, operation_count)) => {
                &&& case_validation_failure(limits, case@) is None
                &&& transaction_count == case@.transactions.len()
                &&& operation_count == total_operations(case@.transactions)
            },
            Err(error) => case_validation_failure(limits, case@) is Some && error_is(
                error,
                case_validation_failure(limits, case@).unwrap(),
            ),
        },
{
    if case.fixture_revision() != REGISTERED_FIXTURE_REVISION_V1 {
        return Err(HarnessError::new(HarnessErrorKind::UnsupportedVersion));
    }
    let transactions = case.transactions();
    let ghost views = case@.transactions;
    if transactions.len() > limits.transactions {
        return Err(HarnessError::limit(HarnessLimitKind::Transactions));
    }
    let mut operation_count: usize = 0;
    let mut index: usize = 0;
    while index < transactions.len()
        invariant
            index <= transactions@.len(),
            views == case@.transactions,
            views.len() == transactions@.len(),
            forall|i: int| 0 <= i < transactions@.len() ==> #[trigger] views[i] == transactions@[i]@,
            operation_count == total_operations(views.take(index as int)),
            case@.fixture_revision == REGISTERED_FIXTURE_REVISION_V1,
            views.len() <= limits.transactions,
            operations_scan_failure(views, limits.operations_per_transaction, 0)
                == operations_scan_failure(views, limits.operations_per_transaction, index as int),
        decreases transactions@.len() - index,
    {
        let transaction = &transactions[index];
        let count = transaction.operations().len();
        proof {
            assert(views[index as int] == transaction@);
            lemma_total_step(views, index as int);
        }
        if count > limits.operations_per_transaction {
            return Err(
                HarnessError::limit(HarnessLimitKind::OperationsPerTransaction).at_transaction(
                    transaction.id(),
                ),
            );
        }
        operation_count = match operation_count.checked_add(count) {
            Some(next) => next,
            None => return Err(HarnessError::new(HarnessErrorKind::ArithmeticExhausted)),
        };
        index = index + 1;
    }
    proof {
        assert(views.take(index as int) =~= views);
    }
    if operation_count > limits.operations {
        return Err(HarnessError::limit(HarnessLimitKind::Operations));
    }
    let mut index: usize = 0;
    while index < transactions.len()
        invariant
            index <= transactions@.len(),
            views == case@.transactions,
            views.len() == transactions@.len(),
            forall|i: int| 0 <= i < transactions@.len() ==> #[trigger] views[i] == transactions@[i]@,
            first_empty_transaction(views, 0) == first_empty_transaction(views, index as int),
            case@.fixture_revision == REGISTERED_FIXTURE_REVISION_V1,
            views.len() <= limits.transactions,
            operations_scan_failure(views, limits.operations_per_transaction, 0) is None,
            total_operations(views) <= limits.operations,
        decreases transactions@.len() - index,
    {
        let transaction = &transactions[index];
        proof {
            assert(views[index as int] == transaction@);
        }
        if transaction.operations().len() == 0 {
            return Err(
                HarnessError::new(HarnessErrorKind::InvalidOperation).at_transaction(
                    transaction.id(),
                ),
            );
        }
        index = index + 1;
    }
    if transactions.len() > u32::MAX as usize {
        return Err(HarnessError::new(HarnessErrorKind::ArithmeticExhausted));
    }
    Ok((transactions.len() as u32, operation_count))
}

/// The harness failure kind that reports a fingerprint family.
pub open spec fn fingerprint_error_kind(kind: FailureFingerprintKindV1) -> HarnessErrorKind {
    match kind {
        FailureFingerprintKindV1::CandidateRejected => HarnessErrorKind::UnexpectedCandidateRejection,
        FailureFingerprintKindV1::StateMismatch => HarnessErrorKind::StateMismatch,
        FailureFingerprintKindV1::IdentityMismatch => HarnessErrorKind::IdentityMismatch,
    }
}

/// Maps a fingerprint family to the harness failure that reports it.
pub fn observation_error_kind(kind: FailureFingerprintKindV1) -> (error: HarnessErrorKind)
    ensures
        error == fingerprint_error_kind(kind),
{
    match kind {
        FailureFingerprintKindV1::CandidateRejected => HarnessErrorKind::UnexpectedCandidateRejection,
        FailureFingerprintKindV1::StateMismatch => HarnessErrorKind::StateMismatch,
        FailureFingerprintKindV1::IdentityMismatch => HarnessErrorKind::IdentityMismatch,
    }
}

/// The harness error that reports a replay failure: its family, located at
/// the failing operation when there is one, else at its transaction.
pub fn failure_error(failure: &ReplayFailureV1) -> (error: HarnessError)
    ensures
        match failure@.operation {
            Some(operation) => error.is_at_operation(
                fingerprint_error_kind(failure@.fingerprint.kind),
                failure@.transaction,
                operation,
            ),
            None => error.is_at_transaction(
                fingerprint_error_kind(failure@.fingerprint.kind),
                failure@.transaction,
            ),
        },
{
    let kind = observation_error_kind(failure.fingerprint().kind());
    let error = HarnessError::new(kind);
    match failure.operation() {
        Some(operation) => error.at_operation(failure.transaction(), operation),
        None => error.at_transaction(failure.transaction()),
    }
}

/// Counts one transaction outcome: a publication or a no-op; a rejection
/// counts as neither.
pub fn count_outcome(outcome: TraceOutcomeV1, publications: &mut u32, noops: &mut u32) -> (result:
    Result<(), HarnessError>)
    ensures
        match outcome {
            TraceOutcomeV1::Commit => match result {
                Ok(()) => *final(publications) == *old(publications) + 1 && *final(noops)
                    == *old(noops),
                Err(error) => *old(publications) == u32::MAX && error.is_unlocated(
                    HarnessErrorKind::ArithmeticExhausted,
                ),
            },
            TraceOutcomeV1::Noop => match result {
                Ok(()) => *final(noops) == *old(noops) + 1 && *final(publications)
                    == *old(publications),
                Err(error) => *old(noops) == u32::MAX && error.is_unlocated(
                    HarnessErrorKind::ArithmeticExhausted,
                ),
            },
            TraceOutcomeV1::Reject(_) => result is Ok && *final(publications) == *old(publications)
                && *final(noops) == *old(noops),
        },
{
    match outcome {
        TraceOutcomeV1::Commit => increment(publications),
        TraceOutcomeV1::Noop => increment(noops),
        TraceOutcomeV1::Reject(_) => Ok(()),
    }
}

/// Adds one to a counter, or reports exhausted arithmetic and leaves it.
pub fn increment(value: &mut u32) -> (result: Result<(), HarnessError>)
    ensures
        match result {
            Ok(()) => *final(value) == *old(value) + 1,
            Err(error) => *old(value) == u32::MAX && *final(value) == *old(value)
                && error.is_unlocated(HarnessErrorKind::ArithmeticExhausted),
        },
{
    match value.checked_add(1) {
        Some(next) => {
            *value = next;
            Ok(())
        },
        None => Err(HarnessError::new(HarnessErrorKind::ArithmeticExhausted)),
    }
}

/// The transaction identifiers of a case, in order.
pub open spec fn transaction_ids(case: CaseView) -> Seq<TransactionIdV1> {
    case.transactions.map_values(|transaction: TransactionView| transaction.0)
}

/// The replay over the first `count` transactions from `start`, under the
/// runtime side's reports: the state it reaches, or the first error, which
/// ends it; `None` where a report is not one that `step` gives for its
/// position.
pub open spec fn run_prefix<S: Fn(usize) -> StepReportV1>(
    step: S,
    start: ReplayStateView,
    ids: Seq<TransactionIdV1>,
    reports: Seq<StepReportV1>,
    count: nat,
) -> Option<Result<ReplayStateView, ErrorView>>
    decreases count,
{
    if count == 0 {
        Some(Ok(start))
    } else {
        match run_prefix(step, start, ids, reports, (count - 1) as nat) {
            Some(Ok(state)) => {
                let index = count - 1;
                if step.ensures((index as usize,), reports[index]) {
                    Some(step_result(state, ids[index], reports[index]))
                } else {
                    None
                }
            },
            other => other,
        }
    }
}

/// The whole replay of a case under the runtime side's reports of its
/// initial state and of its transactions.
pub open spec fn replay_result<S: Fn(usize) -> StepReportV1>(
    step: S,
    initial: InitialReportV1,
    ids: Seq<TransactionIdV1>,
    reports: Seq<StepReportV1>,
) -> Option<Result<ReplayStateView, ErrorView>> {
    match initial_result(initial) {
        Ok(start) => run_prefix(step, start, ids, reports, ids.len()),
        Err(view) => Some(Err(view)),
    }
}

/// The replay over a prefix depends only on the reports of that prefix.
proof fn lemma_run_prefix_extend<S: Fn(usize) -> StepReportV1>(
    step: S,
    start: ReplayStateView,
    ids: Seq<TransactionIdV1>,
    reports: Seq<StepReportV1>,
    longer: Seq<StepReportV1>,
    count: nat,
)
    requires
        count <= reports.len() <= longer.len(),
        longer.take(reports.len() as int) == reports,
    ensures
        run_prefix(step, start, ids, longer, count) == run_prefix(step, start, ids, reports, count),
    decreases count,
{
    if count > 0 {
        lemma_run_prefix_extend(step, start, ids, reports, longer, (count - 1) as nat);
        assert(longer[count - 1] == reports[count - 1]);
    }
}

/// An error ends the replay: every longer prefix ends in the same error.
proof fn lemma_run_prefix_stops<S: Fn(usize) -> StepReportV1>(
    step: S,
    start: ReplayStateView,
    ids: Seq<TransactionIdV1>,
    reports: Seq<StepReportV1>,
    count: nat,
    later: nat,
)
    requires
        count <= later,
        run_prefix(step, start, ids, reports, count) matches Some(Err(_)),
    ensures
        run_prefix(step, start, ids, reports, later) == run_prefix(step, start, ids, reports, count),
    decreases later,
{
    if later > count {
        lemma_run_prefix_stops(step, start, ids, reports, count, (later - 1) as nat);
    }
}

/// The replay's result is what the reports lead to: on success a report of
/// the final state, whose generation is `initial_generation` plus one per
/// publication; otherwise the error they lead to.
pub open spec fn reported_by(
    outcome: Option<Result<ReplayStateView, ErrorView>>,
    result: Result<ReplayReportV1, HarnessError>,
    initial_generation: u64,
) -> bool {
    match outcome {
        Some(Ok(state)) => match result {
            Ok(report) => {
                &&& report@.verified_step_count == state.verified
                &&& report@.publication_count == state.publications
                &&& report@.noop_count == state.noops
                &&& report@.final_generation == state.generation
                &&& report@.identity == state.ledger.summary
                &&& report@.final_generation == initial_generation + report@.publication_count
            },
            Err(_) => false,
        },
        Some(Err(view)) => match result {
            Ok(_) => false,
            Err(error) => error_view(error) == view,
        },
        None => false,
    }
}

/// Replays one exact case: the case is validated first and the runtime side
/// is asked for nothing when it fails; then the initial state is checked, and
/// each transaction in order, from the runtime side's reports, until the
/// first error, which ends the replay. A report counts every transaction as
/// verified, each one a publication or a no-op; the generation advances by
/// one per publication, and the ledger counts one alias-free snapshot for the
/// initial state and one per transaction.
pub fn replay_case_v1<
    I: FnOnce() -> InitialReportV1,
    S: Fn(usize) -> StepReportV1,
>(limits: HarnessLimitsV1, case: &GeneratedCaseV1, initial: I, step: S) -> (result: Result<
    ReplayReportV1,
    HarnessError,
>)
    requires
        initial.requires(()),
        forall|index: usize| #[trigger] step.requires((index,)),
    ensures
        match case_validation_failure(limits, case@) {
            Some(failure) => result is Err && error_is(result->Err_0, failure),
            None => exists|first: InitialReportV1, reports: Seq<StepReportV1>|
                initial.ensures((), first) && reported_by(
                    #[trigger] replay_result(step, first, transaction_ids(case@), reports),
                    result,
                    first.0,
                ),
        },
        result matches Ok(report) ==> {
            &&& case_validation_failure(limits, case@) is None
            &&& report@.transaction_count == case@.transactions.len()
            &&& report@.operation_count == total_operations(case@.transactions)
            &&& report@.verified_step_count == report@.transaction_count
            &&& report@.publication_count + report@.noop_count == report@.verified_step_count
            &&& report@.identity.spec_alias_free_snapshots() == report@.transaction_count + 1
            &&& report@.identity.spec_fresh() <= report@.identity.spec_retired()
        },
{
    let (transaction_count, operation_count) = match validate_case(limits, case) {
        Ok(counts) => counts,
        Err(error) => return Err(error),
    };
    let ghost ids = transaction_ids(case@);
    let first = initial();
    let ghost first_view = first;
    proof {
        lemma_initial_consistent(first_view);
    }
    let mut state = match replay_initial_v1(first) {
        Ok(state) => state,
        Err(error) => {
            proof {
                assert(replay_result(step, first_view, ids, Seq::<StepReportV1>::empty()) == Some(
                    Err::<ReplayStateView, ErrorView>(error_view(error)),
                ));
            }
            return Err(error);
        },
    };
    let ghost start = state@;
    let ghost mut reports: Seq<StepReportV1> = Seq::empty();
    let transactions = case.transactions();
    let mut index: usize = 0;
    while index < transactions.len()
        invariant
            forall|i: usize| #[trigger] step.requires((i,)),
            index <= transactions@.len(),
            transactions@.len() == case@.transactions.len(),
            transactions_view(transactions@) == case@.transactions,
            ids == transaction_ids(case@),
            case_validation_failure(limits, case@) is None,
            operation_count == total_operations(case@.transactions),
            transaction_count == case@.transactions.len(),
            initial.ensures((), first_view),
            initial_result(first_view) == Ok::<ReplayStateView, ErrorView>(start),
            reports.len() == index,
            run_prefix(step, start, ids, reports, index as nat) == Some(
                Ok::<ReplayStateView, ErrorView>(state@),
            ),
            consistent(state@, first_view.0),
            state@.verified == index,
        decreases transactions@.len() - index,
    {
        let report = step(index);
        let ghost report_view = report;
        let transaction = transactions[index].id();
        let ghost before = state@;
        proof {
            assert(transactions_view(transactions@)[index as int] == transactions@[index as int]@);
            assert(ids[index as int] == transaction);
            lemma_step_consistent(before, transaction, report_view, first_view.0);
            assert(reports.push(report_view).take(reports.len() as int) =~= reports);
            lemma_run_prefix_extend(step, start, ids, reports, reports.push(report_view), index as nat);
        }
        let stepped = replay_step_v1(&mut state, transaction, report);
        proof {
            reports = reports.push(report_view);
            assert(run_prefix(step, start, ids, reports, (index + 1) as nat) == Some(
                step_result(before, transaction, report_view),
            ));
        }
        match stepped {
            Ok(()) => {},
            Err(error) => {
                proof {
                    lemma_run_prefix_stops(
                        step,
                        start,
                        ids,
                        reports,
                        (index + 1) as nat,
                        ids.len(),
                    );
                    assert(reported_by(
                        replay_result(step, first_view, ids, reports),
                        Err::<ReplayReportV1, HarnessError>(error),
                        first_view.0,
                    ));
                }
                return Err(error);
            },
        }
        index = index + 1;
    }
    let report = ReplayReportV1::new(
        transaction_count,
        operation_count,
        state.verified_step_count(),
        state.publication_count(),
        state.noop_count(),
        state.generation(),
        state.identity(),
    );
    proof {
        assert(ids.len() == index);
        assert(reported_by(
            replay_result(step, first_view, ids, reports),
            Ok::<ReplayReportV1, HarnessError>(report),
            first_view.0,
        ));
    }
    Ok(report)
}

} // verus!
