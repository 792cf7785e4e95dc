use std::cell::{Cell, RefCell};

use fenestra_ui_testkit::case::{
    GeneratedCaseV1, GeneratorConfigV1, OperationIdV1, OperationV1, PropertyId, PropertyValue,
    SeedV1, SemanticOperationV1, TransactionIdV1, TransactionV1,
};
use fenestra_ui_testkit::error::{HarnessError, HarnessErrorKind, HarnessLimitKind};
use fenestra_ui_testkit::failure::ReplayFailureV1;
use fenestra_ui_testkit::fingerprint::{CandidateRejectionV1, FailureFingerprintV1};
use fenestra_ui_testkit::fixture::HarnessLimitsV1;
use fenestra_ui_testkit::identity::{
    IdentityIndexV1, IdentitySummaryV1, IncarnationTokensV1, LiveHandlesV1, NodeId,
};
use fenestra_ui_testkit::replay::commit::{
    CommitShapeV1, InvalidationSet, RejectionShapeV1, observe_after_verified_commit_v1,
    verify_commit_shape, verify_rejection_shape,
};
use fenestra_ui_testkit::replay::rejection::RuntimeTransactionErrorKindV1;
use fenestra_ui_testkit::replay::step::{
    AfterCommitV1, CandidateV1, InitialReportV1, StepReportV1, replay_initial_v1, replay_step_v1,
};
use fenestra_ui_testkit::replay::{
    ReplayReportV1, count_outcome, failure_error, replay_case_v1, validate_case,
};
use fenestra_ui_testkit::semantic::NodePathV1;
use fenestra_ui_testkit::replay::fault::FaultAdapterV1;
use fenestra_ui_testkit::trace::{TraceFaultV1, TraceOutcomeV1};

fn limits() -> HarnessLimitsV1 {
    HarnessLimitsV1 {
        transactions: 8,
        operations_per_transaction: 2,
        operations: 10,
        live_memberships: 16,
        path_depth: 8,
        normalized_nodes: 64,
        normalized_fragments: 16,
        normalized_properties: 256,
        applicable_actions: 64,
        trace_bytes: 4096,
    }
}

fn set_property(id: u32) -> OperationV1 {
    OperationV1::new(
        OperationIdV1::new(id),
        SemanticOperationV1::SetProperty {
            node: NodePathV1::root(),
            property: PropertyId::new(0),
            value: PropertyValue::ScalarI32(1),
        },
    )
}

fn case(transactions: Vec<TransactionV1>) -> GeneratedCaseV1 {
    GeneratedCaseV1::new(1, GeneratorConfigV1::new(8, 2, 8), SeedV1::new(0), transactions)
}

#[test]
fn harness_limits_precede_empty_transaction_semantics() {
    let overfull = vec![set_property(0); limits().operations_per_transaction() + 1];
    let limit_transaction = TransactionIdV1::new(11);
    let malformed = case(vec![
        TransactionV1::new(TransactionIdV1::new(10), Vec::new()),
        TransactionV1::new(limit_transaction, overfull),
    ]);

    let error = replay_case_v1(limits(), &malformed, unreachable_initial, unreachable_step)
        .expect_err("limit should win");

    assert_eq!(
        error.kind(),
        HarnessErrorKind::LimitExceeded(HarnessLimitKind::OperationsPerTransaction)
    );
    assert_eq!(error.transaction(), Some(limit_transaction));
    assert_eq!(error.operation(), None);
}

#[test]
fn validation_reports_counts_and_case_level_failures() {
    let valid = case(vec![
        TransactionV1::new(TransactionIdV1::new(0), vec![set_property(0), set_property(1)]),
        TransactionV1::new(TransactionIdV1::new(1), vec![set_property(2)]),
    ]);
    assert_eq!(validate_case(limits(), &valid), Ok((2, 3)));

    let foreign = GeneratedCaseV1::new(2, GeneratorConfigV1::new(8, 2, 8), SeedV1::new(0), Vec::new());
    assert_eq!(
        validate_case(limits(), &foreign).unwrap_err().kind(),
        HarnessErrorKind::UnsupportedVersion
    );

    let mut tight = limits();
    tight.operations = 2;
    assert_eq!(
        validate_case(tight, &valid).unwrap_err().kind(),
        HarnessErrorKind::LimitExceeded(HarnessLimitKind::Operations)
    );
    tight.transactions = 1;
    assert_eq!(
        validate_case(tight, &valid).unwrap_err().kind(),
        HarnessErrorKind::LimitExceeded(HarnessLimitKind::Transactions)
    );

    let empty = case(vec![
        TransactionV1::new(TransactionIdV1::new(4), vec![set_property(0)]),
        TransactionV1::new(TransactionIdV1::new(5), Vec::new()),
    ]);
    let error = validate_case(limits(), &empty).unwrap_err();
    assert_eq!(error.kind(), HarnessErrorKind::InvalidOperation);
    assert_eq!(error.transaction(), Some(TransactionIdV1::new(5)));
}

#[test]
fn commit_shape_rejects_incoherent_publication_observations() {
    let none = InvalidationSet::none();
    let paint = InvalidationSet::from_bits(1);
    let no_op = CommitShapeV1::new(true, true, 4, 4, 4, 0, none);
    let publication = CommitShapeV1::new(false, false, 4, 5, 5, 1, paint);

    assert!(!verify_commit_shape(no_op).expect("coherent no-op should validate"));
    assert!(verify_commit_shape(publication).expect("coherent publication should validate"));

    let incoherent = [
        CommitShapeV1::new(true, false, 4, 4, 4, 0, none),
        CommitShapeV1::new(true, true, 4, 5, 5, 0, none),
        CommitShapeV1::new(true, true, 4, 4, 5, 0, none),
        CommitShapeV1::new(true, true, 4, 4, 4, 1, none),
        CommitShapeV1::new(true, true, 4, 4, 4, 0, paint),
        CommitShapeV1::new(false, true, 4, 5, 5, 1, paint),
        CommitShapeV1::new(false, false, 4, 4, 4, 1, paint),
        CommitShapeV1::new(false, false, 4, 5, 4, 1, paint),
        CommitShapeV1::new(false, false, 4, 5, 5, 0, paint),
        CommitShapeV1::new(false, false, 4, 5, 5, 1, none),
        CommitShapeV1::new(false, false, u64::MAX, 0, 0, 1, paint),
    ];

    for shape in incoherent {
        let error = verify_commit_shape(shape).expect_err("shape should be rejected");
        assert_eq!(error.kind(), HarnessErrorKind::TraceMismatch);
        assert_eq!(error.transaction(), None);
        assert_eq!(error.operation(), None);
    }
}

#[test]
fn invalid_commit_shape_precedes_lazy_post_commit_observation() {
    let calls = Cell::new(0);
    let invalid = CommitShapeV1::new(true, false, 4, 4, 4, 0, InvalidationSet::none());

    let error = observe_after_verified_commit_v1(invalid, || -> Result<(), HarnessError> {
        calls.set(calls.get() + 1);
        Err(HarnessError::new(HarnessErrorKind::StateMismatch))
    })
    .expect_err("invalid shape must win before observation");

    assert_eq!(error.kind(), HarnessErrorKind::TraceMismatch);
    assert_eq!(calls.get(), 0);
    assert_eq!(error.transaction(), None);
    assert_eq!(error.operation(), None);
}

#[test]
fn rejected_candidate_must_preserve_the_exact_committed_state() {
    verify_rejection_shape(RejectionShapeV1::new(true, 4, 4))
        .expect("an unchanged committed state is a coherent rejection");

    for shape in [
        RejectionShapeV1::new(false, 4, 4),
        RejectionShapeV1::new(true, 4, 5),
    ] {
        let error = verify_rejection_shape(shape)
            .expect_err("a rejected candidate must not publish any state");
        assert_eq!(error.kind(), HarnessErrorKind::TraceMismatch);
    }
}

#[test]
fn transaction_location_clears_an_older_operation_location() {
    let transaction = TransactionIdV1::new(8);
    let error = HarnessError::new(HarnessErrorKind::InvalidOperation)
        .at_operation(TransactionIdV1::new(7), OperationIdV1::new(3))
        .at_transaction(transaction);

    assert_eq!(error.transaction(), Some(transaction));
    assert_eq!(error.operation(), None);
}

#[test]
fn outcomes_count_publications_and_noops_only() {
    let mut publications = 0;
    let mut noops = u32::MAX;
    count_outcome(TraceOutcomeV1::Commit, &mut publications, &mut noops).unwrap();
    count_outcome(
        TraceOutcomeV1::Reject(CandidateRejectionV1::InvariantViolation),
        &mut publications,
        &mut noops,
    )
    .unwrap();
    assert_eq!((publications, noops), (1, u32::MAX));
    let error = count_outcome(TraceOutcomeV1::Noop, &mut publications, &mut noops).unwrap_err();
    assert_eq!(error.kind(), HarnessErrorKind::ArithmeticExhausted);
    assert_eq!(noops, u32::MAX);
}

#[test]
fn replay_failures_are_located_at_their_operation_or_transaction() {
    let fingerprint = FailureFingerprintV1::candidate_rejected(CandidateRejectionV1::InvariantViolation);
    let failure = ReplayFailureV1::new(TransactionIdV1::new(3), Some(OperationIdV1::new(9)), fingerprint);
    let error = failure_error(&failure);
    assert_eq!(error.kind(), HarnessErrorKind::UnexpectedCandidateRejection);
    assert_eq!(error.transaction(), Some(TransactionIdV1::new(3)));
    assert_eq!(error.operation(), Some(OperationIdV1::new(9)));
}

fn unreachable_initial() -> InitialReportV1 {
    panic!("an invalid case must not reach the runtime")
}

fn unreachable_step(_: usize) -> StepReportV1 {
    panic!("an invalid case must not reach the runtime")
}

fn root_index(node: u64) -> IdentityIndexV1 {
    let mut index = IdentityIndexV1::new();
    assert!(index.record_node(NodePathV1::root(), NodeId(node)));
    index
}

fn publication(before: u64) -> CommitShapeV1 {
    CommitShapeV1::new(false, false, before, before + 1, before + 1, 1, InvalidationSet::from_bits(1))
}

fn noop(generation: u64) -> CommitShapeV1 {
    CommitShapeV1::new(true, true, generation, generation, generation, 0, InvalidationSet::none())
}

fn clean_commit(shape: CommitShapeV1) -> StepReportV1 {
    StepReportV1 {
        before: Ok(root_index(1)),
        candidate: CandidateV1::Committed {
            shape,
            after: AfterCommitV1::Complete {
                before_tokens: IncarnationTokensV1::new(vec![(NodePathV1::root(), 0)]),
                after: root_index(1),
                after_tokens: IncarnationTokensV1::new(vec![(NodePathV1::root(), 0)]),
                live: LiveHandlesV1::new(vec![NodeId(1)], Vec::new()),
            },
        },
    }
}

fn rejected(index: usize) -> StepReportV1 {
    StepReportV1 {
        before: Ok(root_index(1)),
        candidate: CandidateV1::Rejected {
            kind: RuntimeTransactionErrorKindV1::InvariantViolation,
            operation_index: Some(0),
            staged: vec![OperationIdV1::new(index as u32 * 10)],
            shape: RejectionShapeV1::new(true, 1, 1),
        },
    }
}

fn two_step_case() -> GeneratedCaseV1 {
    case(vec![
        TransactionV1::new(TransactionIdV1::new(0), vec![set_property(0), set_property(1)]),
        TransactionV1::new(TransactionIdV1::new(1), vec![set_property(2)]),
    ])
}

#[test]
fn a_clean_replay_reports_every_transaction() {
    let replayed = RefCell::new(Vec::new());
    let report: ReplayReportV1 = replay_case_v1(
        limits(),
        &two_step_case(),
        || (0, Ok(root_index(1))),
        |index: usize| {
            replayed.borrow_mut().push(index);
            if index == 0 { clean_commit(publication(0)) } else { clean_commit(noop(1)) }
        },
    )
    .unwrap();
    assert_eq!(report.transaction_count(), 2);
    assert_eq!(report.operation_count(), 3);
    assert_eq!(report.verified_step_count(), 2);
    assert_eq!(report.publication_count(), 1);
    assert_eq!(report.noop_count(), 1);
    assert_eq!(report.final_generation(), 1);
    assert_eq!(report.identity().alias_free_snapshots(), 3);
    assert_eq!(report.identity().preserved(), 2);
    assert_eq!(*replayed.borrow(), vec![0, 1]);
}

#[test]
fn a_failing_step_stops_replay_at_its_transaction() {
    let replayed = RefCell::new(Vec::new());
    let error = replay_case_v1(
        limits(),
        &two_step_case(),
        || (1, Ok(root_index(1))),
        |index: usize| {
            replayed.borrow_mut().push(index);
            rejected(index)
        },
    )
    .unwrap_err();
    assert_eq!(error.kind(), HarnessErrorKind::UnexpectedCandidateRejection);
    assert_eq!(error.transaction(), Some(TransactionIdV1::new(0)));
    assert_eq!(error.operation(), Some(OperationIdV1::new(0)));
    assert_eq!(*replayed.borrow(), vec![0]);
}

#[test]
fn a_commit_on_another_generation_is_a_trace_mismatch() {
    let error = replay_case_v1(
        limits(),
        &two_step_case(),
        || (0, Ok(root_index(1))),
        |index: usize| if index == 0 { clean_commit(publication(0)) } else { clean_commit(publication(0)) },
    )
    .unwrap_err();
    assert_eq!(error.kind(), HarnessErrorKind::TraceMismatch);
    assert_eq!(error.transaction(), Some(TransactionIdV1::new(1)));
}

#[test]
fn an_aliased_initial_snapshot_is_an_identity_error() {
    let mut aliased = root_index(1);
    assert!(aliased.record_node(NodePathV1::root().member(1, 7), NodeId(1)));
    let error = replay_case_v1(limits(), &two_step_case(), || (0, Ok(aliased)), unreachable_step)
        .unwrap_err();
    assert_eq!(error.kind(), HarnessErrorKind::IdentityMismatch);
    assert_eq!(error.transaction(), None);
}

#[test]
fn an_invalid_case_never_reaches_the_driver() {
    let empty = case(vec![TransactionV1::new(TransactionIdV1::new(0), Vec::new())]);
    let error = replay_case_v1(limits(), &empty, unreachable_initial, unreachable_step).unwrap_err();
    assert_eq!(error.kind(), HarnessErrorKind::InvalidOperation);
}

#[test]
fn replay_steps_one_transaction_at_a_time() {
    let mut state = replay_initial_v1((4, Ok(root_index(1)))).unwrap();
    replay_step_v1(&mut state, TransactionIdV1::new(0), clean_commit(publication(4))).unwrap();
    assert_eq!(state.generation(), 5);
    assert_eq!(state.publication_count(), 1);
    assert_eq!(state.verified_step_count(), 1);
    let error = replay_step_v1(&mut state, TransactionIdV1::new(1), StepReportV1 {
        before: Ok(root_index(1)),
        candidate: CandidateV1::Committed {
            shape: noop(5),
            after: AfterCommitV1::Mismatch(FailureFingerprintV1::candidate_rejected(
                CandidateRejectionV1::InvariantViolation,
            )),
        },
    })
    .unwrap_err();
    assert_eq!(error.kind(), HarnessErrorKind::UnexpectedCandidateRejection);
    assert_eq!(error.transaction(), Some(TransactionIdV1::new(1)));
}

fn move_keyed(id: u32) -> OperationV1 {
    OperationV1::new(
        OperationIdV1::new(id),
        SemanticOperationV1::MoveKeyed {
            fragment: fenestra_ui_testkit::semantic::FragmentPathV1::new(NodePathV1::root(), 1),
            key: 7,
            final_index: 0,
        },
    )
}

#[test]
fn a_fault_must_name_exactly_one_keyed_move() {
    let valid = case(vec![
        TransactionV1::new(TransactionIdV1::new(0), vec![set_property(1), move_keyed(2)]),
        TransactionV1::new(TransactionIdV1::new(1), vec![set_property(3)]),
    ]);
    let adapter = FaultAdapterV1::validate(&valid, Some(TraceFaultV1::omit_operation(OperationIdV1::new(2))))
        .expect("the target is a single keyed move");
    assert!(adapter.omits(&move_keyed(2)));
    assert!(!adapter.omits(&set_property(3)));
    assert!(!FaultAdapterV1::validate(&valid, None).unwrap().omits(&move_keyed(2)));

    let missing = FaultAdapterV1::validate(&valid, Some(TraceFaultV1::omit_operation(OperationIdV1::new(9))))
        .unwrap_err();
    assert_eq!(missing.kind(), HarnessErrorKind::InvalidOperation);
    assert_eq!(missing.transaction(), None);

    let wrong_kind = FaultAdapterV1::validate(&valid, Some(TraceFaultV1::omit_operation(OperationIdV1::new(3))))
        .unwrap_err();
    assert_eq!(wrong_kind.transaction(), Some(TransactionIdV1::new(1)));
    assert_eq!(wrong_kind.operation(), Some(OperationIdV1::new(3)));

    let repeated = case(vec![
        TransactionV1::new(TransactionIdV1::new(0), vec![move_keyed(2)]),
        TransactionV1::new(TransactionIdV1::new(1), vec![move_keyed(2)]),
    ]);
    let error = FaultAdapterV1::validate(&repeated, Some(TraceFaultV1::omit_operation(OperationIdV1::new(2))))
        .unwrap_err();
    assert_eq!(error.kind(), HarnessErrorKind::InvalidOperation);
    assert_eq!(error.transaction(), Some(TransactionIdV1::new(1)));
    assert_eq!(error.operation(), Some(OperationIdV1::new(2)));
}
