use fenestra_ui_testkit::case::{
    GeneratedCaseV1, GeneratorConfigV1, OperationIdV1, OperationV1, PropertyId, PropertyValue,
    SeedV1, SemanticOperationV1, TransactionIdV1, TransactionV1,
};
use fenestra_ui_testkit::reducer::metric::{ReductionMetricV1, is_smaller, measure_case_v1};
use fenestra_ui_testkit::reducer::transform::{
    operation_with_key_v1, operation_with_scalar_v1, remove_operation_v1,
    remove_transaction_block_v1, replace_operation_v1,
};
use fenestra_ui_testkit::reducer::{
    ReducerConfigV1, ReducerErrorKind, ReductionCompletionV1, ReductionOracleV1,
    reduce_failure_case_v1,
};
use fenestra_ui_testkit::semantic::{FragmentPathV1, NodePathV1};
use std::cell::Cell;

fn moves_key_seven(case: &GeneratedCaseV1) -> bool {
    case.transactions().iter().any(|transaction| {
        transaction.operations().iter().any(|operation| {
            matches!(operation.operation(), SemanticOperationV1::MoveKeyed { key: 7, .. })
        })
    })
}

fn encoded_len(case: &GeneratedCaseV1) -> Option<usize> {
    let operations: usize = case.transactions().iter().map(|t| t.operations().len()).sum();
    Some(4 + 8 * operations)
}

/// A failure that reproduces while the case still moves key 7 somewhere;
/// every replay is counted.
fn moves_key_seven_oracle(
    evaluations: &Cell<usize>,
) -> ReductionOracleV1<fn(&GeneratedCaseV1) -> Option<usize>, impl Fn(&GeneratedCaseV1) -> bool + '_> {
    ReductionOracleV1 {
        encoded_len: encoded_len as fn(&GeneratedCaseV1) -> Option<usize>,
        reproduces: move |case: &GeneratedCaseV1| {
            evaluations.set(evaluations.get() + 1);
            moves_key_seven(case)
        },
    }
}

fn fragment() -> FragmentPathV1 {
    FragmentPathV1::new(NodePathV1::root(), 1)
}

fn operation(id: u32, operation: SemanticOperationV1) -> OperationV1 {
    OperationV1::new(OperationIdV1::new(id), operation)
}

fn case(transactions: Vec<TransactionV1>) -> GeneratedCaseV1 {
    GeneratedCaseV1::new(1, GeneratorConfigV1::new(8, 4, 16), SeedV1::new(3), transactions)
}

fn noisy_case() -> GeneratedCaseV1 {
    case(vec![
        TransactionV1::new(
            TransactionIdV1::new(0),
            vec![
                operation(0, SemanticOperationV1::InsertKeyed { fragment: fragment(), key: 9, final_index: 2 }),
                operation(1, SemanticOperationV1::SetProperty {
                    node: NodePathV1::root(),
                    property: PropertyId::new(2),
                    value: PropertyValue::ScalarI32(-40),
                }),
            ],
        ),
        TransactionV1::new(
            TransactionIdV1::new(1),
            vec![operation(2, SemanticOperationV1::MoveKeyed { fragment: fragment(), key: 7, final_index: 3 })],
        ),
        TransactionV1::new(
            TransactionIdV1::new(2),
            vec![operation(3, SemanticOperationV1::RemoveKeyed { fragment: fragment(), key: 5 })],
        ),
    ])
}

#[test]
fn budgets_outside_the_closed_range_are_refused() {
    for budget in [0, 4097, u32::MAX] {
        let evaluations = Cell::new(0usize);
    let oracle = moves_key_seven_oracle(&evaluations);
        let error = reduce_failure_case_v1(&oracle, &noisy_case(), ReducerConfigV1::new(budget))
            .unwrap_err();
        assert_eq!(error.kind(), ReducerErrorKind::InvalidConfiguration);
        assert_eq!(evaluations.get(), 0);
    }
    assert_eq!(ReducerConfigV1::new(4096).max_evaluations(), 4096);
}

#[test]
fn a_case_that_does_not_fail_is_refused() {
    let evaluations = Cell::new(0usize);
    let oracle = moves_key_seven_oracle(&evaluations);
    let clean = case(vec![TransactionV1::new(
        TransactionIdV1::new(0),
        vec![operation(0, SemanticOperationV1::RemoveKeyed { fragment: fragment(), key: 5 })],
    )]);
    let error = reduce_failure_case_v1(&oracle, &clean, ReducerConfigV1::new(16)).unwrap_err();
    assert_eq!(error.kind(), ReducerErrorKind::InvalidInputFailure);
}

#[test]
fn reduction_reaches_the_single_failing_operation() {
    let evaluations = Cell::new(0usize);
    let oracle = moves_key_seven_oracle(&evaluations);
    let reduction =
        reduce_failure_case_v1(&oracle, &noisy_case(), ReducerConfigV1::new(4096)).unwrap();
    assert_eq!(reduction.completion(), ReductionCompletionV1::FixedPoint);
    let minimized = reduction.minimized_case();
    assert_eq!(minimized.transactions().len(), 1);
    let transaction = &minimized.transactions()[0];
    assert_eq!(transaction.id(), TransactionIdV1::new(1));
    assert_eq!(transaction.operations().len(), 1);
    assert_eq!(transaction.operations()[0].id(), OperationIdV1::new(2));
    match transaction.operations()[0].operation() {
        SemanticOperationV1::MoveKeyed { key, final_index, .. } => {
            assert_eq!((*key, *final_index), (7, 0));
        }
        other => panic!("unexpected operation {other:?}"),
    }
    assert_eq!(minimized.seed(), SeedV1::new(3));
    assert!(reduction.used_evaluations() < 4096);
}

#[test]
fn an_exhausted_budget_is_reported_with_every_evaluation_spent() {
    let evaluations = Cell::new(0usize);
    let oracle = moves_key_seven_oracle(&evaluations);
    let reduction =
        reduce_failure_case_v1(&oracle, &noisy_case(), ReducerConfigV1::new(1)).unwrap();
    assert_eq!(reduction.completion(), ReductionCompletionV1::BudgetExhausted);
    assert_eq!(reduction.used_evaluations(), 1);
    assert!(reduction.minimized_case().transactions().len() <= 3);
}

#[test]
fn completion_words_are_stable() {
    assert_eq!(ReductionCompletionV1::FixedPoint.word(), "fixed-point");
    assert_eq!(ReductionCompletionV1::BudgetExhausted.word(), "budget-exhausted");
}

#[test]
fn metric_counts_only_explicit_reducible_operands() {
    let owner = NodePathV1::root().member(7, u64::MAX);
    let fragment = FragmentPathV1::new(owner.clone(), 9);
    let case = case(vec![TransactionV1::new(
        TransactionIdV1::new(0),
        vec![
            operation(0, SemanticOperationV1::SetProperty {
                node: owner,
                property: PropertyId::new(u32::MAX),
                value: PropertyValue::ScalarI32(i32::MIN),
            }),
            operation(1, SemanticOperationV1::InsertKeyed { fragment: fragment.clone(), key: 7, final_index: 3 }),
            operation(2, SemanticOperationV1::UpdateKeyed {
                fragment: fragment.clone(),
                key: 11,
                property: PropertyId::new(u32::MAX),
                value: PropertyValue::ScalarI32(-5),
            }),
            operation(3, SemanticOperationV1::RemoveKeyed { fragment, key: 13 }),
        ],
    )]);
    let evaluations = Cell::new(0usize);
    let oracle = moves_key_seven_oracle(&evaluations);
    let metric = measure_case_v1(&oracle, &case).expect("bounded case should have a metric");
    assert_eq!(metric.operations, 4);
    assert_eq!(metric.canonical_bytes, 36);
    assert_eq!(metric.magnitude, 2_147_483_687);
}

#[test]
fn metrics_order_lexicographically() {
    let base = ReductionMetricV1 { operations: 2, canonical_bytes: 10, magnitude: 5 };
    assert!(is_smaller(ReductionMetricV1 { operations: 1, canonical_bytes: 99, magnitude: 99 }, base));
    assert!(is_smaller(ReductionMetricV1 { operations: 2, canonical_bytes: 9, magnitude: 99 }, base));
    assert!(is_smaller(ReductionMetricV1 { operations: 2, canonical_bytes: 10, magnitude: 4 }, base));
    assert!(!is_smaller(base, base));
}

#[test]
fn candidate_transforms_keep_identifiers() {
    let original = noisy_case();
    let without_first_two = remove_transaction_block_v1(&original, 0, 2);
    assert_eq!(without_first_two.transactions().len(), 1);
    assert_eq!(without_first_two.transactions()[0].id(), TransactionIdV1::new(2));

    let emptied = remove_operation_v1(&original, 1, 0);
    assert_eq!(emptied.transactions().len(), 2);
    let thinned = remove_operation_v1(&original, 0, 0);
    assert_eq!(thinned.transactions()[0].operations()[0].id(), OperationIdV1::new(1));

    let moved = original.transactions()[1].operations()[0].operation();
    let rekeyed = operation_with_key_v1(moved, 0).unwrap();
    let replaced = replace_operation_v1(&original, 1, 0, rekeyed);
    assert_eq!(replaced.transactions()[1].operations()[0].id(), OperationIdV1::new(2));
    assert!(!moves_key_seven(&replaced));

    let assignment = original.transactions()[0].operations()[1].operation();
    assert!(operation_with_key_v1(assignment, 0).is_none());
    match operation_with_scalar_v1(assignment, 1).unwrap() {
        SemanticOperationV1::SetProperty { value, .. } => assert_eq!(value, PropertyValue::ScalarI32(1)),
        other => panic!("unexpected operation {other:?}"),
    }
}

#[test]
fn used_evaluations_count_the_candidate_replays() {
    let evaluations = Cell::new(0usize);
    let oracle = moves_key_seven_oracle(&evaluations);
    let reduction =
        reduce_failure_case_v1(&oracle, &noisy_case(), ReducerConfigV1::new(4096)).unwrap();
    assert_eq!(evaluations.get(), reduction.used_evaluations() as usize + 1);
    let minimized = reduction.minimized_case();
    assert!(encoded_len(minimized).unwrap() < encoded_len(&noisy_case()).unwrap());
}
