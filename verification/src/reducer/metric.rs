use vstd::prelude::*;

use crate::case::{
    GeneratedCaseV1, OperationIdV1, PropertyValue, SemanticOperationV1, SemanticOperationView,
    TransactionView, total_operations,
};
use crate::reducer::{ReducerError, ReducerErrorKind, ReductionOracleV1};

verus! {

/// Size of a case as the reducer orders it: operations first, then canonical
/// bytes, then the total magnitude of its reducible operands.
#[derive(Clone, Copy, Debug, PartialEq, Eq, Structural)]
pub struct ReductionMetricV1 {
    pub operations: u32,
    pub canonical_bytes: u32,
    pub magnitude: u128,
}

/// Whether one metric is strictly smaller than another in the reducer's
/// lexicographic order.
pub open spec fn metric_less(smaller: ReductionMetricV1, larger: ReductionMetricV1) -> bool {
    ||| smaller.operations < larger.operations
    ||| (smaller.operations == larger.operations && smaller.canonical_bytes
        < larger.canonical_bytes)
    ||| (smaller.operations == larger.operations && smaller.canonical_bytes
        == larger.canonical_bytes && smaller.magnitude < larger.magnitude)
}

/// The reducer's order weighs operations first, then canonical bytes, then
/// magnitude: fewer operations is smaller whatever the rest, equal
/// operations and fewer bytes is smaller whatever the magnitude; and the
/// order is a strict total order.
pub proof fn lemma_metric_order(
    first: ReductionMetricV1,
    second: ReductionMetricV1,
    third: ReductionMetricV1,
)
    ensures
        first.operations < second.operations ==> metric_less(first, second),
        first.operations == second.operations && first.canonical_bytes < second.canonical_bytes
            ==> metric_less(first, second),
        first.operations == second.operations && first.canonical_bytes == second.canonical_bytes
            ==> (metric_less(first, second) <==> first.magnitude < second.magnitude),
        !metric_less(first, first),
        metric_less(first, second) ==> !metric_less(second, first),
        metric_less(first, second) && metric_less(second, third) ==> metric_less(first, third),
        first != second ==> metric_less(first, second) || metric_less(second, first),
{
}

/// Compares two metrics in the reducer's lexicographic order.
pub fn is_smaller(smaller: ReductionMetricV1, larger: ReductionMetricV1) -> (less: bool)
    ensures
        less == metric_less(smaller, larger),
{
    if smaller.operations != larger.operations {
        smaller.operations < larger.operations
    } else if smaller.canonical_bytes != larger.canonical_bytes {
        smaller.canonical_bytes < larger.canonical_bytes
    } else {
        smaller.magnitude < larger.magnitude
    }
}

/// The magnitude of a scalar operand; other values have none.
pub open spec fn scalar_weight(value: PropertyValue) -> nat {
    match value {
        PropertyValue::ScalarI32(scalar) => if scalar < 0 {
            (-scalar) as nat
        } else {
            scalar as nat
        },
        _ => 0,
    }
}

/// The explicit reducible operands of one operation: keys, final indices and
/// scalar values.
pub open spec fn operand_weight(operation: SemanticOperationView) -> nat {
    match operation {
        SemanticOperationView::SetProperty { value, .. } => scalar_weight(value),
        SemanticOperationView::InsertKeyed { key, final_index, .. } => (key + final_index) as nat,
        SemanticOperationView::MoveKeyed { key, final_index, .. } => (key + final_index) as nat,
        SemanticOperationView::UpdateKeyed { key, value, .. } => (key + scalar_weight(value)) as nat,
        SemanticOperationView::RemoveKeyed { key, .. } => key as nat,
    }
}

/// The operand magnitude of a sequence of operations.
pub open spec fn operations_magnitude(operations: Seq<(OperationIdV1, SemanticOperationView)>) -> nat
    decreases operations.len(),
{
    if operations.len() == 0 {
        0
    } else {
        operations_magnitude(operations.drop_last()) + operand_weight(operations.last().1)
    }
}

/// The operand magnitude of a sequence of transactions.
pub open spec fn case_magnitude(transactions: Seq<TransactionView>) -> nat
    decreases transactions.len(),
{
    if transactions.len() == 0 {
        0
    } else {
        case_magnitude(transactions.drop_last()) + operations_magnitude(transactions.last().1)
    }
}

proof fn lemma_operations_prefix(operations: Seq<(OperationIdV1, SemanticOperationView)>, index: int)
    requires
        0 <= index <= operations.len(),
    ensures
        operations_magnitude(operations.take(index)) <= operations_magnitude(operations),
    decreases operations.len(),
{
    if index < operations.len() {
        assert(operations.drop_last().take(index) =~= operations.take(index));
        lemma_operations_prefix(operations.drop_last(), index);
    } else {
        assert(operations.take(index) =~= operations);
    }
}

proof fn lemma_case_prefix(transactions: Seq<TransactionView>, index: int)
    requires
        0 <= index <= transactions.len(),
    ensures
        case_magnitude(transactions.take(index)) <= case_magnitude(transactions),
    decreases transactions.len(),
{
    if index < transactions.len() {
        assert(transactions.drop_last().take(index) =~= transactions.take(index));
        lemma_case_prefix(transactions.drop_last(), index);
    } else {
        assert(transactions.take(index) =~= transactions);
    }
}

/// A scalar operand weighs its absolute value; a value of another type
/// weighs nothing.
pub proof fn lemma_scalar_weight_absolute(value: PropertyValue)
    ensures
        match value {
            PropertyValue::ScalarI32(scalar) => scalar_weight(value) == vstd::math::abs(
                scalar as int,
            ),
            _ => scalar_weight(value) == 0,
        },
{
}

proof fn lemma_operations_update(
    operations: Seq<(OperationIdV1, SemanticOperationView)>,
    index: int,
    operation: (OperationIdV1, SemanticOperationView),
)
    requires
        0 <= index < operations.len(),
    ensures
        operations_magnitude(operations.update(index, operation)) + operand_weight(
            operations[index].1,
        ) == operations_magnitude(operations) + operand_weight(operation.1),
    decreases operations.len(),
{
    let updated = operations.update(index, operation);
    if index == operations.len() - 1 {
        assert(updated.drop_last() =~= operations.drop_last());
    } else {
        assert(updated.drop_last() =~= operations.drop_last().update(index, operation));
        lemma_operations_update(operations.drop_last(), index, operation);
    }
}

proof fn lemma_case_update(transactions: Seq<TransactionView>, index: int, transaction: TransactionView)
    requires
        0 <= index < transactions.len(),
    ensures
        case_magnitude(transactions.update(index, transaction)) + operations_magnitude(
            transactions[index].1,
        ) == case_magnitude(transactions) + operations_magnitude(transaction.1),
    decreases transactions.len(),
{
    let updated = transactions.update(index, transaction);
    if index == transactions.len() - 1 {
        assert(updated.drop_last() =~= transactions.drop_last());
    } else {
        assert(updated.drop_last() =~= transactions.drop_last().update(index, transaction));
        lemma_case_update(transactions.drop_last(), index, transaction);
    }
}

/// Replacing the scalar of one property assignment by a scalar of smaller
/// absolute value strictly lowers a case's operand magnitude, by exactly the
/// difference of the two absolute values.
pub proof fn lemma_smaller_scalar_lowers_magnitude(
    transactions: Seq<TransactionView>,
    transaction: int,
    operation: int,
    node: Seq<crate::semantic::PathSegmentV1>,
    property: crate::case::PropertyId,
    scalar: i32,
    replacement: i32,
)
    requires
        0 <= transaction < transactions.len(),
        0 <= operation < transactions[transaction].1.len(),
        transactions[transaction].1[operation].1 == (SemanticOperationView::SetProperty {
            node,
            property,
            value: PropertyValue::ScalarI32(scalar),
        }),
        vstd::math::abs(replacement as int) < vstd::math::abs(scalar as int),
    ensures
        ({
            let operations = transactions[transaction].1;
            let replaced = operations.update(
                operation,
                (
                    operations[operation].0,
                    SemanticOperationView::SetProperty {
                        node,
                        property,
                        value: PropertyValue::ScalarI32(replacement),
                    },
                ),
            );
            let smaller = transactions.update(transaction, (transactions[transaction].0, replaced));
            &&& case_magnitude(smaller) < case_magnitude(transactions)
            &&& case_magnitude(smaller) + vstd::math::abs(scalar as int) == case_magnitude(
                transactions,
            ) + vstd::math::abs(replacement as int)
        }),
{
    let operations = transactions[transaction].1;
    let entry = (
        operations[operation].0,
        SemanticOperationView::SetProperty {
            node,
            property,
            value: PropertyValue::ScalarI32(replacement),
        },
    );
    let replaced = operations.update(operation, entry);
    lemma_scalar_weight_absolute(PropertyValue::ScalarI32(scalar));
    lemma_scalar_weight_absolute(PropertyValue::ScalarI32(replacement));
    lemma_operations_update(operations, operation, entry);
    lemma_case_update(transactions, transaction, (transactions[transaction].0, replaced));
}

fn scalar_magnitude(value: PropertyValue) -> (magnitude: u128)
    ensures
        magnitude == scalar_weight(value),
        value matches PropertyValue::ScalarI32(scalar) ==> magnitude == vstd::math::abs(
            scalar as int,
        ),
{
    match value {
        PropertyValue::ScalarI32(scalar) => if scalar < 0 {
            let widened: i64 = scalar as i64;
            (-widened) as u128
        } else {
            scalar as u128
        },
        _ => 0,
    }
}

fn operation_weight(operation: &SemanticOperationV1) -> (weight: u128)
    ensures
        weight == operand_weight(operation@),
{
    match operation {
        SemanticOperationV1::SetProperty { value, .. } => scalar_magnitude(*value),
        SemanticOperationV1::InsertKeyed { key, final_index, .. } => (*key as u128) + (
        *final_index as u128),
        SemanticOperationV1::MoveKeyed { key, final_index, .. } => (*key as u128) + (
        *final_index as u128),
        SemanticOperationV1::UpdateKeyed { key, value, .. } => (*key as u128) + scalar_magnitude(
            *value,
        ),
        SemanticOperationV1::RemoveKeyed { key, .. } => *key as u128,
    }
}

/// Sums the explicit reducible operands of a case, or reports that the sum
/// does not fit in `u128`.
pub fn operand_magnitude(case: &GeneratedCaseV1) -> (result: Result<u128, ReducerError>)
    ensures
        match result {
            Ok(magnitude) => magnitude == case_magnitude(case@.transactions),
            Err(error) => case_magnitude(case@.transactions) > u128::MAX && error.spec_kind()
                == ReducerErrorKind::ArithmeticExhausted,
        },
{
    let transactions = case.transactions();
    let ghost views = case@.transactions;
    let mut magnitude: u128 = 0;
    let mut t: usize = 0;
    while t < transactions.len()
        invariant
            t <= transactions@.len(),
            views == case@.transactions,
            views.len() == transactions@.len(),
            forall|i: int| 0 <= i < transactions@.len() ==> #[trigger] views[i] == transactions@[i]@,
            magnitude == case_magnitude(views.take(t as int)),
        decreases transactions@.len() - t,
    {
        let operations = transactions[t].operations();
        let ghost ops = views[t as int].1;
        proof {
            assert(views[t as int] == transactions@[t as int]@);
            assert(views.take(t as int + 1).drop_last() =~= views.take(t as int));
        }
        let ghost base = magnitude;
        let mut o: usize = 0;
        while o < operations.len()
            invariant
                o <= operations@.len(),
                ops.len() == operations@.len(),
                forall|i: int| 0 <= i < operations@.len() ==> #[trigger] ops[i] == operations@[i]@,
                magnitude == base + operations_magnitude(ops.take(o as int)),
                base == case_magnitude(views.take(t as int)),
                t < views.len(),
                views.take(t as int + 1).drop_last() =~= views.take(t as int),
                views[t as int].1 == ops,
                views == case@.transactions,
            decreases operations@.len() - o,
        {
            let weight = operation_weight(operations[o].operation());
            proof {
                assert(ops[o as int] == operations@[o as int]@);
                assert(ops.take(o as int + 1).drop_last() =~= ops.take(o as int));
            }
            magnitude = match magnitude.checked_add(weight) {
                Some(next) => next,
                None => {
                    proof {
                        assert(ops.take(o as int + 1).last() == ops[o as int]);
                        assert(operations_magnitude(ops.take(o as int + 1)) == operations_magnitude(
                            ops.take(o as int),
                        ) + operand_weight(ops[o as int].1));
                        lemma_operations_prefix(ops, o as int + 1);
                        assert(views.take(t as int + 1).last() == views[t as int]);
                        assert(case_magnitude(views.take(t as int + 1)) == case_magnitude(
                            views.take(t as int),
                        ) + operations_magnitude(ops));
                        lemma_case_prefix(views, t as int + 1);
                    }
                    return Err(ReducerError::new(ReducerErrorKind::ArithmeticExhausted));
                },
            };
            o = o + 1;
        }
        proof {
            assert(ops.take(o as int) =~= ops);
        }
        t = t + 1;
    }
    proof {
        assert(views.take(t as int) =~= views);
    }
    Ok(magnitude)
}

/// Whether a failure is one that measuring a case can give.
pub open spec fn is_metric_failure(kind: ReducerErrorKind) -> bool {
    kind == ReducerErrorKind::MetricLimitExceeded || kind == ReducerErrorKind::ArithmeticExhausted
}

/// The metric of a case whose canonical encoding has `canonical_len` bytes,
/// or the reason it has none.
pub open spec fn expected_metric(case: crate::case::CaseView, canonical_len: Option<usize>) -> Result<
    ReductionMetricV1,
    ReducerErrorKind,
> {
    match canonical_len {
        None => Err(ReducerErrorKind::MetricLimitExceeded),
        Some(bytes) => if total_operations(case.transactions) > u32::MAX || bytes > u32::MAX
            || case_magnitude(case.transactions) > u128::MAX {
            Err(ReducerErrorKind::ArithmeticExhausted)
        } else {
            Ok(
                ReductionMetricV1 {
                    operations: total_operations(case.transactions) as u32,
                    canonical_bytes: bytes as u32,
                    magnitude: case_magnitude(case.transactions) as u128,
                },
            )
        },
    }
}

/// Counts the operations of a case.
pub fn operation_count(case: &GeneratedCaseV1) -> (count: Option<usize>)
    ensures
        match count {
            Some(count) => count == total_operations(case@.transactions),
            None => total_operations(case@.transactions) > usize::MAX,
        },
{
    let transactions = case.transactions();
    let ghost views = case@.transactions;
    let mut count: usize = 0;
    let mut t: usize = 0;
    while t < transactions.len()
        invariant
            t <= transactions@.len(),
            views == case@.transactions,
            views.len() == transactions@.len(),
            forall|i: int| 0 <= i < transactions@.len() ==> #[trigger] views[i] == transactions@[i]@,
            count == total_operations(views.take(t as int)),
        decreases transactions@.len() - t,
    {
        let operations = transactions[t].operations();
        proof {
            assert(views[t as int] == transactions@[t as int]@);
            assert(views.take(t as int + 1).drop_last() =~= views.take(t as int));
        }
        count = match count.checked_add(operations.len()) {
            Some(next) => next,
            None => {
                proof {
                    crate::reducer::metric::lemma_total_prefix(views, t as int + 1);
                }
                return None;
            },
        };
        t = t + 1;
    }
    proof {
        assert(views.take(t as int) =~= views);
    }
    Some(count)
}

proof fn lemma_total_prefix(transactions: Seq<TransactionView>, index: int)
    requires
        0 <= index <= transactions.len(),
    ensures
        total_operations(transactions.take(index)) <= total_operations(transactions),
    decreases transactions.len(),
{
    if index < transactions.len() {
        assert(transactions.drop_last().take(index) =~= transactions.take(index));
        lemma_total_prefix(transactions.drop_last(), index);
    } else {
        assert(transactions.take(index) =~= transactions);
    }
}

/// Measures a case: its operation count, its canonical byte length as the
/// oracle encodes it, and its operand magnitude.
pub fn measure_case_v1<L: Fn(&GeneratedCaseV1) -> Option<usize>, R: Fn(&GeneratedCaseV1) -> bool>(oracle: &ReductionOracleV1<L, R>, case: &GeneratedCaseV1) -> (result:
    Result<ReductionMetricV1, ReducerError>)
    requires
        oracle.ready(),
    ensures
        exists|canonical_len: Option<usize>|
            oracle.gives_len(case@, canonical_len) && match #[trigger] expected_metric(
                case@,
                canonical_len,
            ) {
                Ok(metric) => result == Ok::<ReductionMetricV1, ReducerError>(metric),
                Err(kind) => result is Err && result->Err_0.spec_kind() == kind,
            },
{
    let canonical_len = oracle.canonical_len(case);
    let bytes = match canonical_len {
        Some(bytes) => bytes,
        None => {
            let error = ReducerError::new(ReducerErrorKind::MetricLimitExceeded);
            assert(expected_metric(case@, canonical_len) == Err::<ReductionMetricV1, ReducerErrorKind>(ReducerErrorKind::MetricLimitExceeded));
            return Err(error);
        },
    };
    let operations = match operation_count(case) {
        Some(count) => count,
        None => {
            assert(expected_metric(case@, canonical_len) is Err);
            return Err(ReducerError::new(ReducerErrorKind::ArithmeticExhausted));
        },
    };
    if operations > u32::MAX as usize || bytes > u32::MAX as usize {
        assert(expected_metric(case@, canonical_len) is Err);
        return Err(ReducerError::new(ReducerErrorKind::ArithmeticExhausted));
    }
    let magnitude = match operand_magnitude(case) {
        Ok(magnitude) => magnitude,
        Err(error) => {
            assert(expected_metric(case@, canonical_len) is Err);
            return Err(error);
        },
    };
    let metric = ReductionMetricV1 {
        operations: operations as u32,
        canonical_bytes: bytes as u32,
        magnitude,
    };
    assert(expected_metric(case@, canonical_len) == Ok::<ReductionMetricV1, ReducerErrorKind>(metric));
    Ok(metric)
}

} // verus!
