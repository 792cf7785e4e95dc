use vstd::prelude::*;

use crate::case::{
    CaseView, GeneratedCaseV1, OperationIdV1, OperationV1, PropertyValue, SemanticOperationV1,
    SemanticOperationView, TransactionV1, TransactionView, operations_view, total_operations,
    transactions_view,
};
use crate::reducer::metric::{
    ReductionMetricV1, expected_metric, is_metric_failure, is_smaller, measure_case_v1,
};
use crate::reducer::search::{
    OracleAnswer, SearchStep, block_candidates, block_cell, block_width, cells_upto, evaluation,
    final_step, index_candidates, index_cell, key_candidates, key_cell, lemma_cell_prefix,
    lemma_scalar_prefix, lemma_search_done, lemma_search_pass, lemma_search_step, operation_width,
    pass_step, reduction_candidates, removal_candidates, removal_cell, rows_upto,
    scalar_candidate, scalar_candidates, scalar_cell, scalar_tries, search_run, searched_by,
    tried_scalar,
};
use crate::reducer::{ReducerError, ReducerErrorKind, ReductionOracleV1, reduces_to};

verus! {

/// What the budget allows while candidates are searched.
#[derive(Clone, Copy, Debug)]
pub struct SearchBudgetV1 {
    /// Metric of the case being reduced.
    pub current_metric: ReductionMetricV1,
    /// Evaluations consumed so far.
    pub used: u32,
    /// Evaluations allowed.
    pub max: u32,
}

/// How one pass over the transforms ended.
#[derive(Debug)]
pub enum SearchOutcomeV1 {
    /// No candidate was accepted.
    FixedPoint,
    /// A candidate reproduced the target and is smaller.
    Accepted(GeneratedCaseV1),
    /// The budget ran out, on an accepted candidate or on a refused one.
    Exhausted(Option<GeneratedCaseV1>),
}

/// A candidate case built from the case being reduced: same fixture,
/// provenance and seed, and no more transactions.
pub open spec fn shrinks(current: CaseView, candidate: CaseView) -> bool {
    &&& candidate.fixture_revision == current.fixture_revision
    &&& candidate.config == current.config
    &&& candidate.seed == current.seed
    &&& candidate.transactions.len() <= current.transactions.len()
}

/// What a finished search outcome guarantees about the budget and the case.
pub open spec fn outcome_holds(
    outcome: SearchOutcomeV1,
    current: CaseView,
    used_before: u32,
    budget: SearchBudgetV1,
) -> bool {
    match outcome {
        SearchOutcomeV1::FixedPoint => budget.used < budget.max,
        SearchOutcomeV1::Accepted(candidate) => budget.used < budget.max && used_before
            < budget.used && reduces_to(current, candidate@),
        SearchOutcomeV1::Exhausted(found) => budget.used == budget.max && match found {
            Some(candidate) => reduces_to(current, candidate@),
            None => true,
        },
    }
}

/// The budget is unchanged but for evaluations consumed.
pub open spec fn budget_follows(before: SearchBudgetV1, after: SearchBudgetV1) -> bool {
    &&& after.current_metric == before.current_metric
    &&& after.max == before.max
    &&& before.used <= after.used <= after.max
}

/// The transactions without the block of `len` transactions at `start`.
pub open spec fn without_block(transactions: Seq<TransactionView>, start: int, len: int) -> Seq<
    TransactionView,
> {
    transactions.subrange(0, start) + transactions.subrange(start + len, transactions.len() as int)
}

/// The transactions without one operation; a transaction left empty goes too.
pub open spec fn without_operation(
    transactions: Seq<TransactionView>,
    transaction: int,
    operation: int,
) -> Seq<TransactionView> {
    let operations = transactions[transaction].1.remove(operation);
    if operations.len() == 0 {
        transactions.remove(transaction)
    } else {
        transactions.update(transaction, (transactions[transaction].0, operations))
    }
}

/// The transactions with one operation replaced, keeping its identifier.
pub open spec fn with_operation(
    transactions: Seq<TransactionView>,
    transaction: int,
    operation: int,
    replacement: SemanticOperationView,
) -> Seq<TransactionView> {
    let operations = transactions[transaction].1;
    transactions.update(
        transaction,
        (
            transactions[transaction].0,
            operations.update(operation, (operations[operation].0, replacement)),
        ),
    )
}

/// Copies operations, replacing or dropping the one at `index`.
fn copy_operations_replacing(
    operations: &[OperationV1],
    index: usize,
    replacement: Option<OperationV1>,
) -> (copy: Vec<OperationV1>)
    requires
        index < operations@.len(),
    ensures
        operations_view(copy@) == match replacement {
            Some(operation) => operations_view(operations@).update(index as int, operation@),
            None => operations_view(operations@).remove(index as int),
        },
{
    let count = operations.len();
    let ghost views = operations_view(operations@);
    let ghost expected = match &replacement {
        Some(operation) => views.update(index as int, operation@),
        None => views.remove(index as int),
    };
    let ghost kept: int = if replacement is Some { 1 } else { 0 };
    let mut copy: Vec<OperationV1> = Vec::new();
    let mut i: usize = 0;
    while i < index
        invariant
            i <= index < operations@.len(),
            count == operations@.len(),
            views == operations_view(operations@),
            expected.len() == views.len() + kept - 1,
            forall|k: int| 0 <= k < index ==> #[trigger] expected[k] == views[k],
            copy@.len() == i,
            forall|k: int| 0 <= k < copy@.len() ==> (#[trigger] copy@[k])@ == expected[k],
        decreases index - i,
    {
        let item = operations[i].clone();
        copy.push(item);
        i = i + 1;
    }
    match replacement {
        Some(operation) => copy.push(operation),
        None => {},
    }
    let mut i: usize = index + 1;
    while i < operations.len()
        invariant
            index < i <= operations@.len(),
            views == operations_view(operations@),
            expected.len() == views.len() + kept - 1,
            forall|k: int| index < k < views.len() ==> #[trigger] views[k] == expected[k + kept - 1],
            copy@.len() == i + kept - 1,
            forall|k: int| 0 <= k < copy@.len() ==> (#[trigger] copy@[k])@ == expected[k],
        decreases operations@.len() - i,
    {
        let item = operations[i].clone();
        copy.push(item);
        proof {
            assert(views[i as int] == expected[i + kept - 1]);
        }
        i = i + 1;
    }
    proof {
        assert(operations_view(copy@) =~= expected);
    }
    copy
}

/// Copies transactions, replacing or dropping the one at `index`.
fn copy_transactions_replacing(
    transactions: &[TransactionV1],
    index: usize,
    replacement: Option<TransactionV1>,
) -> (copy: Vec<TransactionV1>)
    requires
        index < transactions@.len(),
    ensures
        transactions_view(copy@) == match replacement {
            Some(transaction) => transactions_view(transactions@).update(
                index as int,
                transaction@,
            ),
            None => transactions_view(transactions@).remove(index as int),
        },
{
    let count = transactions.len();
    let ghost views = transactions_view(transactions@);
    let ghost expected = match &replacement {
        Some(transaction) => views.update(index as int, transaction@),
        None => views.remove(index as int),
    };
    let ghost kept: int = if replacement is Some { 1 } else { 0 };
    let mut copy: Vec<TransactionV1> = Vec::new();
    let mut i: usize = 0;
    while i < index
        invariant
            i <= index < transactions@.len(),
            count == transactions@.len(),
            views == transactions_view(transactions@),
            expected.len() == views.len() + kept - 1,
            forall|k: int| 0 <= k < index ==> #[trigger] expected[k] == views[k],
            copy@.len() == i,
            forall|k: int| 0 <= k < copy@.len() ==> (#[trigger] copy@[k])@ == expected[k],
        decreases index - i,
    {
        let item = transactions[i].clone();
        copy.push(item);
        i = i + 1;
    }
    match replacement {
        Some(transaction) => copy.push(transaction),
        None => {},
    }
    let mut i: usize = index + 1;
    while i < transactions.len()
        invariant
            index < i <= transactions@.len(),
            views == transactions_view(transactions@),
            expected.len() == views.len() + kept - 1,
            forall|k: int| index < k < views.len() ==> #[trigger] views[k] == expected[k + kept - 1],
            copy@.len() == i + kept - 1,
            forall|k: int| 0 <= k < copy@.len() ==> (#[trigger] copy@[k])@ == expected[k],
        decreases transactions@.len() - i,
    {
        let item = transactions[i].clone();
        copy.push(item);
        proof {
            assert(views[i as int] == expected[i + kept - 1]);
        }
        i = i + 1;
    }
    proof {
        assert(transactions_view(copy@) =~= expected);
    }
    copy
}

/// A case with the same fixture, provenance and seed and other transactions.
pub fn case_with_transactions_v1(current: &GeneratedCaseV1, transactions: Vec<TransactionV1>) -> (
    case: GeneratedCaseV1)
    ensures
        case@ == (CaseView { transactions: transactions_view(transactions@), ..current@ }),
{
    GeneratedCaseV1::new(current.fixture_revision(), current.config(), current.seed(), transactions)
}

/// The candidate without a block of transactions.
pub fn remove_transaction_block_v1(current: &GeneratedCaseV1, start: usize, len: usize) -> (case:
    GeneratedCaseV1)
    requires
        start + len <= current@.transactions.len(),
    ensures
        case@ == (CaseView {
            transactions: without_block(current@.transactions, start as int, len as int),
            ..current@
        }),
{
    let transactions = current.transactions();
    let count = transactions.len();
    let ghost views = current@.transactions;
    let ghost expected = without_block(views, start as int, len as int);
    let mut copy: Vec<TransactionV1> = Vec::new();
    let mut i: usize = 0;
    while i < start
        invariant
            i <= start,
            start + len <= count,
            count == transactions@.len(),
            views == transactions_view(transactions@),
            expected == without_block(views, start as int, len as int),
            copy@.len() == i,
            forall|k: int| 0 <= k < copy@.len() ==> (#[trigger] copy@[k])@ == expected[k],
        decreases start - i,
    {
        let item = transactions[i].clone();
        copy.push(item);
        i = i + 1;
    }
    let mut i: usize = start + len;
    while i < transactions.len()
        invariant
            start + len <= i <= count,
            count == transactions@.len(),
            views == transactions_view(transactions@),
            expected == without_block(views, start as int, len as int),
            copy@.len() == i - len,
            forall|k: int| 0 <= k < copy@.len() ==> (#[trigger] copy@[k])@ == expected[k],
        decreases count - i,
    {
        let item = transactions[i].clone();
        copy.push(item);
        proof {
            assert(expected[i - len] == views[i as int]);
        }
        i = i + 1;
    }
    proof {
        assert(transactions_view(copy@) =~= expected);
    }
    case_with_transactions_v1(current, copy)
}

/// The candidate without one operation; a transaction left empty goes too.
pub fn remove_operation_v1(current: &GeneratedCaseV1, transaction: usize, operation: usize) -> (
    case: GeneratedCaseV1)
    requires
        transaction < current@.transactions.len(),
        operation < current@.transactions[transaction as int].1.len(),
    ensures
        case@ == (CaseView {
            transactions: without_operation(
                current@.transactions,
                transaction as int,
                operation as int,
            ),
            ..current@
        }),
{
    let transactions = current.transactions();
    let target = &transactions[transaction];
    proof {
        assert(current@.transactions[transaction as int] == target@);
    }
    let operations = copy_operations_replacing(target.operations(), operation, None);
    let replacement = if operations.len() == 0 {
        None
    } else {
        Some(TransactionV1::new(target.id(), operations))
    };
    let copy = copy_transactions_replacing(transactions, transaction, replacement);
    case_with_transactions_v1(current, copy)
}

/// The candidate with one operation replaced, keeping its identifier.
pub fn replace_operation_v1(
    current: &GeneratedCaseV1,
    transaction: usize,
    operation: usize,
    replacement: SemanticOperationV1,
) -> (case: GeneratedCaseV1)
    requires
        transaction < current@.transactions.len(),
        operation < current@.transactions[transaction as int].1.len(),
    ensures
        case@ == (CaseView {
            transactions: with_operation(
                current@.transactions,
                transaction as int,
                operation as int,
                replacement@,
            ),
            ..current@
        }),
{
    let transactions = current.transactions();
    let target = &transactions[transaction];
    proof {
        assert(current@.transactions[transaction as int] == target@);
    }
    let operations = target.operations();
    let replaced = OperationV1::new(operations[operation].id(), replacement);
    let operations = copy_operations_replacing(operations, operation, Some(replaced));
    let copy = copy_transactions_replacing(
        transactions,
        transaction,
        Some(TransactionV1::new(target.id(), operations)),
    );
    case_with_transactions_v1(current, copy)
}

/// The explicit key of a keyed operation.
pub open spec fn operation_key(operation: SemanticOperationView) -> Option<u64> {
    match operation {
        SemanticOperationView::SetProperty { .. } => None,
        SemanticOperationView::InsertKeyed { key, .. } => Some(key),
        SemanticOperationView::MoveKeyed { key, .. } => Some(key),
        SemanticOperationView::UpdateKeyed { key, .. } => Some(key),
        SemanticOperationView::RemoveKeyed { key, .. } => Some(key),
    }
}

/// A keyed operation with another key; a property assignment has none.
pub open spec fn keyed_as(operation: SemanticOperationView, key: u64) -> Option<SemanticOperationView> {
    match operation {
        SemanticOperationView::SetProperty { .. } => None,
        SemanticOperationView::InsertKeyed { fragment, final_index, .. } => Some(
            SemanticOperationView::InsertKeyed { fragment, key, final_index },
        ),
        SemanticOperationView::MoveKeyed { fragment, final_index, .. } => Some(
            SemanticOperationView::MoveKeyed { fragment, key, final_index },
        ),
        SemanticOperationView::UpdateKeyed { fragment, property, value, .. } => Some(
            SemanticOperationView::UpdateKeyed { fragment, key, property, value },
        ),
        SemanticOperationView::RemoveKeyed { fragment, .. } => Some(
            SemanticOperationView::RemoveKeyed { fragment, key },
        ),
    }
}

/// Rekeying changes the key of a keyed operation and nothing else: the new
/// operation has the new key, and rekeying it with the old key gives back
/// the operation; a property assignment cannot be rekeyed.
pub proof fn lemma_keyed_as_changes_only_the_key(operation: SemanticOperationView, key: u64)
    ensures
        keyed_as(operation, key) is Some <==> operation_key(operation) is Some,
        keyed_as(operation, key) matches Some(rekeyed) ==> {
            &&& operation_key(rekeyed) == Some(key)
            &&& keyed_as(rekeyed, operation_key(operation)->Some_0) == Some(operation)
        },
{
}

/// Replaces the key of a keyed operation.
pub fn operation_with_key_v1(operation: &SemanticOperationV1, key: u64) -> (result: Option<
    SemanticOperationV1,
>)
    ensures
        match result {
            Some(replacement) => keyed_as(operation@, key) == Some(replacement@),
            None => keyed_as(operation@, key) is None,
        },
{
    match operation {
        SemanticOperationV1::SetProperty { .. } => None,
        SemanticOperationV1::InsertKeyed { fragment, final_index, .. } => Some(
            SemanticOperationV1::InsertKeyed {
                fragment: fragment.clone(),
                key,
                final_index: *final_index,
            },
        ),
        SemanticOperationV1::MoveKeyed { fragment, final_index, .. } => Some(
            SemanticOperationV1::MoveKeyed {
                fragment: fragment.clone(),
                key,
                final_index: *final_index,
            },
        ),
        SemanticOperationV1::UpdateKeyed { fragment, property, value, .. } => Some(
            SemanticOperationV1::UpdateKeyed {
                fragment: fragment.clone(),
                key,
                property: *property,
                value: *value,
            },
        ),
        SemanticOperationV1::RemoveKeyed { fragment, .. } => Some(
            SemanticOperationV1::RemoveKeyed { fragment: fragment.clone(), key },
        ),
    }
}

/// The scalar value an operation assigns, if it assigns one.
pub open spec fn operation_scalar(operation: SemanticOperationView) -> Option<i32> {
    match operation {
        SemanticOperationView::SetProperty { value, .. } => match value {
            PropertyValue::ScalarI32(scalar) => Some(scalar),
            _ => None,
        },
        SemanticOperationView::UpdateKeyed { value, .. } => match value {
            PropertyValue::ScalarI32(scalar) => Some(scalar),
            _ => None,
        },
        _ => None,
    }
}

/// A property-assigning operation with another scalar value.
pub open spec fn scalar_as(operation: SemanticOperationView, scalar: i32) -> Option<
    SemanticOperationView,
> {
    match operation {
        SemanticOperationView::SetProperty { node, property, .. } => Some(
            SemanticOperationView::SetProperty {
                node,
                property,
                value: PropertyValue::ScalarI32(scalar),
            },
        ),
        SemanticOperationView::UpdateKeyed { fragment, key, property, .. } => Some(
            SemanticOperationView::UpdateKeyed {
                fragment,
                key,
                property,
                value: PropertyValue::ScalarI32(scalar),
            },
        ),
        _ => None,
    }
}

/// Replacing a scalar changes the assigned value and nothing else: the new
/// operation assigns the new scalar, and replacing it again with the old
/// scalar gives back the operation; only property assignments take one.
pub proof fn lemma_scalar_as_changes_only_the_value(operation: SemanticOperationView, scalar: i32)
    ensures
        operation_scalar(operation) is Some ==> scalar_as(operation, scalar) is Some,
        scalar_as(operation, scalar) matches Some(replaced) ==> {
            &&& operation_scalar(replaced) == Some(scalar)
            &&& operation_scalar(operation) matches Some(previous) ==> scalar_as(
                replaced,
                previous,
            ) == Some(operation)
        },
{
}

/// Replaces the scalar value a property-assigning operation assigns.
pub fn operation_with_scalar_v1(operation: &SemanticOperationV1, scalar: i32) -> (result: Option<
    SemanticOperationV1,
>)
    ensures
        match result {
            Some(replacement) => scalar_as(operation@, scalar) == Some(replacement@),
            None => scalar_as(operation@, scalar) is None,
        },
{
    match operation {
        SemanticOperationV1::SetProperty { node, property, .. } => Some(
            SemanticOperationV1::SetProperty {
                node: node.clone(),
                property: *property,
                value: PropertyValue::ScalarI32(scalar),
            },
        ),
        SemanticOperationV1::UpdateKeyed { fragment, key, property, .. } => Some(
            SemanticOperationV1::UpdateKeyed {
                fragment: fragment.clone(),
                key: *key,
                property: *property,
                value: PropertyValue::ScalarI32(scalar),
            },
        ),
        _ => None,
    }
}

/// Evaluates one candidate against the budget: a candidate that is not
/// strictly smaller is passed over without an evaluation; otherwise one
/// evaluation is spent, and the budget's end or the oracle's verdict decides.
pub fn evaluate_candidate_v1<L: Fn(&GeneratedCaseV1) -> Option<usize>, R: Fn(&GeneratedCaseV1) -> bool>(
    current: &GeneratedCaseV1,
    candidate: GeneratedCaseV1,
    oracle: &ReductionOracleV1<L, R>,
    budget: &mut SearchBudgetV1,
) -> (result: Result<Option<SearchOutcomeV1>, ReducerError>)
    requires
        oracle.ready(),
        old(budget).used < old(budget).max,
        old(budget).current_metric.operations == total_operations(current@.transactions),
        shrinks(current@, candidate@),
    ensures
        budget_follows(*old(budget), *final(budget)),
        match result {
            Ok(None) => final(budget).used < final(budget).max,
            Ok(Some(outcome)) => outcome_holds(outcome, current@, old(budget).used, *final(budget))
                && !(outcome is FixedPoint),
            Err(error) => {
                &&& *final(budget) == *old(budget)
                &&& exists|canonical_len: Option<usize>|
                    #[trigger] expected_metric(candidate@, canonical_len) == Err::<
                        ReductionMetricV1,
                        ReducerErrorKind,
                    >(error.spec_kind())
            },
        },
        exists|answer: OracleAnswer|
            oracle.fits()(candidate@, answer, *old(budget)) && #[trigger] evaluation(
                candidate@,
                answer,
                *old(budget),
            ) == (pass_step(result), *final(budget)),
{
    let ghost before = *budget;
    let ghost case_view = candidate@;
    let measured = measure_case_v1(oracle, &candidate);
    let ghost canonical_len = choose|canonical_len: Option<usize>|
        oracle.gives_len(case_view, canonical_len) && match #[trigger] expected_metric(
            case_view,
            canonical_len,
        ) {
            Ok(metric) => measured == Ok::<ReductionMetricV1, ReducerError>(metric),
            Err(kind) => measured is Err && measured->Err_0.spec_kind() == kind,
        };
    let metric = match measured {
        Ok(metric) => metric,
        Err(error) => {
            proof {
                assert(evaluation(case_view, (canonical_len, false), before) == (
                    SearchStep::Failed(error.spec_kind()),
                    before,
                ));
                assert(oracle.fits()(case_view, (canonical_len, false), before));
            }
            return Err(error);
        },
    };
    if !is_smaller(metric, budget.current_metric) {
        proof {
            assert(evaluation(case_view, (canonical_len, false), before) == (
                SearchStep::Continue,
                before,
            ));
            assert(oracle.fits()(case_view, (canonical_len, false), before));
        }
        return Ok(None);
    }
    budget.used = budget.used + 1;
    let accepted = oracle.reproduces_target(&candidate);
    proof {
        assert(*budget == (SearchBudgetV1 { used: (before.used + 1) as u32, ..before }));
        assert(oracle.fits()(case_view, (canonical_len, accepted), before));
    }
    if budget.used == budget.max {
        if accepted {
            proof {
                assert(evaluation(case_view, (canonical_len, accepted), before) == (
                    SearchStep::Exhausted(Some(case_view)),
                    *budget,
                ));
            }
            Ok(Some(SearchOutcomeV1::Exhausted(Some(candidate))))
        } else {
            proof {
                assert(evaluation(case_view, (canonical_len, accepted), before) == (
                    SearchStep::Exhausted(None),
                    *budget,
                ));
            }
            Ok(Some(SearchOutcomeV1::Exhausted(None)))
        }
    } else if accepted {
        proof {
            assert(evaluation(case_view, (canonical_len, accepted), before) == (
                SearchStep::Accepted(case_view),
                *budget,
            ));
        }
        Ok(Some(SearchOutcomeV1::Accepted(candidate)))
    } else {
        proof {
            assert(evaluation(case_view, (canonical_len, accepted), before) == (
                SearchStep::Continue,
                *budget,
            ));
        }
        Ok(None)
    }
}

/// What a search pass guarantees: a continuing budget when nothing was
/// found, else a finished outcome.
pub open spec fn search_holds(
    result: Result<Option<SearchOutcomeV1>, ReducerError>,
    current: CaseView,
    before: SearchBudgetV1,
    after: SearchBudgetV1,
) -> bool {
    &&& budget_follows(before, after)
    &&& match result {
        Ok(None) => after.used < after.max,
        Ok(Some(outcome)) => outcome_holds(outcome, current, before.used, after),
        Err(error) => is_metric_failure(error.spec_kind()),
    }
}

/// Tries every removal of a block of transactions, longest blocks first.
fn remove_transaction_blocks_v1<L: Fn(&GeneratedCaseV1) -> Option<usize>, R: Fn(&GeneratedCaseV1) -> bool>(
    current: &GeneratedCaseV1,
    oracle: &ReductionOracleV1<L, R>,
    budget: &mut SearchBudgetV1,
) -> (result: Result<Option<SearchOutcomeV1>, ReducerError>)
    requires
        oracle.ready(),
        old(budget).used < old(budget).max,
        old(budget).current_metric.operations == total_operations(current@.transactions),
    ensures
        search_holds(result, current@, *old(budget), *final(budget)),
        searched_by(block_candidates(current@), *old(budget), *final(budget), pass_step(result), oracle.fits()),
{
    let ghost start_budget = *budget;
    let ghost cell = block_cell(current@);
    let ghost width = block_width();
    let ghost full = block_candidates(current@);
    let ghost mut done: Seq<CaseView> = Seq::empty();
    let ghost mut answers: Seq<OracleAnswer> = Seq::empty();
    let count = current.transactions().len();
    let mut block_len: usize = count;
    while block_len >= 1
        invariant
            oracle.ready(),
            block_len <= count,
            count == current@.transactions.len(),
            budget.used < budget.max,
            budget_follows(start_budget, *budget),
            start_budget == *old(budget),
            budget.current_metric.operations == total_operations(current@.transactions),
            cell == block_cell(current@),
            width == block_width(),
            full == block_candidates(current@),
            answers.len() == done.len(),
            search_run(done, answers, start_budget, oracle.fits()) == (SearchStep::Continue, *budget),
            done == rows_upto(cell, width, count - block_len),
        decreases block_len,
    {
        let ghost row = (count - block_len) as int;
        let mut start: usize = 0;
        while start <= count - block_len
            invariant
                oracle.ready(),
                1 <= block_len <= count,
                count == current@.transactions.len(),
                row == count - block_len,
                budget.used < budget.max,
                budget_follows(start_budget, *budget),
                start_budget == *old(budget),
                budget.current_metric.operations == total_operations(current@.transactions),
                cell == block_cell(current@),
                width == block_width(),
                full == block_candidates(current@),
                answers.len() == done.len(),
                search_run(done, answers, start_budget, oracle.fits()) == (SearchStep::Continue, *budget),
                start <= row + 1,
                done == rows_upto(cell, width, row) + cells_upto(cell, row, start as int),
            decreases count - block_len + 1 - start,
        {
            let candidate = remove_transaction_block_v1(current, start, block_len);
            let ghost before = *budget;
            let ghost case_view = candidate@;
            proof {
                assert(cell(row, start as int) =~= seq![case_view]);
                lemma_cell_prefix(cell, width, row, start as int, cell(row, start as int), count as int);
                assert(done.push(case_view) =~= rows_upto(cell, width, row) + cells_upto(
                    cell,
                    row,
                    start as int,
                ) + cell(row, start as int));
                assert(cells_upto(cell, row, start + 1) == cells_upto(cell, row, start as int)
                    + cell(row, start as int));
            }
            let visited = evaluate_candidate_v1(current, candidate, oracle, budget);
            let ghost answer = choose|answer: OracleAnswer|
                oracle.fits()(case_view, answer, before) && #[trigger] evaluation(case_view, answer, before) == (pass_step(visited), *budget);
            proof {
                lemma_search_step(full, done, case_view, answers, answer, start_budget, before, oracle.fits());
            }
            match visited {
                Ok(None) => {
                    proof {
                        done = done.push(case_view);
                        answers = answers.push(answer);
                    }
                },
                other => return other,
            }
            start = start + 1;
        }
        proof {
            assert(rows_upto(cell, width, row + 1) == rows_upto(cell, width, row) + cells_upto(
                cell,
                row,
                width(row),
            ));
        }
        block_len = block_len - 1;
    }
    proof {
        lemma_search_done(full, done, answers, start_budget, *budget, oracle.fits());
    }
    Ok(None)
}

/// Tries every removal of one operation, in case order.
fn remove_operations_v1<L: Fn(&GeneratedCaseV1) -> Option<usize>, R: Fn(&GeneratedCaseV1) -> bool>(
    current: &GeneratedCaseV1,
    oracle: &ReductionOracleV1<L, R>,
    budget: &mut SearchBudgetV1,
) -> (result: Result<Option<SearchOutcomeV1>, ReducerError>)
    requires
        oracle.ready(),
        old(budget).used < old(budget).max,
        old(budget).current_metric.operations == total_operations(current@.transactions),
    ensures
        search_holds(result, current@, *old(budget), *final(budget)),
        searched_by(removal_candidates(current@), *old(budget), *final(budget), pass_step(result), oracle.fits()),
{
    let ghost start_budget = *budget;
    let ghost cell = removal_cell(current@);
    let ghost width = operation_width(current@);
    let ghost full = removal_candidates(current@);
    let ghost mut done: Seq<CaseView> = Seq::empty();
    let ghost mut answers: Seq<OracleAnswer> = Seq::empty();
    let transactions = current.transactions();
    let mut t: usize = 0;
    while t < transactions.len()
        invariant
            oracle.ready(),
            t <= transactions@.len(),
            transactions@.len() == current@.transactions.len(),
            transactions_view(transactions@) == current@.transactions,
            budget.used < budget.max,
            budget_follows(start_budget, *budget),
            start_budget == *old(budget),
            budget.current_metric.operations == total_operations(current@.transactions),
            cell == removal_cell(current@),
            width == operation_width(current@),
            full == removal_candidates(current@),
            answers.len() == done.len(),
            search_run(done, answers, start_budget, oracle.fits()) == (SearchStep::Continue, *budget),
            done == rows_upto(cell, width, t as int),
        decreases transactions@.len() - t,
    {
        let count = transactions[t].operations().len();
        proof {
            assert(current@.transactions[t as int] == transactions@[t as int]@);
        }
        let mut o: usize = 0;
        while o < count
            invariant
                oracle.ready(),
                t < transactions@.len(),
                transactions@.len() == current@.transactions.len(),
                count == current@.transactions[t as int].1.len(),
                budget.used < budget.max,
                budget_follows(start_budget, *budget),
                start_budget == *old(budget),
                budget.current_metric.operations == total_operations(current@.transactions),
                cell == removal_cell(current@),
                width == operation_width(current@),
                full == removal_candidates(current@),
                answers.len() == done.len(),
                search_run(done, answers, start_budget, oracle.fits()) == (SearchStep::Continue, *budget),
                o <= count,
                done == rows_upto(cell, width, t as int) + cells_upto(cell, t as int, o as int),
            decreases count - o,
        {
            let candidate = remove_operation_v1(current, t, o);
            let ghost before = *budget;
            let ghost case_view = candidate@;
            proof {
                assert(cell(t as int, o as int) =~= seq![case_view]);
                lemma_cell_prefix(
                    cell,
                    width,
                    t as int,
                    o as int,
                    cell(t as int, o as int),
                    transactions@.len() as int,
                );
                assert(done.push(case_view) =~= rows_upto(cell, width, t as int) + cells_upto(
                    cell,
                    t as int,
                    o as int,
                ) + cell(t as int, o as int));
                assert(cells_upto(cell, t as int, o + 1) == cells_upto(cell, t as int, o as int)
                    + cell(t as int, o as int));
            }
            let visited = evaluate_candidate_v1(current, candidate, oracle, budget);
            let ghost answer = choose|answer: OracleAnswer|
                oracle.fits()(case_view, answer, before) && #[trigger] evaluation(case_view, answer, before) == (pass_step(visited), *budget);
            proof {
                lemma_search_step(full, done, case_view, answers, answer, start_budget, before, oracle.fits());
            }
            match visited {
                Ok(None) => {
                    proof {
                        done = done.push(case_view);
                        answers = answers.push(answer);
                    }
                },
                other => return other,
            }
            o = o + 1;
        }
        proof {
            assert(rows_upto(cell, width, t + 1) == rows_upto(cell, width, t as int) + cells_upto(
                cell,
                t as int,
                width(t as int),
            ));
        }
        t = t + 1;
    }
    proof {
        lemma_search_done(full, done, answers, start_budget, *budget, oracle.fits());
    }
    Ok(None)
}

/// Tries every smaller final index of each insertion and move.
fn reduce_final_indices_v1<L: Fn(&GeneratedCaseV1) -> Option<usize>, R: Fn(&GeneratedCaseV1) -> bool>(
    current: &GeneratedCaseV1,
    oracle: &ReductionOracleV1<L, R>,
    budget: &mut SearchBudgetV1,
) -> (result: Result<Option<SearchOutcomeV1>, ReducerError>)
    requires
        oracle.ready(),
        old(budget).used < old(budget).max,
        old(budget).current_metric.operations == total_operations(current@.transactions),
    ensures
        search_holds(result, current@, *old(budget), *final(budget)),
        searched_by(index_candidates(current@), *old(budget), *final(budget), pass_step(result), oracle.fits()),
{
    let ghost start_budget = *budget;
    let ghost cell = index_cell(current@);
    let ghost width = operation_width(current@);
    let ghost full = index_candidates(current@);
    let ghost mut done: Seq<CaseView> = Seq::empty();
    let ghost mut answers: Seq<OracleAnswer> = Seq::empty();
    let transactions = current.transactions();
    let mut t: usize = 0;
    while t < transactions.len()
        invariant
            oracle.ready(),
            t <= transactions@.len(),
            transactions@.len() == current@.transactions.len(),
            transactions_view(transactions@) == current@.transactions,
            budget.used < budget.max,
            budget_follows(start_budget, *budget),
            start_budget == *old(budget),
            budget.current_metric.operations == total_operations(current@.transactions),
            cell == index_cell(current@),
            width == operation_width(current@),
            full == index_candidates(current@),
            answers.len() == done.len(),
            search_run(done, answers, start_budget, oracle.fits()) == (SearchStep::Continue, *budget),
            done == rows_upto(cell, width, t as int),
        decreases transactions@.len() - t,
    {
        let operations = transactions[t].operations();
        proof {
            assert(current@.transactions[t as int] == transactions@[t as int]@);
        }
        let mut o: usize = 0;
        while o < operations.len()
            invariant
                oracle.ready(),
                t < transactions@.len(),
                transactions@.len() == current@.transactions.len(),
                operations@.len() == current@.transactions[t as int].1.len(),
                operations_view(operations@) == current@.transactions[t as int].1,
                budget.used < budget.max,
                budget_follows(start_budget, *budget),
                start_budget == *old(budget),
                budget.current_metric.operations == total_operations(current@.transactions),
                cell == index_cell(current@),
                width == operation_width(current@),
                full == index_candidates(current@),
                answers.len() == done.len(),
                search_run(done, answers, start_budget, oracle.fits()) == (SearchStep::Continue, *budget),
                o <= operations@.len(),
                done == rows_upto(cell, width, t as int) + cells_upto(cell, t as int, o as int),
            decreases operations@.len() - o,
        {
            let operation = operations[o].operation();
            let ghost op_view = current@.transactions[t as int].1[o as int].1;
            proof {
                assert(operations_view(operations@)[o as int] == operations@[o as int]@);
                assert(op_view == operation@);
            }
            let (fragment, key, current_index, is_insert) = match operation {
                SemanticOperationV1::InsertKeyed { fragment, key, final_index } => (
                    fragment,
                    *key,
                    *final_index,
                    true,
                ),
                SemanticOperationV1::MoveKeyed { fragment, key, final_index } => (
                    fragment,
                    *key,
                    *final_index,
                    false,
                ),
                _ => (&crate::semantic::FragmentPathV1::new(crate::semantic::NodePathV1::root(), 0), 0, 0, false),
            };
            proof {
                if is_insert {
                    assert(op_view == (SemanticOperationView::InsertKeyed {
                        fragment: fragment@,
                        key,
                        final_index: current_index,
                    }));
                } else if current_index > 0 {
                    assert(op_view == (SemanticOperationView::MoveKeyed {
                        fragment: fragment@,
                        key,
                        final_index: current_index,
                    }));
                }
                assert(cell(t as int, o as int).len() == current_index);
            }
            let mut final_index: u64 = 0;
            while final_index < current_index
                invariant
                    oracle.ready(),
                    t < transactions@.len(),
                    transactions@.len() == current@.transactions.len(),
                    o < operations@.len(),
                    operations@.len() == current@.transactions[t as int].1.len(),
                    budget.used < budget.max,
                    budget_follows(start_budget, *budget),
                    start_budget == *old(budget),
                    budget.current_metric.operations == total_operations(current@.transactions),
                    cell == index_cell(current@),
                    width == operation_width(current@),
                    full == index_candidates(current@),
                    answers.len() == done.len(),
                    search_run(done, answers, start_budget, oracle.fits()) == (SearchStep::Continue, *budget),
                    op_view == current@.transactions[t as int].1[o as int].1,
                    is_insert ==> op_view == (SemanticOperationView::InsertKeyed {
                        fragment: fragment@,
                        key,
                        final_index: current_index,
                    }),
                    !is_insert && current_index > 0 ==> op_view == (SemanticOperationView::MoveKeyed {
                        fragment: fragment@,
                        key,
                        final_index: current_index,
                    }),
                    cell(t as int, o as int).len() == current_index,
                    final_index <= current_index,
                    done == rows_upto(cell, width, t as int) + cells_upto(cell, t as int, o as int)
                        + cell(t as int, o as int).take(final_index as int),
                decreases current_index - final_index,
            {
                let replacement = if is_insert {
                    SemanticOperationV1::InsertKeyed { fragment: fragment.clone(), key, final_index }
                } else {
                    SemanticOperationV1::MoveKeyed { fragment: fragment.clone(), key, final_index }
                };
                let candidate = replace_operation_v1(current, t, o, replacement);
                let ghost before = *budget;
                let ghost case_view = candidate@;
                proof {
                    let here = cell(t as int, o as int);
                    assert(here[final_index as int] == case_view);
                    assert(here.take(final_index as int).push(case_view) =~= here.take(
                        final_index + 1,
                    ));
                    lemma_cell_prefix(
                        cell,
                        width,
                        t as int,
                        o as int,
                        here.take(final_index + 1),
                        transactions@.len() as int,
                    );
                    assert(done.push(case_view) =~= rows_upto(cell, width, t as int) + cells_upto(
                        cell,
                        t as int,
                        o as int,
                    ) + here.take(final_index + 1));
                }
                let visited = evaluate_candidate_v1(current, candidate, oracle, budget);
                let ghost answer = choose|answer: OracleAnswer|
                    oracle.fits()(case_view, answer, before) && #[trigger] evaluation(case_view, answer, before) == (pass_step(visited), *budget);
                proof {
                    lemma_search_step(full, done, case_view, answers, answer, start_budget, before, oracle.fits());
                }
                match visited {
                    Ok(None) => {
                        proof {
                            done = done.push(case_view);
                            answers = answers.push(answer);
                        }
                    },
                    other => return other,
                }
                final_index = final_index + 1;
            }
            proof {
                let here = cell(t as int, o as int);
                assert(here.take(current_index as int) =~= here);
                assert(cells_upto(cell, t as int, o + 1) == cells_upto(cell, t as int, o as int)
                    + here);
            }
            o = o + 1;
        }
        proof {
            assert(rows_upto(cell, width, t + 1) == rows_upto(cell, width, t as int) + cells_upto(
                cell,
                t as int,
                width(t as int),
            ));
        }
        t = t + 1;
    }
    proof {
        lemma_search_done(full, done, answers, start_budget, *budget, oracle.fits());
    }
    Ok(None)
}

/// Tries every smaller explicit key of each keyed operation.
fn reduce_explicit_keys_v1<L: Fn(&GeneratedCaseV1) -> Option<usize>, R: Fn(&GeneratedCaseV1) -> bool>(
    current: &GeneratedCaseV1,
    oracle: &ReductionOracleV1<L, R>,
    budget: &mut SearchBudgetV1,
) -> (result: Result<Option<SearchOutcomeV1>, ReducerError>)
    requires
        oracle.ready(),
        old(budget).used < old(budget).max,
        old(budget).current_metric.operations == total_operations(current@.transactions),
    ensures
        search_holds(result, current@, *old(budget), *final(budget)),
        searched_by(key_candidates(current@), *old(budget), *final(budget), pass_step(result), oracle.fits()),
{
    let ghost start_budget = *budget;
    let ghost cell = key_cell(current@);
    let ghost width = operation_width(current@);
    let ghost full = key_candidates(current@);
    let ghost mut done: Seq<CaseView> = Seq::empty();
    let ghost mut answers: Seq<OracleAnswer> = Seq::empty();
    let transactions = current.transactions();
    let mut t: usize = 0;
    while t < transactions.len()
        invariant
            oracle.ready(),
            t <= transactions@.len(),
            transactions@.len() == current@.transactions.len(),
            transactions_view(transactions@) == current@.transactions,
            budget.used < budget.max,
            budget_follows(start_budget, *budget),
            start_budget == *old(budget),
            budget.current_metric.operations == total_operations(current@.transactions),
            cell == key_cell(current@),
            width == operation_width(current@),
            full == key_candidates(current@),
            answers.len() == done.len(),
            search_run(done, answers, start_budget, oracle.fits()) == (SearchStep::Continue, *budget),
            done == rows_upto(cell, width, t as int),
        decreases transactions@.len() - t,
    {
        let operations = transactions[t].operations();
        proof {
            assert(current@.transactions[t as int] == transactions@[t as int]@);
        }
        let mut o: usize = 0;
        while o < operations.len()
            invariant
                oracle.ready(),
                t < transactions@.len(),
                transactions@.len() == current@.transactions.len(),
                operations@.len() == current@.transactions[t as int].1.len(),
                operations_view(operations@) == current@.transactions[t as int].1,
                budget.used < budget.max,
                budget_follows(start_budget, *budget),
                start_budget == *old(budget),
                budget.current_metric.operations == total_operations(current@.transactions),
                cell == key_cell(current@),
                width == operation_width(current@),
                full == key_candidates(current@),
                answers.len() == done.len(),
                search_run(done, answers, start_budget, oracle.fits()) == (SearchStep::Continue, *budget),
                o <= operations@.len(),
                done == rows_upto(cell, width, t as int) + cells_upto(cell, t as int, o as int),
            decreases operations@.len() - o,
        {
            let operation = operations[o].operation();
            let ghost op_view = current@.transactions[t as int].1[o as int].1;
            proof {
                assert(operations_view(operations@)[o as int] == operations@[o as int]@);
                assert(op_view == operation@);
            }
            let current_key: u64 = match operation {
                SemanticOperationV1::SetProperty { .. } => 0,
                SemanticOperationV1::InsertKeyed { key, .. } => *key,
                SemanticOperationV1::MoveKeyed { key, .. } => *key,
                SemanticOperationV1::UpdateKeyed { key, .. } => *key,
                SemanticOperationV1::RemoveKeyed { key, .. } => *key,
            };
            proof {
                assert(cell(t as int, o as int).len() == current_key);
            }
            let mut key: u64 = 0;
            while key < current_key
                invariant
                    oracle.ready(),
                    t < transactions@.len(),
                    transactions@.len() == current@.transactions.len(),
                    o < operations@.len(),
                    operations@.len() == current@.transactions[t as int].1.len(),
                    budget.used < budget.max,
                    budget_follows(start_budget, *budget),
                    start_budget == *old(budget),
                    budget.current_metric.operations == total_operations(current@.transactions),
                    cell == key_cell(current@),
                    width == operation_width(current@),
                    full == key_candidates(current@),
                    answers.len() == done.len(),
                    search_run(done, answers, start_budget, oracle.fits()) == (SearchStep::Continue, *budget),
                    op_view == current@.transactions[t as int].1[o as int].1,
                    op_view == operation@,
                    current_key > 0 ==> operation_key(op_view) == Some(current_key),
                    cell(t as int, o as int).len() == current_key,
                    key <= current_key,
                    done == rows_upto(cell, width, t as int) + cells_upto(cell, t as int, o as int)
                        + cell(t as int, o as int).take(key as int),
                decreases current_key - key,
            {
                match operation_with_key_v1(operation, key) {
                    Some(replacement) => {
                        let candidate = replace_operation_v1(current, t, o, replacement);
                        let ghost before = *budget;
                        let ghost case_view = candidate@;
                        proof {
                            let here = cell(t as int, o as int);
                            assert(here[key as int] == case_view);
                            assert(here.take(key as int).push(case_view) =~= here.take(key + 1));
                            lemma_cell_prefix(
                                cell,
                                width,
                                t as int,
                                o as int,
                                here.take(key + 1),
                                transactions@.len() as int,
                            );
                            assert(done.push(case_view) =~= rows_upto(cell, width, t as int)
                                + cells_upto(cell, t as int, o as int) + here.take(key + 1));
                        }
                        let visited = evaluate_candidate_v1(current, candidate, oracle, budget);
                        let ghost answer = choose|answer: OracleAnswer|
                            oracle.fits()(case_view, answer, before) && #[trigger] evaluation(case_view, answer, before) == (pass_step(visited), *budget);
                        proof {
                            lemma_search_step(full, done, case_view, answers, answer, start_budget, before, oracle.fits());
                        }
                        match visited {
                            Ok(None) => {
                                proof {
                                    done = done.push(case_view);
                                    answers = answers.push(answer);
                                }
                            },
                            other => return other,
                        }
                    },
                    None => {},
                }
                key = key + 1;
            }
            proof {
                let here = cell(t as int, o as int);
                assert(here.take(current_key as int) =~= here);
                assert(cells_upto(cell, t as int, o + 1) == cells_upto(cell, t as int, o as int)
                    + here);
            }
            o = o + 1;
        }
        proof {
            assert(rows_upto(cell, width, t + 1) == rows_upto(cell, width, t as int) + cells_upto(
                cell,
                t as int,
                width(t as int),
            ));
        }
        t = t + 1;
    }
    proof {
        lemma_search_done(full, done, answers, start_budget, *budget, oracle.fits());
    }
    Ok(None)
}

/// Tries the scalar values zero, one and minus one for each scalar assignment.
fn reduce_scalar_values_v1<L: Fn(&GeneratedCaseV1) -> Option<usize>, R: Fn(&GeneratedCaseV1) -> bool>(
    current: &GeneratedCaseV1,
    oracle: &ReductionOracleV1<L, R>,
    budget: &mut SearchBudgetV1,
) -> (result: Result<Option<SearchOutcomeV1>, ReducerError>)
    requires
        oracle.ready(),
        old(budget).used < old(budget).max,
        old(budget).current_metric.operations == total_operations(current@.transactions),
    ensures
        search_holds(result, current@, *old(budget), *final(budget)),
        searched_by(scalar_candidates(current@), *old(budget), *final(budget), pass_step(result), oracle.fits()),
{
    let ghost start_budget = *budget;
    let ghost cell = scalar_cell(current@);
    let ghost width = operation_width(current@);
    let ghost full = scalar_candidates(current@);
    let ghost mut done: Seq<CaseView> = Seq::empty();
    let ghost mut answers: Seq<OracleAnswer> = Seq::empty();
    let transactions = current.transactions();
    let mut t: usize = 0;
    while t < transactions.len()
        invariant
            oracle.ready(),
            t <= transactions@.len(),
            transactions@.len() == current@.transactions.len(),
            transactions_view(transactions@) == current@.transactions,
            budget.used < budget.max,
            budget_follows(start_budget, *budget),
            start_budget == *old(budget),
            budget.current_metric.operations == total_operations(current@.transactions),
            cell == scalar_cell(current@),
            width == operation_width(current@),
            full == scalar_candidates(current@),
            answers.len() == done.len(),
            search_run(done, answers, start_budget, oracle.fits()) == (SearchStep::Continue, *budget),
            done == rows_upto(cell, width, t as int),
        decreases transactions@.len() - t,
    {
        let operations = transactions[t].operations();
        proof {
            assert(current@.transactions[t as int] == transactions@[t as int]@);
        }
        let mut o: usize = 0;
        while o < operations.len()
            invariant
                oracle.ready(),
                t < transactions@.len(),
                transactions@.len() == current@.transactions.len(),
                operations@.len() == current@.transactions[t as int].1.len(),
                operations_view(operations@) == current@.transactions[t as int].1,
                budget.used < budget.max,
                budget_follows(start_budget, *budget),
                start_budget == *old(budget),
                budget.current_metric.operations == total_operations(current@.transactions),
                cell == scalar_cell(current@),
                width == operation_width(current@),
                full == scalar_candidates(current@),
                answers.len() == done.len(),
                search_run(done, answers, start_budget, oracle.fits()) == (SearchStep::Continue, *budget),
                o <= operations@.len(),
                done == rows_upto(cell, width, t as int) + cells_upto(cell, t as int, o as int),
            decreases operations@.len() - o,
        {
            let operation = operations[o].operation();
            let ghost op_view = current@.transactions[t as int].1[o as int].1;
            proof {
                assert(operations_view(operations@)[o as int] == operations@[o as int]@);
                assert(op_view == operation@);
            }
            let current_value: Option<i32> = match operation {
                SemanticOperationV1::SetProperty { value: PropertyValue::ScalarI32(value), .. } => Some(*value),
                SemanticOperationV1::UpdateKeyed { value: PropertyValue::ScalarI32(value), .. } => Some(*value),
                _ => None,
            };
            proof {
                assert(operation_scalar(op_view) == current_value);
            }
            match current_value {
                Some(current_value) => {
                    let mut i: usize = 0;
                    while i < 3
                        invariant
                            oracle.ready(),
                            t < transactions@.len(),
                            transactions@.len() == current@.transactions.len(),
                            o < operations@.len(),
                            operations@.len() == current@.transactions[t as int].1.len(),
                            budget.used < budget.max,
                            budget_follows(start_budget, *budget),
                            start_budget == *old(budget),
                            budget.current_metric.operations == total_operations(
                                current@.transactions,
                            ),
                            cell == scalar_cell(current@),
                            width == operation_width(current@),
                            full == scalar_candidates(current@),
                            answers.len() == done.len(),
                            search_run(done, answers, start_budget, oracle.fits()) == (
                                SearchStep::Continue,
                                *budget,
                            ),
                            op_view == current@.transactions[t as int].1[o as int].1,
                            op_view == operation@,
                            operation_scalar(op_view) == Some(current_value),
                            i <= 3,
                            done == rows_upto(cell, width, t as int) + cells_upto(
                                cell,
                                t as int,
                                o as int,
                            ) + scalar_tries(current@, t as int, o as int, current_value, i as int),
                        decreases 3 - i,
                    {
                        let value: i32 = if i == 0 {
                            0
                        } else if i == 1 {
                            1
                        } else {
                            -1
                        };
                        proof {
                            assert(value == tried_scalar(i as int));
                        }
                        if value != current_value {
                            match operation_with_scalar_v1(operation, value) {
                                Some(replacement) => {
                                    let candidate = replace_operation_v1(current, t, o, replacement);
                                    let ghost before = *budget;
                                    let ghost case_view = candidate@;
                                    proof {
                                        let tries = scalar_tries(
                                            current@,
                                            t as int,
                                            o as int,
                                            current_value,
                                            i + 1,
                                        );
                                        assert(case_view == scalar_candidate(
                                            current@,
                                            t as int,
                                            o as int,
                                            value,
                                        ));
                                        assert(tries == scalar_tries(
                                            current@,
                                            t as int,
                                            o as int,
                                            current_value,
                                            i as int,
                                        ).push(case_view));
                                        lemma_scalar_prefix(
                                            current@,
                                            t as int,
                                            o as int,
                                            current_value,
                                            i + 1,
                                        );
                                        lemma_cell_prefix(
                                            cell,
                                            width,
                                            t as int,
                                            o as int,
                                            tries,
                                            transactions@.len() as int,
                                        );
                                        assert(done.push(case_view) =~= rows_upto(
                                            cell,
                                            width,
                                            t as int,
                                        ) + cells_upto(cell, t as int, o as int) + tries);
                                    }
                                    let visited = evaluate_candidate_v1(
                                        current,
                                        candidate,
                                        oracle,
                                        budget,
                                    );
                                    let ghost answer = choose|answer: OracleAnswer|
                                        oracle.fits()(case_view, answer, before) && #[trigger] evaluation(case_view, answer, before) == (pass_step(visited), *budget);
                                    proof {
                                        lemma_search_step(full, done, case_view, answers, answer, start_budget, before, oracle.fits());
                                    }
                                    match visited {
                                        Ok(None) => {
                                            proof {
                                                done = done.push(case_view);
                                                answers = answers.push(answer);
                                            }
                                        },
                                        other => return other,
                                    }
                                },
                                None => {},
                            }
                        }
                        i = i + 1;
                    }
                    proof {
                        assert(cells_upto(cell, t as int, o + 1) == cells_upto(
                            cell,
                            t as int,
                            o as int,
                        ) + cell(t as int, o as int));
                    }
                },
                None => {
                    proof {
                        assert(cell(t as int, o as int) =~= Seq::<CaseView>::empty());
                        assert(cells_upto(cell, t as int, o + 1) =~= cells_upto(
                            cell,
                            t as int,
                            o as int,
                        ) + cell(t as int, o as int));
                    }
                },
            }
            o = o + 1;
        }
        proof {
            assert(rows_upto(cell, width, t + 1) == rows_upto(cell, width, t as int) + cells_upto(
                cell,
                t as int,
                width(t as int),
            ));
        }
        t = t + 1;
    }
    proof {
        lemma_search_done(full, done, answers, start_budget, *budget, oracle.fits());
    }
    Ok(None)
}

/// Runs the transforms in their fixed order and stops at the first outcome.
pub fn search_candidates_v1<L: Fn(&GeneratedCaseV1) -> Option<usize>, R: Fn(&GeneratedCaseV1) -> bool>(
    current: &GeneratedCaseV1,
    oracle: &ReductionOracleV1<L, R>,
    budget: &mut SearchBudgetV1,
) -> (result: Result<SearchOutcomeV1, ReducerError>)
    requires
        oracle.ready(),
        old(budget).used < old(budget).max,
        old(budget).current_metric.operations == total_operations(current@.transactions),
    ensures
        budget_follows(*old(budget), *final(budget)),
        match result {
            Ok(outcome) => outcome_holds(outcome, current@, old(budget).used, *final(budget)),
            Err(error) => is_metric_failure(error.spec_kind()),
        },
        searched_by(reduction_candidates(current@), *old(budget), *final(budget), final_step(result), oracle.fits()),
{
    let ghost start = *budget;
    let ghost blocks = block_candidates(current@);
    let ghost removals = removal_candidates(current@);
    let ghost indices = index_candidates(current@);
    let ghost keys = key_candidates(current@);
    let ghost scalars = scalar_candidates(current@);
    let ghost full = reduction_candidates(current@);
    let ghost mut done: Seq<CaseView> = Seq::empty();
    let ghost mut answers: Seq<OracleAnswer> = Seq::empty();

    let ghost before = *budget;
    let pass = remove_transaction_blocks_v1(current, oracle, budget);
    let ghost next = lemma_search_pass(
        done,
        blocks,
        removals + indices + keys + scalars,
        answers,
        start,
        before,
        *budget,
        pass_step(pass),
        oracle.fits(),
    );
    proof {
        assert(done + blocks =~= blocks);
        assert(full =~= done + blocks + (removals + indices + keys + scalars));
    }
    match pass {
        Ok(None) => {
            proof {
                done = done + blocks;
                answers = next;
            }
        },
        Ok(Some(outcome)) => return Ok(outcome),
        Err(error) => return Err(error),
    }

    let ghost before = *budget;
    let pass = remove_operations_v1(current, oracle, budget);
    let ghost next = lemma_search_pass(
        done,
        removals,
        indices + keys + scalars,
        answers,
        start,
        before,
        *budget,
        pass_step(pass),
        oracle.fits(),
    );
    proof {
        assert(full =~= done + removals + (indices + keys + scalars));
    }
    match pass {
        Ok(None) => {
            proof {
                done = done + removals;
                answers = next;
            }
        },
        Ok(Some(outcome)) => return Ok(outcome),
        Err(error) => return Err(error),
    }

    let ghost before = *budget;
    let pass = reduce_final_indices_v1(current, oracle, budget);
    let ghost next = lemma_search_pass(
        done,
        indices,
        keys + scalars,
        answers,
        start,
        before,
        *budget,
        pass_step(pass),
        oracle.fits(),
    );
    proof {
        assert(full =~= done + indices + (keys + scalars));
    }
    match pass {
        Ok(None) => {
            proof {
                done = done + indices;
                answers = next;
            }
        },
        Ok(Some(outcome)) => return Ok(outcome),
        Err(error) => return Err(error),
    }

    let ghost before = *budget;
    let pass = reduce_explicit_keys_v1(current, oracle, budget);
    let ghost next = lemma_search_pass(
        done,
        keys,
        scalars,
        answers,
        start,
        before,
        *budget,
        pass_step(pass),
        oracle.fits(),
    );
    proof {
        assert(full =~= done + keys + scalars);
    }
    match pass {
        Ok(None) => {
            proof {
                done = done + keys;
                answers = next;
            }
        },
        Ok(Some(outcome)) => return Ok(outcome),
        Err(error) => return Err(error),
    }

    let ghost before = *budget;
    let pass = reduce_scalar_values_v1(current, oracle, budget);
    let ghost next = lemma_search_pass(
        done,
        scalars,
        Seq::empty(),
        answers,
        start,
        before,
        *budget,
        pass_step(pass),
        oracle.fits(),
    );
    proof {
        assert(full =~= done + scalars + Seq::<CaseView>::empty());
    }
    match pass {
        Ok(None) => {
            proof {
                done = done + scalars;
                answers = next;
                assert(done =~= full);
                lemma_search_done(full, done, answers, start, *budget, oracle.fits());
            }
        },
        Ok(Some(outcome)) => return Ok(outcome),
        Err(error) => return Err(error),
    }
    Ok(SearchOutcomeV1::FixedPoint)
}

} // verus!
