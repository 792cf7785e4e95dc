//! Identifiers survive reduction: a reduced case keeps a subsequence of the
//! original's transactions, each with a subsequence of its operations, under
//! their original identifiers and in their original order.

use vstd::prelude::*;

use crate::case::{CaseView, OperationIdV1, SemanticOperationView, TransactionView};
use crate::reducer::search::{
    block_cell, block_width, cells_upto, index_cell, key_cell, operation_width, reduction_candidates,
    removal_cell, rows_upto, scalar_cell, scalar_tries, block_candidates, removal_candidates,
    index_candidates, key_candidates, scalar_candidates, tried_scalar,
};
use crate::reducer::transform::{
    keyed_as, operation_key, operation_scalar, scalar_as, with_operation, without_block,
    without_operation,
};

verus! {

/// One operation, as its identifier and its semantic view.
pub type OperationView = (OperationIdV1, SemanticOperationView);

/// `map` is strictly increasing.
pub open spec fn increasing(map: Seq<int>) -> bool {
    forall|i: int, j: int| 0 <= i < j < map.len() ==> #[trigger] map[i] < #[trigger] map[j]
}

/// `map` places each kept operation at the position of an original
/// operation with the same identifier, in order.
pub open spec fn operations_embed(kept: Seq<OperationView>, original: Seq<OperationView>, map: Seq<int>) -> bool {
    &&& map.len() == kept.len()
    &&& increasing(map)
    &&& forall|i: int|
        0 <= i < map.len() ==> 0 <= #[trigger] map[i] < original.len() && kept[i].0
            == original[map[i]].0
}

/// The kept operations' identifiers are a subsequence of the original's.
pub open spec fn operations_kept(kept: Seq<OperationView>, original: Seq<OperationView>) -> bool {
    exists|map: Seq<int>| #[trigger] operations_embed(kept, original, map)
}

/// `map` places each kept transaction at the position of an original
/// transaction with the same identifier, in order, keeping a subsequence of
/// its operations.
pub open spec fn transactions_embed(
    kept: Seq<TransactionView>,
    original: Seq<TransactionView>,
    map: Seq<int>,
) -> bool {
    &&& map.len() == kept.len()
    &&& increasing(map)
    &&& forall|i: int|
        0 <= i < map.len() ==> 0 <= #[trigger] map[i] < original.len() && kept[i].0
            == original[map[i]].0 && operations_kept(kept[i].1, original[map[i]].1)
}

/// The reduced case keeps the original's identifiers: its transactions are a
/// subsequence of the original's, each keeping a subsequence of that
/// transaction's operations, with no identifier renumbered.
pub open spec fn ids_kept(original: CaseView, kept: CaseView) -> bool {
    exists|map: Seq<int>| #[trigger] transactions_embed(kept.transactions, original.transactions, map)
}

/// The positions `0..len`.
pub open spec fn identity_map(len: nat) -> Seq<int> {
    Seq::new(len, |i: int| i)
}

/// Every sequence of operations keeps its own identifiers.
pub proof fn lemma_operations_kept_self(operations: Seq<OperationView>)
    ensures
        operations_kept(operations, operations),
{
    assert(operations_embed(operations, operations, identity_map(operations.len())));
}

/// Every case keeps its own identifiers.
pub proof fn lemma_ids_kept_self(case: CaseView)
    ensures
        ids_kept(case, case),
{
    let map = identity_map(case.transactions.len());
    assert forall|i: int| 0 <= i < map.len() implies 0 <= #[trigger] map[i]
        < case.transactions.len() && case.transactions[i].0 == case.transactions[map[i]].0
        && operations_kept(case.transactions[i].1, case.transactions[map[i]].1) by {
        lemma_operations_kept_self(case.transactions[i].1);
    }
    assert(transactions_embed(case.transactions, case.transactions, map));
}

/// Keeping identifiers is transitive for operations.
pub proof fn lemma_operations_kept_trans(
    first: Seq<OperationView>,
    second: Seq<OperationView>,
    third: Seq<OperationView>,
)
    requires
        operations_kept(first, second),
        operations_kept(second, third),
    ensures
        operations_kept(first, third),
{
    let inner = choose|map: Seq<int>| #[trigger] operations_embed(first, second, map);
    let outer = choose|map: Seq<int>| #[trigger] operations_embed(second, third, map);
    let map = Seq::new(first.len(), |i: int| outer[inner[i]]);
    assert forall|i: int, j: int| 0 <= i < j < map.len() implies #[trigger] map[i] < #[trigger] map[j] by {
        assert(inner[i] < inner[j]);
        assert(0 <= inner[i] < second.len());
        assert(0 <= inner[j] < second.len());
        assert(outer[inner[i]] < outer[inner[j]]);
    }
    assert forall|i: int| 0 <= i < map.len() implies 0 <= #[trigger] map[i] < third.len()
        && first[i].0 == third[map[i]].0 by {
        assert(0 <= inner[i] < second.len());
        assert(0 <= outer[inner[i]] < third.len());
    }
    assert(operations_embed(first, third, map));
}

/// Keeping identifiers is transitive for cases.
pub proof fn lemma_ids_kept_trans(first: CaseView, second: CaseView, third: CaseView)
    requires
        ids_kept(first, second),
        ids_kept(second, third),
    ensures
        ids_kept(first, third),
{
    let inner = choose|map: Seq<int>|
        #[trigger] transactions_embed(second.transactions, first.transactions, map);
    let outer = choose|map: Seq<int>|
        #[trigger] transactions_embed(third.transactions, second.transactions, map);
    let map = Seq::new(third.transactions.len(), |i: int| inner[outer[i]]);
    assert forall|i: int, j: int| 0 <= i < j < map.len() implies #[trigger] map[i] < #[trigger] map[j] by {
        assert(outer[i] < outer[j]);
        assert(0 <= outer[i] < second.transactions.len());
        assert(0 <= outer[j] < second.transactions.len());
        assert(inner[outer[i]] < inner[outer[j]]);
    }
    assert forall|i: int| 0 <= i < map.len() implies 0 <= #[trigger] map[i]
        < first.transactions.len() && third.transactions[i].0 == first.transactions[map[i]].0
        && operations_kept(third.transactions[i].1, first.transactions[map[i]].1) by {
        let k = outer[i];
        assert(0 <= k < second.transactions.len());
        assert(0 <= inner[k] < first.transactions.len());
        lemma_operations_kept_trans(
            third.transactions[i].1,
            second.transactions[k].1,
            first.transactions[inner[k]].1,
        );
    }
    assert(transactions_embed(third.transactions, first.transactions, map));
}

/// Removing a block of transactions keeps identifiers.
pub proof fn lemma_block_keeps_ids(current: CaseView, start: int, len: int)
    requires
        0 <= start,
        0 <= len,
        start + len <= current.transactions.len(),
    ensures
        ids_kept(current, CaseView { transactions: without_block(current.transactions, start, len), ..current }),
{
    let ts = current.transactions;
    let kept = without_block(ts, start, len);
    let map = Seq::new(kept.len(), |i: int| if i < start { i } else { i + len });
    assert forall|i: int| 0 <= i < map.len() implies 0 <= #[trigger] map[i] < ts.len()
        && kept[i].0 == ts[map[i]].0 && operations_kept(kept[i].1, ts[map[i]].1) by {
        assert(kept[i] == ts[map[i]]);
        lemma_operations_kept_self(kept[i].1);
    }
    assert(transactions_embed(kept, ts, map));
    let result = CaseView { transactions: kept, ..current };
    assert(transactions_embed(result.transactions, current.transactions, map));
}

/// Removing one operation keeps identifiers, a transaction left empty going
/// too.
pub proof fn lemma_removal_keeps_ids(current: CaseView, transaction: int, operation: int)
    requires
        0 <= transaction < current.transactions.len(),
        0 <= operation < current.transactions[transaction].1.len(),
    ensures
        ids_kept(
            current,
            CaseView {
                transactions: without_operation(current.transactions, transaction, operation),
                ..current
            },
        ),
{
    let ts = current.transactions;
    let operations = ts[transaction].1;
    let remaining = operations.remove(operation);
    let kept = without_operation(ts, transaction, operation);
    if remaining.len() == 0 {
        let map = Seq::new(kept.len(), |i: int| if i < transaction { i } else { i + 1 });
        assert forall|i: int| 0 <= i < map.len() implies 0 <= #[trigger] map[i] < ts.len()
            && kept[i].0 == ts[map[i]].0 && operations_kept(kept[i].1, ts[map[i]].1) by {
            assert(kept[i] == ts[map[i]]);
            lemma_operations_kept_self(kept[i].1);
        }
        assert(transactions_embed(kept, ts, map));
        let result = CaseView { transactions: kept, ..current };
        assert(transactions_embed(result.transactions, current.transactions, map));
    } else {
        let map = identity_map(kept.len());
        let skip = Seq::new(remaining.len(), |i: int| if i < operation { i } else { i + 1 });
        assert(operations_embed(remaining, operations, skip));
        assert forall|i: int| 0 <= i < map.len() implies 0 <= #[trigger] map[i] < ts.len()
            && kept[i].0 == ts[map[i]].0 && operations_kept(kept[i].1, ts[map[i]].1) by {
            if i != transaction {
                lemma_operations_kept_self(kept[i].1);
            }
        }
        assert(transactions_embed(kept, ts, map));
        let result = CaseView { transactions: kept, ..current };
        assert(transactions_embed(result.transactions, current.transactions, map));
    }
}

/// Replacing one operation under its identifier keeps identifiers.
pub proof fn lemma_replacement_keeps_ids(
    current: CaseView,
    transaction: int,
    operation: int,
    replacement: SemanticOperationView,
)
    requires
        0 <= transaction < current.transactions.len(),
        0 <= operation < current.transactions[transaction].1.len(),
    ensures
        ids_kept(
            current,
            CaseView {
                transactions: with_operation(current.transactions, transaction, operation, replacement),
                ..current
            },
        ),
{
    let ts = current.transactions;
    let kept = with_operation(ts, transaction, operation, replacement);
    let map = identity_map(kept.len());
    assert forall|i: int| 0 <= i < map.len() implies 0 <= #[trigger] map[i] < ts.len()
        && kept[i].0 == ts[map[i]].0 && operations_kept(kept[i].1, ts[map[i]].1) by {
        if i != transaction {
            lemma_operations_kept_self(kept[i].1);
        } else {
            assert(operations_embed(kept[i].1, ts[i].1, identity_map(kept[i].1.len())));
        }
    }
    assert(transactions_embed(kept, ts, map));
    let result = CaseView { transactions: kept, ..current };
    assert(transactions_embed(result.transactions, current.transactions, map));
}

/// Every case of `cases` keeps the identifiers of `current`.
pub open spec fn all_keep(current: CaseView, cases: Seq<CaseView>) -> bool {
    forall|k: int| 0 <= k < cases.len() ==> ids_kept(current, #[trigger] cases[k])
}

proof fn lemma_all_keep_concat(current: CaseView, first: Seq<CaseView>, second: Seq<CaseView>)
    requires
        all_keep(current, first),
        all_keep(current, second),
    ensures
        all_keep(current, first + second),
{
    assert forall|k: int| 0 <= k < (first + second).len() implies ids_kept(
        current,
        #[trigger] (first + second)[k],
    ) by {
        if k < first.len() {
            assert((first + second)[k] == first[k]);
        } else {
            assert((first + second)[k] == second[k - first.len()]);
        }
    }
}

proof fn lemma_cells_all_keep(
    current: CaseView,
    cell: spec_fn(int, int) -> Seq<CaseView>,
    t: int,
    o: int,
)
    requires
        forall|q: int| 0 <= q < o ==> all_keep(current, #[trigger] cell(t, q)),
    ensures
        all_keep(current, cells_upto(cell, t, o)),
    decreases o,
{
    if o > 0 {
        lemma_cells_all_keep(current, cell, t, o - 1);
        lemma_all_keep_concat(current, cells_upto(cell, t, o - 1), cell(t, o - 1));
    }
}

proof fn lemma_rows_all_keep(
    current: CaseView,
    cell: spec_fn(int, int) -> Seq<CaseView>,
    width: spec_fn(int) -> int,
    t: int,
)
    requires
        forall|r: int, q: int| 0 <= r < t && 0 <= q < width(r) ==> all_keep(current, #[trigger] cell(r, q)),
    ensures
        all_keep(current, rows_upto(cell, width, t)),
    decreases t,
{
    if t > 0 {
        lemma_rows_all_keep(current, cell, width, t - 1);
        lemma_cells_all_keep(current, cell, t - 1, width(t - 1));
        lemma_all_keep_concat(current, rows_upto(cell, width, t - 1), cells_upto(cell, t - 1, width(t - 1)));
    }
}

proof fn lemma_scalar_tries_keep(current: CaseView, t: int, o: int, scalar: i32, k: int)
    requires
        0 <= t < current.transactions.len(),
        0 <= o < current.transactions[t].1.len(),
    ensures
        all_keep(current, scalar_tries(current, t, o, scalar, k)),
    decreases k,
{
    if k > 0 {
        lemma_scalar_tries_keep(current, t, o, scalar, k - 1);
        let earlier = scalar_tries(current, t, o, scalar, k - 1);
        let value: i32 = tried_scalar(k - 1);
        let replacement = scalar_as(current.transactions[t].1[o].1, value).unwrap();
        lemma_replacement_keeps_ids(current, t, o, replacement);
        assert forall|j: int| 0 <= j < scalar_tries(current, t, o, scalar, k).len() implies ids_kept(
            current,
            #[trigger] scalar_tries(current, t, o, scalar, k)[j],
        ) by {
            if j < earlier.len() {
                assert(scalar_tries(current, t, o, scalar, k)[j] == earlier[j]);
            }
        }
    }
}

/// Every candidate of a search keeps the identifiers of the case it was
/// made from.
pub proof fn lemma_candidates_keep_ids(current: CaseView)
    ensures
        all_keep(current, reduction_candidates(current)),
{
    let n = current.transactions.len() as int;
    assert forall|r: int, q: int| 0 <= r < n && 0 <= q < block_width()(r) implies all_keep(
        current,
        #[trigger] block_cell(current)(r, q),
    ) by {
        lemma_block_keeps_ids(current, q, n - r);
    }
    lemma_rows_all_keep(current, block_cell(current), block_width(), n);
    assert forall|t: int, o: int| 0 <= t < n && 0 <= o < operation_width(current)(t) implies all_keep(
        current,
        #[trigger] removal_cell(current)(t, o),
    ) by {
        lemma_removal_keeps_ids(current, t, o);
    }
    lemma_rows_all_keep(current, removal_cell(current), operation_width(current), n);
    assert forall|t: int, o: int| 0 <= t < n && 0 <= o < operation_width(current)(t) implies all_keep(
        current,
        #[trigger] index_cell(current)(t, o),
    ) by {
        let here = index_cell(current)(t, o);
        assert forall|k: int| 0 <= k < here.len() implies ids_kept(current, #[trigger] here[k]) by {
            match current.transactions[t].1[o].1 {
                SemanticOperationView::InsertKeyed { fragment, key, final_index } => {
                    lemma_replacement_keeps_ids(
                        current,
                        t,
                        o,
                        SemanticOperationView::InsertKeyed { fragment, key, final_index: k as u64 },
                    );
                },
                SemanticOperationView::MoveKeyed { fragment, key, final_index } => {
                    lemma_replacement_keeps_ids(
                        current,
                        t,
                        o,
                        SemanticOperationView::MoveKeyed { fragment, key, final_index: k as u64 },
                    );
                },
                _ => {},
            }
        }
    }
    lemma_rows_all_keep(current, index_cell(current), operation_width(current), n);
    assert forall|t: int, o: int| 0 <= t < n && 0 <= o < operation_width(current)(t) implies all_keep(
        current,
        #[trigger] key_cell(current)(t, o),
    ) by {
        let here = key_cell(current)(t, o);
        assert forall|k: int| 0 <= k < here.len() implies ids_kept(current, #[trigger] here[k]) by {
            lemma_replacement_keeps_ids(
                current,
                t,
                o,
                keyed_as(current.transactions[t].1[o].1, k as u64).unwrap(),
            );
        }
    }
    lemma_rows_all_keep(current, key_cell(current), operation_width(current), n);
    assert forall|t: int, o: int| 0 <= t < n && 0 <= o < operation_width(current)(t) implies all_keep(
        current,
        #[trigger] scalar_cell(current)(t, o),
    ) by {
        if let Some(scalar) = operation_scalar(current.transactions[t].1[o].1) {
            lemma_scalar_tries_keep(current, t, o, scalar, 3);
        }
    }
    lemma_rows_all_keep(current, scalar_cell(current), operation_width(current), n);
    lemma_all_keep_concat(current, block_candidates(current), removal_candidates(current));
    lemma_all_keep_concat(
        current,
        block_candidates(current) + removal_candidates(current),
        index_candidates(current),
    );
    lemma_all_keep_concat(
        current,
        block_candidates(current) + removal_candidates(current) + index_candidates(current),
        key_candidates(current),
    );
    lemma_all_keep_concat(
        current,
        block_candidates(current) + removal_candidates(current) + index_candidates(current)
            + key_candidates(current),
        scalar_candidates(current),
    );
}

} // verus!
