//! The candidate order of the reducer's transforms, and what a search over
//! candidates leads to for every sequence of oracle answers.

use vstd::prelude::*;

use crate::case::{CaseView, SemanticOperationView, TransactionView};
use crate::reducer::metric::{expected_metric, metric_less};
use crate::reducer::transform::{
    SearchBudgetV1, SearchOutcomeV1, keyed_as, operation_key, operation_scalar, scalar_as,
    with_operation, without_block, without_operation,
};
use crate::reducer::{ReducerError, ReducerErrorKind};

verus! {

/// What the oracle answers about one candidate: the byte length of its
/// canonical encoding (`None` when it has none), and whether its replay
/// reproduces the target failure.
pub type OracleAnswer = (Option<usize>, bool);

/// Which answers the oracle may have given: a candidate, an answer and the
/// budget the candidate is evaluated under.
pub type AnswerFit = spec_fn(CaseView, OracleAnswer, SearchBudgetV1) -> bool;

/// Where one candidate, or a whole search, leads.
pub enum SearchStep {
    /// Nothing decided: the search goes on.
    Continue,
    /// A smaller candidate reproduced the target.
    Accepted(CaseView),
    /// The budget ran out, on a reproducing candidate or on another.
    Exhausted(Option<CaseView>),
    /// No transform found a candidate.
    FixedPoint,
    /// Measuring a candidate failed.
    Failed(ReducerErrorKind),
    /// The answer is not one the oracle gives for the candidate.
    Unfit,
}

/// The evaluation of one candidate under one oracle answer: a candidate that
/// cannot be measured fails; one that is not strictly smaller is passed over
/// and costs nothing; otherwise one evaluation is spent, and the budget's end
/// or the verdict decides.
pub open spec fn evaluation(candidate: CaseView, answer: OracleAnswer, before: SearchBudgetV1) -> (
    SearchStep,
    SearchBudgetV1,
) {
    match expected_metric(candidate, answer.0) {
        Err(kind) => (SearchStep::Failed(kind), before),
        Ok(metric) => if !metric_less(metric, before.current_metric) {
            (SearchStep::Continue, before)
        } else {
            let after = SearchBudgetV1 { used: (before.used + 1) as u32, ..before };
            if after.used == before.max {
                (SearchStep::Exhausted(if answer.1 { Some(candidate) } else { None }), after)
            } else if answer.1 {
                (SearchStep::Accepted(candidate), after)
            } else {
                (SearchStep::Continue, after)
            }
        },
    }
}

/// Whether evaluating a candidate under an answer spends an evaluation: it
/// can be measured and is strictly smaller than the current case.
pub open spec fn spends(candidate: CaseView, answer: OracleAnswer, before: SearchBudgetV1) -> bool {
    match expected_metric(candidate, answer.0) {
        Ok(metric) => metric_less(metric, before.current_metric),
        Err(_) => false,
    }
}

/// Evaluates candidates in order, candidate `i` under answer `i`, and stops at
/// the first that decides something; an answer that does not fit its
/// candidate stops the search as unfit.
pub open spec fn search_run(
    candidates: Seq<CaseView>,
    answers: Seq<OracleAnswer>,
    before: SearchBudgetV1,
    fits: AnswerFit,
) -> (SearchStep, SearchBudgetV1)
    decreases candidates.len(),
{
    if candidates.len() == 0 {
        (SearchStep::Continue, before)
    } else if !fits(candidates[0], answers[0], before) {
        (SearchStep::Unfit, before)
    } else {
        let first = evaluation(candidates[0], answers[0], before);
        if first.0 is Continue {
            search_run(candidates.drop_first(), answers.drop_first(), first.1, fits)
        } else {
            first
        }
    }
}

/// A search over `candidates` from `before` leads to `step` and `after` for
/// some answers of the oracle that fit, one per candidate.
pub open spec fn searched_by(
    candidates: Seq<CaseView>,
    before: SearchBudgetV1,
    after: SearchBudgetV1,
    step: SearchStep,
    fits: AnswerFit,
) -> bool {
    exists|answers: Seq<OracleAnswer>|
        answers.len() == candidates.len() && #[trigger] search_run(candidates, answers, before, fits)
            == (step, after)
}

/// The step a search outcome stands for.
pub open spec fn outcome_step(outcome: SearchOutcomeV1) -> SearchStep {
    match outcome {
        SearchOutcomeV1::FixedPoint => SearchStep::FixedPoint,
        SearchOutcomeV1::Accepted(candidate) => SearchStep::Accepted(candidate@),
        SearchOutcomeV1::Exhausted(found) => SearchStep::Exhausted(
            match found {
                Some(candidate) => Some(candidate@),
                None => None,
            },
        ),
    }
}

/// The step the result of one transform pass stands for.
pub open spec fn pass_step(result: Result<Option<SearchOutcomeV1>, ReducerError>) -> SearchStep {
    match result {
        Ok(None) => SearchStep::Continue,
        Ok(Some(outcome)) => outcome_step(outcome),
        Err(error) => SearchStep::Failed(error.spec_kind()),
    }
}

/// The step the result of a whole search stands for; a fixed point is a
/// search that went on to its end.
pub open spec fn final_step(result: Result<SearchOutcomeV1, ReducerError>) -> SearchStep {
    match result {
        Ok(SearchOutcomeV1::FixedPoint) => SearchStep::Continue,
        Ok(outcome) => outcome_step(outcome),
        Err(error) => SearchStep::Failed(error.spec_kind()),
    }
}

/// `prefix` is a prefix of `whole`.
pub open spec fn is_prefix(prefix: Seq<CaseView>, whole: Seq<CaseView>) -> bool {
    &&& prefix.len() <= whole.len()
    &&& forall|i: int| 0 <= i < prefix.len() ==> #[trigger] prefix[i] == whole[i]
}

/// The candidates of the cells `(t, 0)` to `(t, o - 1)`, in order.
pub open spec fn cells_upto(cell: spec_fn(int, int) -> Seq<CaseView>, t: int, o: int) -> Seq<
    CaseView,
>
    decreases o,
{
    if o <= 0 {
        Seq::empty()
    } else {
        cells_upto(cell, t, o - 1) + cell(t, o - 1)
    }
}

/// The candidates of rows `0` to `t - 1`, row `r` having `width(r)` cells.
pub open spec fn rows_upto(
    cell: spec_fn(int, int) -> Seq<CaseView>,
    width: spec_fn(int) -> int,
    t: int,
) -> Seq<CaseView>
    decreases t,
{
    if t <= 0 {
        Seq::empty()
    } else {
        rows_upto(cell, width, t - 1) + cells_upto(cell, t - 1, width(t - 1))
    }
}

/// A case with other transactions.
pub open spec fn with_transactions(current: CaseView, transactions: Seq<TransactionView>) -> CaseView {
    CaseView { transactions, ..current }
}

/// The number of operations of each transaction.
pub open spec fn operation_width(current: CaseView) -> spec_fn(int) -> int {
    |t: int| current.transactions[t].1.len() as int
}

/// Row `r` of the block removals removes blocks of `n - r` transactions, at
/// each of the `r + 1` starts.
pub open spec fn block_width() -> spec_fn(int) -> int {
    |r: int| r + 1
}

/// The removal of the block of `n - r` transactions at `s`.
pub open spec fn block_cell(current: CaseView) -> spec_fn(int, int) -> Seq<CaseView> {
    |r: int, s: int|
        seq![
            with_transactions(
                current,
                without_block(current.transactions, s, current.transactions.len() - r),
            ),
        ]
}

/// Every block removal, longest blocks first, each length from the front.
pub open spec fn block_candidates(current: CaseView) -> Seq<CaseView> {
    rows_upto(block_cell(current), block_width(), current.transactions.len() as int)
}

/// The removal of operation `o` of transaction `t`.
pub open spec fn removal_cell(current: CaseView) -> spec_fn(int, int) -> Seq<CaseView> {
    |t: int, o: int| seq![with_transactions(current, without_operation(current.transactions, t, o))]
}

/// Every removal of one operation, in case order.
pub open spec fn removal_candidates(current: CaseView) -> Seq<CaseView> {
    rows_upto(removal_cell(current), operation_width(current), current.transactions.len() as int)
}

/// Operation `o` of transaction `t` with every smaller final index, from zero;
/// nothing for an operation without one.
pub open spec fn index_cell(current: CaseView) -> spec_fn(int, int) -> Seq<CaseView> {
    |t: int, o: int|
        match current.transactions[t].1[o].1 {
            SemanticOperationView::InsertKeyed { fragment, key, final_index } => Seq::new(
                final_index as nat,
                |i: int|
                    with_transactions(
                        current,
                        with_operation(
                            current.transactions,
                            t,
                            o,
                            SemanticOperationView::InsertKeyed {
                                fragment,
                                key,
                                final_index: i as u64,
                            },
                        ),
                    ),
            ),
            SemanticOperationView::MoveKeyed { fragment, key, final_index } => Seq::new(
                final_index as nat,
                |i: int|
                    with_transactions(
                        current,
                        with_operation(
                            current.transactions,
                            t,
                            o,
                            SemanticOperationView::MoveKeyed {
                                fragment,
                                key,
                                final_index: i as u64,
                            },
                        ),
                    ),
            ),
            _ => Seq::empty(),
        }
}

/// Every smaller final index of each insertion and move, in case order.
pub open spec fn index_candidates(current: CaseView) -> Seq<CaseView> {
    rows_upto(index_cell(current), operation_width(current), current.transactions.len() as int)
}

/// Operation `o` of transaction `t` with every smaller key, from zero; nothing
/// for an operation without one.
pub open spec fn key_cell(current: CaseView) -> spec_fn(int, int) -> Seq<CaseView> {
    |t: int, o: int|
        match operation_key(current.transactions[t].1[o].1) {
            Some(key) => Seq::new(
                key as nat,
                |k: int|
                    with_transactions(
                        current,
                        with_operation(
                            current.transactions,
                            t,
                            o,
                            keyed_as(current.transactions[t].1[o].1, k as u64).unwrap(),
                        ),
                    ),
            ),
            None => Seq::empty(),
        }
}

/// Every smaller key of each keyed operation, in case order.
pub open spec fn key_candidates(current: CaseView) -> Seq<CaseView> {
    rows_upto(key_cell(current), operation_width(current), current.transactions.len() as int)
}

/// The scalar values tried, in order: zero, one, minus one.
pub open spec fn tried_scalar(k: int) -> i32 {
    if k == 0 {
        0
    } else if k == 1 {
        1
    } else {
        -1i32
    }
}

/// Operation `o` of transaction `t` assigning the scalar `value`.
pub open spec fn scalar_candidate(current: CaseView, t: int, o: int, value: i32) -> CaseView {
    with_transactions(
        current,
        with_operation(
            current.transactions,
            t,
            o,
            scalar_as(current.transactions[t].1[o].1, value).unwrap(),
        ),
    )
}

/// The first `k` tried scalars that differ from `scalar`, as candidates.
pub open spec fn scalar_tries(current: CaseView, t: int, o: int, scalar: i32, k: int) -> Seq<
    CaseView,
>
    decreases k,
{
    if k <= 0 {
        Seq::empty()
    } else if tried_scalar(k - 1) != scalar {
        scalar_tries(current, t, o, scalar, k - 1).push(
            scalar_candidate(current, t, o, tried_scalar(k - 1)),
        )
    } else {
        scalar_tries(current, t, o, scalar, k - 1)
    }
}

/// Operation `o` of transaction `t` with each tried scalar it does not
/// already assign; nothing for an operation that assigns no scalar.
pub open spec fn scalar_cell(current: CaseView) -> spec_fn(int, int) -> Seq<CaseView> {
    |t: int, o: int|
        match operation_scalar(current.transactions[t].1[o].1) {
            Some(scalar) => scalar_tries(current, t, o, scalar, 3),
            None => Seq::empty(),
        }
}

/// Every tried scalar of each scalar assignment, in case order.
pub open spec fn scalar_candidates(current: CaseView) -> Seq<CaseView> {
    rows_upto(scalar_cell(current), operation_width(current), current.transactions.len() as int)
}

/// Every candidate of one search, transform by transform.
pub open spec fn reduction_candidates(current: CaseView) -> Seq<CaseView> {
    block_candidates(current) + removal_candidates(current) + index_candidates(current)
        + key_candidates(current) + scalar_candidates(current)
}

/// A search over two lists of candidates is the search over the first, then,
/// if nothing was decided, over the second.
pub proof fn lemma_search_concat(
    first: Seq<CaseView>,
    second: Seq<CaseView>,
    first_answers: Seq<OracleAnswer>,
    second_answers: Seq<OracleAnswer>,
    before: SearchBudgetV1,
    fits: AnswerFit,
)
    requires
        first_answers.len() == first.len(),
    ensures
        search_run(first + second, first_answers + second_answers, before, fits) == (if search_run(first, first_answers, before, fits).0 is Continue {
            search_run(second, second_answers, search_run(first, first_answers, before, fits).1, fits)
        } else {
            search_run(first, first_answers, before, fits)
        }),
    decreases first.len(),
{
    if first.len() == 0 {
        assert(first + second =~= second);
        assert(first_answers + second_answers =~= second_answers);
    } else {
        let head = evaluation(first[0], first_answers[0], before);
        assert((first + second)[0] == first[0]);
        assert((first_answers + second_answers)[0] == first_answers[0]);
        assert((first + second).drop_first() =~= first.drop_first() + second);
        assert((first_answers + second_answers).drop_first() =~= first_answers.drop_first()
            + second_answers);
        if fits(first[0], first_answers[0], before) && head.0 is Continue {
            lemma_search_concat(
                first.drop_first(),
                second,
                first_answers.drop_first(),
                second_answers,
                head.1,
                fits,
            );
        }
    }
}

/// A search never reports a fixed point by itself.
pub proof fn lemma_search_not_fixed(
    candidates: Seq<CaseView>,
    answers: Seq<OracleAnswer>,
    before: SearchBudgetV1,
    fits: AnswerFit,
)
    ensures
        !(search_run(candidates, answers, before, fits).0 is FixedPoint),
    decreases candidates.len(),
{
    if candidates.len() > 0 {
        let head = evaluation(candidates[0], answers[0], before);
        if fits(candidates[0], answers[0], before) && head.0 is Continue {
            lemma_search_not_fixed(candidates.drop_first(), answers.drop_first(), head.1, fits);
        }
    }
}

/// Where a search over `done` went on, and the candidates `block` that follow
/// it decided something, the search over everything decides the same.
pub proof fn lemma_search_stops(
    done: Seq<CaseView>,
    block: Seq<CaseView>,
    rest: Seq<CaseView>,
    done_answers: Seq<OracleAnswer>,
    block_answers: Seq<OracleAnswer>,
    start: SearchBudgetV1,
    before: SearchBudgetV1,
    fits: AnswerFit,
)
    requires
        done_answers.len() == done.len(),
        block_answers.len() == block.len(),
        search_run(done, done_answers, start, fits) == (SearchStep::Continue, before),
        !(search_run(block, block_answers, before, fits).0 is Continue),
    ensures
        searched_by(
            done + block + rest,
            start,
            search_run(block, block_answers, before, fits).1,
            search_run(block, block_answers, before, fits).0,
            fits,
),
{
    let pad = Seq::new(rest.len(), |i: int| (None::<usize>, false));
    let answers = done_answers + (block_answers + pad);
    assert(done + block + rest =~= done + (block + rest));
    lemma_search_concat(done, block + rest, done_answers, block_answers + pad, start, fits);
    lemma_search_concat(block, rest, block_answers, pad, before, fits);
    assert(search_run(done + block + rest, answers, start, fits) == search_run(block, block_answers, before, fits));
}

/// A prefix stays a prefix behind a common front.
pub proof fn lemma_prefix_behind(front: Seq<CaseView>, prefix: Seq<CaseView>, whole: Seq<CaseView>)
    requires
        is_prefix(prefix, whole),
    ensures
        is_prefix(front + prefix, front + whole),
{
    assert forall|i: int| 0 <= i < (front + prefix).len() implies #[trigger] (front + prefix)[i] == (
    front + whole)[i] by {
        if i >= front.len() {
            assert(prefix[i - front.len()] == whole[i - front.len()]);
        }
    }
}

/// The cells of a row up to `o` are a prefix of its cells up to `w`.
pub proof fn lemma_cells_prefix(cell: spec_fn(int, int) -> Seq<CaseView>, t: int, o: int, w: int)
    requires
        0 <= o <= w,
    ensures
        is_prefix(cells_upto(cell, t, o), cells_upto(cell, t, w)),
    decreases w - o,
{
    if o < w {
        lemma_cells_prefix(cell, t, o, w - 1);
        assert(cells_upto(cell, t, w) == cells_upto(cell, t, w - 1) + cell(t, w - 1));
    }
}

/// The rows up to `t` are a prefix of the rows up to `n`.
pub proof fn lemma_rows_prefix(
    cell: spec_fn(int, int) -> Seq<CaseView>,
    width: spec_fn(int) -> int,
    t: int,
    n: int,
)
    requires
        0 <= t <= n,
    ensures
        is_prefix(rows_upto(cell, width, t), rows_upto(cell, width, n)),
    decreases n - t,
{
    if t < n {
        lemma_rows_prefix(cell, width, t, n - 1);
        assert(rows_upto(cell, width, n) == rows_upto(cell, width, n - 1) + cells_upto(
            cell,
            n - 1,
            width(n - 1),
        ));
    }
}

/// The candidates before cell `(t, o)` followed by a prefix of that cell are a
/// prefix of every candidate.
pub proof fn lemma_cell_prefix(
    cell: spec_fn(int, int) -> Seq<CaseView>,
    width: spec_fn(int) -> int,
    t: int,
    o: int,
    part: Seq<CaseView>,
    n: int,
)
    requires
        0 <= t < n,
        0 <= o < width(t),
        is_prefix(part, cell(t, o)),
    ensures
        is_prefix(rows_upto(cell, width, t) + cells_upto(cell, t, o) + part, rows_upto(cell, width, n)),
{
    let front = rows_upto(cell, width, t) + cells_upto(cell, t, o);
    lemma_prefix_behind(front, part, cell(t, o));
    assert(cells_upto(cell, t, o + 1) == cells_upto(cell, t, o) + cell(t, o));
    assert(front + cell(t, o) =~= rows_upto(cell, width, t) + cells_upto(cell, t, o + 1));
    lemma_cells_prefix(cell, t, o + 1, width(t));
    lemma_prefix_behind(
        rows_upto(cell, width, t),
        cells_upto(cell, t, o + 1),
        cells_upto(cell, t, width(t)),
    );
    assert(rows_upto(cell, width, t + 1) == rows_upto(cell, width, t) + cells_upto(
        cell,
        t,
        width(t),
    ));
    lemma_rows_prefix(cell, width, t + 1, n);
}

/// One candidate after a search that went on: the search either goes on
/// over the longer list, or decides over every candidate.
pub proof fn lemma_search_step(
    full: Seq<CaseView>,
    done: Seq<CaseView>,
    candidate: CaseView,
    done_answers: Seq<OracleAnswer>,
    answer: OracleAnswer,
    start: SearchBudgetV1,
    before: SearchBudgetV1,
    fits: AnswerFit,
)
    requires
        is_prefix(done.push(candidate), full),
        done_answers.len() == done.len(),
        search_run(done, done_answers, start, fits) == (SearchStep::Continue, before),
        fits(candidate, answer, before),
    ensures
        search_run(done.push(candidate), done_answers.push(answer), start, fits) == evaluation(
            candidate,
            answer,
            before,
        ),
        !(evaluation(candidate, answer, before).0 is Continue) ==> searched_by(
            full,
            start,
            evaluation(candidate, answer, before).1,
            evaluation(candidate, answer, before).0,
            fits,
        ),
{
    let single = seq![candidate];
    let single_answers = seq![answer];
    assert(single.drop_first() =~= Seq::<CaseView>::empty());
    assert(search_run(single, single_answers, before, fits) == evaluation(candidate, answer, before)) by {
        reveal_with_fuel(search_run, 2);
    }
    lemma_search_concat(done, single, done_answers, single_answers, start, fits);
    assert(done + single =~= done.push(candidate));
    assert(done_answers + single_answers =~= done_answers.push(answer));
    if !(evaluation(candidate, answer, before).0 is Continue) {
        let rest = full.skip(done.len() + 1int);
        assert(full =~= done + single + rest);
        lemma_search_stops(done, single, rest, done_answers, single_answers, start, before, fits);
    }
}

/// A search that went on over every candidate.
pub proof fn lemma_search_done(
    full: Seq<CaseView>,
    done: Seq<CaseView>,
    done_answers: Seq<OracleAnswer>,
    start: SearchBudgetV1,
    after: SearchBudgetV1,
    fits: AnswerFit,
)
    requires
        done == full,
        done_answers.len() == done.len(),
        search_run(done, done_answers, start, fits) == (SearchStep::Continue, after),
    ensures
        searched_by(full, start, after, SearchStep::Continue, fits),
{
}

/// The tried scalars up to `k` are a prefix of all three.
pub proof fn lemma_scalar_prefix(current: CaseView, t: int, o: int, scalar: i32, k: int)
    requires
        0 <= k <= 3,
    ensures
        is_prefix(scalar_tries(current, t, o, scalar, k), scalar_tries(current, t, o, scalar, 3)),
    decreases 3 - k,
{
    if k < 3 {
        lemma_scalar_prefix(current, t, o, scalar, k + 1);
        let shorter = scalar_tries(current, t, o, scalar, k);
        let longer = scalar_tries(current, t, o, scalar, k + 1);
        assert(is_prefix(shorter, longer));
    }
}

/// One whole pass after passes that went on: it either goes on, over the
/// longer list and under the returned answers, or decides over every
/// candidate. A pass never reports a fixed point.
pub proof fn lemma_search_pass(
    done: Seq<CaseView>,
    block: Seq<CaseView>,
    rest: Seq<CaseView>,
    done_answers: Seq<OracleAnswer>,
    start: SearchBudgetV1,
    before: SearchBudgetV1,
    after: SearchBudgetV1,
    step: SearchStep,
    fits: AnswerFit,
) -> (answers: Seq<OracleAnswer>)
    requires
        done_answers.len() == done.len(),
        search_run(done, done_answers, start, fits) == (SearchStep::Continue, before),
        searched_by(block, before, after, step, fits),
    ensures
        !(step is FixedPoint),
        step is Continue ==> answers.len() == done.len() + block.len() && search_run(
            done + block,
            answers,
            start,
            fits,
) == (SearchStep::Continue, after),
        !(step is Continue) ==> searched_by(done + block + rest, start, after, step, fits),
{
    let block_answers = choose|answers: Seq<OracleAnswer>|
        answers.len() == block.len() && #[trigger] search_run(block, answers, before, fits) == (
            step,
            after,
        );
    lemma_search_not_fixed(block, block_answers, before, fits);
    lemma_search_concat(done, block, done_answers, block_answers, start, fits);
    if !(step is Continue) {
        lemma_search_stops(done, block, rest, done_answers, block_answers, start, before, fits);
    }
    done_answers + block_answers
}

/// The candidate a search step keeps, if it keeps one.
pub open spec fn found_case(step: SearchStep) -> Option<CaseView> {
    match step {
        SearchStep::Accepted(candidate) => Some(candidate),
        SearchStep::Exhausted(Some(candidate)) => Some(candidate),
        _ => None,
    }
}

/// A candidate a search keeps was answered, under a fitting answer, as one
/// that reproduces the target.
pub proof fn lemma_search_found(
    candidates: Seq<CaseView>,
    answers: Seq<OracleAnswer>,
    before: SearchBudgetV1,
    fits: AnswerFit,
)
    ensures
        found_case(search_run(candidates, answers, before, fits).0) is Some ==> exists|
            answer: OracleAnswer,
            budget: SearchBudgetV1,
        |
            #[trigger] fits(
                found_case(search_run(candidates, answers, before, fits).0).unwrap(),
                answer,
                budget,
            ) && answer.1 && spends(
                found_case(search_run(candidates, answers, before, fits).0).unwrap(),
                answer,
                budget,
            ) && budget.current_metric == before.current_metric,
    decreases candidates.len(),
{
    if candidates.len() > 0 && fits(candidates[0], answers[0], before) {
        let head = evaluation(candidates[0], answers[0], before);
        if head.0 is Continue {
            assert(search_run(candidates, answers, before, fits) == search_run(
                candidates.drop_first(),
                answers.drop_first(),
                head.1,
                fits,
            ));
            lemma_search_found(candidates.drop_first(), answers.drop_first(), head.1, fits);
            assert(found_case(search_run(candidates, answers, before, fits).0) is Some ==> exists|
                answer: OracleAnswer,
                budget: SearchBudgetV1,
            |
                #[trigger] fits(
                    found_case(search_run(candidates, answers, before, fits).0).unwrap(),
                    answer,
                    budget,
                ) && answer.1 && spends(
                    found_case(search_run(candidates, answers, before, fits).0).unwrap(),
                    answer,
                    budget,
                ) && budget.current_metric == before.current_metric);
        } else {
            assert(search_run(candidates, answers, before, fits) == head);
            if found_case(head.0) is Some {
                assert(found_case(head.0) == Some(candidates[0]));
                assert(answers[0].1);
                assert(fits(candidates[0], answers[0], before));
                assert(spends(candidates[0], answers[0], before));
                let found = found_case(search_run(candidates, answers, before, fits).0).unwrap();
                assert(found == candidates[0]);
                assert(fits(found, answers[0], before) && answers[0].1 && spends(
                    found,
                    answers[0],
                    before,
                ));
            }
            assert(found_case(search_run(candidates, answers, before, fits).0) is Some ==> exists|
                answer: OracleAnswer,
                budget: SearchBudgetV1,
            |
                #[trigger] fits(
                    found_case(search_run(candidates, answers, before, fits).0).unwrap(),
                    answer,
                    budget,
                ) && answer.1 && spends(
                    found_case(search_run(candidates, answers, before, fits).0).unwrap(),
                    answer,
                    budget,
                ) && budget.current_metric == before.current_metric);
        }
    } else if candidates.len() == 0 {
        assert(search_run(candidates, answers, before, fits).0 is Continue);
        assert(found_case(search_run(candidates, answers, before, fits).0) is None);
    } else {
        assert(search_run(candidates, answers, before, fits).0 is Unfit);
        assert(found_case(search_run(candidates, answers, before, fits).0) is None);
    }
}

/// A candidate a search keeps is one of its candidates.
pub proof fn lemma_search_found_member(
    candidates: Seq<CaseView>,
    answers: Seq<OracleAnswer>,
    before: SearchBudgetV1,
    fits: AnswerFit,
)
    ensures
        found_case(search_run(candidates, answers, before, fits).0) is Some ==> exists|k: int|
            0 <= k < candidates.len() && #[trigger] candidates[k] == found_case(
                search_run(candidates, answers, before, fits).0,
            ).unwrap(),
    decreases candidates.len(),
{
    if candidates.len() > 0 && fits(candidates[0], answers[0], before) {
        let head = evaluation(candidates[0], answers[0], before);
        if head.0 is Continue {
            let rest = candidates.drop_first();
            assert(search_run(candidates, answers, before, fits) == search_run(
                rest,
                answers.drop_first(),
                head.1,
                fits,
            ));
            lemma_search_found_member(rest, answers.drop_first(), head.1, fits);
            if found_case(search_run(rest, answers.drop_first(), head.1, fits).0) is Some {
                let k = choose|k: int|
                    0 <= k < rest.len() && #[trigger] rest[k] == found_case(
                        search_run(rest, answers.drop_first(), head.1, fits).0,
                    ).unwrap();
                assert(candidates[k + 1] == rest[k]);
            }
        } else {
            assert(search_run(candidates, answers, before, fits) == head);
            if found_case(head.0) is Some {
                assert(candidates[0] == found_case(head.0).unwrap());
            }
        }
    } else if candidates.len() == 0 {
        assert(search_run(candidates, answers, before, fits).0 is Continue);
    } else {
        assert(search_run(candidates, answers, before, fits).0 is Unfit);
    }
}

} // verus!
