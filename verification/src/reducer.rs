//! Deterministic reduction of a reproducible replay failure: ordered case
//! transforms, a lexicographic size metric, and a bounded evaluation budget.

use vstd::prelude::*;

use crate::case::{CaseView, GeneratedCaseV1, total_operations};

pub mod ids;
pub mod metric;
pub mod search;
pub mod transform;

use metric::{ReductionMetricV1, expected_metric, is_metric_failure, measure_case_v1, metric_less};
use ids::{ids_kept, lemma_candidates_keep_ids, lemma_ids_kept_self, lemma_ids_kept_trans};
use search::{
    AnswerFit, OracleAnswer, SearchStep, found_case, lemma_search_found, lemma_search_found_member, reduction_candidates,
    search_run, searched_by, spends, final_step,
};
use transform::{SearchBudgetV1, SearchOutcomeV1, search_candidates_v1};

verus! {

/// The largest evaluation budget a reduction may be configured with.
pub const MAX_EVALUATIONS_V1: u32 = 4096;

/// Bounded configuration for deterministic failure reduction.
#[derive(Clone, Copy, Debug, PartialEq, Eq, Structural)]
pub struct ReducerConfigV1 {
    max_evaluations: u32,
}

impl ReducerConfigV1 {
    /// The maximum candidate replay evaluations.
    pub closed spec fn spec_max_evaluations(self) -> u32 {
        self.max_evaluations
    }

    /// Creates an unvalidated reduction configuration.
    pub fn new(max_evaluations: u32) -> (config: Self)
        ensures
            config.spec_max_evaluations() == max_evaluations,
    {
        ReducerConfigV1 { max_evaluations }
    }

    /// Returns the maximum candidate replay evaluations.
    pub fn max_evaluations(self) -> (max_evaluations: u32)
        ensures
            max_evaluations == self.spec_max_evaluations(),
    {
        self.max_evaluations
    }
}

/// Completion status produced by the deterministic reducer.
#[derive(Clone, Copy, Debug, PartialEq, Eq, Structural)]
pub enum ReductionCompletionV1 {
    /// No remaining transform preserved the target failure.
    FixedPoint,
    /// The configured evaluation budget was consumed first.
    BudgetExhausted,
}

impl ReductionCompletionV1 {
    /// The completion's name in stored artifacts.
    pub fn word(self) -> (word: &'static str)
        ensures
            self == ReductionCompletionV1::FixedPoint ==> word@ == "fixed-point"@,
            self == ReductionCompletionV1::BudgetExhausted ==> word@ == "budget-exhausted"@,
    {
        match self {
            ReductionCompletionV1::FixedPoint => "fixed-point",
            ReductionCompletionV1::BudgetExhausted => "budget-exhausted",
        }
    }
}

/// Closed failure classes produced by the deterministic reducer.
#[derive(Clone, Copy, Debug, PartialEq, Eq, Structural)]
pub enum ReducerErrorKind {
    /// The configured evaluation budget was outside `1..=4096`.
    InvalidConfiguration,
    /// The input case did not reproduce the exact supplied first failure.
    InvalidInputFailure,
    /// A case metric could not be encoded within the bounded case format.
    MetricLimitExceeded,
    /// Checked reducer arithmetic could not represent a required value.
    ArithmeticExhausted,
}

/// Privacy-safe failure returned by deterministic reduction.
#[derive(Clone, Copy, Debug, PartialEq, Eq, Structural)]
pub struct ReducerError {
    kind: ReducerErrorKind,
}

impl ReducerError {
    /// The failure class.
    pub closed spec fn spec_kind(self) -> ReducerErrorKind {
        self.kind
    }

    /// Creates a failure of the given class.
    pub fn new(kind: ReducerErrorKind) -> (error: Self)
        ensures
            error.spec_kind() == kind,
    {
        ReducerError { kind }
    }

    /// Returns the closed reducer failure class.
    pub fn kind(self) -> (kind: ReducerErrorKind)
        ensures
            kind == self.spec_kind(),
    {
        self.kind
    }
}

/// Mathematical form of a reduction result.
pub struct ReductionResultView {
    pub minimized_case: CaseView,
    pub used_evaluations: u32,
    pub completion: ReductionCompletionV1,
}

/// Bounded result of one deterministic reduction run.
#[derive(Clone, Debug)]
pub struct ReductionResultV1 {
    minimized_case: GeneratedCaseV1,
    used_evaluations: u32,
    completion: ReductionCompletionV1,
}

impl View for ReductionResultV1 {
    type V = ReductionResultView;

    closed spec fn view(&self) -> ReductionResultView {
        ReductionResultView {
            minimized_case: self.minimized_case@,
            used_evaluations: self.used_evaluations,
            completion: self.completion,
        }
    }
}

impl ReductionResultV1 {
    fn new(
        minimized_case: GeneratedCaseV1,
        used_evaluations: u32,
        completion: ReductionCompletionV1,
    ) -> (result: Self)
        ensures
            result@ == (ReductionResultView {
                minimized_case: minimized_case@,
                used_evaluations,
                completion,
            }),
    {
        ReductionResultV1 { minimized_case, used_evaluations, completion }
    }

    /// Returns the exact reduced case without renumbering retained IDs.
    pub fn minimized_case(&self) -> (case: &GeneratedCaseV1)
        ensures
            case@ == self@.minimized_case,
    {
        &self.minimized_case
    }

    /// Returns the number of candidate replay evaluations consumed.
    pub fn used_evaluations(&self) -> (used: u32)
        ensures
            used == self@.used_evaluations,
    {
        self.used_evaluations
    }

    /// Returns how the bounded reduction stopped.
    pub fn completion(&self) -> (completion: ReductionCompletionV1)
        ensures
            completion == self@.completion,
    {
        self.completion
    }
}

/// The replay side of a reduction: it replays candidates with the fault and
/// encodes them in the canonical case format.
pub struct ReductionOracleV1<L, R> {
    /// Returns the byte length of a case's canonical encoding, or `None` when
    /// the case exceeds the format's limits.
    pub encoded_len: L,
    /// Replays a case with the fault and reports whether its first failure is
    /// exactly the target failure.
    pub reproduces: R,
}

impl<
    L: Fn(&GeneratedCaseV1) -> Option<usize>,
    R: Fn(&GeneratedCaseV1) -> bool,
> ReductionOracleV1<L, R> {
    /// Both functions may be called on every case.
    pub open spec fn ready(&self) -> bool {
        &&& forall|case: &GeneratedCaseV1| #[trigger] self.encoded_len.requires((case,))
        &&& forall|case: &GeneratedCaseV1| #[trigger] self.reproduces.requires((case,))
    }

    /// The encoding may give `len` for a case with this view.
    pub open spec fn gives_len(&self, case: CaseView, len: Option<usize>) -> bool {
        exists|found: GeneratedCaseV1|
            found@ == case && #[trigger] self.encoded_len.ensures((&found,), len)
    }

    /// The replay may answer `reproduces` for a case with this view.
    pub open spec fn gives_verdict(&self, case: CaseView, reproduces: bool) -> bool {
        exists|found: GeneratedCaseV1|
            found@ == case && #[trigger] self.reproduces.ensures((&found,), reproduces)
    }

    /// The answers this oracle may give about a candidate evaluated under a
    /// budget: its encoded length, and, where the candidate is strictly
    /// smaller and so replayed, the replay's verdict.
    pub open spec fn fits(&self) -> AnswerFit {
        |case: CaseView, answer: OracleAnswer, before: SearchBudgetV1|
            self.gives_len(case, answer.0) && (spends(case, answer, before)
                ==> self.gives_verdict(case, answer.1))
    }

    /// The encoding may give a length from which `metric` is the case's
    /// metric.
    pub open spec fn measures(&self, case: CaseView, metric: ReductionMetricV1) -> bool {
        exists|len: Option<usize>|
            self.gives_len(case, len) && #[trigger] expected_metric(case, len) == Ok::<
                ReductionMetricV1,
                ReducerErrorKind,
            >(metric)
    }

    /// No candidate of any transform of `case` is kept: for answers the oracle
    /// gives, measured against a metric it gives for `case`, the search over
    /// every candidate goes on to its end.
    pub open spec fn at_fixed_point(&self, case: CaseView) -> bool {
        exists|before: SearchBudgetV1, after: SearchBudgetV1|
            self.measures(case, before.current_metric) && #[trigger] searched_by(
                reduction_candidates(case),
                before,
                after,
                SearchStep::Continue,
                self.fits(),
            )
    }

    /// One search round from `current` under the answers in `round.0`, and,
    /// when it accepts a candidate, that candidate measured under the length
    /// in `round.1`: the round's outcome, or the next case and budget.
    pub open spec fn round_step(
        &self,
        current: CaseView,
        budget: SearchBudgetV1,
        round: ReductionRound,
    ) -> Option<RoundStep> {
        let candidates = reduction_candidates(current);
        let searched = search_run(candidates, round.0, budget, self.fits());
        if round.0.len() != candidates.len() {
            None
        } else {
            match searched.0 {
                SearchStep::Continue => Some(
                    RoundStep::Done(Ok((current, searched.1.used, ReductionCompletionV1::FixedPoint))),
                ),
                SearchStep::Exhausted(Some(found)) => Some(
                    RoundStep::Done(
                        Ok((found, searched.1.used, ReductionCompletionV1::BudgetExhausted)),
                    ),
                ),
                SearchStep::Exhausted(None) => Some(
                    RoundStep::Done(
                        Ok((current, searched.1.used, ReductionCompletionV1::BudgetExhausted)),
                    ),
                ),
                SearchStep::Failed(kind) => Some(RoundStep::Done(Err(kind))),
                SearchStep::Accepted(found) => if !self.gives_len(found, round.1) {
                    None
                } else {
                    match expected_metric(found, round.1) {
                        Err(kind) => Some(RoundStep::Done(Err(kind))),
                        Ok(metric) => Some(
                            RoundStep::Next(
                                found,
                                SearchBudgetV1 { current_metric: metric, ..searched.1 },
                            ),
                        ),
                    }
                },
                _ => None,
            }
        }
    }

    /// The rounds of a reduction from `current`, one per accepted candidate
    /// and a last one that ends it; `None` where the answers are not ones the
    /// oracle gives or run out.
    pub open spec fn reduce_from(
        &self,
        current: CaseView,
        budget: SearchBudgetV1,
        rounds: Seq<ReductionRound>,
    ) -> Option<ReductionView>
        decreases rounds.len(),
    {
        if rounds.len() == 0 {
            None
        } else {
            match self.round_step(current, budget, rounds[0]) {
                Some(RoundStep::Done(outcome)) => Some(outcome),
                Some(RoundStep::Next(next, next_budget)) => self.reduce_from(
                    next,
                    next_budget,
                    rounds.drop_first(),
                ),
                None => None,
            }
        }
    }

    /// The case and budget the rounds lead to when each accepts a candidate.
    pub open spec fn reduce_through(
        &self,
        current: CaseView,
        budget: SearchBudgetV1,
        rounds: Seq<ReductionRound>,
    ) -> Option<(CaseView, SearchBudgetV1)>
        decreases rounds.len(),
    {
        if rounds.len() == 0 {
            Some((current, budget))
        } else {
            match self.round_step(current, budget, rounds[0]) {
                Some(RoundStep::Next(next, next_budget)) => self.reduce_through(
                    next,
                    next_budget,
                    rounds.drop_first(),
                ),
                _ => None,
            }
        }
    }

    /// A whole reduction of `original` under a budget of `max` evaluations:
    /// the replay's verdict on the original, the original's encoded length,
    /// and the rounds. A budget out of range is refused before anything is
    /// asked; an original that does not reproduce is refused; an original
    /// that cannot be measured fails with its metric error.
    pub open spec fn reduction(
        &self,
        original: CaseView,
        max: u32,
        verdict: bool,
        len: Option<usize>,
        rounds: Seq<ReductionRound>,
    ) -> Option<ReductionView> {
        if !valid_budget(max) {
            Some(Err(ReducerErrorKind::InvalidConfiguration))
        } else if !self.gives_verdict(original, verdict) {
            None
        } else if !verdict {
            Some(Err(ReducerErrorKind::InvalidInputFailure))
        } else if !self.gives_len(original, len) {
            None
        } else {
            match expected_metric(original, len) {
                Err(kind) => Some(Err(kind)),
                Ok(metric) => self.reduce_from(
                    original,
                    SearchBudgetV1 { current_metric: metric, used: 0, max },
                    rounds,
                ),
            }
        }
    }

    /// The encoding gives one length per case.
    pub open spec fn encodes_consistently(&self) -> bool {
        forall|case: CaseView, first: Option<usize>, second: Option<usize>|
            #![trigger self.gives_len(case, first), self.gives_len(case, second)]
            self.gives_len(case, first) && self.gives_len(case, second) ==> first == second
    }

    /// `smaller` has a metric strictly below one `larger` has, as the
    /// encoding measures them.
    pub open spec fn measured_smaller(&self, smaller: CaseView, larger: CaseView) -> bool {
        exists|small: ReductionMetricV1, large: ReductionMetricV1|
            self.measures(smaller, small) && self.measures(larger, large) && #[trigger] metric_less(
                small,
                large,
            )
    }

    /// Rounds before `more` that each accept a candidate lead where the
    /// rounds after them start.
    pub proof fn lemma_reduce_concat(
        &self,
        current: CaseView,
        budget: SearchBudgetV1,
        done: Seq<ReductionRound>,
        more: Seq<ReductionRound>,
    )
        ensures
            self.reduce_through(current, budget, done) matches Some((next, next_budget)) ==> {
                &&& self.reduce_from(current, budget, done + more) == self.reduce_from(
                    next,
                    next_budget,
                    more,
                )
                &&& self.reduce_through(current, budget, done + more) == self.reduce_through(
                    next,
                    next_budget,
                    more,
                )
            },
        decreases done.len(),
    {
        if done.len() == 0 {
            assert(done + more =~= more);
        } else {
            assert((done + more)[0] == done[0]);
            assert((done + more).drop_first() =~= done.drop_first() + more);
            if let Some(RoundStep::Next(next, next_budget)) = self.round_step(
                current,
                budget,
                done[0],
            ) {
                self.lemma_reduce_concat(next, next_budget, done.drop_first(), more);
            }
        }
    }

    /// Returns the byte length of the case's canonical encoding.
    pub fn canonical_len(&self, case: &GeneratedCaseV1) -> (len: Option<usize>)
        requires
            self.ready(),
        ensures
            self.encoded_len.ensures((case,), len),
            self.gives_len(case@, len),
    {
        let len = (self.encoded_len)(case);
        assert(self.encoded_len.ensures((&*case,), len));
        len
    }

    /// Replays the case with the fault and reports whether it reproduces the
    /// target failure.
    pub fn reproduces_target(&self, case: &GeneratedCaseV1) -> (reproduces: bool)
        requires
            self.ready(),
        ensures
            self.reproduces.ensures((case,), reproduces),
            self.gives_verdict(case@, reproduces),
    {
        let reproduces = (self.reproduces)(case);
        assert(self.reproduces.ensures((&*case,), reproduces));
        reproduces
    }
}

/// The answers of one reduction round: one per candidate of the search, and
/// the encoded length of the candidate it accepts, if it accepts one.
pub type ReductionRound = (Seq<OracleAnswer>, Option<usize>);

/// A reduction's outcome: the minimized case, the evaluations used and how
/// it stopped, or the failure.
pub type ReductionView = Result<(CaseView, u32, ReductionCompletionV1), ReducerErrorKind>;

/// Where one round leads: the end of the reduction, or the next case and
/// budget.
pub enum RoundStep {
    Done(ReductionView),
    Next(CaseView, SearchBudgetV1),
}

/// The view of a reduction result.
pub open spec fn reduction_view(result: Result<ReductionResultV1, ReducerError>) -> ReductionView {
    match result {
        Ok(reduction) => Ok(
            (reduction@.minimized_case, reduction@.used_evaluations, reduction@.completion),
        ),
        Err(error) => Err(error.spec_kind()),
    }
}

/// Whether a budget is a valid configuration: `1..=4096`.
pub open spec fn valid_budget(max_evaluations: u32) -> bool {
    1 <= max_evaluations <= MAX_EVALUATIONS_V1
}

/// A case that a reduction may lead to from another: the same fixture,
/// generator provenance and seed, no more transactions and no more operations.
pub open spec fn reduces_to(original: CaseView, reduced: CaseView) -> bool {
    &&& reduced.fixture_revision == original.fixture_revision
    &&& reduced.config == original.config
    &&& reduced.seed == original.seed
    &&& reduced.transactions.len() <= original.transactions.len()
    &&& total_operations(reduced.transactions) <= total_operations(original.transactions)
}

/// Refuses a budget outside `1..=4096`.
pub fn validate_config(config: ReducerConfigV1) -> (result: Result<(), ReducerError>)
    ensures
        match result {
            Ok(()) => valid_budget(config.spec_max_evaluations()),
            Err(error) => !valid_budget(config.spec_max_evaluations()) && error.spec_kind()
                == ReducerErrorKind::InvalidConfiguration,
        },
{
    let max_evaluations = config.max_evaluations();
    if max_evaluations < 1 || max_evaluations > MAX_EVALUATIONS_V1 {
        return Err(ReducerError::new(ReducerErrorKind::InvalidConfiguration));
    }
    Ok(())
}

/// Reduces one exact reproducible failure under the ordered transforms.
///
/// The configuration is checked first, then that the original case
/// reproduces the target failure. Each accepted candidate is strictly smaller
/// in the reducer's metric and costs one evaluation of the budget; the result
/// reports whether the transforms reached a fixed point first or the budget
/// ran out.
pub fn reduce_failure_case_v1<L: Fn(&GeneratedCaseV1) -> Option<usize>, R: Fn(&GeneratedCaseV1) -> bool>(
    oracle: &ReductionOracleV1<L, R>,
    original: &GeneratedCaseV1,
    config: ReducerConfigV1,
) -> (result: Result<ReductionResultV1, ReducerError>)
    requires
        oracle.ready(),
    ensures
        exists|verdict: bool, len: Option<usize>, rounds: Seq<ReductionRound>|
            #[trigger] oracle.reduction(
                original@,
                config.spec_max_evaluations(),
                verdict,
                len,
                rounds,
            ) == Some(reduction_view(result)),
        !valid_budget(config.spec_max_evaluations()) ==> result is Err && result->Err_0.spec_kind()
            == ReducerErrorKind::InvalidConfiguration,
        match result {
            Ok(reduction) => {
                &&& valid_budget(config.spec_max_evaluations())
                &&& oracle.gives_verdict(original@, true)
                &&& oracle.gives_verdict(reduction@.minimized_case, true)
                &&& reduction@.used_evaluations <= config.spec_max_evaluations()
                &&& (reduction@.completion == ReductionCompletionV1::FixedPoint
                    ==> reduction@.used_evaluations < config.spec_max_evaluations()
                    && oracle.at_fixed_point(reduction@.minimized_case))
                &&& (reduction@.completion == ReductionCompletionV1::BudgetExhausted
                    ==> reduction@.used_evaluations == config.spec_max_evaluations())
                &&& reduces_to(original@, reduction@.minimized_case)
                &&& ids_kept(original@, reduction@.minimized_case)
                &&& (oracle.encodes_consistently() ==> reduction@.minimized_case == original@
                    || oracle.measured_smaller(reduction@.minimized_case, original@))
            },
            Err(error) => valid_budget(config.spec_max_evaluations()) ==> (if error.spec_kind()
                == ReducerErrorKind::InvalidInputFailure {
                oracle.gives_verdict(original@, false)
            } else {
                is_metric_failure(error.spec_kind()) && oracle.gives_verdict(original@, true)
            }),
        },
{
    let ghost max = config.spec_max_evaluations();
    match validate_config(config) {
        Ok(()) => {},
        Err(error) => {
            proof {
                assert(oracle.reduction(original@, max, false, None, Seq::empty()) == Some(
                    reduction_view(Err::<ReductionResultV1, ReducerError>(error)),
                ));
            }
            return Err(error);
        },
    }
    let verdict = oracle.reproduces_target(original);
    if !verdict {
        let error = ReducerError::new(ReducerErrorKind::InvalidInputFailure);
        proof {
            assert(oracle.reduction(original@, max, verdict, None, Seq::empty()) == Some(
                reduction_view(Err::<ReductionResultV1, ReducerError>(error)),
            ));
        }
        return Err(error);
    }
    let mut current = original.clone();
    let measured = measure_case_v1(oracle, &current);
    let ghost first_len = choose|len: Option<usize>|
        oracle.gives_len(original@, len) && match #[trigger] expected_metric(original@, len) {
            Ok(metric) => measured == Ok::<ReductionMetricV1, ReducerError>(metric),
            Err(kind) => measured is Err && measured->Err_0.spec_kind() == kind,
        };
    let current_metric = match measured {
        Ok(metric) => metric,
        Err(error) => {
            proof {
                assert(oracle.reduction(original@, max, true, first_len, Seq::empty()) == Some(
                    reduction_view(Err::<ReductionResultV1, ReducerError>(error)),
                ));
            }
            return Err(error);
        },
    };
    let mut budget = SearchBudgetV1 {
        current_metric,
        used: 0,
        max: config.max_evaluations(),
    };
    let ghost start = budget;
    let ghost mut done: Seq<ReductionRound> = Seq::empty();
    proof {
        assert(oracle.measures(original@, start.current_metric));
        lemma_ids_kept_self(original@);
    }
    loop
        invariant
            oracle.ready(),
            budget.used < budget.max,
            budget.max == config.spec_max_evaluations(),
            max == config.spec_max_evaluations(),
            valid_budget(config.spec_max_evaluations()),
            budget.current_metric.operations == total_operations(current@.transactions),
            reduces_to(original@, current@),
            ids_kept(original@, current@),
            oracle.gives_verdict(original@, true),
            oracle.gives_verdict(current@, true),
            oracle.measures(current@, budget.current_metric),
            oracle.gives_len(original@, first_len),
            expected_metric(original@, first_len) == Ok::<ReductionMetricV1, ReducerErrorKind>(
                start.current_metric,
            ),
            start == (SearchBudgetV1 { current_metric: start.current_metric, used: 0, max }),
            oracle.measures(original@, start.current_metric),
            oracle.reduce_through(original@, start, done) == Some((current@, budget)),
            oracle.encodes_consistently() ==> (current@ == original@ && budget.current_metric
                == start.current_metric) || metric_less(
                budget.current_metric,
                start.current_metric,
            ),
        decreases budget.max - budget.used,
    {
        let ghost before = budget;
        let ghost here = current@;
        let searched = search_candidates_v1(&current, oracle, &mut budget);
        let ghost answers = choose|answers: Seq<OracleAnswer>|
            answers.len() == reduction_candidates(here).len() && #[trigger] search_run(
                reduction_candidates(here),
                answers,
                before,
                oracle.fits(),
            ) == (final_step(searched), budget);
        proof {
            lemma_search_found(reduction_candidates(here), answers, before, oracle.fits());
            lemma_search_found_member(reduction_candidates(here), answers, before, oracle.fits());
            lemma_candidates_keep_ids(here);
            if let Some(found) = found_case(final_step(searched)) {
                let k = choose|k: int|
                    0 <= k < reduction_candidates(here).len() && #[trigger] reduction_candidates(
                        here,
                    )[k] == found;
                assert(ids_kept(here, reduction_candidates(here)[k]));
                lemma_ids_kept_trans(original@, here, found);
            }
        }
        let outcome = match searched {
            Ok(outcome) => outcome,
            Err(error) => {
                proof {
                    let round: ReductionRound = (answers, None);
                    oracle.lemma_reduce_concat(original@, start, done, seq![round]);
                    assert(oracle.round_step(here, before, round) == Some(
                        RoundStep::Done(Err(error.spec_kind())),
                    ));
                    assert(oracle.reduction(original@, max, true, first_len, done + seq![round])
                        == Some(reduction_view(Err::<ReductionResultV1, ReducerError>(error))));
                }
                return Err(error);
            },
        };
        let ghost step = final_step_of(&outcome);
        match outcome {
            SearchOutcomeV1::Accepted(candidate) => {
                let ghost found = candidate@;
                let measured = measure_case_v1(oracle, &candidate);
                let ghost len = choose|len: Option<usize>|
                    oracle.gives_len(found, len) && match #[trigger] expected_metric(found, len) {
                        Ok(metric) => measured == Ok::<ReductionMetricV1, ReducerError>(metric),
                        Err(kind) => measured is Err && measured->Err_0.spec_kind() == kind,
                    };
                let ghost round: ReductionRound = (answers, len);
                proof {
                    oracle.lemma_reduce_concat(original@, start, done, seq![round]);
                }
                let metric = match measured {
                    Ok(metric) => metric,
                    Err(error) => {
                        proof {
                            assert(oracle.round_step(here, before, round) == Some(
                                RoundStep::Done(Err(error.spec_kind())),
                            ));
                            assert(oracle.reduction(
                                original@,
                                max,
                                true,
                                first_len,
                                done + seq![round],
                            ) == Some(reduction_view(Err::<ReductionResultV1, ReducerError>(error))));
                        }
                        return Err(error);
                    },
                };
                proof {
                    let (answer, spent) = choose|answer: OracleAnswer, spent: SearchBudgetV1|
                        #[trigger] oracle.fits()(found, answer, spent) && answer.1 && spends(
                            found,
                            answer,
                            spent,
                        ) && spent.current_metric == before.current_metric;
                    let next = SearchBudgetV1 { current_metric: metric, ..budget };
                    assert(oracle.round_step(here, before, round) == Some(
                        RoundStep::Next(found, next),
                    ));
                    assert(seq![round].drop_first() =~= Seq::<ReductionRound>::empty());
                    assert(oracle.reduce_through(found, next, seq![round].drop_first()) == Some(
                        (found, next),
                    ));
                    assert(done + seq![round] =~= done.push(round));
                    if oracle.encodes_consistently() {
                        assert(oracle.gives_len(found, answer.0));
                        assert(answer.0 == len);
                    }
                    done = done.push(round);
                }
                budget.current_metric = metric;
                current = candidate;
            },
            SearchOutcomeV1::Exhausted(Some(candidate)) => {
                let ghost found = candidate@;
                let reduction = ReductionResultV1::new(
                    candidate,
                    budget.used,
                    ReductionCompletionV1::BudgetExhausted,
                );
                proof {
                    let round: ReductionRound = (answers, None);
                    oracle.lemma_reduce_concat(original@, start, done, seq![round]);
                    assert(oracle.round_step(here, before, round) == Some(
                        RoundStep::Done(reduction_view(Ok::<ReductionResultV1, ReducerError>(reduction))),
                    ));
                    assert(oracle.reduction(original@, max, true, first_len, done + seq![round])
                        == Some(reduction_view(Ok::<ReductionResultV1, ReducerError>(reduction))));
                    let (answer, spent) = choose|answer: OracleAnswer, spent: SearchBudgetV1|
                        #[trigger] oracle.fits()(found, answer, spent) && answer.1 && spends(
                            found,
                            answer,
                            spent,
                        ) && spent.current_metric == before.current_metric;
                    if oracle.encodes_consistently() {
                        let small = expected_metric(found, answer.0)->Ok_0;
                        assert(oracle.measures(found, small));
                        assert(metric_less(small, start.current_metric));
                    }
                }
                return Ok(reduction);
            },
            SearchOutcomeV1::Exhausted(None) => {
                let reduction = ReductionResultV1::new(
                    current,
                    budget.used,
                    ReductionCompletionV1::BudgetExhausted,
                );
                proof {
                    let round: ReductionRound = (answers, None);
                    oracle.lemma_reduce_concat(original@, start, done, seq![round]);
                    assert(oracle.round_step(here, before, round) == Some(
                        RoundStep::Done(reduction_view(Ok::<ReductionResultV1, ReducerError>(reduction))),
                    ));
                    assert(oracle.reduction(original@, max, true, first_len, done + seq![round])
                        == Some(reduction_view(Ok::<ReductionResultV1, ReducerError>(reduction))));
                }
                return Ok(reduction);
            },
            SearchOutcomeV1::FixedPoint => {
                let reduction = ReductionResultV1::new(
                    current,
                    budget.used,
                    ReductionCompletionV1::FixedPoint,
                );
                proof {
                    assert(searched_by(
                        reduction_candidates(here),
                        before,
                        budget,
                        SearchStep::Continue,
                        oracle.fits(),
                    ));
                    let round: ReductionRound = (answers, None);
                    oracle.lemma_reduce_concat(original@, start, done, seq![round]);
                    assert(oracle.round_step(here, before, round) == Some(
                        RoundStep::Done(reduction_view(Ok::<ReductionResultV1, ReducerError>(reduction))),
                    ));
                    assert(oracle.reduction(original@, max, true, first_len, done + seq![round])
                        == Some(reduction_view(Ok::<ReductionResultV1, ReducerError>(reduction))));
                }
                return Ok(reduction);
            },
        }
    }
}

/// The search step a search outcome stands for.
pub open spec fn final_step_of(outcome: &SearchOutcomeV1) -> SearchStep {
    final_step(Ok::<SearchOutcomeV1, ReducerError>(*outcome))
}

} // verus!
