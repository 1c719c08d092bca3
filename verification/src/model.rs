//! The view model over the search's reported outcomes: recorded
//! outcomes, their ranking, and the score series the display charts.
use vstd::prelude::*;
use crate::chars::{decimal_string, spec_decimal};
use crate::config::WeightsConfig;
use crate::generation::Outcome;
use crate::selection::{rank_le, sort_rank_space};
use crate::summary::{Summary, spec_score, summary_wf, weights_wf};

verus! {

/// The outcome record of every completed generation, oldest first.
pub struct ViewModel {
    pub outcomes: Vec<Outcome>,
    pub progress_window_size: usize,
}

/// The spec-level reading of an outcome.
pub open spec fn outcome_view(o: Outcome) -> (Seq<char>, Summary, Seq<char>, Summary) {
    (o.winner.template@, o.winner_summary, o.best.template@, o.best_summary)
}

/// Whether the score computations on a list of outcomes stay in
/// bounds.
pub open spec fn outcomes_wf(s: Seq<Outcome>) -> bool {
    forall|j: int|
        0 <= j < s.len() ==> summary_wf((#[trigger] s[j]).best_summary) && summary_wf(
            s[j].winner_summary,
        )
}

/// Whether `o` shows the same layouts and summaries as some recorded
/// outcome.
pub open spec fn is_recorded(outcomes: Seq<Outcome>, o: Outcome) -> bool {
    exists|k: int| 0 <= k < outcomes.len() && outcome_view(o) == outcome_view(outcomes[k])
}

/// Whether `sorted` is the recorded outcomes re-ordered by the
/// ranking order: rank `j` shows the outcome at the `j`-th ranked
/// index, and no recorded index is ranked twice, so the ranking is a
/// permutation of the record.
pub open spec fn is_ranking_of(
    outcomes: Seq<Outcome>,
    w: WeightsConfig,
    sorted: Seq<Outcome>,
) -> bool {
    let order = spec_outcome_order(outcomes, w);
    &&& sorted.len() == outcomes.len()
    &&& order.len() == outcomes.len()
    &&& forall|j: int|
        0 <= j < sorted.len() ==> (#[trigger] order[j]).0 < outcomes.len() && outcome_view(
            sorted[j],
        ) == outcome_view(outcomes[order[j].0 as int])
    &&& forall|a: int, b: int|
        0 <= a < b < order.len() ==> (#[trigger] order[a]).0 != (#[trigger] order[b]).0
}

/// The ranking order of recorded outcomes under the given weights:
/// outcome indices sorted by descending best score, ties by index.
/// (Each index is paired with the score's distance below the maximum,
/// so the ascending rank order is the descending score order.)
pub open spec fn spec_outcome_order(s: Seq<Outcome>, w: WeightsConfig) -> Seq<(usize, u64)> {
    Seq::new(
        s.len(),
        |i: int| (i as usize, (u64::MAX - spec_score(w, s[i].best_summary)) as u64),
    ).sort_by(|a: (usize, u64), b: (usize, u64)| rank_le(a, b))
}

/// The scalar display score of a summary.
pub fn to_score(summary: &Summary, weights: &WeightsConfig) -> (score: u64)
    requires
        summary_wf(*summary),
        weights_wf(*weights),
    ensures
        score == spec_score(*weights, *summary),
        score <= 31_000_000_000,
{
    summary.score(weights)
}

impl ViewModel {
    /// An empty record with the given progress window.
    pub fn new(progress_window_size: usize) -> (model: ViewModel)
        ensures
            model.outcomes@.len() == 0,
            model.progress_window_size == progress_window_size,
    {
        ViewModel { outcomes: Vec::new(), progress_window_size }
    }

    /// Appends one generation's outcome.
    pub fn record(&mut self, outcome: Outcome)
        ensures
            final(self).outcomes@ == old(self).outcomes@.push(outcome),
            final(self).progress_window_size == old(self).progress_window_size,
    {
        self.outcomes.push(outcome);
    }

    /// The recorded outcomes ranked by their best summaries' scores,
    /// highest first.
    pub fn sorted_outcomes(&self, weights: &WeightsConfig) -> (sorted: Vec<Outcome>)
        requires
            outcomes_wf(self.outcomes@),
            weights_wf(*weights),
        ensures
            sorted@.len() == self.outcomes@.len(),
            forall|j: int|
                0 <= j < sorted@.len() ==> summary_wf((#[trigger] sorted@[j]).best_summary)
                    && summary_wf(sorted@[j].winner_summary),
            forall|j: int|
                0 <= j < sorted@.len() ==> is_recorded(self.outcomes@, #[trigger] sorted@[j]),
            forall|a: int, b: int|
                0 <= a < b < sorted@.len() ==> spec_score(
                    *weights,
                    (#[trigger] sorted@[a]).best_summary,
                ) >= spec_score(*weights, (#[trigger] sorted@[b]).best_summary),
            is_ranking_of(self.outcomes@, *weights, sorted@),
    {
        let ghost ov = self.outcomes@;
        let mut pairs: Vec<(usize, u64)> = Vec::new();
        let n: usize = self.outcomes.len();
        let ghost unsorted = Seq::new(
            ov.len(),
            |i: int| (i as usize, (u64::MAX - spec_score(*weights, ov[i].best_summary)) as u64),
        );
        for i in 0..n
            invariant
                n == ov.len(),
                ov == self.outcomes@,
                outcomes_wf(ov),
                weights_wf(*weights),
                unsorted == Seq::new(
                    ov.len(),
                    |i: int| (
                        i as usize,
                        (u64::MAX - spec_score(*weights, ov[i].best_summary)) as u64,
                    ),
                ),
                pairs@ =~= unsorted.take(i as int),
        {
            let score = to_score(&self.outcomes[i].best_summary, weights);
            pairs.push((i, u64::MAX - score));
            assert(pairs@ =~= unsorted.take(i + 1));
        }
        assert(pairs@ =~= unsorted);
        let order = sort_rank_space(&pairs);
        proof {
            crate::selection::lemma_rank_le_total();
            let leq = |a: (usize, u64), b: (usize, u64)| rank_le(a, b);
            broadcast use vstd::seq_lib::group_to_multiset_ensures;

            unsorted.lemma_sort_by_ensures(leq);
            assert(order@.len() == order@.to_multiset().len());
            assert(unsorted.len() == unsorted.to_multiset().len());
            assert(order@.to_multiset() =~= unsorted.to_multiset());
            assert forall|j: int| 0 <= j < order@.len() implies (#[trigger] order@[j]).0
                < ov.len() && order@[j].1 == (u64::MAX - spec_score(
                *weights,
                ov[order@[j].0 as int].best_summary,
            )) as u64 by {
                assert(order@.to_multiset().contains(order@[j]));
                assert(unsorted.contains(order@[j]));
                let k = choose|k: int| 0 <= k < unsorted.len() && unsorted[k] == order@[j];
                assert(unsorted[k].0 == k as usize);
            }
            assert(vstd::relations::sorted_by(order@, leq));
        }
        let mut sorted: Vec<Outcome> = Vec::new();
        let m: usize = order.len();
        proof {
            crate::summary::lemma_score_bounds(*weights, Summary {
                effort: 0,
                overheads: 0,
                awkwardness: 0,
                rollingness: 0,
                fitness: 0,
            });
        }
        for j in 0..m
            invariant
                m == order@.len() && m == ov.len(),
                ov == self.outcomes@,
                outcomes_wf(ov),
                weights_wf(*weights),
                vstd::relations::sorted_by(
                    order@,
                    |a: (usize, u64), b: (usize, u64)| rank_le(a, b),
                ),
                forall|k: int|
                    0 <= k < order@.len() ==> (#[trigger] order@[k]).0 < ov.len() && order@[k].1
                        == (u64::MAX - spec_score(
                        *weights,
                        ov[order@[k].0 as int].best_summary,
                    )) as u64,
                sorted@.len() == j,
                forall|k: int|
                    0 <= k < j ==> outcome_view(#[trigger] sorted@[k]) == outcome_view(
                        ov[order@[k].0 as int],
                    ) && summary_wf(sorted@[k].best_summary) && summary_wf(
                        sorted@[k].winner_summary,
                    ),
        {
            let index = order[j].0;
            sorted.push(self.outcomes[index].duplicate());
            proof {
                assert(outcome_view(sorted@[j as int]) == outcome_view(ov[index as int]));
                assert(summary_wf(ov[index as int].best_summary));
                assert(sorted@[j as int].best_summary == ov[index as int].best_summary);
                assert(sorted@[j as int].winner_summary == ov[index as int].winner_summary);
            }
        }
        proof {
            let leq = |a: (usize, u64), b: (usize, u64)| rank_le(a, b);
            assert forall|a: int, b: int|
                0 <= a < b < sorted@.len() implies spec_score(
                *weights,
                (#[trigger] sorted@[a]).best_summary,
            ) >= spec_score(*weights, (#[trigger] sorted@[b]).best_summary) by {
                assert(leq(order@[a], order@[b]));
                assert(rank_le(order@[a], order@[b]));
                let sa = spec_score(*weights, ov[order@[a].0 as int].best_summary);
                let sb = spec_score(*weights, ov[order@[b].0 as int].best_summary);
                crate::summary::lemma_score_bounds(*weights, ov[order@[a].0 as int].best_summary);
                crate::summary::lemma_score_bounds(*weights, ov[order@[b].0 as int].best_summary);
                assert(order@[a].1 <= order@[b].1);
                assert(sorted@[a].best_summary == ov[order@[a].0 as int].best_summary);
                assert(sorted@[b].best_summary == ov[order@[b].0 as int].best_summary);
            }
            assert forall|j: int|
                0 <= j < sorted@.len() implies is_recorded(
                self.outcomes@,
                #[trigger] sorted@[j],
            ) by {
                let w = order@[j].0 as int;
                assert(0 <= w < self.outcomes@.len());
                assert(outcome_view(sorted@[j]) == outcome_view(self.outcomes@[w]));
            }
            // The ranked index column repeats no index: the unsorted
            // pairs are duplicate-free, the sort keeps the multiset,
            // and each pair's index pins the pair.
            broadcast use vstd::seq_lib::group_to_multiset_ensures;

            assert(order@ == spec_outcome_order(ov, *weights)) by {
                assert(unsorted =~= Seq::new(
                    ov.len(),
                    |i: int| (
                        i as usize,
                        (u64::MAX - spec_score(*weights, ov[i].best_summary)) as u64,
                    ),
                ));
            }
            assert(unsorted.no_duplicates()) by {
                assert forall|i: int, j: int|
                    0 <= i < unsorted.len() && 0 <= j < unsorted.len() && i != j
                    implies unsorted[i] != unsorted[j] by {
                    assert(unsorted[i].0 == i as usize && unsorted[j].0 == j as usize);
                }
            }
            unsorted.lemma_multiset_has_no_duplicates();
            assert(order@.to_multiset() =~= unsorted.to_multiset());
            assert(forall|x: (usize, u64)|
                order@.to_multiset().contains(x) ==> order@.to_multiset().count(x) == 1);
            order@.lemma_multiset_has_no_duplicates_conv();
            assert forall|a: int, b: int|
                0 <= a < b < order@.len() implies (#[trigger] order@[a]).0
                != (#[trigger] order@[b]).0 by {
                if order@[a].0 == order@[b].0 {
                    assert(order@.to_multiset().contains(order@[a]));
                    assert(unsorted.contains(order@[a]));
                    let k1 = choose|k: int| 0 <= k < unsorted.len() && unsorted[k] == order@[a];
                    assert(order@.to_multiset().contains(order@[b]));
                    assert(unsorted.contains(order@[b]));
                    let k2 = choose|k: int| 0 <= k < unsorted.len() && unsorted[k] == order@[b];
                    assert(unsorted[k1].0 == k1 as usize);
                    assert(unsorted[k2].0 == k2 as usize);
                    assert(k1 == k2);
                    assert(order@[a] == order@[b]);
                }
            }
            assert(is_ranking_of(ov, *weights, sorted@));
        }
        sorted
    }

    /// The ranked table the display shows: place, layout name, score.
    pub fn top_list(&self, weights: &WeightsConfig) -> (rows: Vec<Vec<String>>)
        requires
            outcomes_wf(self.outcomes@),
            weights_wf(*weights),
        ensures
            rows@.len() == self.outcomes@.len(),
            forall|j: int|
                0 <= j < rows@.len() ==> (#[trigger] rows@[j])@.len() == 3 && spec_decimal(
                    j + 1,
                    rows@[j]@[0]@,
                ),
    {
        let sorted = self.sorted_outcomes(weights);
        let mut rows: Vec<Vec<String>> = Vec::new();
        let n: usize = sorted.len();
        for j in 0..n
            invariant
                n == sorted@.len(),
                n == self.outcomes@.len(),
                outcomes_wf(self.outcomes@),
                weights_wf(*weights),
                forall|k: int|
                    0 <= k < sorted@.len() ==> summary_wf(
                        (#[trigger] sorted@[k]).best_summary,
                    ),
                rows@.len() == j,
                forall|k: int|
                    0 <= k < j ==> (#[trigger] rows@[k])@.len() == 3 && spec_decimal(
                        k + 1,
                        rows@[k]@[0]@,
                    ),
        {
            let rank = decimal_string((j + 1) as u64);
            let entries = sorted[j].best.entries();
            let name = if entries.len() >= 23 {
                sorted[j].best.long_name()
            } else {
                String::new()
            };
            assert(summary_wf(sorted@[j as int].best_summary));
            let score = to_score(&sorted[j].best_summary, weights);
            let score_text = decimal_string(score);
            let mut row: Vec<String> = Vec::new();
            row.push(rank);
            row.push(name);
            row.push(score_text);
            rows.push(row);
        }
        rows
    }

    /// The best recorded outcome, if any was recorded.
    pub fn best_outcome(&self, weights: &WeightsConfig) -> (r: Option<Outcome>)
        requires
            outcomes_wf(self.outcomes@),
            weights_wf(*weights),
        ensures
            match r {
                Some(o) => self.outcomes@.len() > 0 && is_recorded(self.outcomes@, o),
                None => self.outcomes@.len() == 0,
            },
    {
        let sorted = self.sorted_outcomes(weights);
        if sorted.len() == 0 {
            None
        } else {
            let top = sorted[0].duplicate();
            proof {
                assert(is_recorded(self.outcomes@, sorted@[0]));
                let k = choose|k: int|
                    0 <= k < self.outcomes@.len() && outcome_view(sorted@[0]) == outcome_view(
                        self.outcomes@[k],
                    );
                assert(outcome_view(top) == outcome_view(self.outcomes@[k]));
            }
            Some(top)
        }
    }

    /// The best scores of all time, lowest of the window first: the
    /// top `progress_window_size` best-summary scores in ascending
    /// order, indexed from zero.
    pub fn top_scores(&self, weights: &WeightsConfig) -> (points: Vec<(u64, u64)>)
        requires
            outcomes_wf(self.outcomes@),
            weights_wf(*weights),
        ensures
            points@.len() == (if self.outcomes@.len() <= self.progress_window_size {
                self.outcomes@.len() as int
            } else {
                self.progress_window_size as int
            }),
            forall|j: int|
                0 <= j < points@.len() ==> (#[trigger] points@[j]).0 == j,
    {
        let sorted = self.sorted_outcomes(weights);
        let window: usize = if sorted.len() <= self.progress_window_size {
            sorted.len()
        } else {
            self.progress_window_size
        };
        let mut points: Vec<(u64, u64)> = Vec::new();
        let mut j: usize = window;
        while j > 0
            invariant
                j <= window <= sorted@.len(),
                outcomes_wf(self.outcomes@),
                weights_wf(*weights),
                forall|k: int|
                    0 <= k < sorted@.len() ==> summary_wf(
                        (#[trigger] sorted@[k]).best_summary,
                    ),
                points@.len() == window - j,
                forall|k: int| 0 <= k < points@.len() ==> (#[trigger] points@[k]).0 == k,
            decreases j,
        {
            j = j - 1;
            assert(summary_wf(sorted@[j as int].best_summary));
            let score = to_score(&sorted[j].best_summary, weights);
            points.push(((window - 1 - j) as u64, score));
        }
        points
    }

    /// The best-summary scores of the last window of outcomes, in the
    /// order they came.
    pub fn best_scores(&self, weights: &WeightsConfig) -> (points: Vec<(u64, u64)>)
        requires
            outcomes_wf(self.outcomes@),
            weights_wf(*weights),
        ensures
            ({
                let n = self.outcomes@.len() as int;
                let w = if n <= self.progress_window_size {
                    n
                } else {
                    self.progress_window_size as int
                };
                points@.len() == w && (forall|j: int|
                    0 <= j < w ==> (#[trigger] points@[j]) == (
                        j as u64,
                        spec_score(*weights, self.outcomes@[n - w + j].best_summary) as u64,
                    ))
            }),
    {
        let n: usize = self.outcomes.len();
        let window: usize = if n <= self.progress_window_size {
            n
        } else {
            self.progress_window_size
        };
        let mut points: Vec<(u64, u64)> = Vec::new();
        for j in 0..window
            invariant
                window <= n == self.outcomes@.len(),
                outcomes_wf(self.outcomes@),
                weights_wf(*weights),
                points@.len() == j,
                forall|k: int|
                    0 <= k < j ==> (#[trigger] points@[k]) == (
                        k as u64,
                        spec_score(
                            *weights,
                            self.outcomes@[self.outcomes@.len() - window + k].best_summary,
                        ) as u64,
                    ),
        {
            let score = to_score(&self.outcomes[n - window + j].best_summary, weights);
            points.push((j as u64, score));
        }
        points
    }

    /// The winner-summary scores of the last window of outcomes, in
    /// the order they came.
    pub fn winner_scores(&self, weights: &WeightsConfig) -> (points: Vec<(u64, u64)>)
        requires
            outcomes_wf(self.outcomes@),
            weights_wf(*weights),
        ensures
            ({
                let n = self.outcomes@.len() as int;
                let w = if n <= self.progress_window_size {
                    n
                } else {
                    self.progress_window_size as int
                };
                points@.len() == w && (forall|j: int|
                    0 <= j < w ==> (#[trigger] points@[j]) == (
                        j as u64,
                        spec_score(*weights, self.outcomes@[n - w + j].winner_summary) as u64,
                    ))
            }),
    {
        let n: usize = self.outcomes.len();
        let window: usize = if n <= self.progress_window_size {
            n
        } else {
            self.progress_window_size
        };
        let mut points: Vec<(u64, u64)> = Vec::new();
        for j in 0..window
            invariant
                window <= n == self.outcomes@.len(),
                outcomes_wf(self.outcomes@),
                weights_wf(*weights),
                points@.len() == j,
                forall|k: int|
                    0 <= k < j ==> (#[trigger] points@[k]) == (
                        k as u64,
                        spec_score(
                            *weights,
                            self.outcomes@[self.outcomes@.len() - window + k].winner_summary,
                        ) as u64,
                    ),
        {
            let score = to_score(&self.outcomes[n - window + j].winner_summary, weights);
            points.push((j as u64, score));
        }
        points
    }
}

} // verus!
