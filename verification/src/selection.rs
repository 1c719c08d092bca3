//! Multi-objective selection: candidates are renormalised against the
//! population's best on each axis, ranked by their distance from the
//! ideal corner, and drawn with a geometrically decaying probability,
//! so the top rank is the likeliest pick but no rank is hopeless.
use vstd::prelude::*;
use rand::Rng;
use vstd::relations::{total_ordering, sorted_by};
use vstd::seq_lib::lemma_sorted_unique;
use crate::config::SelectionConfig;

verus! {

/// One candidate's scores, in thousandths: the scalar performance and
/// the deviation from the population's reference member.
#[derive(Debug, PartialEq, Eq, Structural, Clone, Copy)]
pub struct Score {
    pub performance: u64,
    pub deviation: u64,
}

pub type Scores = Vec<Score>;

pub type RankSpace = Vec<(usize, u64)>;

/// A population's scores, ready for a draw.
pub struct Selection {
    pub scores: Scores,
}

/// The bounds under which ranking cannot overflow.
pub open spec fn scores_wf(s: Seq<Score>) -> bool {
    forall|i: int|
        0 <= i < s.len() ==> (#[trigger] s[i]).performance <= 1_000_000_000_000
            && s[i].deviation <= 1_000_000_000_000
}

/// The largest performance among the scores from index `i` on.
pub open spec fn spec_max_perf(s: Seq<Score>, i: int) -> int
    decreases s.len() - i,
{
    if i < 0 || i >= s.len() {
        0
    } else {
        let rest = spec_max_perf(s, i + 1);
        if s[i].performance >= rest {
            s[i].performance as int
        } else {
            rest
        }
    }
}

/// The largest deviation among the scores from index `i` on.
pub open spec fn spec_max_dev(s: Seq<Score>, i: int) -> int
    decreases s.len() - i,
{
    if i < 0 || i >= s.len() {
        0
    } else {
        let rest = spec_max_dev(s, i + 1);
        if s[i].deviation >= rest {
            s[i].deviation as int
        } else {
            rest
        }
    }
}

/// A score scaled so that each axis's population maximum becomes
/// 1000; an axis whose maximum is zero stays zero.
pub open spec fn spec_renorm_one(sc: Score, maxp: int, maxd: int) -> Score {
    Score {
        performance: if maxp == 0 {
            0u64
        } else {
            (1000 * sc.performance / maxp) as u64
        },
        deviation: if maxd == 0 {
            0u64
        } else {
            (1000 * sc.deviation / maxd) as u64
        },
    }
}

/// The renormalised scores.
pub open spec fn spec_renormalise(s: Seq<Score>) -> Seq<Score> {
    Seq::new(
        s.len(),
        |i: int| spec_renorm_one(s[i], spec_max_perf(s, 0), spec_max_dev(s, 0)),
    )
}

/// The squared distance of a renormalised score from the ideal corner
/// (1000, 1000), with the deviation axis scaled by the diversity bias
/// first.  Distances are compared, never measured, so the square root
/// is left out.
pub open spec fn spec_rank_of(sc: Score, bias_milli: int) -> int {
    let dterm = sc.deviation * bias_milli / 1000;
    let dx = if sc.performance >= 1000 {
        sc.performance - 1000
    } else {
        1000 - sc.performance
    };
    let dy = if dterm >= 1000 {
        dterm - 1000
    } else {
        1000 - dterm
    };
    dx * dx + dy * dy
}

/// The ranks of all candidates.
pub open spec fn spec_ranks(s: Seq<Score>, bias_milli: int) -> Seq<int> {
    spec_renormalise(s).map_values(|sc: Score| spec_rank_of(sc, bias_milli))
}

/// The rank-space order: closest to the ideal first, ties broken by
/// candidate index.
pub open spec fn rank_le(a: (usize, u64), b: (usize, u64)) -> bool {
    a.1 < b.1 || (a.1 == b.1 && a.0 <= b.0)
}

/// The rank-space order is total.
pub proof fn lemma_rank_le_total()
    ensures
        total_ordering(|a: (usize, u64), b: (usize, u64)| rank_le(a, b)),
{
    let leq = |a: (usize, u64), b: (usize, u64)| rank_le(a, b);
    assert forall|a: (usize, u64), b: (usize, u64)| #[trigger] leq(a, b) && #[trigger] leq(b, a)
        implies a == b by {
        assert(a.1 == b.1 && a.0 == b.0);
    }
    assert(vstd::relations::reflexive(leq)) by {
        assert forall|a: (usize, u64)| #[trigger] leq(a, a) by {
            assert(rank_le(a, a));
        }
    }
    assert(vstd::relations::transitive(leq)) by {
        assert forall|a: (usize, u64), b: (usize, u64), c: (usize, u64)|
            #[trigger] leq(a, b) && #[trigger] leq(b, c) implies leq(a, c) by {
            assert(rank_le(a, b) && rank_le(b, c));
            assert(rank_le(a, c));
        }
    }
    assert(vstd::relations::strongly_connected(leq)) by {
        assert forall|a: (usize, u64), b: (usize, u64)| #[trigger] leq(a, b) || #[trigger] leq(
            b,
            a,
        ) by {
            if !rank_le(a, b) {
                assert(rank_le(b, a));
            }
        }
    }
}

/// The rank space of the scores: every candidate index paired with its
/// rank, sorted closest-to-ideal first.
pub open spec fn spec_rank_space(s: Seq<Score>, bias_milli: int) -> Seq<(usize, u64)> {
    Seq::new(s.len(), |i: int| (i as usize, spec_ranks(s, bias_milli)[i] as u64)).sort_by(
        |a: (usize, u64), b: (usize, u64)| rank_le(a, b),
    )
}

/// Relies on rand's `Rng::gen_range` on the thread-local generator: a
/// uniformly drawn percentage below one hundred.
#[verifier::external_body]
fn random_percent() -> (r: usize)
    ensures
        r < 100,
{
    let mut rng = rand::thread_rng();
    rng.gen_range(0..100)
}

/// Scaling a value by 1000 over a maximum it does not exceed stays at
/// or below 1000.
proof fn lemma_renorm_bound(v: int, m: int)
    requires
        0 <= v <= m,
    ensures
        m > 0 ==> 0 <= 1000 * v / m <= 1000,
{
    if m > 0 {
        assert(1000 * v <= 1000 * m) by (nonlinear_arith)
            requires
                0 <= v <= m,
        ;
        assert(0 <= 1000 * v / m <= 1000 * m / m) by (nonlinear_arith)
            requires
                0 <= 1000 * v <= 1000 * m,
                1 <= m,
        ;
        assert(1000 * m / m == 1000) by (nonlinear_arith)
            requires
                1 <= m,
        ;
    }
}

/// Every score sits at or below the axis maxima.
proof fn lemma_max_bounds(s: Seq<Score>, i: int)
    requires
        0 <= i,
    ensures
        forall|k: int|
            i <= k < s.len() ==> (#[trigger] s[k]).performance <= spec_max_perf(s, i)
                && s[k].deviation <= spec_max_dev(s, i),
        0 <= spec_max_perf(s, i),
        0 <= spec_max_dev(s, i),
        i <= s.len() && scores_wf(s) ==> spec_max_perf(s, i) <= 1_000_000_000_000
            && spec_max_dev(s, i) <= 1_000_000_000_000,
    decreases s.len() - i,
{
    if 0 <= i < s.len() {
        lemma_max_bounds(s, i + 1);
    }
}

impl Selection {
    /// Each score scaled so the population's best on each axis becomes
    /// 1000.
    pub fn renormalise(&self) -> (r: Scores)
        requires
            scores_wf(self.scores@),
        ensures
            r@ == spec_renormalise(self.scores@),
            forall|i: int|
                0 <= i < r@.len() ==> (#[trigger] r@[i]).performance <= 1000 && r@[i].deviation
                    <= 1000,
    {
        let ghost sv = self.scores@;
        let n: usize = self.scores.len();
        let mut max_performance: u64 = 0;
        let mut max_deviation: u64 = 0;
        let mut i: usize = n;
        while i > 0
            invariant
                i <= n == sv.len(),
                sv == self.scores@,
                max_performance == spec_max_perf(sv, i as int),
                max_deviation == spec_max_dev(sv, i as int),
            decreases i,
        {
            i = i - 1;
            if self.scores[i].performance > max_performance {
                max_performance = self.scores[i].performance;
            }
            if self.scores[i].deviation > max_deviation {
                max_deviation = self.scores[i].deviation;
            }
        }
        proof {
            lemma_max_bounds(sv, 0);
        }
        let mut r: Scores = Vec::new();
        for k in 0..n
            invariant
                n == sv.len(),
                sv == self.scores@,
                scores_wf(sv),
                max_performance == spec_max_perf(sv, 0),
                max_deviation == spec_max_dev(sv, 0),
                r@ =~= spec_renormalise(sv).take(k as int),
                forall|j: int|
                    0 <= j < r@.len() ==> (#[trigger] r@[j]).performance <= 1000
                        && r@[j].deviation <= 1000,
        {
            let sc = self.scores[k];
            proof {
                lemma_max_bounds(sv, 0);
                lemma_renorm_bound(sc.performance as int, max_performance as int);
                lemma_renorm_bound(sc.deviation as int, max_deviation as int);
            }
            let performance: u64 = if max_performance == 0 {
                0
            } else {
                1000 * sc.performance / max_performance
            };
            let deviation: u64 = if max_deviation == 0 {
                0
            } else {
                1000 * sc.deviation / max_deviation
            };
            r.push(Score { performance, deviation });
            assert(r@ =~= spec_renormalise(sv).take(k + 1));
        }
        assert(r@ =~= spec_renormalise(sv));
        r
    }

    /// Every candidate's squared distance from the ideal corner.
    pub fn calculate_ranks(&self, config: &SelectionConfig) -> (ranks: Vec<u64>)
        requires
            scores_wf(self.scores@),
            config.diversity_bias_milli <= 1_000_000,
        ensures
            ranks@.len() == self.scores@.len(),
            forall|i: int|
                0 <= i < ranks@.len() ==> ranks@[i] == spec_ranks(
                    self.scores@,
                    config.diversity_bias_milli as int,
                )[i],
    {
        let ghost sv = self.scores@;
        let ghost bias = config.diversity_bias_milli as int;
        let renormed = self.renormalise();
        let mut ranks: Vec<u64> = Vec::new();
        let n: usize = renormed.len();
        for i in 0..n
            invariant
                n == renormed@.len() && n == sv.len(),
                renormed@ == spec_renormalise(sv),
                forall|j: int|
                    0 <= j < renormed@.len() ==> (#[trigger] renormed@[j]).performance <= 1000
                        && renormed@[j].deviation <= 1000,
                bias == config.diversity_bias_milli as int,
                config.diversity_bias_milli <= 1_000_000,
                ranks@.len() == i,
                forall|j: int| 0 <= j < i ==> ranks@[j] == spec_ranks(sv, bias)[j],
        {
            let sc = renormed[i];
            proof {
                assert(sc.deviation * config.diversity_bias_milli as u64 <= 1_000_000_000)
                    by (nonlinear_arith)
                    requires
                        sc.deviation <= 1000,
                        config.diversity_bias_milli <= 1_000_000,
                ;
            }
            let dterm: u64 = sc.deviation * config.diversity_bias_milli as u64 / 1000;
            let dx: u64 = if sc.performance >= 1000 {
                sc.performance - 1000
            } else {
                1000 - sc.performance
            };
            let dy: u64 = if dterm >= 1000 {
                dterm - 1000
            } else {
                1000 - dterm
            };
            proof {
                assert(dterm <= 1_000_000) by (nonlinear_arith)
                    requires
                        dterm == sc.deviation * config.diversity_bias_milli as u64 / 1000,
                        sc.deviation * config.diversity_bias_milli as u64 <= 1_000_000_000,
                ;
                assert(dx * dx + dy * dy <= 2_000_000_000_000) by (nonlinear_arith)
                    requires
                        dx <= 1000,
                        dy <= 1_000_000,
                ;
            }
            let rank: u64 = dx * dx + dy * dy;
            ranks.push(rank);
            assert(ranks@[i as int] == spec_ranks(sv, bias)[i as int]);
        }
        ranks
    }

    /// The rank space: candidate indices with their ranks, the closest
    /// to the ideal first.
    pub fn create_rank_space(&self, config: &SelectionConfig) -> (space: RankSpace)
        requires
            scores_wf(self.scores@),
            config.diversity_bias_milli <= 1_000_000,
        ensures
            space@ == spec_rank_space(self.scores@, config.diversity_bias_milli as int),
            space@.len() == self.scores@.len(),
    {
        let ghost sv = self.scores@;
        let ghost bias = config.diversity_bias_milli as int;
        let ranks = self.calculate_ranks(config);
        let mut pairs: RankSpace = Vec::new();
        let n: usize = ranks.len();
        let ghost unsorted = Seq::new(
            sv.len(),
            |i: int| (i as usize, spec_ranks(sv, bias)[i] as u64),
        );
        for i in 0..n
            invariant
                n == ranks@.len() && n == sv.len(),
                forall|j: int| 0 <= j < n ==> ranks@[j] == spec_ranks(sv, bias)[j],
                unsorted == Seq::new(
                    sv.len(),
                    |i: int| (i as usize, spec_ranks(sv, bias)[i] as u64),
                ),
                pairs@ =~= unsorted.take(i as int),
        {
            pairs.push((i, ranks[i]));
            assert(pairs@ =~= unsorted.take(i + 1));
        }
        assert(pairs@ =~= unsorted);
        let space = sort_rank_space(&pairs);
        proof {
            lemma_rank_le_total();
            let leq = |a: (usize, u64), b: (usize, u64)| rank_le(a, b);
            broadcast use vstd::seq_lib::group_to_multiset_ensures;

            unsorted.lemma_sort_by_ensures(leq);
            assert(unsorted.sort_by(leq).to_multiset() =~= unsorted.to_multiset());
            assert(space@.len() == space@.to_multiset().len());
            assert(unsorted.len() == unsorted.to_multiset().len());
        }
        space
    }

    /// One draw from the rank space: with the configured probability
    /// the head is taken, otherwise the draw recurses into the tail;
    /// the last element is taken if reached.  The result is always an
    /// element of the list.
    pub fn select_from_rank_space(&self, list: &RankSpace, config: &SelectionConfig) -> (r: (
        usize,
        u64,
    ))
        requires
            list@.len() >= 1,
        ensures
            exists|k: int| 0 <= k < list@.len() && list@[k] == r,
    {
        let mut start: usize = 0;
        while start < list.len() - 1
            invariant
                start < list@.len(),
            decreases list@.len() - start,
        {
            let lucky = random_percent() < config.rank_space_cut_off;
            if lucky {
                let r = (list[start].0, list[start].1);
                assert(list@[start as int] == r);
                return r;
            }
            start = start + 1;
        }
        let r = (list[start].0, list[start].1);
        assert(list@[start as int] == r);
        r
    }

    /// One probabilistic pick among the scores: the closest-to-ideal
    /// candidate's score with the configured probability, then the
    /// next, and so on.  The result is always one of the scores.
    pub fn lucky_draw(&self, config: &SelectionConfig) -> (r: Score)
        requires
            self.scores@.len() >= 1,
            scores_wf(self.scores@),
            config.diversity_bias_milli <= 1_000_000,
        ensures
            exists|k: int| 0 <= k < self.scores@.len() && self.scores@[k] == r,
    {
        let rank_space = self.create_rank_space(config);
        let (index, _rank) = self.select_from_rank_space(&rank_space, config);
        proof {
            let sv = self.scores@;
            let bias = config.diversity_bias_milli as int;
            let leq = |a: (usize, u64), b: (usize, u64)| rank_le(a, b);
            let unsorted = Seq::new(
                sv.len(),
                |i: int| (i as usize, spec_ranks(sv, bias)[i] as u64),
            );
            lemma_rank_le_total();
            broadcast use vstd::seq_lib::group_to_multiset_ensures;

            unsorted.lemma_sort_by_ensures(leq);
            let k = choose|k: int|
                0 <= k < rank_space@.len() && rank_space@[k] == (index, _rank);
            assert(rank_space@.to_multiset().contains((index, _rank))) by {
                assert(rank_space@[k] == (index, _rank));
            }
            assert(unsorted.to_multiset().contains((index, _rank)));
            assert(unsorted.contains((index, _rank)));
            let j = choose|j: int| 0 <= j < unsorted.len() && unsorted[j] == (index, _rank);
            assert(unsorted[j].0 == index);
            assert(index < sv.len());
        }
        let score = self.scores[index];
        assert(self.scores@[index as int] == score);
        score
    }
}

/// Sorts (index, rank) pairs by rank, ties by index (selection sort,
/// proved equal to the mathematical sort).
pub(crate) fn sort_rank_space(v: &Vec<(usize, u64)>) -> (r: Vec<(usize, u64)>)
    ensures
        r@ == v@.sort_by(|a: (usize, u64), b: (usize, u64)| rank_le(a, b)),
{
    let ghost leq = |a: (usize, u64), b: (usize, u64)| rank_le(a, b);
    proof {
        lemma_rank_le_total();
        broadcast use vstd::seq_lib::group_to_multiset_ensures;
        broadcast use vstd::multiset::group_multiset_axioms;

    }
    let mut work: RankSpace = Vec::new();
    let n: usize = v.len();
    for i in 0..n
        invariant
            n == v@.len(),
            work@ == v@.take(i as int),
    {
        work.push(v[i]);
        assert(work@ =~= v@.take(i + 1));
    }
    assert(work@ =~= v@);

    let mut r: RankSpace = Vec::new();
    while work.len() > 0
        invariant
            sorted_by(r@, leq),
            leq == (|a: (usize, u64), b: (usize, u64)| rank_le(a, b)),
            forall|x: int, y: int|
                0 <= x < r@.len() && 0 <= y < work@.len() ==> leq(r@[x], work@[y]),
            r@.to_multiset().add(work@.to_multiset()) == v@.to_multiset(),
        decreases work@.len(),
    {
        proof {
            broadcast use vstd::seq_lib::group_to_multiset_ensures;
            broadcast use vstd::multiset::group_multiset_axioms;

        }
        let mut min: usize = 0;
        let m: usize = work.len();
        for j in 1..m
            invariant
                m == work@.len(),
                min < m,
                leq == (|a: (usize, u64), b: (usize, u64)| rank_le(a, b)),
                forall|k: int| 0 <= k < j ==> leq(work@[min as int], work@[k]),
        {
            let a = work[j];
            let b = work[min];
            let a_le_b = a.1 < b.1 || (a.1 == b.1 && a.0 <= b.0);
            if a_le_b {
                let ghost old_min = min as int;
                min = j;
                assert forall|k: int| 0 <= k < j + 1 implies leq(work@[min as int], work@[k]) by {
                    if k < j {
                        assert(leq(work@[old_min], work@[k]));
                        assert(rank_le(work@[j as int], work@[old_min]));
                    }
                }
            }
        }
        let ghost old_work = work@;
        let ghost old_r = r@;
        let elem = work.remove(min);
        r.push(elem);
        proof {
            assert(work@.to_multiset() =~= old_work.to_multiset().remove(elem));
            assert(r@.to_multiset() =~= old_r.to_multiset().insert(elem));
            assert(r@.to_multiset().add(work@.to_multiset()) =~= v@.to_multiset());
            assert forall|x: int, y: int|
                0 <= x < r@.len() && 0 <= y < work@.len() implies leq(r@[x], work@[y]) by {
                let oy: int = if y < min {
                    y
                } else {
                    y + 1
                };
                assert(work@[y] == old_work[oy]);
                if x < old_r.len() {
                    assert(leq(old_r[x], old_work[oy]));
                } else {
                    assert(r@[x] == elem);
                    assert(leq(old_work[min as int], old_work[oy]));
                }
            }
            assert forall|x: int, y: int| 0 <= x < y < r@.len() implies leq(r@[x], r@[y]) by {
                if y < old_r.len() {
                    assert(sorted_by(old_r, leq));
                } else {
                    assert(r@[y] == elem);
                    if x < old_r.len() {
                        assert(leq(old_r[x], old_work[min as int]));
                    }
                }
            }
        }
    }
    proof {
        broadcast use vstd::seq_lib::group_to_multiset_ensures;

        assert(r@.to_multiset() =~= v@.to_multiset()) by {
            broadcast use vstd::multiset::group_multiset_axioms;

            assert(work@ =~= Seq::<(usize, u64)>::empty());
            assert(work@.to_multiset() =~= Seq::<(usize, u64)>::empty().to_multiset());
        }
        v@.lemma_sort_by_ensures(leq);
        lemma_sorted_unique(r@, v@.sort_by(leq), leq);
    }
    r
}

} // verus!
