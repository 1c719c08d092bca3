//! A layout's scoring summary: the cost-model rates and the profiler
//! fitness, and the scalar score that weighs them together.
//!
//! All quantities are integers in thousandths, so that a summary is an
//! exact function of its inputs.
use vstd::prelude::*;
use crate::calculator::{process, spec_scan, MAX_TEXT_LEN};
use crate::config::{PenaltiesConfig, WeightsConfig, penalties_wf};
use crate::frequency::SymbolFrequencies;
use crate::geometry::{Geometry, spec_bad_positions, spec_rolling_pairs};
use crate::keyboard::{Keyboard, spec_key_map, spec_lookup, spec_key_map_bounded};
use crate::parser::spec_tokens;
use crate::profiler::{calculate_fitness, spec_fitness_milli};

verus! {

/// The five axes of a layout's quality, in thousandths: per-character
/// effort, overheads and awkwardness, rolling count per hundred
/// characters, and the profiler fitness on its zero-to-thirty scale.
#[derive(Debug, PartialEq, Eq, Clone, Copy)]
pub struct Summary {
    pub effort: u64,
    pub overheads: u64,
    pub awkwardness: u64,
    pub rollingness: u64,
    pub fitness: u64,
}

/// The bounds every computed summary meets.
pub open spec fn summary_wf(s: Summary) -> bool {
    s.effort <= 60_000_000 && s.overheads <= 60_000_000 && s.awkwardness <= 60_000_000
        && s.rollingness <= 100_000 && s.fitness <= 30_000
}

/// The bounds the score's overflow argument asks of weights.
pub open spec fn weights_wf(w: WeightsConfig) -> bool {
    w.effort <= 1000 && w.overheads <= 1000 && w.awkwardness <= 1000 && w.rollingness <= 1000
        && w.fitness <= 1000
}

/// The summary of typing `corpus` on `template` over geometry `g`:
/// the scan totals divided by the corpus length (in thousandths), the
/// rolling count per hundred characters, and ten times the fitness.
/// An empty corpus has zero rates.
pub open spec fn spec_summary(
    g: Geometry,
    p: PenaltiesConfig,
    template: Seq<char>,
    corpus: Seq<char>,
    freqs: Seq<(char, usize)>,
) -> (int, int, int, int, int) {
    let km = spec_key_map(g, template);
    let space = spec_lookup(km, ' ')->Some_0;
    let bad = spec_bad_positions(g, spec_tokens(g.bad_starters@), 0);
    let rolls = spec_rolling_pairs(g, spec_tokens(g.rolling_pairs@), 0);
    let st = spec_scan(p, bad, rolls, km, space, corpus, corpus.len() as int);
    let len = corpus.len() as int;
    let fit = 10 * spec_fitness_milli(freqs, km);
    if len == 0 {
        (0, 0, 0, 0, fit)
    } else {
        (1000 * st.0 / len, 1000 * st.1 / len, 1000 * st.2 / len, 100000 * st.3 / len, fit)
    }
}

/// The scalar score of a summary under the given weights, in
/// thousandths: rolling and fitness reward high values; effort and
/// overheads reward low ones through reciprocals of ten, awkwardness
/// through a reciprocal of five.  A zero rate counts as the smallest
/// representable rate, one thousandth.
pub open spec fn spec_score(w: WeightsConfig, s: Summary) -> int {
    let roll_term = w.rollingness * s.rollingness / 5;
    let fit_term = w.fitness * s.fitness / 10;
    let effort_term = if s.effort == 0 {
        w.effort * 10_000_000int
    } else {
        w.effort * 10_000_000int / (s.effort as int)
    };
    let overheads_term = if s.overheads == 0 {
        w.overheads * 10_000_000int
    } else {
        w.overheads * 10_000_000int / (s.overheads as int)
    };
    let awkwardness_term = if s.awkwardness == 0 {
        w.awkwardness * 5_000_000int
    } else {
        w.awkwardness * 5_000_000int / (s.awkwardness as int)
    };
    roll_term + fit_term + effort_term + overheads_term + awkwardness_term
}

/// The cost model is pure: the same layout template, corpus and
/// frequency table on the same geometry, penalties and weights always
/// yield the same summary and the same score, whatever distinct values
/// carry them.
pub proof fn lemma_cost_model_pure(
    g: Geometry,
    p: PenaltiesConfig,
    w: WeightsConfig,
    template1: Seq<char>,
    template2: Seq<char>,
    corpus1: Seq<char>,
    corpus2: Seq<char>,
    freqs1: Seq<(char, usize)>,
    freqs2: Seq<(char, usize)>,
    s1: Summary,
    s2: Summary,
)
    requires
        template1 == template2,
        corpus1 == corpus2,
        freqs1 == freqs2,
        s1 == s2,
    ensures
        spec_summary(g, p, template1, corpus1, freqs1) == spec_summary(
            g,
            p,
            template2,
            corpus2,
            freqs2,
        ),
        spec_score(w, s1) == spec_score(w, s2),
{
}

/// A summary depends only on the geometry's grids, so two geometry
/// values with the same grids summarise alike.
pub proof fn lemma_summary_congruent(
    g1: Geometry,
    g2: Geometry,
    p: PenaltiesConfig,
    template: Seq<char>,
    corpus: Seq<char>,
    freqs: Seq<(char, usize)>,
)
    requires
        crate::geometry::geometry_views_equal(g1, g2),
    ensures
        spec_summary(g1, p, template, corpus, freqs) == spec_summary(
            g2,
            p,
            template,
            corpus,
            freqs,
        ),
{
    crate::keyboard::lemma_key_map_congruent(g1, g2, template);
    crate::geometry::lemma_geometry_congruent(g1, g2);
}

/// A well-formed summary's score under well-formed weights stays
/// within its display range.
pub proof fn lemma_score_bounds(w: WeightsConfig, s: Summary)
    requires
        weights_wf(w),
        summary_wf(s),
    ensures
        0 <= spec_score(w, s) <= 31_000_000_000,
{
    lemma_mul_bound(w.rollingness as int, 1000, s.rollingness as int, 100_000);
    lemma_mul_bound(w.fitness as int, 1000, s.fitness as int, 30_000);
    lemma_div_le_self(w.rollingness as int * s.rollingness as int, 5);
    lemma_div_le_self(w.fitness as int * s.fitness as int, 10);
    lemma_div_le_self(w.effort as int * 10_000_000, s.effort as int);
    lemma_div_le_self(w.overheads as int * 10_000_000, s.overheads as int);
    lemma_div_le_self(w.awkwardness as int * 5_000_000, s.awkwardness as int);
}

impl Summary {
    /// Scores a keyboard: runs the cost model over the corpus and the
    /// profiler over the frequency table.
    pub fn calculate(
        keyboard: &Keyboard,
        penalties: &PenaltiesConfig,
        text: &String,
        frequencies: &SymbolFrequencies,
    ) -> (summary: Summary)
        requires
            penalties_wf(*penalties),
            keyboard.key_map@ == spec_key_map(keyboard.geometry, keyboard.layout.template@),
            spec_key_map_bounded(keyboard.key_map@),
            spec_lookup(keyboard.key_map@, ' ') is Some,
            text@.len() <= MAX_TEXT_LEN,
            frequencies@.len() <= 1000000,
        ensures
            ({
                let s = spec_summary(
                    keyboard.geometry,
                    *penalties,
                    keyboard.layout.template@,
                    text@,
                    frequencies@,
                );
                summary.effort == s.0 && summary.overheads == s.1 && summary.awkwardness == s.2
                    && summary.rollingness == s.3 && summary.fitness == s.4
            }),
            summary_wf(summary),
    {
        let tally = process(keyboard, penalties, text);
        let fitness_milli = calculate_fitness(keyboard, frequencies);
        let fitness: u64 = fitness_milli * 10;
        proof {
            lemma_scan_bounds(
                *penalties,
                spec_bad_positions(
                    keyboard.geometry,
                    spec_tokens(keyboard.geometry.bad_starters@),
                    0,
                ),
                spec_rolling_pairs(
                    keyboard.geometry,
                    spec_tokens(keyboard.geometry.rolling_pairs@),
                    0,
                ),
                keyboard.key_map@,
                spec_lookup(keyboard.key_map@, ' ')->Some_0,
                text@,
                text@.len() as int,
            );
        }
        if tally.length == 0 {
            Summary { effort: 0, overheads: 0, awkwardness: 0, rollingness: 0, fitness }
        } else {
            let effort = ((1000u128 * tally.effort as u128) / (tally.length as u128)) as u64;
            let overheads = ((1000u128 * tally.overheads as u128) / (tally.length as u128))
                as u64;
            let awkwardness = ((1000u128 * tally.awkwardness as u128) / (tally.length as u128))
                as u64;
            let rollingness = ((100000u128 * tally.rollingness as u128) / (tally.length as u128))
                as u64;
            proof {
                lemma_rate_bound(tally.effort as int, tally.length as int, 1000);
                lemma_rate_bound(tally.overheads as int, tally.length as int, 1000);
                lemma_rate_bound(tally.awkwardness as int, tally.length as int, 1000);
                lemma_roll_rate_bound(tally.rollingness as int, tally.length as int);
            }
            Summary { effort, overheads, awkwardness, rollingness, fitness }
        }
    }

    /// The scalar score of the summary under the given weights, in
    /// thousandths.
    pub fn score(&self, weights: &WeightsConfig) -> (score: u64)
        requires
            summary_wf(*self),
            weights_wf(*weights),
        ensures
            score == spec_score(*weights, *self),
            score <= 31_000_000_000,
    {
        let w_roll: u64 = weights.rollingness as u64;
        let w_fit: u64 = weights.fitness as u64;
        let w_eff: u64 = weights.effort as u64;
        let w_ovh: u64 = weights.overheads as u64;
        let w_awk: u64 = weights.awkwardness as u64;
        proof {
            lemma_mul_bound(w_roll as int, 1000, self.rollingness as int, 100_000);
            lemma_mul_bound(w_fit as int, 1000, self.fitness as int, 30_000);
        }
        let roll_term = w_roll * self.rollingness / 5;
        let fit_term = w_fit * self.fitness / 10;
        let effort_term = if self.effort == 0 {
            w_eff * 10_000_000
        } else {
            w_eff * 10_000_000 / self.effort
        };
        let overheads_term = if self.overheads == 0 {
            w_ovh * 10_000_000
        } else {
            w_ovh * 10_000_000 / self.overheads
        };
        let awkwardness_term = if self.awkwardness == 0 {
            w_awk * 5_000_000
        } else {
            w_awk * 5_000_000 / self.awkwardness
        };
        proof {
            lemma_div_le_self(w_eff as int * 10_000_000, self.effort as int);
            lemma_div_le_self(w_ovh as int * 10_000_000, self.overheads as int);
            lemma_div_le_self(w_awk as int * 5_000_000, self.awkwardness as int);
            lemma_div_le_self(w_roll as int * self.rollingness as int, 5);
            lemma_div_le_self(w_fit as int * self.fitness as int, 10);
        }
        roll_term + fit_term + effort_term + overheads_term + awkwardness_term
    }
}

/// The product of two bounded non-negative values is bounded by the
/// product of the bounds.
proof fn lemma_mul_bound(a: int, am: int, b: int, bm: int)
    requires
        0 <= a <= am,
        0 <= b <= bm,
    ensures
        0 <= a * b <= am * bm,
{
    assert(0 <= a * b <= am * bm) by (nonlinear_arith)
        requires
            0 <= a <= am,
            0 <= b <= bm,
    ;
}

/// Dividing a non-negative value by a positive one does not grow it.
proof fn lemma_div_le_self(a: int, b: int)
    requires
        0 <= a,
    ensures
        1 <= b ==> 0 <= a / b <= a,
{
    if 1 <= b {
        assert(0 <= a / b <= a) by (nonlinear_arith)
            requires
                0 <= a,
                1 <= b,
        ;
    }
}

/// Every scan total is bounded by the corpus length times the step
/// bound, and the rolling count by the length itself.
pub proof fn lemma_scan_bounds(
    p: PenaltiesConfig,
    bad: Seq<crate::parser::Position>,
    rolls: Seq<(crate::parser::Position, crate::parser::Position)>,
    km: Seq<(char, crate::keyboard::Key)>,
    space: crate::keyboard::Key,
    text: Seq<char>,
    i: int,
)
    requires
        penalties_wf(p),
        spec_key_map_bounded(km),
    ensures
        ({
            let st = spec_scan(p, bad, rolls, km, space, text, i);
            0 <= st.0 && 0 <= st.1 && 0 <= st.2 && 0 <= st.3 && (0 <= i ==> st.0 <= i * 60000
                && st.1 <= i * 60000 && st.2 <= i * 60000 && st.3 <= i)
        }),
    decreases i,
{
    if i > 0 {
        lemma_scan_bounds(p, bad, rolls, km, space, text, i - 1);
        lemma_step_bound(p, bad, rolls, km, space, text, i);
    }
}

/// One step adds at most the step bound to each total.
proof fn lemma_step_bound(
    p: PenaltiesConfig,
    bad: Seq<crate::parser::Position>,
    rolls: Seq<(crate::parser::Position, crate::parser::Position)>,
    km: Seq<(char, crate::keyboard::Key)>,
    space: crate::keyboard::Key,
    text: Seq<char>,
    i: int,
)
    requires
        penalties_wf(p),
        spec_key_map_bounded(km),
        i > 0,
    ensures
        ({
            let prev = spec_scan(p, bad, rolls, km, space, text, i - 1);
            let st = spec_scan(p, bad, rolls, km, space, text, i);
            prev.0 <= st.0 <= prev.0 + 60000 && prev.1 <= st.1 <= prev.1 + 60000 && prev.2
                <= st.2 <= prev.2 + 60000 && prev.3 <= st.3 <= prev.3 + 1
        }),
{
    let prev = spec_scan(p, bad, rolls, km, space, text, i - 1);
    match spec_lookup(km, text[i - 1]) {
        None => {},
        Some(key) => {
            crate::calculator::lemma_lookup_bounded(km, text[i - 1]);
            assert(key.effort <= crate::keyboard::MAX_KEY_EFFORT);
            if prev.4.hand == key.hand && key != prev.4 && key != space && prev.4 != space {
                let shp = crate::calculator::spec_same_hand_penalties(p, prev.4, key);
                let awk = crate::calculator::spec_awkward_penalty(p, bad, prev.4);
                assert(0 <= shp <= 30000);
                assert(0 <= awk <= 10000);
                let keep: int = 100 - p.rolling_discount;
                lemma_discounted_le(shp, keep);
                lemma_discounted_le(awk, keep);
            }
        },
    }
}

/// A discounted penalty is between zero and the full penalty.
proof fn lemma_discounted_le(x: int, keep: int)
    requires
        0 <= x,
        0 <= keep <= 100,
    ensures
        0 <= x * keep / 100 <= x,
{
    assert(0 <= x * keep <= x * 100) by (nonlinear_arith)
        requires
            0 <= x,
            0 <= keep <= 100,
    ;
    assert(0 <= x * keep / 100 <= x * 100 / 100) by (nonlinear_arith)
        requires
            0 <= x * keep <= x * 100,
    ;
    assert(x * 100 / 100 == x) by (nonlinear_arith);
}

/// A scaled rate over a positive length stays at or below the scale
/// times the step bound.
proof fn lemma_rate_bound(total: int, len: int, scale: int)
    requires
        0 <= total <= len * 60000,
        1 <= len,
        1 <= scale <= 1000,
    ensures
        0 <= scale * total / len <= scale * 60000,
{
    assert(scale * total <= scale * (len * 60000)) by (nonlinear_arith)
        requires
            0 <= total <= len * 60000,
            1 <= scale,
    ;
    assert(scale * (len * 60000) == (scale * 60000) * len) by (nonlinear_arith);
    assert(0 <= scale * total / len <= (scale * 60000) * len / len) by (nonlinear_arith)
        requires
            0 <= scale * total <= (scale * 60000) * len,
            1 <= len,
    ;
    assert((scale * 60000) * len / len == scale * 60000) by (nonlinear_arith)
        requires
            1 <= len,
    ;
}

/// The rolling rate per hundred characters stays at or below one
/// hundred thousand thousandths.
proof fn lemma_roll_rate_bound(total: int, len: int)
    requires
        0 <= total <= len,
        1 <= len,
    ensures
        0 <= 100000 * total / len <= 100000,
{
    assert(100000 * total <= 100000 * len) by (nonlinear_arith)
        requires
            0 <= total <= len,
    ;
    assert(0 <= 100000 * total / len <= 100000 * len / len) by (nonlinear_arith)
        requires
            0 <= 100000 * total <= 100000 * len,
            1 <= len,
    ;
    assert(100000 * len / len == 100000) by (nonlinear_arith)
        requires
            1 <= len,
    ;
}

} // verus!
