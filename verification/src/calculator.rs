//! The ergonomic cost model: a single pass over the corpus that charges
//! each typed key its effort and each awkward same-hand digraph its
//! penalties, with rolling pairs partly waived.
//!
//! The whole scan is stated as a spec fold (`spec_scan`); `run` is
//! proved to return exactly that fold's totals.
use vstd::prelude::*;
use crate::config::{PenaltiesConfig, penalties_wf};
use crate::geometry::Geometry;
use crate::keyboard::{Keyboard, Key, key_eq, spec_lookup, spec_key_map_bounded, MAX_KEY_EFFORT};
use crate::parser::Position;
use crate::chars::to_char_vec;

verus! {

/// The longest corpus the scan accepts; with it, no counter can
/// overflow 64 bits.
pub const MAX_TEXT_LEN: u64 = 0x1000_0000_0000;

/// The most one character can add to effort: its key plus every
/// penalty.
pub const MAX_STEP: u64 = 60000;

/// The scan totals of a corpus: plain sums, together with the corpus
/// length they are rates of.
#[derive(Debug, PartialEq, Eq, Clone, Copy)]
pub struct Tally {
    pub effort: u64,
    pub overheads: u64,
    pub awkwardness: u64,
    pub rollingness: u64,
    pub length: u64,
}

/// The scan state: (effort, overheads, awkwardness, rollingness,
/// previous key, rolling flag).
pub type ScanState = (int, int, int, int, Key, bool);

/// The cost model bound to one keyboard: the key table plus the
/// geometry's bad starters and rolling pairs.
pub struct Calculator<'a> {
    pub keyboard: &'a Keyboard,
    pub bad_starters: Vec<Position>,
    pub rolling_pairs_map: Vec<(Position, Position)>,
}

/// The distance between two keys' rows.
pub open spec fn spec_row_distance(last: Key, next: Key) -> int {
    if last.position.0 >= next.position.0 {
        last.position.0 - next.position.0
    } else {
        next.position.0 - last.position.0
    }
}

/// The same-hand penalty of a digraph: a flat charge, more when the
/// finger repeats, more again when the rows jump or skip.
pub open spec fn spec_same_hand_penalties(p: PenaltiesConfig, last: Key, next: Key) -> int {
    let base: int = p.same_hand + if last.finger == next.finger {
        p.same_finger as int
    } else {
        0
    };
    if spec_row_distance(last, next) == 2 {
        base + p.row_skip
    } else if spec_row_distance(last, next) == 1 {
        base + p.row_jump
    } else {
        base
    }
}

/// The penalty of starting a digraph from a bad-starter position.
pub open spec fn spec_awkward_penalty(p: PenaltiesConfig, bad: Seq<Position>, last: Key) -> int {
    if bad.contains(last.position) {
        p.bad_starter as int
    } else {
        0
    }
}

/// Whether the digraph is a recognised rolling pair.
pub open spec fn spec_is_rolling_combo(
    rolls: Seq<(Position, Position)>,
    last: Key,
    next: Key,
) -> bool {
    rolls.contains((last.position, next.position))
}

/// One character of the scan.  An unknown symbol changes nothing, not
/// even the previous key.  A known key always adds its effort; a
/// same-hand digraph of two different non-space keys adds penalties.
/// When the digraph rolls, one rule applies throughout: both the
/// same-hand and the bad-starter penalty are scaled down by the
/// rolling discount.  Two rolls in a row count only once, so a change
/// of direction is not rewarded.
pub open spec fn spec_step(
    p: PenaltiesConfig,
    bad: Seq<Position>,
    rolls: Seq<(Position, Position)>,
    space: Key,
    st: ScanState,
    symbol_key: Option<Key>,
) -> ScanState {
    match symbol_key {
        None => st,
        Some(key) => {
            let effort0 = st.0 + key.effort;
            if st.4.hand == key.hand && key != st.4 && key != space && st.4 != space {
                let rolling = if st.5 {
                    false
                } else {
                    spec_is_rolling_combo(rolls, st.4, key)
                };
                let keep: int = 100 - p.rolling_discount;
                let shp = if rolling {
                    spec_same_hand_penalties(p, st.4, key) * keep / 100
                } else {
                    spec_same_hand_penalties(p, st.4, key)
                };
                let awk = if rolling {
                    spec_awkward_penalty(p, bad, st.4) * keep / 100
                } else {
                    spec_awkward_penalty(p, bad, st.4)
                };
                (
                    effort0 + shp + awk,
                    st.1 + shp + awk,
                    st.2 + awk,
                    st.3 + if rolling {
                        1int
                    } else {
                        0int
                    },
                    key,
                    rolling,
                )
            } else {
                (effort0, st.1, st.2, st.3, key, st.5)
            }
        },
    }
}

/// The scan state after the first `i` characters of the corpus, seeded
/// with the space key as the previous key.
pub open spec fn spec_scan(
    p: PenaltiesConfig,
    bad: Seq<Position>,
    rolls: Seq<(Position, Position)>,
    km: Seq<(char, Key)>,
    space: Key,
    text: Seq<char>,
    i: int,
) -> ScanState
    decreases i,
{
    if i <= 0 {
        (0int, 0int, 0int, 0int, space, false)
    } else {
        spec_step(
            p,
            bad,
            rolls,
            space,
            spec_scan(p, bad, rolls, km, space, text, i - 1),
            spec_lookup(km, text[i - 1]),
        )
    }
}

/// The product of two bounded non-negative values is bounded by the
/// product of the bounds.
proof fn lemma_mul_le(a: int, am: int, b: int, bm: int)
    requires
        0 <= a <= am,
        0 <= b <= bm,
    ensures
        a * b <= am * bm,
{
    assert(a * b <= am * bm) by (nonlinear_arith)
        requires
            0 <= a <= am,
            0 <= b <= bm,
    ;
}

/// A key found in a bounded table costs at most the per-key bound.
pub proof fn lemma_lookup_bounded(m: Seq<(char, Key)>, symbol: char)
    requires
        spec_key_map_bounded(m),
    ensures
        spec_lookup(m, symbol) is Some ==> spec_lookup(m, symbol)->Some_0.effort
            <= MAX_KEY_EFFORT,
    decreases m.len(),
{
    if m.len() > 0 {
        assert(m[m.len() - 1].1.effort <= MAX_KEY_EFFORT);
        assert(spec_key_map_bounded(m.drop_last())) by {
            assert(forall|j: int|
                0 <= j < m.drop_last().len() ==> m.drop_last()[j] == m[j]);
        }
        lemma_lookup_bounded(m.drop_last(), symbol);
    }
}

/// Whether `positions` holds `p`.
fn contains_position(positions: &Vec<Position>, p: Position) -> (r: bool)
    ensures
        r == positions@.contains(p),
{
    let n: usize = positions.len();
    for j in 0..n
        invariant
            n == positions@.len(),
            forall|k: int| 0 <= k < j ==> positions@[k] != p,
    {
        let q = positions[j];
        if q.0 == p.0 && q.1 == p.1 {
            assert(positions@[j as int] == p);
            return true;
        }
    }
    false
}

/// Whether `pairs` holds `p`.
fn contains_pair(pairs: &Vec<(Position, Position)>, p: (Position, Position)) -> (r: bool)
    ensures
        r == pairs@.contains(p),
{
    let n: usize = pairs.len();
    for j in 0..n
        invariant
            n == pairs@.len(),
            forall|k: int| 0 <= k < j ==> pairs@[k] != p,
    {
        let q = pairs[j];
        if q.0.0 == p.0.0 && q.0.1 == p.0.1 && q.1.0 == p.1.0 && q.1.1 == p.1.1 {
            assert(pairs@[j as int] == p);
            return true;
        }
    }
    false
}

/// Scores a keyboard over a corpus with the given penalties.
pub fn process(keyboard: &Keyboard, penalties: &PenaltiesConfig, text: &String) -> (r: Tally)
    requires
        penalties_wf(*penalties),
        spec_key_map_bounded(keyboard.key_map@),
        spec_lookup(keyboard.key_map@, ' ') is Some,
        text@.len() <= MAX_TEXT_LEN,
    ensures
        ({
            let st = spec_scan(
                *penalties,
                crate::geometry::spec_bad_positions(
                    keyboard.geometry,
                    crate::parser::spec_tokens(keyboard.geometry.bad_starters@),
                    0,
                ),
                crate::geometry::spec_rolling_pairs(
                    keyboard.geometry,
                    crate::parser::spec_tokens(keyboard.geometry.rolling_pairs@),
                    0,
                ),
                keyboard.key_map@,
                spec_lookup(keyboard.key_map@, ' ')->Some_0,
                text@,
                text@.len() as int,
            );
            r.effort == st.0 && r.overheads == st.1 && r.awkwardness == st.2 && r.rollingness
                == st.3 && r.length == text@.len()
        }),
{
    let calculator = Calculator::from(keyboard);
    calculator.run(penalties, text)
}

impl Calculator<'_> {
    /// Binds the cost model to a keyboard, reading the bad starters
    /// and rolling pairs off its geometry.
    pub fn from<'a>(keyboard: &'a Keyboard) -> (calculator: Calculator<'a>)
        ensures
            calculator.keyboard == keyboard,
            calculator.bad_starters@ == crate::geometry::spec_bad_positions(
                keyboard.geometry,
                crate::parser::spec_tokens(keyboard.geometry.bad_starters@),
                0,
            ),
            calculator.rolling_pairs_map@ == crate::geometry::spec_rolling_pairs(
                keyboard.geometry,
                crate::parser::spec_tokens(keyboard.geometry.rolling_pairs@),
                0,
            ),
    {
        let bad_starters = keyboard.geometry.bad_starting_positions();
        let rolling_pairs_map = keyboard.geometry.rolling_position_pairs();
        Calculator { keyboard, bad_starters, rolling_pairs_map }
    }

    /// Scans the corpus once and totals effort, overheads, awkwardness
    /// and rolling count, exactly as the spec fold states.
    pub fn run(&self, penalties: &PenaltiesConfig, text: &String) -> (r: Tally)
        requires
            penalties_wf(*penalties),
            spec_key_map_bounded(self.keyboard.key_map@),
            spec_lookup(self.keyboard.key_map@, ' ') is Some,
            text@.len() <= MAX_TEXT_LEN,
        ensures
            ({
                let st = spec_scan(
                    *penalties,
                    self.bad_starters@,
                    self.rolling_pairs_map@,
                    self.keyboard.key_map@,
                    spec_lookup(self.keyboard.key_map@, ' ')->Some_0,
                    text@,
                    text@.len() as int,
                );
                r.effort == st.0 && r.overheads == st.1 && r.awkwardness == st.2
                    && r.rollingness == st.3 && r.length == text@.len()
            }),
    {
        let ghost p = *penalties;
        let ghost bad = self.bad_starters@;
        let ghost rolls = self.rolling_pairs_map@;
        let ghost km = self.keyboard.key_map@;

        let space_key = self.keyboard.key_for(&' ').unwrap();
        let ghost space = space_key;

        let mut effort: u64 = 0;
        let mut overheads: u64 = 0;
        let mut awkwardness: u64 = 0;
        let mut rollingness: u64 = 0;
        let mut previous_key: Key = space_key;
        let mut rolling: bool = false;

        let chars = to_char_vec(text.as_str());
        let n: usize = chars.len();
        for i in 0..n
            invariant
                n == chars@.len(),
                chars@ == text@,
                n <= MAX_TEXT_LEN,
                penalties_wf(p),
                p == *penalties,
                bad == self.bad_starters@,
                rolls == self.rolling_pairs_map@,
                km == self.keyboard.key_map@,
                spec_key_map_bounded(km),
                space == spec_lookup(km, ' ')->Some_0,
                (
                    effort as int,
                    overheads as int,
                    awkwardness as int,
                    rollingness as int,
                    previous_key,
                    rolling,
                ) == spec_scan(p, bad, rolls, km, space, text@, i as int),
                effort <= i as u64 * MAX_STEP,
                overheads <= i as u64 * MAX_STEP,
                awkwardness <= i as u64 * MAX_STEP,
                rollingness <= i as u64,
        {
            let ghost st = spec_scan(p, bad, rolls, km, space, text@, i as int);
            let symbol_key = self.keyboard.key_for(&chars[i]);
            proof {
                lemma_lookup_bounded(km, text@[i as int]);
            }
            match symbol_key {
                Some(key) => {
                    effort = effort + key.effort as u64;
                    if previous_key.hand == key.hand && !key_eq(&key, &previous_key)
                        && !key_eq(&key, &space_key) && !key_eq(&previous_key, &space_key) {
                        let mut same_hand_penalties = self.same_hand_penalties(
                            penalties,
                            &previous_key,
                            &key,
                        );
                        let mut awkwardness_penalty = self.awkward_penalty(
                            penalties,
                            &previous_key,
                        );
                        rolling = if rolling {
                            false
                        } else {
                            self.is_rolling_combo(&previous_key, &key)
                        };
                        if rolling {
                            rollingness = rollingness + 1;
                            let keep = 100 - penalties.rolling_discount;
                            proof {
                                lemma_mul_le(same_hand_penalties as int, 30000, keep as int, 100);
                                lemma_mul_le(awkwardness_penalty as int, 10000, keep as int, 100);
                            }
                            same_hand_penalties = (same_hand_penalties * keep) / 100;
                            awkwardness_penalty = (awkwardness_penalty * keep) / 100;
                        }
                        assert(same_hand_penalties <= 30000 && awkwardness_penalty <= 10000);
                        effort = effort + (same_hand_penalties + awkwardness_penalty) as u64;
                        overheads = overheads + (same_hand_penalties + awkwardness_penalty)
                            as u64;
                        awkwardness = awkwardness + awkwardness_penalty as u64;
                    }
                    previous_key = key;
                },
                None => {},
            }
            assert((
                effort as int,
                overheads as int,
                awkwardness as int,
                rollingness as int,
                previous_key,
                rolling,
            ) == spec_step(p, bad, rolls, space, st, spec_lookup(km, text@[i as int])));
        }
        Tally {
            effort,
            overheads,
            awkwardness,
            rollingness,
            length: n as u64,
        }
    }

    /// The same-hand penalty of the digraph `last`, `next`.
    fn same_hand_penalties(
        &self,
        penalties: &PenaltiesConfig,
        last_key: &Key,
        next_key: &Key,
    ) -> (r: usize)
        requires
            penalties_wf(*penalties),
        ensures
            r == spec_same_hand_penalties(*penalties, *last_key, *next_key),
            r <= 30000,
    {
        let mut result: usize = penalties.same_hand;
        if last_key.finger == next_key.finger {
            result = result + penalties.same_finger;
        }
        match self.row_distance(last_key, next_key) {
            2 => result + penalties.row_skip,
            1 => result + penalties.row_jump,
            _ => result,
        }
    }

    /// The absolute difference of the two keys' rows.
    fn row_distance(&self, last_key: &Key, next_key: &Key) -> (r: usize)
        ensures
            r == spec_row_distance(*last_key, *next_key),
    {
        let last_row = last_key.position.0;
        let next_row = next_key.position.0;
        if last_row > next_row {
            last_row - next_row
        } else {
            next_row - last_row
        }
    }

    /// The bad-starter penalty of leaving `last_key`.
    fn awkward_penalty(&self, penalties: &PenaltiesConfig, last_key: &Key) -> (r: usize)
        requires
            penalties_wf(*penalties),
        ensures
            r == spec_awkward_penalty(*penalties, self.bad_starters@, *last_key),
            r <= 10000,
    {
        if contains_position(&self.bad_starters, last_key.position) {
            penalties.bad_starter
        } else {
            0
        }
    }

    /// Whether the digraph `last`, `next` is a rolling pair.
    fn is_rolling_combo(&self, last_key: &Key, next_key: &Key) -> (r: bool)
        ensures
            r == spec_is_rolling_combo(self.rolling_pairs_map@, *last_key, *next_key),
    {
        contains_pair(&self.rolling_pairs_map, (last_key.position, next_key.position))
    }
}

} // verus!
