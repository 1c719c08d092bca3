//! One generation's candidate layouts: staged batches seeded from two
//! parents, each batch mutated one pass more than the one before, so
//! that later candidates stray further from the parents.
use vstd::prelude::*;
use crate::config::PopulationConfig;
use crate::dna::{DNA, sequence_view, wf_sequence, spec_template, lemma_entries_wf,
    lemma_template_round_trip};
use crate::layout::{Layout, spec_entries};
use crate::mutator::Mutator;
use crate::parser::Position;
use crate::preservative::spec_restricted;

verus! {

/// A layout with exactly 47 well-formed entries, fit for breeding.
pub open spec fn layout_wf(template: Seq<char>) -> bool {
    spec_entries(template).len() == 47
}

/// One breeding step between two sequences: a whole-key swap, a
/// symbol swap, or no change (a candidate that could not be mutated
/// is carried over unchanged).
pub open spec fn swap_step(
    a: Seq<(Seq<char>, Seq<char>)>,
    b: Seq<(Seq<char>, Seq<char>)>,
) -> bool {
    ||| b == a
    ||| exists|i: usize, j: usize|
        i < a.len() && j < a.len() && b == crate::dna::spec_swap_keys(a, i, j)
    ||| exists|p1: Position, p2: Position|
        p1.0 < a.len() && p2.0 < a.len() && b == crate::dna::spec_swap_symbols(a, p1, p2)
}

/// Whether `child` descends from `parent` through a finite chain of
/// breeding steps.
pub open spec fn descends_by_swaps(
    parent: Seq<(Seq<char>, Seq<char>)>,
    child: Seq<(Seq<char>, Seq<char>)>,
) -> bool {
    exists|chain: Seq<Seq<(Seq<char>, Seq<char>)>>|
        chain.len() >= 1 && chain.first() == parent && chain.last() == child && (forall|k: int|
            0 <= k < chain.len() - 1 ==> swap_step(#[trigger] chain[k], chain[k + 1]))
}

/// Every sequence descends from itself.
pub proof fn lemma_descends_refl(s: Seq<(Seq<char>, Seq<char>)>)
    ensures
        descends_by_swaps(s, s),
{
    let chain = seq![s];
    assert(chain.len() >= 1 && chain.first() == s && chain.last() == s && (forall|k: int|
        0 <= k < chain.len() - 1 ==> swap_step(#[trigger] chain[k], chain[k + 1])));
}

/// One more breeding step extends a descent.
pub proof fn lemma_descends_step(
    parent: Seq<(Seq<char>, Seq<char>)>,
    a: Seq<(Seq<char>, Seq<char>)>,
    b: Seq<(Seq<char>, Seq<char>)>,
)
    requires
        descends_by_swaps(parent, a),
        swap_step(a, b),
    ensures
        descends_by_swaps(parent, b),
{
    let chain = choose|chain: Seq<Seq<(Seq<char>, Seq<char>)>>|
        chain.len() >= 1 && chain.first() == parent && chain.last() == a && (forall|k: int|
            0 <= k < chain.len() - 1 ==> swap_step(#[trigger] chain[k], chain[k + 1]));
    let longer = chain.push(b);
    assert(longer.first() == parent);
    assert(longer.last() == b);
    assert forall|k: int|
        0 <= k < longer.len() - 1 implies swap_step(#[trigger] longer[k], longer[k + 1]) by {
        if k < chain.len() - 1 {
            assert(longer[k] == chain[k] && longer[k + 1] == chain[k + 1]);
            assert(swap_step(chain[k], chain[k + 1]));
        } else {
            assert(longer[k] == chain.last() && longer[k + 1] == b);
        }
    }
    assert(longer.len() >= 1 && longer.first() == parent && longer.last() == b && (forall|k: int|
        0 <= k < longer.len() - 1 ==> swap_step(#[trigger] longer[k], longer[k + 1])));
}

/// The parsed symbol pairs of a layout.
pub open spec fn member_entries(layout: Layout) -> Seq<(Seq<char>, Seq<char>)> {
    spec_entries(layout.template@).map_values(|e: (Position, (Seq<char>, Seq<char>))| e.1)
}

type Members = Vec<Layout>;

/// The candidate layouts of one generation; member 0 is the untouched
/// normal parent.
pub struct Population {
    pub members: Members,
}

/// The number of character positions where `b` differs from `a`,
/// over their common length, counting from index `i`.
pub open spec fn spec_diff_count(a: Seq<char>, b: Seq<char>, i: int) -> int
    decreases (if a.len() <= b.len() {
        a.len()
    } else {
        b.len()
    }) - i,
{
    let common: int = if a.len() <= b.len() {
        a.len() as int
    } else {
        b.len() as int
    };
    if i < 0 || i >= common {
        0
    } else {
        (if a[i] != b[i] {
            1int
        } else {
            0int
        }) + spec_diff_count(a, b, i + 1)
    }
}

/// The deviation of `b` from `a` in thousandths of `a`'s length: the
/// share of characters that differ.
pub open spec fn spec_deviation_milli(a: Seq<char>, b: Seq<char>) -> int {
    if a.len() == 0 {
        0
    } else {
        1000 * spec_diff_count(a, b, 0) / (a.len() as int)
    }
}

/// Partial difference counts never exceed the characters left.
proof fn lemma_diff_count_bound(a: Seq<char>, b: Seq<char>, i: int)
    requires
        0 <= i,
    ensures
        0 <= spec_diff_count(a, b, i),
        spec_diff_count(a, b, i) <= (if a.len() <= b.len() {
            a.len() as int
        } else {
            b.len() as int
        }) - i || spec_diff_count(a, b, i) == 0,
    decreases (if a.len() <= b.len() {
        a.len()
    } else {
        b.len()
    }) - i,
{
    let common: int = if a.len() <= b.len() {
        a.len() as int
    } else {
        b.len() as int
    };
    if 0 <= i < common {
        lemma_diff_count_bound(a, b, i + 1);
    }
}

/// The deviation share is at most one thousand thousandths.
proof fn lemma_deviation_bound(a: Seq<char>, b: Seq<char>)
    ensures
        0 <= spec_deviation_milli(a, b) <= 1000,
{
    lemma_diff_count_bound(a, b, 0);
    if a.len() > 0 {
        let d = spec_diff_count(a, b, 0);
        let n = a.len() as int;
        assert(d <= n);
        assert(1000 * d <= 1000 * n) by (nonlinear_arith)
            requires
                0 <= d <= n,
        ;
        assert(0 <= 1000 * d / n <= 1000 * n / n) by (nonlinear_arith)
            requires
                0 <= 1000 * d <= 1000 * n,
                1 <= n,
        ;
        assert(1000 * n / n == 1000) by (nonlinear_arith)
            requires
                1 <= n,
        ;
    }
}

/// The share of characters (in thousandths) where `member`'s template
/// differs from `original`'s.
pub fn deviation_between(original: &Layout, member: &Layout) -> (deviation: u64)
    ensures
        deviation == spec_deviation_milli(original.template@, member.template@),
        deviation <= 1000,
{
    let a = crate::chars::to_char_vec(original.template.as_str());
    let b = crate::chars::to_char_vec(member.template.as_str());
    let ghost av = original.template@;
    let ghost bv = member.template@;
    let common: usize = if a.len() <= b.len() {
        a.len()
    } else {
        b.len()
    };
    let mut diffs: usize = 0;
    let ghost full = spec_diff_count(av, bv, 0);
    proof {
        lemma_diff_count_bound(av, bv, 0);
    }
    let mut i: usize = 0;
    while i < common
        invariant
            i <= common,
            common == (if av.len() <= bv.len() {
                av.len()
            } else {
                bv.len()
            }),
            a@ == av && b@ == bv,
            full == spec_diff_count(av, bv, 0),
            diffs + spec_diff_count(av, bv, i as int) == full,
            diffs <= i,
        decreases common - i,
    {
        if a[i] != b[i] {
            diffs = diffs + 1;
        }
        i = i + 1;
    }
    assert(spec_diff_count(av, bv, common as int) == 0);
    assert(diffs == full);
    if a.len() == 0 {
        0
    } else {
        let deviation = ((1000u128 * diffs as u128) / (a.len() as u128)) as u64;
        proof {
            lemma_deviation_bound(av, bv);
        }
        deviation
    }
}

impl Population {
    /// Builds the candidates of a generation from its two parents.
    /// The first member is the untouched normal parent; batches seeded
    /// from the two parents follow, each batch mutated one pass more
    /// than the one before.  Every member keeps 47 well-formed
    /// entries, and every member descends from one of the two parents
    /// through a finite chain of swaps.
    pub fn new(
        normal: &Layout,
        elite: &Layout,
        config: &PopulationConfig,
        mutator: &Mutator,
    ) -> (population: Population)
        requires
            layout_wf(normal.template@),
            layout_wf(elite.template@),
            1 <= config.size <= 100000,
            1 <= config.steps <= 100000,
            config.elites <= 100,
            forall|q: Position|
                spec_restricted(mutator.presie.restriced_positions@, q) ==> q.1 <= 1,
        ensures
            population.members@.len() == config.size,
            population.members@[0].template@ == normal.template@,
            forall|j: int|
                0 <= j < population.members@.len() ==> layout_wf(
                    (#[trigger] population.members@[j]).template@,
                ),
            forall|j: int|
                0 <= j < population.members@.len() ==> (descends_by_swaps(
                    member_entries(*normal),
                    member_entries(#[trigger] population.members@[j]),
                ) && crate::mutator::keeps_preserved(
                    mutator.presie.restriced_positions@,
                    member_entries(*normal),
                    member_entries(population.members@[j]),
                )) || (descends_by_swaps(
                    member_entries(*elite),
                    member_entries(population.members@[j]),
                ) && crate::mutator::keeps_preserved(
                    mutator.presie.restriced_positions@,
                    member_entries(*elite),
                    member_entries(population.members@[j]),
                )),
    {
        let members = Population::create_members(normal, elite, config, mutator);
        Population { members }
    }

    /// The member construction behind `new`.
    fn create_members(
        normal: &Layout,
        elite: &Layout,
        config: &PopulationConfig,
        mutator: &Mutator,
    ) -> (members: Members)
        requires
            layout_wf(normal.template@),
            layout_wf(elite.template@),
            1 <= config.size <= 100000,
            1 <= config.steps <= 100000,
            config.elites <= 100,
            forall|q: Position|
                spec_restricted(mutator.presie.restriced_positions@, q) ==> q.1 <= 1,
        ensures
            members@.len() == config.size,
            members@[0].template@ == normal.template@,
            forall|j: int|
                0 <= j < members@.len() ==> layout_wf((#[trigger] members@[j]).template@),
            forall|j: int|
                0 <= j < members@.len() ==> (descends_by_swaps(
                    member_entries(*normal),
                    member_entries(#[trigger] members@[j]),
                ) && crate::mutator::keeps_preserved(
                    mutator.presie.restriced_positions@,
                    member_entries(*normal),
                    member_entries(members@[j]),
                )) || (descends_by_swaps(member_entries(*elite), member_entries(members@[j]))
                    && crate::mutator::keeps_preserved(
                    mutator.presie.restriced_positions@,
                    member_entries(*elite),
                    member_entries(members@[j]),
                )),
    {
        let ghost ne = member_entries(*normal);
        let ghost ee = member_entries(*elite);
        let ghost pres = mutator.presie.restriced_positions@;
        let mut members: Members = Vec::new();
        members.push(normal.duplicate());
        proof {
            assert(members@[0].template@ == normal.template@);
            lemma_descends_refl(ne);
            assert(member_entries(members@[0]) == ne);
            assert(crate::mutator::keeps_preserved(pres, ne, ne));
        }

        let mut batch: Vec<DNA> = Population::make_prestine_batch(normal, elite, config);
        proof {
            lemma_descends_refl(ne);
            lemma_descends_refl(ee);
            assert(crate::mutator::keeps_preserved(pres, ne, ne));
            assert(crate::mutator::keeps_preserved(pres, ee, ee));
            assert forall|j: int|
                0 <= j < batch@.len() implies (descends_by_swaps(
                ne,
                sequence_view((#[trigger] batch@[j]).sequence@),
            ) && crate::mutator::keeps_preserved(
                pres,
                ne,
                sequence_view(batch@[j].sequence@),
            )) || (descends_by_swaps(ee, sequence_view(batch@[j].sequence@))
                && crate::mutator::keeps_preserved(
                pres,
                ee,
                sequence_view(batch@[j].sequence@),
            )) by {
                assert(sequence_view(batch@[j].sequence@) == ne || sequence_view(
                    batch@[j].sequence@,
                ) == ee);
            }
        }
        while members.len() < config.size
            invariant
                1 <= members@.len() <= config.size,
                1 <= config.size <= 100000,
                members@[0].template@ == normal.template@,
                ne == member_entries(*normal),
                ee == member_entries(*elite),
                pres == mutator.presie.restriced_positions@,
                forall|j: int|
                    0 <= j < members@.len() ==> layout_wf((#[trigger] members@[j]).template@),
                forall|j: int|
                    0 <= j < members@.len() ==> (descends_by_swaps(
                        ne,
                        member_entries(#[trigger] members@[j]),
                    ) && crate::mutator::keeps_preserved(pres, ne, member_entries(members@[j])))
                        || (descends_by_swaps(ee, member_entries(members@[j]))
                        && crate::mutator::keeps_preserved(pres, ee, member_entries(members@[j]))),
                batch@.len() >= 1,
                forall|j: int|
                    0 <= j < batch@.len() ==> sequence_view((#[trigger] batch@[j]).sequence@).len()
                        == 47 && wf_sequence(sequence_view(batch@[j].sequence@)),
                forall|j: int|
                    0 <= j < batch@.len() ==> (descends_by_swaps(
                        ne,
                        sequence_view((#[trigger] batch@[j]).sequence@),
                    ) && crate::mutator::keeps_preserved(
                        pres,
                        ne,
                        sequence_view(batch@[j].sequence@),
                    )) || (descends_by_swaps(ee, sequence_view(batch@[j].sequence@))
                        && crate::mutator::keeps_preserved(
                        pres,
                        ee,
                        sequence_view(batch@[j].sequence@),
                    )),
                forall|q: Position|
                    spec_restricted(mutator.presie.restriced_positions@, q) ==> q.1 <= 1,
            decreases config.size - members@.len(),
        {
            let mut next_batch: Vec<DNA> = Vec::new();
            let b: usize = batch.len();
            for i in 0..b
                invariant
                    b == batch@.len(),
                    next_batch@.len() == i,
                    ne == member_entries(*normal),
                    ee == member_entries(*elite),
                    pres == mutator.presie.restriced_positions@,
                    forall|j: int|
                        0 <= j < batch@.len() ==> sequence_view(
                            (#[trigger] batch@[j]).sequence@,
                        ).len() == 47 && wf_sequence(sequence_view(batch@[j].sequence@)),
                    forall|j: int|
                        0 <= j < batch@.len() ==> (descends_by_swaps(
                            ne,
                            sequence_view((#[trigger] batch@[j]).sequence@),
                        ) && crate::mutator::keeps_preserved(
                            pres,
                            ne,
                            sequence_view(batch@[j].sequence@),
                        )) || (descends_by_swaps(ee, sequence_view(batch@[j].sequence@))
                            && crate::mutator::keeps_preserved(
                            pres,
                            ee,
                            sequence_view(batch@[j].sequence@),
                        )),
                    forall|j: int|
                        0 <= j < next_batch@.len() ==> sequence_view(
                            (#[trigger] next_batch@[j]).sequence@,
                        ).len() == 47 && wf_sequence(sequence_view(next_batch@[j].sequence@)),
                    forall|j: int|
                        0 <= j < next_batch@.len() ==> (descends_by_swaps(
                            ne,
                            sequence_view((#[trigger] next_batch@[j]).sequence@),
                        ) && crate::mutator::keeps_preserved(
                            pres,
                            ne,
                            sequence_view(next_batch@[j].sequence@),
                        )) || (descends_by_swaps(ee, sequence_view(next_batch@[j].sequence@))
                            && crate::mutator::keeps_preserved(
                            pres,
                            ee,
                            sequence_view(next_batch@[j].sequence@),
                        )),
                    forall|q: Position|
                        spec_restricted(mutator.presie.restriced_positions@, q) ==> q.1 <= 1,
            {
                let candidate = &batch[i];
                assert(candidate.sequence@.len() == 47) by {
                    assert(sequence_view(candidate.sequence@).len()
                        == candidate.sequence@.len());
                }
                let ghost oldv = sequence_view(candidate.sequence@);
                if config.symbols && i % 2 != 0 {
                    match mutator.swap_random_symbols(candidate) {
                        Some(dna) => {
                            proof {
                                let newv = sequence_view(dna.sequence@);
                                let (p1, p2) = choose|p1: Position, p2: Position|
                                    p1.0 != p2.0 && p1 != p2 && crate::mutator::symbol_slot(
                                        pres,
                                        oldv,
                                        p1,
                                    ) && crate::mutator::symbol_slot(pres, oldv, p2) && newv
                                        == crate::dna::spec_swap_symbols(oldv, p1, p2) && (
                                    crate::dna::symbol_at(oldv, p1) != crate::dna::symbol_at(
                                        oldv,
                                        p2,
                                    ) ==> newv != oldv);
                                assert(swap_step(oldv, newv)) by {
                                    assert(p1.0 < oldv.len() && p2.0 < oldv.len() && newv
                                        == crate::dna::spec_swap_symbols(oldv, p1, p2));
                                }
                                if descends_by_swaps(ne, oldv) && crate::mutator::keeps_preserved(
                                    pres,
                                    ne,
                                    oldv,
                                ) {
                                    lemma_descends_step(ne, oldv, newv);
                                    crate::mutator::lemma_keeps_preserved_trans(
                                        pres,
                                        ne,
                                        oldv,
                                        newv,
                                    );
                                } else {
                                    lemma_descends_step(ee, oldv, newv);
                                    crate::mutator::lemma_keeps_preserved_trans(
                                        pres,
                                        ee,
                                        oldv,
                                        newv,
                                    );
                                }
                            }
                            next_batch.push(dna);
                        },
                        None => {
                            next_batch.push(candidate.duplicate());
                        },
                    }
                } else {
                    match mutator.swap_random_keys(candidate) {
                        Some(dna) => {
                            proof {
                                let newv = sequence_view(dna.sequence@);
                                let (i2, j2) = choose|i2: usize, j2: usize|
                                    i2 < oldv.len() && j2 < oldv.len() && i2 != j2
                                        && crate::mutator::key_index_safe(pres, i2)
                                        && crate::mutator::key_index_safe(pres, j2) && newv
                                        == crate::dna::spec_swap_keys(oldv, i2, j2) && (
                                    oldv[i2 as int] != oldv[j2 as int] ==> newv != oldv);
                                assert(swap_step(oldv, newv)) by {
                                    assert(i2 < oldv.len() && j2 < oldv.len() && newv
                                        == crate::dna::spec_swap_keys(oldv, i2, j2));
                                }
                                if descends_by_swaps(ne, oldv) && crate::mutator::keeps_preserved(
                                    pres,
                                    ne,
                                    oldv,
                                ) {
                                    lemma_descends_step(ne, oldv, newv);
                                    crate::mutator::lemma_keeps_preserved_trans(
                                        pres,
                                        ne,
                                        oldv,
                                        newv,
                                    );
                                } else {
                                    lemma_descends_step(ee, oldv, newv);
                                    crate::mutator::lemma_keeps_preserved_trans(
                                        pres,
                                        ee,
                                        oldv,
                                        newv,
                                    );
                                }
                            }
                            next_batch.push(dna);
                        },
                        None => {
                            next_batch.push(candidate.duplicate());
                        },
                    }
                }
            }
            let t: usize = next_batch.len();
            let ghost entry_len = members@.len();
            let mut k: usize = 0;
            while k < t && members.len() < config.size
                invariant
                    k <= t == next_batch@.len(),
                    members@.len() == (if entry_len + k <= config.size {
                        entry_len + k
                    } else {
                        config.size as int
                    }),
                    1 <= members@.len() <= config.size,
                    members@[0].template@ == normal.template@,
                    ne == member_entries(*normal),
                    ee == member_entries(*elite),
                    forall|j: int|
                        0 <= j < members@.len() ==> layout_wf(
                            (#[trigger] members@[j]).template@,
                        ),
                    forall|j: int|
                        0 <= j < members@.len() ==> (descends_by_swaps(
                            ne,
                            member_entries(#[trigger] members@[j]),
                        ) && crate::mutator::keeps_preserved(pres, ne, member_entries(members@[j])))
                            || (descends_by_swaps(ee, member_entries(members@[j]))
                            && crate::mutator::keeps_preserved(
                            pres,
                            ee,
                            member_entries(members@[j]),
                        )),
                    forall|j: int|
                        0 <= j < next_batch@.len() ==> sequence_view(
                            (#[trigger] next_batch@[j]).sequence@,
                        ).len() == 47 && wf_sequence(sequence_view(next_batch@[j].sequence@)),
                    forall|j: int|
                        0 <= j < next_batch@.len() ==> (descends_by_swaps(
                            ne,
                            sequence_view((#[trigger] next_batch@[j]).sequence@),
                        ) && crate::mutator::keeps_preserved(
                            pres,
                            ne,
                            sequence_view(next_batch@[j].sequence@),
                        )) || (descends_by_swaps(ee, sequence_view(next_batch@[j].sequence@))
                            && crate::mutator::keeps_preserved(
                            pres,
                            ee,
                            sequence_view(next_batch@[j].sequence@),
                        )),
                    pres == mutator.presie.restriced_positions@,
                decreases t - k,
            {
                let dna = &next_batch[k];
                assert(dna.sequence@.len() == 47) by {
                    assert(sequence_view(dna.sequence@).len() == dna.sequence@.len());
                }
                let layout = dna.to_layout();
                proof {
                    lemma_template_round_trip(sequence_view(dna.sequence@));
                    assert(layout.template@ == spec_template(sequence_view(dna.sequence@)));
                    assert(layout_wf(layout.template@));
                    assert(member_entries(layout) == sequence_view(dna.sequence@));
                }
                members.push(layout);
                k = k + 1;
            }
            assert(members@.len() == config.size || members@.len() == entry_len + t);
            batch = next_batch;
        }
        members
    }

    /// The untouched seed batch: `ceil(size / steps)` candidates, the
    /// leading share copied from the normal parent and the configured
    /// elite percentage (rounded up) from the elite parent.  No
    /// mutation is applied here.
    fn make_prestine_batch(normal: &Layout, elite: &Layout, config: &PopulationConfig) -> (batch:
        Vec<DNA>)
        requires
            layout_wf(normal.template@),
            layout_wf(elite.template@),
            1 <= config.size <= 100000,
            1 <= config.steps <= 100000,
            config.elites <= 100,
        ensures
            ({
                let batch_size = (config.size + config.steps - 1) as int / config.steps as int;
                let elites_per_batch = (batch_size * config.elites + 99) / 100;
                let normals_per_batch = batch_size - elites_per_batch;
                let normal_entries = spec_entries(normal.template@).map_values(
                    |e: (Position, (Seq<char>, Seq<char>))| e.1,
                );
                let elite_entries = spec_entries(elite.template@).map_values(
                    |e: (Position, (Seq<char>, Seq<char>))| e.1,
                );
                &&& batch@.len() == batch_size
                &&& batch@.len() >= 1
                &&& (forall|j: int|
                    0 <= j < normals_per_batch ==> sequence_view(
                        (#[trigger] batch@[j]).sequence@,
                    ) == normal_entries)
                &&& (forall|j: int|
                    normals_per_batch <= j < batch@.len() ==> sequence_view(
                        (#[trigger] batch@[j]).sequence@,
                    ) == elite_entries)
            }),
            forall|j: int|
                0 <= j < batch@.len() ==> sequence_view((#[trigger] batch@[j]).sequence@).len()
                    == 47 && wf_sequence(sequence_view(batch@[j].sequence@)),
    {
        let ghost sz: int = config.size as int;
        let ghost st: int = config.steps as int;
        let batch_size: usize = (config.size + config.steps - 1) / config.steps;
        proof {
            vstd::arithmetic::div_mod::lemma_fundamental_div_mod(sz + st - 1, st);
            vstd::arithmetic::div_mod::lemma_mod_bound(sz + st - 1, st);
            let q = (sz + st - 1) / st;
            let r = (sz + st - 1) % st;
            assert(1 <= q <= sz) by (nonlinear_arith)
                requires
                    sz + st - 1 == st * q + r,
                    0 <= r < st,
                    1 <= sz,
                    1 <= st,
            ;
        }
        let ghost bs: int = batch_size as int;
        let ghost el: int = config.elites as int;
        assert(bs * el <= 10_000_000) by (nonlinear_arith)
            requires
                0 <= bs <= 100000,
                0 <= el <= 100,
        ;
        let elites_per_batch: usize = (batch_size * config.elites + 99) / 100;
        proof {
            vstd::arithmetic::div_mod::lemma_fundamental_div_mod(bs * el + 99, 100);
            vstd::arithmetic::div_mod::lemma_mod_bound(bs * el + 99, 100);
            let q = (bs * el + 99) / 100;
            let r = (bs * el + 99) % 100;
            assert(q <= bs) by (nonlinear_arith)
                requires
                    bs * el + 99 == 100 * q + r,
                    0 <= r < 100,
                    0 <= el <= 100,
                    1 <= bs,
            ;
        }
        let normals_per_batch = batch_size - elites_per_batch;

        let normal_dna = DNA::from(normal);
        let elite_dna = DNA::from(elite);
        proof {
            lemma_entries_wf(normal.template@);
            lemma_entries_wf(elite.template@);
        }
        let ghost normal_entries = spec_entries(normal.template@).map_values(
            |e: (Position, (Seq<char>, Seq<char>))| e.1,
        );
        let ghost elite_entries = spec_entries(elite.template@).map_values(
            |e: (Position, (Seq<char>, Seq<char>))| e.1,
        );
        let mut batch: Vec<DNA> = Vec::new();
        for i in 0..batch_size
            invariant
                batch@.len() == i,
                sequence_view(normal_dna.sequence@) == normal_entries,
                sequence_view(elite_dna.sequence@) == elite_entries,
                normal_entries.len() == 47 && wf_sequence(normal_entries),
                elite_entries.len() == 47 && wf_sequence(elite_entries),
                normals_per_batch <= batch_size,
                forall|j: int|
                    0 <= j < i && j < normals_per_batch ==> sequence_view(
                        (#[trigger] batch@[j]).sequence@,
                    ) == normal_entries,
                forall|j: int|
                    normals_per_batch <= j < i ==> sequence_view(
                        (#[trigger] batch@[j]).sequence@,
                    ) == elite_entries,
                forall|j: int|
                    0 <= j < batch@.len() ==> sequence_view(
                        (#[trigger] batch@[j]).sequence@,
                    ).len() == 47 && wf_sequence(sequence_view(batch@[j].sequence@)),
        {
            if i < normals_per_batch {
                batch.push(normal_dna.duplicate());
            } else {
                batch.push(elite_dna.duplicate());
            }
        }
        batch
    }

    /// The share of characters (in thousandths) where `member`'s
    /// template differs from member 0's.
    pub fn deviation_for(&self, member: &Layout) -> (deviation: u64)
        requires
            self.members@.len() > 0,
        ensures
            deviation == spec_deviation_milli(
                self.members@[0].template@,
                member.template@,
            ),
            deviation <= 1000,
    {
        deviation_between(&self.members[0], member)
    }
}

} // verus!
