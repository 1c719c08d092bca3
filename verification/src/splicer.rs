//! Crossover scaffolding: chunking parent sequences, merging chunks
//! under locked symbols, and seeding an offspring from the preserve
//! template.  The recombination itself is still a stub that yields the
//! preserved seed, as the search breeds by mutation alone.
use vstd::prelude::*;
use rand::Rng;
use crate::dna::{DNA, Pair, Sequence, sequence_view, spec_template};
use crate::layout::{Layout, spec_entries};
use crate::parser::Position;
use crate::preservative::{Preservative, spec_restricted, spec_preserved_at, pres_unique};

verus! {

/// The crossover helper, bound to the locked positions.
pub struct Splicer {
    pub presie: Preservative,
}

/// How many chunks a parent sequence is cut into.
pub const CHUNKS_COUNT: usize = 8;

/// The chunks of `tail` over `rounds` further cuts: a full chunk is
/// cut off while more than a chunk remains, then the remainder is
/// repeated for the rounds left.
pub open spec fn spec_chunks(tail: Seq<(Seq<char>, Seq<char>)>, rounds: int, size: int) -> Seq<
    Seq<(Seq<char>, Seq<char>)>,
>
    decreases rounds,
{
    if rounds <= 0 {
        Seq::empty()
    } else if tail.len() > size {
        seq![tail.take(size)] + spec_chunks(tail.skip(size), rounds - 1, size)
    } else {
        seq![tail] + spec_chunks(tail, rounds - 1, size)
    }
}

/// Whether every character of a symbol is an ASCII letter.
pub open spec fn all_letter_sym(s: Seq<char>) -> bool {
    forall|k: int| 0 <= k < s.len() ==> crate::chars::spec_is_letter(s[k])
}

/// Whether a chunk slot may take the other parent's symbols: an empty
/// slot always may; a slot of the alphabetic core only yields to
/// non-alphabetic newcomers.
pub open spec fn spec_can_merge(old: (Seq<char>, Seq<char>), new: (Seq<char>, Seq<char>)) -> bool {
    (old.0.len() == 0 && old.1.len() == 0) || !(all_letter_sym(old.0) || all_letter_sym(old.1))
        || !all_letter_sym(new.0)
}

/// An empty slot takes the newcomer; a filled slot keeps its symbol.
pub open spec fn spec_merge_symbol(old: Seq<char>, new: Seq<char>) -> Seq<char> {
    if old.len() == 0 {
        new
    } else {
        old
    }
}

/// The merge of two chunks: where merging is allowed, each layer
/// keeps its own symbol or adopts the newcomer's; elsewhere the old
/// pair stays whole.
pub open spec fn spec_merge(
    old: Seq<(Seq<char>, Seq<char>)>,
    new: Seq<(Seq<char>, Seq<char>)>,
) -> Seq<(Seq<char>, Seq<char>)> {
    Seq::new(
        old.len(),
        |i: int| if spec_can_merge(old[i], new[i]) {
            (spec_merge_symbol(old[i].0, new[i].0), spec_merge_symbol(old[i].1, new[i].1))
        } else {
            old[i]
        },
    )
}

/// The seed pair at position `i` of an offspring: each layer shows
/// the preserve template's glyph when the slot is locked, and is
/// empty otherwise.
pub open spec fn spec_blank_pair(
    pres: Seq<(Position, String)>,
    i: usize,
) -> (Seq<char>, Seq<char>) {
    (
        if spec_restricted(pres, (i, 0usize)) {
            spec_stored_symbol(pres, (i, 0usize))
        } else {
            Seq::empty()
        },
        if spec_restricted(pres, (i, 1usize)) {
            spec_stored_symbol(pres, (i, 1usize))
        } else {
            Seq::empty()
        },
    )
}

/// The glyph stored for a locked position.
pub open spec fn spec_stored_symbol(pres: Seq<(Position, String)>, p: Position) -> Seq<char> {
    let j = choose|j: int| 0 <= j < pres.len() && pres[j].0 == p;
    pres[j].1@
}

/// Relies on rand's `Rng::gen_range` on the thread-local generator: a
/// fair coin.
#[verifier::external_body]
fn random_positive_draw() -> (r: bool) {
    let mut rng = rand::thread_rng();
    rng.gen_range(0..2) == 0
}

/// Whether every character of the token is an ASCII letter.
fn all_letters(token: &String) -> (r: bool)
    ensures
        r == all_letter_sym(token@),
{
    let chars = crate::chars::to_char_vec(token.as_str());
    let n: usize = chars.len();
    for k in 0..n
        invariant
            n == chars@.len(),
            chars@ == token@,
            forall|j: int| 0 <= j < k ==> crate::chars::spec_is_letter(token@[j]),
    {
        if !crate::chars::is_letter_char(chars[k]) {
            return false;
        }
    }
    true
}

impl Splicer {
    /// A splicer over the locked positions of `preserve`.
    pub fn new(preserve: String) -> (splicer: Splicer)
        ensures
            forall|p: Position|
                spec_restricted(splicer.presie.restriced_positions@, p) == spec_preserved_at(
                    spec_entries(preserve@),
                    p,
                ),
            pres_unique(splicer.presie.restriced_positions@),
    {
        Splicer { presie: Preservative::from(preserve) }
    }

    /// Cuts a parent sequence into its chunks.
    pub fn chunk(&self, dna: &DNA) -> (chunks: Vec<Sequence>)
        ensures
            ({
                let sv = sequence_view(dna.sequence@);
                let size = sv.len() as int / 8 + 1;
                chunks@.map_values(|c: Sequence| sequence_view(c@)) == spec_chunks(
                    sv,
                    8,
                    size,
                )
            }),
    {
        let ghost sv = sequence_view(dna.sequence@);
        let chunk_size: usize = dna.sequence.len() / CHUNKS_COUNT + 1;
        let mut chunks: Vec<Sequence> = Vec::new();
        let mut start: usize = 0;
        let ghost full = spec_chunks(sv, 8, chunk_size as int);
        assert(sv.skip(0) =~= sv);
        let mut round: usize = 0;
        while round < CHUNKS_COUNT
            invariant
                round <= 8,
                chunk_size == sv.len() / 8 + 1,
                sv == sequence_view(dna.sequence@),
                start <= dna.sequence@.len(),
                full == spec_chunks(sv, 8, chunk_size as int),
                chunks@.map_values(|c: Sequence| sequence_view(c@)) + spec_chunks(
                    sv.skip(start as int),
                    8 - round,
                    chunk_size as int,
                ) =~= full,
            decreases 8 - round,
        {
            let remaining = dna.sequence.len() - start;
            let ghost tail = sv.skip(start as int);
            let take: usize = if remaining > chunk_size {
                chunk_size
            } else {
                remaining
            };
            let mut piece: Sequence = Vec::new();
            for k in 0..take
                invariant
                    start + take <= dna.sequence@.len(),
                    sv == sequence_view(dna.sequence@),
                    sequence_view(piece@) =~= sv.subrange(start as int, start + k),
            {
                let p = &dna.sequence[start + k];
                piece.push((p.0.clone(), p.1.clone()));
                assert(sequence_view(piece@) =~= sv.subrange(start as int, start + k + 1));
            }
            chunks.push(piece);
            proof {
                if tail.len() > chunk_size {
                    assert(sv.subrange(start as int, start + take as int) =~= tail.take(
                        chunk_size as int,
                    ));
                    assert(sv.skip(start + chunk_size) =~= tail.skip(chunk_size as int));
                } else {
                    assert(sv.subrange(start as int, start + take as int) =~= tail);
                    assert(sv.skip(start as int) =~= tail);
                }
                assert(chunks@.map_values(|c: Sequence| sequence_view(c@)) =~= chunks@.map_values(
                    |c: Sequence| sequence_view(c@),
                ));
            }
            if remaining > chunk_size {
                start = start + chunk_size;
            }
            round = round + 1;
            assert(chunks@.map_values(|c: Sequence| sequence_view(c@)) + spec_chunks(
                sv.skip(start as int),
                8 - round,
                chunk_size as int,
            ) =~= full);
        }
        assert(chunks@.map_values(|c: Sequence| sequence_view(c@)) =~= full);
        chunks
    }

    /// Merges a newcomer chunk into an old one.
    pub fn merge(&self, old: &Sequence, new: &Sequence) -> (merged: Sequence)
        requires
            old@.len() <= new@.len(),
        ensures
            sequence_view(merged@) == spec_merge(
                sequence_view(old@),
                sequence_view(new@).take(old@.len() as int),
            ),
    {
        let ghost ov = sequence_view(old@);
        let ghost nv = sequence_view(new@).take(old@.len() as int);
        let ghost target = spec_merge(ov, nv);
        let mut merged: Sequence = Vec::new();
        let n: usize = old.len();
        for i in 0..n
            invariant
                n == old@.len() && n <= new@.len(),
                ov == sequence_view(old@),
                nv == sequence_view(new@).take(old@.len() as int),
                target == spec_merge(ov, nv),
                sequence_view(merged@) =~= target.take(i as int),
        {
            let pair = &old[i];
            let newcomer = &new[i];
            assert(ov[i as int] == (pair.0@, pair.1@));
            assert(nv[i as int] == (newcomer.0@, newcomer.1@));
            if self.can_merge(pair, newcomer) {
                let new_shifted = self.merge_symbols(&pair.0, &newcomer.0);
                let new_normal = self.merge_symbols(&pair.1, &newcomer.1);
                merged.push((new_shifted, new_normal));
            } else {
                merged.push((pair.0.clone(), pair.1.clone()));
            }
            assert(sequence_view(merged@) =~= target.take(i + 1));
        }
        assert(sequence_view(merged@) =~= target);
        merged
    }

    /// Whether a slot may take the newcomer's symbols.
    pub fn can_merge(&self, old: &Pair, new: &Pair) -> (r: bool)
        ensures
            r == spec_can_merge((old.0@, old.1@), (new.0@, new.1@)),
    {
        let shifted_is_empty = old.0.as_str().unicode_len() == 0;
        let normal_is_empty = old.1.as_str().unicode_len() == 0;
        let shifted_is_a_letter = all_letters(&old.0);
        let normal_is_a_letter = all_letters(&old.1);
        let new_is_a_letter = all_letters(&new.0);
        (shifted_is_empty && normal_is_empty) || !(shifted_is_a_letter || normal_is_a_letter)
            || !new_is_a_letter
    }

    /// The kept symbol of one layer: the old one unless it is empty.
    pub fn merge_symbols(&self, old: &String, new: &String) -> (r: String)
        ensures
            r@ == spec_merge_symbol(old@, new@),
    {
        if old.as_str().unicode_len() == 0 {
            new.clone()
        } else {
            old.clone()
        }
    }

    /// The two parents in a random order.
    pub fn random_parents(&self, l1: &Layout, l2: &Layout) -> (parents: (DNA, DNA))
        ensures
            ({
                let e1 = spec_entries(l1.template@).map_values(
                    |e: (Position, (Seq<char>, Seq<char>))| e.1,
                );
                let e2 = spec_entries(l2.template@).map_values(
                    |e: (Position, (Seq<char>, Seq<char>))| e.1,
                );
                (sequence_view(parents.0.sequence@) == e1 && sequence_view(parents.1.sequence@)
                    == e2) || (sequence_view(parents.0.sequence@) == e2 && sequence_view(
                    parents.1.sequence@,
                ) == e1)
            }),
    {
        let d1 = DNA::from(l1);
        let d2 = DNA::from(l2);
        if self.random_positive() {
            (d1, d2)
        } else {
            (d2, d1)
        }
    }

    /// A fair coin from the thread-local generator.
    pub fn random_positive(&self) -> (r: bool) {
        random_positive_draw()
    }

    /// The offspring seed: every locked slot shows its preserve glyph,
    /// every free slot is empty, over the shape of `original`.
    pub fn blank_dna(&self, original: &DNA) -> (blank: DNA)
        requires
            pres_unique(self.presie.restriced_positions@),
        ensures
            blank.sequence@.len() == original.sequence@.len(),
            forall|i: usize|
                i < original.sequence@.len() ==> sequence_view(blank.sequence@)[i as int]
                    == spec_blank_pair(self.presie.restriced_positions@, i),
    {
        let ghost pres = self.presie.restriced_positions@;
        let mut sequence: Sequence = Vec::new();
        let n: usize = original.len();
        for i in 0..n
            invariant
                n == original.sequence@.len(),
                pres == self.presie.restriced_positions@,
                sequence@.len() == i,
                forall|j: usize|
                    j < i ==> sequence_view(sequence@)[j as int] == spec_blank_pair(pres, j),
        {
            let shifted = self.symbol_or_blank((i, 0));
            let normal = self.symbol_or_blank((i, 1));
            sequence.push((shifted, normal));
            assert(sequence_view(sequence@)[i as int] == spec_blank_pair(pres, i));
        }
        DNA { sequence }
    }

    /// The preserve glyph at `position`, or an empty symbol when the
    /// slot is free.
    pub fn symbol_or_blank(&self, position: Position) -> (r: String)
        requires
            pres_unique(self.presie.restriced_positions@),
        ensures
            r@ == (if spec_restricted(self.presie.restriced_positions@, position) {
                spec_stored_symbol(self.presie.restriced_positions@, position)
            } else {
                Seq::<char>::empty()
            }),
    {
        match self.presie.symbol_at(position) {
            Some(symbol) => {
                proof {
                    let pres = self.presie.restriced_positions@;
                    let j = choose|j: int|
                        0 <= j < pres.len() && pres[j].0 == position && pres[j].1@ == symbol@;
                    let k = choose|k: int| 0 <= k < pres.len() && pres[k].0 == position;
                    assert(pres[j].0 == position && pres[k].0 == position);
                    assert(j == k);
                }
                symbol
            },
            None => String::new(),
        }
    }

    /// One recombination of two parents.  The cut-and-merge pipeline
    /// is exercised, but the offspring is still the preserved seed:
    /// its template is the canonical form of the blank sequence.
    pub fn sex(&self, mom: &Layout, dad: &Layout) -> (offspring: Layout)
        requires
            pres_unique(self.presie.restriced_positions@),
            spec_entries(mom.template@).len() == 47,
            spec_entries(dad.template@).len() == 47,
        ensures
            ({
                let pres = self.presie.restriced_positions@;
                offspring.template@ == spec_template(
                    Seq::new(47nat, |i: int| spec_blank_pair(pres, i as usize)),
                )
            }),
    {
        let (mom_dna, dad_dna) = self.random_parents(mom, dad);
        assert(mom_dna.sequence@.len() == 47 && dad_dna.sequence@.len() == 47) by {
            assert(sequence_view(mom_dna.sequence@).len() == mom_dna.sequence@.len());
            assert(sequence_view(dad_dna.sequence@).len() == dad_dna.sequence@.len());
        }
        let offspring = self.blank_dna(&mom_dna);
        let moms_chunks = self.chunk(&mom_dna);
        let dads_chunks = self.chunk(&dad_dna);
        let babe_chunks = self.chunk(&offspring);
        let _ = moms_chunks;
        let _ = dads_chunks;
        let _ = babe_chunks;
        let layout = offspring.to_layout();
        proof {
            let pres = self.presie.restriced_positions@;
            assert(sequence_view(offspring.sequence@) =~= Seq::new(
                47nat,
                |i: int| spec_blank_pair(pres, i as usize),
            ));
        }
        layout
    }
}

} // verus!
