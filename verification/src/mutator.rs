//! Random mutation of layouts under locked positions: swapping two
//! whole keys, or two non-alphabetic symbols across layers.
//!
//! Instead of retrying random draws until one avoids the locked
//! positions, each operation first collects the legal candidates and
//! draws among them; when fewer than two candidates exist it reports
//! failure instead of looping forever.
use vstd::prelude::*;
use rand::Rng;
use crate::chars::{spec_is_letter, is_letter_char, to_char_vec};
use crate::dna::{DNA, sequence_view, symbol_at, spec_swap_keys, spec_swap_symbols,
    spec_template};
use crate::layout::Layout;
use crate::parser::Position;
use crate::preservative::{Preservative, spec_restricted};

verus! {

/// The mutation operators, bound to the set of locked positions.
pub struct Mutator {
    pub presie: Preservative,
}

/// Whether both layers of key `i` are free to mutate.
pub open spec fn key_index_safe(pres: Seq<(Position, String)>, i: usize) -> bool {
    !spec_restricted(pres, (i, 0usize)) && !spec_restricted(pres, (i, 1usize))
}

/// Whether a symbol holds no ASCII letter (the alphabetic core is
/// kept stable by symbol mutation).
pub open spec fn non_alpha(sym: Seq<char>) -> bool {
    forall|k: int| 0 <= k < sym.len() ==> !spec_is_letter(sym[k])
}

/// Whether `p` may take part in a symbol swap: a real slot of a
/// non-alphabetic key (judged by its shifted symbol) that is not
/// locked.
pub open spec fn symbol_slot(
    pres: Seq<(Position, String)>,
    s: Seq<(Seq<char>, Seq<char>)>,
    p: Position,
) -> bool {
    p.0 < s.len() && p.1 <= 1 && non_alpha(s[p.0 as int].0) && !spec_restricted(pres, p)
}

/// Whether `new` keeps every locked position's symbol of `old`.
pub open spec fn keeps_preserved(
    pres: Seq<(Position, String)>,
    old: Seq<(Seq<char>, Seq<char>)>,
    new: Seq<(Seq<char>, Seq<char>)>,
) -> bool {
    new.len() == old.len() && forall|p: Position|
        spec_restricted(pres, p) && p.0 < old.len() ==> symbol_at(new, p) == symbol_at(old, p)
}

/// Whether every pair of the sequence still has both its symbols.
pub open spec fn all_pairs_nonempty(s: Seq<(Seq<char>, Seq<char>)>) -> bool {
    forall|k: int| 0 <= k < s.len() ==> (#[trigger] s[k]).0.len() > 0 && s[k].1.len() > 0
}

/// Locked symbols survive any chain of mutations: if every step of
/// `chain` keeps the locked positions, the last sequence still shows
/// the first one's symbols there.
pub proof fn lemma_preservation_chain(
    pres: Seq<(Position, String)>,
    chain: Seq<Seq<(Seq<char>, Seq<char>)>>,
)
    requires
        chain.len() > 0,
        forall|k: int|
            0 <= k < chain.len() - 1 ==> keeps_preserved(pres, #[trigger] chain[k], chain[k + 1]),
    ensures
        keeps_preserved(pres, chain.first(), chain.last()),
    decreases chain.len(),
{
    if chain.len() > 1 {
        let rest = chain.drop_first();
        assert forall|k: int|
            0 <= k < rest.len() - 1 implies keeps_preserved(pres, #[trigger] rest[k], rest[k + 1]) by {
            assert(chain[k + 1] == rest[k]);
            assert(chain[k + 2] == rest[k + 1]);
        }
        lemma_preservation_chain(pres, rest);
        assert(keeps_preserved(pres, chain[0], chain[1]));
    }
}

/// Keeping the locked symbols is transitive: two steps that each keep
/// them compose to one.
pub proof fn lemma_keeps_preserved_trans(
    pres: Seq<(Position, String)>,
    a: Seq<(Seq<char>, Seq<char>)>,
    b: Seq<(Seq<char>, Seq<char>)>,
    c: Seq<(Seq<char>, Seq<char>)>,
)
    requires
        keeps_preserved(pres, a, b),
        keeps_preserved(pres, b, c),
    ensures
        keeps_preserved(pres, a, c),
{
    assert forall|p: Position|
        spec_restricted(pres, p) && p.0 < a.len() implies symbol_at(c, p) == symbol_at(
        a,
        p,
    ) by {
        assert(symbol_at(b, p) == symbol_at(a, p));
        assert(symbol_at(c, p) == symbol_at(b, p));
    }
}

/// No pair ever loses a symbol over any chain of mutations: if every
/// step keeps all pairs whole, the last sequence is as whole as the
/// first.
pub proof fn lemma_nonempty_chain(chain: Seq<Seq<(Seq<char>, Seq<char>)>>)
    requires
        chain.len() > 0,
        all_pairs_nonempty(chain.first()),
        forall|k: int|
            0 <= k < chain.len() - 1 ==> (all_pairs_nonempty(#[trigger] chain[k])
                ==> all_pairs_nonempty(chain[k + 1])),
    ensures
        all_pairs_nonempty(chain.last()),
    decreases chain.len(),
{
    if chain.len() > 1 {
        let rest = chain.drop_first();
        assert(all_pairs_nonempty(chain[0]));
        assert(all_pairs_nonempty(chain[1]));
        assert forall|k: int|
            0 <= k < rest.len() - 1 implies (all_pairs_nonempty(#[trigger] rest[k])
            ==> all_pairs_nonempty(rest[k + 1])) by {
            assert(chain[k + 1] == rest[k]);
            assert(chain[k + 2] == rest[k + 1]);
        }
        lemma_nonempty_chain(rest);
    }
}

/// A key swap of two distinct positions holding different pairs
/// changes the sequence.
pub proof fn lemma_swap_keys_changes(s: Seq<(Seq<char>, Seq<char>)>, i: usize, j: usize)
    requires
        i < s.len(),
        j < s.len(),
        i != j,
        s[i as int] != s[j as int],
    ensures
        spec_swap_keys(s, i, j) != s,
{
    assert(spec_swap_keys(s, i, j)[i as int] == s[j as int]);
}

/// A symbol swap of two distinct slots holding different symbols
/// changes the sequence.
pub proof fn lemma_swap_symbols_changes(
    s: Seq<(Seq<char>, Seq<char>)>,
    p1: Position,
    p2: Position,
)
    requires
        p1.0 < s.len(),
        p2.0 < s.len(),
        p1 != p2,
        p1.1 <= 1,
        p2.1 <= 1,
        symbol_at(s, p1) != symbol_at(s, p2),
    ensures
        spec_swap_symbols(s, p1, p2) != s,
{
    let new = spec_swap_symbols(s, p1, p2);
    if p1.0 == p2.0 {
        assert(new[p1.0 as int] != s[p1.0 as int]);
    } else {
        if p1.1 == 0 {
            assert(new[p1.0 as int].0 == symbol_at(s, p2));
            assert(new[p1.0 as int] != s[p1.0 as int]);
        } else {
            assert(new[p1.0 as int].1 == symbol_at(s, p2));
            assert(new[p1.0 as int] != s[p1.0 as int]);
        }
    }
}

/// A key swap keeps both symbols of every pair.
pub proof fn lemma_swap_keys_nonempty(s: Seq<(Seq<char>, Seq<char>)>, i: usize, j: usize)
    requires
        i < s.len(),
        j < s.len(),
        all_pairs_nonempty(s),
    ensures
        all_pairs_nonempty(spec_swap_keys(s, i, j)),
{
    let new = spec_swap_keys(s, i, j);
    assert forall|k: int| 0 <= k < new.len() implies (#[trigger] new[k]).0.len() > 0
        && new[k].1.len() > 0 by {
        assert(new[k] == s[k] || new[k] == s[i as int] || new[k] == s[j as int]);
    }
}

/// A symbol swap keeps both symbols of every pair.
pub proof fn lemma_swap_symbols_nonempty(
    s: Seq<(Seq<char>, Seq<char>)>,
    p1: Position,
    p2: Position,
)
    requires
        p1.0 < s.len(),
        p2.0 < s.len(),
        all_pairs_nonempty(s),
    ensures
        all_pairs_nonempty(spec_swap_symbols(s, p1, p2)),
{
    let new = spec_swap_symbols(s, p1, p2);
    assert forall|k: int| 0 <= k < new.len() implies (#[trigger] new[k]).0.len() > 0
        && new[k].1.len() > 0 by {
        assert(s[p1.0 as int].0.len() > 0 && s[p1.0 as int].1.len() > 0);
        assert(s[p2.0 as int].0.len() > 0 && s[p2.0 as int].1.len() > 0);
    }
}

/// A symbol swap of two distinct free slots keeps every locked
/// position's symbol.
pub proof fn lemma_swap_symbols_preserves(
    pres: Seq<(Position, String)>,
    s: Seq<(Seq<char>, Seq<char>)>,
    p1: Position,
    p2: Position,
)
    requires
        p1.0 < s.len(),
        p2.0 < s.len(),
        p1.1 <= 1,
        p2.1 <= 1,
        !spec_restricted(pres, p1),
        !spec_restricted(pres, p2),
        forall|q: Position| spec_restricted(pres, q) ==> q.1 <= 1,
    ensures
        keeps_preserved(pres, s, spec_swap_symbols(s, p1, p2)),
{
    let new = spec_swap_symbols(s, p1, p2);
    assert forall|q: Position|
        spec_restricted(pres, q) && q.0 < s.len() implies symbol_at(new, q) == symbol_at(
        s,
        q,
    ) by {
        assert(q != p1 && q != p2);
        assert(q.1 <= 1);
        if q.0 != p1.0 && q.0 != p2.0 {
            assert(new[q.0 as int] == s[q.0 as int]);
        }
    }
}

/// A key swap of two distinct fully free keys keeps every locked
/// position's symbol.
pub proof fn lemma_swap_keys_preserves(
    pres: Seq<(Position, String)>,
    s: Seq<(Seq<char>, Seq<char>)>,
    i: usize,
    j: usize,
)
    requires
        i < s.len(),
        j < s.len(),
        key_index_safe(pres, i),
        key_index_safe(pres, j),
        forall|q: Position| spec_restricted(pres, q) ==> q.1 <= 1,
    ensures
        keeps_preserved(pres, s, spec_swap_keys(s, i, j)),
{
    let new = spec_swap_keys(s, i, j);
    assert forall|q: Position|
        spec_restricted(pres, q) && q.0 < s.len() implies symbol_at(new, q) == symbol_at(
        s,
        q,
    ) by {
        assert(q.0 != i && q.0 != j);
        assert(new[q.0 as int] == s[q.0 as int]);
    }
}

/// Relies on rand's `Rng::gen_range` on the thread-local generator: a
/// uniformly drawn value below `size`.
#[verifier::external_body]
fn random_number(size: usize) -> (r: usize)
    requires
        1 <= size,
    ensures
        r < size,
{
    let mut rng = rand::thread_rng();
    rng.gen_range(0..size)
}

/// Whether the token holds no ASCII letter.
fn non_alpha_token(token: &String) -> (r: bool)
    ensures
        r == non_alpha(token@),
{
    let chars = to_char_vec(token.as_str());
    let n: usize = chars.len();
    for k in 0..n
        invariant
            n == chars@.len(),
            chars@ == token@,
            forall|j: int| 0 <= j < k ==> !spec_is_letter(token@[j]),
    {
        if is_letter_char(chars[k]) {
            return false;
        }
    }
    true
}

impl Mutator {
    /// A mutator over the locked positions of `preserve`.
    pub fn new(preserve: String) -> (mutator: Mutator)
        ensures
            forall|p: Position|
                spec_restricted(mutator.presie.restriced_positions@, p)
                    == crate::preservative::spec_preserved_at(
                    crate::layout::spec_entries(preserve@),
                    p,
                ),
            forall|q: Position|
                spec_restricted(mutator.presie.restriced_positions@, q) ==> q.1 <= 1,
    {
        let presie = Preservative::from(preserve);
        proof {
            assert forall|q: Position|
                spec_restricted(presie.restriced_positions@, q) implies q.1 <= 1 by {
                let j = choose|j: int|
                    0 <= j < presie.restriced_positions@.len()
                        && presie.restriced_positions@[j].0 == q;
            }
        }
        Mutator { presie }
    }

    /// The key indices of `dna` whose two layers are both free, in
    /// increasing order.
    fn safe_key_positions(&self, dna: &DNA) -> (candidates: Vec<usize>)
        ensures
            forall|k: int|
                0 <= k < candidates@.len() ==> (#[trigger] candidates@[k]) < dna.sequence@.len()
                    && key_index_safe(self.presie.restriced_positions@, candidates@[k]),
            forall|a: int, b: int|
                0 <= a < b < candidates@.len() ==> candidates@[a] < candidates@[b],
            forall|i: usize|
                i < dna.sequence@.len() && key_index_safe(self.presie.restriced_positions@, i)
                    ==> candidates@.contains(i),
    {
        let mut candidates: Vec<usize> = Vec::new();
        let n: usize = dna.len();
        for i in 0..n
            invariant
                n == dna.sequence@.len(),
                forall|k: int|
                    0 <= k < candidates@.len() ==> (#[trigger] candidates@[k]) < i
                        && key_index_safe(self.presie.restriced_positions@, candidates@[k]),
                forall|a: int, b: int|
                    0 <= a < b < candidates@.len() ==> candidates@[a] < candidates@[b],
                forall|j: usize|
                    j < i && key_index_safe(self.presie.restriced_positions@, j)
                        ==> candidates@.contains(j),
        {
            let ghost snap = candidates@;
            if self.presie.is_safe_position((i, 0)) && self.presie.is_safe_position((i, 1)) {
                candidates.push(i);
                assert(candidates@.last() == i);
                assert forall|j: usize|
                    j < i + 1 && key_index_safe(self.presie.restriced_positions@, j)
                        implies candidates@.contains(j) by {
                    if j < i {
                        assert(snap.contains(j));
                        let k = choose|k: int| 0 <= k < snap.len() && snap[k] == j;
                        assert(candidates@[k] == j);
                    } else {
                        assert(candidates@[candidates@.len() - 1] == j);
                    }
                }
            } else {
                assert forall|j: usize|
                    j < i + 1 && key_index_safe(self.presie.restriced_positions@, j)
                        implies candidates@.contains(j) by {
                    assert(j < i);
                }
            }
        }
        candidates
    }

    /// Two distinct free key indices, drawn at random; `None` exactly
    /// when fewer than two keys are free.
    pub fn two_random_key_positions(&self, dna: &DNA) -> (r: Option<(usize, usize)>)
        ensures
            match r {
                Some(pair) => pair.0 < dna.sequence@.len() && pair.1 < dna.sequence@.len()
                    && pair.0 != pair.1 && key_index_safe(
                    self.presie.restriced_positions@,
                    pair.0,
                ) && key_index_safe(self.presie.restriced_positions@, pair.1),
                None => forall|i: usize, j: usize|
                    i < dna.sequence@.len() && j < dna.sequence@.len() && key_index_safe(
                        self.presie.restriced_positions@,
                        i,
                    ) && key_index_safe(self.presie.restriced_positions@, j) ==> i == j,
            },
    {
        let candidates = self.safe_key_positions(dna);
        if candidates.len() < 2 {
            proof {
                assert forall|i: usize, j: usize|
                    i < dna.sequence@.len() && j < dna.sequence@.len() && key_index_safe(
                        self.presie.restriced_positions@,
                        i,
                    ) && key_index_safe(self.presie.restriced_positions@, j) implies i == j by {
                    if i != j {
                        assert(candidates@.contains(i));
                        assert(candidates@.contains(j));
                        let a = choose|a: int|
                            0 <= a < candidates@.len() && candidates@[a] == i;
                        let b = choose|b: int|
                            0 <= b < candidates@.len() && candidates@[b] == j;
                        assert(a != b);
                    }
                }
            }
            return None;
        }
        let first = random_number(candidates.len());
        let second_draw = random_number(candidates.len() - 1);
        let second = if second_draw < first {
            second_draw
        } else {
            second_draw + 1
        };
        assert(candidates@[first as int] != candidates@[second as int]) by {
            if first < second {
                assert(candidates@[first as int] < candidates@[second as int]);
            } else {
                assert(candidates@[second as int] < candidates@[first as int]);
            }
        }
        Some((candidates[first], candidates[second]))
    }

    /// The free (index, layer) slots of the non-alphabetic keys, in
    /// increasing order.
    fn safe_symbol_positions(&self, dna: &DNA) -> (candidates: Vec<Position>)
        ensures
            forall|k: int|
                0 <= k < candidates@.len() ==> symbol_slot(
                    self.presie.restriced_positions@,
                    sequence_view(dna.sequence@),
                    #[trigger] candidates@[k],
                ),
            forall|a: int, b: int| 0 <= a < b < candidates@.len() ==> candidates@[a] != candidates@[b],
            forall|p: Position|
                symbol_slot(self.presie.restriced_positions@, sequence_view(dna.sequence@), p)
                    ==> candidates@.contains(p),
    {
        let ghost sv = sequence_view(dna.sequence@);
        let ghost pres = self.presie.restriced_positions@;
        let mut candidates: Vec<Position> = Vec::new();
        let n: usize = dna.len();
        for i in 0..n
            invariant
                n == dna.sequence@.len(),
                sv == sequence_view(dna.sequence@),
                pres == self.presie.restriced_positions@,
                forall|k: int|
                    0 <= k < candidates@.len() ==> symbol_slot(
                        pres,
                        sv,
                        #[trigger] candidates@[k],
                    ) && candidates@[k].0 < i,
                forall|a: int, b: int|
                    0 <= a < b < candidates@.len() ==> (candidates@[a].0 < candidates@[b].0) || (
                    candidates@[a].0 == candidates@[b].0 && candidates@[a].1 < candidates@[b].1),
                forall|p: Position| symbol_slot(pres, sv, p) && p.0 < i ==> candidates@.contains(
                    p,
                ),
        {
            let ghost snap = candidates@;
            let pair = &dna.sequence[i];
            assert(sv[i as int].0 == pair.0@);
            if non_alpha_token(&pair.0) {
                if self.presie.is_safe_position((i, 0)) {
                    candidates.push((i, 0));
                }
                let ghost snap1 = candidates@;
                if self.presie.is_safe_position((i, 1)) {
                    candidates.push((i, 1));
                }
                proof {
                    if snap1.len() > snap.len() {
                        assert(snap1[snap.len() as int] == (i, 0usize));
                    }
                    if candidates@.len() > snap1.len() {
                        assert(candidates@[snap1.len() as int] == (i, 1usize));
                    }
                }
            }
            assert forall|p: Position| symbol_slot(pres, sv, p) && p.0 < i + 1
                implies candidates@.contains(p) by {
                if p.0 < i {
                    assert(snap.contains(p));
                    let k = choose|k: int| 0 <= k < snap.len() && snap[k] == p;
                    assert(candidates@[k] == p);
                } else {
                    assert(p.0 == i && (p.1 == 0 || p.1 == 1));
                    if p.1 == 0 {
                        assert(candidates@[snap.len() as int] == p);
                    } else {
                        assert(candidates@[candidates@.len() - 1] == p);
                    }
                }
            }
        }
        candidates
    }

    /// Two free symbol slots on distinct keys, drawn at random, so the
    /// swap is always an exact cross-layer exchange; `None` exactly
    /// when all free slots sit on one key (or none exists).
    pub fn two_random_symbol_positions(&self, dna: &DNA) -> (r: Option<(Position, Position)>)
        ensures
            match r {
                Some(pair) => pair.0.0 != pair.1.0 && pair.0 != pair.1 && symbol_slot(
                    self.presie.restriced_positions@,
                    sequence_view(dna.sequence@),
                    pair.0,
                ) && symbol_slot(
                    self.presie.restriced_positions@,
                    sequence_view(dna.sequence@),
                    pair.1,
                ),
                None => forall|p1: Position, p2: Position|
                    symbol_slot(self.presie.restriced_positions@, sequence_view(dna.sequence@), p1)
                        && symbol_slot(
                        self.presie.restriced_positions@,
                        sequence_view(dna.sequence@),
                        p2,
                    ) ==> p1.0 == p2.0,
            },
    {
        let ghost pres = self.presie.restriced_positions@;
        let ghost sv = sequence_view(dna.sequence@);
        let candidates = self.safe_symbol_positions(dna);
        if candidates.len() == 0 {
            proof {
                assert forall|p1: Position, p2: Position|
                    symbol_slot(pres, sv, p1) && symbol_slot(pres, sv, p2) implies p1.0
                    == p2.0 by {
                    assert(candidates@.contains(p1));
                    let a = choose|a: int| 0 <= a < candidates@.len() && candidates@[a] == p1;
                }
            }
            return None;
        }
        let first = candidates[random_number(candidates.len())];
        let mut others: Vec<Position> = Vec::new();
        let n: usize = candidates.len();
        for k in 0..n
            invariant
                n == candidates@.len(),
                forall|m: int|
                    0 <= m < others@.len() ==> symbol_slot(pres, sv, #[trigger] others@[m])
                        && others@[m].0 != first.0,
                forall|m: int|
                    0 <= m < candidates@.len() ==> symbol_slot(
                        pres,
                        sv,
                        #[trigger] candidates@[m],
                    ),
                others@.len() == 0 ==> forall|m: int|
                    0 <= m < k ==> (#[trigger] candidates@[m]).0 == first.0,
        {
            if candidates[k].0 != first.0 {
                others.push(candidates[k]);
            }
        }
        if others.len() == 0 {
            proof {
                assert forall|p1: Position, p2: Position|
                    symbol_slot(pres, sv, p1) && symbol_slot(pres, sv, p2) implies p1.0
                    == p2.0 by {
                    assert(candidates@.contains(p1));
                    assert(candidates@.contains(p2));
                    let a = choose|a: int| 0 <= a < candidates@.len() && candidates@[a] == p1;
                    let b = choose|b: int| 0 <= b < candidates@.len() && candidates@[b] == p2;
                    assert(candidates@[a].0 == first.0);
                    assert(candidates@[b].0 == first.0);
                }
            }
            return None;
        }
        let second = others[random_number(others.len())];
        Some((first, second))
    }

    /// Swaps two random free keys wholesale.  `None` exactly when
    /// fewer than two keys are free; otherwise the result is the swap
    /// of two distinct free indices, so every locked position keeps
    /// its symbol and no pair loses a symbol.
    pub fn swap_random_keys(&self, original: &DNA) -> (r: Option<DNA>)
        requires
            forall|q: Position|
                spec_restricted(self.presie.restriced_positions@, q) ==> q.1 <= 1,
        ensures
            match r {
                Some(dna) => {
                    let old = sequence_view(original.sequence@);
                    let new = sequence_view(dna.sequence@);
                    (exists|i: usize, j: usize|
                        i < old.len() && j < old.len() && i != j && key_index_safe(
                            self.presie.restriced_positions@,
                            i,
                        ) && key_index_safe(self.presie.restriced_positions@, j) && new
                            == spec_swap_keys(old, i, j) && (old[i as int] != old[j as int]
                            ==> new != old)) && keeps_preserved(
                        self.presie.restriced_positions@,
                        old,
                        new,
                    ) && (all_pairs_nonempty(old) ==> all_pairs_nonempty(new))
                },
                None => forall|i: usize, j: usize|
                    i < original.sequence@.len() && j < original.sequence@.len()
                        && key_index_safe(self.presie.restriced_positions@, i) && key_index_safe(
                        self.presie.restriced_positions@,
                        j,
                    ) ==> i == j,
            },
    {
        match self.two_random_key_positions(original) {
            Some((first_pos, second_pos)) => {
                let dna = original.swap_keys(first_pos, second_pos);
                proof {
                    let old = sequence_view(original.sequence@);
                    let new = sequence_view(dna.sequence@);
                    lemma_swap_keys_preserves(
                        self.presie.restriced_positions@,
                        old,
                        first_pos,
                        second_pos,
                    );
                    if old[first_pos as int] != old[second_pos as int] {
                        lemma_swap_keys_changes(old, first_pos, second_pos);
                    }
                    if all_pairs_nonempty(old) {
                        lemma_swap_keys_nonempty(old, first_pos, second_pos);
                    }
                    if crate::dna::wf_sequence(old) {
                        crate::dna::lemma_swap_keys_wf(old, first_pos, second_pos);
                    }
                }
                Some(dna)
            },
            None => None,
        }
    }

    /// Swaps two random free non-alphabetic symbols, possibly across
    /// layers but always across two distinct keys, so the exchange is
    /// exact.  `None` exactly when all free symbol slots sit on one
    /// key; otherwise the result is the swap of two free slots of
    /// distinct keys, every locked position keeps its symbol and no
    /// pair loses a symbol.
    pub fn swap_random_symbols(&self, original: &DNA) -> (r: Option<DNA>)
        requires
            forall|q: Position|
                spec_restricted(self.presie.restriced_positions@, q) ==> q.1 <= 1,
        ensures
            match r {
                Some(dna) => {
                    let old = sequence_view(original.sequence@);
                    let new = sequence_view(dna.sequence@);
                    (exists|p1: Position, p2: Position|
                        p1.0 != p2.0 && p1 != p2 && symbol_slot(
                            self.presie.restriced_positions@,
                            old,
                            p1,
                        ) && symbol_slot(self.presie.restriced_positions@, old, p2) && new
                            == spec_swap_symbols(old, p1, p2) && (symbol_at(old, p1)
                            != symbol_at(old, p2) ==> new != old)) && keeps_preserved(
                        self.presie.restriced_positions@,
                        old,
                        new,
                    ) && (all_pairs_nonempty(old) ==> all_pairs_nonempty(new)) && (
                    crate::dna::wf_sequence(old) ==> crate::dna::wf_sequence(new))
                },
                None => forall|p1: Position, p2: Position|
                    symbol_slot(
                        self.presie.restriced_positions@,
                        sequence_view(original.sequence@),
                        p1,
                    ) && symbol_slot(
                        self.presie.restriced_positions@,
                        sequence_view(original.sequence@),
                        p2,
                    ) ==> p1.0 == p2.0,
            },
    {
        match self.two_random_symbol_positions(original) {
            Some((first_pos, second_pos)) => {
                let dna = original.swap_symbols(first_pos, second_pos);
                proof {
                    let old = sequence_view(original.sequence@);
                    let new = sequence_view(dna.sequence@);
                    lemma_swap_symbols_preserves(
                        self.presie.restriced_positions@,
                        old,
                        first_pos,
                        second_pos,
                    );
                    if symbol_at(old, first_pos) != symbol_at(old, second_pos) {
                        lemma_swap_symbols_changes(old, first_pos, second_pos);
                    }
                    if all_pairs_nonempty(old) {
                        lemma_swap_symbols_nonempty(old, first_pos, second_pos);
                    }
                    if crate::dna::wf_sequence(old) {
                        crate::dna::lemma_swap_symbols_wf(old, first_pos, second_pos);
                    }
                }
                Some(dna)
            },
            None => None,
        }
    }

    /// Mutates a layout by swapping two random free keys wholesale.
    /// `None` exactly when fewer than two keys are fully free; with
    /// two or more, a mutated layout is always returned: its entries
    /// are the swap of two distinct free keys, every locked position
    /// keeps its symbol, and the layout changes whenever the two drawn
    /// keys hold different pairs.
    pub fn mutate_keys(&self, layout: &Layout) -> (r: Option<Layout>)
        requires
            forall|q: Position|
                spec_restricted(self.presie.restriced_positions@, q) ==> q.1 <= 1,
            crate::layout::spec_entries(layout.template@).len() == 47,
        ensures
            ({
                let pres = self.presie.restriced_positions@;
                let old = crate::layout::spec_entries(layout.template@).map_values(
                    |e: (Position, (Seq<char>, Seq<char>))| e.1,
                );
                match r {
                    Some(mutated) => {
                        let new = crate::layout::spec_entries(mutated.template@).map_values(
                            |e: (Position, (Seq<char>, Seq<char>))| e.1,
                        );
                        &&& crate::layout::spec_entries(mutated.template@).len() == 47
                        &&& keeps_preserved(pres, old, new)
                        &&& (exists|i: usize, j: usize|
                            #![trigger key_index_safe(pres, i), key_index_safe(pres, j)]
                            i < 47 && j < 47 && i != j && key_index_safe(pres, i)
                                && key_index_safe(pres, j) && new == spec_swap_keys(old, i, j)
                                && mutated.template@ == spec_template(spec_swap_keys(old, i, j))
                                && (old[i as int] != old[j as int] ==> mutated.template@
                                != layout.template@))
                    },
                    None => forall|i: usize, j: usize|
                        i < 47 && j < 47 && key_index_safe(pres, i) && key_index_safe(pres, j)
                            ==> i == j,
                }
            }),
    {
        let dna = DNA::from(layout);
        let ghost pres = self.presie.restriced_positions@;
        let ghost old = crate::layout::spec_entries(layout.template@).map_values(
            |e: (Position, (Seq<char>, Seq<char>))| e.1,
        );
        proof {
            assert(sequence_view(dna.sequence@) == old);
            assert(dna.sequence@.len() == 47) by {
                assert(sequence_view(dna.sequence@).len() == dna.sequence@.len());
            }
        }
        match self.swap_random_keys(&dna) {
            Some(new_dna) => {
                assert(new_dna.sequence@.len() == 47) by {
                    assert(sequence_view(new_dna.sequence@).len() == sequence_view(
                        dna.sequence@,
                    ).len());
                }
                let mutated = new_dna.to_layout();
                proof {
                    let newv = sequence_view(new_dna.sequence@);
                    crate::dna::lemma_entries_wf(layout.template@);
                    crate::dna::lemma_template_round_trip(newv);
                    let new = crate::layout::spec_entries(mutated.template@).map_values(
                        |e: (Position, (Seq<char>, Seq<char>))| e.1,
                    );
                    assert(new == newv);
                    let (i, j) = choose|i: usize, j: usize|
                        i < old.len() && j < old.len() && i != j && key_index_safe(pres, i)
                            && key_index_safe(pres, j) && newv == spec_swap_keys(old, i, j) && (
                        old[i as int] != old[j as int] ==> newv != old);
                    if old[i as int] != old[j as int] {
                        assert(newv != old);
                        if mutated.template@ == layout.template@ {
                            assert(new == old);
                        }
                        assert(mutated.template@ != layout.template@);
                    }
                    assert(i < 47 && j < 47 && i != j && key_index_safe(pres, i)
                        && key_index_safe(pres, j) && new == spec_swap_keys(old, i, j)
                        && mutated.template@ == spec_template(spec_swap_keys(old, i, j)) && (
                    old[i as int] != old[j as int] ==> mutated.template@ != layout.template@));
                }
                Some(mutated)
            },
            None => None,
        }
    }

    /// Mutates a layout by swapping two random free non-alphabetic
    /// symbols, possibly across layers but always across two distinct
    /// keys.  `None` exactly when all free symbol slots sit on one
    /// key; otherwise a mutated layout is always returned: its
    /// entries are the exact swap of two free slots of distinct keys,
    /// every locked position keeps its symbol, and the layout changes
    /// whenever the two drawn slots hold different symbols.
    pub fn mutate_symbols(&self, layout: &Layout) -> (r: Option<Layout>)
        requires
            forall|q: Position|
                spec_restricted(self.presie.restriced_positions@, q) ==> q.1 <= 1,
            crate::layout::spec_entries(layout.template@).len() == 47,
        ensures
            ({
                let pres = self.presie.restriced_positions@;
                let old = crate::layout::spec_entries(layout.template@).map_values(
                    |e: (Position, (Seq<char>, Seq<char>))| e.1,
                );
                match r {
                    Some(mutated) => {
                        let new = crate::layout::spec_entries(mutated.template@).map_values(
                            |e: (Position, (Seq<char>, Seq<char>))| e.1,
                        );
                        &&& crate::layout::spec_entries(mutated.template@).len() == 47
                        &&& keeps_preserved(pres, old, new)
                        &&& (exists|p1: Position, p2: Position|
                            #![trigger spec_restricted(pres, p1), spec_restricted(pres, p2)]
                            p1.0 != p2.0 && p1 != p2 && symbol_slot(pres, old, p1) && symbol_slot(
                                pres,
                                old,
                                p2,
                            ) && new == spec_swap_symbols(old, p1, p2) && mutated.template@
                                == spec_template(spec_swap_symbols(old, p1, p2)) && (symbol_at(
                                old,
                                p1,
                            ) != symbol_at(old, p2) ==> mutated.template@ != layout.template@))
                    },
                    None => forall|p1: Position, p2: Position|
                        symbol_slot(pres, old, p1) && symbol_slot(pres, old, p2) ==> p1.0
                            == p2.0,
                }
            }),
    {
        let dna = DNA::from(layout);
        let ghost pres = self.presie.restriced_positions@;
        let ghost old = crate::layout::spec_entries(layout.template@).map_values(
            |e: (Position, (Seq<char>, Seq<char>))| e.1,
        );
        proof {
            assert(sequence_view(dna.sequence@) == old);
            assert(dna.sequence@.len() == 47) by {
                assert(sequence_view(dna.sequence@).len() == dna.sequence@.len());
            }
        }
        match self.swap_random_symbols(&dna) {
            Some(new_dna) => {
                assert(new_dna.sequence@.len() == 47) by {
                    assert(sequence_view(new_dna.sequence@).len() == sequence_view(
                        dna.sequence@,
                    ).len());
                }
                let mutated = new_dna.to_layout();
                proof {
                    let newv = sequence_view(new_dna.sequence@);
                    crate::dna::lemma_entries_wf(layout.template@);
                    crate::dna::lemma_template_round_trip(newv);
                    let new = crate::layout::spec_entries(mutated.template@).map_values(
                        |e: (Position, (Seq<char>, Seq<char>))| e.1,
                    );
                    assert(new == newv);
                    let (p1, p2) = choose|p1: Position, p2: Position|
                        p1.0 != p2.0 && p1 != p2 && symbol_slot(pres, old, p1) && symbol_slot(
                            pres,
                            old,
                            p2,
                        ) && newv == spec_swap_symbols(old, p1, p2) && (symbol_at(old, p1)
                            != symbol_at(old, p2) ==> newv != old);
                    if symbol_at(old, p1) != symbol_at(old, p2) {
                        assert(newv != old);
                        if mutated.template@ == layout.template@ {
                            assert(new == old);
                        }
                        assert(mutated.template@ != layout.template@);
                    }
                    assert(p1.0 != p2.0 && p1 != p2 && symbol_slot(pres, old, p1) && symbol_slot(
                        pres,
                        old,
                        p2,
                    ) && new == spec_swap_symbols(old, p1, p2) && mutated.template@
                        == spec_template(spec_swap_symbols(old, p1, p2)) && (symbol_at(old, p1)
                        != symbol_at(old, p2) ==> mutated.template@ != layout.template@));
                }
                Some(mutated)
            },
            None => None,
        }
    }
}

} // verus!
