//! The set of user-locked (index, layer) positions, read off a preserve
//! template: any slot whose glyph is a plain ASCII symbol is locked,
//! placeholder glyphs leave the slot free.
use vstd::prelude::*;
use crate::chars::{spec_is_letter, spec_is_digit, spec_is_punct, is_letter_char, is_digit_char,
    is_punct_char, to_char_vec};
use crate::layout::{Layout, Entry, entry_view, spec_entries};
use crate::parser::Position;

verus! {

/// A glyph marks its slot as preserved when every character of it is
/// ASCII punctuation, a letter or a digit (the placeholder is none of
/// those).
pub open spec fn spec_is_marker(sym: Seq<char>) -> bool {
    forall|k: int|
        0 <= k < sym.len() ==> spec_is_letter(sym[k]) || spec_is_digit(sym[k]) || spec_is_punct(
            sym[k],
        )
}

/// Whether the entries of a preserve template lock position `p`:
/// layer 0 goes by the shifted glyph, layer 1 by the normal one.
pub open spec fn spec_preserved_at(
    ent: Seq<(Position, (Seq<char>, Seq<char>))>,
    p: Position,
) -> bool {
    p.0 < ent.len() && ((p.1 == 0 && spec_is_marker(ent[p.0 as int].1.0)) || (p.1 == 1
        && spec_is_marker(ent[p.0 as int].1.1)))
}

/// The glyph a preserve template shows at a locked position.
pub open spec fn spec_symbol_of(
    ent: Seq<(Position, (Seq<char>, Seq<char>))>,
    p: Position,
) -> Seq<char> {
    if p.1 == 0 {
        ent[p.0 as int].1.0
    } else {
        ent[p.0 as int].1.1
    }
}

/// Membership of a position in the stored list.
pub open spec fn spec_restricted(s: Seq<(Position, String)>, p: Position) -> bool {
    exists|j: int| 0 <= j < s.len() && s[j].0 == p
}

/// Whether no position is stored twice.
pub open spec fn pres_unique(s: Seq<(Position, String)>) -> bool {
    forall|a: int, b: int| 0 <= a < b < s.len() ==> (#[trigger] s[a]).0 != (#[trigger] s[b]).0
}

/// The locked positions of a preserve template, each with the glyph
/// that locks it.
pub struct Preservative {
    pub restriced_positions: Vec<(Position, String)>,
}

/// Whether every character of the token is ASCII punctuation, a letter
/// or a digit.
fn is_marker_token(token: &String) -> (r: bool)
    ensures
        r == spec_is_marker(token@),
{
    let chars = to_char_vec(token.as_str());
    let n: usize = chars.len();
    for k in 0..n
        invariant
            n == chars@.len(),
            chars@ == token@,
            forall|j: int|
                0 <= j < k ==> spec_is_letter(token@[j]) || spec_is_digit(token@[j])
                    || spec_is_punct(token@[j]),
    {
        let c = chars[k];
        if !(is_letter_char(c) || is_digit_char(c) || is_punct_char(c)) {
            return false;
        }
    }
    true
}

impl Preservative {
    /// Parses a preserve template: position (i, 0) is locked when the
    /// i-th entry's shifted glyph is a marker, (i, 1) when its normal
    /// glyph is.
    pub fn from(template: String) -> (presie: Preservative)
        ensures
            forall|p: Position|
                spec_restricted(presie.restriced_positions@, p) == spec_preserved_at(
                    spec_entries(template@),
                    p,
                ),
            forall|j: int|
                0 <= j < presie.restriced_positions@.len()
                    ==> presie.restriced_positions@[j].1@ == spec_symbol_of(
                    spec_entries(template@),
                    presie.restriced_positions@[j].0,
                ) && spec_preserved_at(
                    spec_entries(template@),
                    presie.restriced_positions@[j].0,
                ),
            pres_unique(presie.restriced_positions@),
    {
        let ghost ent = spec_entries(template@);
        let tmp_layout = Layout { template };
        let entries = tmp_layout.entries();
        let mut restriced_positions: Vec<(Position, String)> = Vec::new();
        let n: usize = entries.len();
        for i in 0..n
            invariant
                n == entries@.len(),
                entries@.map_values(|e: Entry| entry_view(e)) == ent,
                forall|j: int|
                    0 <= j < restriced_positions@.len() ==> (#[trigger] restriced_positions@[j]).0.0
                        < i && spec_preserved_at(ent, restriced_positions@[j].0)
                        && restriced_positions@[j].1@ == spec_symbol_of(
                        ent,
                        restriced_positions@[j].0,
                    ),
                forall|p: Position|
                    p.0 < i && spec_preserved_at(ent, p) ==> spec_restricted(
                        restriced_positions@,
                        p,
                    ),
                forall|a: int, b: int|
                    0 <= a < b < restriced_positions@.len() ==> (
                    (#[trigger] restriced_positions@[a]).0.0
                        < (#[trigger] restriced_positions@[b]).0.0) || (
                    restriced_positions@[a].0.0 == restriced_positions@[b].0.0
                        && restriced_positions@[a].0.1 < restriced_positions@[b].0.1),
        {
            assert(entry_view(entries@[i as int]) == ent[i as int]);
            let ghost snap0 = restriced_positions@;
            if is_marker_token(&entries[i].shifted) {
                let sym = entries[i].shifted.clone();
                restriced_positions.push(((i, 0), sym));
                assert(spec_restricted(restriced_positions@, (i, 0))) by {
                    assert(restriced_positions@[snap0.len() as int].0 == (i, 0usize));
                }
                assert forall|p: Position|
                    spec_restricted(snap0, p) implies spec_restricted(
                    restriced_positions@,
                    p,
                ) by {
                    let j = choose|j: int| 0 <= j < snap0.len() && snap0[j].0 == p;
                    assert(restriced_positions@[j].0 == p);
                }
            }
            let ghost snap1 = restriced_positions@;
            if is_marker_token(&entries[i].normal) {
                let sym = entries[i].normal.clone();
                restriced_positions.push(((i, 1), sym));
                assert(spec_restricted(restriced_positions@, (i, 1))) by {
                    assert(restriced_positions@[snap1.len() as int].0 == (i, 1usize));
                }
                assert forall|p: Position|
                    spec_restricted(snap1, p) implies spec_restricted(
                    restriced_positions@,
                    p,
                ) by {
                    let j = choose|j: int| 0 <= j < snap1.len() && snap1[j].0 == p;
                    assert(restriced_positions@[j].0 == p);
                }
            }
            assert forall|p: Position| p.0 < i + 1 && spec_preserved_at(ent, p) implies
                spec_restricted(restriced_positions@, p) by {
                if p.0 == i {
                    assert(p.1 == 0 || p.1 == 1);
                }
            }
            assert(restriced_positions@.take(snap0.len() as int) =~= snap0);
            assert forall|j: int|
                0 <= j < restriced_positions@.len() implies (#[trigger] restriced_positions@[j]).0.0
                < i + 1 && spec_preserved_at(ent, restriced_positions@[j].0)
                && restriced_positions@[j].1@ == spec_symbol_of(
                ent,
                restriced_positions@[j].0,
            ) by {
                if j < snap0.len() {
                    assert(restriced_positions@.take(snap0.len() as int)[j] == snap0[j]);
                    assert(restriced_positions@[j] == snap0[j]);
                } else if j < snap1.len() {
                    assert(restriced_positions@[j] == snap1[j]);
                    assert(snap1[j].0 == (i, 0usize));
                } else {
                    assert(restriced_positions@[j].0 == (i, 1usize));
                }
            }
        }
        proof {
            assert forall|p: Position|
                spec_restricted(restriced_positions@, p) == spec_preserved_at(ent, p) by {
                if spec_restricted(restriced_positions@, p) {
                    let j = choose|j: int|
                        0 <= j < restriced_positions@.len() && restriced_positions@[j].0 == p;
                    assert(restriced_positions@[j].0 == p);
                }
                if spec_preserved_at(ent, p) {
                    assert(p.0 < n);
                }
            }
        }
        Preservative { restriced_positions }
    }

    /// Whether the position is free to mutate: true exactly when no
    /// preserve glyph locks it.
    pub fn is_safe_position(&self, position: Position) -> (r: bool)
        ensures
            r == !spec_restricted(self.restriced_positions@, position),
    {
        let n: usize = self.restriced_positions.len();
        for j in 0..n
            invariant
                n == self.restriced_positions@.len(),
                forall|k: int| 0 <= k < j ==> self.restriced_positions@[k].0 != position,
        {
            let p = self.restriced_positions[j].0;
            if p.0 == position.0 && p.1 == position.1 {
                assert(spec_restricted(self.restriced_positions@, position));
                return false;
            }
        }
        true
    }

    /// The glyph that locks `position`, or `None` when the position is
    /// free.
    pub fn symbol_at(&self, position: Position) -> (r: Option<String>)
        ensures
            match r {
                Some(sym) => spec_restricted(self.restriced_positions@, position) && exists|j: int|
                    0 <= j < self.restriced_positions@.len()
                        && self.restriced_positions@[j].0 == position
                        && self.restriced_positions@[j].1@ == sym@,
                None => !spec_restricted(self.restriced_positions@, position),
            },
    {
        let n: usize = self.restriced_positions.len();
        for j in 0..n
            invariant
                n == self.restriced_positions@.len(),
                forall|k: int| 0 <= k < j ==> self.restriced_positions@[k].0 != position,
        {
            let p = self.restriced_positions[j].0;
            if p.0 == position.0 && p.1 == position.1 {
                let sym = self.restriced_positions[j].1.clone();
                assert(self.restriced_positions@[j as int].0 == position);
                return Some(sym);
            }
        }
        None
    }
}

} // verus!
