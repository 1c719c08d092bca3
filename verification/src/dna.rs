//! The sequence form of a layout: 47 (shifted, normal) symbol pairs,
//! the representation that mutation operators work on.
use vstd::prelude::*;
use vstd::string::StringExecFns;
use crate::chars::{push_char, is_ws};
use crate::layout::{Layout, Entry, entry_view, spec_entries};
use crate::parser::{Position, spec_tokens, spec_lines, spec_trim};

verus! {

/// One key's symbols: (shifted, normal).
pub type Pair = (String, String);

pub type Sequence = Vec<Pair>;

/// A layout reduced to its symbol pairs, in position order.
#[derive(Debug, PartialEq, Eq)]
pub struct DNA {
    pub sequence: Sequence,
}

/// The spec-level reading of a symbol pair.
pub open spec fn pair_view(p: Pair) -> (Seq<char>, Seq<char>) {
    (p.0@, p.1@)
}

/// The spec-level reading of a whole sequence.
pub open spec fn sequence_view(s: Seq<Pair>) -> Seq<(Seq<char>, Seq<char>)> {
    s.map_values(|p: Pair| (p.0@, p.1@))
}

/// The symbol at (index, layer): layer 0 is shifted, any other layer is
/// normal.
pub open spec fn symbol_at(s: Seq<(Seq<char>, Seq<char>)>, p: Position) -> Seq<char> {
    if p.1 == 0 {
        s[p.0 as int].0
    } else {
        s[p.0 as int].1
    }
}

/// The sequence after the symbols at `p1` and `p2` trade places.  For
/// slots on two distinct keys each position keeps exactly one shifted
/// and one normal symbol; when both slots name one key, the second
/// update wins, which is why the mutation operators only ever draw
/// slots of distinct keys.
pub open spec fn spec_swap_symbols(
    s: Seq<(Seq<char>, Seq<char>)>,
    p1: Position,
    p2: Position,
) -> Seq<(Seq<char>, Seq<char>)> {
    let e1 = s[p1.0 as int];
    let e2 = s[p2.0 as int];
    let n1 = if p1.1 == 0 {
        if p2.1 == 0 {
            (e2.0, e1.1)
        } else {
            (e2.1, e1.1)
        }
    } else {
        if p2.1 == 0 {
            (e1.0, e2.0)
        } else {
            (e1.0, e2.1)
        }
    };
    let n2 = if p2.1 == 0 {
        if p1.1 == 0 {
            (e1.0, e2.1)
        } else {
            (e1.1, e2.1)
        }
    } else {
        if p1.1 == 0 {
            (e2.0, e1.0)
        } else {
            (e2.0, e1.1)
        }
    };
    s.update(p1.0 as int, n1).update(p2.0 as int, n2)
}

/// The sequence after the whole pairs at `i1` and `i2` trade places.
pub open spec fn spec_swap_keys(
    s: Seq<(Seq<char>, Seq<char>)>,
    i1: usize,
    i2: usize,
) -> Seq<(Seq<char>, Seq<char>)> {
    s.update(i1 as int, s[i2 as int]).update(i2 as int, s[i1 as int])
}

// ---------------------------------------------------------------------
// The canonical template of a 47-key sequence
// ---------------------------------------------------------------------

/// `count` blanks.
pub open spec fn spec_blanks(count: int) -> Seq<char> {
    Seq::new(count as nat, |i: int| ' ')
}

/// One layer's symbol of pair `i`: true picks the shifted layer.
pub open spec fn layer_of(p: (Seq<char>, Seq<char>), shifted: bool) -> Seq<char> {
    if shifted {
        p.0
    } else {
        p.1
    }
}

/// " sym" for every pair in `from .. to`.
pub open spec fn spec_line_rest(
    s: Seq<(Seq<char>, Seq<char>)>,
    from: int,
    to: int,
    shifted: bool,
) -> Seq<char>
    decreases to - from,
{
    if from >= to {
        Seq::empty()
    } else {
        seq![' '] + layer_of(s[from], shifted) + spec_line_rest(s, from + 1, to, shifted)
    }
}

/// One template line: `indent` blanks, then the symbols of pairs
/// `from .. to` separated by single blanks.
pub open spec fn spec_line(
    s: Seq<(Seq<char>, Seq<char>)>,
    from: int,
    to: int,
    indent: int,
    shifted: bool,
) -> Seq<char> {
    spec_blanks(indent) + layer_of(s[from], shifted) + spec_line_rest(s, from + 1, to, shifted)
}

/// The canonical template of a 47-pair sequence: four row pairs of 13,
/// 13, 11 and 10 keys, the shifted line above the normal line, rows
/// indented by 0, 2, 2 and 4 blanks.
pub open spec fn spec_template(s: Seq<(Seq<char>, Seq<char>)>) -> Seq<char> {
    spec_line(s, 0, 13, 0, true) + seq!['\n'] + spec_line(s, 0, 13, 0, false) + seq!['\n']
        + spec_line(s, 13, 26, 2, true) + seq!['\n'] + spec_line(s, 13, 26, 2, false) + seq!['\n']
        + spec_line(s, 26, 37, 2, true) + seq!['\n'] + spec_line(s, 26, 37, 2, false) + seq!['\n']
        + spec_line(s, 37, 47, 4, true) + seq!['\n'] + spec_line(s, 37, 47, 4, false)
}

// ---------------------------------------------------------------------
// The canonical template parses back to the sequence it was written
// from
// ---------------------------------------------------------------------

/// A sequence whose every symbol is non-empty and free of whitespace.
pub open spec fn wf_sequence(s: Seq<(Seq<char>, Seq<char>)>) -> bool {
    forall|k: int|
        0 <= k < s.len() ==> crate::parser::wf_symbol((#[trigger] s[k]).0)
            && crate::parser::wf_symbol(s[k].1)
}

/// Every character of a rendered line tail is a blank or a symbol
/// character, never a newline; and its last character ends a symbol.
proof fn lemma_line_rest_shape(s: Seq<(Seq<char>, Seq<char>)>, from: int, to: int, shifted: bool)
    requires
        0 <= from,
        to <= s.len(),
        wf_sequence(s),
    ensures
        forall|k: int|
            0 <= k < spec_line_rest(s, from, to, shifted).len() ==> spec_line_rest(
                s,
                from,
                to,
                shifted,
            )[k] != '\n',
        from < to ==> spec_line_rest(s, from, to, shifted).len() > 0 && !is_ws(
            spec_line_rest(s, from, to, shifted).last(),
        ),
        from < to ==> is_ws(spec_line_rest(s, from, to, shifted)[0]),
    decreases to - from,
{
    if from < to {
        lemma_line_rest_shape(s, from + 1, to, shifted);
        let tok = layer_of(s[from], shifted);
        assert(crate::parser::wf_symbol(tok));
        let piece = seq![' '] + tok;
        let whole = spec_line_rest(s, from, to, shifted);
        assert(whole =~= piece + spec_line_rest(s, from + 1, to, shifted));
        assert forall|k: int| 0 <= k < whole.len() implies whole[k] != '\n' by {
            if k < piece.len() {
                if k == 0 {
                    assert(whole[k] == ' ');
                } else {
                    assert(whole[k] == tok[k - 1]);
                    assert(!is_ws(tok[k - 1]));
                }
            } else {
                assert(whole[k] == spec_line_rest(s, from + 1, to, shifted)[k - piece.len()]);
            }
        }
        if from + 1 < to {
            assert(whole.last() == spec_line_rest(s, from + 1, to, shifted).last());
        } else {
            assert(spec_line_rest(s, from + 1, to, shifted) =~= Seq::<char>::empty());
            assert(whole =~= piece);
            assert(whole.last() == tok.last());
        }
    }
}

/// The same, for a whole rendered line: no newline inside, a symbol
/// character at the end, and for an unindented line a symbol character
/// at the start.
proof fn lemma_line_shape(
    s: Seq<(Seq<char>, Seq<char>)>,
    from: int,
    to: int,
    indent: int,
    shifted: bool,
)
    requires
        0 <= from < to,
        to <= s.len(),
        0 <= indent,
        wf_sequence(s),
    ensures
        forall|k: int|
            0 <= k < spec_line(s, from, to, indent, shifted).len() ==> spec_line(
                s,
                from,
                to,
                indent,
                shifted,
            )[k] != '\n',
        spec_line(s, from, to, indent, shifted).len() > 0,
        !is_ws(spec_line(s, from, to, indent, shifted).last()),
        indent == 0 ==> !is_ws(spec_line(s, from, to, indent, shifted)[0]),
{
    lemma_line_rest_shape(s, from + 1, to, shifted);
    let tok = layer_of(s[from], shifted);
    assert(crate::parser::wf_symbol(tok));
    let head = spec_blanks(indent) + tok;
    let line = spec_line(s, from, to, indent, shifted);
    let rest = spec_line_rest(s, from + 1, to, shifted);
    assert(line =~= head + rest);
    assert forall|k: int| 0 <= k < line.len() implies line[k] != '\n' by {
        if k < indent {
            assert(line[k] == ' ');
        } else if k < head.len() {
            assert(line[k] == tok[k - indent]);
            assert(!is_ws(tok[k - indent]));
        } else {
            assert(line[k] == rest[k - head.len()]);
        }
    }
    if from + 1 < to {
        assert(line.last() == rest.last());
    } else {
        assert(rest =~= Seq::<char>::empty());
        assert(line =~= head);
        assert(line.last() == tok.last());
    }
    if indent == 0 {
        assert(line[0] == tok[0]);
    }
}

/// Tokenising blanks followed by anything tokenises the tail.
proof fn lemma_tokens_blanks(k: int, z: Seq<char>)
    requires
        0 <= k,
    ensures
        spec_tokens(spec_blanks(k) + z) == spec_tokens(z),
    decreases k,
{
    if k == 0 {
        assert(spec_blanks(0) + z =~= z);
    } else {
        let s = spec_blanks(k) + z;
        assert(s[0] == ' ');
        assert(s.drop_first() =~= spec_blanks(k - 1) + z);
        lemma_tokens_blanks(k - 1, z);
    }
}

/// The tokens of a rendered line tail are exactly the symbols it was
/// rendered from.
proof fn lemma_line_rest_tokens(s: Seq<(Seq<char>, Seq<char>)>, from: int, to: int, shifted: bool)
    requires
        0 <= from,
        to <= s.len(),
        wf_sequence(s),
    ensures
        spec_tokens(spec_line_rest(s, from, to, shifted)) == Seq::new(
            if from <= to {
                (to - from) as nat
            } else {
                0nat
            },
            |i: int| layer_of(s[from + i], shifted),
        ),
    decreases to - from,
{
    if from >= to {
        assert(spec_line_rest(s, from, to, shifted) =~= Seq::<char>::empty());
        assert(spec_tokens(Seq::<char>::empty()) =~= Seq::<Seq<char>>::empty());
        assert(Seq::new(0nat, |i: int| layer_of(s[from + i], shifted))
            =~= Seq::<Seq<char>>::empty());
    } else {
        lemma_line_rest_tokens(s, from + 1, to, shifted);
        lemma_line_rest_shape(s, from + 1, to, shifted);
        let tok = layer_of(s[from], shifted);
        assert(crate::parser::wf_symbol(tok));
        let rest = spec_line_rest(s, from + 1, to, shifted);
        let whole = spec_line_rest(s, from, to, shifted);
        assert(whole =~= seq![' '] + (tok + rest));
        assert(whole[0] == ' ');
        assert(whole.drop_first() =~= tok + rest);
        crate::parser::lemma_tokens_token(tok, rest);
        assert(spec_tokens(whole) == seq![tok] + spec_tokens(rest));
        assert(seq![tok] + Seq::new((to - from - 1) as nat, |i: int| layer_of(s[from + 1 + i], shifted))
            =~= Seq::new((to - from) as nat, |i: int| layer_of(s[from + i], shifted)));
    }
}

/// The tokens of a rendered line are exactly the symbols it was
/// rendered from.
proof fn lemma_line_tokens(
    s: Seq<(Seq<char>, Seq<char>)>,
    from: int,
    to: int,
    indent: int,
    shifted: bool,
)
    requires
        0 <= from < to,
        to <= s.len(),
        0 <= indent,
        wf_sequence(s),
    ensures
        spec_tokens(spec_line(s, from, to, indent, shifted)) == Seq::new(
            (to - from) as nat,
            |i: int| layer_of(s[from + i], shifted),
        ),
{
    let tok = layer_of(s[from], shifted);
    assert(crate::parser::wf_symbol(tok));
    let rest = spec_line_rest(s, from + 1, to, shifted);
    let line = spec_line(s, from, to, indent, shifted);
    lemma_line_rest_shape(s, from + 1, to, shifted);
    assert(line =~= spec_blanks(indent) + (tok + rest));
    lemma_tokens_blanks(indent, tok + rest);
    crate::parser::lemma_tokens_token(tok, rest);
    lemma_line_rest_tokens(s, from + 1, to, shifted);
    assert(spec_tokens(line) == seq![tok] + Seq::new(
        (to - from - 1) as nat,
        |i: int| layer_of(s[from + 1 + i], shifted),
    ));
    assert(seq![tok] + Seq::new((to - from - 1) as nat, |i: int| layer_of(s[from + 1 + i], shifted))
        =~= Seq::new((to - from) as nat, |i: int| layer_of(s[from + i], shifted)));
}

/// The canonical template of a well-formed 47-pair sequence parses
/// back to exactly that sequence: writing a layout down and reading it
/// again loses nothing.
#[verifier::rlimit(100)]
pub proof fn lemma_template_round_trip(s: Seq<(Seq<char>, Seq<char>)>)
    requires
        s.len() == 47,
        wf_sequence(s),
    ensures
        crate::layout::spec_entries(spec_template(s)).len() == 47,
        crate::layout::spec_entries(spec_template(s)).map_values(
            |e: (Position, (Seq<char>, Seq<char>))| e.1,
        ) == s,
{
    let l0s = spec_line(s, 0, 13, 0, true);
    let l0n = spec_line(s, 0, 13, 0, false);
    let l1s = spec_line(s, 13, 26, 2, true);
    let l1n = spec_line(s, 13, 26, 2, false);
    let l2s = spec_line(s, 26, 37, 2, true);
    let l2n = spec_line(s, 26, 37, 2, false);
    let l3s = spec_line(s, 37, 47, 4, true);
    let l3n = spec_line(s, 37, 47, 4, false);
    let t = spec_template(s);
    let nl = seq!['\n'];

    lemma_line_shape(s, 0, 13, 0, true);
    lemma_line_shape(s, 0, 13, 0, false);
    lemma_line_shape(s, 13, 26, 2, true);
    lemma_line_shape(s, 13, 26, 2, false);
    lemma_line_shape(s, 26, 37, 2, true);
    lemma_line_shape(s, 26, 37, 2, false);
    lemma_line_shape(s, 37, 47, 4, true);
    lemma_line_shape(s, 37, 47, 4, false);

    // The template trims to itself: it starts and ends on symbol
    // characters.
    assert(t.len() > 0);
    assert(t[0] == l0s[0]);
    assert(t[t.len() - 1] == l3n[l3n.len() - 1]) by {
        assert(t =~= (spec_line(s, 0, 13, 0, true) + seq!['\n'] + spec_line(s, 0, 13, 0, false)
            + seq!['\n'] + spec_line(s, 13, 26, 2, true) + seq!['\n'] + spec_line(
            s,
            13,
            26,
            2,
            false,
        ) + seq!['\n'] + spec_line(s, 26, 37, 2, true) + seq!['\n'] + spec_line(s, 26, 37, 2, false)
            + seq!['\n'] + spec_line(s, 37, 47, 4, true) + seq!['\n']) + spec_line(
            s,
            37,
            47,
            4,
            false,
        ));
    }
    crate::parser::lemma_trim_id(t);

    // The template splits into its eight lines.
    let r7 = l3n;
    let r6 = l3s + nl + r7;
    let r5 = l2n + nl + r6;
    let r4 = l2s + nl + r5;
    let r3 = l1n + nl + r4;
    let r2 = l1s + nl + r3;
    let r1 = l0n + nl + r2;
    assert(t =~= l0s + nl + r1);
    crate::parser::lemma_lines_split(l0s, r1);
    crate::parser::lemma_lines_split(l0n, r2);
    crate::parser::lemma_lines_split(l1s, r3);
    crate::parser::lemma_lines_split(l1n, r4);
    crate::parser::lemma_lines_split(l2s, r5);
    crate::parser::lemma_lines_split(l2n, r6);
    crate::parser::lemma_lines_split(l3s, r7);
    assert(!r7.contains('\n')) by {
        if r7.contains('\n') {
            let k = choose|k: int| 0 <= k < r7.len() && r7[k] == '\n';
        }
    }
    assert(spec_lines(r7) == seq![l3n]);
    let lines = seq![l0s, l0n, l1s, l1n, l2s, l2n, l3s, l3n];
    assert(spec_lines(spec_trim(t)) =~= lines);

    // Each line tokenises to its row's symbols.
    lemma_line_tokens(s, 0, 13, 0, true);
    lemma_line_tokens(s, 0, 13, 0, false);
    lemma_line_tokens(s, 13, 26, 2, true);
    lemma_line_tokens(s, 13, 26, 2, false);
    lemma_line_tokens(s, 26, 37, 2, true);
    lemma_line_tokens(s, 26, 37, 2, false);
    lemma_line_tokens(s, 37, 47, 4, true);
    lemma_line_tokens(s, 37, 47, 4, false);

    // Assemble the two-layer reading row by row.
    let ent = crate::layout::spec_entries(t);
    assert(ent == crate::parser::spec_pairs_from(lines, 0));
    assert(crate::parser::spec_row_pairs(lines, 0).len() == 13);
    assert(crate::parser::spec_row_pairs(lines, 1).len() == 13);
    assert(crate::parser::spec_row_pairs(lines, 2).len() == 11);
    assert(crate::parser::spec_row_pairs(lines, 3).len() == 10);
    assert(crate::parser::spec_pairs_from(lines, 4) =~= Seq::empty());
    let p0 = crate::parser::spec_pairs_from(lines, 0);
    let p1 = crate::parser::spec_pairs_from(lines, 1);
    let p2 = crate::parser::spec_pairs_from(lines, 2);
    let p3 = crate::parser::spec_pairs_from(lines, 3);
    assert(p3.len() == 10);
    assert(p2.len() == 11 + p3.len());
    assert(p1.len() == 13 + p2.len());
    assert(p0.len() == 13 + p1.len());
    assert(ent.len() == 47);
    assert forall|k: int| 0 <= k < 47 implies ent[k].1 == s[k] by {
        if k < 13 {
            assert(ent[k] == ((0usize, k as usize), crate::parser::spec_row_pairs(lines, 0)[k]));
            assert(crate::parser::spec_row_pairs(lines, 0)[k] == (s[k].0, s[k].1));
        } else if k < 26 {
            assert(ent[k] == p1[k - 13]);
            assert(p1[k - 13] == ((1usize, (k - 13) as usize), crate::parser::spec_row_pairs(
                lines,
                1,
            )[k - 13]));
            assert(crate::parser::spec_row_pairs(lines, 1)[k - 13] == (s[k].0, s[k].1));
        } else if k < 37 {
            assert(ent[k] == p1[k - 13]);
            assert(p1[k - 13] == p2[k - 26]);
            assert(p2[k - 26] == ((2usize, (k - 26) as usize), crate::parser::spec_row_pairs(
                lines,
                2,
            )[k - 26]));
            assert(crate::parser::spec_row_pairs(lines, 2)[k - 26] == (s[k].0, s[k].1));
        } else {
            assert(ent[k] == p1[k - 13]);
            assert(p1[k - 13] == p2[k - 26]);
            assert(p2[k - 26] == p3[k - 37]);
            assert(p3[k - 37] == ((3usize, (k - 37) as usize), crate::parser::spec_row_pairs(
                lines,
                3,
            )[k - 37]));
            assert(crate::parser::spec_row_pairs(lines, 3)[k - 37] == (s[k].0, s[k].1));
        }
        assert((s[k].0, s[k].1) == s[k]);
    }
    assert(ent.map_values(|e: (Position, (Seq<char>, Seq<char>))| e.1) =~= s);
}

/// Every symbol of a parsed layout is well formed, so the entries of
/// any template form a well-formed sequence.
pub proof fn lemma_entries_wf(template: Seq<char>)
    ensures
        wf_sequence(
            crate::layout::spec_entries(template).map_values(
                |e: (Position, (Seq<char>, Seq<char>))| e.1,
            ),
        ),
{
    let ent = crate::layout::spec_entries(template);
    crate::parser::lemma_pairs_from_wf(spec_lines(spec_trim(template)), 0);
    let sv = ent.map_values(|e: (Position, (Seq<char>, Seq<char>))| e.1);
    assert forall|k: int|
        0 <= k < sv.len() implies crate::parser::wf_symbol((#[trigger] sv[k]).0)
        && crate::parser::wf_symbol(sv[k].1) by {
        assert(sv[k] == ent[k].1);
    }
}

/// A key swap keeps a well-formed sequence well formed.
pub proof fn lemma_swap_keys_wf(s: Seq<(Seq<char>, Seq<char>)>, i: usize, j: usize)
    requires
        i < s.len(),
        j < s.len(),
        wf_sequence(s),
    ensures
        wf_sequence(spec_swap_keys(s, i, j)),
{
    let new = spec_swap_keys(s, i, j);
    assert forall|k: int|
        0 <= k < new.len() implies crate::parser::wf_symbol((#[trigger] new[k]).0)
        && crate::parser::wf_symbol(new[k].1) by {
        assert(new[k] == s[k] || new[k] == s[i as int] || new[k] == s[j as int]);
    }
}

/// A symbol swap keeps a well-formed sequence well formed.
pub proof fn lemma_swap_symbols_wf(s: Seq<(Seq<char>, Seq<char>)>, p1: Position, p2: Position)
    requires
        p1.0 < s.len(),
        p2.0 < s.len(),
        wf_sequence(s),
    ensures
        wf_sequence(spec_swap_symbols(s, p1, p2)),
{
    let new = spec_swap_symbols(s, p1, p2);
    assert forall|k: int|
        0 <= k < new.len() implies crate::parser::wf_symbol((#[trigger] new[k]).0)
        && crate::parser::wf_symbol(new[k].1) by {
        assert(crate::parser::wf_symbol(s[p1.0 as int].0) && crate::parser::wf_symbol(
            s[p1.0 as int].1,
        ));
        assert(crate::parser::wf_symbol(s[p2.0 as int].0) && crate::parser::wf_symbol(
            s[p2.0 as int].1,
        ));
    }
}

/// The full round trip on canonical templates: writing any
/// well-formed 47-pair sequence down and parsing the text back
/// reproduces the text exactly, so template-to-sequence-to-template is
/// the identity on every canonical template.  Each built-in named
/// layout is written in this canonical form, and the crate's tests
/// check each one at run time.
pub proof fn lemma_canonical_template_round_trip(s: Seq<(Seq<char>, Seq<char>)>)
    requires
        s.len() == 47,
        wf_sequence(s),
    ensures
        spec_template(
            crate::layout::spec_entries(spec_template(s)).map_values(
                |e: (Position, (Seq<char>, Seq<char>))| e.1,
            ),
        ) == spec_template(s),
{
    lemma_template_round_trip(s);
}

impl DNA {
    /// An owned copy of the sequence.
    pub fn duplicate(&self) -> (r: DNA)
        ensures
            sequence_view(r.sequence@) == sequence_view(self.sequence@),
            r.sequence@.len() == self.sequence@.len(),
    {
        let mut sequence: Sequence = Vec::new();
        let n: usize = self.sequence.len();
        for i in 0..n
            invariant
                n == self.sequence@.len(),
                sequence_view(sequence@) =~= sequence_view(self.sequence@).take(i as int),
                sequence@.len() == i,
        {
            let p = &self.sequence[i];
            sequence.push((p.0.clone(), p.1.clone()));
            assert(sequence_view(sequence@) =~= sequence_view(self.sequence@).take(i + 1));
        }
        assert(sequence_view(sequence@) =~= sequence_view(self.sequence@));
        DNA { sequence }
    }

    /// The (shifted, normal) pairs of a layout's entries, in position
    /// order.
    pub fn from(layout: &Layout) -> (dna: DNA)
        ensures
            sequence_view(dna.sequence@) == spec_entries(layout.template@).map_values(
                |e: (Position, (Seq<char>, Seq<char>))| e.1,
            ),
    {
        let entries = layout.entries();
        let ghost ev = spec_entries(layout.template@);
        let mut sequence: Sequence = Vec::new();
        let n: usize = entries.len();
        for i in 0..n
            invariant
                n == entries@.len(),
                entries@.map_values(|e: Entry| entry_view(e)) == ev,
                sequence_view(sequence@) =~= ev.map_values(
                    |e: (Position, (Seq<char>, Seq<char>))| e.1,
                ).take(i as int),
        {
            assert(entry_view(entries@[i as int]) == ev[i as int]);
            let shifted = entries[i].shifted.clone();
            let normal = entries[i].normal.clone();
            sequence.push((shifted, normal));
            assert(sequence_view(sequence@) =~= ev.map_values(
                |e: (Position, (Seq<char>, Seq<char>))| e.1,
            ).take(i + 1));
        }
        assert(sequence_view(sequence@) =~= ev.map_values(
            |e: (Position, (Seq<char>, Seq<char>))| e.1,
        ));
        DNA { sequence }
    }

    /// One line of the canonical template.
    fn render_line(&self, from: usize, to: usize, indent: usize, shifted: bool) -> (r: String)
        requires
            from < to,
            to <= self.sequence@.len(),
        ensures
            r@ == spec_line(sequence_view(self.sequence@), from as int, to as int, indent as int, shifted),
    {
        let ghost sv = sequence_view(self.sequence@);
        let mut r = String::new();
        for k in 0..indent
            invariant
                r@ =~= spec_blanks(k as int),
        {
            push_char(&mut r, ' ');
            assert(r@ =~= spec_blanks(k + 1));
        }
        let first = if shifted {
            self.sequence[from].0.clone()
        } else {
            self.sequence[from].1.clone()
        };
        assert(first@ == layer_of(sv[from as int], shifted));
        r.append(first.as_str());
        let mut i: usize = from + 1;
        while i < to
            invariant
                from + 1 <= i <= to <= self.sequence@.len(),
                sv == sequence_view(self.sequence@),
                r@ + spec_line_rest(sv, i as int, to as int, shifted) =~= spec_line(
                    sv,
                    from as int,
                    to as int,
                    indent as int,
                    shifted,
                ),
            decreases to - i,
        {
            push_char(&mut r, ' ');
            let token = if shifted {
                self.sequence[i].0.clone()
            } else {
                self.sequence[i].1.clone()
            };
            assert(token@ == layer_of(sv[i as int], shifted));
            r.append(token.as_str());
            assert(r@ + spec_line_rest(sv, i + 1, to as int, shifted) =~= spec_line(
                sv,
                from as int,
                to as int,
                indent as int,
                shifted,
            ));
            i = i + 1;
        }
        assert(r@ =~= spec_line(sv, from as int, to as int, indent as int, shifted));
        r
    }

    /// The sequence written back out as a canonical layout template.
    pub fn to_layout(&self) -> (layout: Layout)
        requires
            self.sequence@.len() == 47,
        ensures
            layout.template@ == spec_template(sequence_view(self.sequence@)),
    {
        let ghost sv = sequence_view(self.sequence@);
        let mut template = self.render_line(0, 13, 0, true);
        push_char(&mut template, '\n');
        let l = self.render_line(0, 13, 0, false);
        template.append(l.as_str());
        push_char(&mut template, '\n');
        let l = self.render_line(13, 26, 2, true);
        template.append(l.as_str());
        push_char(&mut template, '\n');
        let l = self.render_line(13, 26, 2, false);
        template.append(l.as_str());
        push_char(&mut template, '\n');
        let l = self.render_line(26, 37, 2, true);
        template.append(l.as_str());
        push_char(&mut template, '\n');
        let l = self.render_line(26, 37, 2, false);
        template.append(l.as_str());
        push_char(&mut template, '\n');
        let l = self.render_line(37, 47, 4, true);
        template.append(l.as_str());
        push_char(&mut template, '\n');
        let l = self.render_line(37, 47, 4, false);
        template.append(l.as_str());
        assert(template@ =~= spec_template(sv));
        Layout { template }
    }

    /// A new sequence with the whole keys (both layers) at `pos1` and
    /// `pos2` traded.
    pub fn swap_keys(&self, pos1: usize, pos2: usize) -> (dna: DNA)
        requires
            pos1 < self.sequence@.len(),
            pos2 < self.sequence@.len(),
        ensures
            sequence_view(dna.sequence@) == spec_swap_keys(
                sequence_view(self.sequence@),
                pos1,
                pos2,
            ),
    {
        let shifts_swapped = self.swap_symbols((pos1, 0), (pos2, 0));
        assert(shifts_swapped.sequence@.len() == self.sequence@.len()) by {
            assert(sequence_view(shifts_swapped.sequence@).len()
                == shifts_swapped.sequence@.len());
            assert(sequence_view(self.sequence@).len() == self.sequence@.len());
        }
        let dna = shifts_swapped.swap_symbols((pos1, 1), (pos2, 1));
        assert(sequence_view(dna.sequence@) =~= spec_swap_keys(
            sequence_view(self.sequence@),
            pos1,
            pos2,
        ));
        dna
    }

    /// A new sequence with the two symbols named by the (index, layer)
    /// positions `pos1` and `pos2` traded; the other layer of each
    /// position stays put.
    pub fn swap_symbols(&self, pos1: Position, pos2: Position) -> (dna: DNA)
        requires
            pos1.0 < self.sequence@.len(),
            pos2.0 < self.sequence@.len(),
        ensures
            sequence_view(dna.sequence@) == spec_swap_symbols(
                sequence_view(self.sequence@),
                pos1,
                pos2,
            ),
    {
        let ghost sv = sequence_view(self.sequence@);
        let e1 = &self.sequence[pos1.0];
        let e2 = &self.sequence[pos2.0];
        let new1: Pair = if pos1.1 == 0 {
            if pos2.1 == 0 {
                (e2.0.clone(), e1.1.clone())
            } else {
                (e2.1.clone(), e1.1.clone())
            }
        } else {
            if pos2.1 == 0 {
                (e1.0.clone(), e2.0.clone())
            } else {
                (e1.0.clone(), e2.1.clone())
            }
        };
        let new2: Pair = if pos2.1 == 0 {
            if pos1.1 == 0 {
                (e1.0.clone(), e2.1.clone())
            } else {
                (e1.1.clone(), e2.1.clone())
            }
        } else {
            if pos1.1 == 0 {
                (e2.0.clone(), e1.0.clone())
            } else {
                (e2.0.clone(), e1.1.clone())
            }
        };
        let ghost target = spec_swap_symbols(sv, pos1, pos2);
        let mut sequence: Sequence = Vec::new();
        let n: usize = self.sequence.len();
        for i in 0..n
            invariant
                n == self.sequence@.len(),
                sv == sequence_view(self.sequence@),
                target == spec_swap_symbols(sv, pos1, pos2),
                pos1.0 < n && pos2.0 < n,
                pair_view(new1) == target[pos1.0 as int] || pos1.0 == pos2.0,
                pair_view(new2) == target[pos2.0 as int],
                target.len() == n,
                sequence_view(sequence@) =~= target.take(i as int),
        {
            if i == pos2.0 {
                sequence.push((new2.0.clone(), new2.1.clone()));
            } else if i == pos1.0 {
                sequence.push((new1.0.clone(), new1.1.clone()));
            } else {
                let p = &self.sequence[i];
                sequence.push((p.0.clone(), p.1.clone()));
            }
            assert(sequence_view(sequence@) =~= target.take(i + 1));
        }
        assert(sequence_view(sequence@) =~= target);
        DNA { sequence }
    }

    /// How many keys the sequence holds.
    pub fn len(&self) -> (n: usize)
        ensures
            n == self.sequence@.len(),
    {
        self.sequence.len()
    }

    /// The pairs themselves, for read-only traversal.
    pub fn iter(&self) -> (pairs: &Sequence)
        ensures
            pairs@ == self.sequence@,
    {
        &self.sequence
    }

    /// The pair at index `i`.
    pub fn pair_at(&self, i: usize) -> (pair: Pair)
        requires
            i < self.sequence@.len(),
        ensures
            pair_view(pair) == sequence_view(self.sequence@)[i as int],
    {
        let p = &self.sequence[i];
        (p.0.clone(), p.1.clone())
    }
}

} // verus!
