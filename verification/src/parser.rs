//! Parsing of whitespace-separated symbol templates.
//!
//! A template is a block of text whose lines hold symbols separated by
//! blanks; a symbol's position is the pair (line index, symbol index
//! within the line).  The spec functions below give the exact meaning of
//! tokenisation, and every executable function is proved against them.
use vstd::prelude::*;
use crate::chars::{is_ws, is_whitespace_char, to_char_vec, chars_to_string};

verus! {

/// A physical key slot: (row, column) within a template grid.
pub type Position = (usize, usize);

/// Tokens of one layer of a template row.
pub type Symbols = Vec<String>;

/// The rows of a single-layer template, each a list of symbol tokens.
pub type Mapping = Vec<Symbols>;

/// The (position, (shifted, normal)) list of a two-layer template, in
/// row-major order.
pub type TwoLayerMapping = Vec<(Position, (String, String))>;

// ---------------------------------------------------------------------
// Spec model of tokenisation
// ---------------------------------------------------------------------

/// The longest whitespace-free prefix of `s`.
pub open spec fn token_prefix(s: Seq<char>) -> Seq<char>
    decreases s.len(),
{
    if s.len() == 0 || is_ws(s[0]) {
        Seq::empty()
    } else {
        seq![s[0]] + token_prefix(s.drop_first())
    }
}

/// The whitespace-separated tokens of `s`.
pub open spec fn spec_tokens(s: Seq<char>) -> Seq<Seq<char>>
    decreases s.len(),
    via spec_tokens_decreases
{
    if s.len() == 0 {
        Seq::empty()
    } else if is_ws(s[0]) {
        spec_tokens(s.drop_first())
    } else {
        seq![token_prefix(s)] + spec_tokens(s.skip(token_prefix(s).len() as int))
    }
}

#[via_fn]
proof fn spec_tokens_decreases(s: Seq<char>) {
    if s.len() > 0 && !is_ws(s[0]) {
        lemma_token_prefix_len(s);
    }
}

/// The token prefix is no longer than the text, and non-empty exactly
/// when the text starts with a non-blank character.
pub proof fn lemma_token_prefix_len(s: Seq<char>)
    ensures
        token_prefix(s).len() <= s.len(),
        s.len() > 0 && !is_ws(s[0]) ==> token_prefix(s).len() >= 1,
    decreases s.len(),
{
    if s.len() > 0 && !is_ws(s[0]) {
        lemma_token_prefix_len(s.drop_first());
    }
}

/// The index of the first newline in `s`, or `s.len()` if there is none.
pub open spec fn first_newline(s: Seq<char>) -> int
    decreases s.len(),
{
    if s.len() == 0 {
        0
    } else if s[0] == '\n' {
        0
    } else {
        1 + first_newline(s.drop_first())
    }
}

/// `s` split at every newline character.
pub open spec fn spec_lines(s: Seq<char>) -> Seq<Seq<char>>
    decreases s.len(),
    via spec_lines_decreases
{
    if !s.contains('\n') {
        seq![s]
    } else {
        seq![s.take(first_newline(s))] + spec_lines(s.skip(first_newline(s) + 1))
    }
}

#[via_fn]
proof fn spec_lines_decreases(s: Seq<char>) {
    lemma_first_newline(s);
}

/// `s` with leading and trailing whitespace removed.
pub open spec fn spec_trim(s: Seq<char>) -> Seq<char>
    decreases s.len(),
{
    if s.len() == 0 {
        s
    } else if is_ws(s[0]) {
        spec_trim(s.drop_first())
    } else if is_ws(s[s.len() - 1]) {
        spec_trim(s.drop_last())
    } else {
        s
    }
}

/// The rows of a single-layer template: tokens of each line of the
/// trimmed text.
pub open spec fn spec_rows(s: Seq<char>) -> Seq<Seq<Seq<char>>> {
    spec_lines(spec_trim(s)).map_values(|line: Seq<char>| spec_tokens(line))
}

/// The token at `position` of a single-layer template, if that row and
/// column exist.
pub open spec fn spec_value(s: Seq<char>, position: Position) -> Option<Seq<char>> {
    let rows = spec_rows(s);
    if position.0 < rows.len() && position.1 < rows[position.0 as int].len() {
        Some(rows[position.0 as int][position.1 as int])
    } else {
        None
    }
}

// ---------------------------------------------------------------------
// Proofs about first_newline
// ---------------------------------------------------------------------

proof fn lemma_first_newline(s: Seq<char>)
    ensures
        0 <= first_newline(s) <= s.len(),
        first_newline(s) < s.len() ==> s[first_newline(s)] == '\n',
        forall|j: int| 0 <= j < first_newline(s) ==> s[j] != '\n',
        (first_newline(s) == s.len()) == !s.contains('\n'),
    decreases s.len(),
{
    if s.len() == 0 {
        assert(!s.contains('\n'));
    } else if s[0] == '\n' {
        assert(s.contains('\n'));
    } else {
        lemma_first_newline(s.drop_first());
        let f = first_newline(s);
        assert forall|j: int| 0 <= j < f implies s[j] != '\n' by {
            if j > 0 {
                assert(s.drop_first()[j - 1] != '\n');
            }
        }
        if f < s.len() {
            assert(s.drop_first()[f - 1] == '\n');
            assert(s.contains('\n'));
        } else {
            if s.contains('\n') {
                let k = choose|k: int| 0 <= k < s.len() && s[k] == '\n';
                assert(s.drop_first()[k - 1] == '\n');
                assert(s.drop_first().contains('\n'));
            }
        }
    }
}

// ---------------------------------------------------------------------
// Executable tokenisation
// ---------------------------------------------------------------------

/// The end of the token that starts at `from`: the first whitespace (or
/// the end of the text) at or after `from`.
fn token_end(chars: &Vec<char>, from: usize) -> (end: usize)
    requires
        from <= chars@.len(),
    ensures
        from <= end <= chars@.len(),
        chars@.subrange(from as int, end as int) == token_prefix(chars@.skip(from as int)),
        end < chars@.len() ==> is_ws(chars@[end as int]),
        forall|j: int| from <= j < end ==> !is_ws(chars@[j]),
    decreases chars@.len() - from,
{
    if from == chars.len() || is_whitespace_char(chars[from]) {
        assert(chars@.subrange(from as int, from as int) =~= Seq::<char>::empty());
        from
    } else {
        let end = token_end(chars, from + 1);
        assert(chars@.subrange(from as int, end as int) =~= seq![chars@[from as int]]
            + chars@.subrange(from + 1, end as int));
        assert(chars@.skip(from as int).drop_first() =~= chars@.skip(from + 1));
        end
    }
}

/// The tokens of `chars` from index `from` on.
fn tokens_from(chars: &Vec<char>, from: usize) -> (tokens: Vec<String>)
    requires
        from <= chars@.len(),
    ensures
        tokens@.map_values(|t: String| t@) == spec_tokens(chars@.skip(from as int)),
    decreases chars@.len() - from,
{
    if from == chars.len() {
        let tokens: Vec<String> = Vec::new();
        assert(tokens@.map_values(|t: String| t@) =~= spec_tokens(chars@.skip(from as int)));
        tokens
    } else if is_whitespace_char(chars[from]) {
        let tokens = tokens_from(chars, from + 1);
        assert(chars@.skip(from as int).drop_first() =~= chars@.skip(from + 1));
        tokens
    } else {
        let end = token_end(chars, from);
        let mut word: Vec<char> = Vec::new();
        let ghost pre = token_prefix(chars@.skip(from as int));
        for i in from..end
            invariant
                from <= i <= end <= chars@.len(),
                pre == chars@.subrange(from as int, end as int),
                word@ == chars@.subrange(from as int, i as int),
        {
            word.push(chars[i]);
            assert(word@ =~= chars@.subrange(from as int, i + 1));
        }
        let token = chars_to_string(&word);
        assert(from < end) by {
            assert(!is_ws(chars@.skip(from as int)[0]));
            if from == end {
                assert(pre =~= chars@.subrange(from as int, from as int));
                assert(pre.len() == 0);
                assert(token_prefix(chars@.skip(from as int)).len() > 0);
            }
        }
        let mut tokens = tokens_from(chars, end);
        let ghost rest = tokens@.map_values(|t: String| t@);
        tokens.insert(0, token);
        assert(chars@.skip(from as int).skip(pre.len() as int) =~= chars@.skip(end as int));
        assert(tokens@.map_values(|t: String| t@) =~= seq![pre] + rest);
        tokens
    }
}

/// The whitespace-separated symbol tokens of one template line.
pub fn line_to_symbols(line: &str) -> (symbols: Vec<String>)
    ensures
        symbols@.map_values(|t: String| t@) == spec_tokens(line@),
{
    let chars = to_char_vec(line);
    let symbols = tokens_from(&chars, 0);
    assert(chars@.skip(0) =~= line@);
    symbols
}

/// The lines of `chars`, split at newline characters.
fn split_lines(chars: &Vec<char>, from: usize) -> (lines: Vec<Vec<char>>)
    requires
        from <= chars@.len(),
    ensures
        lines@.map_values(|l: Vec<char>| l@) == spec_lines(chars@.skip(from as int)),
    decreases chars@.len() - from,
{
    let ghost s = chars@.skip(from as int);
    let mut end: usize = from;
    while end < chars.len() && chars[end] != '\n'
        invariant
            from <= end <= chars@.len(),
            forall|j: int| from <= j < end ==> chars@[j] != '\n',
        decreases chars@.len() - end,
    {
        end = end + 1;
    }
    proof {
        lemma_first_newline(s);
        if end < chars@.len() {
            assert(s[end - from] == '\n');
            assert(forall|j: int| 0 <= j < end - from ==> s[j] != '\n');
            assert(first_newline(s) == end - from) by {
                if first_newline(s) < end - from {
                    assert(s[first_newline(s)] == '\n');
                }
            }
            assert(s.contains('\n'));
        } else {
            if s.contains('\n') {
                let k = choose|k: int| 0 <= k < s.len() && s[k] == '\n';
                assert(chars@[from + k] == '\n');
            }
            assert(!s.contains('\n'));
        }
    }
    let mut head: Vec<char> = Vec::new();
    for i in from..end
        invariant
            from <= i <= end <= chars@.len(),
            head@ == chars@.subrange(from as int, i as int),
    {
        head.push(chars[i]);
        assert(head@ =~= chars@.subrange(from as int, i + 1));
    }
    if end == chars.len() {
        let mut lines: Vec<Vec<char>> = Vec::new();
        lines.push(head);
        assert(chars@.subrange(from as int, end as int) =~= s);
        assert(lines@.map_values(|l: Vec<char>| l@) =~= seq![s]);
        lines
    } else {
        let mut lines = split_lines(chars, end + 1);
        let ghost rest = lines@.map_values(|l: Vec<char>| l@);
        lines.insert(0, head);
        proof {
            assert(s.take(first_newline(s)) =~= chars@.subrange(from as int, end as int));
            assert(s.skip(first_newline(s) + 1) =~= chars@.skip(end + 1));
            assert(lines@.map_values(|l: Vec<char>| l@) =~= seq![s.take(first_newline(s))]
                + rest);
        }
        lines
    }
}

/// `chars` with leading and trailing whitespace removed.
#[verifier::rlimit(50)]
fn trim_chars(chars: &Vec<char>) -> (trimmed: Vec<char>)
    ensures
        trimmed@ == spec_trim(chars@),
{
    let mut lo: usize = 0;
    let mut hi: usize = chars.len();
    assert(chars@.subrange(0, chars@.len() as int) =~= chars@);
    while lo < hi && is_whitespace_char(chars[lo])
        invariant
            0 <= lo <= hi <= chars@.len(),
            hi == chars@.len(),
            spec_trim(chars@) == spec_trim(chars@.subrange(lo as int, hi as int)),
        decreases hi - lo,
    {
        assert(chars@.subrange(lo as int, hi as int).drop_first() =~= chars@.subrange(
            lo + 1,
            hi as int,
        ));
        lo = lo + 1;
    }
    while lo < hi && is_whitespace_char(chars[hi - 1])
        invariant
            0 <= lo <= hi <= chars@.len(),
            spec_trim(chars@) == spec_trim(chars@.subrange(lo as int, hi as int)),
            lo < hi ==> !is_ws(chars@[lo as int]),
        decreases hi - lo,
    {
        assert(chars@.subrange(lo as int, hi as int).drop_last() =~= chars@.subrange(
            lo as int,
            hi - 1,
        ));
        hi = hi - 1;
    }
    let mut trimmed: Vec<char> = Vec::new();
    for i in lo..hi
        invariant
            lo <= i <= hi <= chars@.len(),
            trimmed@ == chars@.subrange(lo as int, i as int),
    {
        trimmed.push(chars[i]);
        assert(trimmed@ =~= chars@.subrange(lo as int, i + 1));
    }
    proof {
        let inner = chars@.subrange(lo as int, hi as int);
        if inner.len() > 0 {
            assert(!is_ws(inner[0]));
            assert(!is_ws(inner[inner.len() - 1]));
        }
        assert(spec_trim(inner) == inner);
    }
    trimmed
}

/// The rows of tokens of a single-layer template.
pub fn mapping_for(template: &str) -> (mapping: Mapping)
    ensures
        mapping@.map_values(|row: Symbols| row@.map_values(|t: String| t@)) == spec_rows(
            template@,
        ),
{
    let chars = to_char_vec(template);
    let trimmed = trim_chars(&chars);
    let lines = split_lines(&trimmed, 0);
    assert(trimmed@.skip(0) =~= trimmed@);
    let ghost line_views = lines@.map_values(|l: Vec<char>| l@);
    let mut mapping: Mapping = Vec::new();
    let n: usize = lines.len();
    for r in 0..n
        invariant
            n == lines@.len(),
            line_views == lines@.map_values(|l: Vec<char>| l@),
            line_views == spec_lines(spec_trim(template@)),
            mapping@.map_values(|row: Symbols| row@.map_values(|t: String| t@))
                == line_views.map_values(|line: Seq<char>| spec_tokens(line)).take(r as int),
    {
        let row = tokens_from(&lines[r], 0);
        assert(lines@[r as int]@.skip(0) =~= line_views[r as int]);
        mapping.push(row);
        assert(mapping@.map_values(|row: Symbols| row@.map_values(|t: String| t@))
            =~= line_views.map_values(|line: Seq<char>| spec_tokens(line)).take(r + 1));
    }
    assert(mapping@.map_values(|row: Symbols| row@.map_values(|t: String| t@))
        =~= spec_rows(template@));
    mapping
}

/// The symbol at `position` of a single-layer template, if present.
pub fn value_for(template: &str, position: Position) -> (value: Option<String>)
    ensures
        match value {
            Some(v) => spec_value(template@, position) == Some(v@),
            None => spec_value(template@, position) is None,
        },
{
    let mapping = mapping_for(template);
    let ghost rows = spec_rows(template@);
    if position.0 < mapping.len() {
        let row = &mapping[position.0];
        assert(row@.map_values(|t: String| t@) == rows[position.0 as int]);
        if position.1 < row.len() {
            let token = row[position.1].clone();
            assert(token@ == rows[position.0 as int][position.1 as int]);
            Some(token)
        } else {
            None
        }
    } else {
        None
    }
}

/// The first match for `val` in `row`, at or after column `c`.
pub open spec fn spec_find_in_row(row: Seq<Seq<char>>, val: Seq<char>, c: int) -> Option<int>
    decreases row.len() - c,
{
    if c < 0 || c >= row.len() {
        None
    } else if row[c] == val {
        Some(c)
    } else {
        spec_find_in_row(row, val, c + 1)
    }
}

/// The first position (in row-major order), in the rows from `r` on,
/// whose symbol equals `val`.
pub open spec fn spec_find_from(
    rows: Seq<Seq<Seq<char>>>,
    val: Seq<char>,
    r: int,
) -> Option<Position>
    decreases rows.len() - r,
{
    if r < 0 || r >= rows.len() {
        None
    } else if spec_find_in_row(rows[r], val, 0) is Some {
        Some((r as usize, spec_find_in_row(rows[r], val, 0)->Some_0 as usize))
    } else {
        spec_find_from(rows, val, r + 1)
    }
}

/// The first position (in row-major order) of a single-layer template
/// whose symbol is `val`, if any.
pub open spec fn spec_position_for(s: Seq<char>, val: Seq<char>) -> Option<Position> {
    spec_find_from(spec_rows(s), val, 0)
}

/// The first position (in row-major order) whose symbol equals `value`,
/// if the template holds that symbol anywhere.
pub fn position_for(template: &str, value: String) -> (position: Option<Position>)
    ensures
        position == spec_position_for(template@, value@),
{
    let mapping = mapping_for(template);
    let ghost rows = spec_rows(template@);
    let n: usize = mapping.len();
    for r in 0..n
        invariant
            n == mapping@.len(),
            mapping@.map_values(|row: Symbols| row@.map_values(|t: String| t@)) == rows,
            spec_find_from(rows, value@, 0) == spec_find_from(rows, value@, r as int),
    {
        let row = &mapping[r];
        assert(row@.map_values(|t: String| t@) == rows[r as int]);
        let m: usize = row.len();
        for c in 0..m
            invariant
                m == row@.len(),
                row@.map_values(|t: String| t@) == rows[r as int],
                r < n == mapping@.len(),
                spec_find_from(rows, value@, 0) == spec_find_from(rows, value@, r as int),
                spec_find_in_row(rows[r as int], value@, 0) == spec_find_in_row(
                    rows[r as int],
                    value@,
                    c as int,
                ),
        {
            if row[c].eq(&value) {
                assert(rows[r as int][c as int] == value@);
                return Some((r, c));
            }
            assert(rows[r as int][c as int] != value@);
        }
    }
    None
}

// ---------------------------------------------------------------------
// Two-layer templates
// ---------------------------------------------------------------------

/// Tokens of line `2r` (shifted layer) and line `2r + 1` (normal layer)
/// paired up to the shorter of the two.
pub open spec fn spec_row_pairs(lines: Seq<Seq<char>>, r: int) -> Seq<(Seq<char>, Seq<char>)> {
    let shifted = spec_tokens(lines[2 * r]);
    let normal = spec_tokens(lines[2 * r + 1]);
    let len = if shifted.len() <= normal.len() {
        shifted.len()
    } else {
        normal.len()
    };
    Seq::new(len, |i: int| (shifted[i], normal[i]))
}

/// The (position, (shifted, normal)) items of the rows from `r` on.
pub open spec fn spec_pairs_from(lines: Seq<Seq<char>>, r: int) -> Seq<
    (Position, (Seq<char>, Seq<char>)),
>
    decreases lines.len() / 2 - r,
{
    if r < 0 || r >= lines.len() / 2 {
        Seq::empty()
    } else {
        Seq::new(
            spec_row_pairs(lines, r).len(),
            |i: int| ((r as usize, i as usize), spec_row_pairs(lines, r)[i]),
        ) + spec_pairs_from(lines, r + 1)
    }
}

/// The full two-layer reading of a template: consecutive line pairs
/// (shifted above normal), symbols paired columnwise, positions in
/// row-major order.  A trailing unpaired line is ignored.
pub open spec fn spec_two_layer(s: Seq<char>) -> Seq<(Position, (Seq<char>, Seq<char>))> {
    spec_pairs_from(spec_lines(spec_trim(s)), 0)
}

/// A trailing unpaired line contributes nothing to the two-layer
/// reading: the rows from `r` on read only whole line pairs, so a
/// template cut down to its complete pairs reads the same.
pub proof fn lemma_pairs_from_ignores_odd_tail(lines: Seq<Seq<char>>, r: int)
    requires
        0 <= r,
    ensures
        spec_pairs_from(lines, r) == spec_pairs_from(
            lines.take(2 * (lines.len() as int / 2)),
            r,
        ),
    decreases lines.len() / 2 - r,
{
    let t = lines.take(2 * (lines.len() as int / 2));
    assert(t.len() == 2 * (lines.len() as int / 2));
    assert(t.len() / 2 == lines.len() as int / 2);
    if r < lines.len() / 2 {
        lemma_pairs_from_ignores_odd_tail(lines, r + 1);
        assert(t[2 * r] == lines[2 * r]);
        assert(t[2 * r + 1] == lines[2 * r + 1]);
        assert(spec_row_pairs(t, r) == spec_row_pairs(lines, r));
    }
}

/// Whether the trimmed template splits into an even number of lines,
/// so that a two-layer reading covers all of its text.  Callers that
/// must refuse an unbalanced template check this before reading it.
pub fn template_is_balanced(template: &str) -> (r: bool)
    ensures
        r == (spec_lines(spec_trim(template@)).len() % 2 == 0),
{
    let chars = to_char_vec(template);
    let trimmed = trim_chars(&chars);
    let lines = split_lines(&trimmed, 0);
    assert(trimmed@.skip(0) =~= trimmed@);
    lines.len() % 2 == 0
}

/// The (position, (shifted, normal)) list of a two-layer template.
/// A template whose trimmed text has an odd number of lines is read
/// as if the trailing unpaired line were not there (the second
/// `ensures` clause states the truncation); the parse never fails, so
/// a malformed resource falls back to what it holds rather than
/// stopping the search.  `template_is_balanced` tells the
/// malformation apart for callers that must refuse it.
pub fn two_layer_mapping_for(template: &String) -> (mapping: TwoLayerMapping)
    ensures
        mapping@.map_values(|e: (Position, (String, String))| (e.0, (e.1.0@, e.1.1@)))
            == spec_two_layer(template@),
        ({
            let lines = spec_lines(spec_trim(template@));
            mapping@.map_values(|e: (Position, (String, String))| (e.0, (e.1.0@, e.1.1@)))
                == spec_pairs_from(lines.take(2 * (lines.len() as int / 2)), 0)
        }),
{
    let chars = to_char_vec(template.as_str());
    let trimmed = trim_chars(&chars);
    let lines = split_lines(&trimmed, 0);
    assert(trimmed@.skip(0) =~= trimmed@);
    let ghost line_views = lines@.map_values(|l: Vec<char>| l@);
    let mut mapping: TwoLayerMapping = Vec::new();
    let rows: usize = lines.len() / 2;
    let ghost full = spec_pairs_from(line_views, 0);
    for r in 0..rows
        invariant
            rows == lines@.len() / 2,
            line_views == lines@.map_values(|l: Vec<char>| l@),
            line_views == spec_lines(spec_trim(template@)),
            full == spec_pairs_from(line_views, 0),
            map_view(mapping@) + spec_pairs_from(line_views, r as int) =~= full,
    {
        let shifted = tokens_from(&lines[2 * r], 0);
        let normal = tokens_from(&lines[2 * r + 1], 0);
        assert(lines@[2 * r]@.skip(0) =~= line_views[2 * r]);
        assert(lines@[2 * r + 1]@.skip(0) =~= line_views[2 * r + 1]);
        let len: usize = if shifted.len() <= normal.len() {
            shifted.len()
        } else {
            normal.len()
        };
        let ghost row_pairs = spec_row_pairs(line_views, r as int);
        assert(row_pairs.len() == len);
        let ghost before = map_view(mapping@);
        for i in 0..len
            invariant
                len == row_pairs.len(),
                len <= shifted@.len() && len <= normal@.len(),
                row_pairs == spec_row_pairs(line_views, r as int),
                shifted@.map_values(|t: String| t@) == spec_tokens(line_views[2 * r]),
                normal@.map_values(|t: String| t@) == spec_tokens(line_views[2 * r + 1]),
                r < rows,
                map_view(mapping@) =~= before + Seq::new(
                    i as nat,
                    |j: int| ((r as usize, j as usize), row_pairs[j]),
                ),
        {
            let s = shifted[i].clone();
            let n = normal[i].clone();
            assert(s@ == shifted@.map_values(|t: String| t@)[i as int]);
            assert(n@ == normal@.map_values(|t: String| t@)[i as int]);
            let ghost snap = map_view(mapping@);
            let ghost sv = s@;
            let ghost nv = n@;
            mapping.push(((r, i), (s, n)));
            proof {
                let m = map_view(mapping@);
                assert(m.len() == snap.len() + 1);
                assert forall|k: int| 0 <= k < m.len() implies m[k] == (
                    before + Seq::new((i + 1) as nat, |j: int| ((r as usize, j as usize), row_pairs[j]))
                )[k] by {
                    if k < snap.len() {
                        assert(m[k] == snap[k]);
                    } else {
                        assert(m[k] == ((r, i), (sv, nv)));
                        assert(row_pairs[i as int] == (sv, nv));
                    }
                }
                assert(m =~= before + Seq::new(
                    (i + 1) as nat,
                    |j: int| ((r as usize, j as usize), row_pairs[j]),
                ));
            }
        }
        proof {
            assert(Seq::new(len as nat, |j: int| ((r as usize, j as usize), row_pairs[j]))
                =~= Seq::new(row_pairs.len(), |i: int| ((r as usize, i as usize), row_pairs[i])));
            assert(spec_pairs_from(line_views, r as int) == Seq::new(
                row_pairs.len(),
                |i: int| ((r as usize, i as usize), row_pairs[i]),
            ) + spec_pairs_from(line_views, r + 1));
        }
    }
    assert(spec_pairs_from(line_views, rows as int) =~= Seq::empty());
    assert(map_view(mapping@) =~= full);
    proof {
        lemma_pairs_from_ignores_odd_tail(line_views, 0);
    }
    mapping
}

/// The spec-level reading of an executable two-layer mapping.
pub open spec fn map_view(s: Seq<(Position, (String, String))>) -> Seq<
    (Position, (Seq<char>, Seq<char>)),
> {
    s.map_values(|e: (Position, (String, String))| (e.0, (e.1.0@, e.1.1@)))
}

// ---------------------------------------------------------------------
// Inverting tokenisation
// ---------------------------------------------------------------------

/// A well-formed symbol: non-empty and free of whitespace.
pub open spec fn wf_symbol(t: Seq<char>) -> bool {
    t.len() > 0 && forall|k: int| 0 <= k < t.len() ==> !is_ws(t[k])
}

/// The token prefix of a well-formed symbol followed by a blank (or by
/// nothing) is the symbol itself.
pub proof fn lemma_token_prefix_exact(t: Seq<char>, z: Seq<char>)
    requires
        wf_symbol(t),
        z.len() == 0 || is_ws(z[0]),
    ensures
        token_prefix(t + z) == t,
    decreases t.len(),
{
    let s = t + z;
    assert(s[0] == t[0]);
    if t.len() == 1 {
        assert(s.drop_first() =~= z);
        assert(token_prefix(z) =~= Seq::<char>::empty());
        assert(token_prefix(s) =~= seq![t[0]]);
        assert(seq![t[0]] =~= t);
    } else {
        assert(s.drop_first() =~= t.drop_first() + z);
        assert(wf_symbol(t.drop_first())) by {
            assert(forall|k: int|
                0 <= k < t.drop_first().len() ==> t.drop_first()[k] == t[k + 1]);
        }
        lemma_token_prefix_exact(t.drop_first(), z);
        assert(token_prefix(s) =~= seq![t[0]] + t.drop_first());
        assert(seq![t[0]] + t.drop_first() =~= t);
    }
}

/// Tokenising a well-formed symbol followed by a blank-or-empty tail
/// yields the symbol and then the tail's tokens.
pub proof fn lemma_tokens_token(t: Seq<char>, z: Seq<char>)
    requires
        wf_symbol(t),
        z.len() == 0 || is_ws(z[0]),
    ensures
        spec_tokens(t + z) == seq![t] + spec_tokens(z),
{
    let s = t + z;
    lemma_token_prefix_exact(t, z);
    assert(s[0] == t[0]);
    assert(s.skip(t.len() as int) =~= z);
    if z.len() == 0 {
        assert(spec_tokens(z) =~= Seq::<Seq<char>>::empty());
    }
}

/// Splitting at the first newline: the text before it becomes the
/// first line.
pub proof fn lemma_first_newline_concat(a: Seq<char>, rest: Seq<char>)
    requires
        forall|k: int| 0 <= k < a.len() ==> a[k] != '\n',
    ensures
        first_newline(a + seq!['\n'] + rest) == a.len(),
    decreases a.len(),
{
    let s = a + seq!['\n'] + rest;
    if a.len() == 0 {
        assert(s[0] == '\n');
    } else {
        assert(s[0] == a[0]);
        assert(s.drop_first() =~= a.drop_first() + seq!['\n'] + rest);
        assert(forall|k: int|
            0 <= k < a.drop_first().len() ==> a.drop_first()[k] == a[k + 1]);
        lemma_first_newline_concat(a.drop_first(), rest);
    }
}

/// The lines of `a`, a newline, then `rest`: the line `a`, then the
/// lines of `rest`.
pub proof fn lemma_lines_split(a: Seq<char>, rest: Seq<char>)
    requires
        forall|k: int| 0 <= k < a.len() ==> a[k] != '\n',
    ensures
        spec_lines(a + seq!['\n'] + rest) == seq![a] + spec_lines(rest),
{
    let s = a + seq!['\n'] + rest;
    lemma_first_newline_concat(a, rest);
    assert(s[a.len() as int] == '\n');
    assert(s.contains('\n'));
    assert(s.take(a.len() as int) =~= a);
    assert(s.skip(a.len() as int + 1) =~= rest);
    assert(spec_lines(s) =~= seq![a] + spec_lines(rest));
}

/// A text whose first and last characters are not blanks trims to
/// itself.
pub proof fn lemma_trim_id(s: Seq<char>)
    requires
        s.len() > 0,
        !is_ws(s[0]),
        !is_ws(s[s.len() - 1]),
    ensures
        spec_trim(s) == s,
{
}

/// A token prefix holds no whitespace.
proof fn lemma_token_prefix_wf(s: Seq<char>)
    ensures
        forall|k: int| 0 <= k < token_prefix(s).len() ==> !is_ws(token_prefix(s)[k]),
    decreases s.len(),
{
    if s.len() > 0 && !is_ws(s[0]) {
        lemma_token_prefix_wf(s.drop_first());
        assert forall|k: int|
            0 <= k < token_prefix(s).len() implies !is_ws(token_prefix(s)[k]) by {
            if k > 0 {
                assert(token_prefix(s)[k] == token_prefix(s.drop_first())[k - 1]);
            }
        }
    }
}

/// Every token of any text is a well-formed symbol: non-empty and
/// free of whitespace.
pub proof fn lemma_tokens_wf(s: Seq<char>)
    ensures
        forall|k: int|
            0 <= k < spec_tokens(s).len() ==> wf_symbol(#[trigger] spec_tokens(s)[k]),
    decreases s.len(),
{
    if s.len() == 0 {
    } else if is_ws(s[0]) {
        lemma_tokens_wf(s.drop_first());
        assert forall|k: int|
            0 <= k < spec_tokens(s).len() implies wf_symbol(#[trigger] spec_tokens(s)[k]) by {
            assert(spec_tokens(s)[k] == spec_tokens(s.drop_first())[k]);
        }
    } else {
        lemma_token_prefix_len(s);
        lemma_token_prefix_wf(s);
        lemma_tokens_wf(s.skip(token_prefix(s).len() as int));
        assert forall|k: int|
            0 <= k < spec_tokens(s).len() implies wf_symbol(#[trigger] spec_tokens(s)[k]) by {
            if k == 0 {
                assert(spec_tokens(s)[0] == token_prefix(s));
            } else {
                assert(spec_tokens(s)[k] == spec_tokens(
                    s.skip(token_prefix(s).len() as int),
                )[k - 1]);
            }
        }
    }
}

/// Every symbol of a two-layer reading is well formed.
pub proof fn lemma_pairs_from_wf(lines: Seq<Seq<char>>, r: int)
    ensures
        forall|k: int|
            0 <= k < spec_pairs_from(lines, r).len() ==> wf_symbol(
                (#[trigger] spec_pairs_from(lines, r)[k]).1.0,
            ) && wf_symbol(spec_pairs_from(lines, r)[k].1.1),
    decreases lines.len() / 2 - r,
{
    if 0 <= r < lines.len() / 2 {
        lemma_pairs_from_wf(lines, r + 1);
        lemma_tokens_wf(lines[2 * r]);
        lemma_tokens_wf(lines[2 * r + 1]);
        let row = spec_row_pairs(lines, r);
        let head = Seq::new(row.len(), |i: int| ((r as usize, i as usize), row[i]));
        assert forall|k: int|
            0 <= k < spec_pairs_from(lines, r).len() implies wf_symbol(
            (#[trigger] spec_pairs_from(lines, r)[k]).1.0,
        ) && wf_symbol(spec_pairs_from(lines, r)[k].1.1) by {
            if k < head.len() {
                assert(spec_pairs_from(lines, r)[k] == head[k]);
                assert(row[k] == (spec_tokens(lines[2 * r])[k], spec_tokens(
                    lines[2 * r + 1],
                )[k]));
            } else {
                assert(spec_pairs_from(lines, r)[k] == spec_pairs_from(lines, r + 1)[k
                    - head.len()]);
            }
        }
    }
}

} // verus!
