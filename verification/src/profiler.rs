//! The fitness profiler: how well a layout places frequent symbols on
//! low-effort keys, tolerant of effort ties.
use vstd::prelude::*;
use vstd::relations::{total_ordering, sorted_by};
use vstd::seq_lib::lemma_sorted_unique;
use crate::chars::{spec_is_upper, is_upper_char, spec_is_lower, spec_is_digit};
use crate::frequency::SymbolFrequencies;
use crate::keyboard::{Keyboard, Key, spec_lookup};

verus! {

/// The sort order of two (symbol, count-or-effort) pairs: by count
/// descending or by effort ascending, ties broken by the symbol's code
/// point.
pub open spec fn pair_le(desc: bool, a: (char, usize), b: (char, usize)) -> bool {
    if desc {
        a.1 > b.1 || (a.1 == b.1 && a.0 as u32 <= b.0 as u32)
    } else {
        a.1 < b.1 || (a.1 == b.1 && a.0 as u32 <= b.0 as u32)
    }
}

/// Both pair orders are total.
pub proof fn lemma_pair_le_total(desc: bool)
    ensures
        total_ordering(|a: (char, usize), b: (char, usize)| pair_le(desc, a, b)),
{
    let leq = |a: (char, usize), b: (char, usize)| pair_le(desc, a, b);
    assert forall|a: (char, usize), b: (char, usize)| #[trigger] leq(a, b) && #[trigger] leq(b, a)
        implies a == b by {
        assert(a.1 == b.1);
        assert(a.0 as u32 == b.0 as u32);
        vstd::utf8::char_u32_cast(a.0, a.0 as u32);
        vstd::utf8::char_u32_cast(b.0, b.0 as u32);
        assert(a.0 == b.0);
    }
    assert(vstd::relations::reflexive(leq)) by {
        assert forall|a: (char, usize)| #[trigger] leq(a, a) by {
            assert(pair_le(desc, a, a));
        }
    }
    assert(vstd::relations::transitive(leq)) by {
        assert forall|a: (char, usize), b: (char, usize), c: (char, usize)|
            #[trigger] leq(a, b) && #[trigger] leq(b, c) implies leq(a, c) by {
            assert(pair_le(desc, a, b) && pair_le(desc, b, c));
            assert(pair_le(desc, a, c));
        }
    }
    assert(vstd::relations::strongly_connected(leq)) by {
        assert forall|a: (char, usize), b: (char, usize)| #[trigger] leq(a, b) || #[trigger] leq(
            b,
            a,
        ) by {
            if !pair_le(desc, a, b) {
                assert(pair_le(desc, b, a));
            }
        }
    }
}

/// A symbol the profiler ranks: not the space, not an upper-case
/// letter.
pub open spec fn spec_kept(c: char) -> bool {
    c != ' ' && !spec_is_upper(c)
}

/// The per-symbol weight: letters weigh most, digits half, anything
/// else one.
pub open spec fn spec_score_char(c: char) -> int {
    if spec_is_lower(c) {
        4
    } else if spec_is_digit(c) {
        2
    } else {
        1
    }
}

/// The ranked symbols of a frequency table: sorted by descending
/// usage, space and upper-case letters dropped.
pub open spec fn spec_symbols_by_frequency(f: Seq<(char, usize)>) -> Seq<char> {
    f.sort_by(|a: (char, usize), b: (char, usize)| pair_le(true, a, b)).filter(
        |p: (char, usize)| spec_kept(p.0),
    ).map_values(|p: (char, usize)| p.0)
}

/// Whether row `j` is the last row of the key table for its symbol.
pub open spec fn is_last_occurrence(m: Seq<(char, Key)>, j: int) -> bool {
    forall|k: int| j < k < m.len() ==> m[k].0 != m[j].0
}

/// The (symbol, effort) pairs of the key table from row `j` on: one
/// pair per distinct ranked symbol, with the effort its lookup
/// resolves to.
pub open spec fn spec_effort_entries(m: Seq<(char, Key)>, j: int) -> Seq<(char, usize)>
    decreases m.len() - j,
{
    if j < 0 || j >= m.len() {
        Seq::empty()
    } else {
        let rest = spec_effort_entries(m, j + 1);
        if is_last_occurrence(m, j) && spec_kept(m[j].0) {
            seq![(m[j].0, m[j].1.effort)] + rest
        } else {
            rest
        }
    }
}

/// The ranked symbols of a keyboard with their efforts, cheapest
/// first.
pub open spec fn spec_symbols_by_effort(m: Seq<(char, Key)>) -> Seq<(char, usize)> {
    spec_effort_entries(m, 0).sort_by(|a: (char, usize), b: (char, usize)| pair_le(false, a, b))
}

/// The symbols of `efforts` that cost exactly what entry `i` costs.
pub open spec fn spec_band(efforts: Seq<(char, usize)>, i: int) -> Seq<char> {
    if 0 <= i < efforts.len() {
        efforts.filter(|p: (char, usize)| p.1 == efforts[i].1).map_values(
            |p: (char, usize)| p.0,
        )
    } else {
        Seq::empty()
    }
}

/// The sum of the weights of all ranked symbols.
pub open spec fn spec_total_score(symbols: Seq<char>, i: int) -> int
    decreases symbols.len() - i,
{
    if i < 0 || i >= symbols.len() {
        0
    } else {
        spec_score_char(symbols[i]) + spec_total_score(symbols, i + 1)
    }
}

/// The achieved score: each frequency rank whose symbol falls in the
/// effort band spanning the same rank earns that symbol's weight.
pub open spec fn spec_band_score(
    symbols: Seq<char>,
    efforts: Seq<(char, usize)>,
    i: int,
) -> int
    decreases symbols.len() - i,
{
    if i < 0 || i >= symbols.len() {
        0
    } else {
        let here: int = if spec_band(efforts, i).contains(symbols[i]) {
            spec_score_char(symbols[i])
        } else {
            0
        };
        here + spec_band_score(symbols, efforts, i + 1)
    }
}

/// The fitness of a keyboard in thousandths: 3.000 times the achieved
/// share of the best possible score, or zero when no symbol is ranked.
pub open spec fn spec_fitness_milli(f: Seq<(char, usize)>, m: Seq<(char, Key)>) -> int {
    let symbols = spec_symbols_by_frequency(f);
    let efforts = spec_symbols_by_effort(m);
    let max = spec_total_score(symbols, 0);
    if max == 0 {
        0
    } else {
        3000 * spec_band_score(symbols, efforts, 0) / max
    }
}

/// The exec form of the pair order.
fn pair_le_exec(desc: bool, a: (char, usize), b: (char, usize)) -> (r: bool)
    ensures
        r == pair_le(desc, a, b),
{
    if desc {
        a.1 > b.1 || (a.1 == b.1 && a.0 as u32 <= b.0 as u32)
    } else {
        a.1 < b.1 || (a.1 == b.1 && a.0 as u32 <= b.0 as u32)
    }
}

/// Sorts symbol pairs by the chosen order (selection sort, proved
/// equal to the mathematical sort).
fn sort_pairs(v: &Vec<(char, usize)>, desc: bool) -> (r: Vec<(char, usize)>)
    ensures
        r@ == v@.sort_by(|a: (char, usize), b: (char, usize)| pair_le(desc, a, b)),
{
    let ghost leq = |a: (char, usize), b: (char, usize)| pair_le(desc, a, b);
    proof {
        lemma_pair_le_total(desc);
        broadcast use vstd::seq_lib::group_to_multiset_ensures;
        broadcast use vstd::multiset::group_multiset_axioms;

    }
    let mut work: Vec<(char, usize)> = Vec::new();
    let n: usize = v.len();
    for i in 0..n
        invariant
            n == v@.len(),
            work@ == v@.take(i as int),
    {
        work.push(v[i]);
        assert(work@ =~= v@.take(i + 1));
    }
    assert(work@ =~= v@);

    let mut r: Vec<(char, usize)> = Vec::new();
    while work.len() > 0
        invariant
            sorted_by(r@, leq),
            leq == (|a: (char, usize), b: (char, usize)| pair_le(desc, a, b)),
            forall|x: int, y: int|
                0 <= x < r@.len() && 0 <= y < work@.len() ==> leq(r@[x], work@[y]),
            r@.to_multiset().add(work@.to_multiset()) == v@.to_multiset(),
        decreases work@.len(),
    {
        proof {
            broadcast use vstd::seq_lib::group_to_multiset_ensures;
            broadcast use vstd::multiset::group_multiset_axioms;

        }
        let mut min: usize = 0;
        let m: usize = work.len();
        for j in 1..m
            invariant
                m == work@.len(),
                min < m,
                leq == (|a: (char, usize), b: (char, usize)| pair_le(desc, a, b)),
                forall|k: int| 0 <= k < j ==> leq(work@[min as int], work@[k]),
        {
            if pair_le_exec(desc, work[j], work[min]) {
                let ghost old_min = min as int;
                min = j;
                assert forall|k: int| 0 <= k < j + 1 implies leq(work@[min as int], work@[k]) by {
                    if k < j {
                        assert(leq(work@[old_min], work@[k]));
                        assert(pair_le(desc, work@[j as int], work@[old_min]));
                    }
                }
            }
        }
        let ghost old_work = work@;
        let ghost old_r = r@;
        let elem = work.remove(min);
        r.push(elem);
        proof {
            assert(work@.to_multiset() =~= old_work.to_multiset().remove(elem));
            assert(r@.to_multiset() =~= old_r.to_multiset().insert(elem));
            assert(r@.to_multiset().add(work@.to_multiset()) =~= v@.to_multiset());
            assert forall|x: int, y: int|
                0 <= x < r@.len() && 0 <= y < work@.len() implies leq(r@[x], work@[y]) by {
                let oy: int = if y < min { y } else { y + 1 };
                assert(work@[y] == old_work[oy]);
                if x < old_r.len() {
                    assert(leq(old_r[x], old_work[oy]));
                } else {
                    assert(r@[x] == elem);
                    assert(leq(old_work[min as int], old_work[oy]));
                }
            }
            assert forall|x: int, y: int| 0 <= x < y < r@.len() implies leq(r@[x], r@[y]) by {
                if y < old_r.len() {
                    assert(sorted_by(old_r, leq));
                } else {
                    assert(r@[y] == elem);
                    if x < old_r.len() {
                        assert(leq(old_r[x], old_work[min as int]));
                    }
                }
            }
        }
    }
    proof {
        broadcast use vstd::seq_lib::group_to_multiset_ensures;

        assert(work@.to_multiset() =~= Seq::<(char, usize)>::empty().to_multiset());
        assert(r@.to_multiset() =~= v@.to_multiset()) by {
            broadcast use vstd::multiset::group_multiset_axioms;

            assert(work@ =~= Seq::<(char, usize)>::empty());
        }
        v@.lemma_sort_by_ensures(leq);
        lemma_sorted_unique(r@, v@.sort_by(leq), leq);
    }
    r
}

/// The per-symbol weight of a ranked symbol.
pub fn score_for(symbol: &String) -> (score: usize)
    requires
        symbol@.len() > 0,
    ensures
        score == spec_score_char(symbol@[0]),
{
    let chars = crate::chars::to_char_vec(symbol.as_str());
    let u: u32 = chars[0] as u32;
    if 97 <= u && u <= 122 {
        4
    } else if 48 <= u && u <= 57 {
        2
    } else {
        1
    }
}

/// The best score a layout could reach: every ranked symbol's weight.
pub fn total_possible_score(symbols: &Vec<String>) -> (total: usize)
    requires
        forall|j: int| 0 <= j < symbols@.len() ==> (#[trigger] symbols@[j])@.len() > 0,
        symbols@.len() <= 1000000,
    ensures
        total == spec_total_score(
            symbols@.map_values(|s: String| s@[0]),
            0,
        ),
{
    let ghost cs = symbols@.map_values(|s: String| s@[0]);
    let ghost full = spec_total_score(cs, 0);
    proof {
        lemma_total_score_bound(cs, 0);
    }
    let mut total: usize = 0;
    let n: usize = symbols.len();
    for i in 0..n
        invariant
            n == symbols@.len() && n <= 1000000,
            cs == symbols@.map_values(|s: String| s@[0]),
            forall|j: int| 0 <= j < symbols@.len() ==> (#[trigger] symbols@[j])@.len() > 0,
            full == spec_total_score(cs, 0),
            total + spec_total_score(cs, i as int) == full,
            total <= 4 * i,
    {
        assert(cs[i as int] == symbols@[i as int]@[0]);
        total = total + score_for(&symbols[i]);
        proof {
            lemma_total_score_bound(cs, i + 1);
        }
    }
    total
}

/// Partial sums of weights are between zero and four per symbol.
proof fn lemma_total_score_bound(symbols: Seq<char>, i: int)
    ensures
        0 <= spec_total_score(symbols, i),
        i <= symbols.len() ==> spec_total_score(symbols, i) <= 4 * (symbols.len() - i),
    decreases symbols.len() - i,
{
    if 0 <= i < symbols.len() {
        lemma_total_score_bound(symbols, i + 1);
    }
}

/// The ranked symbols of a frequency table, most used first, as
/// one-character strings.
pub fn symbols_by_frequency(frequencies: &SymbolFrequencies) -> (symbols: Vec<String>)
    ensures
        symbols@.len() == spec_symbols_by_frequency(frequencies@).len(),
        forall|j: int|
            0 <= j < symbols@.len() ==> (#[trigger] symbols@[j])@ == seq![
                spec_symbols_by_frequency(frequencies@)[j],
            ],
{
    let sorted = sort_pairs(frequencies, true);
    let ghost sv = sorted@;
    let ghost target = sv.filter(|p: (char, usize)| spec_kept(p.0)).map_values(
        |p: (char, usize)| p.0,
    );
    let mut symbols: Vec<String> = Vec::new();
    let n: usize = sorted.len();
    assert(sv.take(0) =~= Seq::<(char, usize)>::empty());
    for i in 0..n
        invariant
            n == sv.len(),
            sv == sorted@,
            symbols@.len() == sv.take(i as int).filter(|p: (char, usize)| spec_kept(p.0)).len(),
            forall|j: int|
                0 <= j < symbols@.len() ==> (#[trigger] symbols@[j])@ == seq![
                    sv.take(i as int).filter(|p: (char, usize)| spec_kept(p.0)).map_values(
                        |p: (char, usize)| p.0,
                    )[j],
                ],
    {
        let c = sorted[i].0;
        proof {
            reveal(Seq::filter);
            assert(sv.take(i + 1).drop_last() =~= sv.take(i as int));
            assert(sv.take(i + 1).last() == sv[i as int]);
        }
        if c != ' ' && !is_upper_char(c) {
            symbols.push(char_string(c));
        }
    }
    assert(sv.take(n as int) =~= sv);
    symbols
}

/// A one-character string.
fn char_string(c: char) -> (s: String)
    ensures
        s@ == seq![c],
{
    let mut s = String::new();
    crate::chars::push_char(&mut s, c);
    assert(s@ =~= seq![c]);
    s
}

/// A row that is the last of its symbol resolves the symbol's lookup.
proof fn lemma_lookup_last(m: Seq<(char, Key)>, j: int)
    requires
        0 <= j < m.len(),
        is_last_occurrence(m, j),
    ensures
        spec_lookup(m, m[j].0) == Some(m[j].1),
    decreases m.len(),
{
    if j == m.len() - 1 {
    } else {
        assert(m.drop_last()[j] == m[j]);
        lemma_lookup_last(m.drop_last(), j);
    }
}

/// The ranked symbols of a keyboard with the effort their key costs,
/// cheapest first, as one-character strings.
pub fn symbols_by_effort(keyboard: &Keyboard) -> (sorted: Vec<(String, usize)>)
    ensures
        sorted@.len() == spec_symbols_by_effort(keyboard.key_map@).len(),
        forall|j: int|
            0 <= j < sorted@.len() ==> (#[trigger] sorted@[j]).0@ == seq![
                spec_symbols_by_effort(keyboard.key_map@)[j].0,
            ] && sorted@[j].1 == spec_symbols_by_effort(keyboard.key_map@)[j].1,
{
    let ghost m = keyboard.key_map@;
    let ghost entries = spec_effort_entries(m, 0);
    let mut pairs: Vec<(char, usize)> = Vec::new();
    let n: usize = keyboard.key_map.len();
    for j in 0..n
        invariant
            n == m.len(),
            m == keyboard.key_map@,
            pairs@ + spec_effort_entries(m, j as int) =~= entries,
            entries == spec_effort_entries(m, 0),
    {
        let row = &keyboard.key_map[j];
        let c = row.0;
        let mut last = true;
        let mut k: usize = j + 1;
        while k < n
            invariant
                j < k <= n,
                n == m.len(),
                m == keyboard.key_map@,
                last == (forall|t: int| j < t < k ==> m[t].0 != m[j as int].0),
            decreases n - k,
        {
            if keyboard.key_map[k].0 == c {
                last = false;
                assert(m[k as int].0 == m[j as int].0);
            }
            k = k + 1;
        }
        if last && c != ' ' && !is_upper_char(c) {
            pairs.push((c, row.1.effort));
            assert(pairs@ + spec_effort_entries(m, j + 1) =~= entries);
        } else {
            assert(pairs@ + spec_effort_entries(m, j + 1) =~= entries);
        }
    }
    assert(pairs@ =~= entries);
    let sorted_pairs = sort_pairs(&pairs, false);
    let ghost target = spec_symbols_by_effort(m);
    let mut sorted: Vec<(String, usize)> = Vec::new();
    let t: usize = sorted_pairs.len();
    for i in 0..t
        invariant
            t == sorted_pairs@.len(),
            sorted_pairs@ == target,
            sorted@.len() == i,
            forall|j: int|
                0 <= j < i ==> (#[trigger] sorted@[j]).0@ == seq![target[j].0] && sorted@[j].1
                    == target[j].1,
    {
        let c = sorted_pairs[i].0;
        sorted.push((char_string(c), sorted_pairs[i].1));
    }
    sorted
}

/// The symbols that cost exactly what entry `index` costs; empty when
/// the index is out of range.
pub fn symbols_in_band(symbols_with_efforts: &Vec<(String, usize)>, index: usize) -> (band: Vec<
    String,
>)
    requires
        forall|j: int|
            0 <= j < symbols_with_efforts@.len() ==> (#[trigger] symbols_with_efforts@[j]).0@.len()
                > 0,
    ensures
        ({
            let pv = symbols_with_efforts@.map_values(|p: (String, usize)| (p.0@[0], p.1));
            band@.len() == spec_band(pv, index as int).len() && (forall|j: int|
                0 <= j < band@.len() ==> (#[trigger] band@[j])@ == seq![
                    spec_band(pv, index as int)[j],
                ])
        }),
{
    let ghost pv = symbols_with_efforts@.map_values(|p: (String, usize)| (p.0@[0], p.1));
    let mut band: Vec<String> = Vec::new();
    let n: usize = symbols_with_efforts.len();
    if index >= n {
        return band;
    }
    let target_effort = symbols_with_efforts[index].1;
    assert(pv[index as int].1 == target_effort);
    assert(pv.take(0) =~= Seq::<(char, usize)>::empty());
    for j in 0..n
        invariant
            n == symbols_with_efforts@.len(),
            pv == symbols_with_efforts@.map_values(|p: (String, usize)| (p.0@[0], p.1)),
            forall|k: int|
                0 <= k < symbols_with_efforts@.len() ==> (#[trigger] symbols_with_efforts@[k])
                    .0@.len() > 0,
            index < n,
            target_effort == pv[index as int].1,
            band@.len() == pv.take(j as int).filter(
                |p: (char, usize)| p.1 == pv[index as int].1,
            ).len(),
            forall|k: int|
                0 <= k < band@.len() ==> (#[trigger] band@[k])@ == seq![
                    pv.take(j as int).filter(|p: (char, usize)| p.1 == pv[index as int].1)
                        .map_values(|p: (char, usize)| p.0)[k],
                ],
    {
        proof {
            reveal(Seq::filter);
            assert(pv.take(j + 1).drop_last() =~= pv.take(j as int));
            assert(pv.take(j + 1).last() == pv[j as int]);
            assert(pv[j as int].0 == symbols_with_efforts@[j as int].0@[0]);
        }
        if symbols_with_efforts[j].1 == target_effort {
            let chars = crate::chars::to_char_vec(symbols_with_efforts[j].0.as_str());
            band.push(char_string(chars[0]));
        }
    }
    assert(pv.take(n as int) =~= pv);
    band
}

/// Scores how well the keyboard places frequent symbols on cheap keys:
/// the weighted share of frequency ranks that fall inside the effort
/// band spanning the same rank, scaled to thousandths of 3.0.
pub fn calculate_fitness(keyboard: &Keyboard, frequencies: &SymbolFrequencies) -> (fitness: u64)
    requires
        frequencies@.len() <= 1000000,
    ensures
        fitness == spec_fitness_milli(frequencies@, keyboard.key_map@),
        fitness <= 3000,
{
    let ghost fsym = spec_symbols_by_frequency(frequencies@);
    let ghost eff = spec_symbols_by_effort(keyboard.key_map@);
    let symbols = symbols_by_frequency(frequencies);
    let efforts = symbols_by_effort(keyboard);
    proof {
        lemma_pair_le_total(true);
        broadcast use vstd::seq_lib::group_to_multiset_ensures;

        let leq = |a: (char, usize), b: (char, usize)| pair_le(true, a, b);
        frequencies@.lemma_sort_by_ensures(leq);
        assert(frequencies@.sort_by(leq).to_multiset() =~= frequencies@.to_multiset());
        assert(frequencies@.sort_by(leq).len() == frequencies@.sort_by(leq).to_multiset().len());
        assert(frequencies@.len() == frequencies@.to_multiset().len());
        assert(frequencies@.sort_by(leq).len() == frequencies@.len());
        lemma_filter_len_le(frequencies@.sort_by(leq), |p: (char, usize)| spec_kept(p.0));
        assert(fsym.len() <= frequencies@.len());
    }
    let max_score = total_possible_score(&symbols);
    assert(symbols@.map_values(|s: String| s@[0]) =~= fsym);

    let ghost pv = efforts@.map_values(|p: (String, usize)| (p.0@[0], p.1));
    assert(pv =~= eff);

    let mut score: usize = 0;
    let n: usize = symbols.len();
    proof {
        lemma_band_score_bound(fsym, eff, 0);
    }
    for i in 0..n
        invariant
            n == symbols@.len() && n == fsym.len() && n <= 4000000,
            fsym == spec_symbols_by_frequency(frequencies@),
            eff == spec_symbols_by_effort(keyboard.key_map@),
            forall|j: int|
                0 <= j < symbols@.len() ==> (#[trigger] symbols@[j])@ == seq![fsym[j]],
            efforts@.len() == eff.len(),
            forall|j: int|
                0 <= j < efforts@.len() ==> (#[trigger] efforts@[j]).0@ == seq![eff[j].0]
                    && efforts@[j].1 == eff[j].1,
            pv == efforts@.map_values(|p: (String, usize)| (p.0@[0], p.1)),
            pv == eff,
            score + spec_band_score(fsym, eff, i as int) == spec_band_score(fsym, eff, 0),
            score <= 4 * i,
    {
        let band = symbols_in_band(&efforts, i);
        let symbol = &symbols[i];
        assert(symbol@ == seq![fsym[i as int]]);
        let mut fits = false;
        let b: usize = band.len();
        let ghost bandv = spec_band(pv, i as int);
        for k in 0..b
            invariant
                b == band@.len() && b == bandv.len(),
                bandv == spec_band(pv, i as int),
                forall|j: int| 0 <= j < band@.len() ==> (#[trigger] band@[j])@ == seq![bandv[j]],
                symbol@ == seq![fsym[i as int]],
                fits == (exists|j: int| 0 <= j < k && bandv[j] == fsym[i as int]),
        {
            if band[k].eq(symbol) {
                assert(bandv[k as int] == fsym[i as int]);
                fits = true;
            }
        }
        proof {
            if fits {
                let j = choose|j: int| 0 <= j < bandv.len() && bandv[j] == fsym[i as int];
                assert(bandv.contains(fsym[i as int]));
            } else {
                if bandv.contains(fsym[i as int]) {
                    let j = choose|j: int|
                        0 <= j < bandv.len() && bandv[j] == fsym[i as int];
                }
            }
            assert(fits == spec_band(eff, i as int).contains(fsym[i as int]));
            lemma_band_score_bound(fsym, eff, i + 1);
        }
        if fits {
            score = score + score_for(symbol);
        }
        assert(score + spec_band_score(fsym, eff, i + 1) == spec_band_score(fsym, eff, 0));
    }
    assert(score == spec_band_score(fsym, eff, 0));
    proof {
        lemma_band_score_le_total(fsym, eff, 0);
        lemma_total_score_bound(fsym, 0);
    }
    if max_score == 0 {
        0
    } else {
        let fitness: u64 = (3000 * (score as u64)) / (max_score as u64);
        proof {
            lemma_div_bound(score as int, max_score as int);
        }
        fitness
    }
}

/// A filtered sequence is no longer than its source.
proof fn lemma_filter_len_le<A>(s: Seq<A>, pred: spec_fn(A) -> bool)
    ensures
        s.filter(pred).len() <= s.len(),
    decreases s.len(),
{
    reveal(Seq::filter);
    if s.len() > 0 {
        lemma_filter_len_le(s.drop_last(), pred);
    }
}

/// Partial band scores are between zero and four per rank.
proof fn lemma_band_score_bound(symbols: Seq<char>, efforts: Seq<(char, usize)>, i: int)
    ensures
        0 <= spec_band_score(symbols, efforts, i),
        i <= symbols.len() ==> spec_band_score(symbols, efforts, i) <= 4 * (symbols.len() - i),
    decreases symbols.len() - i,
{
    if 0 <= i < symbols.len() {
        lemma_band_score_bound(symbols, efforts, i + 1);
    }
}

/// The achieved score never exceeds the total possible score.
proof fn lemma_band_score_le_total(symbols: Seq<char>, efforts: Seq<(char, usize)>, i: int)
    ensures
        spec_band_score(symbols, efforts, i) <= spec_total_score(symbols, i),
    decreases symbols.len() - i,
{
    if 0 <= i < symbols.len() {
        lemma_band_score_le_total(symbols, efforts, i + 1);
    }
}

/// A non-negative share of a positive total, scaled by 3000, stays at
/// or below 3000.
proof fn lemma_div_bound(score: int, max: int)
    requires
        0 <= score <= max,
        0 < max,
    ensures
        0 <= 3000 * score / max <= 3000,
{
    assert(3000 * score <= 3000 * max) by (nonlinear_arith)
        requires
            0 <= score <= max,
    ;
    assert(3000 * score / max <= 3000 * max / max) by (nonlinear_arith)
        requires
            0 <= 3000 * score <= 3000 * max,
            0 < max,
    ;
    assert(3000 * max / max == 3000) by (nonlinear_arith)
        requires
            0 < max,
    ;
}

} // verus!
