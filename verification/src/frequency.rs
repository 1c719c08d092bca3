//! Symbol usage frequencies of a corpus.
use vstd::prelude::*;
use vstd::string::StrSliceExecFns;
use crate::chars::to_char_vec;

verus! {

/// How often each symbol occurs, keyed by symbol, in first-occurrence
/// order.
pub type SymbolFrequencies = Vec<(char, usize)>;

/// The number of occurrences of `c` in `text`.
pub open spec fn spec_count(text: Seq<char>, c: char) -> int
    decreases text.len(),
{
    if text.len() == 0 {
        0
    } else {
        spec_count(text.drop_last(), c) + if text.last() == c {
            1int
        } else {
            0int
        }
    }
}

/// The number of occurrences of `c` in `chars`.
fn count_occurrences(chars: &Vec<char>, c: char) -> (count: usize)
    ensures
        count == spec_count(chars@, c),
{
    let mut count: usize = 0;
    let n: usize = chars.len();
    for i in 0..n
        invariant
            n == chars@.len(),
            count == spec_count(chars@.take(i as int), c),
            count <= i,
    {
        proof {
            assert(chars@.take(i + 1).drop_last() =~= chars@.take(i as int));
            assert(chars@.take(i + 1).last() == chars@[i as int]);
        }
        if chars[i] == c {
            count = count + 1;
        }
    }
    assert(chars@.take(n as int) =~= chars@);
    count
}

/// Whether `chars` holds `c`.
fn contains_char(chars: &Vec<char>, c: char) -> (r: bool)
    ensures
        r == chars@.contains(c),
{
    let n: usize = chars.len();
    for i in 0..n
        invariant
            n == chars@.len(),
            forall|k: int| 0 <= k < i ==> chars@[k] != c,
    {
        if chars[i] == c {
            assert(chars@[i as int] == c);
            return true;
        }
    }
    false
}

/// Counts how often each symbol occurs in the text.  The result holds
/// every symbol of the text exactly once, in order of first occurrence,
/// with its exact occurrence count.
pub fn calculate_frequencies(text: &String) -> (usage: SymbolFrequencies)
    ensures
        forall|j: int|
            0 <= j < usage@.len() ==> (#[trigger] usage@[j]).1 == spec_count(
                text@,
                usage@[j].0,
            ),
        forall|j: int, k: int| 0 <= j < k < usage@.len() ==> usage@[j].0 != usage@[k].0,
        forall|c: char| text@.contains(c) <==> exists|j: int|
            0 <= j < usage@.len() && (#[trigger] usage@[j]).0 == c,
        usage@.len() <= text@.len(),
{
    let chars = to_char_vec(text.as_str());
    let n: usize = chars.len();

    let mut uniques: Vec<char> = Vec::new();
    for i in 0..n
        invariant
            n == chars@.len(),
            forall|j: int, k: int| 0 <= j < k < uniques@.len() ==> uniques@[j] != uniques@[k],
            forall|c: char| uniques@.contains(c) <==> chars@.take(i as int).contains(c),
            uniques@.len() <= i,
    {
        let ghost snap = uniques@;
        if !contains_char(&uniques, chars[i]) {
            uniques.push(chars[i]);
            assert(uniques@.last() == chars@[i as int]);
            assert forall|c: char| snap.contains(c) implies uniques@.contains(c) by {
                let k = choose|k: int| 0 <= k < snap.len() && snap[k] == c;
                assert(uniques@[k] == c);
            }
        }
        assert forall|c: char| chars@.take(i + 1).contains(c) implies uniques@.contains(c) by {
            let k = choose|k: int| 0 <= k < i + 1 && #[trigger] chars@.take(i + 1)[k] == c;
            if k < i {
                assert(chars@.take(i as int)[k] == c);
                assert(snap.contains(c));
                if snap.len() < uniques@.len() {
                    let m = choose|m: int| 0 <= m < snap.len() && snap[m] == c;
                    assert(uniques@[m] == c);
                }
            } else {
                assert(chars@[i as int] == c);
                if snap.contains(c) {
                    let m = choose|m: int| 0 <= m < snap.len() && snap[m] == c;
                    assert(uniques@[m] == c);
                } else {
                    assert(uniques@.last() == c);
                }
            }
        }
        assert forall|c: char| uniques@.contains(c) implies chars@.take(i + 1).contains(c) by {
            if snap.contains(c) {
                assert(chars@.take(i as int).contains(c));
                let k = choose|k: int| 0 <= k < i && chars@.take(i as int)[k] == c;
                assert(chars@.take(i + 1)[k] == c);
            } else {
                assert(c == chars@[i as int]);
                assert(chars@.take(i + 1)[i as int] == c);
            }
        }
    }
    assert(chars@.take(n as int) =~= chars@);

    let mut usage: SymbolFrequencies = Vec::new();
    let m: usize = uniques.len();
    for j in 0..m
        invariant
            m == uniques@.len(),
            chars@ == text@,
            forall|a: int, b: int| 0 <= a < b < uniques@.len() ==> uniques@[a] != uniques@[b],
            forall|c: char| uniques@.contains(c) <==> chars@.contains(c),
            usage@.len() == j,
            forall|k: int| 0 <= k < j ==> (#[trigger] usage@[k]).0 == uniques@[k],
            forall|k: int|
                0 <= k < j ==> (#[trigger] usage@[k]).1 == spec_count(text@, usage@[k].0),
    {
        let c = uniques[j];
        let count = count_occurrences(&chars, c);
        usage.push((c, count));
    }
    assert forall|c: char| text@.contains(c) implies exists|j: int|
        0 <= j < usage@.len() && (#[trigger] usage@[j]).0 == c by {
        assert(uniques@.contains(c));
        let k = choose|k: int| 0 <= k < uniques@.len() && uniques@[k] == c;
        assert(usage@[k].0 == c);
    }
    assert forall|c: char|
        (exists|j: int| 0 <= j < usage@.len() && (#[trigger] usage@[j]).0 == c) implies text@
        .contains(c) by {
        let j = choose|j: int| 0 <= j < usage@.len() && usage@[j].0 == c;
        assert(uniques@[j] == c);
        assert(uniques@.contains(c));
    }
    usage
}

} // verus!
