//! Small executable helpers over `char` and `String` that the rest of the
//! crate shares: classification of ASCII characters, and conversions
//! between `&str`, `String` and `Vec<char>`.
use vstd::prelude::*;
use vstd::string::StrSliceExecFns;

verus! {

/// Whitespace as far as the template grammar is concerned.
pub open spec fn is_ws(c: char) -> bool {
    c == ' ' || c == '\n' || c == '\t' || c == '\r'
}

pub open spec fn spec_is_lower(c: char) -> bool {
    97 <= c as u32 <= 122
}

pub open spec fn spec_is_upper(c: char) -> bool {
    65 <= c as u32 <= 90
}

pub open spec fn spec_is_letter(c: char) -> bool {
    spec_is_lower(c) || spec_is_upper(c)
}

pub open spec fn spec_is_digit(c: char) -> bool {
    48 <= c as u32 <= 57
}

/// ASCII punctuation: the printable ASCII range without letters, digits
/// and the space.
pub open spec fn spec_is_punct(c: char) -> bool {
    33 <= c as u32 <= 126 && !spec_is_letter(c) && !spec_is_digit(c)
}

/// An ASCII lower-case letter mapped to its upper-case form; anything
/// else kept as it is.
pub open spec fn spec_upper(c: char) -> char {
    if spec_is_lower(c) {
        ((c as u32 - 32) as u8) as char
    } else {
        c
    }
}

pub fn is_whitespace_char(c: char) -> (r: bool)
    ensures
        r == is_ws(c),
{
    c == ' ' || c == '\n' || c == '\t' || c == '\r'
}

pub fn is_letter_char(c: char) -> (r: bool)
    ensures
        r == spec_is_letter(c),
{
    let u: u32 = c as u32;
    (65 <= u && u <= 90) || (97 <= u && u <= 122)
}

pub fn is_digit_char(c: char) -> (r: bool)
    ensures
        r == spec_is_digit(c),
{
    let u: u32 = c as u32;
    48 <= u && u <= 57
}

pub fn is_punct_char(c: char) -> (r: bool)
    ensures
        r == spec_is_punct(c),
{
    let u: u32 = c as u32;
    33 <= u && u <= 126 && !is_letter_char(c) && !is_digit_char(c)
}

pub fn is_upper_char(c: char) -> (r: bool)
    ensures
        r == spec_is_upper(c),
{
    let u: u32 = c as u32;
    65 <= u && u <= 90
}

pub fn upper_char(c: char) -> (r: char)
    ensures
        r == spec_upper(c),
{
    let u: u32 = c as u32;
    if 97 <= u && u <= 122 {
        ((u - 32) as u8) as char
    } else {
        c
    }
}

/// Relies on std's `String::push`: appends the given character to the
/// end of the string.
#[verifier::external_body]
pub(crate) fn push_char(s: &mut String, c: char)
    ensures
        final(s)@ == old(s)@.push(c),
{
    s.push(c)
}

/// The characters of a string slice collected into a vector.
pub fn to_char_vec(s: &str) -> (v: Vec<char>)
    ensures
        v@ == s@,
{
    let n: usize = s.unicode_len();
    let mut v: Vec<char> = Vec::new();
    for i in 0..n
        invariant
            n == s@.len(),
            v@ == s@.take(i as int),
    {
        v.push(s.get_char(i));
        assert(v@ =~= s@.take(i + 1));
    }
    assert(v@ =~= s@);
    v
}

/// The numeric value of a digit string, most significant digit first.
pub open spec fn spec_digits_to_value(t: Seq<char>) -> int
    decreases t.len(),
{
    if t.len() == 0 {
        0
    } else {
        spec_digits_to_value(t.drop_last()) * 10 + (t.last() as u32 - 48)
    }
}

/// The decimal form of `n`: digits only, no leading zero (except for
/// zero itself), reading back to `n`.  These three facts determine the
/// string uniquely.
pub open spec fn spec_decimal(n: int, s: Seq<char>) -> bool {
    &&& s.len() > 0
    &&& (forall|k: int| 0 <= k < s.len() ==> spec_is_digit(s[k]))
    &&& (s.len() > 1 ==> s[0] != '0')
    &&& spec_digits_to_value(s) == n
}

/// Writes `n` in decimal.
pub fn decimal_string(n: u64) -> (s: String)
    ensures
        spec_decimal(n as int, s@),
{
    let mut digits: Vec<char> = Vec::new();
    if n == 0 {
        digits.push('0');
        proof {
            assert('0' as u32 == 48);
            assert(spec_is_digit('0'));
            assert(digits@.drop_first() =~= Seq::<char>::empty());
            assert(spec_reversed_value(Seq::<char>::empty()) == 0);
            assert(digits@[0] == '0');
            assert(spec_reversed_value(digits@) == 0);
        }
    } else {
        let mut rest: u64 = n;
        // Least significant digit first.
        while rest > 0
            invariant
                forall|k: int| 0 <= k < digits@.len() ==> spec_is_digit(digits@[k]),
                spec_reversed_value(digits@) + rest * spec_pow10(digits@.len() as int) == n,
                rest == 0 ==> digits@.len() > 0 && digits@.last() != '0',
            decreases rest,
        {
            let d: u64 = rest % 10;
            let digit: char = ((48 + d) as u8) as char;
            let ghost old_digits = digits@;
            let ghost old_rest = rest;
            digits.push(digit);
            rest = rest / 10;
            proof {
                assert(spec_is_digit(digit)) by {
                    assert(48 <= digit as u32 <= 57);
                }
                assert(digit as u32 - 48 == d);
                lemma_reversed_value_push(old_digits, digit);
                assert(old_rest == rest * 10 + d);
                assert(spec_pow10(digits@.len() as int) == 10 * spec_pow10(
                    old_digits.len() as int,
                ));
                assert(spec_reversed_value(digits@) + rest * spec_pow10(digits@.len() as int)
                    == n) by (nonlinear_arith)
                    requires
                        spec_reversed_value(old_digits) + old_rest * spec_pow10(
                            old_digits.len() as int,
                        ) == n,
                        old_rest == rest * 10 + d,
                        spec_reversed_value(digits@) == spec_reversed_value(old_digits) + d
                            * spec_pow10(old_digits.len() as int),
                        spec_pow10(digits@.len() as int) == 10 * spec_pow10(
                            old_digits.len() as int,
                        ),
                ;
                if rest == 0 {
                    assert(d == old_rest);
                    assert(d >= 1);
                    assert(digits@.last() == digit);
                    assert(digit as u32 == 48 + d);
                    assert(digit != '0') by {
                        assert('0' as u32 == 48);
                    }
                }
            }
        }
        proof {
            lemma_pow10_bounds(digits@.len() as int);
        }
    }
    let mut s = String::new();
    let mut i: usize = digits.len();
    assert(digits@.skip(i as int).reverse() =~= Seq::<char>::empty());
    while i > 0
        invariant
            i <= digits@.len(),
            forall|k: int| 0 <= k < digits@.len() ==> spec_is_digit(digits@[k]),
            s@ =~= digits@.skip(i as int).reverse(),
        decreases i,
    {
        i = i - 1;
        push_char(&mut s, digits[i]);
        assert(s@ =~= digits@.skip(i as int).reverse()) by {
            assert(digits@.skip(i as int).reverse() =~= digits@.skip(i + 1).reverse().push(
                digits@[i as int],
            ));
        }
    }
    proof {
        assert(s@ =~= digits@.reverse());
        lemma_reversed_is_value(digits@);
        assert(spec_digits_to_value(s@) == spec_reversed_value(digits@));
        assert(s@.len() == digits@.len());
        assert forall|k: int| 0 <= k < s@.len() implies spec_is_digit(s@[k]) by {
            assert(s@[k] == digits@[s@.len() - 1 - k]);
        }
        if s@.len() > 1 {
            assert(s@[0] == digits@.last());
        }
    }
    s
}

/// The value of a digit string read least significant digit first.
pub open spec fn spec_reversed_value(t: Seq<char>) -> int
    decreases t.len(),
{
    if t.len() == 0 {
        0
    } else {
        (t[0] as u32 - 48) + 10 * spec_reversed_value(t.drop_first())
    }
}

/// Ten to the `k`.
pub open spec fn spec_pow10(k: int) -> int
    decreases k,
{
    if k <= 0 {
        1
    } else {
        10 * spec_pow10(k - 1)
    }
}

proof fn lemma_pow10_bounds(k: int)
    ensures
        spec_pow10(k) >= 1,
    decreases k,
{
    if k > 0 {
        lemma_pow10_bounds(k - 1);
    }
}

/// Appending a digit to the least-significant-first reading adds it at
/// the most significant place.
proof fn lemma_reversed_value_push(t: Seq<char>, c: char)
    ensures
        spec_reversed_value(t.push(c)) == spec_reversed_value(t) + (c as u32 - 48) * spec_pow10(
            t.len() as int,
        ),
    decreases t.len(),
{
    if t.len() == 0 {
        assert(t.push(c).drop_first() =~= Seq::<char>::empty());
        assert(t.push(c)[0] == c);
        assert(spec_reversed_value(Seq::<char>::empty()) == 0);
        assert(spec_pow10(0) == 1);
        assert(spec_reversed_value(t.push(c)) == (c as u32 - 48));
        assert(spec_reversed_value(t) == 0);
    } else {
        assert(t.push(c).drop_first() =~= t.drop_first().push(c));
        lemma_reversed_value_push(t.drop_first(), c);
        assert(t.push(c)[0] == t[0]);
        assert(spec_reversed_value(t.push(c)) == (t[0] as u32 - 48) + 10 * (
        spec_reversed_value(t.drop_first()) + (c as u32 - 48) * spec_pow10(
            t.drop_first().len() as int,
        )));
        assert(10 * ((c as u32 - 48) * spec_pow10(t.len() - 1)) == (c as u32 - 48) * spec_pow10(
            t.len() as int,
        )) by (nonlinear_arith)
            requires
                spec_pow10(t.len() as int) == 10 * spec_pow10(t.len() - 1),
        ;
    }
}

proof fn lemma_reversed_is_value(t: Seq<char>)
    ensures
        spec_digits_to_value(t.reverse()) == spec_reversed_value(t),
    decreases t.len(),
{
    if t.len() > 0 {
        lemma_reversed_is_value(t.drop_first());
        assert(t.reverse().drop_last() =~= t.drop_first().reverse());
        assert(t.reverse().last() == t[0]);
    }
}

/// A vector of characters collected into an owned string.
pub fn chars_to_string(v: &Vec<char>) -> (s: String)
    ensures
        s@ == v@,
{
    let mut s = String::new();
    let n: usize = v.len();
    for i in 0..n
        invariant
            n == v@.len(),
            s@ == v@.take(i as int),
    {
        push_char(&mut s, v[i]);
        assert(s@ =~= v@.take(i + 1));
    }
    assert(s@ =~= v@);
    s
}

} // verus!
