//! Character-level string building used by every renderer.

use vstd::prelude::*;
use vstd::string::*;

verus! {

broadcast use vstd::string::group_string_axioms;

/// Appends one character to a string.
///
/// Wraps `String::push`; its contract claims that the string gains exactly
/// that character at its end.
#[verifier::external_body]
pub(crate) fn push_char(s: &mut String, c: char)
    ensures
        final(s)@ == old(s)@.push(c),
{
    s.push(c);
}

/// Appends a string slice.
pub fn push_str(s: &mut String, t: &str)
    ensures
        final(s)@ == old(s)@ + t@,
{
    s.append(t);
}

/// Whether two string slices hold the same characters.
pub fn str_eq(a: &str, b: &str) -> (same: bool)
    ensures
        same == (a@ == b@),
{
    let n = a.unicode_len();
    if n != b.unicode_len() {
        return false;
    }
    let mut i: usize = 0;
    while i < n
        invariant
            n == a@.len(),
            n == b@.len(),
            i <= n,
            forall|j: int| 0 <= j < i ==> a@[j] == b@[j],
        decreases n - i,
    {
        if a.get_char(i) != b.get_char(i) {
            return false;
        }
        i = i + 1;
    }
    assert(a@ =~= b@);
    true
}

/// The ASCII digit of a value below ten.
pub open spec fn digit_char(d: int) -> char {
    ((d + 48) as u8) as char
}

/// The decimal digits of a natural number, without leading zeros.
pub open spec fn dec(n: nat) -> Seq<char>
    decreases n,
{
    if n < 10 {
        seq![digit_char(n as int)]
    } else {
        dec(n / 10).push(digit_char((n % 10) as int))
    }
}

/// `k` copies of the character `c`.
pub open spec fn repeat(c: char, k: nat) -> Seq<char> {
    Seq::new(k, |i: int| c)
}

/// Right-aligns `s` in a field of `width` characters filled with `fill`.
pub open spec fn align_right(s: Seq<char>, width: nat, fill: char) -> Seq<char> {
    if s.len() >= width {
        s
    } else {
        repeat(fill, (width - s.len()) as nat) + s
    }
}

/// A decimal number right-aligned with spaces, as `{:>width}` formats it.
pub open spec fn dec_width(n: nat, width: nat) -> Seq<char> {
    align_right(dec(n), width, ' ')
}

/// A decimal number left-padded with zeros, as `{:0width}` formats it.
pub open spec fn dec_zeros(n: nat, width: nat) -> Seq<char> {
    align_right(dec(n), width, '0')
}

proof fn lemma_dec_len_positive(n: nat)
    ensures
        dec(n).len() >= 1,
    decreases n,
{
    if n >= 10 {
        lemma_dec_len_positive(n / 10);
    }
}

proof fn lemma_digit_char_value(d: int)
    requires
        0 <= d < 10,
    ensures
        digit_char(d) as u32 == d + 48,
{
}

/// Different numbers have different decimal digits.
pub proof fn lemma_dec_injective(a: nat, b: nat)
    requires
        dec(a) == dec(b),
    ensures
        a == b,
    decreases a,
{
    lemma_dec_len_positive(a);
    lemma_dec_len_positive(b);
    if a >= 10 {
        lemma_dec_len_positive(a / 10);
    }
    if b >= 10 {
        lemma_dec_len_positive(b / 10);
    }
    if a < 10 && b < 10 {
        assert(dec(a) == seq![digit_char(a as int)]);
        assert(dec(b) == seq![digit_char(b as int)]);
        assert(seq![digit_char(a as int)][0] == digit_char(a as int));
        assert(seq![digit_char(b as int)][0] == digit_char(b as int));
        assert(dec(a)[0] == dec(b)[0]);
        lemma_digit_char_value(a as int);
        lemma_digit_char_value(b as int);
        assert(digit_char(a as int) == digit_char(b as int));
        assert(a == b);
    } else if a >= 10 && b >= 10 {
        assert(dec(a) == dec(a / 10).push(digit_char((a % 10) as int)));
        assert(dec(b) == dec(b / 10).push(digit_char((b % 10) as int)));
        assert(dec(a).last() == digit_char((a % 10) as int));
        assert(dec(b).last() == digit_char((b % 10) as int));
        assert(dec(a).last() == dec(b).last());
        lemma_digit_char_value((a % 10) as int);
        lemma_digit_char_value((b % 10) as int);
        assert(a % 10 == b % 10);
        assert(dec(a / 10) =~= dec(a).drop_last());
        assert(dec(b / 10) =~= dec(b).drop_last());
        lemma_dec_injective(a / 10, b / 10);
        assert(a == 10 * (a / 10) + a % 10);
        assert(b == 10 * (b / 10) + b % 10);
    } else {
        assert(dec(a).len() != dec(b).len());
    }
}

/// Ten to the power `k`.
pub open spec fn pow10(k: nat) -> nat
    decreases k,
{
    if k == 0 {
        1
    } else {
        10 * pow10((k - 1) as nat)
    }
}

proof fn lemma_dec_len_bound(n: nat, d: nat)
    requires
        d >= 1,
        n < pow10(d),
    ensures
        dec(n).len() <= d,
    decreases n,
{
    if n >= 10 {
        assert(d >= 2) by {
            if d == 1 {
                assert(pow10(1) == 10) by { reveal_with_fuel(pow10, 2); }
            }
        }
        assert(n / 10 < pow10((d - 1) as nat));
        lemma_dec_len_bound(n / 10, (d - 1) as nat);
    }
}

/// Appends the decimal digits of `n`.
pub fn push_decimal(s: &mut String, n: u64)
    ensures
        final(s)@ == old(s)@ + dec(n as nat),
    decreases n,
{
    if n >= 10 {
        push_decimal(s, n / 10);
    }
    let d: u8 = (n % 10) as u8;
    push_char(s, (d + 48) as char);
    assert(final(s)@ =~= old(s)@ + dec(n as nat));
}

/// The number of decimal digits of `n`.
pub fn decimal_len(n: u64) -> (k: usize)
    ensures
        k == dec(n as nat).len(),
        1 <= k <= 20,
    decreases n,
{
    if n >= 10 {
        let k = decimal_len(n / 10);
        proof {
            assert(pow10(20) == 100000000000000000000) by { reveal_with_fuel(pow10, 21); }
            lemma_dec_len_bound(n as nat, 20);
        }
        k + 1
    } else {
        1
    }
}

/// Appends `k` copies of `c`.
pub fn push_repeat(s: &mut String, c: char, k: usize)
    ensures
        final(s)@ == old(s)@ + repeat(c, k as nat),
{
    let ghost start = s@;
    for i in 0..k
        invariant
            s@ == start + repeat(c, i as nat),
    {
        push_char(s, c);
        assert(s@ =~= start + repeat(c, (i + 1) as nat));
    }
}

/// Appends `n` right-aligned with `fill` in a field of `width` characters.
pub fn push_aligned(s: &mut String, n: u64, width: usize, fill: char)
    ensures
        final(s)@ == old(s)@ + align_right(dec(n as nat), width as nat, fill),
{
    let k = decimal_len(n);
    if k < width {
        push_repeat(s, fill, width - k);
    }
    push_decimal(s, n);
    assert(final(s)@ =~= old(s)@ + align_right(dec(n as nat), width as nat, fill));
}

/// `n` in decimal, right-aligned with spaces in `width` characters.
pub fn decimal_width(n: u64, width: usize) -> (s: String)
    ensures
        s@ == dec_width(n as nat, width as nat),
{
    let mut s = String::new();
    push_aligned(&mut s, n, width, ' ');
    assert(s@ =~= dec_width(n as nat, width as nat));
    s
}


/// Appends the decimal digits of a wide number.
pub fn push_decimal_wide(s: &mut String, n: u128)
    ensures
        final(s)@ == old(s)@ + dec(n as nat),
    decreases n,
{
    if n >= 10 {
        push_decimal_wide(s, n / 10);
    }
    let d: u8 = (n % 10) as u8;
    push_char(s, (d + 48) as char);
    assert(final(s)@ =~= old(s)@ + dec(n as nat));
}

/// The number of decimal digits of a wide number.
pub fn decimal_len_wide(n: u128) -> (k: usize)
    ensures
        k == dec(n as nat).len(),
        1 <= k <= 39,
    decreases n,
{
    if n >= 10 {
        let k = decimal_len_wide(n / 10);
        proof {
            assert(pow10(39) == 1000000000000000000000000000000000000000) by {
                reveal_with_fuel(pow10, 40);
            }
            lemma_dec_len_bound(n as nat, 39);
        }
        k + 1
    } else {
        1
    }
}

/// Appends a wide number right-aligned with `fill` in `width` characters.
pub fn push_aligned_wide(s: &mut String, n: u128, width: usize, fill: char)
    ensures
        final(s)@ == old(s)@ + align_right(dec(n as nat), width as nat, fill),
{
    let k = decimal_len_wide(n);
    if k < width {
        push_repeat(s, fill, width - k);
    }
    push_decimal_wide(s, n);
    assert(final(s)@ =~= old(s)@ + align_right(dec(n as nat), width as nat, fill));
}


/// Whether a string holds a character.
pub fn contains_char(s: &str, c: char) -> (found: bool)
    ensures
        found == s@.contains(c),
{
    let n = s.unicode_len();
    let mut i: usize = 0;
    while i < n
        invariant
            n == s@.len(),
            i <= n,
            forall|j: int| 0 <= j < i ==> s@[j] != c,
        decreases n - i,
    {
        if s.get_char(i) == c {
            assert(s@[i as int] == c);
            return true;
        }
        i = i + 1;
    }
    false
}


/// The decimal text of a signed number.
pub open spec fn signed_dec(n: int) -> Seq<char> {
    if n < 0 {
        seq!['-'] + dec((-n) as nat)
    } else {
        dec(n as nat)
    }
}

/// Appends the decimal text of a signed number.
pub fn push_signed(s: &mut String, n: i64)
    ensures
        final(s)@ == old(s)@ + signed_dec(n as int),
{
    if n < 0 {
        push_char(s, '-');
        let magnitude: u64 = if n == i64::MIN {
            9_223_372_036_854_775_808
        } else {
            (-n) as u64
        };
        push_decimal(s, magnitude);
    } else {
        push_decimal(s, n as u64);
    }
    assert(final(s)@ =~= old(s)@ + signed_dec(n as int));
}

} // verus!
