//! Human-readable durations.

use vstd::prelude::*;

use crate::color::{cyan, green, orange, red, yellow, Rgb8};
use crate::text::{dec_width, push_aligned, push_str};

verus! {

/// The text of a duration in whole seconds: the two largest units that fit,
/// each right-aligned in two columns, or a ceiling at ten years.
pub open spec fn duration_text(seconds: nat) -> Seq<char> {
    if seconds < 60 {
        dec_width(seconds, 6) + " s  "@
    } else if seconds < 3_600 {
        dec_width(seconds / 60, 2) + " m "@ + dec_width(seconds % 60, 2) + " s"@
    } else if seconds < 86_400 {
        dec_width(seconds / 3_600, 2) + " h "@ + dec_width(seconds % 3_600 / 60, 2) + " m"@
    } else if seconds < 604_800 {
        dec_width(seconds / 86_400, 2) + " d "@ + dec_width(seconds % 86_400 / 3_600, 2) + " h"@
    } else if seconds < 31_557_600 {
        dec_width(seconds / 604_800, 2) + " w "@ + dec_width(seconds % 604_800 / 86_400, 2)
            + " d"@
    } else if seconds < 315_576_000 {
        dec_width(seconds / 31_557_600, 2) + " y "@ + dec_width(
            seconds % 31_557_600 / 604_800,
            2,
        ) + " w"@
    } else {
        " > 10 y  "@
    }
}

fn push_pair(s: &mut String, major: u64, major_unit: &str, minor: u64, minor_unit: &str)
    ensures
        final(s)@ == old(s)@ + dec_width(major as nat, 2) + major_unit@ + dec_width(minor as nat, 2)
            + minor_unit@,
{
    push_aligned(s, major, 2, ' ');
    push_str(s, major_unit);
    push_aligned(s, minor, 2, ' ');
    push_str(s, minor_unit);
    assert(final(s)@ =~= old(s)@ + dec_width(major as nat, 2) + major_unit@ + dec_width(
        minor as nat,
        2,
    ) + minor_unit@);
}

/// Formats a duration given in whole seconds.
pub fn format_duration(seconds: u64) -> (s: String)
    ensures
        s@ == duration_text(seconds as nat),
{
    let mut s = String::new();
    if seconds < 60 {
        push_aligned(&mut s, seconds, 6, ' ');
        push_str(&mut s, " s  ");
    } else if seconds < 3_600 {
        push_pair(&mut s, seconds / 60, " m ", seconds % 60, " s");
    } else if seconds < 86_400 {
        push_pair(&mut s, seconds / 3_600, " h ", seconds % 3_600 / 60, " m");
    } else if seconds < 604_800 {
        push_pair(&mut s, seconds / 86_400, " d ", seconds % 86_400 / 3_600, " h");
    } else if seconds < 31_557_600 {
        push_pair(&mut s, seconds / 604_800, " w ", seconds % 604_800 / 86_400, " d");
    } else if seconds < 315_576_000 {
        push_pair(&mut s, seconds / 31_557_600, " y ", seconds % 31_557_600 / 604_800, " w");
    } else {
        push_str(&mut s, " > 10 y  ");
    }
    assert(s@ =~= duration_text(seconds as nat));
    s
}

/// The color of a remaining share: red below 20 %, orange below 40 %,
/// yellow below 60 %, green below 80 %, cyan from there on.
pub open spec fn remaining_color(percent: int) -> Rgb8 {
    if percent < 20 {
        red()
    } else if percent < 40 {
        orange()
    } else if percent < 60 {
        yellow()
    } else if percent < 80 {
        green()
    } else {
        cyan()
    }
}

/// The color of a whole-number remaining percentage.
pub fn color_by_percent_remaining(percent: u64) -> (c: Rgb8)
    ensures
        c == remaining_color(percent as int),
{
    if percent < 20 {
        red()
    } else if percent < 40 {
        orange()
    } else if percent < 60 {
        yellow()
    } else if percent < 80 {
        green()
    } else {
        cyan()
    }
}


/// The color of the quantity `num / den` against four ascending
/// breakpoints: cyan below the first, then green, yellow and orange, and
/// red from the last on.
pub open spec fn scale_color(num: int, den: int, b0: int, b1: int, b2: int, b3: int) -> Rgb8 {
    if num < b0 * den {
        cyan()
    } else if num < b1 * den {
        green()
    } else if num < b2 * den {
        yellow()
    } else if num < b3 * den {
        orange()
    } else {
        red()
    }
}

/// The color of the exact quantity `num / den` (`den` positive) against
/// four ascending breakpoints.
pub fn color_by_thresholds(num: u128, den: u64, b0: u64, b1: u64, b2: u64, b3: u64) -> (c: Rgb8)
    requires
        den > 0,
    ensures
        c == scale_color(num as int, den as int, b0 as int, b1 as int, b2 as int, b3 as int),
{
    let d = den as u128;
    proof {
        vstd::arithmetic::mul::lemma_mul_upper_bound(b0 as int, u64::MAX as int, den as int, u64::MAX as int);
        vstd::arithmetic::mul::lemma_mul_upper_bound(b1 as int, u64::MAX as int, den as int, u64::MAX as int);
        vstd::arithmetic::mul::lemma_mul_upper_bound(b2 as int, u64::MAX as int, den as int, u64::MAX as int);
        vstd::arithmetic::mul::lemma_mul_upper_bound(b3 as int, u64::MAX as int, den as int, u64::MAX as int);
        assert(u64::MAX * u64::MAX < u128::MAX) by (nonlinear_arith);
    }
    if num < b0 as u128 * d {
        cyan()
    } else if num < b1 as u128 * d {
        green()
    } else if num < b2 as u128 * d {
        yellow()
    } else if num < b3 as u128 * d {
        orange()
    } else {
        red()
    }
}

/// The color of a use share: breakpoints at 20, 40, 60 and 80 percent.
pub open spec fn share_color(part: nat, whole: nat) -> Rgb8 {
    if whole == 0 {
        cyan()
    } else {
        scale_color((100 * part) as int, whole as int, 20, 40, 60, 80)
    }
}

/// The color of `part` as a share of `whole` (none of an empty whole).
pub fn color_by_share(part: u64, whole: u64) -> (c: Rgb8)
    ensures
        c == share_color(part as nat, whole as nat),
{
    if whole == 0 {
        cyan()
    } else {
        color_by_thresholds(100 * part as u128, whole, 20, 40, 60, 80)
    }
}

/// `num / den` rounded to the nearest whole number, ties to even.
pub open spec fn round_half_even(num: nat, den: nat) -> nat {
    let q = num / den;
    let r = num % den;
    if 2 * r > den || (2 * r == den && q % 2 == 1) {
        q + 1
    } else {
        q
    }
}

/// `num / den` rounded to the nearest whole number, ties to even.
pub fn rounded_ratio(num: u128, den: u128) -> (q: u128)
    requires
        den > 0,
        num < u128::MAX,
    ensures
        q == round_half_even(num as nat, den as nat),
{
    let q = num / den;
    let r = num % den;
    proof {
        vstd::arithmetic::div_mod::lemma_fundamental_div_mod(num as int, den as int);
        if den > 1 {
            vstd::arithmetic::div_mod::lemma_div_is_ordered_by_denominator(num as int, 1, den as int);
            assert(num / den <= num / 1);
        }
    }
    if r > den - r || (r == den - r && q % 2 == 1) {
        q + 1
    } else {
        q
    }
}

/// `part` as a whole percentage of `whole`, ties to even; none of an empty
/// whole.
pub open spec fn percent_of(part: nat, whole: nat) -> nat {
    if whole == 0 {
        0
    } else {
        round_half_even(100 * part, whole)
    }
}

/// `part` as a whole percentage of `whole`, ties to even.
pub fn percent(part: u64, whole: u64) -> (p: u128)
    ensures
        p == percent_of(part as nat, whole as nat),
{
    if whole == 0 {
        0
    } else {
        rounded_ratio(100 * part as u128, whole as u128)
    }
}

/// A duration is shown in the largest unit that fits and the next smaller
/// one: below a minute in seconds alone; from a minute up to an hour in
/// minutes and seconds; from an hour up to a day in hours and minutes; and
/// so on up to years and weeks, each count padded to two columns. The
/// larger count is at least one and below the size of the next unit, and
/// the two counts never add up to more than the duration.
pub proof fn lemma_duration_units(s: nat)
    ensures
        s < 60 ==> duration_text(s) == dec_width(s, 6) + " s  "@,
        60 <= s < 3_600 ==> {
            &&& duration_text(s) == dec_width(s / 60, 2) + " m "@ + dec_width(s % 60, 2) + " s"@
            &&& 1 <= s / 60 < 60
            &&& 60 * (s / 60) + s % 60 == s
        },
        3_600 <= s < 86_400 ==> {
            &&& duration_text(s) == dec_width(s / 3_600, 2) + " h "@ + dec_width(s % 3_600 / 60, 2) + " m"@
            &&& 1 <= s / 3_600 < 24
            &&& 3_600 * (s / 3_600) + 60 * (s % 3_600 / 60) <= s < 3_600 * (s / 3_600) + 60 * (s % 3_600 / 60) + 60
        },
        86_400 <= s < 604_800 ==> {
            &&& duration_text(s) == dec_width(s / 86_400, 2) + " d "@ + dec_width(s % 86_400 / 3_600, 2) + " h"@
            &&& 1 <= s / 86_400 < 7
        },
        604_800 <= s < 31_557_600 ==> {
            &&& duration_text(s) == dec_width(s / 604_800, 2) + " w "@ + dec_width(s % 604_800 / 86_400, 2) + " d"@
            &&& 1 <= s / 604_800 < 53
        },
        31_557_600 <= s < 315_576_000 ==> {
            &&& duration_text(s) == dec_width(s / 31_557_600, 2) + " y "@ + dec_width(s % 31_557_600 / 604_800, 2) + " w"@
            &&& 1 <= s / 31_557_600 < 10
        },
        315_576_000 <= s ==> duration_text(s) == " > 10 y  "@,
{
}

/// Remaining shares are colored in bands of twenty points: red below 20 %,
/// orange from 20 %, yellow from 40 %, green from 60 % and cyan from 80 %.
/// Within a band the color does not change, and neighbouring bands differ.
pub proof fn lemma_remaining_color_bands(p: int)
    ensures
        p < 20 ==> remaining_color(p) == red(),
        20 <= p < 40 ==> remaining_color(p) == orange(),
        40 <= p < 60 ==> remaining_color(p) == yellow(),
        60 <= p < 80 ==> remaining_color(p) == green(),
        80 <= p ==> remaining_color(p) == cyan(),
        0 <= p < 100 ==> remaining_color(p) == remaining_color(20 * (p / 20)),
        red() != orange() && orange() != yellow() && yellow() != green() && green() != cyan(),
{
}

/// A whole percentage of `part` in `whole` is the nearest whole number to
/// `100 * part / whole`: it is off by at most half.
pub proof fn lemma_percent_is_nearest(part: nat, whole: nat)
    requires
        whole > 0,
    ensures
        2 * percent_of(part, whole) * whole <= 2 * 100 * part + whole,
        2 * 100 * part <= 2 * percent_of(part, whole) * whole + whole,
{
    let n = 100 * part;
    let q = n / whole;
    let r = n % whole;
    vstd::arithmetic::div_mod::lemma_fundamental_div_mod(n as int, whole as int);
    assert(0 <= r < whole);
    assert(n == whole * q + r);
    let p = percent_of(part, whole);
    if 2 * r > whole || (2 * r == whole && q % 2 == 1) {
        assert(p == q + 1);
        assert(2 * p * whole == 2 * (q + 1) * whole);
        assert(2 * (q + 1) * whole == 2 * (whole * q) + 2 * whole) by (nonlinear_arith);
        assert(2 * r >= whole);
        assert(2 * p * whole <= 2 * n + whole);
    } else {
        assert(p == q);
        assert(2 * p * whole == 2 * q * whole);
        assert(2 * q * whole == 2 * (whole * q)) by (nonlinear_arith);
        assert(2 * p * whole <= 2 * n + whole);
    }
    assert(2 * 100 * part == 2 * n) by (nonlinear_arith)
        requires
            n == 100 * part,
    ;
}

} // verus!
