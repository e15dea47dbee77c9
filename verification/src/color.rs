//! Typed 8-bit colors, the Base16 Tomorrow palette and piecewise-linear
//! gradients over integer positions.

use vstd::prelude::*;

use crate::text::push_char;

verus! {

/// An sRGB color with 8 bits per channel.
#[derive(Debug, Clone, Copy, PartialEq, Eq, Structural, Hash)]
pub struct Rgb8 {
    pub r: u8,
    pub g: u8,
    pub b: u8,
}

/// The upper-case hexadecimal digit of a value below sixteen.
pub open spec fn hex_digit(n: int) -> char {
    if n < 10 {
        ((n + 48) as u8) as char
    } else {
        ((n + 55) as u8) as char
    }
}

/// Two upper-case hexadecimal digits of one byte.
pub open spec fn hex_byte(b: u8) -> Seq<char> {
    seq![hex_digit(b as int / 16), hex_digit(b as int % 16)]
}

/// `#RRGGBB` with upper-case digits.
pub open spec fn hex_text(c: Rgb8) -> Seq<char> {
    seq!['#'] + hex_byte(c.r) + hex_byte(c.g) + hex_byte(c.b)
}

fn push_hex_digit(s: &mut String, n: u8)
    requires
        n < 16,
    ensures
        final(s)@ == old(s)@.push(hex_digit(n as int)),
{
    let c: char = if n < 10 {
        (n + 48) as char
    } else {
        (n + 55) as char
    };
    push_char(s, c);
}

fn push_hex_byte(s: &mut String, b: u8)
    ensures
        final(s)@ == old(s)@ + hex_byte(b),
{
    push_hex_digit(s, b / 16);
    push_hex_digit(s, b % 16);
    assert(final(s)@ =~= old(s)@ + hex_byte(b));
}

impl Rgb8 {
    pub fn new(r: u8, g: u8, b: u8) -> (c: Self)
        ensures
            c == (Rgb8 { r, g, b }),
    {
        Self { r, g, b }
    }

    /// The color as `#RRGGBB`, the form that Pango and i3bar read.
    pub fn to_hex(&self) -> (s: String)
        ensures
            s@ == hex_text(*self),
    {
        let mut s = String::new();
        push_char(&mut s, '#');
        push_hex_byte(&mut s, self.r);
        push_hex_byte(&mut s, self.g);
        push_hex_byte(&mut s, self.b);
        assert(s@ =~= hex_text(*self));
        s
    }
}

/// The palette's dark grey.
#[verifier::allow_in_spec]
pub fn dark_grey() -> Rgb8
    returns
        (Rgb8 { r: 0x37, g: 0x3B, b: 0x41 }),
{
    Rgb8 { r: 0x37, g: 0x3B, b: 0x41 }
}
/// The palette's grey.
#[verifier::allow_in_spec]
pub fn grey() -> Rgb8
    returns
        (Rgb8 { r: 0x96, g: 0x98, b: 0x96 }),
{
    Rgb8 { r: 0x96, g: 0x98, b: 0x96 }
}
/// The palette's red.
#[verifier::allow_in_spec]
pub fn red() -> Rgb8
    returns
        (Rgb8 { r: 0xCC, g: 0x66, b: 0x66 }),
{
    Rgb8 { r: 0xCC, g: 0x66, b: 0x66 }
}
/// The palette's orange.
#[verifier::allow_in_spec]
pub fn orange() -> Rgb8
    returns
        (Rgb8 { r: 0xDE, g: 0x93, b: 0x5F }),
{
    Rgb8 { r: 0xDE, g: 0x93, b: 0x5F }
}
/// The palette's yellow.
#[verifier::allow_in_spec]
pub fn yellow() -> Rgb8
    returns
        (Rgb8 { r: 0xF0, g: 0xC6, b: 0x74 }),
{
    Rgb8 { r: 0xF0, g: 0xC6, b: 0x74 }
}
/// The palette's green.
#[verifier::allow_in_spec]
pub fn green() -> Rgb8
    returns
        (Rgb8 { r: 0xB5, g: 0xBD, b: 0x68 }),
{
    Rgb8 { r: 0xB5, g: 0xBD, b: 0x68 }
}
/// The palette's cyan.
#[verifier::allow_in_spec]
pub fn cyan() -> Rgb8
    returns
        (Rgb8 { r: 0x8A, g: 0xBE, b: 0xB7 }),
{
    Rgb8 { r: 0x8A, g: 0xBE, b: 0xB7 }
}
/// The palette's blue.
#[verifier::allow_in_spec]
pub fn blue() -> Rgb8
    returns
        (Rgb8 { r: 0x81, g: 0xA2, b: 0xBE }),
{
    Rgb8 { r: 0x81, g: 0xA2, b: 0xBE }
}
/// The palette's violet.
#[verifier::allow_in_spec]
pub fn violet() -> Rgb8
    returns
        (Rgb8 { r: 0xB2, g: 0x94, b: 0xBB }),
{
    Rgb8 { r: 0xB2, g: 0x94, b: 0xBB }
}
/// The palette's brown.
#[verifier::allow_in_spec]
pub fn brown() -> Rgb8
    returns
        (Rgb8 { r: 0xA3, g: 0x68, b: 0x5A }),
{
    Rgb8 { r: 0xA3, g: 0x68, b: 0x5A }
}

/// A gradient stop: a position and the color there.
#[derive(Debug, Clone, Copy, PartialEq, Eq, Structural)]
pub struct Knot {
    pub at: i64,
    pub color: Rgb8,
}

/// One channel interpolated at `num / den` of the way from `a` to `b`,
/// rounded half away from zero.
pub open spec fn mix_channel(a: u8, b: u8, num: int, den: int) -> int {
    (2 * (a * den + (b - a) * num) + den) / (2 * den)
}

/// The color `num / den` of the way from one stop to the next.
pub open spec fn mix(from: Rgb8, to: Rgb8, num: int, den: int) -> Rgb8 {
    Rgb8 {
        r: mix_channel(from.r, to.r, num, den) as u8,
        g: mix_channel(from.g, to.g, num, den) as u8,
        b: mix_channel(from.b, to.b, num, den) as u8,
    }
}

/// The color at `v` above the stop `lower`, walking the remaining stops.
pub open spec fn walk(lower: Knot, rest: Seq<Knot>, v: int) -> Rgb8
    decreases rest.len(),
{
    if rest.len() == 0 {
        lower.color
    } else if v <= rest[0].at {
        mix(lower.color, rest[0].color, v - lower.at, rest[0].at - lower.at)
    } else {
        walk(rest[0], rest.drop_first(), v)
    }
}

/// The color of a piecewise-linear gradient at `v`: the first stop's color
/// below it, the last stop's color above the last stop.
pub open spec fn gradient_color(root: Knot, rest: Seq<Knot>, v: int) -> Rgb8 {
    if v <= root.at {
        root.color
    } else {
        walk(root, rest, v)
    }
}

/// Whether stops strictly increase in position after `lower`.
pub open spec fn increasing(lower: Knot, rest: Seq<Knot>) -> bool {
    &&& forall|i: int| 0 <= i < rest.len() ==> #[trigger] rest[i].at > lower.at
    &&& forall|i: int, j: int| 0 <= i < j < rest.len() ==> rest[i].at < rest[j].at
}

proof fn lemma_mix_channel_bounds(a: u8, b: u8, num: int, den: int)
    requires
        0 < num <= den,
    ensures
        0 <= mix_channel(a, b, num, den) <= 255,
{
    let x = 2 * (a * den + (b - a) * num) + den;
    assert(a * den + (b - a) * num == a * (den - num) + b * num) by (nonlinear_arith);
    assert(0 <= a * (den - num)) by (nonlinear_arith)
        requires
            num <= den,
    ;
    assert(a * (den - num) <= 255 * (den - num)) by (nonlinear_arith)
        requires
            num <= den,
            a <= 255,
    ;
    assert(0 <= b * num <= 255 * num) by (nonlinear_arith)
        requires
            0 < num,
            b <= 255,
    ;
    assert(0 <= x);
    assert(x < 512 * den);
    let q = x / (2 * den);
    vstd::arithmetic::div_mod::lemma_fundamental_div_mod(x, 2 * den);
    assert(0 <= x % (2 * den) < 2 * den) by {
        vstd::arithmetic::div_mod::lemma_mod_bound(x, 2 * den);
    }
    assert(0 <= q < 256) by (nonlinear_arith)
        requires
            x == (2 * den) * q + x % (2 * den),
            0 <= x % (2 * den) < 2 * den,
            0 <= x < 512 * den,
            den > 0,
    ;
}

fn mix_exec(a: u8, b: u8, num: i64, den: i64) -> (c: u8)
    requires
        0 < num <= den,
        den <= 0x1_0000_0000,
    ensures
        c == mix_channel(a, b, num as int, den as int),
{
    proof {
        lemma_mix_channel_bounds(a, b, num as int, den as int);
    }
    let a128 = a as i128;
    let b128 = b as i128;
    let n128 = num as i128;
    let d128 = den as i128;
    assert(-255 * 0x1_0000_0000 <= (b128 - a128) * n128 <= 255 * 0x1_0000_0000) by (nonlinear_arith)
        requires
            -255 <= b128 - a128 <= 255,
            0 < n128 <= 0x1_0000_0000,
    ;
    assert(0 <= a128 * d128 <= 255 * 0x1_0000_0000) by (nonlinear_arith)
        requires
            0 <= a128 <= 255,
            0 < d128 <= 0x1_0000_0000,
    ;
    let x = 2 * (a128 * d128 + (b128 - a128) * n128) + d128;
    assert(x == 2 * (a as int * den as int + (b as int - a as int) * num as int) + den as int);
    assert(x >= 0) by (nonlinear_arith)
        requires
            x == 2 * (a128 * d128 + (b128 - a128) * n128) + d128,
            0 < n128 <= d128,
            0 <= a128 <= 255,
            0 <= b128 <= 255,
    ;
    let q = x / (2 * d128);
    assert(q == mix_channel(a, b, num as int, den as int));
    q as u8
}

proof fn lemma_mix_channel_at_end(a: u8, b: u8, d: int)
    requires
        d > 0,
    ensures
        mix_channel(a, b, d, d) == b,
{
    assert(2 * (a * d + (b - a) * d) + d == b * (2 * d) + d) by (nonlinear_arith);
    vstd::arithmetic::div_mod::lemma_fundamental_div_mod_converse(b * (2 * d) + d, 2 * d, b as int, d);
}

proof fn lemma_mix_at_end(from: Rgb8, to: Rgb8, d: int)
    requires
        d > 0,
    ensures
        mix(from, to, d, d) == to,
{
    lemma_mix_channel_at_end(from.r, to.r, d);
    lemma_mix_channel_at_end(from.g, to.g, d);
    lemma_mix_channel_at_end(from.b, to.b, d);
}

proof fn lemma_increasing_tail(lower: Knot, rest: Seq<Knot>)
    requires
        increasing(lower, rest),
        rest.len() > 0,
    ensures
        increasing(rest[0], rest.drop_first()),
{
    assert forall|i: int| 0 <= i < rest.drop_first().len() implies #[trigger] rest.drop_first()[i].at > rest[0].at by {
        assert(rest.drop_first()[i] == rest[i + 1]);
    }
    assert forall|i: int, j: int| 0 <= i < j < rest.drop_first().len() implies rest.drop_first()[i].at < rest.drop_first()[j].at by {
        assert(rest.drop_first()[i] == rest[i + 1]);
        assert(rest.drop_first()[j] == rest[j + 1]);
    }
}

proof fn lemma_walk_past_last(lower: Knot, rest: Seq<Knot>, v: int)
    requires
        increasing(lower, rest),
        rest.len() > 0,
        v >= rest.last().at,
    ensures
        walk(lower, rest, v) == rest.last().color,
    decreases rest.len(),
{
    if rest.len() == 1 {
        assert(rest.last() == rest[0]);
        assert(rest[0].at > lower.at);
        if v <= rest[0].at {
            assert(v == rest[0].at);
            lemma_mix_at_end(lower.color, rest[0].color, rest[0].at - lower.at);
            assert(walk(lower, rest, v) == mix(lower.color, rest[0].color, v - lower.at, rest[0].at - lower.at));
        } else {
            assert(rest.drop_first().len() == 0);
            assert(walk(rest[0], rest.drop_first(), v) == rest[0].color);
        }
    } else {
        assert(rest[0].at < rest.last().at);
        lemma_increasing_tail(lower, rest);
        assert(rest.drop_first().last() == rest.last());
        lemma_walk_past_last(rest[0], rest.drop_first(), v);
    }
}

proof fn lemma_walk_at_stop(lower: Knot, rest: Seq<Knot>, i: int)
    requires
        increasing(lower, rest),
        0 <= i < rest.len(),
    ensures
        walk(lower, rest, rest[i].at as int) == rest[i].color,
    decreases i,
{
    if i == 0 {
        lemma_mix_at_end(lower.color, rest[0].color, rest[0].at - lower.at);
    } else {
        lemma_increasing_tail(lower, rest);
        assert(rest.drop_first()[i - 1] == rest[i]);
        lemma_walk_at_stop(rest[0], rest.drop_first(), i - 1);
    }
}

/// A gradient keeps its last stop's color at and beyond that stop.
pub proof fn lemma_gradient_holds_past_the_last_stop(root: Knot, rest: Seq<Knot>, v: int)
    requires
        increasing(root, rest),
        rest.len() > 0,
        v >= rest.last().at,
    ensures
        gradient_color(root, rest, v) == rest.last().color,
{
    lemma_walk_past_last(root, rest, v);
}

/// A gradient takes each stop's own color at that stop, and its first
/// stop's color below it.
pub proof fn lemma_gradient_meets_its_stops(root: Knot, rest: Seq<Knot>, i: int, v: int)
    requires
        increasing(root, rest),
        0 <= i < rest.len(),
        v <= root.at,
    ensures
        gradient_color(root, rest, rest[i].at as int) == rest[i].color,
        gradient_color(root, rest, v) == root.color,
{
    lemma_walk_at_stop(root, rest, i);
}

proof fn lemma_mix_channel_rounds(a: u8, b: u8, num: int, den: int)
    requires
        0 < num <= den,
    ensures
        2 * mix_channel(a, b, num, den) * den <= 2 * (a * den + (b - a) * num) + den,
        2 * (a * den + (b - a) * num) < 2 * mix_channel(a, b, num, den) * den + den,
{
    let y = 2 * (a * den + (b - a) * num) + den;
    let q = y / (2 * den);
    vstd::arithmetic::div_mod::lemma_fundamental_div_mod(y, 2 * den);
    vstd::arithmetic::div_mod::lemma_mod_bound(y, 2 * den);
    assert(2 * q * den == (2 * den) * q) by (nonlinear_arith);
}

/// Between two stops a gradient's color is the linear interpolation of
/// their channels, each rounded to the nearest step: a channel going from
/// `a` to `b` over `den` positions is, `num` positions on, within half a
/// step of `a + (b - a) * num / den`.
pub proof fn lemma_mix_is_rounded_interpolation(from: Rgb8, to: Rgb8, num: int, den: int)
    requires
        0 < num <= den,
    ensures
        2 * mix(from, to, num, den).r * den <= 2 * (from.r * den + (to.r - from.r) * num) + den,
        2 * (from.r * den + (to.r - from.r) * num) < 2 * mix(from, to, num, den).r * den + den,
        2 * mix(from, to, num, den).g * den <= 2 * (from.g * den + (to.g - from.g) * num) + den,
        2 * (from.g * den + (to.g - from.g) * num) < 2 * mix(from, to, num, den).g * den + den,
        2 * mix(from, to, num, den).b * den <= 2 * (from.b * den + (to.b - from.b) * num) + den,
        2 * (from.b * den + (to.b - from.b) * num) < 2 * mix(from, to, num, den).b * den + den,
{
    lemma_mix_channel_bounds(from.r, to.r, num, den);
    lemma_mix_channel_bounds(from.g, to.g, num, den);
    lemma_mix_channel_bounds(from.b, to.b, num, den);
    lemma_mix_channel_rounds(from.r, to.r, num, den);
    lemma_mix_channel_rounds(from.g, to.g, num, den);
    lemma_mix_channel_rounds(from.b, to.b, num, den);
}

/// The stop just below the `i`-th of `rest`: the root for the first.
pub open spec fn stop_below(root: Knot, rest: Seq<Knot>, i: int) -> Knot {
    if i == 0 {
        root
    } else {
        rest[i - 1]
    }
}

proof fn lemma_walk_between(lower: Knot, rest: Seq<Knot>, i: int, v: int)
    requires
        increasing(lower, rest),
        0 <= i < rest.len(),
        stop_below(lower, rest, i).at < v <= rest[i].at,
    ensures
        walk(lower, rest, v) == mix(
            stop_below(lower, rest, i).color,
            rest[i].color,
            v - stop_below(lower, rest, i).at,
            rest[i].at - stop_below(lower, rest, i).at,
        ),
    decreases i,
{
    if i > 0 {
        assert(rest[0].at <= rest[i - 1].at);
        lemma_increasing_tail(lower, rest);
        assert(rest.drop_first()[i - 1] == rest[i]);
        if i > 1 {
            assert(rest.drop_first()[i - 2] == rest[i - 1]);
        }
        assert(stop_below(rest[0], rest.drop_first(), i - 1) == stop_below(lower, rest, i));
        lemma_walk_between(rest[0], rest.drop_first(), i - 1, v);
    }
}

/// Between two neighbouring stops a gradient mixes exactly those two: at
/// `v` above the lower stop and up to the upper one, its color is the
/// upper stop's color mixed into the lower one's by the distance covered.
pub proof fn lemma_gradient_between_stops(root: Knot, rest: Seq<Knot>, i: int, v: int)
    requires
        increasing(root, rest),
        0 <= i < rest.len(),
        stop_below(root, rest, i).at < v <= rest[i].at,
    ensures
        gradient_color(root, rest, v) == mix(
            stop_below(root, rest, i).color,
            rest[i].color,
            v - stop_below(root, rest, i).at,
            rest[i].at - stop_below(root, rest, i).at,
        ),
{
    if i > 0 {
        assert(rest[i - 1].at > root.at);
    }
    lemma_walk_between(root, rest, i, v);
}

/// A piecewise-linear gradient over integer positions.
#[derive(Debug, Clone)]
pub struct Gradient {
    pub root: Knot,
    pub rest: Vec<Knot>,
}

impl Gradient {
    pub open spec fn wf(&self) -> bool {
        &&& increasing(self.root, self.rest@)
        &&& -0x8000_0000 <= self.root.at
        &&& forall|i: int| 0 <= i < self.rest@.len() ==> #[trigger] self.rest@[i].at <= 0x7FFF_FFFF
    }

    /// A gradient whose stops strictly increase in position.
    pub fn new(root: Knot, rest: Vec<Knot>) -> (g: Gradient)
        requires
            increasing(root, rest@),
            -0x8000_0000 <= root.at,
            forall|i: int| 0 <= i < rest@.len() ==> #[trigger] rest@[i].at <= 0x7FFF_FFFF,
        ensures
            g.root == root,
            g.rest@ == rest@,
            g.wf(),
    {
        Gradient { root, rest }
    }

    /// The color at `value`.
    pub fn sample(&self, value: i64) -> (c: Rgb8)
        requires
            self.wf(),
        ensures
            c == gradient_color(self.root, self.rest@, value as int),
    {
        let mut lower = self.root;
        if value <= lower.at {
            return lower.color;
        }
        let n = self.rest.len();
        let mut i: usize = 0;
        assert(self.rest@.skip(0) =~= self.rest@);
        while i < n
            invariant
                n == self.rest@.len(),
                self.wf(),
                i <= n,
                value > lower.at,
                lower.at >= -0x8000_0000,
                i == 0 ==> lower == self.root,
                i > 0 ==> lower == self.rest@[i - 1],
                gradient_color(self.root, self.rest@, value as int) == walk(
                    lower,
                    self.rest@.skip(i as int),
                    value as int,
                ),
            decreases n - i,
        {
            let upper = self.rest[i];
            let ghost rest = self.rest@.skip(i as int);
            assert(rest[0] == upper);
            if value <= upper.at {
                assert(upper.at > lower.at);
                let num = value - lower.at;
                let den = upper.at - lower.at;
                let c = Rgb8 {
                    r: mix_exec(lower.color.r, upper.color.r, num, den),
                    g: mix_exec(lower.color.g, upper.color.g, num, den),
                    b: mix_exec(lower.color.b, upper.color.b, num, den),
                };
                return c;
            }
            assert(rest.drop_first() =~= self.rest@.skip(i + 1));
            lower = upper;
            i = i + 1;
        }
        lower.color
    }
}

} // verus!
