//! Four-channel color values, their packed device encodings, and the
//! fixed-point compositor that blends a foreground over a background by
//! an 8-bit weight (used to turn glyph coverage into anti-aliased pixels).

use vstd::arithmetic::div_mod::lemma_div_is_ordered;
use vstd::arithmetic::div_mod::lemma_fundamental_div_mod_converse;
use vstd::prelude::*;

verus! {

/// An 8-bit-per-channel color with alpha.
#[derive(Copy, Clone, Debug, PartialEq, Eq, Structural)]
pub struct Color {
    pub red: u8,
    pub green: u8,
    pub blue: u8,
    pub alpha: u8,
}

/// One channel of a blend: the weighted average
/// `(fg * weight + bg * (255 - weight)) / 255`, rounded to the nearest
/// value (ties rounding up).
pub open spec fn spec_mix_u8(a: u8, b: u8, a_amt: u8) -> int {
    (2 * (a * a_amt + b * (255 - a_amt)) + 255) / 510
}

/// The channelwise blend of `a` over `b` with weight `a_amt`.
pub open spec fn spec_mix_color(a: Color, b: Color, a_amt: u8) -> Color {
    Color {
        red: spec_mix_u8(a.red, b.red, a_amt) as u8,
        green: spec_mix_u8(a.green, b.green, a_amt) as u8,
        blue: spec_mix_u8(a.blue, b.blue, a_amt) as u8,
        alpha: spec_mix_u8(a.alpha, b.alpha, a_amt) as u8,
    }
}

impl Color {
    /// Pack into the 16-bit ARGB1555 device pixel format:
    /// the alpha top bit, then five bits per color channel.
    pub fn to_argb1555(&self) -> (r: u16)
        ensures
            r == (self.alpha / 128) * 32768 + (self.red / 8) * 1024 + (self.green / 8) * 32
                + self.blue / 8,
    {
        let a = (self.alpha / 128) as u16;
        let red5 = (self.red / 8) as u16;
        let green5 = (self.green / 8) as u16;
        let blue5 = (self.blue / 8) as u16;
        a * 32768 + red5 * 1024 + green5 * 32 + blue5
    }

    /// Pack into the 24-bit RGB encoding of the background-color register.
    pub fn to_rgb(&self) -> (r: u32)
        ensures
            r == self.red * 65536 + self.green * 256 + self.blue,
    {
        self.red as u32 * 65536 + self.green as u32 * 256 + self.blue as u32
    }
}

/// Blend one channel of `a` over `b` by `a_amt`, in fixed-point integer
/// arithmetic, rounding to the nearest value: weight 0 returns `b`
/// exactly, weight 255 returns `a` exactly.
pub fn mix_u8(a: u8, b: u8, a_amt: u8) -> (r: u8)
    ensures
        r == spec_mix_u8(a, b, a_amt),
        a_amt == 0 ==> r == b,
        a_amt == 255 ==> r == a,
{
    let aw = a as usize;
    let bw = b as usize;
    let full: usize = 255 * 1000;
    let a_amt_w = a_amt as usize * 1000;
    let b_amt_w = full - a_amt_w;
    proof {
        assert(aw * a_amt_w <= 255 * 255000 && bw * b_amt_w <= 255 * 255000)
            by (nonlinear_arith)
            requires
                0 <= aw <= 255,
                0 <= bw <= 255,
                0 <= a_amt_w <= 255000,
                0 <= b_amt_w <= 255000,
        ;
    }
    let res = (aw * a_amt_w + bw * b_amt_w + 127500) / full;
    proof {
        let n = (a * a_amt + b * (255 - a_amt)) as int;
        let m = 2 * n + 255;
        assert(aw * a_amt_w + bw * b_amt_w == 1000 * n) by (nonlinear_arith)
            requires
                aw == a as int,
                bw == b as int,
                a_amt_w == a_amt as int * 1000,
                b_amt_w == 255000 - a_amt as int * 1000,
                n == a * a_amt + b * (255 - a_amt),
                0 <= a_amt <= 255,
        ;
        assert(n <= 255 * 255) by (nonlinear_arith)
            requires
                n == a * a_amt + b * (255 - a_amt),
                0 <= a <= 255,
                0 <= b <= 255,
                0 <= a_amt <= 255,
        ;
        assert(1000 * n + 127500 == (m / 510) * 255000 + 500 * (m % 510)) by (nonlinear_arith)
            requires
                m == 2 * n + 255,
                m == (m / 510) * 510 + m % 510,
        ;
        lemma_fundamental_div_mod_converse(1000 * n + 127500, 255000, m / 510, 500 * (m % 510));
        assert(res == m / 510);
        if a_amt == 0 {
            assert(n == b * 255) by (nonlinear_arith)
                requires
                    n == a * a_amt + b * (255 - a_amt),
                    a_amt == 0,
            ;
            lemma_fundamental_div_mod_converse(m, 510, b as int, 255);
        }
        if a_amt == 255 {
            assert(n == a * 255) by (nonlinear_arith)
                requires
                    n == a * a_amt + b * (255 - a_amt),
                    a_amt == 255,
            ;
            lemma_fundamental_div_mod_converse(m, 510, a as int, 255);
        }
        assert(m / 510 <= 255) by {
            lemma_div_is_ordered(m, 130305int, 510);
            lemma_fundamental_div_mod_converse(130305int, 510, 255, 255);
        }
    }
    res as u8
}

/// Blend every channel of `a` over `b` by `a_amt`.
pub fn mix_color(a: Color, b: Color, a_amt: u8) -> (r: Color)
    ensures
        r == spec_mix_color(a, b, a_amt),
        a_amt == 0 ==> r == b,
        a_amt == 255 ==> r == a,
{
    let r = Color {
        red: mix_u8(a.red, b.red, a_amt),
        green: mix_u8(a.green, b.green, a_amt),
        blue: mix_u8(a.blue, b.blue, a_amt),
        alpha: mix_u8(a.alpha, b.alpha, a_amt),
    };
    r
}

/// The blend is monotonic in its weight, per channel: a larger weight moves
/// the result toward the foreground channel and never past it.
pub proof fn lemma_mix_monotonic(a: u8, b: u8, w1: u8, w2: u8)
    requires
        w1 <= w2,
    ensures
        a >= b ==> spec_mix_u8(a, b, w1) <= spec_mix_u8(a, b, w2),
        a <= b ==> spec_mix_u8(a, b, w1) >= spec_mix_u8(a, b, w2),
{
    let n1 = (a * w1 + b * (255 - w1)) as int;
    let n2 = (a * w2 + b * (255 - w2)) as int;
    assert(n2 - n1 == (w2 - w1) * (a - b)) by (nonlinear_arith)
        requires
            n1 == a * w1 + b * (255 - w1),
            n2 == a * w2 + b * (255 - w2),
    ;
    if a >= b {
        assert(n2 - n1 >= 0) by (nonlinear_arith)
            requires
                n2 - n1 == (w2 - w1) * (a - b),
                w2 >= w1,
                a >= b,
        ;
        lemma_div_is_ordered(2 * n1 + 255, 2 * n2 + 255, 510);
    }
    if a <= b {
        assert(n1 - n2 >= 0) by (nonlinear_arith)
            requires
                n2 - n1 == (w2 - w1) * (a - b),
                w2 >= w1,
                a <= b,
        ;
        lemma_div_is_ordered(2 * n2 + 255, 2 * n1 + 255, 510);
    }
}

/// Blending a color over itself gives it back exactly, whatever the
/// weight: the flat cell a space paints stays flat background.
pub proof fn lemma_mix_self(b: Color, w: u8)
    ensures
        spec_mix_color(b, b, w) == b,
{
    lemma_mix_self_u8(b.red, w);
    lemma_mix_self_u8(b.green, w);
    lemma_mix_self_u8(b.blue, w);
    lemma_mix_self_u8(b.alpha, w);
}

/// One channel of a self-blend is the channel itself.
proof fn lemma_mix_self_u8(b: u8, w: u8)
    ensures
        spec_mix_u8(b, b, w) == b,
{
    let n = (b * w + b * (255 - w)) as int;
    assert(n == b * 255) by (nonlinear_arith)
        requires
            n == b * w + b * (255 - w),
            0 <= w <= 255,
    ;
    lemma_fundamental_div_mod_converse(2 * n + 255, 510, b as int, 255);
}

} // verus!
