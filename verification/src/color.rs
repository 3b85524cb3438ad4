//! Color triples with exact integer channel values.
//!
//! A channel is stored as an integer numerator; the caller fixes a common
//! denominator when averaging, gamma-correcting or emitting 8-bit pixels, so
//! every conversion rule is stated exactly. Channels are linear light in the
//! logical range `[0, den]` before display conversion (accumulation may exceed
//! it transiently).

use vstd::prelude::*;
use crate::point::isqrt;

verus! {

/// An RGB color; each channel is an exact integer numerator.
#[derive(Debug, Clone, Copy, PartialEq, Eq, Structural)]
pub struct Color {
    pub r: i64,
    pub g: i64,
    pub b: i64,
}

impl Color {
    pub open spec fn non_negative(self) -> bool {
        0 <= self.r && 0 <= self.g && 0 <= self.b
    }

    pub fn new(r: i64, g: i64, b: i64) -> (c: Color)
        ensures
            c == (Color { r, g, b }),
    {
        Color { r, g, b }
    }

    /// Componentwise sum, used to accumulate samples of one pixel.
    pub fn add(self, rhs: Color) -> (c: Color)
        requires
            i64::MIN <= self.r + rhs.r <= i64::MAX,
            i64::MIN <= self.g + rhs.g <= i64::MAX,
            i64::MIN <= self.b + rhs.b <= i64::MAX,
        ensures
            c.r == self.r + rhs.r,
            c.g == self.g + rhs.g,
            c.b == self.b + rhs.b,
    {
        Color { r: self.r + rhs.r, g: self.g + rhs.g, b: self.b + rhs.b }
    }

    /// Scaling by an integer factor.
    pub fn mul(self, t: i64) -> (c: Color)
        requires
            i64::MIN <= self.r * t <= i64::MAX,
            i64::MIN <= self.g * t <= i64::MAX,
            i64::MIN <= self.b * t <= i64::MAX,
        ensures
            c.r == self.r * t,
            c.g == self.g * t,
            c.b == self.b * t,
    {
        Color { r: self.r * t, g: self.g * t, b: self.b * t }
    }

    /// Componentwise product, the attenuation of one scattering event. The
    /// caller tracks the common denominator, which multiplies accordingly.
    pub fn mul_color(self, rhs: Color) -> (c: Color)
        requires
            i64::MIN <= self.r * rhs.r <= i64::MAX,
            i64::MIN <= self.g * rhs.g <= i64::MAX,
            i64::MIN <= self.b * rhs.b <= i64::MAX,
        ensures
            c.r == self.r * rhs.r,
            c.g == self.g * rhs.g,
            c.b == self.b * rhs.b,
    {
        Color { r: self.r * rhs.r, g: self.g * rhs.g, b: self.b * rhs.b }
    }

    /// Division by a sample count: the floor of each channel quotient.
    pub fn div(self, t: i64) -> (c: Color)
        requires
            self.non_negative(),
            t > 0,
        ensures
            c.r == self.r as int / t as int,
            c.g == self.g as int / t as int,
            c.b == self.b as int / t as int,
            c.non_negative(),
    {
        let r = ((self.r as u64) / (t as u64)) as i64;
        let g = ((self.g as u64) / (t as u64)) as i64;
        let b = ((self.b as u64) / (t as u64)) as i64;
        proof {
            vstd::arithmetic::div_mod::lemma_div_nonincreasing(self.r as int, t as int);
            vstd::arithmetic::div_mod::lemma_div_nonincreasing(self.g as int, t as int);
            vstd::arithmetic::div_mod::lemma_div_nonincreasing(self.b as int, t as int);
            vstd::arithmetic::div_mod::lemma_div_pos_is_pos(self.r as int, t as int);
            vstd::arithmetic::div_mod::lemma_div_pos_is_pos(self.g as int, t as int);
            vstd::arithmetic::div_mod::lemma_div_pos_is_pos(self.b as int, t as int);
        }
        Color { r, g, b }
    }

    /// Gamma correction with exponent one half at denominator `den`: each
    /// channel `v` (a fraction `v/den`) becomes the floor of `sqrt(v * den)`
    /// (the fraction `sqrt(v/den)` at the same denominator). The two-sided
    /// squared bound pins the floor down exactly.
    pub fn gamma_correct(&self, den: i64) -> (c: Color)
        requires
            self.non_negative(),
            0 < den,
            self.r * den < 4611686018427387904,
            self.g * den < 4611686018427387904,
            self.b * den < 4611686018427387904,
        ensures
            c.non_negative(),
            c.r * c.r <= self.r * den < (c.r + 1) * (c.r + 1),
            c.g * c.g <= self.g * den < (c.g + 1) * (c.g + 1),
            c.b * c.b <= self.b * den < (c.b + 1) * (c.b + 1),
    {
        proof {
            lemma_nonneg_product(self.r as int, den as int);
            lemma_nonneg_product(self.g as int, den as int);
            lemma_nonneg_product(self.b as int, den as int);
        }
        let r = gamma_channel(self.r, den);
        let g = gamma_channel(self.g, den);
        let b = gamma_channel(self.b, den);
        Color { r, g, b }
    }

    /// 8-bit display triple: each channel `v/den` maps to
    /// `floor(255.999 * v / den)`, computed exactly as
    /// `(255999 * v) / (1000 * den)`. Truncation, not rounding.
    pub fn to_simple(&self, den: i64) -> (p: (u8, u8, u8))
        requires
            0 < den,
            0 <= self.r <= den,
            0 <= self.g <= den,
            0 <= self.b <= den,
        ensures
            p.0 == 255999 * self.r / (1000 * den),
            p.1 == 255999 * self.g / (1000 * den),
            p.2 == 255999 * self.b / (1000 * den),
    {
        (channel_to_byte(self.r, den), channel_to_byte(self.g, den), channel_to_byte(self.b, den))
    }
}

proof fn lemma_nonneg_product(a: int, b: int)
    by (nonlinear_arith)
    requires
        0 <= a,
        0 <= b,
    ensures
        0 <= a * b,
{
}

fn gamma_channel(v: i64, den: i64) -> (g: i64)
    requires
        0 <= v,
        0 < den,
        0 <= v * den < 4611686018427387904,
    ensures
        0 <= g,
        g * g <= v * den,
        v * den < (g + 1) * (g + 1),
{
    let prod: u128 = (v as u128) * (den as u128);
    let root = isqrt(prod);
    proof {
        assert(root < 2147483648) by (nonlinear_arith)
            requires
                0 <= root,
                root * root <= prod,
                prod < 4611686018427387904,
        ;
    }
    root as i64
}

/// One channel of the 8-bit conversion; the result never exceeds 255.
fn channel_to_byte(v: i64, den: i64) -> (p: u8)
    requires
        0 < den,
        0 <= v <= den,
    ensures
        p == 255999 * v / (1000 * den),
{
    let num: u128 = 255999 * (v as u128);
    let d: u128 = 1000 * (den as u128);
    let q = num / d;
    proof {
        let vi = v as int;
        let di = den as int;
        assert(255999 * vi <= 255999 * di) by (nonlinear_arith)
            requires
                vi <= di,
                0 <= vi,
        ;
        vstd::arithmetic::div_mod::lemma_div_is_ordered(255999 * vi, 255999 * di, 1000 * di);
        assert(255999 * di == 255 * (1000 * di) + 999 * di);
        assert(0 <= 999 * di < 1000 * di);
        vstd::arithmetic::div_mod::lemma_fundamental_div_mod_converse(
            255999 * di,
            1000 * di,
            255,
            999 * di,
        );
        assert(255999 * di / (1000 * di) == 255);
        vstd::arithmetic::div_mod::lemma_div_pos_is_pos(255999 * vi, 1000 * di);
    }
    q as u8
}

} // verus!
