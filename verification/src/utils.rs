//! Angle conversion, the uniform sample in [0, 1), and the closed
//! interval used to bound intersection distances.

use vstd::prelude::*;

use crate::fx::{fxdiv, fxmul, fxmul_s, fxdiv_s, tdiv, tdiv_i128, FX_ONE};
use crate::rng::random_raw;
use crate::vec3::{lemma_fxmul_mag, lemma_mul_mag, lemma_tdiv_mag};

verus! {

/// Pi, in raw fixed-point form (rounded to the nearest representable).
pub const PI: i64 = 3373259426;

/// A distance bound larger than any representable scene extent.
pub const INFINITY: i64 = i64::MAX;

pub open spec fn deg_to_rad_s(deg: int) -> int {
    tdiv(deg * (PI as int), 180 * (FX_ONE as int))
}

pub fn degrees_to_radians(degrees: i64) -> (r: i64)
    requires
        -0x1_0000_0000_0000 <= degrees <= 0x1_0000_0000_0000,
    ensures
        r == deg_to_rad_s(degrees as int),
{
    proof {
        lemma_mul_mag(degrees as int, PI as int, 0x1_0000_0000_0000int, PI as int);
        lemma_tdiv_mag(
            (degrees as int) * (PI as int),
            180 * (FX_ONE as int),
            0x1_0000_0000_0000int * (PI as int),
        );
    }
    let q = tdiv_i128((degrees as i128) * (PI as i128), 180 * (FX_ONE as i128));
    q as i64
}

/// A uniform fixed-point sample from [0, 1).
pub fn random_double() -> (r: i64)
    ensures
        0 <= r < FX_ONE,
{
    random_raw(0, FX_ONE)
}

#[derive(Clone, Copy, Debug, PartialEq, Eq, Structural)]
pub struct Interval {
    pub min: i64,
    pub max: i64,
}

impl Interval {
    pub fn new(min: i64, max: i64) -> (r: Interval)
        ensures
            r.min == min,
            r.max == max,
    {
        Interval { min, max }
    }

    pub fn contains(&self, x: i64) -> (r: bool)
        ensures
            r == (self.min <= x && x <= self.max),
    {
        self.min <= x && x <= self.max
    }
}

/// Cap on the half-angle tangent (8 in value): reached only beyond any
/// field of view the configuration admits.
pub const TAN_CAP: i64 = 0x2_0000_0000;

/// Taylor series for the sine on [0, 2]: x - x^3/6 + x^5/120 - x^7/5040.
pub open spec fn sin_series_s(x: int) -> int {
    let x2 = fxmul_s(x, x);
    let x3 = fxmul_s(x2, x);
    let x5 = fxmul_s(x3, x2);
    let x7 = fxmul_s(x5, x2);
    x - tdiv(x3, 6) + tdiv(x5, 120) - tdiv(x7, 5040)
}

/// Taylor series for the cosine on [0, 2].
pub open spec fn cos_series_s(x: int) -> int {
    let x2 = fxmul_s(x, x);
    let x4 = fxmul_s(x2, x2);
    let x6 = fxmul_s(x4, x2);
    let x8 = fxmul_s(x4, x4);
    (FX_ONE as int) - tdiv(x2, 2) + tdiv(x4, 24) - tdiv(x6, 720) + tdiv(x8, 40320)
}

/// The tangent of half the given angle (in degrees), by the two series,
/// clamped into [0, TAN_CAP]; a vanishing cosine falls back to the cap.
pub open spec fn tan_half_s(deg: int) -> int {
    let x = tdiv(deg_to_rad_s(deg), 2);
    let s = sin_series_s(x);
    let c = cos_series_s(x);
    if c < 1024 {
        TAN_CAP as int
    } else {
        let t = fxdiv_s(s, c);
        if t > TAN_CAP as int {
            TAN_CAP as int
        } else if t < 0 {
            0
        } else {
            t
        }
    }
}

pub fn tan_half(deg: i64) -> (r: i64)
    requires
        0 <= deg <= 0x2a_8000_0000,
    ensures
        r == tan_half_s(deg as int),
        0 <= r <= TAN_CAP,
{
    proof {
        lemma_mul_mag(deg as int, PI as int, 0x2a_8000_0000int, PI as int);
        lemma_tdiv_mag((deg as int) * (PI as int), 180 * (FX_ONE as int), 0x2a_8000_0000int * (
        PI as int));
        crate::fx::lemma_tdiv_nonneg((deg as int) * (PI as int), 180 * (FX_ONE as int));
    }
    let rad = degrees_to_radians(deg);
    let x = tdiv_i128(rad as i128, 2) as i64;
    proof {
        crate::fx::lemma_tdiv_nonneg(rad as int, 2);
        lemma_tdiv_mag(rad as int, 2, 0xc000_0000int);
        lemma_fxmul_mag(x as int, x as int, 0x8000_0000int, 0x8000_0000int);
        lemma_fxmul_mag(fxmul_s(x as int, x as int), x as int, 0x1_0000_0000int, 0x8000_0000int);
        lemma_fxmul_mag(
            fxmul_s(fxmul_s(x as int, x as int), x as int),
            fxmul_s(x as int, x as int),
            0x2_0000_0000int,
            0x1_0000_0000int,
        );
        lemma_fxmul_mag(
            fxmul_s(fxmul_s(fxmul_s(x as int, x as int), x as int), fxmul_s(x as int, x as int)),
            fxmul_s(x as int, x as int),
            0x8_0000_0000int,
            0x1_0000_0000int,
        );
        lemma_fxmul_mag(
            fxmul_s(x as int, x as int),
            fxmul_s(x as int, x as int),
            0x1_0000_0000int,
            0x1_0000_0000int,
        );
        lemma_fxmul_mag(
            fxmul_s(fxmul_s(x as int, x as int), fxmul_s(x as int, x as int)),
            fxmul_s(x as int, x as int),
            0x4_0000_0000int,
            0x1_0000_0000int,
        );
        lemma_fxmul_mag(
            fxmul_s(fxmul_s(x as int, x as int), fxmul_s(x as int, x as int)),
            fxmul_s(fxmul_s(x as int, x as int), fxmul_s(x as int, x as int)),
            0x4_0000_0000int,
            0x4_0000_0000int,
        );
    }
    let x2 = fxmul(x, x);
    let x3 = fxmul(x2, x);
    let x5 = fxmul(x3, x2);
    let x7 = fxmul(x5, x2);
    let s = x - tdiv_i128(x3 as i128, 6) as i64 + tdiv_i128(x5 as i128, 120) as i64 - tdiv_i128(
        x7 as i128,
        5040,
    ) as i64;
    let x4 = fxmul(x2, x2);
    let x6 = fxmul(x4, x2);
    let x8 = fxmul(x4, x4);
    let c = FX_ONE - tdiv_i128(x2 as i128, 2) as i64 + tdiv_i128(x4 as i128, 24) as i64
        - tdiv_i128(x6 as i128, 720) as i64 + tdiv_i128(x8 as i128, 40320) as i64;
    proof {
        lemma_tdiv_mag(x3 as int, 6, 0x2_0000_0000int);
        lemma_tdiv_mag(x5 as int, 120, 0x8_0000_0000int);
        lemma_tdiv_mag(x7 as int, 5040, 0x20_0000_0000int);
        lemma_tdiv_mag(x2 as int, 2, 0x1_0000_0000int);
        lemma_tdiv_mag(x4 as int, 24, 0x4_0000_0000int);
        lemma_tdiv_mag(x6 as int, 720, 0x10_0000_0000int);
        lemma_tdiv_mag(x8 as int, 40320, 0x40_0000_0000int);
    }
    if c < 1024 {
        TAN_CAP
    } else {
        proof {
            lemma_mul_mag(s as int, FX_ONE as int, 0x40_0000_0000int, FX_ONE as int);
            vstd::arithmetic::div_mod::lemma_div_is_ordered_by_denominator(
                0x40_0000_0000int * 0x4000_0000int,
                1024,
                c as int,
            );
            vstd::arithmetic::div_mod::lemma_div_is_ordered_by_denominator(
                -((-0x40_0000_0000int) * 0x4000_0000int),
                1024,
                c as int,
            );
        }
        let t = fxdiv(s, c);
        if t > TAN_CAP {
            TAN_CAP
        } else if t < 0 {
            0
        } else {
            t
        }
    }
}

} // verus!
