//! Gamma correction and byte quantization of a pixel, and its plain-text
//! "R G B" line.

use vstd::prelude::*;

use crate::fx::{fx_sqrt, sqrt_s, tdiv, tdiv_i128, FX_ONE};
use crate::vec3::{Vec3, V3};

verus! {

/// Channels are clamped to at most this before scaling by 256, so a
/// quantized byte never reaches 256 (0.999 in value).
pub const INTENSITY_MAX: i64 = 1072668082;

/// Gamma-2 encoding: the square root for positive values, zero otherwise.
pub open spec fn gamma_s(x: int) -> int {
    if x > 0 {
        sqrt_s(x * (FX_ONE as int))
    } else {
        0
    }
}

pub fn linear_to_gamma(linear_component: i64) -> (r: i64)
    ensures
        r == gamma_s(linear_component as int),
        r >= 0,
{
    if linear_component > 0 {
        fx_sqrt(linear_component)
    } else {
        0
    }
}

pub open spec fn clamp_s(x: int, lo: int, hi: int) -> int {
    if x < lo {
        lo
    } else if x > hi {
        hi
    } else {
        x
    }
}

pub fn clamp(x: i64, min: i64, max: i64) -> (r: i64)
    ensures
        r == clamp_s(x as int, min as int, max as int),
{
    if x < min {
        min
    } else if x > max {
        max
    } else {
        x
    }
}

/// The quantized byte of one linear channel: gamma-correct, clamp to
/// [0, 0.999], scale by 256 and truncate.
pub open spec fn byte_s(x: int) -> int {
    tdiv(256 * clamp_s(gamma_s(x), 0, INTENSITY_MAX as int), FX_ONE as int)
}

pub fn channel_byte(x: i64) -> (r: u8)
    ensures
        r == byte_s(x as int),
{
    let g = linear_to_gamma(x);
    let c = clamp(g, 0, INTENSITY_MAX);
    proof {
        crate::vec3::lemma_tdiv_mag(256 * (c as int), FX_ONE as int, 256 * (INTENSITY_MAX as int));
        crate::fx::lemma_tdiv_nonneg(256 * (c as int), FX_ONE as int);
    }
    let q = tdiv_i128(256 * (c as i128), FX_ONE as i128);
    q as u8
}

/// The decimal digits of a byte, in ASCII.
pub open spec fn dec_byte_s(n: int) -> Seq<u8> {
    if n < 10 {
        seq![(48 + n) as u8]
    } else if n < 100 {
        seq![(48 + n / 10) as u8, (48 + n % 10) as u8]
    } else {
        seq![(48 + n / 100) as u8, (48 + (n / 10) % 10) as u8, (48 + n % 10) as u8]
    }
}

pub fn push_byte_decimal(out: &mut Vec<u8>, n: u8)
    ensures
        final(out)@ == old(out)@ + dec_byte_s(n as int),
{
    if n < 10 {
        out.push(48 + n);
    } else if n < 100 {
        out.push(48 + n / 10);
        out.push(48 + n % 10);
    } else {
        out.push(48 + n / 100);
        out.push(48 + (n / 10) % 10);
        out.push(48 + n % 10);
    }
    proof {
        assert(out@ =~= old(out)@ + dec_byte_s(n as int));
    }
}

/// One pixel's text line: "R G B" and a newline, each channel quantized
/// by byte_s. 32 is the space, 10 the newline.
pub open spec fn color_line_s(c: V3) -> Seq<u8> {
    dec_byte_s(byte_s(c.x)) + seq![32u8] + dec_byte_s(byte_s(c.y)) + seq![32u8] + dec_byte_s(
        byte_s(c.z),
    ) + seq![10u8]
}

/// Appends the gamma-corrected, clamped, quantized "R G B" line of one
/// pixel.
pub fn write_color(out: &mut Vec<u8>, pixel_color: &Vec3)
    ensures
        final(out)@ == old(out)@ + color_line_s(pixel_color@),
{
    let r = channel_byte(pixel_color.x);
    let g = channel_byte(pixel_color.y);
    let b = channel_byte(pixel_color.z);
    push_byte_decimal(out, r);
    out.push(32);
    push_byte_decimal(out, g);
    out.push(32);
    push_byte_decimal(out, b);
    out.push(10);
    proof {
        assert(out@ =~= old(out)@ + color_line_s(pixel_color@));
    }
}

} // verus!
