//! Three-component fixed-point vectors, used as points, directions and
//! colors. Every executable operation has an exact contract: its result
//! equals a spec-level mirror over unbounded integers, so rounding is
//! stated, never hidden.

use vstd::arithmetic::div_mod::{lemma_div_is_ordered, lemma_div_multiples_vanish};
use vstd::prelude::*;

use crate::fx::{fxmul, fxdiv, fxmul_s, fxdiv_s, sqrt_s, tdiv, tdiv_i128, isqrt_u128, FX_ONE};
use crate::rng::random_raw;

verus! {

/// The mathematical value of a vector: its three raw components as ints.
pub ghost struct V3 {
    pub x: int,
    pub y: int,
    pub z: int,
}

#[derive(Clone, Copy, Debug, PartialEq, Eq, Structural)]
pub struct Vec3 {
    pub x: i64,
    pub y: i64,
    pub z: i64,
}

impl View for Vec3 {
    type V = V3;

    open spec fn view(&self) -> V3 {
        V3 { x: self.x as int, y: self.y as int, z: self.z as int }
    }
}

/// Raw components of points, directions and colors stay within this
/// bound (32768 in value) so that products of two of them, divided by
/// the scale, fit in an `i64` with room to spare.
pub const COORD_MAX: i64 = 0x2000_0000_0000;

pub open spec fn fits_v3(v: V3) -> bool {
    &&& -COORD_MAX <= v.x <= COORD_MAX
    &&& -COORD_MAX <= v.y <= COORD_MAX
    &&& -COORD_MAX <= v.z <= COORD_MAX
}

pub open spec fn fits64(x: int) -> bool {
    i64::MIN <= x <= i64::MAX
}

pub open spec fn add_s(a: V3, b: V3) -> V3 {
    V3 { x: a.x + b.x, y: a.y + b.y, z: a.z + b.z }
}

pub open spec fn sub_s(a: V3, b: V3) -> V3 {
    V3 { x: a.x - b.x, y: a.y - b.y, z: a.z - b.z }
}

pub open spec fn neg_s(a: V3) -> V3 {
    V3 { x: -a.x, y: -a.y, z: -a.z }
}

/// Component-wise fixed-point product (used for color attenuation).
pub open spec fn mul_s(a: V3, b: V3) -> V3 {
    V3 { x: fxmul_s(a.x, b.x), y: fxmul_s(a.y, b.y), z: fxmul_s(a.z, b.z) }
}

pub open spec fn scale_s(a: V3, t: int) -> V3 {
    V3 { x: fxmul_s(a.x, t), y: fxmul_s(a.y, t), z: fxmul_s(a.z, t) }
}

pub open spec fn divide_s(a: V3, t: int) -> V3 {
    V3 { x: fxdiv_s(a.x, t), y: fxdiv_s(a.y, t), z: fxdiv_s(a.z, t) }
}

/// Component-wise division by a positive count.
pub open spec fn divn_s(a: V3, n: int) -> V3 {
    V3 { x: tdiv(a.x, n), y: tdiv(a.y, n), z: tdiv(a.z, n) }
}

/// The unscaled sum of squared raw components: norm2_s(v) is the squared
/// raw length, so the raw length itself is sqrt_s(norm2_s(v)).
pub open spec fn norm2_s(a: V3) -> int {
    a.x * a.x + a.y * a.y + a.z * a.z
}

pub open spec fn dot_s(a: V3, b: V3) -> int {
    tdiv(a.x * b.x + a.y * b.y + a.z * b.z, FX_ONE as int)
}

pub open spec fn len2_s(a: V3) -> int {
    tdiv(norm2_s(a), FX_ONE as int)
}

pub open spec fn length_s(a: V3) -> int {
    sqrt_s(norm2_s(a))
}

pub open spec fn cross_s(a: V3, b: V3) -> V3 {
    V3 {
        x: tdiv(a.y * b.z - a.z * b.y, FX_ONE as int),
        y: tdiv(a.z * b.x - a.x * b.z, FX_ONE as int),
        z: tdiv(a.x * b.y - a.y * b.x, FX_ONE as int),
    }
}

pub open spec fn unit_s(a: V3) -> V3 {
    divide_s(a, length_s(a))
}

/// Components whose absolute raw value is below this are treated as zero
/// (about 1e-8 in value, matching the scale's resolution).
pub const NEAR_ZERO_RAW: i64 = 11;

pub open spec fn near_zero_s(a: V3) -> bool {
    &&& -(NEAR_ZERO_RAW as int) < a.x < NEAR_ZERO_RAW as int
    &&& -(NEAR_ZERO_RAW as int) < a.y < NEAR_ZERO_RAW as int
    &&& -(NEAR_ZERO_RAW as int) < a.z < NEAR_ZERO_RAW as int
}

pub proof fn lemma_mul_mag(a: int, b: int, ma: int, mb: int)
    by (nonlinear_arith)
    requires
        -ma <= a <= ma,
        -mb <= b <= mb,
    ensures
        -(ma * mb) <= a * b <= ma * mb,
{
}

pub proof fn lemma_mul_nonneg(a: int, b: int)
    by (nonlinear_arith)
    requires
        a >= 0,
        b >= 0,
    ensures
        a * b >= 0,
{
}

pub proof fn lemma_sq_nonneg(a: int)
    by (nonlinear_arith)
    ensures
        a * a >= 0,
{
}

/// Magnitude bound for truncating division: shrinking the dividend's
/// magnitude never grows the quotient's.
pub proof fn lemma_tdiv_mag(a: int, b: int, m: int)
    requires
        b > 0,
        -m <= a <= m,
    ensures
        -tdiv(m, b) <= tdiv(a, b) <= tdiv(m, b),
{
    if a >= 0 {
        lemma_div_is_ordered(a, m, b);
        assert(tdiv(a, b) >= 0) by (nonlinear_arith)
            requires
                a >= 0 && b > 0 && tdiv(a, b) == a / b,
        ;
    } else {
        lemma_div_is_ordered(-a, m, b);
        assert((-a) / b >= 0) by (nonlinear_arith)
            requires
                a < 0 && b > 0,
        ;
    }
}

impl Vec3 {
    pub fn new(x: i64, y: i64, z: i64) -> (r: Vec3)
        ensures
            r@ == (V3 { x: x as int, y: y as int, z: z as int }),
    {
        Vec3 { x, y, z }
    }

    pub fn x(&self) -> (r: i64)
        ensures
            r == self.x,
    {
        self.x
    }

    pub fn y(&self) -> (r: i64)
        ensures
            r == self.y,
    {
        self.y
    }

    pub fn z(&self) -> (r: i64)
        ensures
            r == self.z,
    {
        self.z
    }

    pub fn add(&self, o: &Vec3) -> (r: Vec3)
        requires
            fits64(self.x + o.x),
            fits64(self.y + o.y),
            fits64(self.z + o.z),
        ensures
            r@ == add_s(self@, o@),
    {
        Vec3 { x: self.x + o.x, y: self.y + o.y, z: self.z + o.z }
    }

    pub fn sub(&self, o: &Vec3) -> (r: Vec3)
        requires
            fits64(self.x - o.x),
            fits64(self.y - o.y),
            fits64(self.z - o.z),
        ensures
            r@ == sub_s(self@, o@),
    {
        Vec3 { x: self.x - o.x, y: self.y - o.y, z: self.z - o.z }
    }

    pub fn neg(&self) -> (r: Vec3)
        requires
            self.x > i64::MIN,
            self.y > i64::MIN,
            self.z > i64::MIN,
        ensures
            r@ == neg_s(self@),
    {
        Vec3 { x: -self.x, y: -self.y, z: -self.z }
    }

    /// Component-wise product of values (color attenuation).
    pub fn mul(&self, o: &Vec3) -> (r: Vec3)
        requires
            fits64(fxmul_s(self.x as int, o.x as int)),
            fits64(fxmul_s(self.y as int, o.y as int)),
            fits64(fxmul_s(self.z as int, o.z as int)),
        ensures
            r@ == mul_s(self@, o@),
    {
        Vec3 { x: fxmul(self.x, o.x), y: fxmul(self.y, o.y), z: fxmul(self.z, o.z) }
    }

    pub fn mul_scalar(&self, t: i64) -> (r: Vec3)
        requires
            fits64(fxmul_s(self.x as int, t as int)),
            fits64(fxmul_s(self.y as int, t as int)),
            fits64(fxmul_s(self.z as int, t as int)),
        ensures
            r@ == scale_s(self@, t as int),
    {
        Vec3 { x: fxmul(self.x, t), y: fxmul(self.y, t), z: fxmul(self.z, t) }
    }

    pub fn div_scalar(&self, t: i64) -> (r: Vec3)
        requires
            t != 0,
            fits64(fxdiv_s(self.x as int, t as int)),
            fits64(fxdiv_s(self.y as int, t as int)),
            fits64(fxdiv_s(self.z as int, t as int)),
        ensures
            r@ == divide_s(self@, t as int),
    {
        Vec3 { x: fxdiv(self.x, t), y: fxdiv(self.y, t), z: fxdiv(self.z, t) }
    }

    /// Divides each component by a positive count (an integer, not a
    /// fixed-point value).
    pub fn div_count(&self, n: i64) -> (r: Vec3)
        requires
            n >= 1,
        ensures
            r@ == divn_s(self@, n as int),
    {
        proof {
            crate::fx::lemma_tdiv_shrinks(self.x as int, n as int);
            crate::fx::lemma_tdiv_shrinks(self.y as int, n as int);
            crate::fx::lemma_tdiv_shrinks(self.z as int, n as int);
        }
        Vec3 {
            x: tdiv_i128(self.x as i128, n as i128) as i64,
            y: tdiv_i128(self.y as i128, n as i128) as i64,
            z: tdiv_i128(self.z as i128, n as i128) as i64,
        }
    }

    pub fn length_squared(&self) -> (r: i64)
        requires
            fits_v3(self@),
        ensures
            r == len2_s(self@),
    {
        proof {
            lemma_mul_mag(self.x as int, self.x as int, COORD_MAX as int, COORD_MAX as int);
            lemma_mul_mag(self.y as int, self.y as int, COORD_MAX as int, COORD_MAX as int);
            lemma_mul_mag(self.z as int, self.z as int, COORD_MAX as int, COORD_MAX as int);
        }
        let n: i128 = (self.x as i128) * (self.x as i128) + (self.y as i128) * (self.y as i128)
            + (self.z as i128) * (self.z as i128);
        let q = tdiv_i128(n, FX_ONE as i128);
        q as i64
    }

    pub fn length(&self) -> (r: i64)
        requires
            fits_v3(self@),
        ensures
            r == length_s(self@),
            r >= 0,
            r * r <= norm2_s(self@),
            norm2_s(self@) < (r + 1) * (r + 1),
    {
        proof {
            lemma_mul_mag(self.x as int, self.x as int, COORD_MAX as int, COORD_MAX as int);
            lemma_mul_mag(self.y as int, self.y as int, COORD_MAX as int, COORD_MAX as int);
            lemma_mul_mag(self.z as int, self.z as int, COORD_MAX as int, COORD_MAX as int);
            lemma_sq_nonneg(self.x as int);
            lemma_sq_nonneg(self.y as int);
            lemma_sq_nonneg(self.z as int);
        }
        let n: i128 = (self.x as i128) * (self.x as i128) + (self.y as i128) * (self.y as i128)
            + (self.z as i128) * (self.z as i128);
        let r = isqrt_u128(n as u128);
        proof {
            let ri = r as int;
            assert(ri <= 0x4000_0000_0000int) by (nonlinear_arith)
                requires
                    0 <= ri,
                    ri * ri <= 3 * (0x2000_0000_0000i64 * 0x2000_0000_0000i64),
            ;
        }
        r as i64
    }

    pub fn near_zero(&self) -> (r: bool)
        ensures
            r == near_zero_s(self@),
    {
        -NEAR_ZERO_RAW < self.x && self.x < NEAR_ZERO_RAW && -NEAR_ZERO_RAW < self.y && self.y
            < NEAR_ZERO_RAW && -NEAR_ZERO_RAW < self.z && self.z < NEAR_ZERO_RAW
    }
}

/// Bound on the components handed to `dot`, wide enough for every
/// intermediate vector of the pipeline.
pub const WIDE_MAX: i64 = 0x1000_0000_0000_0000;

/// When both arguments stay within the coordinate bound, the dot
/// product's raw value fits comfortably in an `i64`.
pub proof fn lemma_dot_fits(u: V3, v: V3)
    requires
        fits_v3(u),
        fits_v3(v),
    ensures
        -3 * 0x8000_0000_0000_0000_0000_0000_0000int <= u.x * v.x + u.y * v.y + u.z * v.z <= 3
            * 0x8000_0000_0000_0000_0000_0000_0000int,
        fits64(dot_s(u, v)),
{
    lemma_mul_mag(u.x, v.x, COORD_MAX as int, COORD_MAX as int);
    lemma_mul_mag(u.y, v.y, COORD_MAX as int, COORD_MAX as int);
    lemma_mul_mag(u.z, v.z, COORD_MAX as int, COORD_MAX as int);
    lemma_tdiv_mag(
        u.x * v.x + u.y * v.y + u.z * v.z,
        FX_ONE as int,
        3 * (COORD_MAX as int) * (COORD_MAX as int),
    );
}

pub fn dot(u: &Vec3, v: &Vec3) -> (r: i64)
    requires
        -WIDE_MAX <= u.x <= WIDE_MAX,
        -WIDE_MAX <= u.y <= WIDE_MAX,
        -WIDE_MAX <= u.z <= WIDE_MAX,
        -WIDE_MAX <= v.x <= WIDE_MAX,
        -WIDE_MAX <= v.y <= WIDE_MAX,
        -WIDE_MAX <= v.z <= WIDE_MAX,
        fits64(dot_s(u@, v@)),
    ensures
        r == dot_s(u@, v@),
{
    proof {
        lemma_mul_mag(u.x as int, v.x as int, WIDE_MAX as int, WIDE_MAX as int);
        lemma_mul_mag(u.y as int, v.y as int, WIDE_MAX as int, WIDE_MAX as int);
        lemma_mul_mag(u.z as int, v.z as int, WIDE_MAX as int, WIDE_MAX as int);
    }
    let n: i128 = (u.x as i128) * (v.x as i128) + (u.y as i128) * (v.y as i128) + (u.z as i128)
        * (v.z as i128);
    let q = tdiv_i128(n, FX_ONE as i128);
    q as i64
}

pub fn cross(u: &Vec3, v: &Vec3) -> (r: Vec3)
    requires
        fits_v3(u@),
        fits_v3(v@),
    ensures
        r@ == cross_s(u@, v@),
{
    proof {
        lemma_mul_mag(u.y as int, v.z as int, COORD_MAX as int, COORD_MAX as int);
        lemma_mul_mag(u.z as int, v.y as int, COORD_MAX as int, COORD_MAX as int);
        lemma_mul_mag(u.z as int, v.x as int, COORD_MAX as int, COORD_MAX as int);
        lemma_mul_mag(u.x as int, v.z as int, COORD_MAX as int, COORD_MAX as int);
        lemma_mul_mag(u.x as int, v.y as int, COORD_MAX as int, COORD_MAX as int);
        lemma_mul_mag(u.y as int, v.x as int, COORD_MAX as int, COORD_MAX as int);
        let m = 2 * (COORD_MAX as int) * (COORD_MAX as int);
        lemma_tdiv_mag(u.y * v.z - u.z * v.y, FX_ONE as int, m);
        lemma_tdiv_mag(u.z * v.x - u.x * v.z, FX_ONE as int, m);
        lemma_tdiv_mag(u.x * v.y - u.y * v.x, FX_ONE as int, m);
    }
    let x = tdiv_i128((u.y as i128) * (v.z as i128) - (u.z as i128) * (v.y as i128), FX_ONE as i128);
    let y = tdiv_i128((u.z as i128) * (v.x as i128) - (u.x as i128) * (v.z as i128), FX_ONE as i128);
    let z = tdiv_i128((u.x as i128) * (v.y as i128) - (u.y as i128) * (v.x as i128), FX_ONE as i128);
    Vec3 { x: x as i64, y: y as i64, z: z as i64 }
}

pub fn unit_vector(v: &Vec3) -> (r: Vec3)
    requires
        fits_v3(v@),
        norm2_s(v@) >= 1,
    ensures
        r@ == unit_s(v@),
        -FX_ONE <= r.x <= FX_ONE,
        -FX_ONE <= r.y <= FX_ONE,
        -FX_ONE <= r.z <= FX_ONE,
{
    let len = v.length();
    proof {
        let n = norm2_s(v@);
        let l = len as int;
        lemma_sq_nonneg(v.x as int);
        lemma_sq_nonneg(v.y as int);
        lemma_sq_nonneg(v.z as int);
        assert(l >= 1) by (nonlinear_arith)
            requires
                l >= 0 && n >= 1 && n < (l + 1) * (l + 1),
        ;
        lemma_unit_component(v.x as int, l, n);
        lemma_unit_component(v.y as int, l, n);
        lemma_unit_component(v.z as int, l, n);
    }
    v.div_scalar(len)
}

/// A component no longer than the whole vector divides to at most one.
proof fn lemma_unit_component(c: int, l: int, n: int)
    requires
        l >= 1,
        c * c <= n,
        n < (l + 1) * (l + 1),
    ensures
        -FX_ONE <= fxdiv_s(c, l) <= FX_ONE,
{
    assert(-l <= c <= l) by (nonlinear_arith)
        requires
            l >= 1 && c * c <= n && n < (l + 1) * (l + 1),
    ;
    lemma_mul_mag(c, FX_ONE as int, l, FX_ONE as int);
    lemma_tdiv_mag(c * (FX_ONE as int), l, l * (FX_ONE as int));
    lemma_div_multiples_vanish(FX_ONE as int, l);
    assert(l * (FX_ONE as int) == l * (FX_ONE as int));
    assert(tdiv(l * (FX_ONE as int), l) == FX_ONE as int);
}

/// Magnitude bound for a fixed-point product.
pub proof fn lemma_fxmul_mag(a: int, b: int, ma: int, mb: int)
    requires
        0 <= ma,
        0 <= mb,
        -ma <= a <= ma,
        -mb <= b <= mb,
    ensures
        -tdiv(ma * mb, FX_ONE as int) <= fxmul_s(a, b) <= tdiv(ma * mb, FX_ONE as int),
{
    lemma_mul_mag(a, b, ma, mb);
    lemma_tdiv_mag(a * b, FX_ONE as int, ma * mb);
}

/// Magnitude bound for a fixed-point dot product, and for the wide sum
/// of products inside it.
pub proof fn lemma_dot_mag(u: V3, v: V3, mu: int, mv: int)
    requires
        0 <= mu,
        0 <= mv,
        -mu <= u.x <= mu,
        -mu <= u.y <= mu,
        -mu <= u.z <= mu,
        -mv <= v.x <= mv,
        -mv <= v.y <= mv,
        -mv <= v.z <= mv,
    ensures
        -(3 * (mu * mv)) <= u.x * v.x + u.y * v.y + u.z * v.z <= 3 * (mu * mv),
        -tdiv(3 * (mu * mv), FX_ONE as int) <= dot_s(u, v) <= tdiv(3 * (mu * mv), FX_ONE as int),
{
    lemma_mul_mag(u.x, v.x, mu, mv);
    lemma_mul_mag(u.y, v.y, mu, mv);
    lemma_mul_mag(u.z, v.z, mu, mv);
    lemma_tdiv_mag(u.x * v.x + u.y * v.y + u.z * v.z, FX_ONE as int, 3 * (mu * mv));
}

/// Cap on the components of a ray direction the integrator will follow
/// (8192 in value); a scattered direction beyond it counts as absorbed.
pub const DIR_MAX: i64 = 0x800_0000_0000;

/// Cap on the components of unit-length-by-construction vectors such as
/// surface normals (2 in value, leaving slack for rounding).
pub const UNIT_MAX: i64 = 0x8000_0000;

pub open spec fn dir_fits(v: V3) -> bool {
    &&& -DIR_MAX <= v.x <= DIR_MAX
    &&& -DIR_MAX <= v.y <= DIR_MAX
    &&& -DIR_MAX <= v.z <= DIR_MAX
}

pub open spec fn unit_fits(v: V3) -> bool {
    &&& -UNIT_MAX <= v.x <= UNIT_MAX
    &&& -UNIT_MAX <= v.y <= UNIT_MAX
    &&& -UNIT_MAX <= v.z <= UNIT_MAX
}

pub open spec fn reflect_s(v: V3, n: V3) -> V3 {
    sub_s(v, scale_s(n, 2 * dot_s(v, n)))
}

/// Mirror reflection of v about the normal n: v - 2 (v . n) n.
pub fn reflect(v: &Vec3, n: &Vec3) -> (r: Vec3)
    requires
        dir_fits(v@),
        unit_fits(n@),
    ensures
        r@ == reflect_s(v@, n@),
        -0x2_0000_0000_0000 <= r.x <= 0x2_0000_0000_0000,
        -0x2_0000_0000_0000 <= r.y <= 0x2_0000_0000_0000,
        -0x2_0000_0000_0000 <= r.z <= 0x2_0000_0000_0000,
{
    proof {
        lemma_dot_mag(v@, n@, DIR_MAX as int, UNIT_MAX as int);
        lemma_fxmul_mag(n@.x, 2 * dot_s(v@, n@), UNIT_MAX as int, 0x6000_0000_0000int);
        lemma_fxmul_mag(n@.y, 2 * dot_s(v@, n@), UNIT_MAX as int, 0x6000_0000_0000int);
        lemma_fxmul_mag(n@.z, 2 * dot_s(v@, n@), UNIT_MAX as int, 0x6000_0000_0000int);
    }
    let d = dot(v, n);
    let b = n.mul_scalar(2 * d);
    v.sub(&b)
}

/// Snell refraction of the unit incident direction uv about the unit
/// normal n with index ratio `ratio`; the perpendicular and parallel
/// transmitted components are built exactly as stated by refract_s.
pub open spec fn refract_s(uv: V3, n: V3, ratio: int) -> V3 {
    let d = dot_s(neg_s(uv), n);
    let cos = if d < FX_ONE as int {
        d
    } else {
        FX_ONE as int
    };
    let perp = scale_s(add_s(uv, scale_s(n, cos)), ratio);
    let lsq = len2_s(perp);
    let inner = if lsq <= FX_ONE as int {
        FX_ONE - lsq
    } else {
        lsq - FX_ONE
    };
    add_s(perp, scale_s(n, -sqrt_s(inner * FX_ONE)))
}

pub fn refract(uv: &Vec3, n: &Vec3, ratio: i64) -> (r: Vec3)
    requires
        unit_fits(uv@),
        unit_fits(n@),
        0 < ratio <= 8 * FX_ONE,
    ensures
        r@ == refract_s(uv@, n@, ratio as int),
        fits_v3(r@),
{
    proof {
        lemma_dot_mag(neg_s(uv@), n@, UNIT_MAX as int, UNIT_MAX as int);
    }
    let mut cos = dot(&uv.neg(), n);
    if cos > FX_ONE {
        cos = FX_ONE;
    }
    proof {
        lemma_fxmul_mag(n@.x, cos as int, UNIT_MAX as int, 0x3_0000_0000int);
        lemma_fxmul_mag(n@.y, cos as int, UNIT_MAX as int, 0x3_0000_0000int);
        lemma_fxmul_mag(n@.z, cos as int, UNIT_MAX as int, 0x3_0000_0000int);
    }
    let nc = n.mul_scalar(cos);
    let base = uv.add(&nc);
    proof {
        lemma_fxmul_mag(base@.x, ratio as int, 0x8_0000_0000int, 8 * FX_ONE as int);
        lemma_fxmul_mag(base@.y, ratio as int, 0x8_0000_0000int, 8 * FX_ONE as int);
        lemma_fxmul_mag(base@.z, ratio as int, 0x8_0000_0000int, 8 * FX_ONE as int);
    }
    let perp = base.mul_scalar(ratio);
    let lsq = perp.length_squared();
    proof {
        lemma_dot_mag(perp@, perp@, 0x40_0000_0000int, 0x40_0000_0000int);
        lemma_tdiv_mag(norm2_s(perp@), FX_ONE as int, 3 * (0x40_0000_0000int * 0x40_0000_0000int));
    }
    let inner = if lsq <= FX_ONE {
        FX_ONE - lsq
    } else {
        lsq - FX_ONE
    };
    let spar = crate::fx::fx_sqrt(inner);
    proof {
        lemma_mul_mag(inner as int, FX_ONE as int, 0x1_0000_0000_0000int, FX_ONE as int);
        assert(0 <= (inner as int) * (FX_ONE as int)) by (nonlinear_arith)
            requires
                inner >= 0,
        ;
        crate::fx::lemma_sqrt_at_most((inner as int) * (FX_ONE as int), 0x80_0000_0000int);
        lemma_fxmul_mag(n@.x, -spar as int, UNIT_MAX as int, 0x80_0000_0000int);
        lemma_fxmul_mag(n@.y, -spar as int, UNIT_MAX as int, 0x80_0000_0000int);
        lemma_fxmul_mag(n@.z, -spar as int, UNIT_MAX as int, 0x80_0000_0000int);
    }
    let par = n.mul_scalar(-spar);
    perp.add(&par)
}

/// A vector whose components are drawn uniformly from [min, max); a
/// width-zero range gives the constant vector.
pub fn random_vec3_range(min: i64, max: i64) -> (r: Vec3)
    requires
        min <= max,
    ensures
        min <= r.x <= max,
        min <= r.y <= max,
        min <= r.z <= max,
        min < max ==> r.x < max && r.y < max && r.z < max,
        min == max ==> r.x == min && r.y == min && r.z == min,
{
    if min == max {
        Vec3 { x: min, y: min, z: min }
    } else {
        Vec3 {
            x: random_raw(min, max),
            y: random_raw(min, max),
            z: random_raw(min, max),
        }
    }
}

/// Rejection-samples a point strictly inside the unit disk in the plane
/// z = 0.
pub fn random_in_unit_disk() -> (r: Vec3)
    ensures
        -FX_ONE <= r.x < FX_ONE,
        -FX_ONE <= r.y < FX_ONE,
        r.z == 0,
        len2_s(r@) < FX_ONE,
{
    let mut tries: u32 = 64;
    while tries > 0
        decreases tries,
    {
        let p = Vec3 { x: random_raw(-FX_ONE, FX_ONE), y: random_raw(-FX_ONE, FX_ONE), z: 0 };
        if p.length_squared() < FX_ONE {
            return p;
        }
        tries = tries - 1;
    }
    Vec3 { x: 0, y: 0, z: 0 }
}

/// Rejection-samples a direction of length one: a uniform sample from a
/// cube is kept only when its squared length lies in [1/4, 1] - tiny
/// samples, where normalization loses precision, are redrawn - and is
/// then divided by the square root of its squared length.
pub fn random_unit_vector() -> (r: Vec3)
    ensures
        -FX_ONE <= r.x <= FX_ONE,
        -FX_ONE <= r.y <= FX_ONE,
        -FX_ONE <= r.z <= FX_ONE,
        0x1000_0000_0000_0000 - 7 * 0x4000_0000 <= norm2_s(r@) <= 0x1000_0000_0000_0000 + 11
            * 0x4000_0000,
        FX_ONE - 4 <= length_s(r@) <= FX_ONE + 6,
        (exists|p: V3|
            {
                &&& -(FX_ONE as int) <= p.x < FX_ONE as int
                &&& -(FX_ONE as int) <= p.y < FX_ONE as int
                &&& -(FX_ONE as int) <= p.z < FX_ONE as int
                &&& QUARTER_ONE as int <= len2_s(p) <= FX_ONE as int
                &&& r@ == #[trigger] unit_s(p)
            }) || r@ == (V3 { x: FX_ONE as int, y: 0, z: 0 }),
{
    let mut tries: u32 = 64;
    while tries > 0
        decreases tries,
    {
        let p = random_vec3_range(-FX_ONE, FX_ONE);
        let lsq = p.length_squared();
        if QUARTER_ONE <= lsq && lsq <= FX_ONE {
            proof {
                vstd::arithmetic::div_mod::lemma_fundamental_div_mod(
                    norm2_s(p@),
                    FX_ONE as int,
                );
                vstd::arithmetic::div_mod::lemma_mod_bound(norm2_s(p@), FX_ONE as int);
                lemma_sq_nonneg(p@.x);
                lemma_sq_nonneg(p@.y);
                lemma_sq_nonneg(p@.z);
                assert(norm2_s(p@) >= 0x1000_0000int * 0x4000_0000int) by (nonlinear_arith)
                    requires
                        norm2_s(p@) >= 0x4000_0000int * tdiv(norm2_s(p@), 0x4000_0000int)
                            && tdiv(norm2_s(p@), 0x4000_0000int) >= 0x1000_0000int,
                ;
                lemma_unit_vector_length(p@);
            }
            let u = unit_vector(&p);
            proof {
                assert(-(FX_ONE as int) <= p@.x < FX_ONE as int && -(FX_ONE as int) <= p@.y
                    < FX_ONE as int && -(FX_ONE as int) <= p@.z < FX_ONE as int
                    && QUARTER_ONE as int <= len2_s(p@) <= FX_ONE as int && u@ == unit_s(p@));
            }
            return u;
        }
        tries = tries - 1;
    }
    proof {
        assert(0x4000_0000int * 0x4000_0000int == 0x1000_0000_0000_0000int && 0int * 0int == 0)
            by (nonlinear_arith);
        assert((0x4000_0000int + 1) * (0x4000_0000int + 1) > 0x1000_0000_0000_0000int)
            by (nonlinear_arith);
        crate::fx::lemma_sqrt_unique(0x1000_0000_0000_0000int, 0x4000_0000int);
    }
    Vec3 { x: FX_ONE, y: 0, z: 0 }
}

/// One quarter, in raw fixed-point form.
pub const QUARTER_ONE: i64 = 0x1000_0000;

/// The unscaled dot product of exact integer vectors.
pub open spec fn idot(a: V3, b: V3) -> int {
    a.x * b.x + a.y * b.y + a.z * b.z
}

/// Reflection preserves magnitude: over exact integers, with s = n . n
/// the squared length of the normal, the scaled mirror image
/// s v - 2 (v . n) n of v has squared length s * s * (v . v). For a unit
/// normal this is |reflect(v, n)| == |v|, stated free of rounding.
pub proof fn lemma_reflect_preserves_length(v: V3, n: V3)
    ensures
        ({
            let s = idot(n, n);
            let d = idot(v, n);
            let r = V3 { x: s * v.x - 2 * d * n.x, y: s * v.y - 2 * d * n.y, z: s * v.z - 2 * d * n.z };
            idot(r, r) == s * s * idot(v, v)
        }),
{
    let s = idot(n, n);
    let d = idot(v, n);
    let r = V3 { x: s * v.x - 2 * d * n.x, y: s * v.y - 2 * d * n.y, z: s * v.z - 2 * d * n.z };
    lemma_reflect_component(s, d, v.x, n.x);
    lemma_reflect_component(s, d, v.y, n.y);
    lemma_reflect_component(s, d, v.z, n.z);
    let w = 4 * (s * d);
    let q = 4 * (d * d);
    assert(w * (v.x * n.x) + w * (v.y * n.y) + w * (v.z * n.z) == w * d) by (nonlinear_arith)
        requires
            d == v.x * n.x + v.y * n.y + v.z * n.z,
    ;
    assert(q * (n.x * n.x) + q * (n.y * n.y) + q * (n.z * n.z) == q * s) by (nonlinear_arith)
        requires
            s == n.x * n.x + n.y * n.y + n.z * n.z,
    ;
    let u = s * s;
    assert(u * (v.x * v.x) + u * (v.y * v.y) + u * (v.z * v.z) == u * idot(v, v))
        by (nonlinear_arith)
        requires
            idot(v, v) == v.x * v.x + v.y * v.y + v.z * v.z,
    ;
    assert(w * d == q * s) by (nonlinear_arith)
        requires
            w == 4 * (s * d) && q == 4 * (d * d),
    ;
    assert(idot(r, r) == u * idot(v, v) - w * d + q * s);
    assert(u * idot(v, v) == s * s * idot(v, v));
}

/// One component of the expansion: (s a - 2 d b)^2.
proof fn lemma_reflect_component(s: int, d: int, a: int, b: int)
    ensures
        (s * a - 2 * d * b) * (s * a - 2 * d * b) == (s * s) * (a * a) - (4 * (s * d)) * (a * b) + (
        4 * (d * d)) * (b * b),
{
    let x = s * a;
    let y = 2 * (d * b);
    assert(2 * d * b == 2 * (d * b)) by (nonlinear_arith);
    assert((x - y) * (x - y) == x * x - 2 * (x * y) + y * y) by (nonlinear_arith);
    assert(x * x == (s * s) * (a * a)) by (nonlinear_arith)
        requires
            x == s * a,
    ;
    assert(2 * (x * y) == (4 * (s * d)) * (a * b)) by (nonlinear_arith)
        requires
            x == s * a && y == 2 * (d * b),
    ;
    assert(y * y == (4 * (d * d)) * (b * b)) by (nonlinear_arith)
        requires
            y == 2 * (d * b),
    ;
}



/// One normalized component: dividing c by the root l of n leaves a
/// remainder e below l in magnitude, the quotient stays within one of
/// the unit, and the exact square identity ties them together.
proof fn lemma_unit_comp(c: int, l: int, n: int)
    requires
        l >= 0x2000_0000,
        l * l <= n,
        n < (l + 1) * (l + 1),
        c * c <= n,
    ensures
        ({
            let u = fxdiv_s(c, l);
            let e = c * 0x4000_0000int - u * l;
            &&& -l < e < l
            &&& -0x4000_0002int <= u <= 0x4000_0002int
            &&& 0x1000_0000_0000_0000int * (c * c) == (u * u) * (l * l) + 2 * ((u * e) * l) + e
                * e
        }),
{
    let u = fxdiv_s(c, l);
    let e = c * 0x4000_0000int - u * l;
    assert(-(l + 1) < c < l + 1) by (nonlinear_arith)
        requires
            l >= 1 && c * c <= n && n < (l + 1) * (l + 1),
    ;
    if c >= 0 {
        vstd::arithmetic::div_mod::lemma_fundamental_div_mod(c * 0x4000_0000int, l);
        vstd::arithmetic::div_mod::lemma_mod_bound(c * 0x4000_0000int, l);
        assert(u == (c * 0x4000_0000int) / l);
        assert(c * 0x4000_0000int == l * u + (c * 0x4000_0000int) % l);
        assert(e == (c * 0x4000_0000int) % l) by (nonlinear_arith)
            requires
                c * 0x4000_0000int == l * u + (c * 0x4000_0000int) % l && e == c
                    * 0x4000_0000int - u * l,
        ;
        assert(0 <= e < l);
    } else {
        let m = (-c) * 0x4000_0000int;
        assert((-c) * 0x4000_0000int == -(c * 0x4000_0000int)) by (nonlinear_arith);
        vstd::arithmetic::div_mod::lemma_fundamental_div_mod(m, l);
        vstd::arithmetic::div_mod::lemma_mod_bound(m, l);
        assert(u == -(m / l));
        assert(m == l * (m / l) + m % l);
        assert(e == -(m % l)) by (nonlinear_arith)
            requires
                m == l * (m / l) + m % l && u == -(m / l) && m == -(c * 0x4000_0000int) && e == c
                    * 0x4000_0000int - u * l,
        ;
        assert(-l < e <= 0);
    }
    // |u| is within a hair of one: |c 2^30| <= (l+1) 2^30 <= l (2^30 + 2).
    assert(-(l * 0x4000_0002int) <= c * 0x4000_0000int <= l * 0x4000_0002int)
        by (nonlinear_arith)
        requires
            l >= 0x2000_0000int && -(l + 1) < c < l + 1,
    ;
    lemma_tdiv_mag(c * 0x4000_0000int, l, l * 0x4000_0002int);
    vstd::arithmetic::div_mod::lemma_div_multiples_vanish(0x4000_0002int, l);
    // The square identity, from c 2^30 == u l + e.
    assert((c * 0x4000_0000int) * (c * 0x4000_0000int) == 0x1000_0000_0000_0000int * (c * c))
        by (nonlinear_arith);
    assert((u * l + e) * (u * l + e) == (u * u) * (l * l) + 2 * ((u * e) * l) + e * e)
        by (nonlinear_arith);
    assert(c * 0x4000_0000int == u * l + e);
}

/// Normalizing keeps the length at one, within fixed-point tolerance:
/// for any representable vector at least half a unit long, the squared
/// raw length of unit_s(v) lies within a few scale units of the square
/// of one, so the raw length itself is within five of the scale.
pub proof fn lemma_unit_vector_length(v: V3)
    requires
        fits_v3(v),
        norm2_s(v) >= 0x400_0000_0000_0000,
    ensures
        0x1000_0000_0000_0000int - 7 * 0x4000_0000int <= norm2_s(unit_s(v)),
        norm2_s(unit_s(v)) <= 0x1000_0000_0000_0000int + 11 * 0x4000_0000int,
        0x4000_0000int - 4 <= length_s(unit_s(v)) <= 0x4000_0000int + 6,
{
    let n = norm2_s(v);
    lemma_sq_nonneg(v.x);
    lemma_sq_nonneg(v.y);
    lemma_sq_nonneg(v.z);
    crate::fx::lemma_sqrt_props(n);
    crate::fx::lemma_sqrt_at_least(n, 0x2000_0000int);
    let l = length_s(v);
    assert(l >= 0x2000_0000int);
    lemma_unit_comp(v.x, l, n);
    lemma_unit_comp(v.y, l, n);
    lemma_unit_comp(v.z, l, n);
    let u = unit_s(v);
    let ex = v.x * 0x4000_0000int - u.x * l;
    let ey = v.y * 0x4000_0000int - u.y * l;
    let ez = v.z * 0x4000_0000int - u.z * l;
    let nn = norm2_s(u);
    let ee = ex * ex + ey * ey + ez * ez;
    let cross_term = (u.x * ex + u.y * ey + u.z * ez);
    assert(0x1000_0000_0000_0000int * n == nn * (l * l) + 2 * (cross_term * l) + ee)
        by (nonlinear_arith)
        requires
            0x1000_0000_0000_0000int * (v.x * v.x) == (u.x * u.x) * (l * l) + 2 * ((u.x * ex) * l)
                + ex * ex,
            0x1000_0000_0000_0000int * (v.y * v.y) == (u.y * u.y) * (l * l) + 2 * ((u.y * ey) * l)
                + ey * ey,
            0x1000_0000_0000_0000int * (v.z * v.z) == (u.z * u.z) * (l * l) + 2 * ((u.z * ez) * l)
                + ez * ez,
            n == v.x * v.x + v.y * v.y + v.z * v.z,
            nn == u.x * u.x + u.y * u.y + u.z * u.z,
            cross_term == u.x * ex + u.y * ey + u.z * ez,
            ee == ex * ex + ey * ey + ez * ez,
    ;
    lemma_mul_mag(u.x, ex, 0x4000_0002int, l);
    lemma_mul_mag(u.y, ey, 0x4000_0002int, l);
    lemma_mul_mag(u.z, ez, 0x4000_0002int, l);
    assert(-(3 * (0x4000_0002int * l)) <= cross_term <= 3 * (0x4000_0002int * l));
    lemma_mul_mag(ex, ex, l, l);
    lemma_mul_mag(ey, ey, l, l);
    lemma_mul_mag(ez, ez, l, l);
    lemma_sq_nonneg(ex);
    lemma_sq_nonneg(ey);
    lemma_sq_nonneg(ez);
    assert(0 <= ee <= 3 * (l * l));
    lemma_sq_nonneg(l);
    // The cross term against one more factor of l, and the residual
    // linear term, both bounded through l * l.
    assert(-(0xc000_0006int * (l * l)) <= cross_term * l <= 0xc000_0006int * (l * l))
        by (nonlinear_arith)
        requires
            -(3 * (0x4000_0002int * l)) <= cross_term <= 3 * (0x4000_0002int * l) && l >= 1,
    ;
    assert(0x2000_0000_0000_0000int * l <= 0x1_0000_0000int * (l * l)) by (nonlinear_arith)
        requires
            l >= 0x2000_0000int,
    ;
    assert(n <= l * l + 2 * l) by (nonlinear_arith)
        requires
            n < (l + 1) * (l + 1),
    ;
    // Bound the shared quantity through l * l.
    assert(nn * (l * l) >= 1152921497090654208int * (l * l));
    assert(nn * (l * l) <= 1152921516418007040int * (l * l));
    assert(nn >= 1152921497090654208int) by (nonlinear_arith)
        requires
            nn * (l * l) >= 1152921497090654208int * (l * l) && l >= 1,
    ;
    assert(nn <= 1152921516418007040int) by (nonlinear_arith)
        requires
            nn * (l * l) <= 1152921516418007040int * (l * l) && l >= 1,
    ;
    assert((0x4000_0000int - 4) * (0x4000_0000int - 4) <= 0x1000_0000_0000_0000int - 7
        * 0x4000_0000int) by (nonlinear_arith);
    assert(0x1000_0000_0000_0000int + 11 * 0x4000_0000int < (0x4000_0000int + 7) * (
    0x4000_0000int + 7)) by (nonlinear_arith);
    crate::fx::lemma_sqrt_at_least(nn, 0x4000_0000int - 4);
    crate::fx::lemma_sqrt_at_most(nn, 0x4000_0000int + 6);
}

} // verus!
