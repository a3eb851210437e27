//! Fixed-point scalar arithmetic.
//!
//! A fixed-point number is an `i64` whose mathematical value is the raw
//! integer divided by `FX_ONE`. Multiplication and division of values are
//! integer operations on the raw representations, truncating toward zero;
//! the spec functions below state those operations exactly over `int`.

use vstd::prelude::*;

verus! {

/// Raw representation of the value one: values are scaled by 2^30.
pub const FX_ONE: i64 = 0x4000_0000;

/// Truncating (toward zero) division, the rounding used throughout;
/// meaningful for b != 0. `/` on nonnegative ints is Euclidean.
pub open spec fn tdiv(a: int, b: int) -> int {
    if a >= 0 && b >= 0 {
        a / b
    } else if a < 0 && b < 0 {
        (-a) / (-b)
    } else if a < 0 {
        -((-a) / b)
    } else {
        -(a / (-b))
    }
}

/// Raw representation of the product of two fixed-point values.
pub open spec fn fxmul_s(a: int, b: int) -> int {
    tdiv(a * b, FX_ONE as int)
}

/// Raw representation of the quotient a / b of two fixed-point values.
pub open spec fn fxdiv_s(a: int, b: int) -> int {
    tdiv(a * (FX_ONE as int), b)
}

/// The nonnegative integer square root: sqrt_s(n) is the unique r >= 0
/// with r * r <= n < (r + 1) * (r + 1), for n >= 0.
pub open spec fn sqrt_s(n: int) -> int {
    choose|r: int| 0 <= r && #[trigger] (r * r) <= n && n < (r + 1) * (r + 1)
}

pub proof fn lemma_sqrt_exists(n: nat)
    ensures
        exists|r: int| 0 <= r && #[trigger] (r * r) <= n && n < (r + 1) * (r + 1),
    decreases n,
{
    if n == 0 {
        let w: int = 0;
        assert(0 <= w && w * w <= n && n < (w + 1) * (w + 1));
    } else {
        lemma_sqrt_exists((n - 1) as nat);
        let r = choose|r: int| 0 <= r && #[trigger] (r * r) <= n - 1 && n - 1 < (r + 1) * (r + 1);
        if (r + 1) * (r + 1) <= n {
            assert(n - 1 < (r + 1) * (r + 1));
            assert(n == (r + 1) * (r + 1));
            assert((r + 2) * (r + 2) > n) by (nonlinear_arith)
                requires
                    n == (r + 1) * (r + 1) && r >= 0,
            ;
            assert(0 <= r + 1 && (r + 1) * (r + 1) <= n < (r + 2) * (r + 2));
        } else {
            assert(0 <= r && r * r <= n < (r + 1) * (r + 1));
        }
    }
}

pub proof fn lemma_sqrt_unique(n: int, r: int)
    requires
        0 <= r,
        r * r <= n,
        n < (r + 1) * (r + 1),
    ensures
        sqrt_s(n) == r,
{
    lemma_sqrt_exists(n as nat);
    let q = sqrt_s(n);
    assert(0 <= q && q * q <= n && n < (q + 1) * (q + 1));
    if q < r {
        assert((q + 1) * (q + 1) <= r * r) by (nonlinear_arith)
            requires
                0 <= q < r,
        ;
        assert(false);
    }
    if r < q {
        assert((r + 1) * (r + 1) <= q * q) by (nonlinear_arith)
            requires
                0 <= r < q,
        ;
        assert(false);
    }
}

/// The defining property of sqrt_s, available for any nonnegative input.
pub proof fn lemma_sqrt_props(n: int)
    requires
        n >= 0,
    ensures
        0 <= sqrt_s(n),
        sqrt_s(n) * sqrt_s(n) <= n,
        n < (sqrt_s(n) + 1) * (sqrt_s(n) + 1),
{
    lemma_sqrt_exists(n as nat);
}

pub proof fn lemma_sqrt_at_least(n: int, m: int)
    requires
        0 <= m,
        m * m <= n,
    ensures
        sqrt_s(n) >= m,
{
    lemma_sqrt_props(n);
    let r = sqrt_s(n);
    if r < m {
        assert((r + 1) * (r + 1) <= m * m) by (nonlinear_arith)
            requires
                0 <= r < m,
        ;
        assert(false);
    }
}

pub proof fn lemma_sqrt_at_most(n: int, m: int)
    requires
        0 <= n,
        0 <= m,
        n < (m + 1) * (m + 1),
    ensures
        sqrt_s(n) <= m,
{
    lemma_sqrt_props(n);
    let r = sqrt_s(n);
    if r > m {
        assert(r * r >= (m + 1) * (m + 1)) by (nonlinear_arith)
            requires
                0 <= m < r,
        ;
    }
}

pub proof fn lemma_tdiv_nonneg(a: int, b: int)
    requires
        a >= 0,
        b > 0,
    ensures
        tdiv(a, b) >= 0,
{
    vstd::arithmetic::div_mod::lemma_div_pos_is_pos(a, b);
}

/// Division by a positive count never grows a value's magnitude.
pub proof fn lemma_tdiv_shrinks(a: int, b: int)
    requires
        b >= 1,
    ensures
        a >= 0 ==> 0 <= tdiv(a, b) <= a,
        a < 0 ==> a <= tdiv(a, b) <= 0,
{
    if a >= 0 {
        vstd::arithmetic::div_mod::lemma_div_basics_5(a, b);
        vstd::arithmetic::div_mod::lemma_div_pos_is_pos(a, b);
    } else {
        vstd::arithmetic::div_mod::lemma_div_basics_5(-a, b);
        vstd::arithmetic::div_mod::lemma_div_pos_is_pos(-a, b);
    }
}

/// Truncating division is monotone in the dividend.
pub proof fn lemma_tdiv_monotone(x: int, y: int, b: int)
    requires
        x <= y,
        b > 0,
    ensures
        tdiv(x, b) <= tdiv(y, b),
{
    if x >= 0 {
        vstd::arithmetic::div_mod::lemma_div_is_ordered(x, y, b);
    } else if y >= 0 {
        vstd::arithmetic::div_mod::lemma_div_pos_is_pos(-x, b);
        vstd::arithmetic::div_mod::lemma_div_pos_is_pos(y, b);
    } else {
        vstd::arithmetic::div_mod::lemma_div_is_ordered(-y, -x, b);
    }
}

/// Truncating division of a wide intermediate by a positive divisor.
pub fn tdiv_i128(a: i128, b: i128) -> (r: i128)
    requires
        b > 0,
        a > i128::MIN,
    ensures
        r == tdiv(a as int, b as int),
{
    if a >= 0 {
        let q: u128 = (a as u128) / (b as u128);
        proof {
            assert(q <= a as int) by (nonlinear_arith)
                requires
                    q == (a as int) / (b as int) && a >= 0 && b > 0,
            ;
        }
        q as i128
    } else {
        let m: u128 = -(a as i128) as u128;
        let q: u128 = m / (b as u128);
        proof {
            assert(q <= m as int) by (nonlinear_arith)
                requires
                    q == (m as int) / (b as int) && m >= 0 && b > 0,
            ;
        }
        -(q as i128)
    }
}

/// Raw fixed-point product; the result must fit in an `i64`.
pub fn fxmul(a: i64, b: i64) -> (r: i64)
    requires
        i64::MIN <= fxmul_s(a as int, b as int) <= i64::MAX,
    ensures
        r == fxmul_s(a as int, b as int),
{
    let p: i128 = (a as i128) * (b as i128);
    let q = tdiv_i128(p, FX_ONE as i128);
    q as i64
}

/// Raw fixed-point quotient; the divisor must be nonzero and the result
/// must fit in an `i64`.
pub fn fxdiv(a: i64, b: i64) -> (r: i64)
    requires
        b != 0,
        i64::MIN <= fxdiv_s(a as int, b as int) <= i64::MAX,
    ensures
        r == fxdiv_s(a as int, b as int),
{
    let p: i128 = (a as i128) * (FX_ONE as i128);
    if b > 0 {
        let q = tdiv_i128(p, b as i128);
        q as i64
    } else {
        let q = tdiv_i128(-p, -(b as i128));
        proof {
            lemma_tdiv_flip(p as int, b as int);
        }
        q as i64
    }
}

pub proof fn lemma_tdiv_flip(a: int, b: int)
    requires
        b < 0,
    ensures
        tdiv(a, b) == tdiv(-a, -b),
{
}

/// Integer square root of a wide nonnegative value.
pub fn isqrt_u128(n: u128) -> (r: u64)
    requires
        n < 0x4000_0000_0000_0000_0000_0000_0000_0000u128,
    ensures
        0 <= r,
        (r as int) * (r as int) <= n as int,
        n < (r as int + 1) * (r as int + 1),
        r == sqrt_s(n as int),
{
    let mut lo: u128 = 0;
    let mut hi: u128 = 0x8000_0000_0000_0000u128;
    proof {
        assert(0x8000_0000_0000_0000u128 * 0x8000_0000_0000_0000u128
            == 0x4000_0000_0000_0000_0000_0000_0000_0000u128) by (nonlinear_arith);
    }
    while lo + 1 < hi
        invariant
            0 <= lo < hi <= 0x8000_0000_0000_0000u128,
            (lo as int) * (lo as int) <= n as int,
            n < (hi as int) * (hi as int),
        decreases hi - lo,
    {
        let mid: u128 = lo + (hi - lo) / 2;
        assert(lo < mid < hi);
        proof {
            assert(mid * mid < 0x4000_0000_0000_0000_0000_0000_0000_0000u128) by (nonlinear_arith)
                requires
                    0 <= mid && mid < 0x8000_0000_0000_0000u128,
            ;
        }
        if mid * mid <= n {
            lo = mid;
        } else {
            hi = mid;
        }
    }
    proof {
        lemma_sqrt_unique(n as int, lo as int);
    }
    lo as u64
}

/// Square root of a nonnegative fixed-point value: raw sqrt(a * FX_ONE).
pub fn fx_sqrt(a: i64) -> (r: i64)
    requires
        a >= 0,
    ensures
        r == sqrt_s(a * FX_ONE),
        0 <= r,
        r * r <= a * FX_ONE < (r + 1) * (r + 1),
{
    proof {
        assert((a as int) * (FX_ONE as int) <= 0x7fff_ffff_ffff_ffffi64 * 0x4000_0000i64)
            by (nonlinear_arith)
            requires
                0 <= a <= 0x7fff_ffff_ffff_ffffi64,
        ;
    }
    let n: u128 = (a as u128) * (FX_ONE as u128);
    let r = isqrt_u128(n);
    proof {
        let ri = r as int;
        let ni = n as int;
        assert(ri * ri <= ni);
        assert(ni < (ri + 1) * (ri + 1));
        assert(ri <= 0x2000_0000_0000_0000int) by (nonlinear_arith)
            requires
                0 <= ri,
                ri * ri <= ni,
                ni <= 0x7fff_ffff_ffff_ffffi64 * 0x4000_0000i64,
        ;
    }
    r as i64
}

} // verus!
