//! Saturating fixed-point arithmetic with 32 fractional bits.
//!
//! A number `v` is held as the `i64` nearest below `v * 2^32`. Every
//! operation computes the exact result on the integers, rounds it down to a
//! multiple of `2^-32`, and saturates at the ends of `i64`.

use vstd::prelude::*;

verus! {

/// The number one.
pub const ONE: i64 = 0x1_0000_0000;

/// The largest number that can be held.
pub const MAX: i64 = 0x7fff_ffff_ffff_ffff;

/// The smallest number that can be held.
pub const MIN: i64 = -0x8000_0000_0000_0000;

/// The integer nearest to `v` that an `i64` holds.
pub open spec fn saturate(v: int) -> int {
    if v < MIN as int {
        MIN as int
    } else if v > MAX as int {
        MAX as int
    } else {
        v
    }
}

/// `v` held between `lo` and `hi`.
pub open spec fn clamp_spec(v: int, lo: int, hi: int) -> int {
    if v < lo {
        lo
    } else if v > hi {
        hi
    } else {
        v
    }
}

/// The quotient of `n` by `d` rounded towards minus infinity, whatever the
/// sign of `d`.
pub open spec fn floor_quot(n: int, d: int) -> int {
    if d > 0 {
        n / d
    } else {
        (-n) / (-d)
    }
}

/// The sum of two fixed-point numbers.
pub open spec fn add_spec(a: int, b: int) -> int {
    saturate(a + b)
}

/// The difference of two fixed-point numbers.
pub open spec fn sub_spec(a: int, b: int) -> int {
    saturate(a - b)
}

/// The magnitude of a fixed-point number; that of the smallest number is
/// the largest.
pub open spec fn abs_spec(a: int) -> int {
    if a < 0 {
        saturate(-a)
    } else {
        a
    }
}

/// The product of two fixed-point numbers.
pub open spec fn mul_spec(a: int, b: int) -> int {
    saturate((a * b) / (ONE as int))
}

/// The quotient of two fixed-point numbers; `b` is not zero.
pub open spec fn div_spec(a: int, b: int) -> int {
    saturate(floor_quot(a * (ONE as int), b))
}

/// The fixed-point number `v` times the fraction `n / d`; `d` is positive.
pub open spec fn scale_spec(v: int, n: int, d: int) -> int {
    saturate((v * n) / d)
}

/// The whole part of a fixed-point number, towards zero, held within 16
/// bits.
pub open spec fn whole_part_spec(v: int) -> int {
    if v >= 0 {
        clamp_spec(v / (ONE as int), -0x8000, 0x7fff)
    } else {
        clamp_spec(-((-v) / (ONE as int)), -0x8000, 0x7fff)
    }
}

/// The product of two 64-bit numbers fits in 128 bits.
pub proof fn lemma_product_fits(a: int, b: int)
    requires
        MIN as int <= a <= MAX as int,
        MIN as int <= b <= MAX as int,
    ensures
        -0x4000_0000_0000_0000_0000_0000_0000_0000 <= a * b
            <= 0x4000_0000_0000_0000_0000_0000_0000_0000,
{
    assert(-0x4000_0000_0000_0000_0000_0000_0000_0000 <= a * b
        <= 0x4000_0000_0000_0000_0000_0000_0000_0000) by (nonlinear_arith)
        requires
            -0x8000_0000_0000_0000 <= a <= 0x8000_0000_0000_0000,
            -0x8000_0000_0000_0000 <= b <= 0x8000_0000_0000_0000,
    ;
}

/// The product of two numbers that are not negative is not negative.
pub proof fn lemma_mul_nonneg(a: int, b: int)
    requires
        a >= 0,
        b >= 0,
    ensures
        mul_spec(a, b) >= 0,
{
    assert((a * b) / (ONE as int) >= 0) by (nonlinear_arith)
        requires
            a >= 0,
            b >= 0,
            ONE == 0x1_0000_0000,
    ;
}

/// The `i64` nearest to `v`.
pub fn saturate_wide(v: i128) -> (r: i64)
    ensures
        r as int == saturate(v as int),
{
    if v < MIN as i128 {
        MIN
    } else if v > MAX as i128 {
        MAX
    } else {
        v as i64
    }
}

/// The quotient of `n` by a positive `d`, rounded towards minus infinity.
pub fn floor_div_wide(n: i128, d: i128) -> (q: i128)
    requires
        d > 0,
        n > i128::MIN,
    ensures
        q as int == n as int / d as int,
{
    if n >= 0 {
        n / d
    } else {
        let m: i128 = -(n + 1);
        let t: i128 = m / d;
        proof {
            assert(n as int / d as int == -(t as int) - 1) by (nonlinear_arith)
                requires
                    d > 0,
                    n < 0,
                    m == -(n + 1),
                    t == m as int / d as int,
            ;
        }
        -t - 1
    }
}

/// `v` held between `lo` and `hi`.
pub fn clamp(v: i64, lo: i64, hi: i64) -> (r: i64)
    requires
        lo <= hi,
    ensures
        r as int == clamp_spec(v as int, lo as int, hi as int),
        lo <= r <= hi,
{
    if v < lo {
        lo
    } else if v > hi {
        hi
    } else {
        v
    }
}

/// The sum, saturating.
pub fn sat_add(a: i64, b: i64) -> (r: i64)
    ensures
        r as int == add_spec(a as int, b as int),
{
    saturate_wide(a as i128 + b as i128)
}

/// The difference, saturating.
pub fn sat_sub(a: i64, b: i64) -> (r: i64)
    ensures
        r as int == sub_spec(a as int, b as int),
{
    saturate_wide(a as i128 - b as i128)
}

/// The magnitude, saturating.
pub fn sat_abs(a: i64) -> (r: i64)
    ensures
        r as int == abs_spec(a as int),
        r >= 0,
{
    if a < 0 {
        saturate_wide(-(a as i128))
    } else {
        a
    }
}

/// The product, rounded down and saturating.
pub fn sat_mul(a: i64, b: i64) -> (r: i64)
    ensures
        r as int == mul_spec(a as int, b as int),
{
    proof {
        lemma_product_fits(a as int, b as int);
    }
    let p: i128 = (a as i128) * (b as i128);
    saturate_wide(floor_div_wide(p, ONE as i128))
}

/// The quotient, rounded down and saturating.
pub fn sat_div(a: i64, b: i64) -> (r: i64)
    requires
        b != 0,
    ensures
        r as int == div_spec(a as int, b as int),
{
    proof {
        lemma_product_fits(a as int, ONE as int);
    }
    let n: i128 = (a as i128) * (ONE as i128);
    if b > 0 {
        saturate_wide(floor_div_wide(n, b as i128))
    } else {
        saturate_wide(floor_div_wide(-n, -(b as i128)))
    }
}

/// `v` times the fraction `n / d`, rounded down and saturating.
pub fn scale(v: i64, n: i64, d: i64) -> (r: i64)
    requires
        d > 0,
    ensures
        r as int == scale_spec(v as int, n as int, d as int),
{
    proof {
        lemma_product_fits(v as int, n as int);
    }
    let p: i128 = (v as i128) * (n as i128);
    saturate_wide(floor_div_wide(p, d as i128))
}

/// The whole part of a fixed-point number, towards zero, held within 16
/// bits.
pub fn whole_part(v: i64) -> (r: i16)
    ensures
        r as int == whole_part_spec(v as int),
{
    let q: i128 = if v >= 0 {
        (v as i128) / (ONE as i128)
    } else {
        -((-(v as i128)) / (ONE as i128))
    };
    if q < -0x8000 {
        -0x8000
    } else if q > 0x7fff {
        0x7fff
    } else {
        q as i16
    }
}

} // verus!
