//! Square root, decaying exponential and cosine in fixed point.
//!
//! The square root is exact up to rounding down. The exponential and the
//! cosine are short power series, chosen for a running time that does not
//! depend on the argument's value beyond its size.

use crate::fixed::{mul_spec, sat_mul, ONE};
use vstd::prelude::*;

verus! {

/// The circle constant, rounded down.
pub const PI: i64 = 13493037704;

/// Twice the circle constant, rounded down.
pub const TWO_PI: i64 = 26986075409;

/// Half the circle constant, rounded down.
pub const HALF_PI: i64 = 6746518852;

/// Arguments up to this one, a sixteenth, go into the exponential series as
/// they are.
pub const EXP_SERIES_MAX: i64 = 0x1000_0000;

/// The product of two numbers between zero and one lies between zero and the
/// first of them.
pub proof fn lemma_mul_unit(a: int, b: int)
    requires
        0 <= a <= 0x4_0000_0000,
        0 <= b <= ONE,
    ensures
        0 <= mul_spec(a, b) <= a,
{
    assert(0 <= (a * b) / (ONE as int) <= a) by (nonlinear_arith)
        requires
            0 <= a,
            0 <= b <= ONE,
            ONE == 0x1_0000_0000,
    ;
}

/// Whether `r` is the square root of the fixed-point number `v`, rounded
/// down.
pub open spec fn is_sqrt(v: int, r: int) -> bool {
    r >= 0 && r * r <= v * ONE < (r + 1) * (r + 1)
}

/// The square root of a fixed-point number, rounded down; of a negative
/// number, zero.
pub open spec fn sqrt_spec(v: int) -> int {
    if v <= 0 {
        0
    } else {
        choose|r: int| is_sqrt(v, r)
    }
}

/// A number has one square root.
pub proof fn lemma_sqrt_unique(v: int, r1: int, r2: int)
    requires
        is_sqrt(v, r1),
        is_sqrt(v, r2),
    ensures
        r1 == r2,
{
    assert(r1 == r2) by (nonlinear_arith)
        requires
            r1 >= 0,
            r2 >= 0,
            r1 * r1 < (r2 + 1) * (r2 + 1),
            r2 * r2 < (r1 + 1) * (r1 + 1),
    ;
}

/// The square root, rounded down; of a negative number, zero.
pub fn sqrt(v: i64) -> (r: i64)
    ensures
        r as int == sqrt_spec(v as int),
        v > 0 ==> is_sqrt(v as int, r as int),
        r >= 0,
{
    if v <= 0 {
        return 0;
    }
    proof {
        assert(0 <= v as int * ONE < 0x1_0000_0000_0000 * 0x1_0000_0000_0000) by (nonlinear_arith)
            requires
                0 < v <= 0x7fff_ffff_ffff_ffff,
                ONE == 0x1_0000_0000,
        ;
    }
    let n: u128 = (v as u128) * (ONE as u128);
    let mut lo: u128 = 0;
    let mut hi: u128 = 0x1_0000_0000_0000;
    while hi - lo > 1
        invariant
            n == v as int * ONE,
            lo < hi <= 0x1_0000_0000_0000,
            lo * lo <= n < hi * hi,
        decreases hi - lo,
    {
        let mid: u128 = lo + (hi - lo) / 2;
        proof {
            assert(mid * mid <= 0x1_0000_0000_0000 * 0x1_0000_0000_0000) by (nonlinear_arith)
                requires
                    0 <= mid <= 0x1_0000_0000_0000,
            ;
        }
        if mid * mid <= n {
            lo = mid;
        } else {
            hi = mid;
        }
    }
    let r: i64 = lo as i64;
    proof {
        assert(is_sqrt(v as int, r as int));
        lemma_sqrt_unique(v as int, r as int, sqrt_spec(v as int));
    }
    r
}

/// The exponential series `1 - u + u^2/2 - u^3/6 + u^4/24`, nested.
pub open spec fn exp_series(u: int) -> int {
    let t4 = ONE - u / 4;
    let t3 = ONE - mul_spec(u / 3, t4);
    let t2 = ONE - mul_spec(u / 2, t3);
    ONE - mul_spec(u, t2)
}

/// The approximation of `e^-u`: the series where `u` is at most a sixteenth,
/// else the square of the approximation at half of `u`. Where `u` is not
/// positive it is one.
pub open spec fn exp_neg_spec(u: int) -> int
    decreases u,
{
    if u <= 0 {
        ONE as int
    } else if u <= EXP_SERIES_MAX {
        exp_series(u)
    } else {
        mul_spec(exp_neg_spec(u / 2), exp_neg_spec(u / 2))
    }
}

/// The approximation of `e^-u` lies between zero and one.
pub proof fn lemma_exp_neg_bounds(u: int)
    ensures
        0 <= exp_neg_spec(u) <= ONE,
    decreases u,
{
    if u <= 0 {
    } else if u <= EXP_SERIES_MAX {
        let t4 = ONE - u / 4;
        lemma_mul_unit(u / 3, t4);
        let t3 = ONE - mul_spec(u / 3, t4);
        lemma_mul_unit(u / 2, t3);
        let t2 = ONE - mul_spec(u / 2, t3);
        lemma_mul_unit(u, t2);
    } else {
        lemma_exp_neg_bounds(u / 2);
        let h = exp_neg_spec(u / 2);
        lemma_mul_unit(h, h);
    }
}

/// The approximation of `e^-u`, a number between zero and one.
pub fn exp_neg(u: i64) -> (r: i64)
    ensures
        r as int == exp_neg_spec(u as int),
        0 <= r <= ONE,
    decreases u,
{
    proof {
        lemma_exp_neg_bounds(u as int);
        lemma_exp_neg_bounds(u as int / 2);
    }
    if u <= 0 {
        ONE
    } else if u <= EXP_SERIES_MAX {
        let t4: i64 = ONE - u / 4;
        proof {
            lemma_mul_unit(u as int / 3, t4 as int);
        }
        let t3: i64 = ONE - sat_mul(u / 3, t4);
        proof {
            lemma_mul_unit(u as int / 2, t3 as int);
        }
        let t2: i64 = ONE - sat_mul(u / 2, t3);
        ONE - sat_mul(u, t2)
    } else {
        let h = exp_neg(u / 2);
        sat_mul(h, h)
    }
}

/// The cosine series `1 - b^2/2 + b^4/24 - b^6/720 + b^8/40320`, nested, for
/// an angle `b` of a quarter turn at most.
pub open spec fn cos_series(b: int) -> int {
    let b2 = mul_spec(b, b);
    let t4 = ONE - b2 / 56;
    let t3 = ONE - mul_spec(b2 / 30, t4);
    let t2 = ONE - mul_spec(b2 / 12, t3);
    ONE - mul_spec(b2 / 2, t2)
}

/// The angle `x` turned into the first full turn: between zero and twice the
/// circle constant.
pub open spec fn wrap_angle(x: int) -> int {
    x % (TWO_PI as int)
}

/// The approximation of the cosine of `x` radians: the angle is wrapped into
/// one turn, folded into a quarter turn by the cosine's symmetries, and put
/// into the series.
pub open spec fn cos_spec(x: int) -> int {
    let r = wrap_angle(x);
    let a = if r > PI {
        TWO_PI - r
    } else {
        r
    };
    if a > HALF_PI {
        -cos_series(PI - a)
    } else {
        cos_series(a)
    }
}

/// The series at an angle of a quarter turn at most lies between minus one
/// and one.
pub proof fn lemma_cos_series_bounds(b: int)
    requires
        0 <= b <= HALF_PI,
    ensures
        -(ONE as int) <= cos_series(b) <= ONE,
        0 <= mul_spec(b, b) <= 0x2_8000_0000,
{
    assert(0 <= (b * b) / (ONE as int) <= 0x2_8000_0000) by (nonlinear_arith)
        requires
            0 <= b <= 6746518852,
            ONE == 0x1_0000_0000,
    ;
    let b2 = mul_spec(b, b);
    let t4 = ONE - b2 / 56;
    lemma_mul_unit(b2 / 30, t4);
    let t3 = ONE - mul_spec(b2 / 30, t4);
    lemma_mul_unit(b2 / 12, t3);
    let t2 = ONE - mul_spec(b2 / 12, t3);
    lemma_mul_unit(b2 / 2, t2);
}

/// The cosine series at an angle of a quarter turn at most.
fn cos_quarter(b: i64) -> (r: i64)
    requires
        0 <= b <= HALF_PI,
    ensures
        r as int == cos_series(b as int),
        -ONE <= r <= ONE,
{
    proof {
        lemma_cos_series_bounds(b as int);
    }
    let b2: i64 = sat_mul(b, b);
    let t4: i64 = ONE - b2 / 56;
    proof {
        lemma_mul_unit(b2 as int / 30, t4 as int);
    }
    let t3: i64 = ONE - sat_mul(b2 / 30, t4);
    proof {
        lemma_mul_unit(b2 as int / 12, t3 as int);
    }
    let t2: i64 = ONE - sat_mul(b2 / 12, t3);
    proof {
        lemma_mul_unit(b2 as int / 2, t2 as int);
    }
    ONE - sat_mul(b2 / 2, t2)
}

/// The approximation of the cosine of `x` radians, a number between minus
/// one and one.
pub fn cosine(x: i64) -> (r: i64)
    ensures
        r as int == cos_spec(x as int),
        -ONE <= r <= ONE,
{
    let turned: i64 = if x >= 0 {
        x % TWO_PI
    } else {
        let m: i64 = -(x + 1);
        let k: i64 = m % TWO_PI;
        proof {
            assert((x as int) % (TWO_PI as int) == TWO_PI - 1 - k) by (nonlinear_arith)
                requires
                    x < 0,
                    m == -(x + 1),
                    k == (m as int) % (TWO_PI as int),
                    TWO_PI == 26986075409,
            ;
        }
        TWO_PI - 1 - k
    };
    let a: i64 = if turned > PI {
        TWO_PI - turned
    } else {
        turned
    };
    if a > HALF_PI {
        -cos_quarter(PI - a)
    } else {
        cos_quarter(a)
    }
}

} // verus!
