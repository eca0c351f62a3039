use rasta::approx::{cosine, exp_neg, sqrt};
use rasta::fixed::{
    clamp, sat_abs, sat_add, sat_div, sat_mul, sat_sub, scale, whole_part, MAX, MIN, ONE,
};

fn to_float(v: i64) -> f64 {
    v as f64 / ONE as f64
}

fn to_fixed(v: f64) -> i64 {
    (v * ONE as f64).floor() as i64
}

#[test]
fn sums_and_differences_saturate() {
    assert_eq!(sat_add(ONE, ONE), 2 * ONE);
    assert_eq!(sat_add(MAX, 1), MAX);
    assert_eq!(sat_add(MIN, -1), MIN);
    assert_eq!(sat_sub(ONE, 3 * ONE), -2 * ONE);
    assert_eq!(sat_sub(MIN, 1), MIN);
    assert_eq!(sat_sub(MAX, -1), MAX);
}

#[test]
fn magnitude_saturates() {
    assert_eq!(sat_abs(-ONE / 4), ONE / 4);
    assert_eq!(sat_abs(MIN), MAX);
    assert_eq!(sat_abs(7), 7);
}

#[test]
fn products_round_down() {
    assert_eq!(sat_mul(ONE / 2, ONE / 2), ONE / 4);
    assert_eq!(sat_mul(3 * ONE, -2 * ONE), -6 * ONE);
    // One unit times one half is half a unit: down to zero, or to minus one.
    assert_eq!(sat_mul(1, ONE / 2), 0);
    assert_eq!(sat_mul(-1, ONE / 2), -1);
    assert_eq!(sat_mul(1288490188, 1288490188), 386547056);
    assert_eq!(sat_mul(MAX, 2 * ONE), MAX);
    assert_eq!(sat_mul(MAX, -2 * ONE), MIN);
}

#[test]
fn quotients_round_down() {
    assert_eq!(sat_div(ONE, 2 * ONE), ONE / 2);
    assert_eq!(sat_div(ONE, 3 * ONE), 1431655765);
    assert_eq!(sat_div(-ONE, 3 * ONE), -1431655766);
    assert_eq!(sat_div(ONE, -3 * ONE), -1431655766);
    assert_eq!(sat_div(-ONE, -3 * ONE), 1431655765);
    assert_eq!(sat_div(MAX, 1), MAX);
    assert_eq!(sat_div(MIN, 1), MIN);
}

#[test]
fn scale_by_a_fraction() {
    assert_eq!(scale(ONE, 1, 50), 85899345);
    assert_eq!(scale(ONE, 25, 50), ONE / 2);
    assert_eq!(scale(ONE, 50, 50), ONE);
    assert_eq!(scale(-ONE, 1, 3), -1431655766);
    assert_eq!(scale(MAX, 3, 1), MAX);
}

#[test]
fn whole_part_goes_towards_zero() {
    assert_eq!(whole_part(50 * ONE), 50);
    assert_eq!(whole_part(50 * ONE + ONE / 2), 50);
    assert_eq!(whole_part(-(50 * ONE + ONE / 2)), -50);
    assert_eq!(whole_part(ONE - 1), 0);
    assert_eq!(whole_part(-1), 0);
    assert_eq!(whole_part(MAX), 32767);
    assert_eq!(whole_part(MIN), -32768);
}

#[test]
fn clamp_holds_within_bounds() {
    assert_eq!(clamp(5, -1, 1), 1);
    assert_eq!(clamp(-5, -1, 1), -1);
    assert_eq!(clamp(0, -1, 1), 0);
}

#[test]
fn square_root_is_exact_up_to_rounding() {
    assert_eq!(sqrt(4 * ONE), 2 * ONE);
    assert_eq!(sqrt(2 * ONE), 6074000999);
    assert_eq!(sqrt(429496729), 1358187912);
    assert_eq!(sqrt(0), 0);
    assert_eq!(sqrt(-ONE), 0);
    let r = sqrt(MAX) as i128;
    let n = (MAX as i128) << 32;
    assert!(r * r <= n && n < (r + 1) * (r + 1));
}

#[test]
fn exponential_values() {
    assert_eq!(exp_neg(0), ONE);
    assert_eq!(exp_neg(-5), ONE);
    assert_eq!(exp_neg(to_fixed(0.0625)), 4034748416);
    assert_eq!(exp_neg(ONE), 1580030375);
    assert_eq!(exp_neg(5 * ONE), 28939264);
}

#[test]
fn exponential_is_close_to_the_real_one() {
    for k in 0..200 {
        let u = k as f64 * 0.05;
        let got = to_float(exp_neg(to_fixed(u)));
        assert!((got - (-u).exp()).abs() < 1e-6, "u = {}", u);
    }
}

#[test]
fn cosine_values() {
    assert_eq!(cosine(0), ONE);
    assert_eq!(cosine(ONE / 2), 3769188404);
    assert_eq!(cosine(ONE + ONE / 2), 303881069);
    assert_eq!(cosine(3 * ONE), -4251985398);
    assert_eq!(cosine(-2 * ONE), -1787341460);
}

#[test]
fn cosine_is_close_to_the_real_one() {
    for k in -400..400 {
        let x = k as f64 * 0.037;
        let got = to_float(cosine(to_fixed(x)));
        assert!((got - x.cos()).abs() < 1e-4, "x = {}", x);
    }
}
