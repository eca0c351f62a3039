use rasta::effects::autowah::{sin, tan, AutoWah, FilterType};
use rasta::effects::{ConfigError, CtrlMsg, Effect};
use rasta::fixed::ONE;

fn run(pedal: &mut AutoWah, input: &[i64]) -> Vec<i64> {
    let mut left = vec![0; input.len()];
    let mut right = vec![0; input.len()];
    pedal.process_samples(input, &mut left, &mut right);
    assert_eq!(left, right);
    left
}

#[test]
fn series_values() {
    assert_eq!(sin(0), 0);
    assert_eq!(tan(0), 0);
    assert_eq!(sin(ONE / 2), 2059123643);
    assert_eq!(tan(ONE / 2), 2344336315);
    assert_eq!(sin(-ONE / 2), -2059123644);
}

#[test]
fn series_are_close_within_the_sweep() {
    for k in 0..=78 {
        let x = k as f64 * 0.01;
        let fixed = (x * ONE as f64) as i64;
        let s = sin(fixed) as f64 / ONE as f64;
        let t = tan(fixed) as f64 / ONE as f64;
        assert!((s - x.sin()).abs() < 1e-4, "sin {}", x);
        assert!((t - x.tan()).abs() < 2e-2, "tan {}", x);
    }
}

#[test]
fn default_filter_is_the_high_pass() {
    assert_eq!(FilterType::default(), FilterType::Highpass);
}

#[test]
fn autowah_first_samples() {
    let mut pedal = AutoWah::new(48000, 5);
    assert_eq!(pedal.name(), "autowah");
    assert!(!pedal.is_bypassing());
    assert_eq!(pedal.center_frequency(), 0);
    let out = run(&mut pedal, &[ONE / 2, -ONE / 4, ONE, 0, ONE / 3]);
    assert_eq!(out, vec![860524306, -427041640, 1723553778, 10350870, 585567400]);
    assert_eq!(pedal.center_frequency(), 9093968);
}

#[test]
fn autowah_run_effect_is_half_the_output() {
    let mut by_block = AutoWah::new(48000, 1);
    let mut by_sample = AutoWah::new(48000, 1);
    for x in [ONE / 2, -ONE / 4, ONE / 8, 0, -ONE / 3] {
        let out = run(&mut by_block, &[x])[0];
        let raw = by_sample.run_effect(x);
        assert_eq!(out, (2 * raw).clamp(-ONE, ONE));
    }
}

#[test]
fn autowah_output_stays_between_minus_one_and_one() {
    let mut pedal = AutoWah::new(48000, 64);
    pedal.set_quality_factor(ONE / 100);
    pedal.set_min_maxFreq(20 * ONE, 20000 * ONE);
    let mut x: i64 = 12345;
    for _ in 0..200 {
        let mut block = Vec::new();
        for _ in 0..64 {
            x = x.wrapping_mul(6364136223846793005).wrapping_add(1442695040888963407);
            block.push((x >> 30) % (4 * ONE));
        }
        for y in run(&mut pedal, &block) {
            assert!((-ONE..=ONE).contains(&y));
        }
        let c = pedal.center_frequency();
        assert!((0..=3373259426).contains(&c));
    }
}

#[test]
fn autowah_centre_frequency_settles_with_the_level() {
    // The sweep starts at pi * 20 / 48000 and is pi * 5980 / 48000 wide.
    let bottom = std::f64::consts::PI * 20.0 / 48000.0;
    let width = std::f64::consts::PI * 5980.0 / 48000.0;
    for level in [1.0f64, 0.5, 0.25] {
        let mut pedal = AutoWah::new(48000, 100);
        let block = vec![(level * ONE as f64) as i64; 100];
        for _ in 0..1000 {
            run(&mut pedal, &block);
        }
        let settled = pedal.center_frequency();
        run(&mut pedal, &block);
        assert_eq!(pedal.center_frequency(), settled);
        let got = settled as f64 / ONE as f64;
        assert!((got - (bottom + level * width)).abs() < 1e-4, "level {}", level);
    }
    let mut pedal = AutoWah::new(48000, 100);
    let block = vec![ONE; 100];
    for _ in 0..1000 {
        run(&mut pedal, &block);
    }
    assert_eq!(pedal.center_frequency(), 1686628960);
}

#[test]
fn autowah_centre_frequency_forgets_the_filters() {
    // Two pedals with the same follower but other filters, mix and type.
    let mut a = AutoWah::new(48000, 16);
    let mut b = AutoWah::new(48000, 16);
    b.set_quality_factor(ONE);
    b.set_mixing(ONE / 3);
    b.set_filter_type(FilterType::Lowpass);
    let block: Vec<i64> = (0..16).map(|i| (i as i64 - 8) * (ONE / 10)).collect();
    for _ in 0..50 {
        let out_a = run(&mut a, &block);
        let out_b = run(&mut b, &block);
        assert_ne!(out_a, out_b);
        assert_eq!(a.center_frequency(), b.center_frequency());
    }
    // A pedal that has heard something else before settles at the same
    // frequency under the same sustained signal.
    let mut c = AutoWah::new(48000, 16);
    run(&mut c, &[ONE, -ONE, ONE / 2, 3 * ONE, 0, 0, -2 * ONE]);
    let mut d = AutoWah::new(48000, 16);
    let sustained = vec![ONE / 2; 100];
    for _ in 0..1000 {
        run(&mut c, &sustained);
        run(&mut d, &sustained);
    }
    assert_eq!(c.center_frequency(), d.center_frequency());
}

#[test]
fn autowah_filter_types_differ() {
    let block: Vec<i64> = (0..32).map(|i| if i % 2 == 0 { ONE / 2 } else { -ONE / 2 }).collect();
    let mut outs = Vec::new();
    for typ in [FilterType::Lowpass, FilterType::Bandpass, FilterType::Highpass] {
        let mut pedal = AutoWah::new(48000, 32);
        pedal.set_filter_type(typ);
        outs.push(run(&mut pedal, &block));
    }
    assert_ne!(outs[0], outs[1]);
    assert_ne!(outs[1], outs[2]);
    assert_ne!(outs[0], outs[2]);
    let mut default = AutoWah::new(48000, 32);
    assert_eq!(run(&mut default, &block), outs[2]);
}

#[test]
fn autowah_without_filtered_share_is_the_input_doubled() {
    let mut pedal = AutoWah::new(48000, 4);
    pedal.set_mixing(0);
    let out = run(&mut pedal, &[ONE / 4, -ONE / 8, ONE, -3 * ONE]);
    assert_eq!(out, vec![ONE / 2, -ONE / 4, ONE, -ONE]);
}

#[test]
fn autowah_attack_and_release_shape_the_follower() {
    // With no time to attack or release the level is the magnitude itself.
    let mut pedal = AutoWah::new(48000, 1);
    pedal.set_attack(0);
    pedal.set_release(-ONE);
    run(&mut pedal, &[ONE / 2]);
    let bottom = 5622099;
    let width = 1681007613i128;
    assert_eq!(pedal.center_frequency(), bottom + ((width * (ONE / 2) as i128) >> 32) as i64);
    run(&mut pedal, &[0]);
    assert_eq!(pedal.center_frequency(), bottom);
}

#[test]
fn autowah_sample_rate_is_validated() {
    let mut pedal = AutoWah::new(48000, 4);
    assert_eq!(pedal.set_sample_rate(0), Err(ConfigError::BadSampleRate));
    assert_eq!(pedal.set_sample_rate(-ONE), Err(ConfigError::BadSampleRate));
    assert_eq!(pedal.set_sample_rate(96000 * ONE), Ok(()));
    // The sweep keeps its coefficients until it is set again.
    run(&mut pedal, &[0]);
    assert_eq!(pedal.center_frequency(), 5622099);
    pedal.set_min_maxFreq(20 * ONE, 3000 * ONE);
    run(&mut pedal, &[0]);
    assert_eq!(pedal.center_frequency(), 2811049);
}

#[test]
fn autowah_bypassed_copies_the_input() {
    let mut pedal = AutoWah::new(48000, 4);
    pedal.bypass();
    assert!(pedal.is_bypassing());
    let input = [ONE, -5 * ONE, 17, 0];
    assert_eq!(run(&mut pedal, &input), input.to_vec());
    assert_eq!(pedal.center_frequency(), 0);
    pedal.bypass();
    assert!(!pedal.is_bypassing());
}

#[test]
fn autowah_ignores_messages() {
    let mut pedal = AutoWah::new(48000, 4);
    assert_eq!(pedal.ctrl(&CtrlMsg::Bypass), Ok(()));
    assert!(!pedal.is_bypassing());
    assert_eq!(pedal.ctrl(&CtrlMsg::SetParam("w".to_string(), "mix".to_string(), 0)), Ok(()));
    let out = run(&mut pedal, &[ONE / 2]);
    assert_eq!(out, vec![860524306]);
}
