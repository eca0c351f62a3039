use rasta::effects::tremelo::Tremelo;
use rasta::effects::{ConfigError, CtrlMsg, Effect};
use rasta::fixed::ONE;

fn run(pedal: &mut Tremelo, input: &[i64]) -> Vec<i64> {
    let mut left = vec![0; input.len()];
    let mut right = vec![0; input.len()];
    pedal.process_samples(input, &mut left, &mut right);
    assert_eq!(left, right);
    left
}

#[test]
fn tremolo_starts_at_rest() {
    let pedal = Tremelo::new(48000, 128);
    assert_eq!(pedal.name(), "tremelo");
    assert_eq!(
        pedal,
        Tremelo {
            bypassing: false,
            depth: ONE,
            control: 1,
            modulo: 0,
            counter_limit: 50,
            offset: 0,
            alpha_mix: 3435973836,
            beta_mix: 858993460,
        }
    );
}

#[test]
fn tremolo_sweeps_a_triangle() {
    let mut pedal = Tremelo::new(48000, 1);
    pedal.set_mixing(ONE);
    assert_eq!(pedal.alpha_mix, ONE);
    assert_eq!(pedal.beta_mix, 0);
    assert_eq!(pedal.counter_limit, 50);
    for round in 0..3 {
        for block in 0..100 {
            let counter: i64 = if block <= 50 { block } else { 100 - block };
            assert_eq!(pedal.modulo as i64, counter, "round {} block {}", round, block);
            let out = run(&mut pedal, &[ONE, ONE / 2]);
            // With full depth and all of the swept signal, the volume is
            // the counter's share of the limit.
            let gain = (ONE * counter) / 50;
            assert_eq!(out[0], gain);
            assert_eq!(out[1], ((gain as i128 * (ONE / 2) as i128) >> 32) as i64);
            if counter == 0 {
                assert_eq!(out, vec![0, 0]);
            }
        }
    }
    assert_eq!(pedal.modulo, 0);
    assert_eq!(pedal.control, 1);
}

#[test]
fn tremolo_volumes() {
    let mut pedal = Tremelo::new(48000, 1);
    pedal.set_mixing(ONE);
    let mut heard = Vec::new();
    for _ in 0..51 {
        heard.push(run(&mut pedal, &[ONE / 2])[0]);
    }
    assert_eq!(heard[0], 0);
    assert_eq!(heard[1], 42949672);
    assert_eq!(heard[25], 1073741824);
    assert_eq!(heard[50], 2147483648);
}

#[test]
fn tremolo_mixes_in_the_input() {
    let mut pedal = Tremelo::new(48000, 1);
    // At rest the swept signal is silent, and two tenths of the input stay.
    assert_eq!(run(&mut pedal, &[ONE]), vec![858993460]);
}

#[test]
fn tremolo_bypassed_copies_the_input_and_rests() {
    let mut pedal = Tremelo::new(48000, 4);
    run(&mut pedal, &[ONE]);
    assert_eq!(pedal.modulo, 1);
    pedal.bypass();
    assert!(pedal.is_bypassing());
    let input = [ONE, -ONE, 17, 0];
    assert_eq!(run(&mut pedal, &input), input.to_vec());
    assert_eq!(pedal.modulo, 1);
}

#[test]
fn tremolo_limit_is_validated() {
    let mut pedal = Tremelo::new(48000, 4);
    assert_eq!(pedal.set_limit(0), Err(ConfigError::LimitTooSmall));
    assert_eq!(pedal.set_limit(-3), Err(ConfigError::LimitTooSmall));
    assert_eq!(pedal.counter_limit, 50);
    assert_eq!(pedal.set_limit(1), Ok(()));
    assert_eq!(pedal.counter_limit, 1);
}

#[test]
fn tremolo_turns_round_at_a_lower_limit() {
    let mut pedal = Tremelo::new(48000, 1);
    for _ in 0..10 {
        run(&mut pedal, &[0]);
    }
    assert_eq!((pedal.modulo, pedal.control), (10, 1));
    assert_eq!(pedal.set_limit(4), Ok(()));
    assert_eq!((pedal.modulo, pedal.control), (10, -1));
    for expected in [9, 8, 7, 6, 5, 4, 3, 2, 1, 0, 1, 2, 3, 4, 3] {
        run(&mut pedal, &[0]);
        assert_eq!(pedal.modulo, expected);
    }
}

#[test]
fn tremolo_takes_settings_by_message() {
    let mut pedal = Tremelo::new(48000, 4);
    let set = |param: &str, value: i64| CtrlMsg::SetParam("t".to_string(), param.to_string(), value);
    assert_eq!(pedal.ctrl(&set("limit", 20 * ONE + ONE / 2)), Ok(()));
    assert_eq!(pedal.counter_limit, 20);
    assert_eq!(pedal.ctrl(&set("limit", ONE / 2)), Err(ConfigError::LimitTooSmall));
    assert_eq!(pedal.ctrl(&set("limit", -ONE)), Err(ConfigError::LimitTooSmall));
    assert_eq!(pedal.counter_limit, 20);
    assert_eq!(pedal.ctrl(&set("mix", ONE / 4)), Ok(()));
    assert_eq!(pedal.alpha_mix, ONE / 4);
    assert_eq!(pedal.beta_mix, 3 * (ONE / 4));
    assert_eq!(pedal.ctrl(&set("depth", ONE / 4)), Ok(()));
    assert_eq!(pedal.depth, ONE);
    assert_eq!(pedal.ctrl(&CtrlMsg::Bypass), Ok(()));
    assert!(pedal.is_bypassing());
}
