use rasta::approx::cosine;
use rasta::effects::delay::{Delay, DEFAULT_DELAY, DEFAULT_FEEDBACK};
use rasta::effects::{ConfigError, CtrlMsg, Effect};
use rasta::fixed::{sat_mul, ONE};

fn run(pedal: &mut Delay, input: &[i64]) -> Vec<i64> {
    let mut left = vec![0; input.len()];
    let mut right = vec![0; input.len()];
    pedal.process_samples(input, &mut left, &mut right);
    assert_eq!(left, right);
    left
}

#[test]
fn delay_starts_silent() {
    let pedal = Delay::new(48000, 128);
    assert_eq!(pedal.name(), "delay");
    assert!(!pedal.is_bypassing());
    assert_eq!(pedal.line().len(), 48000);
    assert!(pedal.line().iter().all(|&v| v == 0));
    assert_eq!(pedal.delay_time(), DEFAULT_DELAY);
    assert_eq!(pedal.delay_time(), 8820);
    assert_eq!(pedal.feedback(), DEFAULT_FEEDBACK);
    assert_eq!(pedal.feedback(), 1288490188);
}

#[test]
fn delay_impulse_repeats_and_decays() {
    let mut pedal = Delay::new(48000, 128);
    let mut input = vec![0i64; 30000];
    input[0] = ONE;
    let out = run(&mut pedal, &input);
    let line = pedal.line();
    let f = DEFAULT_FEEDBACK;
    assert_eq!(line[0], ONE);
    assert_eq!(line[8820], f);
    assert_eq!(line[17640], sat_mul(f, f));
    assert_eq!(line[17640], 386547056);
    assert_eq!(line[26460], sat_mul(sat_mul(f, f), f));
    assert_eq!(line[26460], 115964116);
    for (i, &v) in line.iter().enumerate() {
        if i % 8820 != 0 {
            assert_eq!(v, 0, "place {}", i);
        }
    }
    // The output is the cosine of the sum plus one half.
    assert_eq!(out[0], cosine(ONE + ONE / 2));
    assert_eq!(out[0], 303881069);
    assert_eq!(out[1], cosine(ONE / 2));
    assert_eq!(out[1], 3769188404);
    assert_eq!(out[8820], 2992332659);
}

#[test]
fn delay_line_wraps_round() {
    let mut pedal = Delay::new(9000, 16);
    pedal.set_delay(ONE / 2).unwrap();
    assert_eq!(pedal.delay_time(), 4500);
    pedal.set_feedback(ONE / 2).unwrap();
    let mut input = vec![0i64; 9000 + 4500 + 1];
    input[8999] = ONE;
    run(&mut pedal, &input);
    let line = pedal.line();
    // Written at the end of the line, heard again 4500 samples later, which
    // is behind the wrap; the cursor has gone round once.
    assert_eq!(line[8999], ONE);
    assert_eq!(line[4499], ONE / 2);
    assert_eq!(line[4500], 0);
}

#[test]
fn delay_blocks_add_up() {
    let mut whole = Delay::new(10000, 8);
    let mut parts = Delay::new(10000, 8);
    // A ten-thousandth of a second, rounded up: one sample.
    whole.set_delay(429497).unwrap();
    parts.set_delay(429497).unwrap();
    assert_eq!(whole.delay_time(), 1);
    let input: Vec<i64> = (0..64).map(|i| (i as i64 - 30) * (ONE / 64)).collect();
    let all = run(&mut whole, &input);
    let mut pieces = Vec::new();
    for chunk in input.chunks(8) {
        pieces.extend(run(&mut parts, chunk));
    }
    assert_eq!(all, pieces);
    assert_eq!(whole.line(), parts.line());
}

#[test]
fn delay_bypassed_copies_the_input_and_keeps_its_line() {
    let mut pedal = Delay::new(48000, 4);
    pedal.bypass();
    assert!(pedal.is_bypassing());
    let input = [ONE, -ONE / 3, 12345, 0];
    assert_eq!(run(&mut pedal, &input), input.to_vec());
    assert!(pedal.line().iter().all(|&v| v == 0));
}

#[test]
fn delay_time_is_validated() {
    let mut pedal = Delay::new(48000, 4);
    // 0.1837 s at 48 kHz.
    assert_eq!(pedal.set_delay(788985492), Ok(()));
    assert_eq!(pedal.delay_time(), 8817);
    assert_eq!(pedal.set_delay(-ONE), Ok(()));
    assert_eq!(pedal.delay_time(), 0);
    assert_eq!(pedal.set_delay(ONE - 1), Ok(()));
    assert_eq!(pedal.delay_time(), 47999);
    assert_eq!(pedal.set_delay(ONE), Err(ConfigError::DelayTooLong));
    assert_eq!(pedal.delay_time(), 47999);
    assert_eq!(pedal.set_delay(i64::MAX), Err(ConfigError::DelayTooLong));
    assert_eq!(pedal.delay_time(), 47999);
}

#[test]
fn delay_feedback_is_validated() {
    let mut pedal = Delay::new(48000, 4);
    assert_eq!(pedal.set_feedback(ONE / 2), Ok(()));
    assert_eq!(pedal.feedback(), ONE / 2);
    assert_eq!(pedal.set_feedback(ONE), Err(ConfigError::FeedbackTooLarge));
    assert_eq!(pedal.set_feedback(2 * ONE), Err(ConfigError::FeedbackTooLarge));
    assert_eq!(pedal.feedback(), ONE / 2);
    assert_eq!(pedal.set_feedback(-ONE), Ok(()));
    assert_eq!(pedal.feedback(), -ONE);
}

#[test]
fn delay_takes_settings_by_message() {
    let mut pedal = Delay::new(48000, 4);
    let set = |param: &str, value: i64| CtrlMsg::SetParam("d".to_string(), param.to_string(), value);
    assert_eq!(pedal.ctrl(&set("feedback", ONE / 4)), Ok(()));
    assert_eq!(pedal.feedback(), ONE / 4);
    assert_eq!(pedal.ctrl(&set("feedback", ONE)), Err(ConfigError::FeedbackTooLarge));
    assert_eq!(pedal.ctrl(&set("delay", ONE / 2)), Ok(()));
    assert_eq!(pedal.delay_time(), 24000);
    assert_eq!(pedal.ctrl(&set("delay", 2 * ONE)), Err(ConfigError::DelayTooLong));
    assert_eq!(pedal.delay_time(), 24000);
    assert_eq!(pedal.ctrl(&set("colour", ONE)), Ok(()));
    assert_eq!(pedal.ctrl(&CtrlMsg::Bypass), Ok(()));
    assert!(pedal.is_bypassing());
    assert_eq!(pedal.ctrl(&CtrlMsg::Connections), Ok(()));
    assert!(pedal.is_bypassing());
    assert_eq!(pedal.feedback(), ONE / 4);
}
