use digital_delay::effect::{
    DigitalDelayEffect, DEFAULT_DELAY_MS, DEFAULT_DRY_GAIN, DEFAULT_FEEDBACK, DEFAULT_WET_GAIN,
};
use digital_delay::error::DelayError;
use digital_delay::fixed::{SAMPLE_LIMIT, UNIT};

/// An effect prepared at 1000 Hz, where a delay of `k` ms maps to exactly
/// `k` samples of read offset.
fn prepared(channels: usize, delay_ms: i64, feedback: i64, dry: i64, wet: i64)
    -> DigitalDelayEffect {
    let mut e = DigitalDelayEffect::new(channels);
    e.prepare(1000, 64).unwrap();
    e.set_delay_time(delay_ms * UNIT).unwrap();
    e.set_feedback(feedback).unwrap();
    e.set_dry_gain(dry).unwrap();
    e.set_wet_gain(wet).unwrap();
    e
}

#[test]
fn new_effect_holds_defaults() {
    let e = DigitalDelayEffect::new(2);
    assert!(!e.is_prepared());
    assert_eq!(e.channel_count(), 2);
    assert_eq!(e.delay_time(), DEFAULT_DELAY_MS);
    assert_eq!(e.feedback(), DEFAULT_FEEDBACK);
    assert_eq!(e.dry_gain(), DEFAULT_DRY_GAIN);
    assert_eq!(e.wet_gain(), DEFAULT_WET_GAIN);
}

#[test]
fn prepare_rejects_zero_sample_rate() {
    let mut e = DigitalDelayEffect::new(2);
    assert!(matches!(e.prepare(0, 64), Err(DelayError::InvalidSampleRate)));
    assert!(!e.is_prepared());
}

#[test]
fn prepare_rejects_excessive_sample_rate() {
    let mut e = DigitalDelayEffect::new(2);
    assert!(matches!(e.prepare(2_000_000, 64), Err(DelayError::InvalidSampleRate)));
    assert!(!e.is_prepared());
}

#[test]
fn prepare_succeeds_and_readies_the_effect() {
    let mut e = DigitalDelayEffect::new(2);
    assert!(e.prepare(48000, 512).is_ok());
    assert!(e.is_prepared());
    assert_eq!(e.max_block(), 512);
}

#[test]
fn process_rejects_channel_mismatch() {
    let mut e = prepared(2, 4, 0, 0, UNIT);
    let mut buffer = vec![vec![0i64; 16]];
    assert!(matches!(e.process(&mut buffer), Err(DelayError::ChannelCountMismatch)));
    assert_eq!(buffer, vec![vec![0i64; 16]]);
}

#[test]
fn process_rejects_oversized_block() {
    let mut e = prepared(1, 4, 0, 0, UNIT);
    let mut buffer = vec![vec![0i64; 65]];
    assert!(matches!(e.process(&mut buffer), Err(DelayError::BlockTooLarge)));
    assert_eq!(buffer, vec![vec![0i64; 65]]);
}

#[test]
fn parameter_rejection_keeps_prior_values() {
    let mut e = prepared(1, 4, 0, 0, UNIT);
    // 1.5 in Q16 is out of the feedback range [0, 1].
    assert!(matches!(e.set_feedback(3 * UNIT / 2), Err(DelayError::ParameterOutOfRange)));
    // 0 ms and 1001 ms are outside the delay range [1 ms, 1000 ms].
    assert!(matches!(e.set_delay_time(0), Err(DelayError::ParameterOutOfRange)));
    assert!(matches!(e.set_delay_time(1001 * UNIT), Err(DelayError::ParameterOutOfRange)));
    assert!(matches!(e.set_dry_gain(-1), Err(DelayError::ParameterOutOfRange)));
    assert!(matches!(e.set_wet_gain(-1), Err(DelayError::ParameterOutOfRange)));
    assert_eq!(e.feedback(), 0);
    assert_eq!(e.delay_time(), 4 * UNIT);
    assert_eq!(e.dry_gain(), 0);
    assert_eq!(e.wet_gain(), UNIT);
    // A subsequent process call uses the prior values: the impulse comes
    // back once, undecayed, one write-read cycle after the 4-sample delay.
    let mut buffer = vec![vec![0i64; 16]];
    buffer[0][0] = UNIT;
    e.process(&mut buffer).unwrap();
    for i in 0..16 {
        let expected = if i == 5 { UNIT } else { 0 };
        assert_eq!(buffer[0][i], expected);
    }
}

#[test]
fn delay_accuracy_unit_impulse() {
    // Feedback 0, dry 0, wet 1, delay exactly 4 samples at 1000 Hz: the
    // impulse reappears once, at full magnitude, within one sample of the
    // configured delay (the write-then-read topology adds one sample).
    let mut e = prepared(1, 4, 0, 0, UNIT);
    let mut buffer = vec![vec![0i64; 16]];
    buffer[0][0] = UNIT;
    e.process(&mut buffer).unwrap();
    for i in 0..16 {
        let expected = if i == 5 { UNIT } else { 0 };
        assert_eq!(buffer[0][i], expected);
    }
}

#[test]
fn feedback_decay_halves_each_echo() {
    // Feedback one half: every echo is exactly half its predecessor.
    let mut e = prepared(1, 4, UNIT / 2, 0, UNIT);
    let mut buffer = vec![vec![0i64; 16]];
    buffer[0][0] = UNIT;
    e.process(&mut buffer).unwrap();
    for i in 0..16 {
        let expected = match i {
            5 => UNIT,
            10 => UNIT / 2,
            15 => UNIT / 4,
            _ => 0,
        };
        assert_eq!(buffer[0][i], expected);
    }
}

#[test]
fn dry_gain_scales_the_direct_path() {
    let mut e = prepared(1, 4, 0, UNIT / 2, 0);
    let mut buffer = vec![vec![0i64; 8]];
    buffer[0][0] = 1000;
    buffer[0][1] = -2000;
    e.process(&mut buffer).unwrap();
    assert_eq!(buffer[0][0], 500);
    assert_eq!(buffer[0][1], -1000);
    for i in 2..8 {
        assert_eq!(buffer[0][i], 0);
    }
}

#[test]
fn wet_gain_scales_the_echo() {
    let mut e = prepared(1, 4, 0, 0, UNIT / 2);
    let mut buffer = vec![vec![0i64; 8]];
    buffer[0][0] = 1000;
    e.process(&mut buffer).unwrap();
    assert_eq!(buffer[0][5], 500);
}

#[test]
fn output_saturates_at_headroom() {
    let mut e = prepared(1, 4, 0, digital_delay::fixed::GAIN_LIMIT, 0);
    let mut buffer = vec![vec![SAMPLE_LIMIT; 4]];
    e.process(&mut buffer).unwrap();
    for i in 0..4 {
        assert_eq!(buffer[0][i], SAMPLE_LIMIT);
    }
}

#[test]
fn reset_twice_equals_reset_once() {
    // Two identically configured and excited effects; one resets once,
    // the other twice.  A probe block then behaves identically.
    let mut e1 = prepared(1, 4, UNIT / 2, 0, UNIT);
    let mut e2 = prepared(1, 4, UNIT / 2, 0, UNIT);
    let mut b1 = vec![vec![0i64; 16]];
    b1[0][0] = UNIT;
    let mut b2 = b1.clone();
    e1.process(&mut b1).unwrap();
    e2.process(&mut b2).unwrap();
    e1.reset();
    e2.reset();
    e2.reset();
    let mut p1 = vec![vec![0i64; 16]];
    p1[0][0] = 777;
    let mut p2 = p1.clone();
    e1.process(&mut p1).unwrap();
    e2.process(&mut p2).unwrap();
    assert_eq!(p1, p2);
}

#[test]
fn reset_silences_the_tail() {
    let mut e = prepared(1, 4, UNIT / 2, 0, UNIT);
    let mut buffer = vec![vec![0i64; 16]];
    buffer[0][0] = UNIT;
    e.process(&mut buffer).unwrap();
    e.reset();
    let mut silent = vec![vec![0i64; 16]];
    e.process(&mut silent).unwrap();
    assert_eq!(silent, vec![vec![0i64; 16]]);
    // Parameters survive the reset untouched.
    assert_eq!(e.feedback(), UNIT / 2);
    assert_eq!(e.delay_time(), 4 * UNIT);
}

#[test]
fn channel_independence() {
    // An impulse on channel 0 never bleeds into the silent channel 1.
    let mut e = prepared(2, 4, UNIT / 2, UNIT, UNIT);
    let mut buffer = vec![vec![0i64; 32], vec![0i64; 32]];
    buffer[0][0] = UNIT;
    e.process(&mut buffer).unwrap();
    assert_ne!(buffer[0], vec![0i64; 32]);
    assert_eq!(buffer[1], vec![0i64; 32]);
}

#[test]
fn block_size_invariance() {
    // One 16-sample pass equals two 8-sample passes, sample for sample.
    let mut whole = prepared(1, 4, UNIT / 2, UNIT, UNIT);
    let mut halves = prepared(1, 4, UNIT / 2, UNIT, UNIT);
    let mut input = vec![0i64; 16];
    input[0] = UNIT;
    input[3] = -(UNIT / 3);
    input[9] = 12345;
    let mut b_whole = vec![input.clone()];
    whole.process(&mut b_whole).unwrap();
    let mut b_first = vec![input[0..8].to_vec()];
    let mut b_second = vec![input[8..16].to_vec()];
    halves.process(&mut b_first).unwrap();
    halves.process(&mut b_second).unwrap();
    let mut joined = b_first[0].clone();
    joined.extend_from_slice(&b_second[0]);
    assert_eq!(b_whole[0], joined);
}

#[test]
fn silence_decays_to_exact_zero() {
    // With feedback below unity, repeated silent blocks drain the echo
    // tail to exact zero: no energy is ever created.
    let mut e = prepared(1, 4, UNIT / 2, 0, UNIT);
    let mut buffer = vec![vec![0i64; 16]];
    buffer[0][0] = UNIT;
    e.process(&mut buffer).unwrap();
    let mut last = vec![vec![0i64; 16]];
    for _ in 0..40 {
        last = vec![vec![0i64; 16]];
        e.process(&mut last).unwrap();
    }
    assert_eq!(last, vec![vec![0i64; 16]]);
}

#[test]
fn fractional_delay_blends_the_echo() {
    // 4.5 ms at 1000 Hz: the echo is spread over two neighbouring samples.
    let mut e = prepared(1, 4, 0, 0, UNIT);
    e.set_delay_time(4 * UNIT + UNIT / 2).unwrap();
    let mut buffer = vec![vec![0i64; 16]];
    buffer[0][0] = UNIT;
    e.process(&mut buffer).unwrap();
    assert_eq!(buffer[0][5] + buffer[0][6], UNIT);
    assert_eq!(buffer[0][5], UNIT / 2);
    assert_eq!(buffer[0][6], UNIT / 2);
}
