use digital_delay::delay_line::DelayLine;
use digital_delay::error::DelayError;
use digital_delay::fixed::{GAIN_LIMIT, SAMPLE_LIMIT, UNIT};

#[test]
fn create_zero_capacity_rejected() {
    assert!(matches!(DelayLine::create(0), Err(DelayError::InvalidCapacity)));
}

#[test]
fn create_gives_silent_line() {
    let line = DelayLine::create(8).unwrap();
    assert_eq!(line.len(), 8);
    for k in 0..7 {
        assert_eq!(line.read_at_offset(k * UNIT), 0);
    }
}

#[test]
fn write_then_read_integer_offsets() {
    let mut line = DelayLine::create(8).unwrap();
    line.write(1000);
    line.write(2000);
    line.write(3000);
    // Offset 0 is the newest write, larger offsets reach further back.
    assert_eq!(line.read_at_offset(0), 3000);
    assert_eq!(line.read_at_offset(UNIT), 2000);
    assert_eq!(line.read_at_offset(2 * UNIT), 1000);
    assert_eq!(line.read_at_offset(3 * UNIT), 0);
}

#[test]
fn write_wraps_around() {
    let mut line = DelayLine::create(3).unwrap();
    line.write(1);
    line.write(2);
    line.write(3);
    line.write(4); // overwrites the oldest sample
    assert_eq!(line.read_at_offset(0), 4);
    assert_eq!(line.read_at_offset(UNIT), 3);
}

#[test]
fn fractional_read_blends_neighbours() {
    let mut line = DelayLine::create(8).unwrap();
    line.write(0);
    line.write(UNIT); // newest = 65536, one behind = 0
    // Halfway between the two neighbours.
    assert_eq!(line.read_at_offset(UNIT / 2), UNIT / 2);
    // A quarter of the way from the newer sample toward the older one.
    assert_eq!(line.read_at_offset(UNIT / 4), UNIT - UNIT / 4);
    // Integer offsets return the stored samples exactly.
    assert_eq!(line.read_at_offset(0), UNIT);
    assert_eq!(line.read_at_offset(UNIT), 0);
}

#[test]
fn fractional_read_negative_slope() {
    let mut line = DelayLine::create(4).unwrap();
    line.write(4000);
    line.write(-4000); // newest = -4000, one behind = 4000
    assert_eq!(line.read_at_offset(UNIT / 2), 0);
}

#[test]
fn clear_silences_everything() {
    let mut line = DelayLine::create(4).unwrap();
    line.write(123);
    line.write(-456);
    line.clear();
    for k in 0..3 {
        assert_eq!(line.read_at_offset(k * UNIT), 0);
    }
}

#[test]
fn scale_and_saturate_are_exact() {
    assert_eq!(digital_delay::fixed::scale(1000, UNIT), 1000);
    assert_eq!(digital_delay::fixed::scale(1000, UNIT / 2), 500);
    assert_eq!(digital_delay::fixed::scale(-1000, UNIT / 2), -500);
    assert_eq!(digital_delay::fixed::scale(SAMPLE_LIMIT, GAIN_LIMIT), SAMPLE_LIMIT * 256);
    assert_eq!(digital_delay::fixed::saturate(SAMPLE_LIMIT + 1), SAMPLE_LIMIT);
    assert_eq!(digital_delay::fixed::saturate(-SAMPLE_LIMIT - 1), -SAMPLE_LIMIT);
    assert_eq!(digital_delay::fixed::saturate(42), 42);
}
