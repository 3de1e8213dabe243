use rabid::path::PathError;
use rabid::ramp::Ramp;

/// One unit in micro-units.
const UNIT: i64 = 1_000_000;

#[test]
fn ramp_duration() {
    // The robot turns 3 rps with 10cm wheel diameter, so a realistic
    // speed is 90cm/s; a conservative third of that here.
    let speed = 30 * UNIT;
    // Reaching full speed within 3 seconds means 10cm/s^2 acceleration.
    let acceleration = 10 * UNIT;
    let length = 500 * UNIT;
    // Six seconds are spent accelerating/decelerating, covering
    // 6 * 30 / 2 = 90 centimeters (two triangles make one rectangle!).
    // The remaining 410cm run at 30cm/s for 13.6666 seconds, so the
    // total is 19.6666 seconds.
    let expectation = 19_666_666;
    let ramp = Ramp::new(length, speed, acceleration).unwrap();
    assert_eq!(expectation, ramp.total_duration());
}

#[test]
fn ramp_duration_without_plateau() {
    let speed = 30 * UNIT;
    let acceleration = 10 * UNIT;
    let length = 90 * UNIT;
    // The whole length is covered by the two ramps: 6 seconds exactly.
    let expectation = 6 * UNIT;
    let ramp = Ramp::new(length, speed, acceleration).unwrap();
    assert_eq!(expectation, ramp.total_duration());
}

#[test]
fn ramp_duration_with_acceleration_cut_short() {
    let speed = 30 * UNIT;
    let acceleration = 10 * UNIT;
    let length = 50 * UNIT;
    // The two ramps meet before the velocity cap: the duration is
    // sqrt(length / acceleration) * 2 seconds, within the microsecond
    // resolution of the integer square root.
    let expectation = ((50.0f64 / 10.0).sqrt() * 2.0 * 1e6) as i64;
    let ramp = Ramp::new(length, speed, acceleration).unwrap();
    assert!((ramp.total_duration() - expectation).abs() <= 2);
}

#[test]
fn ramp_position_at_duration_zero() {
    let speed = 30 * UNIT;
    let acceleration = 10 * UNIT;
    let length = 180 * UNIT;
    let ramp = Ramp::new(length, speed, acceleration).unwrap();

    assert_eq!(0, ramp.position_at_duration(0));
}

#[test]
fn ramp_position_at_and_over_full_duration() {
    let speed = 30 * UNIT;
    let acceleration = 10 * UNIT;
    let length = 180 * UNIT;
    let ramp = Ramp::new(length, speed, acceleration).unwrap();
    assert_eq!(length, ramp.position_at_duration(ramp.total_duration()));
    assert_eq!(length, ramp.position_at_duration(ramp.total_duration() * 2));
}

#[test]
fn ramp_position_at_half_duration() {
    let speed = 30 * UNIT;
    let acceleration = 10 * UNIT;
    let length = 180 * UNIT;
    let ramp = Ramp::new(length, speed, acceleration).unwrap();
    assert_eq!(length / 2, ramp.position_at_duration(ramp.total_duration() / 2));
}

#[test]
fn ramp_position_shortly_before_end() {
    let speed = 30 * UNIT;
    let acceleration = 10 * UNIT;
    let length = 180 * UNIT;
    // One second before the end the ramp still has 0.5 * a * 1^2 to go.
    let decl_size = 5 * UNIT;
    let ramp = Ramp::new(length, speed, acceleration).unwrap();
    assert_eq!(length - decl_size, ramp.position_at_duration(ramp.total_duration() - UNIT));
}

#[test]
fn ramp_position_is_monotonic() {
    let ramp = Ramp::new(500 * UNIT, 30 * UNIT, 10 * UNIT).unwrap();
    let total = ramp.total_duration();
    let mut previous = 0;
    let mut t = 0;
    while t <= total + UNIT {
        let here = ramp.position_at_duration(t);
        assert!(previous <= here);
        assert!(here <= 500 * UNIT);
        previous = here;
        t += 137_911;
    }
    assert_eq!(ramp.position_at_duration(total), 500 * UNIT);
}

#[test]
fn ramp_rejects_invalid_profiles() {
    assert_eq!(Ramp::new(0, UNIT, UNIT).unwrap_err(), PathError::InvalidProfile);
    assert_eq!(Ramp::new(UNIT, 0, UNIT).unwrap_err(), PathError::InvalidProfile);
    assert_eq!(Ramp::new(UNIT, UNIT, 0).unwrap_err(), PathError::InvalidProfile);
    assert_eq!(Ramp::new(UNIT, -UNIT, UNIT).unwrap_err(), PathError::InvalidProfile);
}
