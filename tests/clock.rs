use jitter_sampler::{
    calibrate_monotonic, calibration_offset, clock_monotonic, clock_rdtsc, clock_realtime,
    configure_clock, counter_nanos, monotonic_nanos, monotonic_offset, timespec_nanos, ClockError,
    TimeSource,
};

#[test]
fn resolves_time_sources() {
    assert_eq!(configure_clock("wall-clock", None), Ok(TimeSource::WallClock));
    assert_eq!(configure_clock("monotonic-clock", None), Ok(TimeSource::MonotonicClock));
    assert_eq!(configure_clock("hardware-counter", Some(3_000_000_000)), Ok(TimeSource::HardwareCounter));
}

#[test]
fn rejects_unknown_time_source() {
    assert_eq!(configure_clock("sundial", None), Err(ClockError::UnsupportedTimeSource));
    assert_eq!(configure_clock("", Some(1)), Err(ClockError::UnsupportedTimeSource));
}

#[test]
fn hardware_counter_needs_frequency() {
    assert_eq!(configure_clock("hardware-counter", None), Err(ClockError::MissingFrequency));
    assert_eq!(configure_clock("hardware-counter", Some(0)), Err(ClockError::MissingFrequency));
}

#[test]
fn timespec_to_nanos() {
    assert_eq!(timespec_nanos(2, 5), Ok(2_000_000_005));
    assert_eq!(timespec_nanos(-1, 0), Ok(-1_000_000_000));
    assert_eq!(timespec_nanos(i64::MAX, 0), Err(ClockError::OutOfRange));
}

#[test]
fn counter_to_nanos() {
    assert_eq!(counter_nanos(3_000_000_000, 3_000_000_000), 1_000_000_000);
    assert_eq!(counter_nanos(7, 2_000_000_000), 3);
    assert_eq!(counter_nanos(u64::MAX, 1), i64::MAX);
}

#[test]
fn counter_time_with_offset() {
    assert_eq!(clock_rdtsc(2_500, 2_500_000_000, 100), Ok(1_100));
    assert_eq!(clock_rdtsc(0, 1, -5), Ok(-5));
    assert_eq!(clock_rdtsc(u64::MAX, 1, 1), Err(ClockError::OutOfRange));
}

#[test]
fn calibration_takes_smallest_gap() {
    assert_eq!(calibration_offset(&vec![(100, 1_100), (200, 1_250), (300, 1_300)]), Some(1_000));
    assert_eq!(calibration_offset(&vec![]), None);
    assert_eq!(calibration_offset(&vec![(i64::MIN, i64::MAX)]), None);
}

#[test]
fn scripted_counter_calibrates_within_a_microsecond() {
    // the wall clock runs a fixed 5 s ahead of the counter, with scheduling noise
    let freq: u64 = 2_000_000_000;
    let true_offset: i64 = 5_000_000_000;
    let mut pairs = Vec::new();
    for i in 0..100_000u64 {
        let cycles = 1_000_000 + i * 997;
        let counter_ns = counter_nanos(cycles, freq);
        let noise = if i % 17 == 0 { 40_000 } else { (i % 3) as i64 * 100 };
        pairs.push((counter_ns, counter_ns + true_offset + noise));
    }
    let offset = calibration_offset(&pairs).unwrap();
    assert_eq!(offset, true_offset);
    let cycles = 9_999_999;
    let wall = counter_nanos(cycles, freq) + true_offset;
    let t = clock_rdtsc(cycles, freq, offset).unwrap();
    assert!((t - wall).abs() < 1_000);
}

#[test]
fn system_clocks_read() {
    let wall = clock_realtime().unwrap();
    assert!(wall > 1_500_000_000_000_000_000);
    let offset = calibrate_monotonic().unwrap();
    let mono = clock_monotonic(offset).unwrap();
    assert!((mono - wall).abs() < 60_000_000_000);
    let raw = clock_monotonic(0).unwrap();
    assert_ne!(raw, mono);
}

#[test]
fn monotonic_reading_with_offset() {
    assert_eq!(monotonic_nanos(3, 7, 1_000), Ok(3_000_001_007));
    assert_eq!(monotonic_nanos(0, 0, -10), Ok(-10));
    assert_eq!(monotonic_nanos(i64::MAX, 0, 0), Err(ClockError::OutOfRange));
    assert_eq!(monotonic_nanos(9_000_000_000, 0, 300_000_000_000_000_000), Err(ClockError::OutOfRange));
    assert_eq!(monotonic_offset(1_700_000_000_000_000_000, 5_000), Ok(1_699_999_999_999_995_000));
    assert_eq!(monotonic_offset(i64::MIN, 1), Err(ClockError::OutOfRange));
}
