//! Sliding-window RMS detector behaviour.

use comprs::detector::RmsLevelDetector;
use comprs::SCALE;

fn fx(x: f64) -> i64 {
    (x * SCALE as f64).round() as i64
}

#[test]
fn constant_signal_rms_is_exact() {
    // After one full window length of a constant-magnitude signal, the
    // RMS equals that magnitude exactly.
    let half = fx(0.5);
    let mut det = RmsLevelDetector::new(100);
    let mut level: i64 = 0;
    for _ in 0..100 {
        level = det.calculate_rms(half);
    }
    assert_eq!(level, half);
}

#[test]
fn constant_negative_signal_rms_is_magnitude() {
    let v = fx(-0.25);
    let mut det = RmsLevelDetector::new(64);
    let mut level: i64 = 0;
    for _ in 0..64 {
        level = det.calculate_rms(v);
    }
    assert_eq!(level, fx(0.25));
}

#[test]
fn partial_window_reads_below_magnitude() {
    let one = fx(1.0);
    let mut det = RmsLevelDetector::new(400);
    let mut level: i64 = 0;
    for _ in 0..100 {
        level = det.calculate_rms(one);
    }
    // A quarter of the window is ones: RMS is sqrt(1/4) = 0.5.
    assert_eq!(level, fx(0.5));
}

#[test]
fn silence_reads_zero() {
    let mut det = RmsLevelDetector::default();
    assert_eq!(det.calculate_rms(0), 0);
}

#[test]
fn lookahead_reads_behind_the_newest_sample() {
    let mut det = RmsLevelDetector::new(5);
    for v in 1..=5i64 {
        det.calculate_rms(v);
    }
    // Window is [1, 2, 3, 4, 5], oldest first.
    assert_eq!(det.read_delayed(0), 5);
    assert_eq!(det.read_delayed(2), 3);
    assert_eq!(det.read_delayed(4), 1);
    // An offset past the window clamps to the oldest sample.
    assert_eq!(det.read_delayed(100), 1);
}

#[test]
fn resize_keeps_oldest_and_pads_newest() {
    let mut det = RmsLevelDetector::new(4);
    for v in [10i64, 20, 30, 40] {
        det.calculate_rms(v);
    }
    // Window [10, 20, 30, 40]; shrinking keeps the front.
    det.resize(2);
    assert_eq!(det.window_len(), 2);
    assert_eq!(det.read_delayed(0), 20);
    assert_eq!(det.read_delayed(1), 10);
    // Growing zero-fills at the newest end.
    det.resize(4);
    assert_eq!(det.window_len(), 4);
    assert_eq!(det.read_delayed(0), 0);
    assert_eq!(det.read_delayed(3), 10);
}

#[test]
fn resize_recomputes_the_running_sum() {
    let mut det = RmsLevelDetector::new(8);
    for _ in 0..8 {
        det.calculate_rms(fx(1.0));
    }
    // Shrink to half: still all ones, RMS still 1.0 on the next update.
    det.resize(4);
    assert_eq!(det.calculate_rms(fx(1.0)), fx(1.0));
    // Grow back: the window is four ones then four zeros; one update
    // drops a one and pushes a one, so four of eight samples are ones.
    // The sum must match the contents, not the stale total.
    det.resize(8);
    let level = det.calculate_rms(fx(1.0));
    let expected = ((4.0f64 / 8.0).sqrt() * SCALE as f64) as i64;
    assert!((level - expected).abs() <= 1, "level {level}, expected about {expected}");
}

#[test]
fn resizing_mid_stream_never_corrupts_levels() {
    // A 10,000-sample stream with window resizes at arbitrary points
    // keeps every level a well-defined, bounded value.
    let mut det = RmsLevelDetector::new(441);
    let mut x: i64 = 12345;
    for i in 0..10_000usize {
        if i == 2_500 {
            det.resize(100);
        }
        if i == 5_000 {
            det.resize(1000);
        }
        if i == 7_500 {
            det.resize(441);
        }
        // Deterministic pseudo-random sample in about [-1, 1].
        x = x.wrapping_mul(6364136223846793005).wrapping_add(1442695040888963407);
        let sample = (x >> 43) as i64;
        let level = det.calculate_rms(sample);
        assert!((0..=0x8000_0000i64).contains(&level), "level {level} out of range at {i}");
    }
}
