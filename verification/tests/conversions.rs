//! Decibel/linear conversion behaviour, checked against floating-point
//! references.

use comprs::db::{calculate_filter_coefficient, db_to_gain, gain_to_db};
use comprs::math::isqrt;
use comprs::SCALE;

fn fx(x: f64) -> i64 {
    (x * SCALE as f64).round() as i64
}

fn fl(v: i64) -> f64 {
    v as f64 / SCALE as f64
}

#[test]
fn unity_gain_is_zero_db() {
    assert_eq!(gain_to_db(SCALE), 0);
}

#[test]
fn zero_db_is_unity_gain() {
    assert_eq!(db_to_gain(0), SCALE);
}

#[test]
fn round_trip_through_decibels() {
    // db_to_gain(gain_to_db(x)) == x within floating tolerance, x > 0.
    for &x in &[0.01f64, 0.05, 0.1, 0.25, 0.5, 0.7071, 1.0, 1.5, 2.0, 10.0, 100.0, 1000.0] {
        let v = fx(x);
        let rt = db_to_gain(gain_to_db(v));
        let rel = (fl(rt) - x).abs() / x;
        assert!(rel < 1e-3, "round trip of {x}: got {}, rel err {rel}", fl(rt));
    }
}

#[test]
fn gain_to_db_matches_reference() {
    for &x in &[0.1f64, 0.3162277660168379, 0.5, 1.0, 2.0, 31.62] {
        let v = fx(x);
        let db = gain_to_db(v) as f64 / SCALE as f64;
        let expected = 20.0 * x.log10();
        assert!((db - expected).abs() < 0.01, "gain_to_db({x}) = {db}, expected {expected}");
    }
}

#[test]
fn db_to_gain_matches_reference() {
    for &d in &[-60.0f64, -20.0, -7.5, -3.0, -1.0, 0.0, 6.0, 20.0] {
        let v = fx(d);
        let g = fl(db_to_gain(v));
        let expected = 10f64.powf(d / 20.0);
        let rel = (g - expected).abs() / expected;
        assert!(rel < 1e-3, "db_to_gain({d}) = {g}, expected {expected}");
    }
}

#[test]
fn zero_amplitude_floors_to_smallest_positive() {
    // The epsilon guard: zero converts to the dB value of one fixed-point
    // unit, about -120 dB, not to an undefined value.
    let db = gain_to_db(0) as f64 / SCALE as f64;
    assert!((-121.0..=-120.0).contains(&db), "gain_to_db(0) = {db}");
}

#[test]
fn zero_time_constant_is_instantaneous() {
    assert_eq!(calculate_filter_coefficient(0, 44100), 0);
}

#[test]
fn filter_coefficient_matches_reference() {
    for &(t, rate) in &[(0.001f64, 44100u32), (0.01, 44100), (0.05, 44100), (0.3, 48000)] {
        let c = fl(calculate_filter_coefficient(fx(t), rate));
        let expected = (-1.0 / (rate as f64 * t)).exp();
        assert!((c - expected).abs() < 1e-3, "coefficient({t}, {rate}) = {c}, expected {expected}");
    }
}

#[test]
fn faster_attack_means_smaller_coefficient() {
    let fast = calculate_filter_coefficient(fx(0.001), 44100);
    let slow = calculate_filter_coefficient(fx(0.3), 44100);
    assert!(fast < slow);
    assert!(slow < SCALE);
}

#[test]
fn integer_square_roots_are_exact() {
    assert_eq!(isqrt(0), 0);
    assert_eq!(isqrt(1), 1);
    assert_eq!(isqrt(15), 3);
    assert_eq!(isqrt(16), 4);
    assert_eq!(isqrt(1 << 62), 1 << 31);
    assert_eq!(isqrt((1 << 62) - 1), (1 << 31) - 1);
}
