//! Per-channel compressor scenarios.

use comprs::compressor::Compressor;
use comprs::params::CompressorParams;
use comprs::SCALE;

fn fx(x: f64) -> i64 {
    (x * SCALE as f64).round() as i64
}

fn fl(v: i64) -> f64 {
    v as f64 / SCALE as f64
}

fn hard_knee_params() -> CompressorParams {
    // Threshold -10 dB, ratio 4:1, hard knee, instantaneous response,
    // unity gains, fully wet, no lookahead, no shared detector.
    let mut p = CompressorParams::default();
    p.set_threshold(fx(-10.0));
    p.set_ratio(fx(4.0));
    p.set_knee_width(0);
    p.set_attack_time(0);
    p.set_release_time(0);
    p
}

#[test]
fn scenario_full_scale_above_threshold() {
    // Sample rate 44100 Hz, threshold -10 dB, ratio 4, knee 0, attack =
    // release = 0, constant input 1.0 (0 dBFS).  The average converges
    // to 1.0 exactly, input_db = 0, difference = 10, above-knee branch:
    // reduced_db = -10 + 10/4 = -7.5, multiplier = 10^(-7.5/20), about
    // 0.4217; steady-state output about 0.4217.
    let p = hard_knee_params();
    let mut c = Compressor::new();
    let mut last = (0i64, 0i64, 0i64);
    for _ in 0..100 {
        last = c.process(fx(1.0), &p, 0, 44100);
    }
    assert_eq!(c.get_average_gain(), fx(1.0));
    let (delayed, output, multiplier) = last;
    assert_eq!(delayed, fx(1.0));
    assert!((fl(multiplier) - 0.4216965).abs() < 2e-3, "multiplier {}", fl(multiplier));
    assert!((fl(output) - 0.4216965).abs() < 2e-3, "output {}", fl(output));
}

#[test]
fn scenario_below_threshold_with_knee() {
    // Input at -20 dBFS (0.1), threshold -10 dB, knee 5 dB: the level
    // stays below threshold - knee/2 = -12.5 dB, so the multiplier is
    // exactly unity and the output equals the delayed input.
    let mut p = hard_knee_params();
    p.set_knee_width(fx(5.0));
    let mut c = Compressor::new();
    let mut last = (0i64, 0i64, 0i64);
    for _ in 0..100 {
        last = c.process(fx(0.1), &p, 0, 44100);
    }
    let (delayed, output, multiplier) = last;
    assert_eq!(multiplier, SCALE);
    assert_eq!(output, delayed);
    assert_eq!(delayed, fx(0.1));
}

#[test]
fn ratio_at_unity_is_a_pass_through() {
    // ratio <= 1 disables compression for every threshold/knee value,
    // even on a full-scale signal far above the threshold.
    let mut p = hard_knee_params();
    p.set_ratio(SCALE);
    p.set_threshold(fx(-60.0));
    p.set_knee_width(fx(12.0));
    let mut c = Compressor::new();
    for _ in 0..100 {
        let (delayed, output, multiplier) = c.process(fx(1.0), &p, 0, 44100);
        assert_eq!(multiplier, SCALE);
        assert_eq!(output, delayed);
    }
}

#[test]
fn quiet_signal_never_triggers_reduction() {
    // A constant input below threshold - knee/2 keeps the multiplier at
    // exactly 1.0 from the first sample on: the smoothed average rises
    // from zero toward the quiet level and never crosses the threshold.
    let mut p = hard_knee_params();
    p.set_knee_width(fx(5.0));
    p.set_attack_time(fx(0.005));
    p.set_release_time(fx(0.005));
    let mut c = Compressor::new();
    for _ in 0..500 {
        let (_, _, multiplier) = c.process(fx(0.1), &p, 0, 44100);
        assert_eq!(multiplier, SCALE);
    }
}

#[test]
fn knee_region_matches_reference_curve() {
    // Input inside the knee: threshold -10 dB, knee 5 dB, level -11 dB.
    let mut p = hard_knee_params();
    p.set_knee_width(fx(5.0));
    let level = 10f64.powf(-11.0 / 20.0);
    let mut c = Compressor::new();
    let mut last = (0i64, 0i64, 0i64);
    for _ in 0..100 {
        last = c.process(fx(level), &p, 0, 44100);
    }
    let diff = -11.0f64 + 10.0;
    let reduction = (diff + 2.5) * (diff + 2.5) / (2.0 * 5.0) * (1.0 / 4.0 - 1.0);
    let expected = 10f64.powf(reduction / 20.0);
    assert!((fl(last.2) - expected).abs() < 1e-3, "multiplier {}, expected {expected}", fl(last.2));
}

#[test]
fn hard_knee_at_exact_threshold_applies_no_reduction() {
    // With a hard knee, a level sitting exactly on the threshold is not
    // yet above it: compression starts strictly above the threshold.
    let mut p = hard_knee_params();
    p.set_threshold(0);
    let mut c = Compressor::new();
    let mut last = (0i64, 0i64, 0i64);
    for _ in 0..100 {
        last = c.process(fx(1.0), &p, 0, 44100);
    }
    assert_eq!(c.get_average_gain(), fx(1.0));
    assert_eq!(last.2, SCALE);
    assert_eq!(last.1, last.0);
}

#[test]
fn fresh_window_holds_silence() {
    // A new compressor's delay line is zeroed: with the lookahead
    // pointing behind the first sample, the first output reads that
    // silence.
    let mut p = hard_knee_params();
    p.lookahead = fx(0.0005);
    let mut c = Compressor::new();
    let (delayed, output, _) = c.process(fx(1.0), &p, 0, 44100);
    assert_eq!(delayed, 0);
    assert_eq!(output, 0);
}

#[test]
fn attack_rises_faster_than_release_falls() {
    // Asymmetric smoothing: a fast attack follows a rising signal almost
    // immediately, a slow release lets the average linger after silence.
    let mut p = hard_knee_params();
    p.set_attack_time(fx(0.001));
    p.set_release_time(fx(0.3));
    let mut c = Compressor::new();
    for _ in 0..200 {
        c.process(fx(1.0), &p, 0, 44100);
    }
    let peak = c.get_average_gain();
    assert!(peak > fx(0.95), "average should reach the signal, got {}", fl(peak));
    for _ in 0..200 {
        c.process(0, &p, 0, 44100);
    }
    let lingering = c.get_average_gain();
    assert!(
        lingering > fx(0.9),
        "slow release should hold the average, got {}",
        fl(lingering)
    );
}

#[test]
fn input_gain_drives_detection() {
    // +20 dB of input gain lifts a -20 dBFS signal to 0 dBFS, which the
    // hard-knee curve then reduces exactly as a full-scale input.
    let mut p = hard_knee_params();
    p.input_gain = fx(10.0);
    let mut c = Compressor::new();
    let mut last = (0i64, 0i64, 0i64);
    for _ in 0..100 {
        last = c.process(fx(0.1), &p, 0, 44100);
    }
    assert!((fl(c.get_average_gain()) - 1.0).abs() < 1e-3);
    assert!((fl(last.2) - 0.4216965).abs() < 2e-3);
}

#[test]
fn dry_wet_blends_between_input_and_compressed() {
    let mut p = hard_knee_params();
    p.dry_wet = fx(0.5);
    let mut c = Compressor::new();
    let mut last = (0i64, 0i64, 0i64);
    for _ in 0..100 {
        last = c.process(fx(1.0), &p, 0, 44100);
    }
    let expected = 0.5 * 1.0 + 0.5 * 0.4216965;
    assert!((fl(last.1) - expected).abs() < 2e-3, "output {}", fl(last.1));
}

#[test]
fn output_gain_scales_the_result() {
    let mut p = hard_knee_params();
    p.output_gain = fx(2.0);
    let mut c = Compressor::new();
    let mut last = (0i64, 0i64, 0i64);
    for _ in 0..100 {
        last = c.process(fx(1.0), &p, 0, 44100);
    }
    assert!((fl(last.1) - 2.0 * 0.4216965).abs() < 4e-3, "output {}", fl(last.1));
}
