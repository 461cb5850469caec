//! Multi-channel coordinator behaviour: latency, lookahead, parameter
//! updates, shared detection, and stream stability.

use comprs::params::{CompressorParams, Parameter};
use comprs::plugin::CompressorPlugin;
use comprs::SCALE;

fn fx(x: f64) -> i64 {
    (x * SCALE as f64).round() as i64
}

fn fl(v: i64) -> f64 {
    v as f64 / SCALE as f64
}

#[test]
fn defaults_match_documentation() {
    let plugin = CompressorPlugin::default();
    assert_eq!(plugin.channels(), 2);
    let p = plugin.params();
    assert_eq!(p.threshold, fx(-10.0));
    assert_eq!(p.ratio, fx(4.0));
    assert_eq!(p.knee_width, fx(5.0));
    assert_eq!(p.dry_wet, SCALE);
    assert_eq!(p.rms_mix, 0);
    assert_eq!(p.lookahead, 0);
}

#[test]
fn initialize_sizes_windows_from_the_sample_rate() {
    let mut plugin = CompressorPlugin::default();
    plugin.initialize(44100);
    // Default window parameter is 10 ms: 441 samples at 44100 Hz.
    let expected = (44100i64 * plugin.params().rms_buffer_size / SCALE) as usize;
    assert_eq!(plugin.window_len(), expected);
    assert!((expected as i64 - 441).abs() <= 1);
    plugin.initialize(96000);
    let expected = (96000i64 * plugin.params().rms_buffer_size / SCALE) as usize;
    assert_eq!(plugin.window_len(), expected);
}

#[test]
fn latency_equals_the_lookahead_in_samples() {
    // 5 ms of lookahead at 44100 Hz is 220 samples (floor of 220.5).
    let mut plugin = CompressorPlugin::default();
    plugin.initialize(44100);
    let reported = plugin.update_parameter(Parameter::Lookahead(fx(0.005)));
    assert_eq!(reported, Some(220));
    assert_eq!(plugin.latency_samples(), 220);
    let reported = plugin.update_parameter(Parameter::Lookahead(0));
    assert_eq!(reported, Some(0));
    assert_eq!(plugin.latency_samples(), 0);
}

#[test]
fn latency_is_clamped_to_the_window() {
    let mut plugin = CompressorPlugin::default();
    plugin.initialize(44100);
    // Ask for more lookahead than the 441-sample window can hold.
    plugin.update_parameter(Parameter::Lookahead(fx(0.03)));
    let win = plugin.window_len() as u32;
    assert_eq!(plugin.latency_samples(), win - 1);
}

#[test]
fn lookahead_reduces_gain_before_the_step_arrives() {
    // A step from silence to 0 dBFS with 5 ms lookahead: while the
    // delayed output still reads pre-step silence, the gain computed
    // from the newer samples is already below unity.
    let mut plugin = CompressorPlugin::new(1);
    plugin.initialize(44100);
    plugin.update_parameter(Parameter::KneeWidth(0));
    plugin.update_parameter(Parameter::AttackTime(0));
    plugin.update_parameter(Parameter::ReleaseTime(0));
    plugin.update_parameter(Parameter::Lookahead(fx(0.005)));
    assert_eq!(plugin.latency_samples(), 220);
    // 100 loud frames: far fewer than the 220-sample lookahead offset,
    // so the delayed read still lands in the silent part of the window.
    let frame = vec![fx(1.0)];
    let mut out = 0i64;
    for _ in 0..100 {
        out = plugin.process_frame(&frame)[0];
    }
    assert_eq!(out, 0, "delayed output should still be silent");
    // But the average gain is already up and reducing.
    assert!(plugin.get_average_gain(0) > fx(0.3));
    // Once the step has travelled through the delay, output appears
    // already compressed: no uncompressed transient is ever emitted.
    let mut max_out = 0i64;
    for _ in 0..800 {
        let o = plugin.process_frame(&frame)[0];
        if o > max_out {
            max_out = o;
        }
    }
    assert!(max_out < fx(0.75), "peak output {} should be well below 1.0", fl(max_out));
}

#[test]
fn initialize_erases_retained_history() {
    // After a sample-rate change the old window contents would be
    // time-misaligned, so initialize rebuilds zeroed windows; the
    // average-gain state persists, as the channel lifecycle requires.
    let mut plugin = CompressorPlugin::new(1);
    plugin.initialize(44100);
    plugin.update_parameter(Parameter::Lookahead(fx(0.005)));
    let frame = vec![fx(1.0)];
    for _ in 0..2_000 {
        plugin.process_frame(&frame);
    }
    let gain_before = plugin.get_average_gain(0);
    assert!(gain_before > fx(0.9));
    plugin.initialize(48000);
    assert_eq!(plugin.get_average_gain(0), gain_before);
    // The lookahead read lands inside the rebuilt window: silence, not
    // the loud audio streamed before the rate change.
    let out = plugin.process_frame(&vec![0])[0];
    assert_eq!(out, 0);
}

#[test]
fn only_latency_changes_report_latency() {
    let mut plugin = CompressorPlugin::default();
    plugin.initialize(44100);
    assert_eq!(plugin.update_parameter(Parameter::Threshold(fx(-20.0))), None);
    assert_eq!(plugin.update_parameter(Parameter::Ratio(fx(8.0))), None);
    assert!(plugin.update_parameter(Parameter::Lookahead(fx(0.001))).is_some());
    assert!(plugin.update_parameter(Parameter::RmsBufferSize(fx(0.015))).is_some());
}

#[test]
fn parameter_updates_are_clamped_to_range() {
    let mut plugin = CompressorPlugin::default();
    plugin.update_parameter(Parameter::Ratio(fx(1000.0)));
    assert_eq!(plugin.params().ratio, fx(100.0));
    plugin.update_parameter(Parameter::Threshold(fx(-500.0)));
    assert_eq!(plugin.params().threshold, fx(-100.0));
    plugin.update_parameter(Parameter::DryWet(fx(2.0)));
    assert_eq!(plugin.params().dry_wet, SCALE);
    plugin.update_parameter(Parameter::AttackTime(fx(-1.0)));
    assert_eq!(plugin.params().attack_time, 0);
}

#[test]
fn get_param_reads_back_what_was_set() {
    let mut params = CompressorParams::default();
    params.set_param(Parameter::KneeWidth(fx(7.5)));
    assert_eq!(params.get_param(&Parameter::KneeWidth(0)), fx(7.5));
    params.set_param(Parameter::RmsMix(fx(0.25)));
    assert_eq!(params.get_param(&Parameter::RmsMix(0)), fx(0.25));
    assert_eq!(params.get_param(&Parameter::Threshold(0)), fx(-10.0));
}

#[test]
fn window_length_update_resizes_between_frames() {
    let mut plugin = CompressorPlugin::default();
    plugin.initialize(44100);
    let reported = plugin.update_parameter(Parameter::RmsBufferSize(fx(0.02)));
    let expected = (44100i64 * fx(0.02) / SCALE) as usize;
    assert_eq!(plugin.window_len(), expected);
    // A window change re-reports the (unchanged, zero-lookahead) latency.
    assert_eq!(reported, Some(0));
}

#[test]
fn linked_channels_share_one_level() {
    // With rms_mix at 1.0 both channels compress from the shared
    // detector alone, so their averages agree even on different inputs.
    let mut plugin = CompressorPlugin::default();
    plugin.initialize(44100);
    plugin.update_parameter(Parameter::RmsMix(SCALE));
    let frame = vec![fx(1.0), fx(0.2)];
    for _ in 0..600 {
        plugin.process_frame(&frame);
    }
    assert_eq!(plugin.get_average_gain(0), plugin.get_average_gain(1));
}

#[test]
fn unlinked_channels_detect_independently() {
    let mut plugin = CompressorPlugin::default();
    plugin.initialize(44100);
    let frame = vec![fx(1.0), fx(0.2)];
    for _ in 0..600 {
        plugin.process_frame(&frame);
    }
    assert!(plugin.get_average_gain(0) > plugin.get_average_gain(1));
}

#[test]
fn metering_tracks_the_frame() {
    let mut plugin = CompressorPlugin::default();
    plugin.initialize(44100);
    for _ in 0..600 {
        plugin.process_frame(&vec![fx(0.5), fx(0.5)]);
    }
    let (pre, post) = plugin.amplitudes();
    assert_eq!(pre, fx(0.5));
    assert!(post > 0 && post <= pre);
}

#[test]
fn resizing_mid_stream_keeps_output_stable() {
    // A 10,000-frame stereo stream with window-length changes at
    // arbitrary points: every output stays a bounded, well-defined
    // value, and the average gain state stays usable throughout.
    let mut plugin = CompressorPlugin::default();
    plugin.initialize(44100);
    let mut x: i64 = 987654321;
    for i in 0..10_000usize {
        if i == 3_000 {
            plugin.update_parameter(Parameter::RmsBufferSize(fx(0.002)));
        }
        if i == 7_000 {
            plugin.update_parameter(Parameter::RmsBufferSize(fx(0.025)));
        }
        x = x.wrapping_mul(6364136223846793005).wrapping_add(1442695040888963407);
        let a = (x >> 43) as i64;
        x = x.wrapping_mul(6364136223846793005).wrapping_add(1442695040888963407);
        let b = (x >> 43) as i64;
        let outs = plugin.process_frame(&vec![a, b]);
        for &o in outs.iter() {
            assert!(o.abs() <= 4 * SCALE, "output {o} out of range at frame {i}");
        }
        for ch in 0..2 {
            let g = plugin.get_average_gain(ch);
            assert!((0..=0x8000_0000i64).contains(&g));
        }
    }
}
