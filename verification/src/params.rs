//! Control parameters for the compressor.
//!
//! The parameter set is owned by the caller and read by the core; every
//! value is a fixed-point integer at [`SCALE`] units.  Each parameter has
//! a documented range; the setters clamp incoming values to it, the way a
//! host clamps an automation lane to a parameter's range, so a parameter
//! set that starts well-formed stays well-formed.

use vstd::prelude::*;
use crate::{GAIN_LIMIT, MAX_BUFFER_SIZE, SCALE};

verus! {

/// Default threshold: -10 dB.
pub const DEFAULT_THRESHOLD: i64 = -10485760;

/// Default ratio: 4:1.
pub const DEFAULT_RATIO: i64 = 4194304;

/// Default knee width: 5 dB.
pub const DEFAULT_KNEE: i64 = 5242880;

/// Default attack time: 1 ms.
pub const DEFAULT_ATTACK_TIME: i64 = 1049;

/// Default release time: 50 ms.
pub const DEFAULT_RELEASE_TIME: i64 = 52429;

/// Default detector window length: 10 ms.
pub const DEFAULT_BUFFER_SIZE: i64 = 10486;

/// Shortest detector window length: 1 ms.
pub const MIN_BUFFER_SIZE: i64 = 1049;

/// How the compressor derives its level estimate from the input.
#[derive(Clone, Copy, PartialEq, Eq, Structural)]
pub enum LevelDetectionType {
    /// Sliding-window RMS of the signal.
    Rms,
}

/// A single named control value, as delivered by the host or an editor.
#[derive(Clone, Copy, PartialEq, Eq, Structural)]
pub enum Parameter {
    Ratio(i64),
    Threshold(i64),
    AttackTime(i64),
    ReleaseTime(i64),
    KneeWidth(i64),
    InputGain(i64),
    OutputGain(i64),
    DryWet(i64),
    RmsBufferSize(i64),
    Lookahead(i64),
    RmsMix(i64),
}

/// Clamps a value into `[lo, hi]`.
pub open spec fn spec_clamp(v: int, lo: int, hi: int) -> int {
    if v < lo {
        lo
    } else if v > hi {
        hi
    } else {
        v
    }
}

fn clamp(v: i64, lo: i64, hi: i64) -> (r: i64)
    requires
        lo <= hi,
    ensures
        r == spec_clamp(v as int, lo as int, hi as int),
{
    if v < lo {
        lo
    } else if v > hi {
        hi
    } else {
        v
    }
}

/// The compressor's control parameters, all fixed-point at [`SCALE`]
/// units: decibels for threshold and knee width, seconds for the time
/// values, linear factors for the gains and mixes.
pub struct CompressorParams {
    /// Level (dB) above which compression begins.
    pub threshold: i64,
    /// Compression slope above the threshold, as `ratio`:1 in decibels;
    /// at or below 1:1 the compressor passes the signal through.
    pub ratio: i64,
    /// Seconds for the smoothed level to follow a rising signal.
    pub attack_time: i64,
    /// Seconds for the smoothed level to follow a falling signal.
    pub release_time: i64,
    /// Width (dB) of the soft transition centred on the threshold.
    pub knee_width: i64,
    /// Linear gain applied to the input before detection.
    pub input_gain: i64,
    /// Linear gain applied to the output after the dry/wet blend.
    pub output_gain: i64,
    /// Blend between the uncompressed (0) and compressed (1) signal.
    pub dry_wet: i64,
    /// Seconds of input the detector window covers.
    pub rms_buffer_size: i64,
    /// Seconds the output is delayed so gain can lead the signal.
    pub lookahead: i64,
    /// Blend between each channel's own level estimate (0) and the
    /// shared cross-channel estimate (1).
    pub rms_mix: i64,
}

impl CompressorParams {
    /// Every parameter lies in its documented range.
    pub open spec fn wf(&self) -> bool {
        &&& -100 * SCALE <= self.threshold <= 5 * SCALE
        &&& SCALE <= self.ratio <= 100 * SCALE
        &&& 0 <= self.attack_time <= SCALE
        &&& 0 <= self.release_time <= 5 * SCALE
        &&& 0 <= self.knee_width <= 20 * SCALE
        &&& 0 <= self.input_gain <= GAIN_LIMIT
        &&& 0 <= self.output_gain <= GAIN_LIMIT
        &&& 0 <= self.dry_wet <= SCALE
        &&& MIN_BUFFER_SIZE <= self.rms_buffer_size <= MAX_BUFFER_SIZE
        &&& 0 <= self.lookahead <= MAX_BUFFER_SIZE
        &&& 0 <= self.rms_mix <= SCALE
    }

    /// The stored value of the parameter that `action` names, ignoring
    /// the value the action carries.
    pub open spec fn spec_param_value(&self, action: Parameter) -> int {
        match action {
            Parameter::Ratio(_) => self.ratio as int,
            Parameter::Threshold(_) => self.threshold as int,
            Parameter::AttackTime(_) => self.attack_time as int,
            Parameter::ReleaseTime(_) => self.release_time as int,
            Parameter::KneeWidth(_) => self.knee_width as int,
            Parameter::InputGain(_) => self.input_gain as int,
            Parameter::OutputGain(_) => self.output_gain as int,
            Parameter::DryWet(_) => self.dry_wet as int,
            Parameter::RmsBufferSize(_) => self.rms_buffer_size as int,
            Parameter::Lookahead(_) => self.lookahead as int,
            Parameter::RmsMix(_) => self.rms_mix as int,
        }
    }

    /// The parameter set after applying `action`: the named field is
    /// replaced by the action's value clamped to the field's range, and
    /// every other field keeps its value.
    pub open spec fn spec_with_param(self, action: Parameter) -> CompressorParams {
        match action {
            Parameter::Ratio(v) => CompressorParams {
                ratio: spec_clamp(v as int, SCALE as int, 100 * SCALE) as i64,
                ..self
            },
            Parameter::Threshold(v) => CompressorParams {
                threshold: spec_clamp(v as int, -100 * SCALE, 5 * SCALE) as i64,
                ..self
            },
            Parameter::AttackTime(v) => CompressorParams {
                attack_time: spec_clamp(v as int, 0, SCALE as int) as i64,
                ..self
            },
            Parameter::ReleaseTime(v) => CompressorParams {
                release_time: spec_clamp(v as int, 0, 5 * SCALE) as i64,
                ..self
            },
            Parameter::KneeWidth(v) => CompressorParams {
                knee_width: spec_clamp(v as int, 0, 20 * SCALE) as i64,
                ..self
            },
            Parameter::InputGain(v) => CompressorParams {
                input_gain: spec_clamp(v as int, 0, GAIN_LIMIT as int) as i64,
                ..self
            },
            Parameter::OutputGain(v) => CompressorParams {
                output_gain: spec_clamp(v as int, 0, GAIN_LIMIT as int) as i64,
                ..self
            },
            Parameter::DryWet(v) => CompressorParams {
                dry_wet: spec_clamp(v as int, 0, SCALE as int) as i64,
                ..self
            },
            Parameter::RmsBufferSize(v) => CompressorParams {
                rms_buffer_size: spec_clamp(
                    v as int,
                    MIN_BUFFER_SIZE as int,
                    MAX_BUFFER_SIZE as int,
                ) as i64,
                ..self
            },
            Parameter::Lookahead(v) => CompressorParams {
                lookahead: spec_clamp(v as int, 0, MAX_BUFFER_SIZE as int) as i64,
                ..self
            },
            Parameter::RmsMix(v) => CompressorParams {
                rms_mix: spec_clamp(v as int, 0, SCALE as int) as i64,
                ..self
            },
        }
    }

    /// Reads the stored value of the parameter that `action` names.
    pub fn get_param(&self, action: &Parameter) -> (r: i64)
        ensures
            r == self.spec_param_value(*action),
    {
        match action {
            Parameter::Ratio(_) => self.ratio,
            Parameter::Threshold(_) => self.threshold,
            Parameter::AttackTime(_) => self.attack_time,
            Parameter::ReleaseTime(_) => self.release_time,
            Parameter::KneeWidth(_) => self.knee_width,
            Parameter::InputGain(_) => self.input_gain,
            Parameter::OutputGain(_) => self.output_gain,
            Parameter::DryWet(_) => self.dry_wet,
            Parameter::RmsBufferSize(_) => self.rms_buffer_size,
            Parameter::Lookahead(_) => self.lookahead,
            Parameter::RmsMix(_) => self.rms_mix,
        }
    }

    /// Applies a parameter update, clamping the value to the
    /// parameter's range.
    pub fn set_param(&mut self, action: Parameter)
        ensures
            *final(self) == old(self).spec_with_param(action),
            old(self).wf() ==> final(self).wf(),
    {
        match action {
            Parameter::Ratio(v) => self.set_ratio(v),
            Parameter::Threshold(v) => self.set_threshold(v),
            Parameter::AttackTime(v) => self.set_attack_time(v),
            Parameter::ReleaseTime(v) => self.set_release_time(v),
            Parameter::KneeWidth(v) => self.set_knee_width(v),
            Parameter::InputGain(v) => self.input_gain = clamp(v, 0, GAIN_LIMIT),
            Parameter::OutputGain(v) => self.output_gain = clamp(v, 0, GAIN_LIMIT),
            Parameter::DryWet(v) => self.dry_wet = clamp(v, 0, SCALE),
            Parameter::RmsBufferSize(v) => self.rms_buffer_size = clamp(
                v,
                MIN_BUFFER_SIZE,
                MAX_BUFFER_SIZE,
            ),
            Parameter::Lookahead(v) => self.lookahead = clamp(v, 0, MAX_BUFFER_SIZE),
            Parameter::RmsMix(v) => self.rms_mix = clamp(v, 0, SCALE),
        }
    }

    /// Sets the threshold (dB), clamped to `[-100, 5]`.
    pub fn set_threshold(&mut self, threshold: i64)
        ensures
            *final(self) == (CompressorParams {
                threshold: spec_clamp(threshold as int, -100 * SCALE, 5 * SCALE) as i64,
                ..*old(self)
            }),
    {
        self.threshold = clamp(threshold, -100 * SCALE, 5 * SCALE);
    }

    /// Sets the ratio, clamped to `[1, 100]`.
    pub fn set_ratio(&mut self, ratio: i64)
        ensures
            *final(self) == (CompressorParams {
                ratio: spec_clamp(ratio as int, SCALE as int, 100 * SCALE) as i64,
                ..*old(self)
            }),
    {
        self.ratio = clamp(ratio, SCALE, 100 * SCALE);
    }

    /// Sets the knee width (dB), clamped to `[0, 20]`.
    pub fn set_knee_width(&mut self, knee_width: i64)
        ensures
            *final(self) == (CompressorParams {
                knee_width: spec_clamp(knee_width as int, 0, 20 * SCALE) as i64,
                ..*old(self)
            }),
    {
        self.knee_width = clamp(knee_width, 0, 20 * SCALE);
    }

    /// Sets the attack time (seconds), clamped to `[0, 1]`.
    pub fn set_attack_time(&mut self, attack_time: i64)
        ensures
            *final(self) == (CompressorParams {
                attack_time: spec_clamp(attack_time as int, 0, SCALE as int) as i64,
                ..*old(self)
            }),
    {
        self.attack_time = clamp(attack_time, 0, SCALE);
    }

    /// Sets the release time (seconds), clamped to `[0, 5]`.
    pub fn set_release_time(&mut self, release_time: i64)
        ensures
            *final(self) == (CompressorParams {
                release_time: spec_clamp(release_time as int, 0, 5 * SCALE) as i64,
                ..*old(self)
            }),
    {
        self.release_time = clamp(release_time, 0, 5 * SCALE);
    }
}

/// The default parameter set, as a spec-level value.
pub open spec fn spec_default_params() -> CompressorParams {
    CompressorParams {
        threshold: DEFAULT_THRESHOLD,
        ratio: DEFAULT_RATIO,
        attack_time: DEFAULT_ATTACK_TIME,
        release_time: DEFAULT_RELEASE_TIME,
        knee_width: DEFAULT_KNEE,
        input_gain: SCALE,
        output_gain: SCALE,
        dry_wet: SCALE,
        rms_buffer_size: DEFAULT_BUFFER_SIZE,
        lookahead: 0,
        rms_mix: 0,
    }
}

impl Default for CompressorParams {
    /// The documented defaults: threshold -10 dB, ratio 4:1, knee 5 dB,
    /// 1 ms attack, 50 ms release, unity gains, fully wet, a 10 ms
    /// window, no lookahead, and no cross-channel sharing.
    fn default() -> (r: CompressorParams)
        ensures
            r.wf(),
            r == spec_default_params(),
            r.threshold == DEFAULT_THRESHOLD,
            r.ratio == DEFAULT_RATIO,
            r.attack_time == DEFAULT_ATTACK_TIME,
            r.release_time == DEFAULT_RELEASE_TIME,
            r.knee_width == DEFAULT_KNEE,
            r.input_gain == SCALE,
            r.output_gain == SCALE,
            r.dry_wet == SCALE,
            r.rms_buffer_size == DEFAULT_BUFFER_SIZE,
            r.lookahead == 0,
            r.rms_mix == 0,
    {
        CompressorParams {
            threshold: DEFAULT_THRESHOLD,
            ratio: DEFAULT_RATIO,
            attack_time: DEFAULT_ATTACK_TIME,
            release_time: DEFAULT_RELEASE_TIME,
            knee_width: DEFAULT_KNEE,
            input_gain: SCALE,
            output_gain: SCALE,
            dry_wet: SCALE,
            rms_buffer_size: DEFAULT_BUFFER_SIZE,
            lookahead: 0,
            rms_mix: 0,
        }
    }
}

} // verus!
