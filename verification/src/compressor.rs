//! The per-channel compressor: a level detector, a smoothed average
//! gain, and the gain computer, composed into a single sample processor.
//!
//! Per sample: apply the input gain, update the detector, blend the
//! channel's own level with the shared cross-channel level, smooth the
//! blend into the running average, map the average through the soft-knee
//! curve, multiply the (possibly lookahead-delayed) sample by the
//! resulting factor, blend dry against wet, and apply the output gain.

use vstd::prelude::*;
use crate::{INPUT_LIMIT, SAMPLE_LIMIT, SCALE};
use crate::db::{calculate_filter_coefficient, floor_div_scale, spec_filter_coefficient};
use crate::detector::{spec_resized, spec_rms_level, zero_window, RmsLevelDetector};
use crate::gain_computer::{compute_multiplier, lemma_unity_below_one_to_one, spec_multiplier};
use crate::math::{lemma_div_bound, mul_div_floor};
use crate::params::{CompressorParams, LevelDetectionType};
use crate::smoother::spec_smooth_asym;
use crate::MAX_WINDOW_LEN;

verus! {

/// Largest magnitude any value reaches between the pipeline's stages.
pub const STAGE_LIMIT: i64 = 0x1_0000_0000;

/// Mixes `a` toward `b`: `((SCALE - mix) * a + mix * b) / SCALE`, the
/// blend used both for the shared-level mix and for dry/wet.
pub open spec fn spec_blend(a: int, b: int, mix: int) -> int {
    ((SCALE - mix) * a + mix * b) / (SCALE as int)
}

/// Blending a value with itself returns it exactly, whatever the mix.
pub proof fn lemma_blend_identity(a: int, mix: int)
    ensures
        spec_blend(a, a, mix) == a,
{
    let si = SCALE as int;
    assert((si - mix) * a + mix * a == si * a) by (nonlinear_arith);
    vstd::arithmetic::div_mod::lemma_div_multiples_vanish(a, si);
}

/// The gain staging applied on the way in and on the way out:
/// `(gain * value) / SCALE`.
pub open spec fn spec_gain_stage(value: int, gain: int) -> int {
    (gain * value) / (SCALE as int)
}

/// Scaling by a unity gain returns the value exactly.
pub proof fn lemma_gain_stage_unity(value: int)
    ensures
        spec_gain_stage(value, SCALE as int) == value,
{
    vstd::arithmetic::div_mod::lemma_div_multiples_vanish(value, SCALE as int);
}

/// The output stage of the pipeline: the delayed sample scaled by the
/// multiplier, blended dry against wet, then scaled by the output gain.
pub open spec fn spec_output_stage(delayed: int, mult: int, dry_wet: int, output_gain: int) -> int {
    let wet = (delayed * mult) / (SCALE as int);
    spec_gain_stage(spec_blend(delayed, wet, dry_wet), output_gain)
}

/// One full channel step as a function of the prior state: returns
/// `(window, average, delayed, output, multiplier)` for a channel whose
/// detector window and smoothed average are given, processing `sample`
/// against `params` with the given shared level and sample rate.
pub open spec fn spec_process(
    window: Seq<i64>,
    avg: int,
    sample: int,
    params: CompressorParams,
    shared_level: int,
    sample_rate: int,
) -> (Seq<i64>, int, int, int, int) {
    let g = spec_gain_stage(sample, params.input_gain as int);
    let w1 = window.drop_first().push(g as i64);
    let blended_level = spec_blend(spec_rms_level(w1), shared_level, params.rms_mix as int);
    let avg1 = spec_smooth_asym(
        blended_level,
        avg,
        spec_filter_coefficient(params.attack_time as int, sample_rate),
        spec_filter_coefficient(params.release_time as int, sample_rate),
    );
    let mult = spec_multiplier(
        avg1,
        params.threshold as int,
        params.ratio as int,
        params.knee_width as int,
    );
    let k = (sample_rate * params.lookahead as int) / (SCALE as int);
    let delayed = w1[if k >= w1.len() - 1 {
        0int
    } else {
        w1.len() - 1 - k
    }] as int;
    let out = spec_output_stage(delayed, mult, params.dry_wet as int, params.output_gain as int);
    (w1, avg1, delayed, out, mult)
}

/// A unity multiplier passes the delayed sample through the output
/// stage unchanged when the output gain is unity, whatever the dry/wet
/// mix: wet equals dry, so the blend is exact.
pub proof fn lemma_unity_multiplier_passthrough(delayed: int, dry_wet: int)
    ensures
        spec_output_stage(delayed, SCALE as int, dry_wet, SCALE as int) == delayed,
{
    let si = SCALE as int;
    assert(delayed * si == si * delayed) by (nonlinear_arith);
    vstd::arithmetic::div_mod::lemma_div_multiples_vanish(delayed, si);
    lemma_blend_identity(delayed, dry_wet);
    lemma_gain_stage_unity(delayed);
}

/// With the ratio at or below 1:1 and unity input/output gains, the
/// compressor is an exact pass-through of the (possibly delayed) input:
/// the multiplier is unity for every threshold and knee width, and the
/// output stage returns the delayed sample unchanged.
pub proof fn lemma_ratio_unity_passthrough(
    average_gain: int,
    threshold: int,
    ratio: int,
    knee_width: int,
    delayed: int,
    dry_wet: int,
)
    requires
        ratio <= SCALE,
    ensures
        spec_output_stage(
            delayed,
            spec_multiplier(average_gain, threshold, ratio, knee_width),
            dry_wet,
            SCALE as int,
        ) == delayed,
{
    lemma_unity_below_one_to_one(average_gain, threshold, ratio, knee_width);
    lemma_unity_multiplier_passthrough(delayed, dry_wet);
}

/// With the ratio at or below 1:1 and a unity output gain, one whole
/// processing step is an exact pass-through: whatever the window, the
/// average, the threshold, the knee, the mixes and the input gain, the
/// multiplier is unity and the output equals the (possibly delayed)
/// input sample it was applied to.
pub proof fn lemma_process_ratio_unity(
    window: Seq<i64>,
    avg: int,
    sample: int,
    params: CompressorParams,
    shared_level: int,
    sample_rate: int,
)
    requires
        params.ratio <= SCALE,
        params.output_gain == SCALE,
    ensures
        ({
            let t = spec_process(window, avg, sample, params, shared_level, sample_rate);
            &&& t.4 == SCALE
            &&& t.3 == t.2
        }),
{
    let t = spec_process(window, avg, sample, params, shared_level, sample_rate);
    lemma_unity_below_one_to_one(
        t.1,
        params.threshold as int,
        params.ratio as int,
        params.knee_width as int,
    );
    lemma_unity_multiplier_passthrough(t.2, params.dry_wet as int);
}

fn blend(a: i64, b: i64, mix: i64) -> (r: i64)
    requires
        -STAGE_LIMIT <= a <= STAGE_LIMIT,
        -STAGE_LIMIT <= b <= STAGE_LIMIT,
        0 <= mix <= SCALE,
    ensures
        r == spec_blend(a as int, b as int, mix as int),
        -STAGE_LIMIT <= r <= STAGE_LIMIT,
{
    proof {
        let si = SCALE as int;
        assert(-(STAGE_LIMIT as int) * si <= (si - mix) * a <= (STAGE_LIMIT as int) * si
            && -(STAGE_LIMIT as int) * si <= mix * b <= (STAGE_LIMIT as int) * si
            && -(STAGE_LIMIT as int) * si <= (si - mix) * a + mix * b <= (STAGE_LIMIT as int) * si)
            by (nonlinear_arith)
            requires
                0 <= mix as int <= si && -STAGE_LIMIT <= a <= STAGE_LIMIT && -STAGE_LIMIT <= b
                    <= STAGE_LIMIT && STAGE_LIMIT == 0x1_0000_0000i64 && si == 1048576;
        lemma_div_bound((si - mix) * a + mix * b, STAGE_LIMIT as int, si);
    }
    let num: i64 = (SCALE - mix) * a + mix * b;
    let (q, _) = floor_div_scale(num);
    q
}

/// A dynamic-range compressor for one audio channel: a sliding-window
/// level detector and the exponentially smoothed average gain, the
/// channel's only temporal memory.
pub struct Compressor {
    average_gain: i64,
    rms: RmsLevelDetector,
    level_detection_type: LevelDetectionType,
}

impl Compressor {
    /// The detector window, oldest sample first.
    pub closed spec fn window(&self) -> Seq<i64> {
        self.rms.window()
    }

    /// The smoothed average gain.
    pub closed spec fn avg(&self) -> int {
        self.average_gain as int
    }

    /// Structural invariant: the detector is well formed and the
    /// average stays a bounded, nonnegative level.
    pub closed spec fn wf(&self) -> bool {
        &&& self.rms.wf()
        &&& 0 <= self.average_gain <= SAMPLE_LIMIT
    }

    /// A fresh compressor: average gain zero, a default detector
    /// window of 44 zero samples, RMS level detection.
    pub fn new() -> (r: Compressor)
        ensures
            r.wf(),
            r.avg() == 0,
            r.window() == zero_window(44),
    {
        Compressor {
            average_gain: 0,
            rms: RmsLevelDetector::default(),
            level_detection_type: LevelDetectionType::Rms,
        }
    }

    /// The current average gain, for metering.
    pub fn get_average_gain(&self) -> (r: i64)
        ensures
            r == self.avg(),
    {
        self.average_gain
    }

    /// Selects how the level estimate is derived from the input.
    pub fn set_level_detection_type(&mut self, level_detection_type: LevelDetectionType)
        ensures
            final(self).wf() == old(self).wf(),
            final(self).window() == old(self).window(),
            final(self).avg() == old(self).avg(),
    {
        self.level_detection_type = level_detection_type;
    }

    /// The current detector window length, in samples.
    pub fn window_len(&self) -> (r: usize)
        ensures
            r == self.window().len(),
    {
        self.rms.window_len()
    }

    /// Resizes the detector window, retaining the oldest samples and
    /// zero-filling at the newest end; the running sum of squares is
    /// recomputed from the retained contents.
    pub fn resize_window(&mut self, new_len: usize)
        requires
            old(self).wf(),
            1 <= new_len <= MAX_WINDOW_LEN,
        ensures
            final(self).wf(),
            final(self).window().len() == new_len,
            final(self).avg() == old(self).avg(),
            final(self).window() == spec_resized(old(self).window(), new_len as nat),
    {
        self.rms.resize(new_len);
    }

    /// Rebuilds the detector with a fresh window of `window_len` zeros,
    /// erasing retained history; the average gain is kept.
    pub fn rebuild_window(&mut self, window_len: usize)
        requires
            old(self).wf(),
            1 <= window_len <= MAX_WINDOW_LEN,
        ensures
            final(self).wf(),
            final(self).avg() == old(self).avg(),
            final(self).window() == zero_window(window_len as nat),
    {
        self.rms = RmsLevelDetector::new(window_len);
    }

    /// Updates the detector and the smoothed average for one
    /// already-gain-staged sample, blending the channel's own level
    /// with the shared cross-channel level.
    fn update_gain(
        &mut self,
        sample: i64,
        shared_level: i64,
        rms_mix: i64,
        attack_coefficient: i64,
        release_coefficient: i64,
    )
        requires
            old(self).wf(),
            -SAMPLE_LIMIT <= sample <= SAMPLE_LIMIT,
            0 <= shared_level <= SAMPLE_LIMIT,
            0 <= rms_mix <= SCALE,
            0 <= attack_coefficient <= SCALE,
            0 <= release_coefficient <= SCALE,
        ensures
            final(self).wf(),
            final(self).window() == old(self).window().drop_first().push(sample),
            final(self).window().len() == old(self).window().len(),
            final(self).avg() == spec_smooth_asym(
                spec_blend(
                    spec_rms_level(old(self).window().drop_first().push(sample)),
                    shared_level as int,
                    rms_mix as int,
                ),
                old(self).avg(),
                attack_coefficient as int,
                release_coefficient as int,
            ),
    {
        let new_gain = match self.level_detection_type {
            LevelDetectionType::Rms => self.rms.calculate_rms(sample),
        };
        proof {
            let si = SCALE as int;
            assert(0 <= (si - rms_mix) * new_gain + rms_mix * shared_level <= (SAMPLE_LIMIT as int)
                * si) by (nonlinear_arith)
                requires
                    0 <= rms_mix as int <= si && 0 <= new_gain as int <= SAMPLE_LIMIT && 0
                        <= shared_level as int <= SAMPLE_LIMIT;
            lemma_div_bound(
                (si - rms_mix) * new_gain + rms_mix * shared_level,
                SAMPLE_LIMIT as int,
                si,
            );
            vstd::arithmetic::div_mod::lemma_div_pos_is_pos(
                (si - rms_mix) * new_gain + rms_mix * shared_level,
                si,
            );
        }
        let num: i64 = (SCALE - rms_mix) * new_gain + rms_mix * shared_level;
        let blended: i64 = ((num as u64) / (SCALE as u64)) as i64;
        self.average_gain = crate::smoother::update(
            blended,
            self.average_gain,
            attack_coefficient,
            release_coefficient,
        );
    }

    /// Maps the current average gain through the soft-knee curve.
    pub fn calculate_gain_reduction(&self, threshold: i64, ratio: i64, knee_width: i64) -> (r: i64)
        requires
            self.wf(),
            -200 * SCALE <= threshold <= 200 * SCALE,
            0 <= ratio,
            0 <= knee_width <= 200 * SCALE,
        ensures
            r == spec_multiplier(self.avg(), threshold as int, ratio as int, knee_width as int),
            0 <= r <= SCALE,
    {
        compute_multiplier(self.average_gain, threshold, ratio, knee_width)
    }

    /// Processes one input sample and returns `(delayed, output,
    /// multiplier)`: the lookahead-delayed input actually heard, the
    /// processed output sample, and the gain-reduction factor applied.
    ///
    /// The pipeline, stated exactly by the postcondition: input gain,
    /// detector update, shared-level blend, asymmetric smoothing,
    /// soft-knee multiplier, lookahead read, wet/dry blend, output gain.
    pub fn process(
        &mut self,
        sample: i64,
        params: &CompressorParams,
        shared_level: i64,
        sample_rate: u32,
    ) -> (r: (i64, i64, i64))
        requires
            old(self).wf(),
            params.wf(),
            -INPUT_LIMIT <= sample <= INPUT_LIMIT,
            0 <= shared_level <= SAMPLE_LIMIT,
            1 <= sample_rate <= 10_000_000,
        ensures
            final(self).wf(),
            ({
                let t = spec_process(
                    old(self).window(),
                    old(self).avg(),
                    sample as int,
                    *params,
                    shared_level as int,
                    sample_rate as int,
                );
                &&& final(self).window() == t.0
                &&& final(self).avg() == t.1
                &&& r.0 == t.2
                &&& r.1 == t.3
                &&& r.2 == t.4
            }),
            0 <= r.2 <= SCALE,
            final(self).window().len() == old(self).window().len(),
            -STAGE_LIMIT <= r.0 <= STAGE_LIMIT,
            -0x100_0000_0000 <= r.1 <= 0x100_0000_0000,
    {
        proof {
            assert(-(SAMPLE_LIMIT as int) * (SCALE as int) <= (params.input_gain as int) * (
            sample as int) <= (SAMPLE_LIMIT as int) * (SCALE as int)) by (nonlinear_arith)
                requires
                    0 <= params.input_gain as int <= crate::GAIN_LIMIT as int && -INPUT_LIMIT
                        <= sample as int <= INPUT_LIMIT && crate::GAIN_LIMIT == 0x200_0000i64
                        && INPUT_LIMIT == 0x400_0000i64 && SAMPLE_LIMIT == 0x8000_0000i64
                        && SCALE == 1048576i64;
            lemma_div_bound(
                (params.input_gain as int) * (sample as int),
                SAMPLE_LIMIT as int,
                SCALE as int,
            );
        }
        let gained = mul_div_floor(params.input_gain, sample, SCALE);
        let attack_coefficient = calculate_filter_coefficient(params.attack_time, sample_rate);
        let release_coefficient = calculate_filter_coefficient(params.release_time, sample_rate);
        self.update_gain(
            gained,
            shared_level,
            params.rms_mix,
            attack_coefficient,
            release_coefficient,
        );
        let multiplier = compute_multiplier(
            self.average_gain,
            params.threshold,
            params.ratio,
            params.knee_width,
        );
        proof {
            assert(0 <= (sample_rate as int) * (params.lookahead as int) <= 300_000 * (
            SCALE as int)) by (nonlinear_arith)
                requires
                    1 <= sample_rate as int <= 10_000_000 && 0 <= params.lookahead as int
                        <= crate::MAX_BUFFER_SIZE as int && crate::MAX_BUFFER_SIZE == 31457i64
                        && SCALE == 1048576i64;
            vstd::arithmetic::div_mod::lemma_div_pos_is_pos(
                (sample_rate as int) * (params.lookahead as int),
                SCALE as int,
            );
            lemma_div_bound(
                (sample_rate as int) * (params.lookahead as int),
                300_000,
                SCALE as int,
            );
        }
        let lookahead_samples = mul_div_floor(sample_rate as i64, params.lookahead, SCALE);
        let delayed = self.rms.read_delayed(lookahead_samples as usize);
        proof {
            assert((delayed as int) * (multiplier as int) <= (STAGE_LIMIT as int) * (SCALE as int)
                && -(STAGE_LIMIT as int) * (SCALE as int) <= (delayed as int) * (
            multiplier as int)) by (nonlinear_arith)
                requires
                    -SAMPLE_LIMIT <= delayed as int <= SAMPLE_LIMIT && 0 <= multiplier as int
                        <= SCALE && SAMPLE_LIMIT == 0x8000_0000i64 && STAGE_LIMIT
                        == 0x1_0000_0000i64 && SCALE == 1048576i64;
            lemma_div_bound((delayed as int) * (multiplier as int), STAGE_LIMIT as int, SCALE as int);
        }
        let wet = mul_div_floor(delayed, multiplier, SCALE);
        let blended_output = blend(delayed, wet, params.dry_wet);
        proof {
            assert(-0x100_0000_0000 * (SCALE as int) <= (params.output_gain as int) * (
            blended_output as int) <= 0x100_0000_0000 * (SCALE as int)) by (nonlinear_arith)
                requires
                    0 <= params.output_gain as int <= crate::GAIN_LIMIT as int && -STAGE_LIMIT
                        <= blended_output as int <= STAGE_LIMIT && crate::GAIN_LIMIT
                        == 0x200_0000i64 && STAGE_LIMIT == 0x1_0000_0000i64 && SCALE == 1048576i64;
            lemma_div_bound(
                (params.output_gain as int) * (blended_output as int),
                0x100_0000_0000,
                SCALE as int,
            );
        }
        let output = mul_div_floor(params.output_gain, blended_output, SCALE);
        (delayed, output, multiplier)
    }
}

impl Default for Compressor {
    /// Identical to [`Compressor::new`].
    fn default() -> (r: Compressor)
        ensures
            r.wf(),
            r.avg() == 0,
            r.window() == zero_window(44),
    {
        Compressor::new()
    }
}

} // verus!
