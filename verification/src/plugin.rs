//! The multi-channel coordinator: one compressor per audio channel plus
//! one shared level detector for linked (stereo-coupled) compression.
//!
//! Per sample frame the shared detector is fed exactly once, with the
//! mean of the frame's gain-staged samples — feeding it once per channel
//! would double-count energy — and every channel blends its own level
//! estimate with the shared one through the `rms_mix` parameter.  Window
//! resizes (a window-length or sample-rate change) happen only between
//! frames, through [`CompressorPlugin::update_parameter`] and
//! [`CompressorPlugin::initialize`], and the added pipeline latency is
//! reported by [`CompressorPlugin::latency_samples`].

use vstd::prelude::*;
use crate::{INPUT_LIMIT, MAX_BUFFER_SIZE, MAX_WINDOW_LEN, SAMPLE_LIMIT, SCALE};
use crate::compressor::{spec_gain_stage, spec_process, Compressor};
use crate::detector::{lemma_resized_zero, spec_resized, spec_rms_level, zero_window, RmsLevelDetector};
use crate::math::{lemma_div_bound, mul_div_floor};
use crate::params::{spec_default_params, CompressorParams, Parameter};

verus! {

/// Most audio channels a coordinator will drive.
pub const MAX_CHANNELS: usize = 64;

/// Sum of the gain-staged samples of a frame:
/// `sum_i (gain * s[i]) / SCALE`.
pub open spec fn spec_sum_gained(s: Seq<i64>, gain: int) -> int
    decreases s.len(),
{
    if s.len() == 0 {
        0
    } else {
        spec_sum_gained(s.drop_last(), gain) + spec_gain_stage(s.last() as int, gain)
    }
}

/// The single per-frame input to the shared detector: the mean of the
/// frame's gain-staged samples.
pub open spec fn spec_frame_input(s: Seq<i64>, gain: int) -> int
    recommends
        s.len() >= 1,
{
    spec_sum_gained(s, gain) / s.len() as int
}

/// The detector window size, in samples, that a window-length parameter
/// of `window_seconds` (seconds, fixed-point) asks for at `rate` Hz:
/// the floor of their product, but at least one sample.
pub open spec fn spec_window_for(rate: int, window_seconds: int) -> nat {
    let m = (rate * window_seconds) / (SCALE as int);
    if m < 1 {
        1 as nat
    } else {
        m as nat
    }
}

/// The largest window size the given sample rate can ask for.
pub open spec fn spec_max_window(rate: int) -> nat {
    spec_window_for(rate, MAX_BUFFER_SIZE as int)
}

/// The total added pipeline latency, in samples, for a sample rate, a
/// lookahead (seconds, fixed-point) and a window length: the lookahead
/// converted to samples, clamped to the window.
pub open spec fn spec_latency(rate: int, lookahead: int, window_len: int) -> int {
    let k = (rate * lookahead) / (SCALE as int);
    if k >= window_len - 1 {
        window_len - 1
    } else {
        k
    }
}

/// Plain sum of a sequence of samples.
pub open spec fn spec_sum(s: Seq<i64>) -> int
    decreases s.len(),
{
    if s.len() == 0 {
        0
    } else {
        spec_sum(s.drop_last()) + s.last() as int
    }
}

/// The multi-channel compressor: per-channel compressors, the shared
/// detector, the control parameters, and the metering state.
pub struct CompressorPlugin {
    sample_rate: u32,
    params: CompressorParams,
    compressors: Vec<Compressor>,
    shared_rms: RmsLevelDetector,
    pre_amplitude: i64,
    post_amplitude: i64,
}

impl CompressorPlugin {
    /// The per-channel compressors.
    pub closed spec fn channels_view(&self) -> Seq<Compressor> {
        self.compressors@
    }

    /// The current control parameters.
    pub closed spec fn control_params(&self) -> CompressorParams {
        self.params
    }

    /// The configured sample rate, in Hz.
    pub closed spec fn rate(&self) -> int {
        self.sample_rate as int
    }

    /// The shared detector's window.
    pub closed spec fn shared_window(&self) -> Seq<i64> {
        self.shared_rms.window()
    }

    /// Mean absolute input level of the last frame, for metering.
    pub closed spec fn pre_level(&self) -> int {
        self.pre_amplitude as int
    }

    /// Mean absolute output level of the last frame, for metering.
    pub closed spec fn post_level(&self) -> int {
        self.post_amplitude as int
    }

    /// Structural invariant: a channel count in range, well-formed
    /// parameters and detectors, and every channel's window as long as
    /// the shared one.
    pub closed spec fn wf(&self) -> bool {
        &&& 1 <= self.compressors@.len() <= MAX_CHANNELS
        &&& self.params.wf()
        &&& 1 <= self.sample_rate <= 10_000_000
        &&& self.shared_rms.wf()
        &&& forall|i: int|
            0 <= i < self.compressors@.len() ==> (#[trigger] self.compressors@[i]).wf()
        &&& forall|i: int|
            0 <= i < self.compressors@.len() ==> (#[trigger] self.compressors@[i]).window().len()
                == self.shared_rms.window().len()
    }

    /// A coordinator for `num_channels` channels with default
    /// parameters, fresh detectors, and a 44100 Hz sample rate until
    /// [`CompressorPlugin::initialize`] is called.
    pub fn new(num_channels: usize) -> (r: CompressorPlugin)
        requires
            1 <= num_channels <= MAX_CHANNELS,
        ensures
            r.wf(),
            r.channels_view().len() == num_channels,
            r.control_params() == spec_default_params(),
            r.shared_window() == zero_window(44),
            forall|i: int| 0 <= i < num_channels ==> (#[trigger] r.channels_view()[i]).avg() == 0,
            forall|i: int|
                0 <= i < num_channels ==> (#[trigger] r.channels_view()[i]).window() == zero_window(
                    44,
                ),
    {
        let mut compressors: Vec<Compressor> = Vec::new();
        let mut i: usize = 0;
        while i < num_channels
            invariant
                i <= num_channels <= MAX_CHANNELS,
                compressors@.len() == i,
                forall|j: int| 0 <= j < i ==> (#[trigger] compressors@[j]).wf(),
                forall|j: int|
                    0 <= j < i ==> (#[trigger] compressors@[j]).window() == zero_window(44),
                forall|j: int| 0 <= j < i ==> (#[trigger] compressors@[j]).avg() == 0,
            decreases num_channels - i,
        {
            compressors.push(Compressor::new());
            i = i + 1;
        }
        CompressorPlugin {
            sample_rate: 44100,
            params: CompressorParams::default(),
            compressors,
            shared_rms: RmsLevelDetector::new(44),
            pre_amplitude: 0,
            post_amplitude: 0,
        }
    }

    /// The number of audio channels.
    pub fn channels(&self) -> (r: usize)
        ensures
            r == self.channels_view().len(),
    {
        self.compressors.len()
    }

    /// Read access to the control parameters.
    pub fn params(&self) -> (r: &CompressorParams)
        ensures
            *r == self.control_params(),
    {
        &self.params
    }

    /// The smoothed average gain of channel `channel`, for metering.
    pub fn get_average_gain(&self, channel: usize) -> (r: i64)
        requires
            channel < self.channels_view().len(),
        ensures
            r == self.channels_view()[channel as int].avg(),
    {
        self.compressors[channel].get_average_gain()
    }

    /// The mean absolute input and output levels of the last frame.
    pub fn amplitudes(&self) -> (r: (i64, i64))
        ensures
            r.0 == self.pre_level(),
            r.1 == self.post_level(),
    {
        (self.pre_amplitude, self.post_amplitude)
    }

    /// The current detector window length, in samples.
    pub fn window_len(&self) -> (r: usize)
        ensures
            r == self.shared_window().len(),
    {
        self.shared_rms.window_len()
    }

    /// The total added pipeline latency, in samples: the lookahead
    /// offset, clamped to the window.  This is what the hosting
    /// environment must be told whenever the window or the lookahead
    /// changes, so downstream playback can be time-aligned.
    pub fn latency_samples(&self) -> (r: u32)
        requires
            self.wf(),
        ensures
            r as int == spec_latency(
                self.rate(),
                self.control_params().lookahead as int,
                self.shared_window().len() as int,
            ),
    {
        proof {
            self.shared_rms.lemma_wf_window();
            assert(0 <= (self.sample_rate as int) * (self.params.lookahead as int) <= 300_000 * (
            SCALE as int)) by (nonlinear_arith)
                requires
                    1 <= self.sample_rate as int <= 10_000_000 && 0 <= self.params.lookahead as int
                        <= MAX_BUFFER_SIZE as int && MAX_BUFFER_SIZE == 31457i64 && SCALE
                        == 1048576i64;
            vstd::arithmetic::div_mod::lemma_div_pos_is_pos(
                (self.sample_rate as int) * (self.params.lookahead as int),
                SCALE as int,
            );
            lemma_div_bound(
                (self.sample_rate as int) * (self.params.lookahead as int),
                300_000,
                SCALE as int,
            );
        }
        let k = mul_div_floor(self.sample_rate as i64, self.params.lookahead, SCALE);
        let win = self.shared_rms.window_len();
        if k as usize >= win - 1 {
            (win - 1) as u32
        } else {
            k as u32
        }
    }

    /// Rebuilds every detector — the shared one and each channel's —
    /// with a window of zeros at the largest size the current sample
    /// rate can ask for, erasing retained history.  The average-gain
    /// state of every channel is kept.
    pub fn initialize_rms_buffers(&mut self)
        requires
            old(self).wf(),
        ensures
            final(self).wf(),
            final(self).shared_window() == zero_window(spec_max_window(old(self).rate())),
            final(self).channels_view().len() == old(self).channels_view().len(),
            final(self).control_params() == old(self).control_params(),
            final(self).rate() == old(self).rate(),
            forall|i: int|
                0 <= i < old(self).channels_view().len() ==> (#[trigger] final(self).channels_view()[i]).avg() == old(self).channels_view()[i].avg(),
            forall|i: int|
                0 <= i < old(self).channels_view().len() ==> (#[trigger] final(self).channels_view()[i]).window() == zero_window(spec_max_window(old(self).rate())),
    {
        proof {
            assert(0 <= (self.sample_rate as int) * (MAX_BUFFER_SIZE as int) <= 300_000 * (
            SCALE as int)) by (nonlinear_arith)
                requires
                    1 <= self.sample_rate as int <= 10_000_000 && MAX_BUFFER_SIZE == 31457i64
                        && SCALE == 1048576i64;
            vstd::arithmetic::div_mod::lemma_div_pos_is_pos(
                (self.sample_rate as int) * (MAX_BUFFER_SIZE as int),
                SCALE as int,
            );
            lemma_div_bound(
                (self.sample_rate as int) * (MAX_BUFFER_SIZE as int),
                300_000,
                SCALE as int,
            );
        }
        let m = mul_div_floor(self.sample_rate as i64, MAX_BUFFER_SIZE, SCALE);
        let max_len: usize = if m < 1 {
            1
        } else {
            m as usize
        };
        self.shared_rms = RmsLevelDetector::new(max_len);
        let n = self.compressors.len();
        let mut i: usize = 0;
        while i < n
            invariant
                i <= n,
                n == self.compressors@.len(),
                n == old(self).channels_view().len(),
                self.shared_rms.wf(),
                self.shared_rms.window() == zero_window(max_len as nat),
                self.params == old(self).params,
                self.sample_rate == old(self).sample_rate,
                1 <= max_len <= MAX_WINDOW_LEN,
                forall|j: int|
                    i <= j < n ==> #[trigger] self.compressors@[j] == old(self).channels_view()[j],
                forall|j: int| 0 <= j < i ==> (#[trigger] self.compressors@[j]).wf(),
                forall|j: int|
                    0 <= j < i ==> (#[trigger] self.compressors@[j]).window() == zero_window(
                        max_len as nat,
                    ),
                forall|j: int|
                    0 <= j < i ==> (#[trigger] self.compressors@[j]).avg() == old(
                        self,
                    ).channels_view()[j].avg(),
                forall|j: int|
                    0 <= j < n ==> (#[trigger] old(self).channels_view()[j]).wf(),
            decreases n - i,
        {
            self.compressors[i].rebuild_window(max_len);
            i = i + 1;
        }
    }

    /// Resizes every detector window — the shared one and each
    /// channel's — to `new_size` samples, recomputing each running sum
    /// from the retained contents.  Must only run between frames.
    pub fn resize_rms_buffers(&mut self, new_size: usize)
        requires
            old(self).wf(),
            1 <= new_size <= MAX_WINDOW_LEN,
        ensures
            final(self).wf(),
            final(self).shared_window().len() == new_size,
            final(self).shared_window() == spec_resized(old(self).shared_window(), new_size as nat),
            final(self).channels_view().len() == old(self).channels_view().len(),
            final(self).control_params() == old(self).control_params(),
            final(self).rate() == old(self).rate(),
            forall|i: int|
                0 <= i < old(self).channels_view().len() ==> (#[trigger] final(self).channels_view()[i]).avg() == old(self).channels_view()[i].avg(),
            forall|i: int|
                0 <= i < old(self).channels_view().len() ==> (#[trigger] final(self).channels_view()[i]).window() == spec_resized(
                    old(self).channels_view()[i].window(),
                    new_size as nat,
                ),
    {
        self.shared_rms.resize(new_size);
        let n = self.compressors.len();
        let mut i: usize = 0;
        while i < n
            invariant
                i <= n,
                n == self.compressors@.len(),
                n == old(self).channels_view().len(),
                self.shared_rms.wf(),
                self.shared_rms.window().len() == new_size,
                self.shared_rms.window() == spec_resized(
                    old(self).shared_window(),
                    new_size as nat,
                ),
                self.params == old(self).params,
                self.sample_rate == old(self).sample_rate,
                1 <= new_size <= MAX_WINDOW_LEN,
                forall|j: int|
                    i <= j < n ==> #[trigger] self.compressors@[j] == old(self).channels_view()[j],
                forall|j: int| 0 <= j < i ==> (#[trigger] self.compressors@[j]).wf(),
                forall|j: int|
                    0 <= j < i ==> (#[trigger] self.compressors@[j]).window() == spec_resized(
                        old(self).channels_view()[j].window(),
                        new_size as nat,
                    ),
                forall|j: int|
                    0 <= j < i ==> (#[trigger] self.compressors@[j]).avg() == old(
                        self,
                    ).channels_view()[j].avg(),
                forall|j: int|
                    0 <= j < n ==> (#[trigger] old(self).channels_view()[j]).wf(),
            decreases n - i,
        {
            self.compressors[i].resize_window(new_size);
            i = i + 1;
        }
        proof {
            assert forall|j: int|
                0 <= j < n implies (#[trigger] self.compressors@[j]).window().len()
                == self.shared_rms.window().len() by {
                assert(self.compressors@[j].window() == spec_resized(
                    old(self).channels_view()[j].window(),
                    new_size as nat,
                ));
            }
        }
    }

    /// Adopts a (possibly new) sample rate: rebuilds every detector with
    /// a zeroed window of the size the current window-length parameter
    /// asks for at that rate.  Retained history would be time-misaligned
    /// at the new rate, so it is erased; the average-gain state of each
    /// channel persists, as the channel lifecycle requires.
    pub fn initialize(&mut self, sample_rate: u32) -> (latency: u32)
        requires
            old(self).wf(),
            1 <= sample_rate <= 10_000_000,
        ensures
            final(self).wf(),
            final(self).rate() == sample_rate,
            final(self).control_params() == old(self).control_params(),
            final(self).channels_view().len() == old(self).channels_view().len(),
            final(self).shared_window() == zero_window(
                spec_window_for(
                    sample_rate as int,
                    old(self).control_params().rms_buffer_size as int,
                ),
            ),
            forall|i: int|
                0 <= i < old(self).channels_view().len() ==> (#[trigger] final(self).channels_view()[i]).window() == zero_window(
                    spec_window_for(
                        sample_rate as int,
                        old(self).control_params().rms_buffer_size as int,
                    ),
                ),
            forall|i: int|
                0 <= i < old(self).channels_view().len() ==> (#[trigger] final(self).channels_view()[i]).avg() == old(self).channels_view()[i].avg(),
            latency as int == spec_latency(
                final(self).rate(),
                final(self).control_params().lookahead as int,
                final(self).shared_window().len() as int,
            ),
    {
        self.sample_rate = sample_rate;
        self.initialize_rms_buffers();
        proof {
            assert(0 <= (sample_rate as int) * (self.params.rms_buffer_size as int) <= 300_000 * (
            SCALE as int)) by (nonlinear_arith)
                requires
                    1 <= sample_rate as int <= 10_000_000 && 0 <= self.params.rms_buffer_size as int
                        <= MAX_BUFFER_SIZE as int && MAX_BUFFER_SIZE == 31457i64 && SCALE
                        == 1048576i64;
            vstd::arithmetic::div_mod::lemma_div_pos_is_pos(
                (sample_rate as int) * (self.params.rms_buffer_size as int),
                SCALE as int,
            );
            lemma_div_bound(
                (sample_rate as int) * (self.params.rms_buffer_size as int),
                300_000,
                SCALE as int,
            );
        }
        let m = mul_div_floor(sample_rate as i64, self.params.rms_buffer_size, SCALE);
        let actual: usize = if m < 1 {
            1
        } else {
            m as usize
        };
        let ghost maxw = spec_max_window(self.rate());
        self.resize_rms_buffers(actual);
        proof {
            lemma_resized_zero(maxw, actual as nat);
            assert forall|i: int|
                0 <= i < old(self).channels_view().len() implies (#[trigger] self.channels_view()[i]).window() == zero_window(actual as nat) by {
                assert(self.channels_view()[i].window() == spec_resized(
                    zero_window(maxw),
                    actual as nat,
                ));
            }
        }
        self.latency_samples()
    }

    /// Applies one control-parameter update between frames, clamping the
    /// value to the parameter's range.  A window-length update also
    /// resizes every detector window for the current sample rate; every
    /// other update leaves the detectors untouched.  An update that can
    /// change the pipeline latency — the window length or the lookahead —
    /// reports the new latency so the hosting environment can re-align
    /// playback; every other update reports nothing.
    pub fn update_parameter(&mut self, action: Parameter) -> (latency: Option<u32>)
        requires
            old(self).wf(),
        ensures
            final(self).wf(),
            final(self).control_params() == old(self).control_params().spec_with_param(action),
            final(self).rate() == old(self).rate(),
            final(self).channels_view().len() == old(self).channels_view().len(),
            forall|i: int|
                0 <= i < old(self).channels_view().len() ==> (#[trigger] final(self).channels_view()[i]).avg() == old(self).channels_view()[i].avg(),
            !(action is RmsBufferSize) ==> final(self).shared_window() == old(
                self,
            ).shared_window(),
            !(action is RmsBufferSize) ==> final(self).channels_view() == old(
                self,
            ).channels_view(),
            action is RmsBufferSize ==> ({
                let n = spec_window_for(
                    old(self).rate(),
                    final(self).control_params().rms_buffer_size as int,
                );
                &&& final(self).shared_window() == spec_resized(old(self).shared_window(), n)
                &&& forall|i: int|
                    0 <= i < old(self).channels_view().len() ==> (#[trigger] final(self).channels_view()[i]).window() == spec_resized(
                        old(self).channels_view()[i].window(),
                        n,
                    )
            }),
            match latency {
                Some(l) => (action is RmsBufferSize || action is Lookahead) && l as int
                    == spec_latency(
                    final(self).rate(),
                    final(self).control_params().lookahead as int,
                    final(self).shared_window().len() as int,
                ),
                None => !(action is RmsBufferSize || action is Lookahead),
            },
    {
        self.params.set_param(action);
        match action {
            Parameter::RmsBufferSize(_) => {
                proof {
                    assert(0 <= (self.sample_rate as int) * (self.params.rms_buffer_size as int)
                        <= 300_000 * (SCALE as int)) by (nonlinear_arith)
                        requires
                            1 <= self.sample_rate as int <= 10_000_000 && 0
                                <= self.params.rms_buffer_size as int <= MAX_BUFFER_SIZE as int
                                && MAX_BUFFER_SIZE == 31457i64 && SCALE == 1048576i64;
                    vstd::arithmetic::div_mod::lemma_div_pos_is_pos(
                        (self.sample_rate as int) * (self.params.rms_buffer_size as int),
                        SCALE as int,
                    );
                    lemma_div_bound(
                        (self.sample_rate as int) * (self.params.rms_buffer_size as int),
                        300_000,
                        SCALE as int,
                    );
                }
                let m = mul_div_floor(self.sample_rate as i64, self.params.rms_buffer_size, SCALE);
                let actual: usize = if m < 1 {
                    1
                } else {
                    m as usize
                };
                self.resize_rms_buffers(actual);
                Some(self.latency_samples())
            },
            Parameter::Lookahead(_) => Some(self.latency_samples()),
            _ => None,
        }
    }

    /// Processes one frame (one sample per channel) and returns the
    /// frame of output samples.
    ///
    /// The shared detector is updated exactly once, with the mean of the
    /// gain-staged samples; each channel is then processed against the
    /// shared level, exactly as [`spec_process`] states.  The metering
    /// state is set to the mean absolute input and output of the frame.
    pub fn process_frame(&mut self, frame: &Vec<i64>) -> (outs: Vec<i64>)
        requires
            old(self).wf(),
            frame@.len() == old(self).channels_view().len(),
            forall|i: int|
                0 <= i < frame@.len() ==> -INPUT_LIMIT <= #[trigger] frame@[i] <= INPUT_LIMIT,
        ensures
            final(self).wf(),
            outs@.len() == old(self).channels_view().len(),
            final(self).channels_view().len() == old(self).channels_view().len(),
            final(self).control_params() == old(self).control_params(),
            final(self).rate() == old(self).rate(),
            ({
                let shared_in = spec_frame_input(frame@, old(self).control_params().input_gain as int);
                let sw1 = old(self).shared_window().drop_first().push(shared_in as i64);
                let level = spec_rms_level(sw1);
                &&& final(self).shared_window() == sw1
                &&& final(self).pre_level() == (if shared_in < 0 {
                    -shared_in
                } else {
                    shared_in
                })
                &&& forall|i: int|
                    0 <= i < frame@.len() ==> ({
                        let t = spec_process(
                            old(self).channels_view()[i].window(),
                            old(self).channels_view()[i].avg(),
                            frame@[i] as int,
                            old(self).control_params(),
                            level,
                            old(self).rate(),
                        );
                        &&& (#[trigger] final(self).channels_view()[i]).window() == t.0
                        &&& final(self).channels_view()[i].avg() == t.1
                        &&& outs@[i] == t.3
                    })
                &&& final(self).post_level() == ({
                    let mean = spec_sum(outs@) / outs@.len() as int;
                    if mean < 0 {
                        -mean
                    } else {
                        mean
                    }
                })
            }),
    {
        let n = self.compressors.len();
        let in_gain = self.params.input_gain;
        let mut acc: i64 = 0;
        let mut j: usize = 0;
        proof {
            assert(frame@.subrange(0, 0) =~= Seq::<i64>::empty());
        }
        while j < n
            invariant
                j <= n,
                n == frame@.len() <= MAX_CHANNELS,
                0 <= in_gain <= crate::GAIN_LIMIT,
                forall|i: int|
                    0 <= i < frame@.len() ==> -INPUT_LIMIT <= #[trigger] frame@[i] <= INPUT_LIMIT,
                acc == spec_sum_gained(frame@.subrange(0, j as int), in_gain as int),
                -(j as int) * (SAMPLE_LIMIT as int) <= acc <= (j as int) * (SAMPLE_LIMIT as int),
            decreases n - j,
        {
            proof {
                assert(-(SAMPLE_LIMIT as int) * (SCALE as int) <= (in_gain as int) * (
                frame@[j as int] as int) <= (SAMPLE_LIMIT as int) * (SCALE as int))
                    by (nonlinear_arith)
                    requires
                        0 <= in_gain as int <= crate::GAIN_LIMIT as int && -INPUT_LIMIT
                            <= frame@[j as int] as int <= INPUT_LIMIT && crate::GAIN_LIMIT
                            == 0x200_0000i64 && INPUT_LIMIT == 0x400_0000i64 && SAMPLE_LIMIT
                            == 0x8000_0000i64 && SCALE == 1048576i64;
                lemma_div_bound(
                    (in_gain as int) * (frame@[j as int] as int),
                    SAMPLE_LIMIT as int,
                    SCALE as int,
                );
                assert(frame@.subrange(0, j + 1).drop_last() =~= frame@.subrange(0, j as int));
                assert(frame@.subrange(0, j + 1).last() == frame@[j as int]);
            }
            let g = mul_div_floor(in_gain, frame[j], SCALE);
            acc = acc + g;
            j = j + 1;
        }
        proof {
            assert(frame@.subrange(0, n as int) =~= frame@);
            assert(-(SAMPLE_LIMIT as int) * (n as int) <= acc <= (SAMPLE_LIMIT as int) * (n as int))
                by (nonlinear_arith)
                requires
                    -(n as int) * (SAMPLE_LIMIT as int) <= acc as int <= (n as int) * (
                    SAMPLE_LIMIT as int);
            lemma_div_bound(acc as int, SAMPLE_LIMIT as int, n as int);
            assert((acc as int) * 1 == acc as int) by (nonlinear_arith);
        }
        let shared_in = mul_div_floor(acc, 1, n as i64);
        let shared_level = self.shared_rms.calculate_rms(shared_in);
        self.pre_amplitude = if shared_in < 0 {
            -shared_in
        } else {
            shared_in
        };
        let ghost level = spec_rms_level(self.shared_rms.window());
        let ghost shared_snap = self.shared_rms;
        let ghost pre_snap = self.pre_amplitude;
        proof {
            assert(shared_in == spec_frame_input(frame@, in_gain as int));
        }
        let mut outs: Vec<i64> = Vec::new();
        let mut post_acc: i64 = 0;
        let mut i: usize = 0;
        proof {
            assert(outs@.subrange(0, 0) =~= Seq::<i64>::empty());
        }
        while i < n
            invariant
                i <= n,
                n == frame@.len(),
                n == self.compressors@.len(),
                n == old(self).channels_view().len(),
                1 <= n <= MAX_CHANNELS,
                self.params == old(self).control_params(),
                self.params.wf(),
                self.sample_rate == old(self).sample_rate,
                1 <= self.sample_rate <= 10_000_000,
                self.shared_rms == shared_snap,
                self.pre_amplitude == pre_snap,
                self.shared_rms.wf(),
                level == spec_rms_level(self.shared_rms.window()),
                0 <= shared_level <= SAMPLE_LIMIT,
                shared_level == level,
                forall|k: int|
                    0 <= k < frame@.len() ==> -INPUT_LIMIT <= #[trigger] frame@[k] <= INPUT_LIMIT,
                forall|k: int|
                    i <= k < n ==> #[trigger] self.compressors@[k] == old(self).channels_view()[k],
                forall|k: int|
                    0 <= k < n ==> (#[trigger] old(self).channels_view()[k]).wf(),
                forall|k: int|
                    0 <= k < n ==> (#[trigger] old(self).channels_view()[k]).window().len()
                        == self.shared_rms.window().len(),
                outs@.len() == i,
                forall|k: int|
                    0 <= k < i ==> ({
                        let t = spec_process(
                            old(self).channels_view()[k].window(),
                            old(self).channels_view()[k].avg(),
                            frame@[k] as int,
                            old(self).control_params(),
                            level as int,
                            old(self).rate(),
                        );
                        &&& (#[trigger] self.compressors@[k]).window() == t.0
                        &&& self.compressors@[k].avg() == t.1
                        &&& outs@[k] == t.3
                        &&& self.compressors@[k].wf()
                        &&& self.compressors@[k].window().len()
                            == self.shared_rms.window().len()
                    }),
                forall|k: int|
                    0 <= k < i ==> -0x100_0000_0000 <= #[trigger] outs@[k] <= 0x100_0000_0000,
                post_acc == spec_sum(outs@),
                -(i as int) * 0x100_0000_0000 <= post_acc <= (i as int) * 0x100_0000_0000,
            decreases n - i,
        {
            let sample = frame[i];
            let (_, out, _) = self.compressors[i].process(
                sample,
                &self.params,
                shared_level,
                self.sample_rate,
            );
            proof {
                assert(outs@.push(out).drop_last() =~= outs@);
                assert(outs@.push(out).last() == out);
            }
            outs.push(out);
            post_acc = post_acc + out;
            i = i + 1;
        }
        proof {
            assert(-(0x100_0000_0000int) * (n as int) <= post_acc <= (0x100_0000_0000int) * (
            n as int)) by (nonlinear_arith)
                requires
                    -(n as int) * 0x100_0000_0000 <= post_acc as int <= (n as int)
                        * 0x100_0000_0000;
            lemma_div_bound(post_acc as int, 0x100_0000_0000, n as int);
            assert((post_acc as int) * 1 == post_acc as int) by (nonlinear_arith);
        }
        let mean = mul_div_floor(post_acc, 1, n as i64);
        self.post_amplitude = if mean < 0 {
            -mean
        } else {
            mean
        };
        outs
    }
}

impl Default for CompressorPlugin {
    /// A stereo coordinator with default parameters.
    fn default() -> (r: CompressorPlugin)
        ensures
            r.wf(),
            r.channels_view().len() == 2,
            r.control_params() == spec_default_params(),
    {
        CompressorPlugin::new(2)
    }
}

} // verus!
