//! Sliding-window RMS level detection.
//!
//! The detector keeps a fixed-length FIFO window of the most recent
//! samples together with the running sum of their squares.  Because both
//! are exact integers, the running sum provably equals the sum of squares
//! of the window at all times and can never drift negative — the failure
//! a floating-point implementation must clamp against, where one stray
//! negative sum fed to a square root disables compression permanently.
//! Resizing rebuilds the running sum from the retained contents instead
//! of carrying the old sum over.

use vstd::prelude::*;
use std::collections::VecDeque;
use crate::{MAX_WINDOW_LEN, SAMPLE_LIMIT};
use crate::math::{isqrt, spec_isqrt};

verus! {

/// Sum of the squares of a sequence of samples.
pub open spec fn sum_squares(s: Seq<i64>) -> int
    decreases s.len(),
{
    if s.len() == 0 {
        0
    } else {
        s[0] * s[0] + sum_squares(s.drop_first())
    }
}

/// A sum of squares is never negative.
pub proof fn lemma_sum_squares_nonneg(s: Seq<i64>)
    ensures
        sum_squares(s) >= 0,
    decreases s.len(),
{
    if s.len() > 0 {
        lemma_sum_squares_nonneg(s.drop_first());
        assert(s[0] * s[0] >= 0) by (nonlinear_arith);
    }
}

/// Appending a sample adds exactly its square to the sum.
pub proof fn lemma_sum_squares_push(s: Seq<i64>, x: i64)
    ensures
        sum_squares(s.push(x)) == sum_squares(s) + x * x,
    decreases s.len(),
{
    if s.len() == 0 {
        assert(s.push(x).drop_first() =~= Seq::<i64>::empty());
        assert(sum_squares(s.push(x)) == s.push(x)[0] * s.push(x)[0] + sum_squares(
            s.push(x).drop_first(),
        ));
        assert(s.push(x)[0] == x);
        assert(sum_squares(Seq::<i64>::empty()) == 0);
    } else {
        assert(s.push(x).drop_first() =~= s.drop_first().push(x));
        lemma_sum_squares_push(s.drop_first(), x);
        assert(sum_squares(s.push(x)) == s.push(x)[0] * s.push(x)[0] + sum_squares(
            s.push(x).drop_first(),
        ));
        assert(s.push(x)[0] == s[0]);
    }
}

/// With every sample bounded by `b` in magnitude, the sum of squares is
/// at most the window length times `b * b`.
pub proof fn lemma_sum_squares_bound(s: Seq<i64>, b: i64)
    requires
        b >= 0,
        forall|i: int| 0 <= i < s.len() ==> -b <= #[trigger] s[i] <= b,
    ensures
        sum_squares(s) <= s.len() * (b * b),
    decreases s.len(),
{
    if s.len() > 0 {
        lemma_sum_squares_bound(s.drop_first(), b);
        assert(s[0] * s[0] <= b * b) by (nonlinear_arith)
            requires -b <= s[0] <= b && b >= 0;
        assert(s.len() * (b * b) == (s.len() - 1) * (b * b) + b * b) by (nonlinear_arith);
    }
}

/// A window holding the same sample everywhere has a sum of squares of
/// exactly the window length times that sample's square.
pub proof fn lemma_sum_squares_constant(s: Seq<i64>, a: i64)
    requires
        forall|i: int| 0 <= i < s.len() ==> #[trigger] s[i] == a,
    ensures
        sum_squares(s) == s.len() * (a * a),
    decreases s.len(),
{
    if s.len() == 0 {
        assert(s.len() * (a * a) == 0) by (nonlinear_arith)
            requires s.len() == 0;
    } else {
        lemma_sum_squares_constant(s.drop_first(), a);
        assert(s.len() * (a * a) == (s.len() - 1) * (a * a) + a * a) by (nonlinear_arith);
    }
}

/// A window of `len` zero samples: the contents of a freshly created
/// detector.
pub open spec fn zero_window(len: nat) -> Seq<i64> {
    Seq::new(len, |i: int| 0i64)
}

/// The window left by a resize to `new_len`: the oldest samples are
/// retained, excess newest samples are dropped, and missing samples are
/// zero-filled at the newest end.
pub open spec fn spec_resized(w: Seq<i64>, new_len: nat) -> Seq<i64> {
    if new_len <= w.len() {
        w.subrange(0, new_len as int)
    } else {
        w + zero_window((new_len - w.len()) as nat)
    }
}

/// Resizing a window of zeros gives a window of zeros.
pub proof fn lemma_resized_zero(len: nat, new_len: nat)
    ensures
        spec_resized(zero_window(len), new_len) == zero_window(new_len),
{
    assert(spec_resized(zero_window(len), new_len) =~= zero_window(new_len));
}

/// The level a window reports: the floor square root of the mean of the
/// squared samples.
pub open spec fn spec_rms_level(s: Seq<i64>) -> int
    recommends
        s.len() >= 1,
{
    spec_isqrt(sum_squares(s) / s.len() as int)
}

/// An RMS level detector: a FIFO window of the most recent samples and
/// the running sum of their squares.
pub struct RmsLevelDetector {
    squared_sum: u128,
    buffer: VecDeque<i64>,
}

impl RmsLevelDetector {
    /// The window contents, oldest sample first.
    pub closed spec fn window(&self) -> Seq<i64> {
        self.buffer@
    }

    /// Structural invariant: the window is never empty, never longer
    /// than [`MAX_WINDOW_LEN`], holds only bounded samples, and the
    /// running sum equals the sum of the squares of the window.
    pub closed spec fn wf(&self) -> bool {
        &&& 1 <= self.buffer@.len() <= MAX_WINDOW_LEN
        &&& forall|i: int|
            0 <= i < self.buffer@.len() ==> -SAMPLE_LIMIT <= #[trigger] self.buffer@[i]
                <= SAMPLE_LIMIT
        &&& self.squared_sum == sum_squares(self.buffer@)
    }

    /// Creates a detector whose window holds `window_len` zeros.
    pub fn new(window_len: usize) -> (r: RmsLevelDetector)
        requires
            1 <= window_len <= MAX_WINDOW_LEN,
        ensures
            r.wf(),
            r.window() == zero_window(window_len as nat),
    {
        let mut buffer: VecDeque<i64> = VecDeque::new();
        let mut n: usize = 0;
        while n < window_len
            invariant
                n <= window_len,
                buffer@.len() == n,
                forall|i: int| 0 <= i < n ==> #[trigger] buffer@[i] == 0i64,
                sum_squares(buffer@) == 0,
            decreases window_len - n,
        {
            proof {
                lemma_sum_squares_push(buffer@, 0i64);
            }
            buffer.push_back(0);
            n = n + 1;
        }
        proof {
            assert(buffer@ =~= zero_window(window_len as nat));
        }
        RmsLevelDetector { squared_sum: 0, buffer }
    }

    /// A well-formed detector's window is never empty and holds only
    /// bounded samples.
    pub proof fn lemma_wf_window(&self)
        requires
            self.wf(),
        ensures
            1 <= self.window().len() <= MAX_WINDOW_LEN,
            forall|i: int|
                0 <= i < self.window().len() ==> -SAMPLE_LIMIT <= #[trigger] self.window()[i]
                    <= SAMPLE_LIMIT,
    {
    }

    /// The current window length, in samples.
    pub fn window_len(&self) -> (r: usize)
        ensures
            r == self.window().len(),
    {
        self.buffer.len()
    }

    /// Pushes `input` into the window, drops the oldest sample, updates
    /// the running sum exactly, and returns the RMS level of the new
    /// window: the floor square root of the mean square.
    ///
    /// The subtraction of the outgoing sample's square can never
    /// underflow: the invariant proves that square is part of the
    /// running sum.
    pub fn calculate_rms(&mut self, input: i64) -> (r: i64)
        requires
            old(self).wf(),
            -SAMPLE_LIMIT <= input <= SAMPLE_LIMIT,
        ensures
            final(self).wf(),
            final(self).window() == old(self).window().drop_first().push(input),
            final(self).window().len() == old(self).window().len(),
            r == spec_rms_level(final(self).window()),
            0 <= r <= SAMPLE_LIMIT,
    {
        let ghost w0 = self.buffer@;
        let old_sample = match self.buffer.pop_front() {
            Some(x) => x,
            None => {
                proof {
                    assert(false);
                }
                0
            },
        };
        self.buffer.push_back(input);
        proof {
            assert(self.buffer@ =~= w0.drop_first().push(input));
            lemma_sum_squares_nonneg(w0.drop_first());
            lemma_sum_squares_push(w0.drop_first(), input);
            assert(0 <= old_sample * old_sample <= 0x4000_0000_0000_0000) by (nonlinear_arith)
                requires -SAMPLE_LIMIT <= old_sample <= SAMPLE_LIMIT && SAMPLE_LIMIT == 0x8000_0000i64;
            assert(0 <= input * input <= 0x4000_0000_0000_0000) by (nonlinear_arith)
                requires -SAMPLE_LIMIT <= input <= SAMPLE_LIMIT && SAMPLE_LIMIT == 0x8000_0000i64;
        }
        proof {
            lemma_sum_squares_bound(w0, SAMPLE_LIMIT);
            assert(w0.len() * (SAMPLE_LIMIT * SAMPLE_LIMIT)
                <= MAX_WINDOW_LEN * (SAMPLE_LIMIT * SAMPLE_LIMIT)) by (nonlinear_arith)
                requires w0.len() <= MAX_WINDOW_LEN && SAMPLE_LIMIT == 0x8000_0000i64;
            assert(sum_squares(w0) == w0[0] * w0[0] + sum_squares(w0.drop_first()));
        }
        let sq_old: u128 = ((old_sample as i128) * (old_sample as i128)) as u128;
        let sq_in: u128 = ((input as i128) * (input as i128)) as u128;
        self.squared_sum = self.squared_sum + sq_in - sq_old;
        let n = self.buffer.len();
        proof {
            lemma_sum_squares_bound(self.buffer@, SAMPLE_LIMIT);
            assert(self.buffer@.len() * (SAMPLE_LIMIT * SAMPLE_LIMIT)
                <= MAX_WINDOW_LEN * (SAMPLE_LIMIT * SAMPLE_LIMIT)) by (nonlinear_arith)
                requires
                    self.buffer@.len() <= MAX_WINDOW_LEN
                        && SAMPLE_LIMIT == 0x8000_0000i64;
            vstd::arithmetic::div_mod::lemma_div_is_ordered(
                sum_squares(self.buffer@),
                self.buffer@.len() * (SAMPLE_LIMIT * SAMPLE_LIMIT),
                n as int,
            );
            assert(self.buffer@.len() * (SAMPLE_LIMIT * SAMPLE_LIMIT) / (n as int)
                == SAMPLE_LIMIT * SAMPLE_LIMIT) by {
                vstd::arithmetic::div_mod::lemma_div_by_multiple(
                    SAMPLE_LIMIT * SAMPLE_LIMIT,
                    n as int,
                );
                assert(self.buffer@.len() * (SAMPLE_LIMIT * SAMPLE_LIMIT)
                    == (SAMPLE_LIMIT * SAMPLE_LIMIT) * (n as int)) by (nonlinear_arith)
                    requires self.buffer@.len() == n as int;
            }
            vstd::arithmetic::div_mod::lemma_div_pos_is_pos(sum_squares(self.buffer@), n as int);
            lemma_sum_squares_nonneg(self.buffer@);
        }
        let q: u128 = self.squared_sum / (n as u128);
        let r = isqrt(q);
        proof {
            assert(r as int <= SAMPLE_LIMIT) by (nonlinear_arith)
                requires
                    (r as int) * (r as int) <= q as int
                        && q as int <= SAMPLE_LIMIT * SAMPLE_LIMIT
                        && r as int >= 0
                        && SAMPLE_LIMIT == 0x8000_0000i64;
        }
        r as i64
    }

    /// Reads the sample `lookahead` positions behind the newest window
    /// entry, clamping the offset to the window as the lookahead delay
    /// requires: an offset past the oldest sample reads the oldest one.
    pub fn read_delayed(&self, lookahead: usize) -> (r: i64)
        requires
            self.wf(),
        ensures
            r == self.window()[if lookahead >= self.window().len() - 1 {
                0int
            } else {
                self.window().len() - 1 - lookahead
            }],
            -SAMPLE_LIMIT <= r <= SAMPLE_LIMIT,
    {
        let n = self.buffer.len();
        let idx = if lookahead >= n - 1 {
            0
        } else {
            n - 1 - lookahead
        };
        self.buffer[idx]
    }

    /// Resizes the window to `new_len` samples: excess newest samples
    /// are dropped, missing samples are zero-filled at the newest end,
    /// and the running sum of squares is recomputed from the resulting
    /// contents rather than carried over.
    pub fn resize(&mut self, new_len: usize)
        requires
            old(self).wf(),
            1 <= new_len <= MAX_WINDOW_LEN,
        ensures
            final(self).wf(),
            final(self).window().len() == new_len,
            final(self).window() == spec_resized(old(self).window(), new_len as nat),
    {
        let ghost w0 = self.buffer@;
        proof {
            assert(w0 =~= w0.subrange(0, w0.len() as int));
        }
        while self.buffer.len() > new_len
            invariant
                new_len >= 1,
                self.buffer@.len() <= w0.len(),
                self.buffer@.len() >= new_len || self.buffer@.len() == w0.len(),
                self.buffer@ == w0.subrange(0, self.buffer@.len() as int),
                forall|i: int|
                    0 <= i < w0.len() ==> -SAMPLE_LIMIT <= #[trigger] w0[i] <= SAMPLE_LIMIT,
            decreases self.buffer@.len(),
        {
            let ghost len0 = self.buffer@.len() as int;
            let _ = self.buffer.pop_back();
            proof {
                assert(self.buffer@ =~= w0.subrange(0, len0 - 1));
            }
        }
        let ghost base = self.buffer@;
        let ghost kept = base.len() as int;
        proof {
            assert(kept == if new_len <= w0.len() { new_len as int } else { w0.len() as int });
            assert forall|i: int|
                0 <= i < base.len() implies -SAMPLE_LIMIT <= #[trigger] base[i] <= SAMPLE_LIMIT by {
                assert(base[i] == w0[i]);
            }
        }
        while self.buffer.len() < new_len
            invariant
                kept == base.len(),
                kept <= self.buffer@.len() <= new_len,
                new_len <= MAX_WINDOW_LEN,
                self.buffer@.subrange(0, kept) == base,
                forall|i: int| kept <= i < self.buffer@.len() ==> #[trigger] self.buffer@[i] == 0i64,
                forall|i: int|
                    0 <= i < base.len() ==> -SAMPLE_LIMIT <= #[trigger] base[i] <= SAMPLE_LIMIT,
            decreases new_len - self.buffer@.len(),
        {
            let ghost before = self.buffer@;
            self.buffer.push_back(0);
            proof {
                assert(self.buffer@.subrange(0, kept) =~= before.subrange(0, kept));
            }
        }
        proof {
            if new_len <= w0.len() {
                assert(self.buffer@ =~= base);
                assert(base == w0.subrange(0, new_len as int));
            } else {
                assert(base == w0.subrange(0, w0.len() as int));
                assert(self.buffer@.subrange(0, w0.len() as int) == base);
                assert(w0.subrange(0, w0.len() as int) =~= w0);
            }
            assert forall|i: int|
                0 <= i < self.buffer@.len() implies -SAMPLE_LIMIT <= #[trigger] self.buffer@[i]
                    <= SAMPLE_LIMIT by {
                if i < kept {
                    assert(self.buffer@[i] == self.buffer@.subrange(0, kept)[i]);
                }
            }
        }
        let n = self.buffer.len();
        let mut acc: u128 = 0;
        let mut i: usize = 0;
        proof {
            assert(self.buffer@.subrange(0, 0) =~= Seq::<i64>::empty());
        }
        while i < n
            invariant
                i <= n,
                n == self.buffer@.len(),
                1 <= n <= MAX_WINDOW_LEN,
                forall|j: int|
                    0 <= j < self.buffer@.len() ==> -SAMPLE_LIMIT <= #[trigger] self.buffer@[j]
                        <= SAMPLE_LIMIT,
                acc == sum_squares(self.buffer@.subrange(0, i as int)),
            decreases n - i,
        {
            let v = self.buffer[i];
            proof {
                assert(self.buffer@.subrange(0, i + 1) =~= self.buffer@.subrange(
                    0,
                    i as int,
                ).push(self.buffer@[i as int]));
                lemma_sum_squares_push(self.buffer@.subrange(0, i as int), self.buffer@[i as int]);
                lemma_sum_squares_nonneg(self.buffer@.subrange(0, i as int));
                lemma_sum_squares_bound(self.buffer@.subrange(0, i as int), SAMPLE_LIMIT);
                assert(0 <= v * v <= 0x4000_0000_0000_0000) by (nonlinear_arith)
                    requires -SAMPLE_LIMIT <= v <= SAMPLE_LIMIT && SAMPLE_LIMIT == 0x8000_0000i64;
                assert(self.buffer@.subrange(0, i as int).len() * (SAMPLE_LIMIT * SAMPLE_LIMIT)
                    <= MAX_WINDOW_LEN * (SAMPLE_LIMIT * SAMPLE_LIMIT)) by (nonlinear_arith)
                    requires
                        self.buffer@.subrange(0, i as int).len() <= MAX_WINDOW_LEN
                            && SAMPLE_LIMIT == 0x8000_0000i64;
            }
            acc = acc + ((v as i128) * (v as i128)) as u128;
            i = i + 1;
        }
        proof {
            assert(self.buffer@.subrange(0, n as int) =~= self.buffer@);
        }
        self.squared_sum = acc;
    }
}

impl Default for RmsLevelDetector {
    /// A detector with a one-millisecond window at the default sample
    /// rate of 44100 Hz: 44 zero samples.
    fn default() -> (r: RmsLevelDetector)
        ensures
            r.wf(),
            r.window() == zero_window(44),
    {
        RmsLevelDetector::new(44)
    }
}


/// The window after feeding a sequence of samples, oldest first:
/// exactly the transition [`RmsLevelDetector::calculate_rms`] makes on
/// the window, iterated once per input.
pub open spec fn spec_feed(s: Seq<i64>, inputs: Seq<i64>) -> Seq<i64>
    decreases inputs.len(),
{
    if inputs.len() == 0 {
        s
    } else {
        spec_feed(s.drop_first().push(inputs[0]), inputs.drop_first())
    }
}

proof fn lemma_feed_shape(s: Seq<i64>, inputs: Seq<i64>)
    requires
        inputs.len() <= s.len(),
    ensures
        spec_feed(s, inputs) =~= s.subrange(inputs.len() as int, s.len() as int) + inputs,
    decreases inputs.len(),
{
    if inputs.len() == 0 {
        assert(s.subrange(0, s.len() as int) =~= s);
        assert(spec_feed(s, inputs) =~= s + inputs);
    } else {
        let j = inputs.len() as int;
        let s1 = s.drop_first().push(inputs[0]);
        lemma_feed_shape(s1, inputs.drop_first());
        assert(s1.subrange(j - 1, s1.len() as int) =~= s.subrange(j, s.len() as int).push(
            inputs[0],
        ));
        assert(s.subrange(j, s.len() as int).push(inputs[0]) + inputs.drop_first() =~= s.subrange(
            j,
            s.len() as int,
        ) + inputs);
    }
}

/// The lookahead delay line, as a law over the window: once at least
/// `k + 1` samples have been fed, the window entry `k` positions behind
/// the newest one is exactly the input from `k` steps earlier.  Gain
/// computed from the newest samples is therefore applied to a signal
/// delayed by exactly the lookahead offset.
pub proof fn lemma_feed_delayed_read(s: Seq<i64>, inputs: Seq<i64>, k: int)
    requires
        1 <= inputs.len() <= s.len(),
        0 <= k < inputs.len(),
    ensures
        spec_feed(s, inputs)[s.len() - 1 - k] == inputs[inputs.len() - 1 - k],
{
    lemma_feed_shape(s, inputs);
    let j = inputs.len() as int;
    let n = s.len() as int;
    assert(spec_feed(s, inputs)[n - 1 - k] == (s.subrange(j, n) + inputs)[n - 1 - k]);
    assert((s.subrange(j, n) + inputs)[n - 1 - k] == inputs[j - 1 - k]);
}

/// A window holding the same sample everywhere reports exactly that
/// sample's magnitude as its level: the mean square is the square, and
/// the floor square root recovers the magnitude with no error.
pub proof fn lemma_rms_constant_window(s: Seq<i64>, a: i64)
    requires
        s.len() >= 1,
        forall|i: int| 0 <= i < s.len() ==> #[trigger] s[i] == a,
    ensures
        spec_rms_level(s) == if a < 0 {
            -(a as int)
        } else {
            a as int
        },
{
    lemma_sum_squares_constant(s, a);
    let n = s.len() as int;
    let sq = (a as int) * (a as int);
    assert(n * sq == sq * n) by (nonlinear_arith);
    assert(sq >= 0) by (nonlinear_arith)
        requires sq == (a as int) * (a as int);
    vstd::arithmetic::div_mod::lemma_div_by_multiple(sq, n);
    let m = if a < 0 { -(a as int) } else { a as int };
    assert(m * m == sq && sq < (m + 1) * (m + 1)) by (nonlinear_arith)
        requires m == (if a < 0 { -(a as int) } else { a as int }) && sq == (a as int) * (a as int);
    crate::math::lemma_isqrt_unique(sq, m);
}

/// Feeding a constant signal for one full window length leaves the
/// detector reporting exactly that signal's magnitude: starting from any
/// window contents, `len` updates with sample `a` give a level of `|a|`.
pub proof fn lemma_rms_converges_on_constant(s: Seq<i64>, a: i64)
    requires
        s.len() >= 1,
    ensures
        spec_feed(s, Seq::new(s.len(), |i: int| a)).len() == s.len(),
        spec_rms_level(spec_feed(s, Seq::new(s.len(), |i: int| a))) == if a < 0 {
            -(a as int)
        } else {
            a as int
        },
{
    lemma_feed_shape(s, Seq::new(s.len(), |i: int| a));
    let w = spec_feed(s, Seq::new(s.len(), |i: int| a));
    assert(forall|i: int| 0 <= i < w.len() ==> #[trigger] w[i] == a);
    lemma_rms_constant_window(w, a);
}

} // verus!
