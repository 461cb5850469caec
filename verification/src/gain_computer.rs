//! The soft-knee gain computer: the stateless map from a detected level
//! to a gain-reduction multiplier.
//!
//! The level is converted to decibels, the decibel overshoot above the
//! threshold is reshaped by the knee/ratio curve, and the resulting
//! (never positive) change in decibels is converted back to a linear
//! multiplier.  A ratio at or below 1:1 means compression is disabled:
//! the multiplier is exactly unity.

use vstd::prelude::*;
use crate::{SAMPLE_LIMIT, SCALE};
use crate::db::{
    db_to_gain, gain_to_db, lemma_db_to_gain_zero, spec_db_to_gain, spec_gain_to_db,
};
use crate::math::mul_div_floor;

verus! {

/// The gain change in decibels (`reduced_db - input_db`, never positive)
/// that the knee/ratio curve applies to a level of `input_db` decibels.
///
/// Region selection follows the transfer curve: inside the knee
/// (`2 * |diff| <= knee_width`, for a positive knee) a quadratic
/// interpolation, above the knee the straight ratio slope, below both no
/// change.  A ratio at or below unity applies no change anywhere.
pub open spec fn spec_gain_reduction_db(
    input_db: int,
    threshold: int,
    ratio: int,
    knee_width: int,
) -> int {
    let diff = input_db - threshold;
    let mag = if diff < 0 { -diff } else { diff };
    if ratio <= SCALE {
        0
    } else if knee_width > 0 && 2 * mag <= knee_width {
        let d2 = diff + knee_width / 2;
        let term = (d2 * d2) / (2 * knee_width);
        -(((SCALE - (SCALE as int) * (SCALE as int) / ratio) * term) / (SCALE as int))
    } else if 2 * diff > knee_width {
        threshold + (diff * (SCALE as int)) / ratio - input_db
    } else {
        0
    }
}

/// The gain-reduction multiplier for a smoothed average level: unity for
/// a ratio at or below 1:1, otherwise the decibel reduction converted
/// back to a linear factor.
pub open spec fn spec_multiplier(
    average_gain: int,
    threshold: int,
    ratio: int,
    knee_width: int,
) -> int {
    if ratio <= SCALE {
        SCALE as int
    } else {
        spec_db_to_gain(
            spec_gain_reduction_db(spec_gain_to_db(average_gain), threshold, ratio, knee_width),
        )
    }
}

/// The curve only ever reduces gain: the decibel change is never
/// positive, and for a positive ratio above unity it is bounded below by
/// the overshoot itself.
pub proof fn lemma_reduction_nonpositive(
    input_db: int,
    threshold: int,
    ratio: int,
    knee_width: int,
)
    requires
        knee_width >= 0,
    ensures
        spec_gain_reduction_db(input_db, threshold, ratio, knee_width) <= 0,
{
    let si = SCALE as int;
    let diff = input_db - threshold;
    let mag = if diff < 0 { -diff } else { diff };
    if ratio <= si {
    } else if knee_width > 0 && 2 * mag <= knee_width {
        let d2 = diff + knee_width / 2;
        let term = (d2 * d2) / (2 * knee_width);
        assert(d2 * d2 >= 0) by (nonlinear_arith);
        vstd::arithmetic::div_mod::lemma_div_pos_is_pos(d2 * d2, 2 * knee_width);
        assert(si * si / ratio <= si) by {
            vstd::arithmetic::div_mod::lemma_div_is_ordered_by_denominator(si * si, si, ratio);
            vstd::arithmetic::div_mod::lemma_div_by_multiple(si, si);
            assert(si * si == si * si);
        }
        assert(si * si / ratio >= 0) by {
            assert(si * si >= 0) by (nonlinear_arith);
            vstd::arithmetic::div_mod::lemma_div_pos_is_pos(si * si, ratio);
        }
        let inv1 = si - si * si / ratio;
        assert(inv1 * term >= 0) by (nonlinear_arith)
            requires inv1 >= 0 && term >= 0;
        vstd::arithmetic::div_mod::lemma_div_pos_is_pos(inv1 * term, si);
    } else if 2 * diff > knee_width {
        assert(diff > 0);
        assert(diff * si >= 0) by (nonlinear_arith)
            requires diff >= 0 && si > 0;
        assert((diff * si) / ratio <= diff) by {
            vstd::arithmetic::div_mod::lemma_div_is_ordered_by_denominator(diff * si, si, ratio);
            vstd::arithmetic::div_mod::lemma_div_by_multiple(diff, si);
        }
    }
}

/// A ratio at or below 1:1 leaves the multiplier at exactly unity, for
/// every threshold and knee width.
pub proof fn lemma_unity_below_one_to_one(
    average_gain: int,
    threshold: int,
    ratio: int,
    knee_width: int,
)
    requires
        ratio <= SCALE,
    ensures
        spec_multiplier(average_gain, threshold, ratio, knee_width) == SCALE,
{
}

/// A level strictly below the threshold by more than half the knee is
/// not touched: the multiplier is exactly unity, whatever the ratio.
pub proof fn lemma_unity_below_knee(
    average_gain: int,
    threshold: int,
    ratio: int,
    knee_width: int,
)
    requires
        knee_width >= 0,
        2 * (spec_gain_to_db(average_gain) - threshold) < -knee_width,
    ensures
        spec_multiplier(average_gain, threshold, ratio, knee_width) == SCALE,
{
    let input_db = spec_gain_to_db(average_gain);
    let diff = input_db - threshold;
    assert(diff < 0);
    assert(spec_gain_reduction_db(input_db, threshold, ratio, knee_width) == 0);
    lemma_db_to_gain_zero();
}

/// Maps the smoothed average level through the soft-knee curve and
/// returns the gain-reduction multiplier, a fixed-point factor in
/// `[0, SCALE]`.
pub fn compute_multiplier(
    average_gain: i64,
    threshold: i64,
    ratio: i64,
    knee_width: i64,
) -> (r: i64)
    requires
        0 <= average_gain <= SAMPLE_LIMIT,
        -200 * SCALE <= threshold <= 200 * SCALE,
        0 <= ratio,
        0 <= knee_width <= 200 * SCALE,
    ensures
        r == spec_multiplier(average_gain as int, threshold as int, ratio as int, knee_width as int),
        0 <= r <= SCALE,
{
    if ratio <= SCALE {
        return SCALE;
    }
    let input_db = gain_to_db(average_gain);
    let diff = input_db - threshold;
    let mag = if diff < 0 { -diff } else { diff };
    proof {
        lemma_reduction_nonpositive(input_db as int, threshold as int, ratio as int, knee_width as int);
    }
    let reduction_db: i64 = if knee_width > 0 && 2 * mag <= knee_width {
        let d2 = diff + knee_width / 2;
        proof {
            assert(0 <= d2 <= knee_width);
            let ki = knee_width as int;
            let d2i = d2 as int;
            assert(0 <= d2i * d2i <= ki * ki) by (nonlinear_arith)
                requires 0 <= d2i <= ki;
            assert(ki * ki <= 200 * (SCALE as int) * (200 * (SCALE as int))) by (nonlinear_arith)
                requires 0 <= ki <= 200 * (SCALE as int);
            vstd::arithmetic::div_mod::lemma_div_pos_is_pos(d2i * d2i, 2 * ki);
            vstd::arithmetic::div_mod::lemma_div_is_ordered(d2i * d2i, ki * ki, 2 * ki);
            assert((ki * ki) / (2 * ki) <= ki) by {
                assert(ki * ki <= ki * (2 * ki)) by (nonlinear_arith)
                    requires ki > 0;
                vstd::arithmetic::div_mod::lemma_div_is_ordered(ki * ki, ki * (2 * ki), 2 * ki);
                vstd::arithmetic::div_mod::lemma_div_multiples_vanish(ki, 2 * ki);
                assert(ki * (2 * ki) == (2 * ki) * ki) by (nonlinear_arith);
            }
        }
        let term = mul_div_floor(d2, d2, 2 * knee_width);
        let inv = SCALE - mul_div_floor(SCALE, SCALE, ratio);
        proof {
            let si = SCALE as int;
            assert(si * si / (ratio as int) <= si) by {
                vstd::arithmetic::div_mod::lemma_div_is_ordered_by_denominator(
                    si * si,
                    si,
                    ratio as int,
                );
                vstd::arithmetic::div_mod::lemma_div_by_multiple(si, si);
            }
            assert(si * si / (ratio as int) >= 0) by {
                vstd::arithmetic::div_mod::lemma_div_pos_is_pos(si * si, ratio as int);
            }
            assert(0 <= (inv as int) * (term as int) <= si * (200 * si)) by (nonlinear_arith)
                requires 0 <= inv as int <= si && 0 <= term as int <= 200 * si;
            vstd::arithmetic::div_mod::lemma_div_pos_is_pos((inv as int) * (term as int), si);
            vstd::arithmetic::div_mod::lemma_div_is_ordered(
                (inv as int) * (term as int),
                si * (200 * si),
                si,
            );
            vstd::arithmetic::div_mod::lemma_div_multiples_vanish(200 * si, si);
        }
        -(mul_div_floor(inv, term, SCALE))
    } else if 2 * diff > knee_width {
        proof {
            let di = diff as int;
            let si = SCALE as int;
            assert(di > 0);
            assert(di * si >= 0) by (nonlinear_arith)
                requires di >= 0 && si > 0;
            assert((di * si) / (ratio as int) <= di) by {
                vstd::arithmetic::div_mod::lemma_div_is_ordered_by_denominator(
                    di * si,
                    si,
                    ratio as int,
                );
                vstd::arithmetic::div_mod::lemma_div_by_multiple(di, si);
            }
            vstd::arithmetic::div_mod::lemma_div_pos_is_pos(di * si, ratio as int);
        }
        let slope = mul_div_floor(diff, SCALE, ratio);
        threshold + slope - input_db
    } else {
        0
    };
    db_to_gain(reduction_db)
}

} // verus!
