//! Attack/release-asymmetric one-pole gain smoothing.
//!
//! The smoothed average is a convex combination of the incoming level and
//! the previous average: `(1 - c) * level + c * previous`, where the
//! coefficient `c` is the attack coefficient while the level is rising
//! and the release coefficient while it is falling.

use vstd::prelude::*;
use crate::{SAMPLE_LIMIT, SCALE};

verus! {

/// One-pole filter step with coefficient `coeff` (fixed-point, in
/// `[0, SCALE]`): `((SCALE - coeff) * level + coeff * previous) / SCALE`.
pub open spec fn spec_smooth(new_level: int, previous: int, coeff: int) -> int {
    ((SCALE - coeff) * new_level + coeff * previous) / (SCALE as int)
}

/// The asymmetric update: a rising level is smoothed with the attack
/// coefficient, a falling or constant one with the release coefficient.
pub open spec fn spec_smooth_asym(
    new_level: int,
    previous: int,
    attack_coeff: int,
    release_coeff: int,
) -> int {
    if new_level > previous {
        spec_smooth(new_level, previous, attack_coeff)
    } else {
        spec_smooth(new_level, previous, release_coeff)
    }
}

/// A smoothing step never leaves the interval spanned by its inputs.
pub proof fn lemma_smooth_bounds(new_level: int, previous: int, coeff: int)
    requires
        0 <= new_level,
        0 <= previous,
        0 <= coeff <= SCALE,
    ensures
        spec_smooth(new_level, previous, coeff) >= if new_level <= previous {
            new_level
        } else {
            previous
        },
        spec_smooth(new_level, previous, coeff) <= if new_level <= previous {
            previous
        } else {
            new_level
        },
{
    let si = SCALE as int;
    let lo = if new_level <= previous { new_level } else { previous };
    let hi = if new_level <= previous { previous } else { new_level };
    let num = (si - coeff) * new_level + coeff * previous;
    assert(si * lo <= num <= si * hi) by (nonlinear_arith)
        requires
            0 <= coeff <= si && lo <= new_level <= hi && lo <= previous <= hi && num == (si
                - coeff) * new_level + coeff * previous;
    vstd::arithmetic::div_mod::lemma_div_is_ordered(si * lo, num, si);
    vstd::arithmetic::div_mod::lemma_div_is_ordered(num, si * hi, si);
    vstd::arithmetic::div_mod::lemma_div_multiples_vanish(lo, si);
    vstd::arithmetic::div_mod::lemma_div_multiples_vanish(hi, si);
}

/// One smoothing step moves the average toward the incoming level by
/// exactly the complement of the coefficient: the new distance to the
/// level is the old distance scaled by `coeff / SCALE` (floored).  With
/// a constant input level the distance therefore shrinks geometrically,
/// which is how the average converges to a constant signal.
pub proof fn lemma_smooth_step(new_level: int, previous: int, coeff: int)
    ensures
        spec_smooth(new_level, previous, coeff) == new_level + (coeff * (previous - new_level))
            / (SCALE as int),
{
    let si = SCALE as int;
    let x = coeff * (previous - new_level);
    assert((si - coeff) * new_level + coeff * previous == x + new_level * si)
        by (nonlinear_arith)
        requires x == coeff * (previous - new_level) && si == 1048576;
    vstd::arithmetic::div_mod::lemma_hoist_over_denominator(x, new_level, SCALE as nat);
}

/// Smooths a detected level into the running average with the
/// attack/release-asymmetric one-pole filter.  The result stays between
/// the previous average and the new level, so a well-formed average can
/// never leave `[0, SAMPLE_LIMIT]`.
pub fn update(
    new_level: i64,
    previous_average: i64,
    attack_coefficient: i64,
    release_coefficient: i64,
) -> (r: i64)
    requires
        0 <= new_level <= SAMPLE_LIMIT,
        0 <= previous_average <= SAMPLE_LIMIT,
        0 <= attack_coefficient <= SCALE,
        0 <= release_coefficient <= SCALE,
    ensures
        r == spec_smooth_asym(
            new_level as int,
            previous_average as int,
            attack_coefficient as int,
            release_coefficient as int,
        ),
        0 <= r <= SAMPLE_LIMIT,
{
    let theta = if new_level > previous_average {
        attack_coefficient
    } else {
        release_coefficient
    };
    proof {
        let li = new_level as int;
        let pi = previous_average as int;
        let ti = theta as int;
        let si = SCALE as int;
        assert(0 <= (si - ti) * li + ti * pi <= 0x8_0000_0000_0000) by (nonlinear_arith)
            requires
                0 <= ti <= si && si == 1048576 && 0 <= li <= SAMPLE_LIMIT && 0 <= pi
                    <= SAMPLE_LIMIT && SAMPLE_LIMIT == 0x8000_0000i64;
        lemma_smooth_bounds(li, pi, ti);
    }
    let num: i64 = (SCALE - theta) * new_level + theta * previous_average;
    let r: i64 = ((num as u64) / (SCALE as u64)) as i64;
    r
}

} // verus!
