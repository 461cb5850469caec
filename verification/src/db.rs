//! Fixed-point decibel and exponential curves.
//!
//! Levels travel through the compressor in linear amplitude; the gain
//! computer works in decibels.  The two conversions, together with the
//! attack/release filter coefficient, need `log2` and `2^x`, which are
//! computed here to sixteen fractional bits.  Each function's result is
//! pinned exactly by a spec-level definition of the same approximation,
//! so callers can reason about composition, and the exact values at the
//! anchors (`gain_to_db(SCALE) == 0`, `db_to_gain(0) == SCALE`) are
//! proved as lemmas.

use vstd::prelude::*;
use vstd::arithmetic::power2::pow2;
use crate::SCALE;
use crate::math::mul_div_floor;

verus! {

/// Decibels per unit of base-2 logarithm: `20 * log10(2) * SCALE`,
/// rounded to the nearest integer.
pub const DB_PER_LOG2: i64 = 6313057;

/// Base-2 exponent units per decibel: `SCALE / (20 * log10(2))`,
/// rounded to the nearest integer.
pub const EXP_PER_DB: i64 = 174165;

/// `log2(e) * SCALE`, rounded to the nearest integer: converts a natural
/// exponent to a base-2 exponent.
pub const LOG2_E_FIXED: i64 = 1512775;

/// `floor(SCALE * 2^(1/2^i))` for `i` in 1..=16: the factor contributed
/// by the `i`-th fractional bit of a base-2 exponent.
pub open spec fn pow2_frac_factor(i: int) -> int {
    if i == 1 { 1482910 }
    else if i == 2 { 1246974 }
    else if i == 3 { 1143480 }
    else if i == 4 { 1095000 }
    else if i == 5 { 1071536 }
    else if i == 6 { 1059994 }
    else if i == 7 { 1054269 }
    else if i == 8 { 1051418 }
    else if i == 9 { 1049996 }
    else if i == 10 { 1049286 }
    else if i == 11 { 1048930 }
    else if i == 12 { 1048753 }
    else if i == 13 { 1048664 }
    else if i == 14 { 1048620 }
    else if i == 15 { 1048598 }
    else if i == 16 { 1048587 }
    else { SCALE as int }
}

fn pow2_frac_factor_at(i: u32) -> (r: i64)
    ensures
        r == pow2_frac_factor(i as int),
{
    match i {
        1 => 1482910,
        2 => 1246974,
        3 => 1143480,
        4 => 1095000,
        5 => 1071536,
        6 => 1059994,
        7 => 1054269,
        8 => 1051418,
        9 => 1049996,
        10 => 1049286,
        11 => 1048930,
        12 => 1048753,
        13 => 1048664,
        14 => 1048620,
        15 => 1048598,
        16 => 1048587,
        _ => SCALE,
    }
}

/// `2^(f/SCALE) * SCALE` for a fractional exponent `f` in `[0, SCALE)`,
/// approximated by multiplying the factors of the set bits of `f`, most
/// significant first, with a floor division after each factor.
pub open spec fn spec_pow2_frac(f: int, i: int) -> int
    decreases 17 - i when i <= 17
{
    if i < 1 || i >= 17 {
        SCALE as int
    } else {
        let rest = spec_pow2_frac(f, i + 1);
        if (f / (pow2((20 - i) as nat) as int)) % 2 == 1 {
            rest * pow2_frac_factor(i) / (SCALE as int)
        } else {
            rest
        }
    }
}

/// Upper bound of [`spec_pow2_frac`] over all fractions: the value the
/// chain reaches when every bit is set.
pub open spec fn pow2_frac_cap(i: int) -> int
    decreases 17 - i when i <= 17
{
    if i < 1 || i >= 17 {
        SCALE as int
    } else {
        pow2_frac_cap(i + 1) * pow2_frac_factor(i) / (SCALE as int)
    }
}

/// The cap chain evaluates to concrete values, all below `2 * SCALE`.
pub proof fn lemma_pow2_frac_cap_values()
    ensures
        forall|i: int| 1 <= i <= 17 ==> SCALE <= #[trigger] pow2_frac_cap(i) <= 2097107,
{
    assert(pow2_frac_cap(17) == 1048576);
    assert(pow2_frac_cap(16) == 1048587);
    assert(pow2_frac_cap(15) == 1048609);
    assert(pow2_frac_cap(14) == 1048653);
    assert(pow2_frac_cap(13) == 1048741);
    assert(pow2_frac_cap(12) == 1048918);
    assert(pow2_frac_cap(11) == 1049272);
    assert(pow2_frac_cap(10) == 1049982);
    assert(pow2_frac_cap(9) == 1051403);
    assert(pow2_frac_cap(8) == 1054252);
    assert(pow2_frac_cap(7) == 1059975);
    assert(pow2_frac_cap(6) == 1071517);
    assert(pow2_frac_cap(5) == 1094979);
    assert(pow2_frac_cap(4) == 1143457);
    assert(pow2_frac_cap(3) == 1246948);
    assert(pow2_frac_cap(2) == 1482879);
    assert(pow2_frac_cap(1) == 2097107);
}

/// A fractional exponent of zero contributes no factor: the chain stays
/// at `SCALE`.
pub proof fn lemma_pow2_frac_zero(i: int)
    requires
        1 <= i <= 17,
    ensures
        spec_pow2_frac(0, i) == SCALE,
    decreases 17 - i,
{
    if i < 17 {
        lemma_pow2_frac_zero(i + 1);
        vstd::arithmetic::power2::lemma_pow2_pos((20 - i) as nat);
        assert(0int / (pow2((20 - i) as nat) as int) == 0);
    }
}

fn pow2_frac_rec(f: i64, i: u32, d: i64) -> (r: i64)
    requires
        1 <= i <= 17,
        0 <= f < SCALE,
        i <= 16 ==> d == pow2((20 - i) as nat),
    ensures
        r == spec_pow2_frac(f as int, i as int),
        SCALE <= r <= pow2_frac_cap(i as int),
    decreases 17 - i,
{
    proof {
        lemma_pow2_frac_cap_values();
    }
    if i >= 17 {
        SCALE
    } else {
        proof {
            if i <= 15 {
                vstd::arithmetic::power2::lemma_pow2_unfold((20 - i) as nat);
            }
            vstd::arithmetic::power2::lemma_pow2_pos((20 - i) as nat);
        }
        let rest = pow2_frac_rec(f, i + 1, d / 2);
        let bit = ((f as u64) / (d as u64)) % 2;
        if bit == 1 {
            let k = pow2_frac_factor_at(i);
            let r = mul_div_floor(rest, k, SCALE);
            proof {
                let resti = rest as int;
                let ki = k as int;
                let si = SCALE as int;
                assert(si * si <= resti * ki) by (nonlinear_arith)
                    requires si <= resti && si <= ki && si > 0;
                vstd::arithmetic::div_mod::lemma_div_is_ordered(si * si, resti * ki, si);
                vstd::arithmetic::div_mod::lemma_div_by_multiple(si, si);
                assert(resti * ki <= pow2_frac_cap(i as int + 1) * ki) by (nonlinear_arith)
                    requires resti <= pow2_frac_cap(i as int + 1) && ki > 0;
                vstd::arithmetic::div_mod::lemma_div_is_ordered(
                    resti * ki,
                    pow2_frac_cap(i as int + 1) * ki,
                    si,
                );
            }
            r
        } else {
            proof {
                let resti = rest as int;
                let ki = pow2_frac_factor(i as int);
                let si = SCALE as int;
                assert(resti * si <= resti * ki) by (nonlinear_arith)
                    requires si <= ki && resti >= 0;
                vstd::arithmetic::div_mod::lemma_div_by_multiple(resti, si);
                vstd::arithmetic::div_mod::lemma_div_is_ordered(resti * si, resti * ki, si);
                assert(resti * ki <= pow2_frac_cap(i as int + 1) * ki) by (nonlinear_arith)
                    requires resti <= pow2_frac_cap(i as int + 1) && ki > 0;
                vstd::arithmetic::div_mod::lemma_div_is_ordered(
                    resti * ki,
                    pow2_frac_cap(i as int + 1) * ki,
                    si,
                );
            }
            rest
        }
    }
}

/// `pow2` as executable code, for shift-free scaling by powers of two.
pub fn pow2_exec(k: u32) -> (r: i64)
    requires
        k <= 62,
    ensures
        r == pow2(k as nat),
        r >= 1,
{
    let mut j: u32 = 0;
    let mut t: i64 = 1;
    proof {
        vstd::arithmetic::power2::lemma2_to64();
        vstd::arithmetic::power2::lemma2_to64_rest();
    }
    while j < k
        invariant
            j <= k <= 62,
            t == pow2(j as nat),
            1 <= t,
        decreases k - j,
    {
        proof {
            vstd::arithmetic::power2::lemma_pow2_unfold((j + 1) as nat);
            if j + 1 < 62 {
                vstd::arithmetic::power2::lemma_pow2_strictly_increases((j + 1) as nat, 62);
            }
            vstd::arithmetic::power2::lemma2_to64_rest();
            assert(pow2((j + 1) as nat) <= pow2(62));
        }
        t = 2 * t;
        j = j + 1;
    }
    t
}

/// Floor-divides a (possibly negative) value by `SCALE`, returning the
/// quotient and the nonnegative remainder.
pub fn floor_div_scale(e: i64) -> (r: (i64, i64))
    ensures
        r.0 == (e as int) / (SCALE as int),
        r.1 == (e as int) % (SCALE as int),
        0 <= r.1 < SCALE,
        e == r.0 * SCALE + r.1,
{
    proof {
        vstd::arithmetic::div_mod::lemma_fundamental_div_mod(e as int, SCALE as int);
        vstd::arithmetic::div_mod::lemma_mod_bound(e as int, SCALE as int);
        vstd::arithmetic::div_mod::lemma_div_is_ordered(i64::MIN as int, e as int, SCALE as int);
        vstd::arithmetic::div_mod::lemma_div_is_ordered(e as int, i64::MAX as int, SCALE as int);
    }
    let q = mul_div_floor(e, 1, SCALE);
    let f = e - q * SCALE;
    proof {
        assert((e as int) * 1 == e as int);
        assert(q * SCALE + f == e);
        assert(f == (e as int) % (SCALE as int)) by {
            vstd::arithmetic::div_mod::lemma_fundamental_div_mod(e as int, SCALE as int);
            assert((SCALE as int) * ((e as int) / (SCALE as int)) == q * SCALE) by (nonlinear_arith)
                requires q == (e as int) / (SCALE as int) && SCALE == 1048576i64;
        }
    }
    (q, f)
}

/// `2^(e/SCALE) * SCALE`: the fractional part goes through
/// [`spec_pow2_frac`], the integral part shifts the result.
pub open spec fn spec_pow2_fixed(e: int) -> int {
    let q = e / (SCALE as int);
    let f = e % (SCALE as int);
    let r = spec_pow2_frac(f, 1);
    if q >= 0 {
        r * pow2(q as nat)
    } else {
        r / (pow2((-q) as nat) as int)
    }
}

/// Fixed-point power of two: `r` approximates `2^(e/SCALE) * SCALE`.
///
/// A nonpositive exponent can never produce a value above `SCALE`, and a
/// zero exponent produces exactly `SCALE`.
pub fn pow2_fixed(e: i64) -> (r: i64)
    requires
        e <= 13 * SCALE,
    ensures
        r == spec_pow2_fixed(e as int),
        0 <= r <= 0x4_0000_0000,
        e <= 0 ==> r <= SCALE,
        e == 0 ==> r == SCALE,
{
    let (q, f) = floor_div_scale(e);
    proof {
        vstd::arithmetic::power2::lemma2_to64();
        lemma_pow2_frac_cap_values();
    }
    let rf = pow2_frac_rec(f, 1, 524288);
    if q >= 0 {
        proof {
            assert(q <= 13) by {
                assert(e == q * SCALE + f);
                assert(q >= 14 ==> e > 13 * SCALE) by (nonlinear_arith)
                    requires e == q * SCALE + f && f >= 0 && SCALE == 1048576i64;
            }
            vstd::arithmetic::power2::lemma2_to64();
        }
        let m = pow2_exec(q as u32);
        proof {
            assert(m <= 8192) by {
                if (q as nat) < 13 {
                    vstd::arithmetic::power2::lemma_pow2_strictly_increases(q as nat, 13);
                }
                vstd::arithmetic::power2::lemma2_to64();
            }
            assert(rf * m <= 2097107 * 8192) by (nonlinear_arith)
                requires rf <= 2097107 && 0 < m <= 8192;
            assert(rf * m >= 0) by (nonlinear_arith)
                requires rf >= 0 && m >= 0;
            if e <= 0 {
                assert(q == 0 && f == 0) by (nonlinear_arith)
                    requires e == q * SCALE + f && 0 <= f < SCALE && q >= 0 && e <= 0
                        && SCALE == 1048576i64;
                lemma_pow2_frac_zero(1);
                assert(m == 1);
                assert(rf * m == rf) by (nonlinear_arith)
                    requires m == 1;
            }
        }
        rf * m
    } else if q <= -42 {
        proof {
            vstd::arithmetic::power2::lemma_pow2_strictly_increases(22, (-(q as int)) as nat);
            vstd::arithmetic::power2::lemma2_to64();
            vstd::arithmetic::div_mod::lemma_basic_div(rf as int, pow2((-(q as int)) as nat) as int);
        }
        0
    } else {
        let m = pow2_exec((-q) as u32);
        proof {
            vstd::arithmetic::power2::lemma_pow2_pos((-(q as int)) as nat);
            if e <= 0 {
                assert(q <= -1 || f == 0) by {
                    assert(e == q * SCALE + f);
                    assert(q >= 0 && e <= 0 ==> q == 0 && f <= 0) by (nonlinear_arith)
                        requires e == q * SCALE + f && 0 <= f < SCALE && SCALE == 1048576i64;
                }
                assert(m >= 2) by {
                    vstd::arithmetic::power2::lemma_pow2_strictly_increases(0, (-(q as int)) as nat);
                    vstd::arithmetic::power2::lemma2_to64();
                }
                vstd::arithmetic::div_mod::lemma_div_is_ordered(rf as int, 2097152, m as int);
                vstd::arithmetic::div_mod::lemma_div_is_ordered_by_denominator(2097152, 2, m as int);
            }
        }
        rf / m
    }
}

/// Halves a value until it lies in `[SCALE, 2 * SCALE)`, counting the
/// halvings: the integral part of its base-2 logarithm above `SCALE`.
pub open spec fn spec_norm_down(x: int) -> (int, int)
    decreases x when x >= SCALE
{
    if x < 2 * SCALE {
        (x, 0)
    } else {
        let r = spec_norm_down(x / 2);
        (r.0, r.1 + 1)
    }
}

/// Doubles a value below `SCALE` until it reaches `[SCALE, 2 * SCALE)`,
/// counting the doublings negatively.
pub open spec fn spec_norm_up(x: int) -> (int, int)
    decreases 2 * SCALE - x when 1 <= x < 2 * SCALE
{
    if x >= SCALE {
        (x, 0)
    } else {
        let r = spec_norm_up(2 * x);
        (r.0, r.1 - 1)
    }
}

fn norm_down(x: i64) -> (r: (i64, i64))
    requires
        SCALE <= x,
    ensures
        (r.0 as int, r.1 as int) == spec_norm_down(x as int),
        SCALE <= r.0 < 2 * SCALE,
        0 <= r.1 <= 43,
        pow2(r.1 as nat) * SCALE <= x,
    decreases x,
{
    if x < 2 * SCALE {
        proof {
            vstd::arithmetic::power2::lemma2_to64();
        }
        (x, 0)
    } else {
        let r = norm_down(x / 2);
        proof {
            vstd::arithmetic::power2::lemma_pow2_unfold((r.1 + 1) as nat);
            assert(pow2((r.1 + 1) as nat) * SCALE <= x) by (nonlinear_arith)
                requires
                    pow2((r.1 + 1) as nat) == 2 * pow2(r.1 as nat)
                        && pow2(r.1 as nat) * SCALE <= x as int / 2
                        && 2 * (x as int / 2) <= x as int;
            assert(r.1 + 1 <= 43) by {
                if r.1 + 1 > 43 {
                    vstd::arithmetic::power2::lemma2_to64_rest();
                    vstd::arithmetic::power2::lemma_pow2_pos(r.1 as nat);
                    if (r.1 as nat) + 1 > 44 {
                        vstd::arithmetic::power2::lemma_pow2_strictly_increases(
                            44,
                            (r.1 + 1) as nat,
                        );
                    }
                    assert(pow2((r.1 + 1) as nat) * SCALE > i64::MAX) by (nonlinear_arith)
                        requires pow2((r.1 + 1) as nat) >= 0x100000000000 && SCALE == 1048576i64;
                }
            }
        }
        (r.0, r.1 + 1)
    }
}

fn norm_up(x: i64) -> (r: (i64, i64))
    requires
        1 <= x < SCALE,
    ensures
        (r.0 as int, r.1 as int) == spec_norm_up(x as int),
        SCALE <= r.0 < 2 * SCALE,
        -20 <= r.1 <= -1,
        r.0 == x * pow2((-r.1) as nat),
    decreases SCALE - x,
{
    let d = 2 * x;
    if d >= SCALE {
        proof {
            vstd::arithmetic::power2::lemma2_to64();
            assert(d == x * pow2(1)) by (nonlinear_arith)
                requires d == 2 * x && pow2(1) == 2;
            assert(spec_norm_up(d as int) == (d as int, 0int));
        }
        (d, -1)
    } else {
        let r = norm_up(d);
        proof {
            vstd::arithmetic::power2::lemma_pow2_unfold((-(r.1 as int - 1)) as nat);
            assert(r.0 == x * pow2((-(r.1 as int - 1)) as nat)) by (nonlinear_arith)
                requires
                    r.0 == (2 * x) * pow2((-r.1) as nat)
                        && pow2((-(r.1 as int - 1)) as nat) == 2 * pow2((-r.1) as nat);
            assert(r.1 - 1 >= -20) by {
                if r.1 - 1 < -20 {
                    vstd::arithmetic::power2::lemma2_to64();
                    if (-(r.1 as int - 1)) as nat > 21 {
                        vstd::arithmetic::power2::lemma_pow2_strictly_increases(
                            21,
                            (-(r.1 as int - 1)) as nat,
                        );
                    }
                    assert(x * pow2((-(r.1 as int - 1)) as nat) >= 2097152) by (nonlinear_arith)
                        requires x >= 1 && pow2((-(r.1 as int - 1)) as nat) >= 2097152;
                }
            }
        }
        (r.0, r.1 - 1)
    }
}

/// Fractional bits of `log2(m/SCALE)` for `m` in `[SCALE, 2 * SCALE)`:
/// the classic square-and-compare iteration, `k` bits deep, where `add`
/// is the weight of the next bit.
pub open spec fn spec_log2_frac(m: int, add: int, k: nat) -> int
    decreases k
{
    if k == 0 {
        0
    } else {
        let m2 = (m * m) / (SCALE as int);
        if m2 >= 2 * SCALE {
            add + spec_log2_frac(m2 / 2, add / 2, (k - 1) as nat)
        } else {
            spec_log2_frac(m2, add / 2, (k - 1) as nat)
        }
    }
}

/// The iteration never leaves `[SCALE, 2 * SCALE)`, so a mantissa of
/// exactly `SCALE` contributes no fractional bits.
pub proof fn lemma_log2_frac_one(add: int, k: nat)
    ensures
        spec_log2_frac(SCALE as int, add, k) == 0,
    decreases k,
{
    if k > 0 {
        let si = SCALE as int;
        assert((si * si) / si == si) by (nonlinear_arith)
            requires si == 1048576;
        lemma_log2_frac_one(add / 2, (k - 1) as nat);
    }
}

fn log2_frac_rec(m: i64, add: i64, k: u32) -> (r: i64)
    requires
        SCALE <= m < 2 * SCALE,
        0 <= add <= SCALE,
    ensures
        r == spec_log2_frac(m as int, add as int, k as nat),
        0 <= r <= 2 * add,
    decreases k,
{
    if k == 0 {
        0
    } else {
        proof {
            let mi = m as int;
            let si = SCALE as int;
            assert(si * si <= mi * mi && mi * mi < 4 * si * si) by (nonlinear_arith)
                requires si <= mi < 2 * si && si > 0;
            vstd::arithmetic::div_mod::lemma_div_is_ordered(0, mi * mi, si);
            vstd::arithmetic::div_mod::lemma_div_is_ordered(mi * mi, 4 * si * si, si);
            vstd::arithmetic::div_mod::lemma_div_by_multiple(4 * si, si);
            assert(4 * si * si == (4 * si) * si) by (nonlinear_arith);
        }
        let m2 = mul_div_floor(m, m, SCALE);
        proof {
            let mi = m as int;
            let si = SCALE as int;
            assert(si * si <= mi * mi && mi * mi < 4 * si * si) by (nonlinear_arith)
                requires si <= mi < 2 * si && si > 0;
            vstd::arithmetic::div_mod::lemma_div_by_multiple(si, si);
            vstd::arithmetic::div_mod::lemma_div_is_ordered(si * si, mi * mi, si);
            vstd::arithmetic::div_mod::lemma_div_by_multiple(4 * si, si);
            assert(mi * mi <= 4 * si * si - 1);
            vstd::arithmetic::div_mod::lemma_div_is_ordered(mi * mi, 4 * si * si - 1, si);
            assert((4 * si * si - 1) / si < 4 * si) by {
                vstd::arithmetic::div_mod::lemma_fundamental_div_mod_converse(
                    4 * si * si - 1,
                    si,
                    4 * si - 1,
                    si - 1,
                );
            }
        }
        if m2 >= 2 * SCALE {
            let rest = log2_frac_rec(m2 / 2, add / 2, k - 1);
            add + rest
        } else {
            let rest = log2_frac_rec(m2, add / 2, k - 1);
            rest
        }
    }
}

/// `log2(x/SCALE) * SCALE`, to sixteen fractional bits, for positive `x`
/// (a nonpositive argument is floored to one fixed-point unit).
pub open spec fn spec_log2_fixed(x: int) -> int {
    let y = if x < 1 { 1 } else { x };
    let r = if y < SCALE {
        spec_norm_up(y)
    } else {
        spec_norm_down(y)
    };
    r.1 * SCALE + spec_log2_frac(r.0, (SCALE as int) / 2, 16)
}

/// Converts a nonnegative linear amplitude to decibels:
/// `20 * log10(x/SCALE) * SCALE`, with an amplitude of zero floored to
/// one fixed-point unit so the logarithm stays defined.
pub open spec fn spec_gain_to_db(g: int) -> int {
    (spec_log2_fixed(g) * DB_PER_LOG2) / (SCALE as int)
}

/// Converts a linear amplitude to decibels.  An amplitude of `SCALE`
/// (1.0) is exactly 0 dB; zero is floored to the smallest positive
/// amplitude, about -120 dB.
pub fn gain_to_db(g: i64) -> (r: i64)
    requires
        0 <= g <= 0x8000_0000,
    ensures
        r == spec_gain_to_db(g as int),
        -127 * SCALE <= r <= 76 * SCALE,
{
    let x: i64 = if g < 1 { 1 } else { g };
    let (m, c) = if x < SCALE {
        norm_up(x)
    } else {
        let r = norm_down(x);
        proof {
            assert(r.1 <= 11) by {
                if r.1 > 11 {
                    vstd::arithmetic::power2::lemma2_to64();
                    if r.1 > 12 {
                        vstd::arithmetic::power2::lemma_pow2_strictly_increases(12, r.1 as nat);
                    }
                    assert(pow2(r.1 as nat) * SCALE > 0x8000_0000) by (nonlinear_arith)
                        requires pow2(r.1 as nat) >= 4096 && SCALE == 1048576i64;
                }
            }
        }
        r
    };
    let fr = log2_frac_rec(m, SCALE / 2, 16);
    let l2 = c * SCALE + fr;
    let r = mul_div_floor(l2, DB_PER_LOG2, SCALE);
    proof {
        let l2i = l2 as int;
        let si = SCALE as int;
        vstd::arithmetic::div_mod::lemma_div_is_ordered(-20 * si * DB_PER_LOG2, l2i * DB_PER_LOG2, si);
        vstd::arithmetic::div_mod::lemma_div_is_ordered(l2i * DB_PER_LOG2, 12 * si * DB_PER_LOG2, si);
        vstd::arithmetic::div_mod::lemma_div_multiples_vanish(-20 * DB_PER_LOG2, si);
        vstd::arithmetic::div_mod::lemma_div_multiples_vanish(12 * DB_PER_LOG2, si);
        assert(-20 * si * DB_PER_LOG2 == si * (-20 * DB_PER_LOG2)) by (nonlinear_arith);
        assert(12 * si * DB_PER_LOG2 == si * (12 * DB_PER_LOG2)) by (nonlinear_arith);
        assert(-20 * si * DB_PER_LOG2 <= l2i * DB_PER_LOG2 <= 12 * si * DB_PER_LOG2)
            by (nonlinear_arith)
            requires -20 * si <= l2i <= 12 * si && DB_PER_LOG2 == 6313057i64;
    }
    r
}

/// Converts a decibel value to a linear amplitude factor:
/// `10^(d / (20 * SCALE)) * SCALE`.
pub open spec fn spec_db_to_gain(d: int) -> int {
    spec_pow2_fixed((d * EXP_PER_DB) / (SCALE as int))
}

/// Converts decibels to a linear amplitude factor.  Zero decibels is
/// exactly an amplitude of `SCALE` (1.0); a nonpositive decibel value
/// never produces a factor above `SCALE`.
pub fn db_to_gain(d: i64) -> (r: i64)
    requires
        -0x100_0000_0000 <= d <= 76 * SCALE,
    ensures
        r == spec_db_to_gain(d as int),
        0 <= r <= 0x4_0000_0000,
        d <= 0 ==> r <= SCALE,
        d == 0 ==> r == SCALE,
{
    let e = mul_div_floor(d, EXP_PER_DB, SCALE);
    proof {
        let di = d as int;
        let si = SCALE as int;
        vstd::arithmetic::div_mod::lemma_div_is_ordered(di * EXP_PER_DB, 76 * si * EXP_PER_DB, si);
        vstd::arithmetic::div_mod::lemma_div_multiples_vanish(76 * EXP_PER_DB, si);
        assert(76 * si * EXP_PER_DB == si * (76 * EXP_PER_DB)) by (nonlinear_arith);
        assert(di * EXP_PER_DB <= 76 * si * EXP_PER_DB) by (nonlinear_arith)
            requires di <= 76 * si && EXP_PER_DB == 174165i64;
        if d <= 0 {
            assert(di * EXP_PER_DB <= 0) by (nonlinear_arith)
                requires di <= 0 && EXP_PER_DB == 174165i64;
            vstd::arithmetic::div_mod::lemma_div_is_ordered(di * EXP_PER_DB, 0, si);
        }
    }
    pow2_fixed(e)
}

/// The attack/release filter coefficient for a time constant `t`
/// (seconds, fixed-point) at `sample_rate` (Hz):
/// `exp(-1 / (sample_rate * t))`, with the special case `t = 0` mapping
/// to zero (instantaneous response) rather than dividing by zero.
pub open spec fn spec_filter_coefficient(t: int, sample_rate: int) -> int {
    if t <= 0 {
        0
    } else {
        let x = ((SCALE as int) * (SCALE as int)) / (sample_rate * t);
        spec_pow2_fixed(-((x * LOG2_E_FIXED) / (SCALE as int)))
    }
}

/// Computes the one-pole smoothing coefficient for a time constant.
///
/// The result always lies in `[0, SCALE]`, and a zero time constant
/// yields exactly zero.
pub fn calculate_filter_coefficient(t: i64, sample_rate: u32) -> (r: i64)
    requires
        0 <= t <= 1024 * SCALE,
        1 <= sample_rate <= 10_000_000,
    ensures
        r == spec_filter_coefficient(t as int, sample_rate as int),
        0 <= r <= SCALE,
        t == 0 ==> r == 0,
{
    if t == 0 {
        return 0;
    }
    proof {
        assert((sample_rate as int) * (t as int) <= 10_000_000 * 1024 * (SCALE as int))
            by (nonlinear_arith)
            requires 1 <= sample_rate as int <= 10_000_000 && 1 <= t as int <= 1024 * (SCALE as int);
        assert((sample_rate as int) * (t as int) >= 1) by (nonlinear_arith)
            requires sample_rate as int >= 1 && t as int >= 1;
    }
    let denom: i64 = (sample_rate as i64) * t;
    let x = mul_div_floor(SCALE, SCALE, denom);
    proof {
        vstd::arithmetic::div_mod::lemma_div_is_ordered(
            (SCALE as int) * (SCALE as int),
            (SCALE as int) * (SCALE as int),
            denom as int,
        );
        assert(x <= (SCALE as int) * (SCALE as int)) by {
            vstd::arithmetic::div_mod::lemma_div_is_ordered_by_denominator(
                (SCALE as int) * (SCALE as int),
                1,
                denom as int,
            );
        }
        assert(x >= 0) by {
            vstd::arithmetic::div_mod::lemma_div_pos_is_pos(
                (SCALE as int) * (SCALE as int),
                denom as int,
            );
        }
    }
    let xl = mul_div_floor(x, LOG2_E_FIXED, SCALE);
    proof {
        let xi = x as int;
        let si = SCALE as int;
        assert(xi * LOG2_E_FIXED >= 0) by (nonlinear_arith)
            requires xi >= 0 && LOG2_E_FIXED == 1512775i64;
        vstd::arithmetic::div_mod::lemma_div_is_ordered(0, xi * LOG2_E_FIXED, si);
    }
    pow2_fixed(-xl)
}


/// An amplitude of exactly 1.0 converts to exactly 0 dB.
pub proof fn lemma_gain_to_db_unity()
    ensures
        spec_gain_to_db(SCALE as int) == 0,
{
    assert(spec_norm_down(SCALE as int) == (SCALE as int, 0int));
    lemma_log2_frac_one((SCALE as int) / 2, 16);
    assert(spec_log2_fixed(SCALE as int) == 0);
    assert(0int * DB_PER_LOG2 == 0) by (nonlinear_arith);
    assert(0int / (SCALE as int) == 0);
}

/// Zero decibels converts to exactly an amplitude of 1.0.
pub proof fn lemma_db_to_gain_zero()
    ensures
        spec_db_to_gain(0) == SCALE,
{
    assert(0int * EXP_PER_DB == 0) by (nonlinear_arith);
    assert(0int / (SCALE as int) == 0);
    assert(0int % (SCALE as int) == 0);
    lemma_pow2_frac_zero(1);
    vstd::arithmetic::power2::lemma2_to64();
    assert(spec_pow2_fixed(0) == (SCALE as int) * pow2(0));
}

/// Round trip at unity: converting an amplitude of 1.0 to decibels and
/// back returns exactly 1.0.
pub proof fn lemma_round_trip_unity()
    ensures
        spec_db_to_gain(spec_gain_to_db(SCALE as int)) == SCALE,
{
    lemma_gain_to_db_unity();
    lemma_db_to_gain_zero();
}

} // verus!
