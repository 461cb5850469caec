//! Exact integer arithmetic helpers: floor square root, floor base-2
//! logarithm, and floor multiply-divide.  Every function is total over its
//! stated domain and its result is pinned exactly, so the components built
//! on top can state their own behaviour without slack.

use vstd::prelude::*;
use vstd::arithmetic::power2::pow2;

verus! {

/// The floor square root of a nonnegative value, as a spec-level name:
/// the unique nonnegative `r` with `r * r <= x < (r + 1) * (r + 1)`.
pub open spec fn spec_isqrt(x: int) -> int {
    choose|r: int| 0 <= r && #[trigger] (r * r) <= x && x < (r + 1) * (r + 1)
}

/// Any two floor square roots of the same value coincide, so a witness
/// pins [`spec_isqrt`] down exactly.
pub proof fn lemma_isqrt_unique(x: int, r: int)
    requires
        0 <= r,
        r * r <= x,
        x < (r + 1) * (r + 1),
    ensures
        spec_isqrt(x) == r,
{
    assert(exists|q: int| 0 <= q && #[trigger] (q * q) <= x && x < (q + 1) * (q + 1)) by {
        assert(0 <= r && #[trigger] (r * r) <= x && x < (r + 1) * (r + 1));
    }
    let c = spec_isqrt(x);
    assert(0 <= c && c * c <= x && x < (c + 1) * (c + 1));
    if c < r {
        assert((c + 1) * (c + 1) <= r * r) by (nonlinear_arith)
            requires 0 <= c && c < r;
        assert(false);
    }
    if r < c {
        assert((r + 1) * (r + 1) <= c * c) by (nonlinear_arith)
            requires 0 <= r && r < c;
        assert(false);
    }
}

/// Floor square root: the unique `r` with `r * r <= x < (r + 1) * (r + 1)`.
///
/// The bound on `x` keeps the binary-search midpoint's square inside
/// `u128`.
pub fn isqrt(x: u128) -> (r: u64)
    requires
        x < 0x4000_0000_0000_0000_0000_0000u128,
    ensures
        r as int * r as int <= x as int,
        (x as int) < (r + 1) * (r + 1),
        r < 0x8000_0000_0000u64,
        r == spec_isqrt(x as int),
{
    let mut lo: u64 = 0;
    let mut hi: u64 = 0x8000_0000_0000u64 - 1;
    proof {
        assert((x as int) < (hi + 1) * (hi + 1)) by (nonlinear_arith)
            requires hi == 0x8000_0000_0000u64 - 1 && x < 0x4000_0000_0000_0000_0000_0000u128;
    }
    while lo < hi
        invariant
            lo <= hi,
            hi < 0x8000_0000_0000u64,
            lo as int * lo as int <= x as int,
            (x as int) < (hi + 1) * (hi + 1),
        decreases hi - lo,
    {
        let mid: u64 = lo + (hi - lo + 1) / 2;
        proof {
            assert(lo < mid <= hi);
            assert(mid as int * mid as int <= 0x4000_0000_0000_0000_0000_0000) by (nonlinear_arith)
                requires mid < 0x8000_0000_0000u64;
        }
        let sq: u128 = (mid as u128) * (mid as u128);
        if sq <= x {
            lo = mid;
        } else {
            proof {
                assert((x as int) < (mid - 1 + 1) * (mid - 1 + 1));
            }
            hi = mid - 1;
        }
    }
    proof {
        lemma_isqrt_unique(x as int, lo as int);
    }
    lo
}

/// Floor base-2 logarithm of a positive value, together with the matching
/// power of two: returns `(p, t)` with `t == pow2(p)` and `t <= x < 2 * t`.
pub fn floor_log2(x: i64) -> (r: (u32, i64))
    requires
        x >= 1,
    ensures
        r.1 == pow2(r.0 as nat),
        r.1 <= x < 2 * r.1,
        r.0 <= 62,
{
    let mut p: u32 = 0;
    let mut t: i64 = 1;
    proof {
        vstd::arithmetic::power2::lemma2_to64();
    }
    while t <= x / 2
        invariant
            x >= 1,
            1 <= t <= x,
            t == pow2(p as nat),
            p <= 62,
        decreases x - t,
    {
        proof {
            vstd::arithmetic::power2::lemma_pow2_unfold((p + 1) as nat);
            assert(2 * t <= x);
            vstd::arithmetic::power2::lemma2_to64_rest();
            if p + 1 > 62 {
                let e: nat = ((p + 1) - 63) as nat;
                vstd::arithmetic::power2::lemma_pow2_adds(63, e);
                vstd::arithmetic::power2::lemma_pow2_pos(e);
                assert(pow2(p as nat + 1) >= pow2(63)) by (nonlinear_arith)
                    requires pow2(p as nat + 1) == pow2(63) * pow2(e) && pow2(e) >= 1;
                assert(false);
            }
        }
        t = 2 * t;
        p = p + 1;
    }
    (p, t)
}

/// Floor of `a * b / d` for a positive divisor, computed through 128-bit
/// intermediates so the product never overflows.
pub fn mul_div_floor(a: i64, b: i64, d: i64) -> (r: i64)
    requires
        d > 0,
        i64::MIN <= (a as int * b as int) / (d as int) <= i64::MAX,
    ensures
        r == (a as int * b as int) / (d as int),
{
    proof {
        assert(-0x4000_0000_0000_0000_0000_0000_0000_0000
            <= a as int * b as int
            <= 0x4000_0000_0000_0000_0000_0000_0000_0000) by (nonlinear_arith)
            requires i64::MIN <= a <= i64::MAX && i64::MIN <= b <= i64::MAX;
    }
    let p: i128 = (a as i128) * (b as i128);
    if p >= 0 {
        let q: u128 = (p as u128) / (d as u128);
        proof {
            assert(q == (a as int * b as int) / (d as int));
        }
        q as i64
    } else {
        let n: u128 = (-p) as u128;
        let q: u128 = (n + (d - 1) as u128) / (d as u128);
        proof {
            lemma_neg_ceil_is_floor(p as int, d as int);
        }
        -(q as i128) as i64
    }
}

/// A quotient with a positive divisor stays within the multiple bounds
/// of its numerator: if `-m * d <= a <= m * d` then `-m <= a / d <= m`.
pub proof fn lemma_div_bound(a: int, m: int, d: int)
    requires
        d > 0,
        m >= 0,
        -m * d <= a <= m * d,
    ensures
        -m <= a / d <= m,
{
    vstd::arithmetic::div_mod::lemma_div_is_ordered(-m * d, a, d);
    vstd::arithmetic::div_mod::lemma_div_is_ordered(a, m * d, d);
    vstd::arithmetic::div_mod::lemma_div_multiples_vanish(-m, d);
    vstd::arithmetic::div_mod::lemma_div_multiples_vanish(m, d);
    assert(-m * d == d * -m) by (nonlinear_arith);
    assert(m * d == d * m) by (nonlinear_arith);
}

/// For a negative numerator `p` and positive divisor `d`, the floor of
/// `p / d` is the negated ceiling of `-p / d`.
proof fn lemma_neg_ceil_is_floor(p: int, d: int)
    requires
        p < 0,
        d > 0,
    ensures
        p / d == -(((-p) + (d - 1)) / d),
{
    let n = -p;
    vstd::arithmetic::div_mod::lemma_fundamental_div_mod(n, d);
    let q = n / d;
    let r = n % d;
    vstd::arithmetic::div_mod::lemma_mod_bound(n, d);
    assert(n == d * q + r);
    if r == 0 {
        assert(p == (-q) * d + 0) by (nonlinear_arith)
            requires n == d * q + r && r == 0 && p == -n;
        vstd::arithmetic::div_mod::lemma_fundamental_div_mod_converse(p, d, -q, 0);
        assert((n + (d - 1)) / d == q) by {
            assert(n + (d - 1) == q * d + (d - 1)) by (nonlinear_arith)
                requires n == d * q + r && r == 0;
            vstd::arithmetic::div_mod::lemma_fundamental_div_mod_converse(n + (d - 1), d, q, d - 1);
        }
    } else {
        assert(p == (-q - 1) * d + (d - r)) by (nonlinear_arith)
            requires n == d * q + r && p == -n;
        vstd::arithmetic::div_mod::lemma_fundamental_div_mod_converse(p, d, -q - 1, d - r);
        assert((n + (d - 1)) / d == q + 1) by {
            assert(n + (d - 1) == (q + 1) * d + (r - 1)) by (nonlinear_arith)
                requires n == d * q + r;
            vstd::arithmetic::div_mod::lemma_fundamental_div_mod_converse(n + (d - 1), d, q + 1, r - 1);
        }
    }
}

} // verus!
