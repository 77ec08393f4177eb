//! Fixed-point arithmetic helpers.
//!
//! Every scalar of the simulation (position, velocity, force, time,
//! threshold) is an `i64` carrying three decimal digits: the value `1000`
//! stands for one world unit. Multiplying two scaled values therefore
//! needs a division by `SCALE` to come back to the representation, and
//! all divisions round toward zero, as Rust's integer division does.

use vstd::prelude::*;

verus! {

use vstd::arithmetic::div_mod::lemma_div_is_ordered;
use vstd::arithmetic::div_mod::lemma_div_multiples_vanish;
use vstd::arithmetic::div_mod::lemma_div_pos_is_pos;

/// One world unit in fixed-point representation.
pub const SCALE: i64 = 1000;

/// One squared world unit: the divisor that brings a product of two
/// scaled factors back to the representation.
pub const SCALE_SQ: i64 = 1_000_000;

/// Largest magnitude a coordinate may have on entry to a simulation step.
pub const POS_LIMIT: i64 = 1_000_000_000_000_000;

/// Largest magnitude a velocity component may have on entry to a step
/// that combines it with forces.
pub const VEL_LIMIT: i64 = 100_000_000_000_000;

/// Largest magnitude a velocity component may have on entry to a step
/// that only adds a bounded impulse to it.
pub const VEL_WIDE: i64 = 4_000_000_000_000_000_000;

/// Largest behaviour range a valid configuration may hold.
pub const RANGE_LIMIT: i64 = 1_000_000_000;

/// Largest behaviour force a valid configuration may hold.
pub const FORCE_LIMIT: i64 = 20_000_000;

/// Largest field-of-view threshold a valid configuration may hold.
pub const FOV_LIMIT: i64 = 1_000_000_000;

/// Largest gather-completion threshold a valid configuration may hold.
pub const GATHER_LIMIT: i64 = 1_000_000_000;

/// Largest drag coefficient a valid configuration may hold.
pub const DRAG_LIMIT: i64 = 2_000;

/// Largest elapsed time a single tick may be handed.
pub const DT_LIMIT: i64 = 1_000;

/// Largest number of agents a pairwise step accepts.
pub const AGENTS_LIMIT: usize = 10_000;

/// Largest gather progress a pursuit step accepts on entry.
pub const PROGRESS_LIMIT: i64 = 1_000_000_000_000_000;

/// Truncating division: rounds toward zero, as the executable integer
/// division of Rust does. Meaningful for `b > 0`.
pub open spec fn tdiv(a: int, b: int) -> int
    recommends
        b > 0,
{
    if a >= 0 {
        a / b
    } else {
        -((-a) / b)
    }
}

/// Truncating division is an odd function of the dividend.
pub proof fn lemma_tdiv_neg(a: int, b: int)
    requires
        b > 0,
    ensures
        tdiv(-a, b) == -tdiv(a, b),
{
}

/// A dividend bounded by `m * b` in magnitude yields a quotient bounded
/// by `m` in magnitude.
pub proof fn lemma_tdiv_le(a: int, b: int, m: int)
    requires
        b > 0,
        m >= 0,
        -(m * b) <= a <= m * b,
    ensures
        -m <= tdiv(a, b) <= m,
{
    assert(m * b == b * m) by (nonlinear_arith);
    if a >= 0 {
        lemma_div_pos_is_pos(a, b);
        lemma_div_is_ordered(a, b * m, b);
        lemma_div_multiples_vanish(m, b);
    } else {
        lemma_div_pos_is_pos(-a, b);
        lemma_div_is_ordered(-a, b * m, b);
        lemma_div_multiples_vanish(m, b);
    }
}

/// Truncating division of an `i64` dividend by a positive divisor.
pub fn tdiv64(a: i64, b: i64) -> (q: i64)
    requires
        b > 0,
        a > i64::MIN,
    ensures
        q == tdiv(a as int, b as int),
{
    if a >= 0 {
        a / b
    } else {
        -((-a) / b)
    }
}

/// Truncating division of an `i128` dividend by a positive divisor.
pub fn tdiv128(a: i128, b: i128) -> (q: i128)
    requires
        b > 0,
        a > i128::MIN,
    ensures
        q == tdiv(a as int, b as int),
{
    if a >= 0 {
        a / b
    } else {
        -((-a) / b)
    }
}

/// The workhorse of the fixed-point formulas: `a * b * c / d`, product
/// taken exactly, quotient rounded toward zero.
pub fn mul3_div(a: i64, b: i64, c: i64, d: i64) -> (r: i64)
    requires
        d > 0,
        i128::MIN < a * b * c < i128::MAX,
        i64::MIN < tdiv(a * b * c, d as int) <= i64::MAX,
    ensures
        r == tdiv(a * b * c, d as int),
{
    proof {
        assert(i128::MIN <= (a as int) * (b as int) <= i128::MAX) by (nonlinear_arith);
    }
    let ab: i128 = (a as i128) * (b as i128);
    let abc: i128 = ab * (c as i128);
    let q: i128 = tdiv128(abc, d as i128);
    q as i64
}

/// The integer square root, defined by counting up; used only in
/// specifications, with `lemma_sqrt_floor` giving its characterisation.
pub open spec fn sqrt_floor(n: int) -> int
    decreases n,
{
    if n <= 0 {
        0
    } else {
        let r = sqrt_floor(n - 1);
        if (r + 1) * (r + 1) <= n {
            r + 1
        } else {
            r
        }
    }
}

/// `sqrt_floor(n)` is the greatest integer whose square is at most `n`.
pub proof fn lemma_sqrt_floor(n: int)
    requires
        n >= 0,
    ensures
        sqrt_floor(n) >= 0,
        sqrt_floor(n) * sqrt_floor(n) <= n,
        n < (sqrt_floor(n) + 1) * (sqrt_floor(n) + 1),
    decreases n,
{
    if n > 0 {
        lemma_sqrt_floor(n - 1);
        let r = sqrt_floor(n - 1);
        if (r + 1) * (r + 1) <= n {
            assert(n < (r + 2) * (r + 2)) by (nonlinear_arith)
                requires n - 1 < (r + 1) * (r + 1), r >= 0;
        }
    }
}

/// A positive number has a positive integer square root.
pub proof fn lemma_sqrt_pos(n: int)
    requires
        n > 0,
    ensures
        sqrt_floor(n) > 0,
{
    lemma_sqrt_floor(n);
    let s = sqrt_floor(n);
    if s == 0 {
        assert((s + 1) * (s + 1) == 1) by (nonlinear_arith)
            requires s == 0;
    }
}

/// No two distinct integers satisfy the square-root bracketing.
pub proof fn lemma_sqrt_unique(n: int, r: int)
    requires
        n >= 0,
        r >= 0,
        r * r <= n,
        n < (r + 1) * (r + 1),
    ensures
        r == sqrt_floor(n),
{
    lemma_sqrt_floor(n);
    let s = sqrt_floor(n);
    if r < s {
        assert((r + 1) * (r + 1) <= s * s) by (nonlinear_arith)
            requires 0 <= r, r + 1 <= s;
    }
    if s < r {
        assert((s + 1) * (s + 1) <= r * r) by (nonlinear_arith)
            requires 0 <= s, s + 1 <= r;
    }
}

/// Executable integer square root by bisection.
pub fn isqrt(n: u128) -> (r: u128)
    requires
        n < 0x4000_0000_0000_0000_0000_0000_0000_0000,
    ensures
        r == sqrt_floor(n as int),
        r * r <= n < (r + 1) * (r + 1),
{
    let mut lo: u128 = 0;
    let mut hi: u128 = 0x8000_0000_0000_0000;
    proof {
        assert((hi as int) * (hi as int) == 0x4000_0000_0000_0000_0000_0000_0000_0000int)
            by (nonlinear_arith)
            requires hi == 0x8000_0000_0000_0000u128;
    }
    while hi - lo > 1
        invariant
            0 <= lo < hi <= 0x8000_0000_0000_0000,
            lo * lo <= n,
            n < hi * hi,
        decreases hi - lo,
    {
        let mid: u128 = lo + (hi - lo) / 2;
        proof {
            assert((mid as int) * (mid as int) < 0x8000_0000_0000_0000_0000_0000_0000_0000int)
                by (nonlinear_arith)
                requires 0 <= mid <= 0x8000_0000_0000_0000u128;
        }
        if mid * mid <= n {
            lo = mid;
        } else {
            hi = mid;
        }
    }
    proof {
        lemma_sqrt_unique(n as int, lo as int);
    }
    lo
}

} // verus!
