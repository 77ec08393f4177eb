//! Two-dimensional fixed-point vectors and the geometric predicates the
//! flocking behaviours are built on.

use vstd::prelude::*;

verus! {

use crate::num::tdiv;
use crate::num::sqrt_floor;
use crate::num::lemma_sqrt_floor;
use crate::num::lemma_sqrt_unique;
use crate::num::lemma_tdiv_le;
use crate::num::isqrt;
use crate::num::tdiv128;
use crate::num::SCALE;
use crate::num::POS_LIMIT;

/// A two-dimensional vector in fixed-point representation: each
/// component carries three decimal digits.
#[derive(Clone, Copy, PartialEq, Eq, Structural, Debug)]
pub struct Vec2 {
    pub x: i64,
    pub y: i64,
}

/// A two-dimensional vector of unbounded integers; the specification
/// counterpart of [`Vec2`] for intermediate values of any size.
pub struct IVec {
    pub x: int,
    pub y: int,
}

/// The squared Euclidean distance between two points, exact in the
/// fixed-point representation (the square of a scaled length has six
/// decimal digits).
pub open spec fn dist_sq(a: Vec2, b: Vec2) -> int {
    (b.x - a.x) * (b.x - a.x) + (b.y - a.y) * (b.y - a.y)
}

/// The raw dot product of two velocity vectors, on the same six-digit
/// scale as `dist_sq`. The field-of-view test divides it by `SCALE`
/// once, so the threshold is compared on the three-digit scale.
pub open spec fn dot(a: Vec2, b: Vec2) -> int {
    a.x * b.x + a.y * b.y
}

/// The first component of the unit vector pointing from `a` to `b`,
/// scaled by `SCALE` and rounded toward zero. Meaningful only for
/// distinct points.
pub open spec fn unit_x(a: Vec2, b: Vec2) -> int
    recommends
        dist_sq(a, b) > 0,
{
    tdiv((b.x - a.x) * SCALE, sqrt_floor(dist_sq(a, b)))
}

/// The second component of the unit vector pointing from `a` to `b`.
pub open spec fn unit_y(a: Vec2, b: Vec2) -> int
    recommends
        dist_sq(a, b) > 0,
{
    tdiv((b.y - a.y) * SCALE, sqrt_floor(dist_sq(a, b)))
}

/// Squared distances are symmetric in their endpoints.
pub proof fn lemma_dist_sq_symmetric(a: Vec2, b: Vec2)
    ensures
        dist_sq(a, b) == dist_sq(b, a),
{
    assert((b.x - a.x) * (b.x - a.x) == (a.x - b.x) * (a.x - b.x)) by (nonlinear_arith);
    assert((b.y - a.y) * (b.y - a.y) == (a.y - b.y) * (a.y - b.y)) by (nonlinear_arith);
}

/// The dot product is symmetric in its arguments.
pub proof fn lemma_dot_symmetric(a: Vec2, b: Vec2)
    ensures
        dot(a, b) == dot(b, a),
{
    assert(a.x * b.x == b.x * a.x) by (nonlinear_arith);
    assert(a.y * b.y == b.y * a.y) by (nonlinear_arith);
}

/// Squared distances are never negative.
pub proof fn lemma_dist_sq_nonneg(a: Vec2, b: Vec2)
    ensures
        dist_sq(a, b) >= 0,
{
    assert((b.x - a.x) * (b.x - a.x) >= 0) by (nonlinear_arith);
    assert((b.y - a.y) * (b.y - a.y) >= 0) by (nonlinear_arith);
}

/// The unit vector from `b` to `a` is the exact negation of the unit
/// vector from `a` to `b`: truncating division rounds toward zero, so
/// negating the numerator negates the quotient.
pub proof fn lemma_unit_antisymmetric(a: Vec2, b: Vec2)
    requires
        dist_sq(a, b) > 0,
    ensures
        unit_x(b, a) == -unit_x(a, b),
        unit_y(b, a) == -unit_y(a, b),
{
    lemma_dist_sq_symmetric(a, b);
    lemma_dist_sq_nonneg(a, b);
    lemma_sqrt_floor(dist_sq(a, b));
    crate::num::lemma_sqrt_pos(dist_sq(a, b));
    let d = sqrt_floor(dist_sq(a, b));
    assert((a.x - b.x) * SCALE == -((b.x - a.x) * SCALE)) by (nonlinear_arith);
    assert((a.y - b.y) * SCALE == -((b.y - a.y) * SCALE)) by (nonlinear_arith);
    crate::num::lemma_tdiv_neg((b.x - a.x) * SCALE, d);
    crate::num::lemma_tdiv_neg((b.y - a.y) * SCALE, d);
}

/// Each component of the scaled unit vector is bounded by `SCALE` in
/// magnitude.
pub proof fn lemma_unit_bounded(a: Vec2, b: Vec2)
    requires
        dist_sq(a, b) > 0,
    ensures
        -SCALE <= unit_x(a, b) <= SCALE,
        -SCALE <= unit_y(a, b) <= SCALE,
{
    lemma_dist_sq_nonneg(a, b);
    lemma_sqrt_floor(dist_sq(a, b));
    crate::num::lemma_sqrt_pos(dist_sq(a, b));
    let d = sqrt_floor(dist_sq(a, b));
    let dx = b.x - a.x;
    let dy = b.y - a.y;
    assert(-d <= dx <= d) by (nonlinear_arith)
        requires d * d <= dx * dx + dy * dy < (d + 1) * (d + 1), d > 0;
    assert(-d <= dy <= d) by (nonlinear_arith)
        requires d * d <= dx * dx + dy * dy < (d + 1) * (d + 1), d > 0;
    assert(-(SCALE * d) <= dx * SCALE <= SCALE * d) by (nonlinear_arith)
        requires -d <= dx <= d, d > 0;
    assert(-(SCALE * d) <= dy * SCALE <= SCALE * d) by (nonlinear_arith)
        requires -d <= dy <= d, d > 0;
    assert(SCALE * d == (SCALE as int) * d);
    lemma_tdiv_le(dx * SCALE, d, SCALE as int);
    lemma_tdiv_le(dy * SCALE, d, SCALE as int);
}

/// Computes the squared distance between two points whose coordinates
/// are bounded by `POS_LIMIT`.
pub fn dist_sq_i128(a: Vec2, b: Vec2) -> (d: i128)
    requires
        -POS_LIMIT <= a.x <= POS_LIMIT,
        -POS_LIMIT <= a.y <= POS_LIMIT,
        -POS_LIMIT <= b.x <= POS_LIMIT,
        -POS_LIMIT <= b.y <= POS_LIMIT,
    ensures
        d == dist_sq(a, b),
        0 <= d <= 0x2000_0000_0000_0000_0000_0000_0000_0000,
{
    let dx: i128 = (b.x as i128) - (a.x as i128);
    let dy: i128 = (b.y as i128) - (a.y as i128);
    proof {
        assert(0 <= dx * dx <= 0x1000_0000_0000_0000_0000_0000_0000_0000int) by (nonlinear_arith)
            requires -2 * (POS_LIMIT as int) <= dx <= 2 * (POS_LIMIT as int);
        assert(0 <= dy * dy <= 0x1000_0000_0000_0000_0000_0000_0000_0000int) by (nonlinear_arith)
            requires -2 * (POS_LIMIT as int) <= dy <= 2 * (POS_LIMIT as int);
    }
    dx * dx + dy * dy
}

/// Computes the raw dot product of two velocity vectors.
pub fn dot_i128(a: Vec2, b: Vec2) -> (d: i128)
    requires
        -0x4000_0000_0000_0000 <= a.x <= 0x4000_0000_0000_0000,
        -0x4000_0000_0000_0000 <= a.y <= 0x4000_0000_0000_0000,
        -0x4000_0000_0000_0000 <= b.x <= 0x4000_0000_0000_0000,
        -0x4000_0000_0000_0000 <= b.y <= 0x4000_0000_0000_0000,
    ensures
        d == dot(a, b),
        -0x2000_0000_0000_0000_0000_0000_0000_0000 <= d <= 0x2000_0000_0000_0000_0000_0000_0000_0000,
{
    proof {
        assert(-0x1000_0000_0000_0000_0000_0000_0000_0000int <= (a.x as int) * (b.x as int)
            <= 0x1000_0000_0000_0000_0000_0000_0000_0000int) by (nonlinear_arith)
            requires
                -0x4000_0000_0000_0000 <= a.x <= 0x4000_0000_0000_0000,
                -0x4000_0000_0000_0000 <= b.x <= 0x4000_0000_0000_0000;
        assert(-0x1000_0000_0000_0000_0000_0000_0000_0000int <= (a.y as int) * (b.y as int)
            <= 0x1000_0000_0000_0000_0000_0000_0000_0000int) by (nonlinear_arith)
            requires
                -0x4000_0000_0000_0000 <= a.y <= 0x4000_0000_0000_0000,
                -0x4000_0000_0000_0000 <= b.y <= 0x4000_0000_0000_0000;
    }
    (a.x as i128) * (b.x as i128) + (a.y as i128) * (b.y as i128)
}

/// Computes the unit vector pointing from `a` toward `b`, scaled by
/// `SCALE` and rounded toward zero.
pub fn unit_toward(a: Vec2, b: Vec2) -> (u: Vec2)
    requires
        dist_sq(a, b) > 0,
        -POS_LIMIT <= a.x <= POS_LIMIT,
        -POS_LIMIT <= a.y <= POS_LIMIT,
        -POS_LIMIT <= b.x <= POS_LIMIT,
        -POS_LIMIT <= b.y <= POS_LIMIT,
    ensures
        u.x == unit_x(a, b),
        u.y == unit_y(a, b),
        -SCALE <= u.x <= SCALE,
        -SCALE <= u.y <= SCALE,
{
    let dsq: i128 = dist_sq_i128(a, b);
    let d: u128 = isqrt(dsq as u128);
    proof {
        lemma_sqrt_floor(dsq as int);
        crate::num::lemma_sqrt_pos(dsq as int);
        assert(d < 0x8000_0000_0000_0000u128) by (nonlinear_arith)
            requires
                (d as int) * (d as int) <= 0x2000_0000_0000_0000_0000_0000_0000_0000int,
                d >= 0;
        lemma_unit_bounded(a, b);
    }
    let di: i64 = d as i64;
    let ux: i64 = crate::num::tdiv64((b.x - a.x) * SCALE, di);
    let uy: i64 = crate::num::tdiv64((b.y - a.y) * SCALE, di);
    Vec2 { x: ux, y: uy }
}

} // verus!
