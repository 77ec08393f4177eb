//! The pairwise flocking forces among followers: separation,
//! alignment and cohesion.
//!
//! Each behaviour reads the positions and velocities as they stood at
//! the start of its pass and accumulates per-agent velocity deltas in
//! a scratch table, applied only after the whole scan, so no agent's
//! update feeds into another's computation within the same tick. A
//! pair engages under a behaviour exactly when the agents are within
//! its range and their raw velocity dot product clears the
//! field-of-view threshold.

use vstd::prelude::*;

verus! {

use crate::num::tdiv;
use crate::num::lemma_tdiv_le;
use crate::num::mul3_div;
use crate::num::tdiv64;
use crate::num::tdiv128;
use crate::num::SCALE;
use crate::num::SCALE_SQ;
use crate::num::POS_LIMIT;
use crate::num::VEL_LIMIT;
use crate::num::VEL_WIDE;
use crate::num::DT_LIMIT;
use crate::num::AGENTS_LIMIT;
use crate::settings::BoidSystemSettings;
use crate::store::AgentStore;
use crate::store::Agent;
use crate::store::StoreView;
use crate::store::all_pos_le;
use crate::store::all_vel_le;
use crate::store::pos_within;
use crate::store::vel_within;
use crate::store::wf;
use crate::store::wf_slot;
use crate::vec2::Vec2;
use crate::vec2::IVec;
use crate::vec2::dist_sq;
use crate::vec2::dot;
use crate::vec2::unit_x;
use crate::vec2::unit_y;
use crate::vec2::unit_toward;
use crate::vec2::dist_sq_i128;
use crate::vec2::dot_i128;

/// Slot `i` takes part in the flocking scan: a live follower.
pub open spec fn boid(w: StoreView, i: int) -> bool {
    &&& 0 <= i < w.len()
    &&& w.followers[i] is Some
    &&& w.agents[i] is Some
}

/// The position of the agent in slot `i`.
pub open spec fn apos(w: StoreView, i: int) -> Vec2 {
    w.agents[i]->Some_0.pos
}

/// The velocity of the agent in slot `i`.
pub open spec fn avel(w: StoreView, i: int) -> Vec2 {
    w.agents[i]->Some_0.vel
}

/// The engagement test on two agents: within range, and the raw
/// velocity dot product above the negated field-of-view threshold.
pub open spec fn pair_engaged(ai: Agent, aj: Agent, range: int, fov: int) -> bool {
    &&& dist_sq(ai.pos, aj.pos) < range * range
    &&& tdiv(dot(ai.vel, aj.vel), SCALE as int) > -fov
}

/// Slots `i` and `j` form an engaged pair of distinct boids.
pub open spec fn engaged(w: StoreView, i: int, j: int, range: int, fov: int) -> bool {
    &&& boid(w, i)
    &&& boid(w, j)
    &&& i != j
    &&& pair_engaged(w.agents[i]->Some_0, w.agents[j]->Some_0, range, fov)
}

/// What the pair `{i, j}` contributes to `i`'s velocity under
/// separation: the unit vector from `i` to `j`, scaled by
/// `dt * force`, applied with the sign that pushes `i` away from `j`.
/// Coincident agents exert no impulse: the direction is undefined.
pub open spec fn sep_term(w: StoreView, s: BoidSystemSettings, dt: int, i: int, j: int) -> IVec {
    if engaged(w, i, j, s.separation.range as int, s.field_of_view as int) && dist_sq(
        apos(w, i),
        apos(w, j),
    ) > 0 {
        IVec {
            x: -tdiv(unit_x(apos(w, i), apos(w, j)) * dt * s.separation.force, SCALE_SQ as int),
            y: -tdiv(unit_y(apos(w, i), apos(w, j)) * dt * s.separation.force, SCALE_SQ as int),
        }
    } else {
        IVec { x: 0, y: 0 }
    }
}

/// The separation contributions to `i` from the first `m` slots.
pub open spec fn sep_sum(w: StoreView, s: BoidSystemSettings, dt: int, i: int, m: int) -> IVec
    decreases m,
{
    if m <= 0 {
        IVec { x: 0, y: 0 }
    } else {
        let p = sep_sum(w, s, dt, i, m - 1);
        let t = sep_term(w, s, dt, i, m - 1);
        IVec { x: p.x + t.x, y: p.y + t.y }
    }
}

/// The whole separation delta of slot `i` for one tick.
pub open spec fn sep_delta(w: StoreView, s: BoidSystemSettings, dt: int, i: int) -> IVec {
    sep_sum(w, s, dt, i, w.len())
}

/// Each partial separation sum is bounded by the impulse cap times
/// the number of slots scanned.
pub proof fn lemma_sep_sum_bound(w: StoreView, s: BoidSystemSettings, dt: int, i: int, m: int)
    requires
        m >= 0,
        s.valid(),
        0 < dt <= DT_LIMIT,
    ensures
        -(m * 20_000_000) <= sep_sum(w, s, dt, i, m).x <= m * 20_000_000,
        -(m * 20_000_000) <= sep_sum(w, s, dt, i, m).y <= m * 20_000_000,
    decreases m,
{
    if m > 0 {
        lemma_sep_sum_bound(w, s, dt, i, m - 1);
        lemma_sep_term_bound(w, s, dt, i, m - 1);
    }
}

/// A single separation term is bounded by the impulse cap.
pub proof fn lemma_sep_term_bound(w: StoreView, s: BoidSystemSettings, dt: int, i: int, j: int)
    requires
        s.valid(),
        0 < dt <= DT_LIMIT,
    ensures
        -20_000_000 <= sep_term(w, s, dt, i, j).x <= 20_000_000,
        -20_000_000 <= sep_term(w, s, dt, i, j).y <= 20_000_000,
{
    if engaged(w, i, j, s.separation.range as int, s.field_of_view as int) && dist_sq(
        apos(w, i),
        apos(w, j),
    ) > 0 {
        crate::vec2::lemma_unit_bounded(apos(w, i), apos(w, j));
        let ux = unit_x(apos(w, i), apos(w, j));
        let uy = unit_y(apos(w, i), apos(w, j));
        assert(-(20_000_000_000_000int) <= ux * dt * s.separation.force
            <= 20_000_000_000_000int) by (nonlinear_arith)
            requires
                -1000 <= ux <= 1000,
                0 < dt <= 1000,
                0 < s.separation.force <= 20_000_000i64;
        assert(-(20_000_000_000_000int) <= uy * dt * s.separation.force
            <= 20_000_000_000_000int) by (nonlinear_arith)
            requires
                -1000 <= uy <= 1000,
                0 < dt <= 1000,
                0 < s.separation.force <= 20_000_000i64;
        lemma_tdiv_le(ux * dt * s.separation.force, SCALE_SQ as int, 20_000_000);
        lemma_tdiv_le(uy * dt * s.separation.force, SCALE_SQ as int, 20_000_000);
    }
}

/// Decides engagement of two agents.
fn is_engaged(ai: Agent, aj: Agent, range: i64, fov: i64) -> (r: bool)
    requires
        -POS_LIMIT <= ai.pos.x <= POS_LIMIT,
        -POS_LIMIT <= ai.pos.y <= POS_LIMIT,
        -POS_LIMIT <= aj.pos.x <= POS_LIMIT,
        -POS_LIMIT <= aj.pos.y <= POS_LIMIT,
        -0x4000_0000_0000_0000 <= ai.vel.x <= 0x4000_0000_0000_0000,
        -0x4000_0000_0000_0000 <= ai.vel.y <= 0x4000_0000_0000_0000,
        -0x4000_0000_0000_0000 <= aj.vel.x <= 0x4000_0000_0000_0000,
        -0x4000_0000_0000_0000 <= aj.vel.y <= 0x4000_0000_0000_0000,
        0 < range <= 1_000_000_000,
        0 <= fov,
    ensures
        r == pair_engaged(ai, aj, range as int, fov as int),
{
    let dsq = dist_sq_i128(ai.pos, aj.pos);
    proof {
        assert(1 <= (range as int) * (range as int) <= 1_000_000_000_000_000_000int)
            by (nonlinear_arith)
            requires 0 < range <= 1_000_000_000i64;
    }
    let rr = (range as i128) * (range as i128);
    if dsq >= rr {
        return false;
    }
    let d = dot_i128(ai.vel, aj.vel);
    let q = tdiv128(d, SCALE as i128);
    q > -(fov as i128)
}

impl AgentStore {
    /// One separation pass: every engaged pair of followers pushes
    /// its two members apart with equal and opposite impulses of
    /// magnitude `dt * force` along the connecting unit vector.
    pub fn separation(&mut self, s: &BoidSystemSettings, dt: i64)
        requires
            wf(old(self)@),
            s.valid(),
            0 < dt <= DT_LIMIT,
            old(self)@.len() <= AGENTS_LIMIT,
            all_pos_le(old(self)@, POS_LIMIT as int),
            all_vel_le(old(self)@, VEL_WIDE as int),
        ensures
            final(self)@.leaders == old(self)@.leaders,
            final(self)@.followers == old(self)@.followers,
            final(self)@.tracking == old(self)@.tracking,
            final(self)@.agents.len() == old(self)@.len(),
            forall|i: int|
                0 <= i < old(self)@.len() && !boid(old(self)@, i) ==> final(self)@.agents[i]
                    == old(self)@.agents[i],
            forall|i: int|
                0 <= i < old(self)@.len() && boid(old(self)@, i) ==> final(self)@.agents[i]
                    == Some(
                    Agent {
                        pos: apos(old(self)@, i),
                        vel: Vec2 {
                            x: (avel(old(self)@, i).x + sep_delta(
                                old(self)@,
                                *s,
                                dt as int,
                                i,
                            ).x) as i64,
                            y: (avel(old(self)@, i).y + sep_delta(
                                old(self)@,
                                *s,
                                dt as int,
                                i,
                            ).y) as i64,
                        },
                    },
                ),
            wf(final(self)@),
    {
        let ghost w0 = self@;
        let n = self.agents.len();
        let mut deltas: Vec<Vec2> = Vec::new();
        let mut i: usize = 0;
        while i < n
            invariant
                wf(w0),
                s.valid(),
                0 < dt <= DT_LIMIT,
                self@ == w0,
                n == w0.len(),
                n <= AGENTS_LIMIT,
                all_pos_le(w0, POS_LIMIT as int),
                all_vel_le(w0, VEL_WIDE as int),
                i <= n,
                deltas@.len() == i,
                forall|k: int|
                    0 <= k < i && boid(w0, k) ==> deltas@[k] == (Vec2 {
                        x: sep_delta(w0, *s, dt as int, k).x as i64,
                        y: sep_delta(w0, *s, dt as int, k).y as i64,
                    }),
                forall|k: int|
                    0 <= k < i ==> -200_000_000_000 <= (#[trigger] deltas@[k]).x
                        <= 200_000_000_000 && -200_000_000_000 <= deltas@[k].y <= 200_000_000_000,
            decreases n - i,
        {
            let mut sx: i64 = 0;
            let mut sy: i64 = 0;
            if self.followers[i].is_some() && self.agents[i].is_some() {
                let ai = match self.agents[i] {
                    Some(a) => a,
                    None => Agent { pos: Vec2 { x: 0, y: 0 }, vel: Vec2 { x: 0, y: 0 } },
                };
                proof {
                    assert(pos_within(w0, i as int, POS_LIMIT as int));
                    assert(vel_within(w0, i as int, VEL_WIDE as int));
                }
                let mut j: usize = 0;
                while j < n
                    invariant
                        wf(w0),
                        s.valid(),
                        0 < dt <= DT_LIMIT,
                        self@ == w0,
                        n == w0.len(),
                        n <= AGENTS_LIMIT,
                        all_pos_le(w0, POS_LIMIT as int),
                        all_vel_le(w0, VEL_WIDE as int),
                        i < n,
                        j <= n,
                        boid(w0, i as int),
                        ai == w0.agents[i as int]->Some_0,
                        sx == sep_sum(w0, *s, dt as int, i as int, j as int).x,
                        sy == sep_sum(w0, *s, dt as int, i as int, j as int).y,
                        -(j * 20_000_000) <= sx <= j * 20_000_000,
                        -(j * 20_000_000) <= sy <= j * 20_000_000,
                    decreases n - j,
                {
                    let ghost gj = j as int;
                    if j != i && self.followers[j].is_some() && self.agents[j].is_some() {
                        let aj = match self.agents[j] {
                            Some(a) => a,
                            None => Agent { pos: Vec2 { x: 0, y: 0 }, vel: Vec2 { x: 0, y: 0 } },
                        };
                        proof {
                            assert(pos_within(w0, i as int, POS_LIMIT as int));
                            assert(vel_within(w0, i as int, VEL_WIDE as int));
                            assert(pos_within(w0, gj, POS_LIMIT as int));
                            assert(vel_within(w0, gj, VEL_WIDE as int));
                        }
                        let eng = is_engaged(ai, aj, s.separation.range, s.field_of_view);
                        if eng {
                            let dsq = dist_sq_i128(ai.pos, aj.pos);
                            if dsq > 0 {
                                let u = unit_toward(ai.pos, aj.pos);
                                proof {
                                    assert(-(20_000_000_000_000int) <= u.x * dt
                                        * s.separation.force <= 20_000_000_000_000int)
                                        by (nonlinear_arith)
                                        requires
                                            -1000 <= u.x <= 1000i64,
                                            0 < dt <= 1000i64,
                                            0 < s.separation.force <= 20_000_000i64;
                                    assert(-(20_000_000_000_000int) <= u.y * dt
                                        * s.separation.force <= 20_000_000_000_000int)
                                        by (nonlinear_arith)
                                        requires
                                            -1000 <= u.y <= 1000i64,
                                            0 < dt <= 1000i64,
                                            0 < s.separation.force <= 20_000_000i64;
                                    lemma_tdiv_le(
                                        u.x * dt * s.separation.force,
                                        SCALE_SQ as int,
                                        20_000_000,
                                    );
                                    lemma_tdiv_le(
                                        u.y * dt * s.separation.force,
                                        SCALE_SQ as int,
                                        20_000_000,
                                    );
                                }
                                let ix = mul3_div(u.x, dt, s.separation.force, SCALE_SQ);
                                let iy = mul3_div(u.y, dt, s.separation.force, SCALE_SQ);
                                sx = sx - ix;
                                sy = sy - iy;
                            }
                        }
                    }
                    proof {
                        assert(sep_sum(w0, *s, dt as int, i as int, gj + 1) == (IVec {
                            x: sep_sum(w0, *s, dt as int, i as int, gj).x + sep_term(
                                w0,
                                *s,
                                dt as int,
                                i as int,
                                gj,
                            ).x,
                            y: sep_sum(w0, *s, dt as int, i as int, gj).y + sep_term(
                                w0,
                                *s,
                                dt as int,
                                i as int,
                                gj,
                            ).y,
                        }));
                        lemma_sep_term_bound(w0, *s, dt as int, i as int, gj);
                    }
                    j = j + 1;
                }
            }
            proof {
                if boid(w0, i as int) {
                    assert(sep_delta(w0, *s, dt as int, i as int) == sep_sum(
                        w0,
                        *s,
                        dt as int,
                        i as int,
                        n as int,
                    ));
                } else {
                    lemma_sep_sum_zero_nonboid(w0, *s, dt as int, i as int, n as int);
                }
                assert(n * 20_000_000 <= 200_000_000_000int) by (nonlinear_arith)
                    requires 0 <= n <= 10_000usize;
            }
            deltas.push(Vec2 { x: sx, y: sy });
            i = i + 1;
        }
        // apply the scratch deltas
        let mut i2: usize = 0;
        while i2 < n
            invariant
                wf(w0),
                s.valid(),
                0 < dt <= DT_LIMIT,
                n == w0.len(),
                n <= AGENTS_LIMIT,
                self@.leaders == w0.leaders,
                self@.followers == w0.followers,
                self@.tracking == w0.tracking,
                self@.agents.len() == n,
                all_vel_le(w0, VEL_WIDE as int),
                i2 <= n,
                deltas@.len() == n,
                forall|k: int|
                    0 <= k < n && boid(w0, k) ==> deltas@[k] == (Vec2 {
                        x: sep_delta(w0, *s, dt as int, k).x as i64,
                        y: sep_delta(w0, *s, dt as int, k).y as i64,
                    }),
                forall|k: int|
                    0 <= k < n ==> -200_000_000_000 <= (#[trigger] deltas@[k]).x
                        <= 200_000_000_000 && -200_000_000_000 <= deltas@[k].y <= 200_000_000_000,
                forall|k: int| i2 <= k < n ==> self@.agents[k] == w0.agents[k],
                forall|k: int|
                    0 <= k < i2 && !boid(w0, k) ==> self@.agents[k] == w0.agents[k],
                forall|k: int|
                    0 <= k < i2 && boid(w0, k) ==> self@.agents[k] == Some(
                        Agent {
                            pos: apos(w0, k),
                            vel: Vec2 {
                                x: (avel(w0, k).x + sep_delta(w0, *s, dt as int, k).x) as i64,
                                y: (avel(w0, k).y + sep_delta(w0, *s, dt as int, k).y) as i64,
                            },
                        },
                    ),
            decreases n - i2,
        {
            if self.followers[i2].is_some() && self.agents[i2].is_some() {
                proof {
                    assert(vel_within(w0, i2 as int, VEL_WIDE as int));
                    assert(self@.agents[i2 as int] == w0.agents[i2 as int]);
                    lemma_sep_sum_bound(w0, *s, dt as int, i2 as int, n as int);
                    assert((n as int) * 20_000_000 <= 200_000_000_000int) by (nonlinear_arith)
                        requires 0 <= n <= 10_000usize;
                }
                let a = match self.agents[i2] {
                    Some(a) => a,
                    None => Agent { pos: Vec2 { x: 0, y: 0 }, vel: Vec2 { x: 0, y: 0 } },
                };
                let d = deltas[i2];
                self.agents[i2] = Some(
                    Agent { pos: a.pos, vel: Vec2 { x: a.vel.x + d.x, y: a.vel.y + d.y } },
                );
            }
            i2 = i2 + 1;
        }
        proof {
            assert forall|k: int| 0 <= k < self@.len() implies wf_slot(self@, k) by {
                assert(wf_slot(w0, k));
                if boid(w0, k) {
                    assert(self@.agents[k] is Some);
                } else {
                    assert(self@.agents[k] == w0.agents[k]);
                }
                if self@.followers[k] is Some {
                    let lg = self@.followers[k]->Some_0.leader as int;
                    assert(wf_slot(w0, lg));
                }
            }
        }
    }
}

/// How many of the first `m` slots are engaged neighbours of `i`
/// under `(range, fov)`.
pub open spec fn ncount(w: StoreView, range: int, fov: int, i: int, m: int) -> int
    decreases m,
{
    if m <= 0 {
        0
    } else {
        ncount(w, range, fov, i, m - 1) + if engaged(w, i, m - 1, range, fov) {
            1int
        } else {
            0int
        }
    }
}

/// The velocity sum of `i`'s engaged neighbours among the first `m`
/// slots.
pub open spec fn vsum(w: StoreView, range: int, fov: int, i: int, m: int) -> IVec
    decreases m,
{
    if m <= 0 {
        IVec { x: 0, y: 0 }
    } else {
        let p = vsum(w, range, fov, i, m - 1);
        if engaged(w, i, m - 1, range, fov) {
            IVec { x: p.x + avel(w, m - 1).x, y: p.y + avel(w, m - 1).y }
        } else {
            p
        }
    }
}

/// The position sum of `i`'s engaged neighbours among the first `m`
/// slots.
pub open spec fn psum(w: StoreView, range: int, fov: int, i: int, m: int) -> IVec
    decreases m,
{
    if m <= 0 {
        IVec { x: 0, y: 0 }
    } else {
        let p = psum(w, range, fov, i, m - 1);
        if engaged(w, i, m - 1, range, fov) {
            IVec { x: p.x + apos(w, m - 1).x, y: p.y + apos(w, m - 1).y }
        } else {
            p
        }
    }
}

/// The neighbour count lies between zero and the slots scanned.
pub proof fn lemma_ncount_bounds(w: StoreView, range: int, fov: int, i: int, m: int)
    requires
        m >= 0,
    ensures
        0 <= ncount(w, range, fov, i, m) <= m,
    decreases m,
{
    if m > 0 {
        lemma_ncount_bounds(w, range, fov, i, m - 1);
    }
}

/// The velocity sum is bounded by the neighbour count times the
/// velocity bound.
pub proof fn lemma_vsum_bound(w: StoreView, range: int, fov: int, i: int, m: int, b: int)
    requires
        m >= 0,
        b >= 0,
        all_vel_le(w, b),
    ensures
        -(ncount(w, range, fov, i, m) * b) <= vsum(w, range, fov, i, m).x <= ncount(
            w,
            range,
            fov,
            i,
            m,
        ) * b,
        -(ncount(w, range, fov, i, m) * b) <= vsum(w, range, fov, i, m).y <= ncount(
            w,
            range,
            fov,
            i,
            m,
        ) * b,
    decreases m,
{
    lemma_ncount_bounds(w, range, fov, i, m);
    if m > 0 {
        lemma_vsum_bound(w, range, fov, i, m - 1, b);
        if engaged(w, i, m - 1, range, fov) {
            assert(vel_within(w, m - 1, b));
            let c0 = ncount(w, range, fov, i, m - 1);
            assert((c0 + 1) * b == c0 * b + b) by (nonlinear_arith);
        }
    }
}

/// The position sum is bounded by the neighbour count times the
/// coordinate bound.
pub proof fn lemma_psum_bound(w: StoreView, range: int, fov: int, i: int, m: int, b: int)
    requires
        m >= 0,
        b >= 0,
        all_pos_le(w, b),
    ensures
        -(ncount(w, range, fov, i, m) * b) <= psum(w, range, fov, i, m).x <= ncount(
            w,
            range,
            fov,
            i,
            m,
        ) * b,
        -(ncount(w, range, fov, i, m) * b) <= psum(w, range, fov, i, m).y <= ncount(
            w,
            range,
            fov,
            i,
            m,
        ) * b,
    decreases m,
{
    lemma_ncount_bounds(w, range, fov, i, m);
    if m > 0 {
        lemma_psum_bound(w, range, fov, i, m - 1, b);
        if engaged(w, i, m - 1, range, fov) {
            assert(pos_within(w, m - 1, b));
            let c0 = ncount(w, range, fov, i, m - 1);
            assert((c0 + 1) * b == c0 * b + b) by (nonlinear_arith);
        }
    }
}

/// The alignment delta of slot `i`: the average velocity of its
/// engaged neighbours, scaled by `dt * force` — additive steering
/// toward the neighbourhood mean, not a hard set.
pub open spec fn align_delta(w: StoreView, s: BoidSystemSettings, dt: int, i: int) -> IVec {
    let c = ncount(w, s.alignment.range as int, s.field_of_view as int, i, w.len());
    if c > 0 {
        let sm = vsum(w, s.alignment.range as int, s.field_of_view as int, i, w.len());
        IVec {
            x: tdiv(tdiv(sm.x, c) * dt * s.alignment.force, SCALE_SQ as int),
            y: tdiv(tdiv(sm.y, c) * dt * s.alignment.force, SCALE_SQ as int),
        }
    } else {
        IVec { x: 0, y: 0 }
    }
}

/// The cohesion delta of slot `i`: a tenth of the offset from `i` to
/// its neighbours' centre of mass, scaled by `dt * force`. The
/// divisor ten is a fixed smoothing factor.
pub open spec fn coh_delta(w: StoreView, s: BoidSystemSettings, dt: int, i: int) -> IVec {
    let c = ncount(w, s.cohesion.range as int, s.field_of_view as int, i, w.len());
    if c > 0 {
        let sm = psum(w, s.cohesion.range as int, s.field_of_view as int, i, w.len());
        IVec {
            x: tdiv(tdiv(tdiv(sm.x, c) - apos(w, i).x, 10) * dt * s.cohesion.force, SCALE_SQ as int),
            y: tdiv(tdiv(tdiv(sm.y, c) - apos(w, i).y, 10) * dt * s.cohesion.force, SCALE_SQ as int),
        }
    } else {
        IVec { x: 0, y: 0 }
    }
}

impl AgentStore {
    /// One alignment pass: every follower steers toward the average
    /// velocity of its engaged neighbours, additively.
    pub fn alignment(&mut self, s: &BoidSystemSettings, dt: i64)
        requires
            wf(old(self)@),
            s.valid(),
            0 < dt <= DT_LIMIT,
            old(self)@.len() <= AGENTS_LIMIT,
            all_pos_le(old(self)@, POS_LIMIT as int),
            all_vel_le(old(self)@, VEL_LIMIT as int),
        ensures
            final(self)@.leaders == old(self)@.leaders,
            final(self)@.followers == old(self)@.followers,
            final(self)@.tracking == old(self)@.tracking,
            final(self)@.agents.len() == old(self)@.len(),
            forall|i: int|
                0 <= i < old(self)@.len() && !boid(old(self)@, i) ==> final(self)@.agents[i]
                    == old(self)@.agents[i],
            forall|i: int|
                0 <= i < old(self)@.len() && boid(old(self)@, i) ==> final(self)@.agents[i]
                    == Some(
                    Agent {
                        pos: apos(old(self)@, i),
                        vel: Vec2 {
                            x: (avel(old(self)@, i).x + align_delta(
                                old(self)@,
                                *s,
                                dt as int,
                                i,
                            ).x) as i64,
                            y: (avel(old(self)@, i).y + align_delta(
                                old(self)@,
                                *s,
                                dt as int,
                                i,
                            ).y) as i64,
                        },
                    },
                ),
            wf(final(self)@),
    {
        let ghost w0 = self@;
        let n = self.agents.len();
        let mut deltas: Vec<Vec2> = Vec::new();
        let mut i: usize = 0;
        while i < n
            invariant
                wf(w0),
                s.valid(),
                0 < dt <= DT_LIMIT,
                self@ == w0,
                n == w0.len(),
                n <= AGENTS_LIMIT,
                all_pos_le(w0, POS_LIMIT as int),
                all_vel_le(w0, VEL_LIMIT as int),
                i <= n,
                deltas@.len() == i,
                forall|k: int|
                    0 <= k < i ==> deltas@[k] == (Vec2 {
                        x: align_delta(w0, *s, dt as int, k).x as i64,
                        y: align_delta(w0, *s, dt as int, k).y as i64,
                    }),
            decreases n - i,
        {
            let ghost range = s.alignment.range as int;
            let ghost fov = s.field_of_view as int;
            let mut cnt: i64 = 0;
            let mut sx: i64 = 0;
            let mut sy: i64 = 0;
            if self.followers[i].is_some() && self.agents[i].is_some() {
                let ai = match self.agents[i] {
                    Some(a) => a,
                    None => Agent { pos: Vec2 { x: 0, y: 0 }, vel: Vec2 { x: 0, y: 0 } },
                };
                let mut j: usize = 0;
                while j < n
                    invariant
                        wf(w0),
                        s.valid(),
                        0 < dt <= DT_LIMIT,
                        self@ == w0,
                        n == w0.len(),
                        n <= AGENTS_LIMIT,
                        all_pos_le(w0, POS_LIMIT as int),
                        all_vel_le(w0, VEL_LIMIT as int),
                        i < n,
                        j <= n,
                        boid(w0, i as int),
                        ai == w0.agents[i as int]->Some_0,
                        range == s.alignment.range as int,
                        fov == s.field_of_view as int,
                        cnt == ncount(w0, range, fov, i as int, j as int),
                        sx == vsum(w0, range, fov, i as int, j as int).x,
                        sy == vsum(w0, range, fov, i as int, j as int).y,
                        0 <= cnt <= j,
                        -(cnt * (VEL_LIMIT as int)) <= sx <= cnt * (VEL_LIMIT as int),
                        -(cnt * (VEL_LIMIT as int)) <= sy <= cnt * (VEL_LIMIT as int),
                    decreases n - j,
                {
                    let ghost gj = j as int;
                    if j != i && self.followers[j].is_some() && self.agents[j].is_some() {
                        let aj = match self.agents[j] {
                            Some(a) => a,
                            None => Agent { pos: Vec2 { x: 0, y: 0 }, vel: Vec2 { x: 0, y: 0 } },
                        };
                        proof {
                            assert(pos_within(w0, i as int, POS_LIMIT as int));
                            assert(vel_within(w0, i as int, VEL_LIMIT as int));
                            assert(pos_within(w0, gj, POS_LIMIT as int));
                            assert(vel_within(w0, gj, VEL_LIMIT as int));
                            assert((cnt + 1) * (VEL_LIMIT as int) == cnt * (VEL_LIMIT as int) + (
                            VEL_LIMIT as int)) by (nonlinear_arith);
                        }
                        let eng = is_engaged(ai, aj, s.alignment.range, s.field_of_view);
                        if eng {
                            cnt = cnt + 1;
                            sx = sx + aj.vel.x;
                            sy = sy + aj.vel.y;
                        }
                    }
                    j = j + 1;
                }
            } else {
                proof {
                    lemma_ncount_zero_nonboid(w0, range, fov, i as int, n as int);
                    lemma_vsum_zero_nonboid(w0, range, fov, i as int, n as int);
                }
            }
            let mut dx: i64 = 0;
            let mut dy: i64 = 0;
            if cnt > 0 {
                proof {
                    assert(cnt * (VEL_LIMIT as int) == (VEL_LIMIT as int) * cnt)
                        by (nonlinear_arith);
                    lemma_tdiv_le(sx as int, cnt as int, VEL_LIMIT as int);
                    lemma_tdiv_le(sy as int, cnt as int, VEL_LIMIT as int);
                }
                let ax = tdiv64(sx, cnt);
                let ay = tdiv64(sy, cnt);
                proof {
                    assert(-(2_000_000_000_000_000_000_000_000int) <= ax * dt * s.alignment.force
                        <= 2_000_000_000_000_000_000_000_000int) by (nonlinear_arith)
                        requires
                            -100_000_000_000_000 <= ax <= 100_000_000_000_000i64,
                            0 < dt <= 1000i64,
                            0 < s.alignment.force <= 20_000_000i64;
                    assert(-(2_000_000_000_000_000_000_000_000int) <= ay * dt * s.alignment.force
                        <= 2_000_000_000_000_000_000_000_000int) by (nonlinear_arith)
                        requires
                            -100_000_000_000_000 <= ay <= 100_000_000_000_000i64,
                            0 < dt <= 1000i64,
                            0 < s.alignment.force <= 20_000_000i64;
                    lemma_tdiv_le(
                        ax * dt * s.alignment.force,
                        SCALE_SQ as int,
                        2_000_000_000_000_000_000,
                    );
                    lemma_tdiv_le(
                        ay * dt * s.alignment.force,
                        SCALE_SQ as int,
                        2_000_000_000_000_000_000,
                    );
                }
                dx = mul3_div(ax, dt, s.alignment.force, SCALE_SQ);
                dy = mul3_div(ay, dt, s.alignment.force, SCALE_SQ);
            }
            deltas.push(Vec2 { x: dx, y: dy });
            i = i + 1;
        }
        let mut i2: usize = 0;
        while i2 < n
            invariant
                wf(w0),
                s.valid(),
                0 < dt <= DT_LIMIT,
                n == w0.len(),
                self@.leaders == w0.leaders,
                self@.followers == w0.followers,
                self@.tracking == w0.tracking,
                self@.agents.len() == n,
                all_vel_le(w0, VEL_LIMIT as int),
                i2 <= n,
                deltas@.len() == n,
                forall|k: int|
                    0 <= k < n ==> deltas@[k] == (Vec2 {
                        x: align_delta(w0, *s, dt as int, k).x as i64,
                        y: align_delta(w0, *s, dt as int, k).y as i64,
                    }),
                forall|k: int| i2 <= k < n ==> self@.agents[k] == w0.agents[k],
                forall|k: int|
                    0 <= k < i2 && !boid(w0, k) ==> self@.agents[k] == w0.agents[k],
                forall|k: int|
                    0 <= k < i2 && boid(w0, k) ==> self@.agents[k] == Some(
                        Agent {
                            pos: apos(w0, k),
                            vel: Vec2 {
                                x: (avel(w0, k).x + align_delta(w0, *s, dt as int, k).x) as i64,
                                y: (avel(w0, k).y + align_delta(w0, *s, dt as int, k).y) as i64,
                            },
                        },
                    ),
            decreases n - i2,
        {
            if self.followers[i2].is_some() && self.agents[i2].is_some() {
                proof {
                    assert(vel_within(w0, i2 as int, VEL_LIMIT as int));
                    assert(self@.agents[i2 as int] == w0.agents[i2 as int]);
                    lemma_align_delta_bound(w0, *s, dt as int, i2 as int);
                }
                let a = match self.agents[i2] {
                    Some(a) => a,
                    None => Agent { pos: Vec2 { x: 0, y: 0 }, vel: Vec2 { x: 0, y: 0 } },
                };
                let d = deltas[i2];
                self.agents[i2] = Some(
                    Agent { pos: a.pos, vel: Vec2 { x: a.vel.x + d.x, y: a.vel.y + d.y } },
                );
            }
            i2 = i2 + 1;
        }
        proof {
            assert forall|k: int| 0 <= k < self@.len() implies wf_slot(self@, k) by {
                assert(wf_slot(w0, k));
                if boid(w0, k) {
                    assert(self@.agents[k] is Some);
                } else {
                    assert(self@.agents[k] == w0.agents[k]);
                }
                if self@.followers[k] is Some {
                    let lg = self@.followers[k]->Some_0.leader as int;
                    assert(wf_slot(w0, lg));
                }
            }
        }
    }
}

impl AgentStore {
    /// One cohesion pass: every follower steers toward the centre of
    /// mass of its engaged neighbours, softened by the fixed divisor
    /// of ten.
    pub fn cohesion(&mut self, s: &BoidSystemSettings, dt: i64)
        requires
            wf(old(self)@),
            s.valid(),
            0 < dt <= DT_LIMIT,
            old(self)@.len() <= AGENTS_LIMIT,
            all_pos_le(old(self)@, POS_LIMIT as int),
            all_vel_le(old(self)@, VEL_WIDE as int),
        ensures
            final(self)@.leaders == old(self)@.leaders,
            final(self)@.followers == old(self)@.followers,
            final(self)@.tracking == old(self)@.tracking,
            final(self)@.agents.len() == old(self)@.len(),
            forall|i: int|
                0 <= i < old(self)@.len() && !boid(old(self)@, i) ==> final(self)@.agents[i]
                    == old(self)@.agents[i],
            forall|i: int|
                0 <= i < old(self)@.len() && boid(old(self)@, i) ==> final(self)@.agents[i]
                    == Some(
                    Agent {
                        pos: apos(old(self)@, i),
                        vel: Vec2 {
                            x: (avel(old(self)@, i).x + coh_delta(
                                old(self)@,
                                *s,
                                dt as int,
                                i,
                            ).x) as i64,
                            y: (avel(old(self)@, i).y + coh_delta(
                                old(self)@,
                                *s,
                                dt as int,
                                i,
                            ).y) as i64,
                        },
                    },
                ),
            wf(final(self)@),
    {
        let ghost w0 = self@;
        let n = self.agents.len();
        let mut deltas: Vec<Vec2> = Vec::new();
        let mut i: usize = 0;
        while i < n
            invariant
                wf(w0),
                s.valid(),
                0 < dt <= DT_LIMIT,
                self@ == w0,
                n == w0.len(),
                n <= AGENTS_LIMIT,
                all_pos_le(w0, POS_LIMIT as int),
                all_vel_le(w0, VEL_WIDE as int),
                i <= n,
                deltas@.len() == i,
                forall|k: int|
                    0 <= k < i ==> deltas@[k] == (Vec2 {
                        x: coh_delta(w0, *s, dt as int, k).x as i64,
                        y: coh_delta(w0, *s, dt as int, k).y as i64,
                    }),
            decreases n - i,
        {
            let ghost range = s.cohesion.range as int;
            let ghost fov = s.field_of_view as int;
            let mut dx: i64 = 0;
            let mut dy: i64 = 0;
            if self.followers[i].is_some() && self.agents[i].is_some() {
                let ai = match self.agents[i] {
                    Some(a) => a,
                    None => Agent { pos: Vec2 { x: 0, y: 0 }, vel: Vec2 { x: 0, y: 0 } },
                };
                let mut cnt: i64 = 0;
                let mut sx: i128 = 0;
                let mut sy: i128 = 0;
                let mut j: usize = 0;
                while j < n
                    invariant
                        wf(w0),
                        s.valid(),
                        0 < dt <= DT_LIMIT,
                        self@ == w0,
                        n == w0.len(),
                        n <= AGENTS_LIMIT,
                        all_pos_le(w0, POS_LIMIT as int),
                        all_vel_le(w0, VEL_WIDE as int),
                        i < n,
                        j <= n,
                        boid(w0, i as int),
                        ai == w0.agents[i as int]->Some_0,
                        range == s.cohesion.range as int,
                        fov == s.field_of_view as int,
                        cnt == ncount(w0, range, fov, i as int, j as int),
                        sx == psum(w0, range, fov, i as int, j as int).x,
                        sy == psum(w0, range, fov, i as int, j as int).y,
                        0 <= cnt <= j,
                        -(cnt * (POS_LIMIT as int)) <= sx <= cnt * (POS_LIMIT as int),
                        -(cnt * (POS_LIMIT as int)) <= sy <= cnt * (POS_LIMIT as int),
                    decreases n - j,
                {
                    let ghost gj = j as int;
                    if j != i && self.followers[j].is_some() && self.agents[j].is_some() {
                        let aj = match self.agents[j] {
                            Some(a) => a,
                            None => Agent { pos: Vec2 { x: 0, y: 0 }, vel: Vec2 { x: 0, y: 0 } },
                        };
                        proof {
                            assert(pos_within(w0, i as int, POS_LIMIT as int));
                            assert(vel_within(w0, i as int, VEL_WIDE as int));
                            assert(pos_within(w0, gj, POS_LIMIT as int));
                            assert(vel_within(w0, gj, VEL_WIDE as int));
                            assert((cnt + 1) * (POS_LIMIT as int) == cnt * (POS_LIMIT as int) + (
                            POS_LIMIT as int)) by (nonlinear_arith);
                        }
                        let eng = is_engaged(ai, aj, s.cohesion.range, s.field_of_view);
                        if eng {
                            cnt = cnt + 1;
                            sx = sx + (aj.pos.x as i128);
                            sy = sy + (aj.pos.y as i128);
                        }
                    }
                    j = j + 1;
                }
                if cnt > 0 {
                    proof {
                        assert(pos_within(w0, i as int, POS_LIMIT as int));
                        assert(cnt * (POS_LIMIT as int) == (POS_LIMIT as int) * cnt)
                            by (nonlinear_arith);
                        lemma_tdiv_le(sx as int, cnt as int, POS_LIMIT as int);
                        lemma_tdiv_le(sy as int, cnt as int, POS_LIMIT as int);
                    }
                    let cx = tdiv128(sx, cnt as i128) as i64;
                    let cy = tdiv128(sy, cnt as i128) as i64;
                    let tox = cx - ai.pos.x;
                    let toy = cy - ai.pos.y;
                    proof {
                        lemma_tdiv_le(tox as int, 10, 200_000_000_000_000);
                        lemma_tdiv_le(toy as int, 10, 200_000_000_000_000);
                    }
                    let tx = tdiv64(tox, 10);
                    let ty = tdiv64(toy, 10);
                    proof {
                        assert(-(4_000_000_000_000_000_000_000_000int) <= tx * dt
                            * s.cohesion.force <= 4_000_000_000_000_000_000_000_000int)
                            by (nonlinear_arith)
                            requires
                                -200_000_000_000_000 <= tx <= 200_000_000_000_000i64,
                                0 < dt <= 1000i64,
                                0 < s.cohesion.force <= 20_000_000i64;
                        assert(-(4_000_000_000_000_000_000_000_000int) <= ty * dt
                            * s.cohesion.force <= 4_000_000_000_000_000_000_000_000int)
                            by (nonlinear_arith)
                            requires
                                -200_000_000_000_000 <= ty <= 200_000_000_000_000i64,
                                0 < dt <= 1000i64,
                                0 < s.cohesion.force <= 20_000_000i64;
                        lemma_tdiv_le(
                            tx * dt * s.cohesion.force,
                            SCALE_SQ as int,
                            4_000_000_000_000_000_000,
                        );
                        lemma_tdiv_le(
                            ty * dt * s.cohesion.force,
                            SCALE_SQ as int,
                            4_000_000_000_000_000_000,
                        );
                    }
                    dx = mul3_div(tx, dt, s.cohesion.force, SCALE_SQ);
                    dy = mul3_div(ty, dt, s.cohesion.force, SCALE_SQ);
                }
            } else {
                proof {
                    lemma_ncount_zero_nonboid(w0, range, fov, i as int, n as int);
                }
            }
            deltas.push(Vec2 { x: dx, y: dy });
            i = i + 1;
        }
        let mut i2: usize = 0;
        while i2 < n
            invariant
                wf(w0),
                s.valid(),
                0 < dt <= DT_LIMIT,
                n == w0.len(),
                self@.leaders == w0.leaders,
                self@.followers == w0.followers,
                self@.tracking == w0.tracking,
                self@.agents.len() == n,
                all_pos_le(w0, POS_LIMIT as int),
                all_vel_le(w0, VEL_WIDE as int),
                i2 <= n,
                deltas@.len() == n,
                forall|k: int|
                    0 <= k < n ==> deltas@[k] == (Vec2 {
                        x: coh_delta(w0, *s, dt as int, k).x as i64,
                        y: coh_delta(w0, *s, dt as int, k).y as i64,
                    }),
                forall|k: int| i2 <= k < n ==> self@.agents[k] == w0.agents[k],
                forall|k: int|
                    0 <= k < i2 && !boid(w0, k) ==> self@.agents[k] == w0.agents[k],
                forall|k: int|
                    0 <= k < i2 && boid(w0, k) ==> self@.agents[k] == Some(
                        Agent {
                            pos: apos(w0, k),
                            vel: Vec2 {
                                x: (avel(w0, k).x + coh_delta(w0, *s, dt as int, k).x) as i64,
                                y: (avel(w0, k).y + coh_delta(w0, *s, dt as int, k).y) as i64,
                            },
                        },
                    ),
            decreases n - i2,
        {
            if self.followers[i2].is_some() && self.agents[i2].is_some() {
                proof {
                    assert(vel_within(w0, i2 as int, VEL_WIDE as int));
                    assert(self@.agents[i2 as int] == w0.agents[i2 as int]);
                    lemma_coh_delta_bound(w0, *s, dt as int, i2 as int);
                }
                let a = match self.agents[i2] {
                    Some(a) => a,
                    None => Agent { pos: Vec2 { x: 0, y: 0 }, vel: Vec2 { x: 0, y: 0 } },
                };
                let d = deltas[i2];
                self.agents[i2] = Some(
                    Agent { pos: a.pos, vel: Vec2 { x: a.vel.x + d.x, y: a.vel.y + d.y } },
                );
            }
            i2 = i2 + 1;
        }
        proof {
            assert forall|k: int| 0 <= k < self@.len() implies wf_slot(self@, k) by {
                assert(wf_slot(w0, k));
                if boid(w0, k) {
                    assert(self@.agents[k] is Some);
                } else {
                    assert(self@.agents[k] == w0.agents[k]);
                }
                if self@.followers[k] is Some {
                    let lg = self@.followers[k]->Some_0.leader as int;
                    assert(wf_slot(w0, lg));
                }
            }
        }
    }
}

/// The alignment delta scales with the velocity bound of the store:
/// at most `b * dt * force / SCALE_SQ`, coarsened to `b * 20_000`.
pub proof fn lemma_align_delta_bound_by(
    w: StoreView,
    s: BoidSystemSettings,
    dt: int,
    i: int,
    b: int,
)
    requires
        s.valid(),
        0 < dt <= DT_LIMIT,
        b >= 0,
        all_vel_le(w, b),
    ensures
        -(b * 20_000) <= align_delta(w, s, dt, i).x <= b * 20_000,
        -(b * 20_000) <= align_delta(w, s, dt, i).y <= b * 20_000,
{
    let range = s.alignment.range as int;
    let fov = s.field_of_view as int;
    let c = ncount(w, range, fov, i, w.len());
    lemma_ncount_bounds(w, range, fov, i, w.len());
    assert(b * 20_000 >= 0) by (nonlinear_arith)
        requires b >= 0;
    if c > 0 {
        let sm = vsum(w, range, fov, i, w.len());
        lemma_vsum_bound(w, range, fov, i, w.len(), b);
        assert(c * b == b * c) by (nonlinear_arith);
        lemma_tdiv_le(sm.x, c, b);
        lemma_tdiv_le(sm.y, c, b);
        let ax = tdiv(sm.x, c);
        let ay = tdiv(sm.y, c);
        assert(-(b * 20_000_000_000) <= ax * dt * s.alignment.force <= b * 20_000_000_000)
            by (nonlinear_arith)
            requires
                -b <= ax <= b,
                b >= 0,
                0 < dt <= 1000,
                0 < s.alignment.force <= 20_000_000i64;
        assert(-(b * 20_000_000_000) <= ay * dt * s.alignment.force <= b * 20_000_000_000)
            by (nonlinear_arith)
            requires
                -b <= ay <= b,
                b >= 0,
                0 < dt <= 1000,
                0 < s.alignment.force <= 20_000_000i64;
        assert(b * 20_000_000_000 == (b * 20_000) * (SCALE_SQ as int)) by (nonlinear_arith);
        lemma_tdiv_le(ax * dt * s.alignment.force, SCALE_SQ as int, b * 20_000);
        lemma_tdiv_le(ay * dt * s.alignment.force, SCALE_SQ as int, b * 20_000);
    }
}

/// The cohesion delta scales with the coordinate bound of the store:
/// at most `2 * pb / 10 * dt * force / SCALE_SQ`, coarsened to
/// `pb * 20_000`.
pub proof fn lemma_coh_delta_bound_by(
    w: StoreView,
    s: BoidSystemSettings,
    dt: int,
    i: int,
    pb: int,
)
    requires
        s.valid(),
        0 < dt <= DT_LIMIT,
        pb >= 0,
        all_pos_le(w, pb),
        0 <= i < w.len(),
    ensures
        -(pb * 20_000) <= coh_delta(w, s, dt, i).x <= pb * 20_000,
        -(pb * 20_000) <= coh_delta(w, s, dt, i).y <= pb * 20_000,
{
    let range = s.cohesion.range as int;
    let fov = s.field_of_view as int;
    let c = ncount(w, range, fov, i, w.len());
    lemma_ncount_bounds(w, range, fov, i, w.len());
    assert(pb * 20_000 >= 0) by (nonlinear_arith)
        requires pb >= 0;
    if c > 0 {
        let sm = psum(w, range, fov, i, w.len());
        lemma_psum_bound(w, range, fov, i, w.len(), pb);
        assert(c * pb == pb * c) by (nonlinear_arith);
        lemma_tdiv_le(sm.x, c, pb);
        lemma_tdiv_le(sm.y, c, pb);
        assert(pos_within(w, i, pb));
        assert(boid(w, i)) by {
            lemma_ncount_pos_boid(w, range, fov, i, w.len());
        }
        let tox = tdiv(sm.x, c) - apos(w, i).x;
        let toy = tdiv(sm.y, c) - apos(w, i).y;
        assert(-(pb * 10) <= tox <= pb * 10) by (nonlinear_arith)
            requires -(2 * pb) <= tox <= 2 * pb, pb >= 0;
        assert(-(pb * 10) <= toy <= pb * 10) by (nonlinear_arith)
            requires -(2 * pb) <= toy <= 2 * pb, pb >= 0;
        assert(pb * 10 == 10 * pb) by (nonlinear_arith);
        lemma_tdiv_le(tox, 10, pb);
        lemma_tdiv_le(toy, 10, pb);
        let tx = tdiv(tox, 10);
        let ty = tdiv(toy, 10);
        assert(-(pb * 20_000_000_000) <= tx * dt * s.cohesion.force <= pb * 20_000_000_000)
            by (nonlinear_arith)
            requires
                -pb <= tx <= pb,
                pb >= 0,
                0 < dt <= 1000,
                0 < s.cohesion.force <= 20_000_000i64;
        assert(-(pb * 20_000_000_000) <= ty * dt * s.cohesion.force <= pb * 20_000_000_000)
            by (nonlinear_arith)
            requires
                -pb <= ty <= pb,
                pb >= 0,
                0 < dt <= 1000,
                0 < s.cohesion.force <= 20_000_000i64;
        assert(pb * 20_000_000_000 == (pb * 20_000) * (SCALE_SQ as int)) by (nonlinear_arith);
        lemma_tdiv_le(tx * dt * s.cohesion.force, SCALE_SQ as int, pb * 20_000);
        lemma_tdiv_le(ty * dt * s.cohesion.force, SCALE_SQ as int, pb * 20_000);
    }
}

/// A slot with an engaged neighbour is itself a boid.
proof fn lemma_ncount_pos_boid(w: StoreView, range: int, fov: int, i: int, m: int)
    requires
        ncount(w, range, fov, i, m) > 0,
        m >= 0,
    ensures
        boid(w, i),
    decreases m,
{
    if m > 0 && ncount(w, range, fov, i, m - 1) > 0 {
        lemma_ncount_pos_boid(w, range, fov, i, m - 1);
    }
}

/// A slot that is no boid gathers no neighbour velocities.
proof fn lemma_vsum_zero_nonboid(w: StoreView, range: int, fov: int, i: int, m: int)
    requires
        !boid(w, i),
        m >= 0,
    ensures
        vsum(w, range, fov, i, m) == (IVec { x: 0, y: 0 }),
    decreases m,
{
    if m > 0 {
        lemma_vsum_zero_nonboid(w, range, fov, i, m - 1);
    }
}

/// A slot that is no boid collects no separation contributions.
proof fn lemma_sep_sum_zero_nonboid(w: StoreView, s: BoidSystemSettings, dt: int, i: int, m: int)
    requires
        !boid(w, i),
        m >= 0,
    ensures
        sep_sum(w, s, dt, i, m) == (IVec { x: 0, y: 0 }),
    decreases m,
{
    if m > 0 {
        lemma_sep_sum_zero_nonboid(w, s, dt, i, m - 1);
    }
}

/// A slot that is no boid has no engaged neighbours.
proof fn lemma_ncount_zero_nonboid(w: StoreView, range: int, fov: int, i: int, m: int)
    requires
        !boid(w, i),
        m >= 0,
    ensures
        ncount(w, range, fov, i, m) == 0,
    decreases m,
{
    if m > 0 {
        lemma_ncount_zero_nonboid(w, range, fov, i, m - 1);
    }
}

/// The alignment delta is bounded by two quintillion in magnitude
/// whenever the configuration is valid and velocities respect the
/// step's entry bound.
pub proof fn lemma_align_delta_bound(w: StoreView, s: BoidSystemSettings, dt: int, i: int)
    requires
        s.valid(),
        0 < dt <= DT_LIMIT,
        all_vel_le(w, VEL_LIMIT as int),
    ensures
        -2_000_000_000_000_000_000 <= align_delta(w, s, dt, i).x <= 2_000_000_000_000_000_000,
        -2_000_000_000_000_000_000 <= align_delta(w, s, dt, i).y <= 2_000_000_000_000_000_000,
{
    let range = s.alignment.range as int;
    let fov = s.field_of_view as int;
    let c = ncount(w, range, fov, i, w.len());
    lemma_ncount_bounds(w, range, fov, i, w.len());
    if c > 0 {
        let sm = vsum(w, range, fov, i, w.len());
        lemma_vsum_bound(w, range, fov, i, w.len(), VEL_LIMIT as int);
        assert(c * (VEL_LIMIT as int) == (VEL_LIMIT as int) * c) by (nonlinear_arith);
        lemma_tdiv_le(sm.x, c, VEL_LIMIT as int);
        lemma_tdiv_le(sm.y, c, VEL_LIMIT as int);
        let ax = tdiv(sm.x, c);
        let ay = tdiv(sm.y, c);
        assert(-(2_000_000_000_000_000_000_000_000int) <= ax * dt * s.alignment.force
            <= 2_000_000_000_000_000_000_000_000int) by (nonlinear_arith)
            requires
                -100_000_000_000_000 <= ax <= 100_000_000_000_000,
                0 < dt <= 1000,
                0 < s.alignment.force <= 20_000_000i64;
        assert(-(2_000_000_000_000_000_000_000_000int) <= ay * dt * s.alignment.force
            <= 2_000_000_000_000_000_000_000_000int) by (nonlinear_arith)
            requires
                -100_000_000_000_000 <= ay <= 100_000_000_000_000,
                0 < dt <= 1000,
                0 < s.alignment.force <= 20_000_000i64;
        lemma_tdiv_le(ax * dt * s.alignment.force, SCALE_SQ as int, 2_000_000_000_000_000_000);
        lemma_tdiv_le(ay * dt * s.alignment.force, SCALE_SQ as int, 2_000_000_000_000_000_000);
    }
}

/// The cohesion delta is bounded by four quintillion in magnitude
/// whenever the configuration is valid and coordinates respect the
/// step's entry bound.
pub proof fn lemma_coh_delta_bound(w: StoreView, s: BoidSystemSettings, dt: int, i: int)
    requires
        s.valid(),
        0 < dt <= DT_LIMIT,
        all_pos_le(w, POS_LIMIT as int),
        boid(w, i),
    ensures
        -4_000_000_000_000_000_000 <= coh_delta(w, s, dt, i).x <= 4_000_000_000_000_000_000,
        -4_000_000_000_000_000_000 <= coh_delta(w, s, dt, i).y <= 4_000_000_000_000_000_000,
{
    let range = s.cohesion.range as int;
    let fov = s.field_of_view as int;
    let c = ncount(w, range, fov, i, w.len());
    lemma_ncount_bounds(w, range, fov, i, w.len());
    if c > 0 {
        let sm = psum(w, range, fov, i, w.len());
        lemma_psum_bound(w, range, fov, i, w.len(), POS_LIMIT as int);
        assert(c * (POS_LIMIT as int) == (POS_LIMIT as int) * c) by (nonlinear_arith);
        lemma_tdiv_le(sm.x, c, POS_LIMIT as int);
        lemma_tdiv_le(sm.y, c, POS_LIMIT as int);
        assert(pos_within(w, i, POS_LIMIT as int));
        let tox = tdiv(sm.x, c) - apos(w, i).x;
        let toy = tdiv(sm.y, c) - apos(w, i).y;
        lemma_tdiv_le(tox, 10, 200_000_000_000_000);
        lemma_tdiv_le(toy, 10, 200_000_000_000_000);
        let tx = tdiv(tox, 10);
        let ty = tdiv(toy, 10);
        assert(-(4_000_000_000_000_000_000_000_000int) <= tx * dt * s.cohesion.force
            <= 4_000_000_000_000_000_000_000_000int) by (nonlinear_arith)
            requires
                -200_000_000_000_000 <= tx <= 200_000_000_000_000,
                0 < dt <= 1000,
                0 < s.cohesion.force <= 20_000_000i64;
        assert(-(4_000_000_000_000_000_000_000_000int) <= ty * dt * s.cohesion.force
            <= 4_000_000_000_000_000_000_000_000int) by (nonlinear_arith)
            requires
                -200_000_000_000_000 <= ty <= 200_000_000_000_000,
                0 < dt <= 1000,
                0 < s.cohesion.force <= 20_000_000i64;
        lemma_tdiv_le(tx * dt * s.cohesion.force, SCALE_SQ as int, 4_000_000_000_000_000_000);
        lemma_tdiv_le(ty * dt * s.cohesion.force, SCALE_SQ as int, 4_000_000_000_000_000_000);
    }
}

} // verus!
