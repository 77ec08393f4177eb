//! The kinematics integrator: once per tick, after all force systems,
//! every agent's position advances by its velocity and every velocity
//! decays by the drag factor. Drag is applied exactly once per tick,
//! however many force systems ran before it.

use vstd::prelude::*;

verus! {

use crate::num::tdiv;
use crate::num::lemma_tdiv_le;
use crate::num::mul3_div;
use crate::num::SCALE;
use crate::num::POS_LIMIT;
use crate::num::DT_LIMIT;
use crate::num::DRAG_LIMIT;
use crate::settings::BoidSystemSettings;
use crate::store::AgentStore;
use crate::store::Agent;
use crate::store::StoreView;
use crate::store::all_pos_le;
use crate::store::all_vel_le;
use crate::store::pos_within;
use crate::store::vel_within;
use crate::store::wf;
use crate::store::wf_slot;
use crate::vec2::Vec2;

/// The multiplier (on the `SCALE` scale) a velocity keeps after one
/// tick of drag: `1 - drag * dt`, both factors fixed-point.
pub open spec fn drag_factor(drag: int, dt: int) -> int {
    SCALE - tdiv(drag * dt, SCALE as int)
}

/// The position an agent reaches after one tick: each coordinate
/// advances by `velocity * dt`, brought back to the representation by
/// one truncating division.
pub open spec fn moved(a: Agent, dt: int) -> Agent {
    Agent {
        pos: Vec2 {
            x: (a.pos.x + tdiv(a.vel.x * dt, SCALE as int)) as i64,
            y: (a.pos.y + tdiv(a.vel.y * dt, SCALE as int)) as i64,
        },
        vel: a.vel,
    }
}

/// The agent after one tick of drag decay on its velocity.
pub open spec fn dragged(a: Agent, drag: int, dt: int) -> Agent {
    Agent {
        pos: a.pos,
        vel: Vec2 {
            x: tdiv(a.vel.x * drag_factor(drag, dt), SCALE as int) as i64,
            y: tdiv(a.vel.y * drag_factor(drag, dt), SCALE as int) as i64,
        },
    }
}

impl AgentStore {
    /// Advances every live agent's position by its velocity over the
    /// elapsed time `dt`: `position += velocity * dt`. Velocities and
    /// every role table are untouched.
    pub fn apply_speed(&mut self, dt: i64)
        requires
            wf(old(self)@),
            0 < dt <= DT_LIMIT,
            all_pos_le(old(self)@, POS_LIMIT as int),
            all_vel_le(old(self)@, 4_000_000_000_000_000_000i64 as int),
        ensures
            final(self)@.leaders == old(self)@.leaders,
            final(self)@.followers == old(self)@.followers,
            final(self)@.tracking == old(self)@.tracking,
            final(self)@.agents.len() == old(self)@.len(),
            forall|i: int| 0 <= i < old(self)@.len() ==> final(self)@.agents[i] == (
            if old(self)@.agents[i] is Some {
                Some(moved(old(self)@.agents[i]->Some_0, dt as int))
            } else {
                None
            }),
            wf(final(self)@),
    {
        let ghost w0 = self@;
        let n = self.agents.len();
        let mut i: usize = 0;
        while i < n
            invariant
                wf(w0),
                0 < dt <= DT_LIMIT,
                all_pos_le(w0, POS_LIMIT as int),
                all_vel_le(w0, 4_000_000_000_000_000_000i64 as int),
                self@.leaders == w0.leaders,
                self@.followers == w0.followers,
                self@.tracking == w0.tracking,
                self@.agents.len() == w0.len(),
                n == w0.len(),
                i <= n,
                forall|k: int| i <= k < w0.len() ==> self@.agents[k] == w0.agents[k],
                forall|k: int| 0 <= k < i ==> self@.agents[k] == (
                if w0.agents[k] is Some {
                    Some(moved(w0.agents[k]->Some_0, dt as int))
                } else {
                    None
                }),
            decreases n - i,
        {
            proof {
                assert(pos_within(w0, i as int, POS_LIMIT as int));
                assert(vel_within(w0, i as int, 4_000_000_000_000_000_000i64 as int));
                assert(self@.agents[i as int] == w0.agents[i as int]);
            }
            match self.agents[i] {
                Some(a) => {
                    proof {
                        assert(a.vel.x * dt <= 4_000_000_000_000_000_000i64 * (SCALE as int)
                            && a.vel.x * dt >= -4_000_000_000_000_000_000i64 * (
                        SCALE as int)) by (nonlinear_arith)
                            requires
                                -4_000_000_000_000_000_000i64 <= a.vel.x <= 4_000_000_000_000_000_000i64,
                                0 < dt <= 1_000i64,
                                SCALE == 1000i64;
                        assert(a.vel.y * dt <= 4_000_000_000_000_000_000i64 * (SCALE as int)
                            && a.vel.y * dt >= -4_000_000_000_000_000_000i64 * (
                        SCALE as int)) by (nonlinear_arith)
                            requires
                                -4_000_000_000_000_000_000i64 <= a.vel.y <= 4_000_000_000_000_000_000i64,
                                0 < dt <= 1_000i64,
                                SCALE == 1000i64;
                        lemma_tdiv_le(a.vel.x * dt, SCALE as int, 4_000_000_000_000_000_000i64 as int);
                        lemma_tdiv_le(a.vel.y * dt, SCALE as int, 4_000_000_000_000_000_000i64 as int);
                    }
                    let sx = mul3_div(a.vel.x, dt, 1, SCALE);
                    let sy = mul3_div(a.vel.y, dt, 1, SCALE);
                    self.agents[i] = Some(
                        Agent { pos: Vec2 { x: a.pos.x + sx, y: a.pos.y + sy }, vel: a.vel },
                    );
                },
                None => {},
            }
            i = i + 1;
        }
        proof {
            assert forall|i2: int| 0 <= i2 < self@.len() implies wf_slot(self@, i2) by {
                assert(wf_slot(w0, i2));
            }
        }
    }

    /// Decays every live agent's velocity once: `velocity *= 1 - drag
    /// * dt`, with the drag coefficient taken from the configuration.
    pub fn apply_drag(&mut self, s: &BoidSystemSettings, dt: i64)
        requires
            wf(old(self)@),
            s.valid(),
            0 < dt <= DT_LIMIT,
            all_vel_le(old(self)@, 4_000_000_000_000_000_000i64 as int),
        ensures
            final(self)@.leaders == old(self)@.leaders,
            final(self)@.followers == old(self)@.followers,
            final(self)@.tracking == old(self)@.tracking,
            final(self)@.agents.len() == old(self)@.len(),
            forall|i: int| 0 <= i < old(self)@.len() ==> final(self)@.agents[i] == (
            if old(self)@.agents[i] is Some {
                Some(dragged(old(self)@.agents[i]->Some_0, s.drag as int, dt as int))
            } else {
                None
            }),
            wf(final(self)@),
            all_vel_le(final(self)@, 4_000_000_000_000_000_000i64 as int),
    {
        proof {
            assert(0 <= s.drag * dt <= 2_000 * (SCALE as int)) by (nonlinear_arith)
                requires
                    0 <= s.drag <= DRAG_LIMIT,
                    0 < dt <= 1_000i64,
                    DRAG_LIMIT == 2_000i64,
                    SCALE == 1000i64;
            lemma_tdiv_le(s.drag * dt, SCALE as int, 2_000);
        }
        let decay: i64 = SCALE - mul3_div(s.drag, dt, 1, SCALE);
        let ghost w0 = self@;
        let n = self.agents.len();
        let mut i: usize = 0;
        while i < n
            invariant
                wf(w0),
                0 < dt <= DT_LIMIT,
                -1_000 <= decay <= SCALE,
                decay == drag_factor(s.drag as int, dt as int),
                all_vel_le(w0, 4_000_000_000_000_000_000i64 as int),
                self@.leaders == w0.leaders,
                self@.followers == w0.followers,
                self@.tracking == w0.tracking,
                self@.agents.len() == w0.len(),
                n == w0.len(),
                i <= n,
                forall|k: int| i <= k < w0.len() ==> self@.agents[k] == w0.agents[k],
                forall|k: int| 0 <= k < i ==> self@.agents[k] == (
                if w0.agents[k] is Some {
                    Some(dragged(w0.agents[k]->Some_0, s.drag as int, dt as int))
                } else {
                    None
                }),
            decreases n - i,
        {
            proof {
                assert(vel_within(w0, i as int, 4_000_000_000_000_000_000i64 as int));
                assert(self@.agents[i as int] == w0.agents[i as int]);
            }
            match self.agents[i] {
                Some(a) => {
                    proof {
                        assert(a.vel.x * decay <= 4_000_000_000_000_000_000i64 * (SCALE as int)
                            && a.vel.x * decay >= -4_000_000_000_000_000_000i64 * (
                        SCALE as int)) by (nonlinear_arith)
                            requires
                                -4_000_000_000_000_000_000i64 <= a.vel.x
                                    <= 4_000_000_000_000_000_000i64,
                                -1_000 <= decay <= 1_000i64,
                                SCALE == 1000i64;
                        assert(a.vel.y * decay <= 4_000_000_000_000_000_000i64 * (SCALE as int)
                            && a.vel.y * decay >= -4_000_000_000_000_000_000i64 * (
                        SCALE as int)) by (nonlinear_arith)
                            requires
                                -4_000_000_000_000_000_000i64 <= a.vel.y
                                    <= 4_000_000_000_000_000_000i64,
                                -1_000 <= decay <= 1_000i64,
                                SCALE == 1000i64;
                        lemma_tdiv_le(
                            a.vel.x * decay,
                            SCALE as int,
                            4_000_000_000_000_000_000i64 as int,
                        );
                        lemma_tdiv_le(
                            a.vel.y * decay,
                            SCALE as int,
                            4_000_000_000_000_000_000i64 as int,
                        );
                    }
                    let vx = mul3_div(a.vel.x, decay, 1, SCALE);
                    let vy = mul3_div(a.vel.y, decay, 1, SCALE);
                    self.agents[i] = Some(Agent { pos: a.pos, vel: Vec2 { x: vx, y: vy } });
                },
                None => {},
            }
            i = i + 1;
        }
        proof {
            assert forall|i2: int| 0 <= i2 < self@.len() implies wf_slot(self@, i2) by {
                assert(wf_slot(w0, i2));
            }
            assert forall|i2: int| 0 <= i2 < self@.len() implies vel_within(
                self@,
                i2,
                4_000_000_000_000_000_000i64 as int,
            ) by {
                assert(vel_within(w0, i2, 4_000_000_000_000_000_000i64 as int));
                if w0.agents[i2] is Some {
                    let a = w0.agents[i2]->Some_0;
                    assert(a.vel.x * decay <= 4_000_000_000_000_000_000i64 * (SCALE as int)
                        && a.vel.x * decay >= -4_000_000_000_000_000_000i64 * (
                    SCALE as int)) by (nonlinear_arith)
                        requires
                            -4_000_000_000_000_000_000i64 <= a.vel.x
                                <= 4_000_000_000_000_000_000i64,
                            -1_000 <= decay <= 1_000i64,
                            SCALE == 1000i64;
                    assert(a.vel.y * decay <= 4_000_000_000_000_000_000i64 * (SCALE as int)
                        && a.vel.y * decay >= -4_000_000_000_000_000_000i64 * (
                    SCALE as int)) by (nonlinear_arith)
                        requires
                            -4_000_000_000_000_000_000i64 <= a.vel.y
                                <= 4_000_000_000_000_000_000i64,
                            -1_000 <= decay <= 1_000i64,
                            SCALE == 1000i64;
                    lemma_tdiv_le(
                        a.vel.x * decay,
                        SCALE as int,
                        4_000_000_000_000_000_000i64 as int,
                    );
                    lemma_tdiv_le(
                        a.vel.y * decay,
                        SCALE as int,
                        4_000_000_000_000_000_000i64 as int,
                    );
                }
            }
        }
    }
}

} // verus!
