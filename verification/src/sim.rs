//! One whole simulation tick, in the documented order: the three
//! flocking forces and the pursuit machine first — all reading the
//! tick-start snapshot and mutating velocities — then the integrator,
//! which advances positions and applies drag exactly once.

use vstd::prelude::*;

verus! {

use crate::num::DT_LIMIT;
use crate::num::AGENTS_LIMIT;
use crate::num::POS_LIMIT;
use crate::num::VEL_LIMIT;
use crate::num::VEL_WIDE;
use crate::num::PROGRESS_LIMIT;
use crate::settings::BoidSystemSettings;
use crate::store::AgentStore;
use crate::store::Agent;
use crate::store::StoreView;
use crate::store::all_pos_le;
use crate::store::all_vel_le;
use crate::store::pos_within;
use crate::store::vel_within;
use crate::store::counts_ok;
use crate::store::counts_ok_at;
use crate::store::wf;
use crate::vec2::Vec2;
use crate::flocking::boid;
use crate::flocking::apos;
use crate::flocking::avel;
use crate::flocking::sep_delta;
use crate::flocking::align_delta;
use crate::flocking::coh_delta;
use crate::flocking::lemma_sep_sum_bound;
use crate::flocking::lemma_align_delta_bound_by;
use crate::flocking::lemma_coh_delta_bound_by;
use crate::pursuit::all_progress_le;
use crate::pursuit::progress_within;
use crate::pursuit::follow_agent;
use crate::pursuit::follow_follower;
use crate::pursuit::follow_tracking;
use crate::pursuit::lemma_follow_vel_bound;
use crate::motion::moved;
use crate::motion::dragged;

/// Largest coordinate on entry to a whole tick: room is left for what
/// one tick of bounded forces can add.
pub const TICK_POS_LIMIT: i64 = 1_000_000_000_000;

/// Largest velocity component on entry to a whole tick.
pub const TICK_VEL_LIMIT: i64 = 1_000_000_000;

/// The store after one separation pass.
pub open spec fn sep_state(w: StoreView, s: BoidSystemSettings, dt: int) -> StoreView {
    StoreView {
        agents: Seq::new(
            w.agents.len(),
            |i: int|
                if boid(w, i) {
                    Some(
                        Agent {
                            pos: apos(w, i),
                            vel: Vec2 {
                                x: (avel(w, i).x + sep_delta(w, s, dt, i).x) as i64,
                                y: (avel(w, i).y + sep_delta(w, s, dt, i).y) as i64,
                            },
                        },
                    )
                } else {
                    w.agents[i]
                },
        ),
        leaders: w.leaders,
        followers: w.followers,
        tracking: w.tracking,
    }
}

/// The store after one alignment pass.
pub open spec fn align_state(w: StoreView, s: BoidSystemSettings, dt: int) -> StoreView {
    StoreView {
        agents: Seq::new(
            w.agents.len(),
            |i: int|
                if boid(w, i) {
                    Some(
                        Agent {
                            pos: apos(w, i),
                            vel: Vec2 {
                                x: (avel(w, i).x + align_delta(w, s, dt, i).x) as i64,
                                y: (avel(w, i).y + align_delta(w, s, dt, i).y) as i64,
                            },
                        },
                    )
                } else {
                    w.agents[i]
                },
        ),
        leaders: w.leaders,
        followers: w.followers,
        tracking: w.tracking,
    }
}

/// The store after one cohesion pass.
pub open spec fn coh_state(w: StoreView, s: BoidSystemSettings, dt: int) -> StoreView {
    StoreView {
        agents: Seq::new(
            w.agents.len(),
            |i: int|
                if boid(w, i) {
                    Some(
                        Agent {
                            pos: apos(w, i),
                            vel: Vec2 {
                                x: (avel(w, i).x + coh_delta(w, s, dt, i).x) as i64,
                                y: (avel(w, i).y + coh_delta(w, s, dt, i).y) as i64,
                            },
                        },
                    )
                } else {
                    w.agents[i]
                },
        ),
        leaders: w.leaders,
        followers: w.followers,
        tracking: w.tracking,
    }
}

/// The store after one pursuit pass.
pub open spec fn follow_state(w: StoreView, s: BoidSystemSettings, dt: int) -> StoreView {
    StoreView {
        agents: Seq::new(w.agents.len(), |i: int| follow_agent(w, s, dt, i)),
        leaders: w.leaders,
        followers: Seq::new(w.agents.len(), |i: int| follow_follower(w, s, dt, i)),
        tracking: Seq::new(w.agents.len(), |l: int| follow_tracking(w, l)),
    }
}

/// The store after positions advanced by one tick of velocity.
pub open spec fn speed_state(w: StoreView, dt: int) -> StoreView {
    StoreView {
        agents: Seq::new(
            w.agents.len(),
            |i: int|
                if w.agents[i] is Some {
                    Some(moved(w.agents[i]->Some_0, dt))
                } else {
                    None
                },
        ),
        leaders: w.leaders,
        followers: w.followers,
        tracking: w.tracking,
    }
}

/// The store after one tick of drag decay.
pub open spec fn drag_state(w: StoreView, s: BoidSystemSettings, dt: int) -> StoreView {
    StoreView {
        agents: Seq::new(
            w.agents.len(),
            |i: int|
                if w.agents[i] is Some {
                    Some(dragged(w.agents[i]->Some_0, s.drag as int, dt))
                } else {
                    None
                },
        ),
        leaders: w.leaders,
        followers: w.followers,
        tracking: w.tracking,
    }
}

/// The whole tick: forces and pursuit on the snapshot state, then the
/// integrator, with drag applied exactly once at the end.
pub open spec fn tick_state(w: StoreView, s: BoidSystemSettings, dt: int) -> StoreView {
    drag_state(
        speed_state(follow_state(coh_state(align_state(sep_state(w, s, dt), s, dt), s, dt), s, dt), dt),
        s,
        dt,
    )
}

impl AgentStore {
    /// One discrete update of the whole simulation: separation,
    /// alignment and cohesion among the followers, the pursuit
    /// machine, then the integrator — position first, one drag decay
    /// last, however many force systems acted before it.
    #[verifier::rlimit(60)]
    pub fn tick(&mut self, s: &BoidSystemSettings, dt: i64)
        requires
            wf(old(self)@),
            s.valid(),
            0 < dt <= DT_LIMIT,
            old(self)@.len() <= AGENTS_LIMIT,
            all_pos_le(old(self)@, TICK_POS_LIMIT as int),
            all_vel_le(old(self)@, TICK_VEL_LIMIT as int),
            all_progress_le(old(self)@, PROGRESS_LIMIT as int),
        ensures
            final(self)@ == tick_state(old(self)@, *s, dt as int),
            wf(final(self)@),
            counts_ok(old(self)@) ==> counts_ok(final(self)@),
    {
        let ghost w0 = self@;
        let ghost n: int = w0.len();

        proof {
            crate::store::lemma_pos_le_widen(w0, TICK_POS_LIMIT as int, POS_LIMIT as int);
            crate::store::lemma_vel_le_widen(w0, TICK_VEL_LIMIT as int, VEL_WIDE as int);
        }
        self.separation(s, dt);
        let ghost w1 = sep_state(w0, *s, dt as int);
        proof {
            assert forall|i: int| 0 <= i < n implies self@.agents[i] == w1.agents[i] by {
                if boid(w0, i) {
                    lemma_sep_sum_bound(w0, *s, dt as int, i, n);
                }
            }
            assert(self@.agents =~= w1.agents);
            assert(self@ == w1);
            assert forall|i: int| 0 <= i < n implies pos_within(w1, i, TICK_POS_LIMIT as int)
                && vel_within(w1, i, 2_000_000_000_000) by {
                assert(pos_within(w0, i, TICK_POS_LIMIT as int));
                assert(vel_within(w0, i, TICK_VEL_LIMIT as int));
                if boid(w0, i) {
                    lemma_sep_sum_bound(w0, *s, dt as int, i, n);
                    assert(n * 20_000_000 <= 200_000_000_000int) by (nonlinear_arith)
                        requires 0 <= n <= 10_000;
                }
            }
            crate::store::lemma_pos_le_widen(w1, TICK_POS_LIMIT as int, POS_LIMIT as int);
            crate::store::lemma_vel_le_widen(w1, 2_000_000_000_000, VEL_LIMIT as int);
        }
        self.alignment(s, dt);
        let ghost w2 = align_state(w1, *s, dt as int);
        proof {
            assert forall|i: int| 0 <= i < n implies self@.agents[i] == w2.agents[i] by {
            }
            assert(self@.agents =~= w2.agents);
            assert(self@ == w2);
            assert forall|i: int| 0 <= i < n implies pos_within(w2, i, TICK_POS_LIMIT as int)
                && vel_within(w2, i, 50_000_000_000_000_000) by {
                assert(pos_within(w1, i, TICK_POS_LIMIT as int));
                assert(vel_within(w1, i, 2_000_000_000_000));
                if boid(w1, i) {
                    lemma_align_delta_bound_by(w1, *s, dt as int, i, 2_000_000_000_000);
                }
            }
            crate::store::lemma_pos_le_widen(w2, TICK_POS_LIMIT as int, POS_LIMIT as int);
            crate::store::lemma_vel_le_widen(w2, 50_000_000_000_000_000, VEL_WIDE as int);
        }
        self.cohesion(s, dt);
        let ghost w3 = coh_state(w2, *s, dt as int);
        proof {
            assert forall|i: int| 0 <= i < n implies self@.agents[i] == w3.agents[i] by {
            }
            assert(self@.agents =~= w3.agents);
            assert(self@ == w3);
            assert forall|i: int| 0 <= i < n implies pos_within(w3, i, TICK_POS_LIMIT as int)
                && vel_within(w3, i, 80_000_000_000_000_000) by {
                assert(pos_within(w2, i, TICK_POS_LIMIT as int));
                assert(vel_within(w2, i, 50_000_000_000_000_000));
                if boid(w2, i) {
                    lemma_coh_delta_bound_by(w2, *s, dt as int, i, TICK_POS_LIMIT as int);
                }
            }
            crate::store::lemma_pos_le_widen(w3, TICK_POS_LIMIT as int, POS_LIMIT as int);
            crate::store::lemma_vel_le_widen(w3, 80_000_000_000_000_000, VEL_WIDE as int);
            assert forall|i: int| 0 <= i < n implies progress_within(w3, i, PROGRESS_LIMIT as int) by {
                assert(progress_within(w0, i, PROGRESS_LIMIT as int));
            }
        }
        self.follow(s, dt);
        let ghost w4 = follow_state(w3, *s, dt as int);
        proof {
            assert(self@.agents =~= w4.agents);
            assert(self@.followers =~= w4.followers);
            assert(self@.tracking =~= w4.tracking);
            assert(self@ == w4);
            assert forall|i: int| 0 <= i < n implies pos_within(w4, i, TICK_POS_LIMIT as int)
                && vel_within(w4, i, 100_000_000_000_000_000) by {
                assert(pos_within(w3, i, TICK_POS_LIMIT as int));
                assert(vel_within(w3, i, 80_000_000_000_000_000));
                lemma_follow_vel_bound(w3, *s, dt as int, i, 80_000_000_000_000_000);
            }
            crate::store::lemma_pos_le_widen(w4, TICK_POS_LIMIT as int, POS_LIMIT as int);
            crate::store::lemma_vel_le_widen(w4, 100_000_000_000_000_000, VEL_WIDE as int);
        }
        self.apply_speed(dt);
        let ghost w5 = speed_state(w4, dt as int);
        proof {
            assert(self@.agents =~= w5.agents);
            assert(self@ == w5);
            assert forall|i: int| 0 <= i < n implies vel_within(w5, i, VEL_WIDE as int) by {
                assert(vel_within(w4, i, 100_000_000_000_000_000));
            }
        }
        self.apply_drag(s, dt);
        let ghost w6 = drag_state(w5, *s, dt as int);
        proof {
            assert(self@.agents =~= w6.agents);
            assert(self@ == w6);
            assert(w6 == tick_state(w0, *s, dt as int));
            if counts_ok(w0) {
                assert forall|l: int| 0 <= l < n implies counts_ok_at(w1, l) by {
                    assert(counts_ok_at(w0, l));
                }
                assert forall|l: int| 0 <= l < n implies counts_ok_at(w2, l) by {
                    assert(counts_ok_at(w1, l));
                }
                assert forall|l: int| 0 <= l < n implies counts_ok_at(w3, l) by {
                    assert(counts_ok_at(w2, l));
                }
                assert(counts_ok(w3));
                assert(counts_ok(w4));
                assert forall|l: int| 0 <= l < n implies counts_ok_at(w6, l) by {
                    assert(counts_ok_at(w4, l));
                }
            }
        }
    }
}

} // verus!
