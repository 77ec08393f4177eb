//! The pursuit state machine, run once per tick over every follower.
//!
//! An `Idle` follower steers toward its leader, or loiters when close;
//! if the leader is gone it despawns and settles the leader's tracking
//! count. A `Gathering` follower steers toward its target, accumulates
//! progress while within follow range, reverts to `Idle` once progress
//! strictly exceeds the gather threshold, and falls back to `Idle`
//! immediately — without despawning and without touching any count —
//! when the target is gone.

use vstd::prelude::*;

verus! {

use crate::num::tdiv;
use crate::num::lemma_tdiv_le;
use crate::num::mul3_div;
use crate::num::SCALE;
use crate::num::SCALE_SQ;
use crate::num::POS_LIMIT;
use crate::num::DT_LIMIT;
use crate::num::FORCE_LIMIT;
use crate::num::PROGRESS_LIMIT;
use crate::settings::BoidSystemSettings;
use crate::store::AgentStore;
use crate::store::Agent;
use crate::store::Follower;
use crate::store::PursuitState;
use crate::store::StoreView;
use crate::store::all_pos_le;
use crate::store::all_vel_le;
use crate::store::pos_within;
use crate::store::vel_within;
use crate::store::counts_ok;
use crate::store::counts_ok_at;
use crate::store::followers_of;
use crate::store::tracks;
use crate::store::wf;
use crate::store::wf_slot;
use crate::vec2::Vec2;
use crate::vec2::dist_sq;
use crate::vec2::unit_x;
use crate::vec2::unit_y;
use crate::vec2::unit_toward;
use crate::vec2::dist_sq_i128;
use crate::vec2::lemma_unit_bounded;

/// The fixed loiter decay: a follower within follow range of its
/// leader damps its velocity by `1 - 0.1 * dt`.
pub const LOITER_DRAG: i64 = 100;

/// Slot `i` holds a live follower this tick.
pub open spec fn active_follower(w: StoreView, i: int) -> bool {
    &&& 0 <= i < w.len()
    &&& w.followers[i] is Some
    &&& w.agents[i] is Some
}

/// The stored leader of the follower in slot `i`.
pub open spec fn fleader(w: StoreView, i: int) -> int {
    w.followers[i]->Some_0.leader as int
}

/// Slot `i` despawns this tick: an `Idle` follower whose leader no
/// longer resolves. This is the only despawn path the core defines.
pub open spec fn despawns(w: StoreView, i: int) -> bool {
    &&& active_follower(w, i)
    &&& w.followers[i]->Some_0.state is Idle
    &&& w.agents[fleader(w, i)] is None
}

/// Slot `i` despawns this tick and decrements the count of `l`.
pub open spec fn despawns_for(w: StoreView, l: int, i: int) -> bool {
    despawns(w, i) && fleader(w, i) == l
}

/// The first component of the steering impulse toward `goal`:
/// the unit vector toward the goal times `dt * force`.
pub open spec fn steer_delta_x(p: Vec2, goal: Vec2, dt: int, force: int) -> int {
    tdiv(unit_x(p, goal) * dt * force, SCALE_SQ as int)
}

/// The second component of the steering impulse toward `goal`.
pub open spec fn steer_delta_y(p: Vec2, goal: Vec2, dt: int, force: int) -> int {
    tdiv(unit_y(p, goal) * dt * force, SCALE_SQ as int)
}

/// The agent after steering toward `goal`.
pub open spec fn steered(a: Agent, goal: Vec2, dt: int, force: int) -> Agent {
    Agent {
        pos: a.pos,
        vel: Vec2 {
            x: (a.vel.x + steer_delta_x(a.pos, goal, dt, force)) as i64,
            y: (a.vel.y + steer_delta_y(a.pos, goal, dt, force)) as i64,
        },
    }
}

/// The agent after one tick of loitering near its leader: velocity
/// damped by `1 - 0.1 * dt`.
pub open spec fn loitered(a: Agent, dt: int) -> Agent {
    Agent {
        pos: a.pos,
        vel: Vec2 {
            x: tdiv(a.vel.x * (SCALE - tdiv(LOITER_DRAG * dt, SCALE as int)), SCALE as int) as i64,
            y: tdiv(a.vel.y * (SCALE - tdiv(LOITER_DRAG * dt, SCALE as int)), SCALE as int) as i64,
        },
    }
}

/// Whether `p` lies strictly beyond the follow range of `goal`.
pub open spec fn beyond_range(p: Vec2, goal: Vec2, s: BoidSystemSettings) -> bool {
    dist_sq(p, goal) > s.follow.range * s.follow.range
}

/// What the pursuit step leaves in the agent column of slot `i`.
pub open spec fn follow_agent(w: StoreView, s: BoidSystemSettings, dt: int, i: int) -> Option<
    Agent,
> {
    if !active_follower(w, i) {
        w.agents[i]
    } else {
        let f = w.followers[i]->Some_0;
        let a = w.agents[i]->Some_0;
        match f.state {
            PursuitState::Idle => {
                if w.agents[f.leader as int] is Some {
                    let lp = w.agents[f.leader as int]->Some_0.pos;
                    if beyond_range(a.pos, lp, s) {
                        Some(steered(a, lp, dt, s.follow.force as int))
                    } else {
                        Some(loitered(a, dt))
                    }
                } else {
                    None
                }
            },
            PursuitState::Gathering { target, progress } => {
                if w.agents[target as int] is Some {
                    let tp = w.agents[target as int]->Some_0.pos;
                    if beyond_range(a.pos, tp, s) {
                        Some(steered(a, tp, dt, s.follow.force as int))
                    } else {
                        Some(a)
                    }
                } else {
                    Some(a)
                }
            },
        }
    }
}

/// What the pursuit step leaves in the follower column of slot `i`.
pub open spec fn follow_follower(w: StoreView, s: BoidSystemSettings, dt: int, i: int) -> Option<
    Follower,
> {
    if !active_follower(w, i) {
        w.followers[i]
    } else {
        let f = w.followers[i]->Some_0;
        let a = w.agents[i]->Some_0;
        match f.state {
            PursuitState::Idle => {
                if w.agents[f.leader as int] is Some {
                    Some(f)
                } else {
                    None
                }
            },
            PursuitState::Gathering { target, progress } => {
                if w.agents[target as int] is Some {
                    let tp = w.agents[target as int]->Some_0.pos;
                    if beyond_range(a.pos, tp, s) {
                        Some(f)
                    } else {
                        if progress + dt > s.gather_threshold {
                            Some(Follower { leader: f.leader, state: PursuitState::Idle })
                        } else {
                            Some(
                                Follower {
                                    leader: f.leader,
                                    state: PursuitState::Gathering {
                                        target,
                                        progress: (progress + dt) as i64,
                                    },
                                },
                            )
                        }
                    }
                } else {
                    Some(Follower { leader: f.leader, state: PursuitState::Idle })
                }
            },
        }
    }
}

/// How many of the first `m` slots despawn against leader `l` this
/// tick.
pub open spec fn despawn_count_upto(w: StoreView, l: int, m: int) -> int
    decreases m,
{
    if m <= 0 {
        0
    } else {
        despawn_count_upto(w, l, m - 1) + if despawns_for(w, l, m - 1) {
            1int
        } else {
            0int
        }
    }
}

/// The tracking count of `l` after the first `m` slots have been
/// processed: decremented once per despawned follower of `l`, removed
/// when it reaches zero, untouched once absent.
pub open spec fn track_partial(w: StoreView, l: int, m: int) -> Option<u32> {
    match w.tracking[l] {
        Some(c) => {
            if despawn_count_upto(w, l, m) < c {
                Some((c - despawn_count_upto(w, l, m)) as u32)
            } else {
                None
            }
        },
        None => None,
    }
}

/// What the pursuit step leaves in the tracking column of slot `l`.
pub open spec fn follow_tracking(w: StoreView, l: int) -> Option<u32> {
    track_partial(w, l, w.len())
}

/// The despawn count never decreases and never exceeds the slots
/// examined.
pub proof fn lemma_despawn_count_bounds(w: StoreView, l: int, m: int)
    requires
        m >= 0,
    ensures
        0 <= despawn_count_upto(w, l, m) <= m,
    decreases m,
{
    if m > 0 {
        lemma_despawn_count_bounds(w, l, m - 1);
    }
}

/// Running follower count over a prefix, by index; agrees with
/// `followers_of` on the whole column.
pub open spec fn tracks_upto(fs: Seq<Option<Follower>>, l: int, m: int) -> int
    decreases m,
{
    if m <= 0 {
        0
    } else {
        tracks_upto(fs, l, m - 1) + tracks(fs[m - 1], l)
    }
}

pub proof fn lemma_tracks_upto_agree(fs1: Seq<Option<Follower>>, fs2: Seq<Option<Follower>>, l: int, m: int)
    requires
        0 <= m <= fs1.len(),
        m <= fs2.len(),
        forall|k: int| 0 <= k < m ==> fs1[k] == fs2[k],
    ensures
        tracks_upto(fs1, l, m) == tracks_upto(fs2, l, m),
    decreases m,
{
    if m > 0 {
        lemma_tracks_upto_agree(fs1, fs2, l, m - 1);
    }
}

pub proof fn lemma_tracks_upto_full(fs: Seq<Option<Follower>>, l: int)
    ensures
        tracks_upto(fs, l, fs.len() as int) == followers_of(fs, l),
    decreases fs.len(),
{
    if fs.len() > 0 {
        lemma_tracks_upto_full(fs.drop_last(), l);
        lemma_tracks_upto_agree(fs.drop_last(), fs, l, fs.len() - 1);
        assert(fs.last() == fs[fs.len() - 1]);
    }
}

/// A despawn against `l` is always a follower of `l`, so the despawn
/// count of a prefix never exceeds its follower count.
pub proof fn lemma_despawns_le_tracks(w: StoreView, l: int, m: int)
    requires
        0 <= m <= w.len(),
        w.followers.len() == w.agents.len(),
    ensures
        despawn_count_upto(w, l, m) <= tracks_upto(w.followers, l, m),
        tracks_upto(w.followers, l, m) >= 0,
    decreases m,
{
    if m > 0 {
        lemma_despawns_le_tracks(w, l, m - 1);
    }
}

/// A gathering follower's progress is bounded by `b`.
pub open spec fn progress_within(w: StoreView, i: int, b: int) -> bool {
    w.followers[i] matches Some(f) ==> (f.state matches PursuitState::Gathering {
        target,
        progress,
    } ==> progress <= b)
}

/// Every gathering progress of the store is bounded by `b`.
pub open spec fn all_progress_le(w: StoreView, b: int) -> bool {
    forall|i: int| 0 <= i < w.len() ==> progress_within(w, i, b)
}

/// Steers an agent toward `goal`: adds the unit vector toward the
/// goal, scaled by `dt * force`, to its velocity.
fn steer_vel(a: Agent, goal: Vec2, dt: i64, force: i64) -> (r: Agent)
    requires
        dist_sq(a.pos, goal) > 0,
        -POS_LIMIT <= a.pos.x <= POS_LIMIT,
        -POS_LIMIT <= a.pos.y <= POS_LIMIT,
        -POS_LIMIT <= goal.x <= POS_LIMIT,
        -POS_LIMIT <= goal.y <= POS_LIMIT,
        -4_000_000_000_000_000_000 <= a.vel.x <= 4_000_000_000_000_000_000,
        -4_000_000_000_000_000_000 <= a.vel.y <= 4_000_000_000_000_000_000,
        0 < dt <= DT_LIMIT,
        0 < force <= FORCE_LIMIT,
    ensures
        r == steered(a, goal, dt as int, force as int),
        -4_100_000_000_000_000_000 <= r.vel.x <= 4_100_000_000_000_000_000,
        -4_100_000_000_000_000_000 <= r.vel.y <= 4_100_000_000_000_000_000,
{
    let u = unit_toward(a.pos, goal);
    proof {
        assert(-(20_000_000_000_000int) <= u.x * dt * force <= 20_000_000_000_000int)
            by (nonlinear_arith)
            requires
                -1000 <= u.x <= 1000i64,
                0 < dt <= 1000i64,
                0 < force <= 20_000_000i64;
        assert(-(20_000_000_000_000int) <= u.y * dt * force <= 20_000_000_000_000int)
            by (nonlinear_arith)
            requires
                -1000 <= u.y <= 1000i64,
                0 < dt <= 1000i64,
                0 < force <= 20_000_000i64;
        lemma_tdiv_le(u.x * dt * force, SCALE_SQ as int, 20_000_000);
        lemma_tdiv_le(u.y * dt * force, SCALE_SQ as int, 20_000_000);
    }
    let dx = mul3_div(u.x, dt, force, SCALE_SQ);
    let dy = mul3_div(u.y, dt, force, SCALE_SQ);
    Agent { pos: a.pos, vel: Vec2 { x: a.vel.x + dx, y: a.vel.y + dy } }
}

/// Damps an agent's velocity by the loiter drag `1 - 0.1 * dt`.
fn loiter_vel(a: Agent, dt: i64) -> (r: Agent)
    requires
        0 < dt <= DT_LIMIT,
        -4_000_000_000_000_000_000 <= a.vel.x <= 4_000_000_000_000_000_000,
        -4_000_000_000_000_000_000 <= a.vel.y <= 4_000_000_000_000_000_000,
    ensures
        r == loitered(a, dt as int),
        -4_000_000_000_000_000_000 <= r.vel.x <= 4_000_000_000_000_000_000,
        -4_000_000_000_000_000_000 <= r.vel.y <= 4_000_000_000_000_000_000,
{
    proof {
        lemma_tdiv_le(LOITER_DRAG * dt, SCALE as int, 100);
    }
    let decay: i64 = SCALE - mul3_div(LOITER_DRAG, dt, 1, SCALE);
    proof {
        assert(a.vel.x * decay <= 4_000_000_000_000_000_000i64 * (SCALE as int) && a.vel.x * decay
            >= -4_000_000_000_000_000_000i64 * (SCALE as int)) by (nonlinear_arith)
            requires
                -4_000_000_000_000_000_000i64 <= a.vel.x <= 4_000_000_000_000_000_000i64,
                0 <= decay <= 1_000i64,
                SCALE == 1000i64;
        assert(a.vel.y * decay <= 4_000_000_000_000_000_000i64 * (SCALE as int) && a.vel.y * decay
            >= -4_000_000_000_000_000_000i64 * (SCALE as int)) by (nonlinear_arith)
            requires
                -4_000_000_000_000_000_000i64 <= a.vel.y <= 4_000_000_000_000_000_000i64,
                0 <= decay <= 1_000i64,
                SCALE == 1000i64;
        lemma_tdiv_le(a.vel.x * decay, SCALE as int, 4_000_000_000_000_000_000i64 as int);
        lemma_tdiv_le(a.vel.y * decay, SCALE as int, 4_000_000_000_000_000_000i64 as int);
    }
    let vx = mul3_div(a.vel.x, decay, 1, SCALE);
    let vy = mul3_div(a.vel.y, decay, 1, SCALE);
    Agent { pos: a.pos, vel: Vec2 { x: vx, y: vy } }
}

/// After the step, the follower count of every leader has dropped by
/// exactly the number of its despawned followers.
pub proof fn lemma_tracks_after_follow(
    w: StoreView,
    s: BoidSystemSettings,
    dt: int,
    fs2: Seq<Option<Follower>>,
    l: int,
    m: int,
)
    requires
        0 <= m <= w.len(),
        w.followers.len() == w.agents.len(),
        fs2.len() == w.len(),
        forall|k: int| 0 <= k < w.len() ==> fs2[k] == follow_follower(w, s, dt, k),
    ensures
        tracks_upto(fs2, l, m) == tracks_upto(w.followers, l, m) - despawn_count_upto(w, l, m),
    decreases m,
{
    if m > 0 {
        lemma_tracks_after_follow(w, s, dt, fs2, l, m - 1);
        assert(fs2[m - 1] == follow_follower(w, s, dt, m - 1));
    }
}

/// A single steering impulse is bounded by the impulse cap.
pub proof fn lemma_steer_delta_bound(p: Vec2, goal: Vec2, dt: int, force: int)
    requires
        dist_sq(p, goal) > 0,
        0 < dt <= DT_LIMIT,
        0 < force <= FORCE_LIMIT,
    ensures
        -20_000_000 <= steer_delta_x(p, goal, dt, force) <= 20_000_000,
        -20_000_000 <= steer_delta_y(p, goal, dt, force) <= 20_000_000,
{
    lemma_unit_bounded(p, goal);
    let ux = unit_x(p, goal);
    let uy = unit_y(p, goal);
    assert(-(20_000_000_000_000int) <= ux * dt * force <= 20_000_000_000_000int)
        by (nonlinear_arith)
        requires
            -1000 <= ux <= 1000,
            0 < dt <= 1000,
            0 < force <= 20_000_000i64;
    assert(-(20_000_000_000_000int) <= uy * dt * force <= 20_000_000_000_000int)
        by (nonlinear_arith)
        requires
            -1000 <= uy <= 1000,
            0 < dt <= 1000,
            0 < force <= 20_000_000i64;
    lemma_tdiv_le(ux * dt * force, SCALE_SQ as int, 20_000_000);
    lemma_tdiv_le(uy * dt * force, SCALE_SQ as int, 20_000_000);
}

/// The pursuit step never grows a velocity by more than one steering
/// impulse, and it never moves an agent.
pub proof fn lemma_follow_vel_bound(w: StoreView, s: BoidSystemSettings, dt: int, i: int, b: int)
    requires
        wf(w),
        s.valid(),
        0 < dt <= DT_LIMIT,
        0 <= i < w.len(),
        0 <= b <= 4_000_000_000_000_000_000,
        crate::store::vel_within(w, i, b),
    ensures
        follow_agent(w, s, dt, i) matches Some(a2) ==> {
            &&& -(b + 20_000_000) <= a2.vel.x <= b + 20_000_000
            &&& -(b + 20_000_000) <= a2.vel.y <= b + 20_000_000
            &&& a2.pos == w.agents[i]->Some_0.pos
        },
{
    assert(wf_slot(w, i));
    if active_follower(w, i) {
        let f = w.followers[i]->Some_0;
        let a = w.agents[i]->Some_0;
        match f.state {
            PursuitState::Idle => {
                if w.agents[f.leader as int] is Some {
                    let lp = w.agents[f.leader as int]->Some_0.pos;
                    if beyond_range(a.pos, lp, s) {
                        lemma_beyond_range_pos(a.pos, lp, s);
                        lemma_steer_delta_bound(a.pos, lp, dt, s.follow.force as int);
                    } else {
                        lemma_loiter_bound(a, dt, b);
                    }
                }
            },
            PursuitState::Gathering { target, progress } => {
                if w.agents[target as int] is Some {
                    let tp = w.agents[target as int]->Some_0.pos;
                    if beyond_range(a.pos, tp, s) {
                        lemma_beyond_range_pos(a.pos, tp, s);
                        lemma_steer_delta_bound(a.pos, tp, dt, s.follow.force as int);
                    }
                }
            },
        }
    }
}

/// Two points strictly beyond a positive range are distinct.
proof fn lemma_beyond_range_pos(p: Vec2, goal: Vec2, s: BoidSystemSettings)
    requires
        s.valid(),
        beyond_range(p, goal, s),
    ensures
        dist_sq(p, goal) > 0,
{
    assert(s.follow.range * s.follow.range >= 1) by (nonlinear_arith)
        requires s.follow.range >= 1;
}

/// Loitering never grows a velocity: the decay factor stays within
/// the unit scale.
proof fn lemma_loiter_bound(a: Agent, dt: int, b: int)
    requires
        0 < dt <= DT_LIMIT,
        b >= 0,
        -b <= a.vel.x <= b,
        -b <= a.vel.y <= b,
    ensures
        -b <= loitered(a, dt).vel.x as int <= b,
        -b <= loitered(a, dt).vel.y as int <= b,
{
    lemma_tdiv_le(LOITER_DRAG * dt, SCALE as int, 100);
    let decay = SCALE - tdiv(LOITER_DRAG * dt, SCALE as int);
    assert(-(b * (SCALE as int)) <= a.vel.x * decay <= b * (SCALE as int)) by (nonlinear_arith)
        requires
            -b <= a.vel.x <= b,
            b >= 0,
            0 <= decay <= 1000,
            SCALE == 1000i64;
    assert(-(b * (SCALE as int)) <= a.vel.y * decay <= b * (SCALE as int)) by (nonlinear_arith)
        requires
            -b <= a.vel.y <= b,
            b >= 0,
            0 <= decay <= 1000,
            SCALE == 1000i64;
    lemma_tdiv_le(a.vel.x * decay, SCALE as int, b);
    lemma_tdiv_le(a.vel.y * decay, SCALE as int, b);
}

impl AgentStore {
    /// Runs the pursuit state machine over every follower, against
    /// the positions and liveness snapshotted at tick start.
    ///
    /// Per follower: `Idle` with a live leader steers toward it when
    /// beyond follow range and loiters otherwise; `Idle` with a
    /// missing leader despawns the follower and settles the leader's
    /// tracking count (decrement, removing it at zero). `Gathering`
    /// with a live target steers toward it when beyond range and
    /// otherwise accumulates `dt` of progress, reverting to `Idle`
    /// once progress strictly exceeds the gather threshold;
    /// `Gathering` with a missing target reverts to `Idle` at once,
    /// with no despawn and no count change.
    #[verifier::rlimit(60)]
    pub fn follow(&mut self, s: &BoidSystemSettings, dt: i64)
        requires
            wf(old(self)@),
            s.valid(),
            0 < dt <= DT_LIMIT,
            all_pos_le(old(self)@, POS_LIMIT as int),
            all_vel_le(old(self)@, 4_000_000_000_000_000_000i64 as int),
            all_progress_le(old(self)@, PROGRESS_LIMIT as int),
        ensures
            final(self)@.leaders == old(self)@.leaders,
            final(self)@.agents.len() == old(self)@.len(),
            final(self)@.followers.len() == old(self)@.len(),
            final(self)@.tracking.len() == old(self)@.len(),
            forall|i: int|
                0 <= i < old(self)@.len() ==> final(self)@.agents[i] == follow_agent(
                    old(self)@,
                    *s,
                    dt as int,
                    i,
                ),
            forall|i: int|
                0 <= i < old(self)@.len() ==> final(self)@.followers[i] == follow_follower(
                    old(self)@,
                    *s,
                    dt as int,
                    i,
                ),
            forall|l: int|
                0 <= l < old(self)@.len() ==> final(self)@.tracking[l] == follow_tracking(
                    old(self)@,
                    l,
                ),
            wf(final(self)@),
            counts_ok(old(self)@) ==> counts_ok(final(self)@),
    {
        let ghost w0 = self@;
        let n = self.agents.len();
        let mut snap: Vec<Option<Agent>> = Vec::new();
        let mut k: usize = 0;
        while k < n
            invariant
                k <= n,
                n == self@.len(),
                self@ == w0,
                snap@.len() == k,
                forall|j: int| 0 <= j < k ==> snap@[j] == w0.agents[j],
            decreases n - k,
        {
            snap.push(self.agents[k]);
            k = k + 1;
        }
        proof {
            assert forall|l: int| 0 <= l < n implies self@.tracking[l] == track_partial(
                w0,
                l,
                0,
            ) by {
                assert(wf_slot(w0, l));
            }
        }
        let mut i: usize = 0;
        while i < n
            invariant
                wf(w0),
                s.valid(),
                0 < dt <= DT_LIMIT,
                all_pos_le(w0, POS_LIMIT as int),
                all_vel_le(w0, 4_000_000_000_000_000_000i64 as int),
                all_progress_le(w0, PROGRESS_LIMIT as int),
                n == w0.len(),
                i <= n,
                snap@.len() == n,
                forall|j: int| 0 <= j < n ==> snap@[j] == w0.agents[j],
                self@.leaders == w0.leaders,
                self@.agents.len() == n,
                self@.followers.len() == n,
                self@.tracking.len() == n,
                forall|j: int| i <= j < n ==> self@.agents[j] == w0.agents[j],
                forall|j: int| i <= j < n ==> self@.followers[j] == w0.followers[j],
                forall|j: int|
                    0 <= j < i ==> self@.agents[j] == follow_agent(w0, *s, dt as int, j),
                forall|j: int|
                    0 <= j < i ==> self@.followers[j] == follow_follower(w0, *s, dt as int, j),
                forall|l: int| 0 <= l < n ==> self@.tracking[l] == track_partial(w0, l, i as int),
            decreases n - i,
        {
            let ghost gi = i as int;
            let fo = self.followers[i];
            match fo {
                None => {
                    proof {
                        assert(!despawns(w0, gi));
                        assert forall|l: int| 0 <= l < n implies self@.tracking[l]
                            == track_partial(w0, l, gi + 1) by {
                            assert(self@.tracking[l] == track_partial(w0, l, gi));
                            assert(despawn_count_upto(w0, l, gi + 1) == despawn_count_upto(
                                w0,
                                l,
                                gi,
                            ));
                        }
                    }
                },
                Some(f) => {
                    proof {
                        assert(wf_slot(w0, gi));
                        assert(pos_within(w0, gi, POS_LIMIT as int));
                        assert(vel_within(w0, gi, 4_000_000_000_000_000_000i64 as int));
                        assert(progress_within(w0, gi, PROGRESS_LIMIT as int));
                        assert(snap@[gi] == w0.agents[gi]);
                    }
                    let a = match snap[i] {
                        Some(a) => a,
                        None => Agent { pos: Vec2 { x: 0, y: 0 }, vel: Vec2 { x: 0, y: 0 } },
                        // unreachable: followers are alive
                    };
                    match f.state {
                        PursuitState::Idle => {
                            match snap[f.leader] {
                                Some(la) => {
                                    proof {
                                        assert(pos_within(w0, f.leader as int, POS_LIMIT as int));
                                        assert(s.follow.range * s.follow.range
                                            <= 1_000_000_000_000_000_000int && s.follow.range
                                            * s.follow.range >= 1) by (nonlinear_arith)
                                            requires 0 < s.follow.range <= 1_000_000_000i64;
                                    }
                                    let dsq = dist_sq_i128(a.pos, la.pos);
                                    let rr = (s.follow.range as i128) * (s.follow.range as i128);
                                    if dsq > rr {
                                        let na = steer_vel(a, la.pos, dt, s.follow.force);
                                        self.agents[i] = Some(na);
                                    } else {
                                        let na = loiter_vel(a, dt);
                                        self.agents[i] = Some(na);
                                    }
                                    proof {
                                        assert(!despawns(w0, gi));
                                        assert forall|l: int| 0 <= l < n implies self@.tracking[l]
                                            == track_partial(w0, l, gi + 1) by {
                                            assert(self@.tracking[l] == track_partial(
                                                w0,
                                                l,
                                                gi,
                                            ));
                                            assert(despawn_count_upto(w0, l, gi + 1)
                                                == despawn_count_upto(w0, l, gi));
                                        }
                                    }
                                },
                                None => {
                                    let ghost old_track = self@.tracking;
                                    proof {
                                        assert forall|l: int| 0 <= l < n implies old_track[l]
                                            == track_partial(w0, l, gi) by {
                                            assert(self@.tracking[l] == track_partial(w0, l, gi));
                                        }
                                    }
                                    self.agents[i] = None;
                                    self.followers[i] = None;
                                    let t = self.tracking[f.leader];
                                    proof {
                                        let lg = f.leader as int;
                                        assert(t == old_track[lg]);
                                        assert(old_track[lg] == track_partial(w0, lg, gi));
                                        lemma_despawn_count_bounds(w0, lg, gi);
                                        if t is Some {
                                            assert(t->Some_0 >= 1);
                                        }
                                    }
                                    match t {
                                        Some(c) => {
                                            if c == 1 {
                                                self.tracking[f.leader] = None;
                                            } else {
                                                self.tracking[f.leader] = Some(c - 1);
                                            }
                                        },
                                        None => {},
                                    }
                                    proof {
                                        let lg = f.leader as int;
                                        assert(despawns_for(w0, lg, gi));
                                        lemma_despawn_count_bounds(w0, lg, gi);
                                        assert forall|l: int| 0 <= l < n implies self@.tracking[l]
                                            == track_partial(w0, l, gi + 1) by {
                                            assert(old_track[l] == track_partial(w0, l, gi));
                                            if l != lg {
                                                assert(!despawns_for(w0, l, gi));
                                                assert(despawn_count_upto(w0, l, gi + 1)
                                                    == despawn_count_upto(w0, l, gi));
                                            } else {
                                                assert(despawn_count_upto(w0, l, gi + 1)
                                                    == despawn_count_upto(w0, l, gi) + 1);
                                            }
                                        }
                                    }
                                },
                            }
                        },
                        PursuitState::Gathering { target, progress } => {
                            match snap[target] {
                                Some(ta) => {
                                    proof {
                                        assert(pos_within(w0, target as int, POS_LIMIT as int));
                                        assert(s.follow.range * s.follow.range
                                            <= 1_000_000_000_000_000_000int && s.follow.range
                                            * s.follow.range >= 1) by (nonlinear_arith)
                                            requires 0 < s.follow.range <= 1_000_000_000i64;
                                    }
                                    let dsq = dist_sq_i128(a.pos, ta.pos);
                                    let rr = (s.follow.range as i128) * (s.follow.range as i128);
                                    if dsq > rr {
                                        let na = steer_vel(a, ta.pos, dt, s.follow.force);
                                        self.agents[i] = Some(na);
                                    } else {
                                        let p2 = progress + dt;
                                        if p2 > s.gather_threshold {
                                            self.followers[i] = Some(
                                                Follower {
                                                    leader: f.leader,
                                                    state: PursuitState::Idle,
                                                },
                                            );
                                        } else {
                                            self.followers[i] = Some(
                                                Follower {
                                                    leader: f.leader,
                                                    state: PursuitState::Gathering {
                                                        target,
                                                        progress: p2,
                                                    },
                                                },
                                            );
                                        }
                                    }
                                    proof {
                                        assert(!despawns(w0, gi));
                                        assert forall|l: int| 0 <= l < n implies self@.tracking[l]
                                            == track_partial(w0, l, gi + 1) by {
                                            assert(self@.tracking[l] == track_partial(
                                                w0,
                                                l,
                                                gi,
                                            ));
                                            assert(despawn_count_upto(w0, l, gi + 1)
                                                == despawn_count_upto(w0, l, gi));
                                        }
                                    }
                                },
                                None => {
                                    self.followers[i] = Some(
                                        Follower { leader: f.leader, state: PursuitState::Idle },
                                    );
                                    proof {
                                        assert(!despawns(w0, gi));
                                        assert forall|l: int| 0 <= l < n implies self@.tracking[l]
                                            == track_partial(w0, l, gi + 1) by {
                                            assert(self@.tracking[l] == track_partial(
                                                w0,
                                                l,
                                                gi,
                                            ));
                                            assert(despawn_count_upto(w0, l, gi + 1)
                                                == despawn_count_upto(w0, l, gi));
                                        }
                                    }
                                },
                            }
                        },
                    }
                },
            }
            i = i + 1;
        }
        proof {
            let wf_ = self@;
            assert forall|l: int| 0 <= l < n implies wf_.tracking[l] == follow_tracking(w0, l) by {
                assert(wf_.tracking[l] == track_partial(w0, l, n as int));
            }
            assert forall|i2: int| 0 <= i2 < n implies wf_slot(wf_, i2) by {
                assert(wf_slot(w0, i2));
                assert(wf_.agents[i2] == follow_agent(w0, *s, dt as int, i2));
                assert(wf_.followers[i2] == follow_follower(w0, *s, dt as int, i2));
                if wf_.followers[i2] is Some {
                    let f2 = wf_.followers[i2]->Some_0;
                    let lg = f2.leader as int;
                    assert(wf_slot(w0, lg));
                    assert(wf_.agents[lg] == follow_agent(w0, *s, dt as int, lg));
                    assert(wf_.followers[lg] == follow_follower(w0, *s, dt as int, lg));
                }
                if wf_.tracking[i2] is Some {
                    assert(wf_.tracking[i2] == track_partial(w0, i2, n as int));
                    lemma_despawn_count_bounds(w0, i2, n as int);
                }
            }
            if counts_ok(w0) {
                assert forall|l: int| 0 <= l < n implies counts_ok_at(wf_, l) by {
                    assert(counts_ok_at(w0, l));
                    assert(wf_.tracking[l] == track_partial(w0, l, n as int));
                    lemma_tracks_after_follow(w0, *s, dt as int, wf_.followers, l, n as int);
                    lemma_tracks_upto_full(wf_.followers, l);
                    lemma_tracks_upto_full(w0.followers, l);
                    lemma_despawns_le_tracks(w0, l, n as int);
                    lemma_despawn_count_bounds(w0, l, n as int);
                    let d = despawn_count_upto(w0, l, n as int);
                    assert(followers_of(wf_.followers, l) == followers_of(w0.followers, l) - d);
                }
            }
        }
    }
}

} // verus!
