//! The global laws of the simulation core, stated over the
//! specification functions that the step contracts use.

use vstd::prelude::*;

verus! {

use vstd::arithmetic::div_mod::lemma_div_pos_is_pos;
use crate::num::tdiv;
use crate::num::SCALE_SQ;
use crate::num::DT_LIMIT;
use crate::settings::BoidSystemSettings;
use crate::store::StoreView;
use crate::store::Follower;
use crate::store::PursuitState;
use crate::store::counts_ok;
use crate::store::counts_ok_at;
use crate::store::followers_of;
use crate::store::lemma_followers_of_le_len;
use crate::store::wf;
use crate::vec2::IVec;
use crate::vec2::dist_sq;
use crate::vec2::unit_x;
use crate::vec2::unit_y;
use crate::vec2::lemma_dist_sq_symmetric;
use crate::vec2::lemma_dot_symmetric;
use crate::vec2::lemma_unit_antisymmetric;
use crate::flocking::apos;
use crate::flocking::avel;
use crate::flocking::engaged;
use crate::flocking::sep_term;
use crate::flocking::ncount;
use crate::flocking::vsum;
use crate::flocking::align_delta;
use crate::pursuit::active_follower;
use crate::pursuit::beyond_range;
use crate::pursuit::despawns;
use crate::pursuit::follow_agent;
use crate::pursuit::follow_follower;
use crate::pursuit::follow_tracking;

/// Separation symmetry: for an engaged pair of distinct agents, the
/// velocity delta applied to one is the exact negation of the delta
/// applied to the other — `dt * force` along the connecting unit
/// vector, with opposite signs.
pub proof fn lemma_separation_symmetry(
    w: StoreView,
    s: BoidSystemSettings,
    dt: int,
    i: int,
    j: int,
)
    requires
        engaged(w, i, j, s.separation.range as int, s.field_of_view as int),
        dist_sq(apos(w, i), apos(w, j)) > 0,
    ensures
        sep_term(w, s, dt, i, j).x == -sep_term(w, s, dt, j, i).x,
        sep_term(w, s, dt, i, j).y == -sep_term(w, s, dt, j, i).y,
        sep_term(w, s, dt, i, j) == (IVec {
            x: -tdiv(unit_x(apos(w, i), apos(w, j)) * dt * s.separation.force, SCALE_SQ as int),
            y: -tdiv(unit_y(apos(w, i), apos(w, j)) * dt * s.separation.force, SCALE_SQ as int),
        }),
{
    let pi = apos(w, i);
    let pj = apos(w, j);
    lemma_dist_sq_symmetric(pi, pj);
    lemma_dot_symmetric(avel(w, i), avel(w, j));
    assert(engaged(w, j, i, s.separation.range as int, s.field_of_view as int));
    lemma_unit_antisymmetric(pi, pj);
    let ux = unit_x(pi, pj);
    let uy = unit_y(pi, pj);
    assert(unit_x(pj, pi) * dt * s.separation.force == -(ux * dt * s.separation.force))
        by (nonlinear_arith)
        requires unit_x(pj, pi) == -ux;
    assert(unit_y(pj, pi) * dt * s.separation.force == -(uy * dt * s.separation.force))
        by (nonlinear_arith)
        requires unit_y(pj, pi) == -uy;
    crate::num::lemma_tdiv_neg(ux * dt * s.separation.force, SCALE_SQ as int);
    crate::num::lemma_tdiv_neg(uy * dt * s.separation.force, SCALE_SQ as int);
}

/// Alignment steers toward the neighbourhood mean, never away: each
/// component of the alignment delta carries the sign of the same
/// component of the neighbours' average velocity.
pub proof fn lemma_alignment_toward_mean(w: StoreView, s: BoidSystemSettings, dt: int, i: int)
    requires
        s.valid(),
        0 < dt <= DT_LIMIT,
        ncount(w, s.alignment.range as int, s.field_of_view as int, i, w.len()) > 0,
    ensures
        ({
            let c = ncount(w, s.alignment.range as int, s.field_of_view as int, i, w.len());
            let sm = vsum(w, s.alignment.range as int, s.field_of_view as int, i, w.len());
            &&& (tdiv(sm.x, c) >= 0 ==> align_delta(w, s, dt, i).x >= 0)
            &&& (tdiv(sm.x, c) <= 0 ==> align_delta(w, s, dt, i).x <= 0)
            &&& (tdiv(sm.y, c) >= 0 ==> align_delta(w, s, dt, i).y >= 0)
            &&& (tdiv(sm.y, c) <= 0 ==> align_delta(w, s, dt, i).y <= 0)
        }),
{
    let c = ncount(w, s.alignment.range as int, s.field_of_view as int, i, w.len());
    let sm = vsum(w, s.alignment.range as int, s.field_of_view as int, i, w.len());
    let ax = tdiv(sm.x, c);
    let ay = tdiv(sm.y, c);
    lemma_sign_preserved(ax, dt, s.alignment.force as int);
    lemma_sign_preserved(ay, dt, s.alignment.force as int);
}

/// Multiplying by a positive `dt * force` and dividing by the squared
/// scale preserves the sign of a steering component.
proof fn lemma_sign_preserved(a: int, dt: int, force: int)
    requires
        dt > 0,
        force > 0,
    ensures
        a >= 0 ==> tdiv(a * dt * force, SCALE_SQ as int) >= 0,
        a <= 0 ==> tdiv(a * dt * force, SCALE_SQ as int) <= 0,
{
    vstd::arithmetic::div_mod::lemma_div_of0(SCALE_SQ as int);
    if a == 0 {
        assert(a * dt * force == 0) by (nonlinear_arith)
            requires a == 0;
    }
    if a >= 0 {
        assert(a * dt * force >= 0) by (nonlinear_arith)
            requires a >= 0, dt > 0, force > 0;
        lemma_div_pos_is_pos(a * dt * force, SCALE_SQ as int);
    } else {
        assert(a * dt * force <= 0 && -(a * dt * force) >= 0) by (nonlinear_arith)
            requires a <= 0, dt > 0, force > 0;
        lemma_div_pos_is_pos(-(a * dt * force), SCALE_SQ as int);
    }
}

/// Reference-count sanity: under the tracking invariant, every
/// attached count lies between one and the number of slots, and the
/// component is absent exactly when no follower references the slot.
pub proof fn lemma_count_bounds(w: StoreView, l: int)
    requires
        wf(w),
        counts_ok(w),
        0 <= l < w.len(),
    ensures
        w.tracking[l] is None <==> followers_of(w.followers, l) == 0,
        w.tracking[l] matches Some(c) ==> 1 <= c <= w.len(),
{
    assert(counts_ok_at(w, l));
    lemma_followers_of_le_len(w.followers, l);
}

/// Gather accumulation: a gathering follower within range of its
/// live target gains exactly `dt` of progress, and reverts to `Idle`
/// on the very tick its progress strictly exceeds the threshold —
/// not before.
pub proof fn lemma_gather_progress(
    w: StoreView,
    s: BoidSystemSettings,
    dt: int,
    i: int,
    target: usize,
    progress: i64,
)
    requires
        active_follower(w, i),
        w.followers[i]->Some_0.state == (PursuitState::Gathering { target, progress }),
        w.agents[target as int] is Some,
        !beyond_range(apos(w, i), w.agents[target as int]->Some_0.pos, s),
        i64::MIN <= progress + dt <= i64::MAX,
    ensures
        progress + dt > s.gather_threshold ==> follow_follower(w, s, dt, i) == Some(
            Follower { leader: w.followers[i]->Some_0.leader, state: PursuitState::Idle },
        ),
        progress + dt <= s.gather_threshold ==> follow_follower(w, s, dt, i) == Some(
            Follower {
                leader: w.followers[i]->Some_0.leader,
                state: PursuitState::Gathering { target, progress: (progress + dt) as i64 },
            },
        ),
        follow_agent(w, s, dt, i) == w.agents[i],
{
}

/// A missing gather target sends the follower back to `Idle` at
/// once: no despawn, no velocity change, and no tracking mutation
/// anywhere if nothing despawns this tick.
pub proof fn lemma_missing_target(w: StoreView, s: BoidSystemSettings, dt: int, i: int)
    requires
        wf(w),
        active_follower(w, i),
        w.followers[i]->Some_0.state matches PursuitState::Gathering { target, progress },
        w.agents[w.followers[i]->Some_0.state->target as int] is None,
    ensures
        follow_follower(w, s, dt, i) == Some(
            Follower { leader: w.followers[i]->Some_0.leader, state: PursuitState::Idle },
        ),
        follow_agent(w, s, dt, i) == w.agents[i],
        !despawns(w, i),
        (forall|k: int| 0 <= k < w.len() ==> !despawns(w, k)) ==> forall|l: int|
            0 <= l < w.len() ==> follow_tracking(w, l) == w.tracking[l],
{
    if forall|k: int| 0 <= k < w.len() ==> !despawns(w, k) {
        assert forall|l: int| 0 <= l < w.len() implies follow_tracking(w, l) == w.tracking[l] by {
            lemma_no_despawns_no_change(w, l, w.len());
        }
    }
}

/// With no despawns this tick, every tracking count is untouched.
proof fn lemma_no_despawns_no_change(w: StoreView, l: int, m: int)
    requires
        wf(w),
        0 <= l < w.len(),
        forall|k: int| 0 <= k < w.len() ==> !despawns(w, k),
        0 <= m <= w.len(),
    ensures
        crate::pursuit::despawn_count_upto(w, l, m) == 0,
        crate::pursuit::track_partial(w, l, m) == w.tracking[l],
    decreases m,
{
    assert(crate::store::wf_slot(w, l));
    if m > 0 {
        lemma_no_despawns_no_change(w, l, m - 1);
    }
}

} // verus!
