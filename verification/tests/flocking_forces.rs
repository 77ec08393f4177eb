use boids::settings::BoidSystemSettings;
use boids::store::{Agent, AgentStore, Follower, PursuitState};
use boids::vec2::Vec2;

fn v(x: i64, y: i64) -> Vec2 {
    Vec2 { x, y }
}

/// A store of plain followers at the given positions and velocities,
/// all referencing a leader in slot 0 far away from every flocking
/// range.
fn flock(agents: &[(Vec2, Vec2)]) -> AgentStore {
    let mut store = AgentStore {
        agents: vec![Some(Agent { pos: v(900_000_000, 900_000_000), vel: v(0, 0) })],
        leaders: vec![true],
        followers: vec![None],
        tracking: vec![None],
    };
    for &(pos, vel) in agents {
        store.agents.push(Some(Agent { pos, vel }));
        store.leaders.push(false);
        store.followers.push(Some(Follower { leader: 0, state: PursuitState::Idle }));
        store.tracking.push(None);
    }
    store
}

#[test]
fn separation_is_equal_and_opposite() {
    let mut store = flock(&[(v(0, 0), v(0, 0)), (v(100_000, 0), v(0, 0))]);
    let s = BoidSystemSettings::default();
    store.separation(&s, 100);
    // impulse magnitude: 1000 (unit) * 100 (dt) * 10_000_000 / 1_000_000
    let a = store.agent(1).unwrap();
    let b = store.agent(2).unwrap();
    assert_eq!(a.vel, v(-1_000_000, 0));
    assert_eq!(b.vel, v(1_000_000, 0));
    assert_eq!(a.vel.x, -b.vel.x);
    assert_eq!(a.vel.y, -b.vel.y);
    // positions are untouched by the force pass
    assert_eq!(a.pos, v(0, 0));
    assert_eq!(b.pos, v(100_000, 0));
}

#[test]
fn separation_skips_pairs_outside_range() {
    let mut store = flock(&[(v(0, 0), v(0, 0)), (v(250_000, 0), v(0, 0))]);
    let s = BoidSystemSettings::default();
    store.separation(&s, 100);
    assert_eq!(store.agent(1).unwrap().vel, v(0, 0));
    assert_eq!(store.agent(2).unwrap().vel, v(0, 0));
}

#[test]
fn separation_skips_coincident_agents() {
    let mut store = flock(&[(v(0, 0), v(0, 0)), (v(0, 0), v(0, 0))]);
    let s = BoidSystemSettings::default();
    store.separation(&s, 100);
    assert_eq!(store.agent(1).unwrap().vel, v(0, 0));
    assert_eq!(store.agent(2).unwrap().vel, v(0, 0));
}

#[test]
fn field_of_view_depends_on_speed() {
    // Fast opposed velocities: the raw dot product is far below the
    // negated threshold, so the pair never engages.
    let mut fast = flock(&[(v(0, 0), v(0, -1000)), (v(100_000, 0), v(0, 1000))]);
    let s = BoidSystemSettings::default();
    fast.separation(&s, 100);
    assert_eq!(fast.agent(1).unwrap().vel, v(0, -1000));
    // Slow agents at the very same angle still engage: the dot
    // product is taken on raw, unnormalised velocities.
    let mut slow = flock(&[(v(0, 0), v(0, -10)), (v(100_000, 0), v(0, 10))]);
    slow.separation(&s, 100);
    assert_eq!(slow.agent(1).unwrap().vel, v(-1_000_000, -10));
    assert_eq!(slow.agent(2).unwrap().vel, v(1_000_000, 10));
}

#[test]
fn alignment_steers_toward_neighbourhood_mean() {
    let mut store = flock(&[
        (v(0, 0), v(1000, 0)),
        (v(100_000, 0), v(1000, 0)),
        (v(200_000, 0), v(0, 1000)),
    ]);
    let s = BoidSystemSettings::default();
    store.alignment(&s, 100);
    // agents 1 and 2 average their two neighbours to (500, 500);
    // delta = 500 * 100 * 5_000_000 / 1_000_000 = 250_000 per axis
    assert_eq!(store.agent(1).unwrap().vel, v(251_000, 250_000));
    assert_eq!(store.agent(2).unwrap().vel, v(251_000, 250_000));
    // agent 3 averages (1000, 0): its delta points along the mean
    assert_eq!(store.agent(3).unwrap().vel, v(500_000, 1000));
}

#[test]
fn alignment_without_neighbours_is_a_no_op() {
    let mut store = flock(&[(v(0, 0), v(1000, 0))]);
    let s = BoidSystemSettings::default();
    store.alignment(&s, 100);
    assert_eq!(store.agent(1).unwrap().vel, v(1000, 0));
}

#[test]
fn cohesion_pulls_toward_centre_of_mass() {
    let mut store = flock(&[
        (v(0, 0), v(1000, 0)),
        (v(100_000, 0), v(1000, 0)),
        (v(200_000, 0), v(1000, 0)),
    ]);
    let s = BoidSystemSettings::default();
    store.cohesion(&s, 100);
    // agent 1: centre of neighbours at 150_000, offset /10 = 15_000,
    // delta = 15_000 * 100 * 5_000_000 / 1_000_000 = 7_500_000
    assert_eq!(store.agent(1).unwrap().vel, v(7_501_000, 0));
    // agent 2 sits at its neighbours' centre already
    assert_eq!(store.agent(2).unwrap().vel, v(1000, 0));
    // agent 3 is pulled back toward the flock
    assert_eq!(store.agent(3).unwrap().vel, v(-7_499_000, 0));
}

#[test]
fn leaders_are_not_part_of_the_flock() {
    // A single follower near the leader: no pair of followers exists,
    // so no flocking force acts on anything.
    let mut store = flock(&[(v(0, 0), v(500, 0))]);
    store.agents[0] = Some(Agent { pos: v(1_000, 0), vel: v(0, 0) });
    let s = BoidSystemSettings::default();
    store.separation(&s, 100);
    store.alignment(&s, 100);
    store.cohesion(&s, 100);
    assert_eq!(store.agent(0).unwrap().vel, v(0, 0));
    assert_eq!(store.agent(1).unwrap().vel, v(500, 0));
}
