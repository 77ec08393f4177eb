use boids::settings::BoidSystemSettings;
use boids::store::AgentStore;
use boids::vec2::Vec2;

fn v(x: i64, y: i64) -> Vec2 {
    Vec2 { x, y }
}

/// A store with a single leader whose velocity was raised to the
/// given value through the movement intent.
fn moving_leader(vel: Vec2) -> (AgentStore, usize) {
    let mut store = AgentStore::new();
    let leader = store.spawn_leader(v(0, 0));
    store.agents[leader].as_mut().unwrap().vel = vel;
    (store, leader)
}

#[test]
fn position_advances_by_velocity_times_dt() {
    // velocity 10 units/s, half a second: 5 units of travel
    let (mut store, leader) = moving_leader(v(10_000, 0));
    store.apply_speed(500);
    assert_eq!(store.agent(leader).unwrap().pos, v(5_000, 0));
    assert_eq!(store.agent(leader).unwrap().vel, v(10_000, 0));
}

#[test]
fn drag_decays_velocity_once_per_tick() {
    // 10 * (1 - 0.33 * 0.5) = 8.35 units/s on the x axis
    let (mut store, leader) = moving_leader(v(10_000, 0));
    let s = BoidSystemSettings::default();
    store.apply_drag(&s, 500);
    assert_eq!(store.agent(leader).unwrap().vel, v(8_350, 0));
    assert_eq!(store.agent(leader).unwrap().pos, v(0, 0));
}

#[test]
fn zero_drag_keeps_velocity() {
    let (mut store, leader) = moving_leader(v(10_000, -2_500));
    let mut s = BoidSystemSettings::default();
    s.drag = 0;
    store.apply_drag(&s, 500);
    assert_eq!(store.agent(leader).unwrap().vel, v(10_000, -2_500));
}

#[test]
fn integration_then_drag_matches_the_tick_order() {
    let (mut store, leader) = moving_leader(v(10_000, 0));
    let s = BoidSystemSettings::default();
    store.apply_speed(500);
    store.apply_drag(&s, 500);
    assert_eq!(store.agent(leader).unwrap().pos, v(5_000, 0));
    assert_eq!(store.agent(leader).unwrap().vel, v(8_350, 0));
}

#[test]
fn accelerate_adds_direction_to_leaders_only() {
    let mut store = AgentStore::new();
    let leader = store.spawn_leader(v(0, 0));
    let follower = store.spawn_follower(leader);
    store.accelerate(v(1000, -1000));
    store.accelerate(v(1000, 0));
    assert_eq!(store.agent(leader).unwrap().vel, v(2000, -1000));
    assert_eq!(store.agent(follower).unwrap().vel, v(0, 0));
}

#[test]
fn drag_applies_to_every_agent_uniformly() {
    let mut store = AgentStore::new();
    let leader = store.spawn_leader(v(0, 0));
    let follower = store.spawn_follower(leader);
    store.agents[leader].as_mut().unwrap().vel = v(1000, 0);
    store.agents[follower].as_mut().unwrap().vel = v(-1000, 2000);
    let s = BoidSystemSettings::default();
    // factor: 1000 - (330 * 100) / 1000 = 967
    store.apply_drag(&s, 100);
    assert_eq!(store.agent(leader).unwrap().vel, v(967, 0));
    assert_eq!(store.agent(follower).unwrap().vel, v(-967, 1934));
}

#[test]
fn truncation_rounds_toward_zero_for_negative_velocities() {
    let (mut store, leader) = moving_leader(v(-15, 0));
    store.apply_speed(100);
    // -15 * 100 / 1000 rounds toward zero: -1, not -2
    assert_eq!(store.agent(leader).unwrap().pos, v(-1, 0));
}

#[test]
fn whole_tick_runs_integrator_last_with_one_drag() {
    let (mut store, leader) = moving_leader(v(10_000, 0));
    let s = BoidSystemSettings::default();
    store.tick(&s, 500);
    // the solitary leader sees no force: position advances by the
    // pre-drag velocity, then drag decays it exactly once
    assert_eq!(store.agent(leader).unwrap().pos, v(5_000, 0));
    assert_eq!(store.agent(leader).unwrap().vel, v(8_350, 0));
}

#[test]
fn whole_tick_steers_a_distant_follower() {
    let mut store = AgentStore::new();
    let leader = store.spawn_leader(v(1_000_000, 0));
    let follower = store.spawn_follower(leader);
    store.agents[follower].as_mut().unwrap().pos = v(0, 0);
    let s = BoidSystemSettings::default();
    store.tick(&s, 500);
    // pursuit adds the follow impulse 1000 * 500 * 10_000_000 / 10^6,
    // the integrator moves by it, and drag decays it once
    assert_eq!(store.agent(follower).unwrap().pos, v(2_500_000, 0));
    assert_eq!(store.agent(follower).unwrap().vel, v(4_175_000, 0));
}
