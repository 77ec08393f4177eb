use boids::settings::BoidSystemSettings;
use boids::store::{AgentStore, Follower, PursuitState};
use boids::vec2::Vec2;

fn v(x: i64, y: i64) -> Vec2 {
    Vec2 { x, y }
}

#[test]
fn idle_steers_toward_distant_leader() {
    let mut store = AgentStore::new();
    let leader = store.spawn_leader(v(1_000_000, 0));
    let follower = store.spawn_follower(leader);
    // move the follower a thousand units away from its leader
    store.agents[follower].as_mut().unwrap().pos = v(0, 0);
    let s = BoidSystemSettings::default();
    store.follow(&s, 100);
    // unit vector (1000, 0); delta = 1000 * 100 * 10_000_000 / 1_000_000
    assert_eq!(store.agent(follower).unwrap().vel, v(1_000_000, 0));
    assert_eq!(store.agent(follower).unwrap().pos, v(0, 0));
}

#[test]
fn idle_loiters_within_follow_range() {
    let mut store = AgentStore::new();
    let leader = store.spawn_leader(v(50_000, 0));
    let follower = store.spawn_follower(leader);
    store.agents[follower].as_mut().unwrap().pos = v(0, 0);
    store.agents[follower].as_mut().unwrap().vel = v(1000, 0);
    let s = BoidSystemSettings::default();
    store.follow(&s, 100);
    // loiter decay: 1 - 0.1 * dt, so 1000 * 990 / 1000
    assert_eq!(store.agent(follower).unwrap().vel, v(990, 0));
}

#[test]
fn despawn_on_missing_leader_settles_the_count() {
    let mut store = AgentStore::new();
    let leader = store.spawn_leader(v(0, 0));
    let follower = store.spawn_follower(leader);
    assert_eq!(store.tracking_count(leader), Some(1));
    store.despawn(leader);
    // the count outlives the leader until the next pursuit tick
    assert_eq!(store.tracking_count(leader), Some(1));
    let s = BoidSystemSettings::default();
    store.follow(&s, 100);
    assert!(!store.is_live(follower));
    assert_eq!(store.follower(follower), None);
    assert_eq!(store.tracking_count(leader), None);
}

#[test]
fn despawn_decrements_once_per_follower() {
    let mut store = AgentStore::new();
    let leader = store.spawn_leader(v(0, 0));
    let f1 = store.spawn_follower(leader);
    let f2 = store.spawn_follower(leader);
    let f3 = store.spawn_follower(leader);
    assert_eq!(store.tracking_count(leader), Some(3));
    store.despawn(leader);
    let s = BoidSystemSettings::default();
    store.follow(&s, 100);
    assert!(!store.is_live(f1) && !store.is_live(f2) && !store.is_live(f3));
    assert_eq!(store.tracking_count(leader), None);
}

#[test]
fn gather_accumulates_exactly_dt_per_tick() {
    let mut store = AgentStore::new();
    let leader = store.spawn_leader(v(0, 0));
    let follower = store.spawn_follower(leader);
    let target = store.spawn_leader(v(10_000, 0));
    store.begin_gather(follower, target);
    let s = BoidSystemSettings::default();
    // dt = 0.1 in fixed point; the follower sits within follow range
    for _ in 0..1000 {
        store.follow(&s, 100);
    }
    // after 1000 ticks progress is exactly the threshold: strictly
    // greater is required, so the state is still gathering
    assert_eq!(
        store.follower(follower),
        Some(Follower { leader, state: PursuitState::Gathering { target, progress: 100_000 } })
    );
    store.follow(&s, 100);
    // tick 1001 pushes progress to 100.1 > 100: back to idle
    assert_eq!(store.follower(follower), Some(Follower { leader, state: PursuitState::Idle }));
}

#[test]
fn gather_far_from_target_steers_without_progress() {
    let mut store = AgentStore::new();
    let leader = store.spawn_leader(v(0, 0));
    let follower = store.spawn_follower(leader);
    let target = store.spawn_leader(v(1_000_000, 0));
    store.begin_gather(follower, target);
    let s = BoidSystemSettings::default();
    store.follow(&s, 100);
    assert_eq!(store.agent(follower).unwrap().vel, v(1_000_000, 0));
    assert_eq!(
        store.follower(follower),
        Some(Follower { leader, state: PursuitState::Gathering { target, progress: 0 } })
    );
}

#[test]
fn missing_gather_target_reverts_to_idle() {
    let mut store = AgentStore::new();
    let leader = store.spawn_leader(v(0, 0));
    let follower = store.spawn_follower(leader);
    let target = store.spawn_leader(v(10_000, 0));
    store.begin_gather(follower, target);
    store.followers[follower] =
        Some(Follower { leader, state: PursuitState::Gathering { target, progress: 5_000 } });
    store.despawn(target);
    let before = store.agent(follower).unwrap();
    let s = BoidSystemSettings::default();
    store.follow(&s, 100);
    // idle again, still alive, velocity untouched, count untouched
    assert_eq!(store.follower(follower), Some(Follower { leader, state: PursuitState::Idle }));
    assert!(store.is_live(follower));
    assert_eq!(store.agent(follower).unwrap(), before);
    assert_eq!(store.tracking_count(leader), Some(1));
}
