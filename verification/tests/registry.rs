use boids::settings::BoidSystemSettings;
use boids::store::AgentStore;
use boids::vec2::Vec2;

fn v(x: i64, y: i64) -> Vec2 {
    Vec2 { x, y }
}

#[test]
fn count_appears_on_first_reference() {
    let mut store = AgentStore::new();
    let leader = store.spawn_leader(v(0, 0));
    assert_eq!(store.tracking_count(leader), None);
    store.spawn_follower(leader);
    assert_eq!(store.tracking_count(leader), Some(1));
}

#[test]
fn count_stays_within_spawn_total() {
    let mut store = AgentStore::new();
    let leader = store.spawn_leader(v(0, 0));
    let n = 5;
    for k in 1..=n {
        store.spawn_follower(leader);
        assert_eq!(store.tracking_count(leader), Some(k));
    }
    // remove the leader, then let the pursuit step drain the count
    store.despawn(leader);
    let s = BoidSystemSettings::default();
    store.follow(&s, 100);
    assert_eq!(store.tracking_count(leader), None);
}

#[test]
fn interleaved_spawns_keep_counts_exact() {
    let mut store = AgentStore::new();
    let a = store.spawn_leader(v(0, 0));
    let b = store.spawn_leader(v(500_000, 0));
    store.spawn_follower(a);
    store.spawn_follower(b);
    store.spawn_follower(a);
    assert_eq!(store.tracking_count(a), Some(2));
    assert_eq!(store.tracking_count(b), Some(1));
    store.despawn(a);
    let s = BoidSystemSettings::default();
    store.follow(&s, 100);
    assert_eq!(store.tracking_count(a), None);
    assert_eq!(store.tracking_count(b), Some(1));
}

#[test]
fn external_follower_despawn_leaks_one_reference() {
    // The core defines no decrement path for a follower that is
    // removed externally: the leader's count keeps the stale
    // reference. This mirrors the original behaviour deliberately.
    let mut store = AgentStore::new();
    let leader = store.spawn_leader(v(0, 0));
    let follower = store.spawn_follower(leader);
    store.despawn(follower);
    let s = BoidSystemSettings::default();
    store.follow(&s, 100);
    assert_eq!(store.tracking_count(leader), Some(1));
}

#[test]
fn spawning_creates_one_follower_per_leader() {
    let mut store = AgentStore::new();
    let a = store.spawn_leader(v(0, 0));
    let b = store.spawn_leader(v(300_000, 400_000));
    let before = store.len();
    store.spawning();
    assert_eq!(store.len(), before + 2);
    // each new follower starts at its leader's position, idle
    let fa = store.follower(before).unwrap();
    let fb = store.follower(before + 1).unwrap();
    assert_eq!(fa.leader, a);
    assert_eq!(fb.leader, b);
    assert_eq!(store.agent(before).unwrap().pos, v(0, 0));
    assert_eq!(store.agent(before + 1).unwrap().pos, v(300_000, 400_000));
    assert_eq!(store.agent(before).unwrap().vel, v(0, 0));
    assert_eq!(store.tracking_count(a), Some(1));
    assert_eq!(store.tracking_count(b), Some(1));
    // a second wave doubles the counts, not the leaders
    store.spawning();
    assert_eq!(store.len(), before + 4);
    assert_eq!(store.tracking_count(a), Some(2));
    assert_eq!(store.tracking_count(b), Some(2));
}

#[test]
fn spawning_without_leaders_does_nothing() {
    let mut store = AgentStore::new();
    store.spawning();
    assert_eq!(store.len(), 0);
}
