use boids::settings::{BoidSetting, BoidSystemSettings, ConfigError};

fn defaults() -> BoidSystemSettings {
    BoidSystemSettings::default()
}

#[test]
fn default_settings_match_documented_values() {
    let s = defaults();
    assert_eq!(s.separation, BoidSetting { range: 200_000, force: 10_000_000 });
    assert_eq!(s.alignment, BoidSetting { range: 300_000, force: 5_000_000 });
    assert_eq!(s.cohesion, BoidSetting { range: 300_000, force: 5_000_000 });
    assert_eq!(s.follow, BoidSetting { range: 100_000, force: 10_000_000 });
    assert_eq!(s.field_of_view, 750);
    assert_eq!(s.gather_threshold, 100_000);
    assert_eq!(s.drag, 330);
}

#[test]
fn default_single_setting() {
    let b = BoidSetting::default();
    assert_eq!(b, BoidSetting { range: 500_000, force: 10_000 });
}

#[test]
fn default_settings_validate() {
    assert_eq!(defaults().validate(), Ok(()));
}

#[test]
fn zero_range_is_rejected() {
    let mut s = defaults();
    s.separation.range = 0;
    assert_eq!(s.validate(), Err(ConfigError::SeparationRange));
}

#[test]
fn negative_force_is_rejected() {
    let mut s = defaults();
    s.separation.force = -5;
    assert_eq!(s.validate(), Err(ConfigError::SeparationForce));
}

#[test]
fn alignment_bounds_are_checked() {
    let mut s = defaults();
    s.alignment.range = -1;
    assert_eq!(s.validate(), Err(ConfigError::AlignmentRange));
    s = defaults();
    s.alignment.force = 0;
    assert_eq!(s.validate(), Err(ConfigError::AlignmentForce));
}

#[test]
fn cohesion_bounds_are_checked() {
    let mut s = defaults();
    s.cohesion.range = 2_000_000_000;
    assert_eq!(s.validate(), Err(ConfigError::CohesionRange));
    s = defaults();
    s.cohesion.force = 30_000_000;
    assert_eq!(s.validate(), Err(ConfigError::CohesionForce));
}

#[test]
fn follow_bounds_are_checked() {
    let mut s = defaults();
    s.follow.range = 0;
    assert_eq!(s.validate(), Err(ConfigError::FollowRange));
    s = defaults();
    s.follow.force = -1;
    assert_eq!(s.validate(), Err(ConfigError::FollowForce));
}

#[test]
fn scalar_bounds_are_checked() {
    let mut s = defaults();
    s.field_of_view = -1;
    assert_eq!(s.validate(), Err(ConfigError::FieldOfView));
    s = defaults();
    s.gather_threshold = 0;
    assert_eq!(s.validate(), Err(ConfigError::GatherThreshold));
    s = defaults();
    s.drag = -1;
    assert_eq!(s.validate(), Err(ConfigError::Drag));
}

#[test]
fn first_failure_wins() {
    let mut s = defaults();
    s.separation.range = 0;
    s.drag = -1;
    assert_eq!(s.validate(), Err(ConfigError::SeparationRange));
}
