//! Simulation configuration: one `(range, force)` pair per behaviour,
//! the shared field-of-view threshold, the gather-completion threshold
//! and the drag coefficient. All values are fixed-point (three decimal
//! digits); all are read-only during a tick.

use vstd::prelude::*;

verus! {

use crate::num::RANGE_LIMIT;
use crate::num::FORCE_LIMIT;
use crate::num::FOV_LIMIT;
use crate::num::GATHER_LIMIT;
use crate::num::DRAG_LIMIT;

/// The `(range, force)` pair of a single behaviour.
#[derive(Clone, Copy, PartialEq, Eq, Structural, Debug)]
pub struct BoidSetting {
    /// Two agents interact under this behaviour only when their
    /// distance is below `range`.
    pub range: i64,
    /// Scales the velocity impulse the behaviour applies.
    pub force: i64,
}

/// The whole configuration surface of the simulation core.
#[derive(Clone, Copy, PartialEq, Eq, Structural, Debug)]
pub struct BoidSystemSettings {
    pub separation: BoidSetting,
    pub alignment: BoidSetting,
    pub cohesion: BoidSetting,
    pub follow: BoidSetting,
    /// Two agents must have a velocity dot product above the negation
    /// of this threshold to engage. The dot product is taken on raw,
    /// unnormalised velocities, so the effective cone depends on agent
    /// speed; that coupling is kept deliberately.
    pub field_of_view: i64,
    /// A gathering follower reverts to following its leader once its
    /// accumulated progress exceeds this threshold strictly.
    pub gather_threshold: i64,
    /// Velocities decay by `1 - drag * dt` once per tick.
    pub drag: i64,
}

/// The reason a configuration was rejected at load time: the field
/// that is out of bounds. Ranges and forces must be positive; every
/// value must stay below the fixed-point limit of its kind.
#[derive(Clone, Copy, PartialEq, Eq, Structural, Debug)]
pub enum ConfigError {
    SeparationRange,
    SeparationForce,
    AlignmentRange,
    AlignmentForce,
    CohesionRange,
    CohesionForce,
    FollowRange,
    FollowForce,
    FieldOfView,
    GatherThreshold,
    Drag,
}

impl BoidSetting {
    /// A behaviour setting is valid when its range and force are
    /// positive and within the fixed-point limits.
    pub open spec fn valid(self) -> bool {
        &&& 0 < self.range <= RANGE_LIMIT
        &&& 0 < self.force <= FORCE_LIMIT
    }
}

impl BoidSystemSettings {
    /// A configuration is valid when every behaviour setting is and
    /// the shared scalars are within their limits.
    pub open spec fn valid(self) -> bool {
        &&& self.separation.valid()
        &&& self.alignment.valid()
        &&& self.cohesion.valid()
        &&& self.follow.valid()
        &&& 0 <= self.field_of_view <= FOV_LIMIT
        &&& 0 < self.gather_threshold <= GATHER_LIMIT
        &&& 0 <= self.drag <= DRAG_LIMIT
    }

    /// The outcome `validate` must produce: the first out-of-bounds
    /// field in declaration order, or success.
    pub open spec fn spec_validate(self) -> Result<(), ConfigError> {
        if !(0 < self.separation.range <= RANGE_LIMIT) {
            Err(ConfigError::SeparationRange)
        } else if !(0 < self.separation.force <= FORCE_LIMIT) {
            Err(ConfigError::SeparationForce)
        } else if !(0 < self.alignment.range <= RANGE_LIMIT) {
            Err(ConfigError::AlignmentRange)
        } else if !(0 < self.alignment.force <= FORCE_LIMIT) {
            Err(ConfigError::AlignmentForce)
        } else if !(0 < self.cohesion.range <= RANGE_LIMIT) {
            Err(ConfigError::CohesionRange)
        } else if !(0 < self.cohesion.force <= FORCE_LIMIT) {
            Err(ConfigError::CohesionForce)
        } else if !(0 < self.follow.range <= RANGE_LIMIT) {
            Err(ConfigError::FollowRange)
        } else if !(0 < self.follow.force <= FORCE_LIMIT) {
            Err(ConfigError::FollowForce)
        } else if !(0 <= self.field_of_view <= FOV_LIMIT) {
            Err(ConfigError::FieldOfView)
        } else if !(0 < self.gather_threshold <= GATHER_LIMIT) {
            Err(ConfigError::GatherThreshold)
        } else if !(0 <= self.drag <= DRAG_LIMIT) {
            Err(ConfigError::Drag)
        } else {
            Ok(())
        }
    }

    /// Checks a configuration at load time; a rejected one never
    /// reaches the simulation.
    pub fn validate(&self) -> (r: Result<(), ConfigError>)
        ensures
            r == self.spec_validate(),
            r is Ok <==> self.valid(),
    {
        if !(0 < self.separation.range && self.separation.range <= RANGE_LIMIT) {
            Err(ConfigError::SeparationRange)
        } else if !(0 < self.separation.force && self.separation.force <= FORCE_LIMIT) {
            Err(ConfigError::SeparationForce)
        } else if !(0 < self.alignment.range && self.alignment.range <= RANGE_LIMIT) {
            Err(ConfigError::AlignmentRange)
        } else if !(0 < self.alignment.force && self.alignment.force <= FORCE_LIMIT) {
            Err(ConfigError::AlignmentForce)
        } else if !(0 < self.cohesion.range && self.cohesion.range <= RANGE_LIMIT) {
            Err(ConfigError::CohesionRange)
        } else if !(0 < self.cohesion.force && self.cohesion.force <= FORCE_LIMIT) {
            Err(ConfigError::CohesionForce)
        } else if !(0 < self.follow.range && self.follow.range <= RANGE_LIMIT) {
            Err(ConfigError::FollowRange)
        } else if !(0 < self.follow.force && self.follow.force <= FORCE_LIMIT) {
            Err(ConfigError::FollowForce)
        } else if !(0 <= self.field_of_view && self.field_of_view <= FOV_LIMIT) {
            Err(ConfigError::FieldOfView)
        } else if !(0 < self.gather_threshold && self.gather_threshold <= GATHER_LIMIT) {
            Err(ConfigError::GatherThreshold)
        } else if !(0 <= self.drag && self.drag <= DRAG_LIMIT) {
            Err(ConfigError::Drag)
        } else {
            Ok(())
        }
    }
}

impl Default for BoidSetting {
    /// The fallback behaviour setting: half a thousand units of range,
    /// a hundredth of a unit of force.
    fn default() -> (s: Self)
        ensures
            s == (BoidSetting { range: 500_000i64, force: 10_000i64 }),
            s.valid(),
    {
        BoidSetting { range: 500_000, force: 10_000 }
    }
}

impl Default for BoidSystemSettings {
    /// The documented default configuration: separation at 200 units
    /// with force 10000, alignment and cohesion at 300 units with
    /// force 5000, follow at 100 units with force 10000, a 0.75
    /// field-of-view threshold, a gather threshold of 100 time units
    /// and a drag coefficient of 0.33 per second.
    fn default() -> (s: Self)
        ensures
            s == (BoidSystemSettings {
                separation: BoidSetting { range: 200_000i64, force: 10_000_000i64 },
                alignment: BoidSetting { range: 300_000i64, force: 5_000_000i64 },
                cohesion: BoidSetting { range: 300_000i64, force: 5_000_000i64 },
                follow: BoidSetting { range: 100_000i64, force: 10_000_000i64 },
                field_of_view: 750i64,
                gather_threshold: 100_000i64,
                drag: 330i64,
            }),
            s.valid(),
    {
        BoidSystemSettings {
            separation: BoidSetting { range: 200_000, force: 10_000_000 },
            alignment: BoidSetting { range: 300_000, force: 5_000_000 },
            cohesion: BoidSetting { range: 300_000, force: 5_000_000 },
            follow: BoidSetting { range: 100_000, force: 10_000_000 },
            field_of_view: 750,
            gather_threshold: 100_000,
            drag: 330,
        }
    }
}

} // verus!
