//! The ambient conditions that organisms live in.
use crate::fixed::{clamp, clamp_spec, UNIT};
use vstd::prelude::*;

verus! {

/// The resource pool; carried, not yet consumed by any behaviour.
#[derive(Clone, Copy, Debug)]
pub struct Resources {
    pub organic: i64,
    pub minerals: i64,
    pub light: i64,
}

/// Temperature, light level and moisture in `[0, UNIT]`, and a resource pool.
#[derive(Clone, Copy, Debug)]
pub struct Environment {
    pub temperature: i64,
    pub light_level: i64,
    pub moisture: i64,
    pub resources: Resources,
}

impl Environment {
    /// The three ambient levels lie in `[0, UNIT]`.
    pub open spec fn wf(&self) -> bool {
        &&& 0 <= self.temperature <= UNIT
        &&& 0 <= self.light_level <= UNIT
        &&& 0 <= self.moisture <= UNIT
    }

    /// Builds an environment, saturating the three ambient levels into `[0, UNIT]`;
    /// the resources are kept as given.
    pub fn new(
        temperature: i64,
        light_level: i64,
        moisture: i64,
        organic: i64,
        minerals: i64,
        light: i64,
    ) -> (r: Environment)
        ensures
            r.wf(),
            r.temperature == clamp_spec(temperature as int, 0, UNIT as int),
            r.light_level == clamp_spec(light_level as int, 0, UNIT as int),
            r.moisture == clamp_spec(moisture as int, 0, UNIT as int),
            r.resources == (Resources { organic, minerals, light }),
    {
        Environment {
            temperature: clamp(temperature, 0, UNIT),
            light_level: clamp(light_level, 0, UNIT),
            moisture: clamp(moisture, 0, UNIT),
            resources: Resources { organic, minerals, light },
        }
    }
}

} // verus!
