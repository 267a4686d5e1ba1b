//! The player's economy, as reported by each world snapshot.

use vstd::prelude::*;

verus! {

/// Current player resources: minerals, vespene and unit capacity.
#[derive(Default, Clone, Copy, Debug, PartialEq, Eq, Structural)]
pub struct PlayerResources {
    pub minerals: u32,
    pub vespene: u32,
    pub unit_capacity: u32,
    pub used_capacity: u32,
}

impl PlayerResources {
    /// Assemble the resource record from the snapshot's plain counters.
    pub fn from_common(minerals: u32, vespene: u32, food_cap: u32, food_used: u32) -> (r:
        PlayerResources)
        ensures
            r == (PlayerResources {
                minerals,
                vespene,
                unit_capacity: food_cap,
                used_capacity: food_used,
            }),
    {
        PlayerResources { minerals, vespene, unit_capacity: food_cap, used_capacity: food_used }
    }
}

} // verus!
