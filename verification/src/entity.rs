//! The slice of the world-entity catalog the placement engine works on.
//!
//! Entities live in an external catalog; the engine only sees their opaque
//! game identifiers, their positions and the fixed footprints of their
//! kinds.  Footprints and positions are in fixed-point coordinates (see
//! [`crate::geometry`]).

use vstd::prelude::*;

use crate::geometry::Vec2;

verus! {

/// The game's identifier for a world entity — an opaque handle back into
/// the external entity catalog.
#[derive(Default, Clone, Copy, Debug, Hash, PartialEq, Eq, Structural)]
pub struct GameId(pub u64);

/// A kind of world entity with a fixed rectangular footprint.
pub trait GameEntity {
    /// The ground area this kind occupies, in fixed-point units.
    spec fn spec_footprint() -> Vec2;

    /// The ground area this kind occupies, in fixed-point units.
    fn footprint() -> (r: Vec2)
        ensures
            r == Self::spec_footprint(),
    ;
}

/// A kind of entity that belongs to the terrain of the map.
pub trait MapEntity: GameEntity {

}

/// A kind of entity that is a constructed building.
pub trait BuildingEntity: GameEntity {

}

/// A kind of entity that is a mobile unit.
pub trait UnitEntity: GameEntity {

}

/// A harvestable mineral deposit (two units wide, one deep).
#[derive(Default, Clone, Copy, Debug, Hash, PartialEq, Eq, Structural)]
pub struct MineralPatch;

/// Tags a mineral deposit holding an increased amount.
#[derive(Default, Clone, Copy, Debug, Hash, PartialEq, Eq, Structural)]
pub struct RichMinerals;

/// A harvestable vespene deposit (three units square).
#[derive(Default, Clone, Copy, Debug, Hash, PartialEq, Eq, Structural)]
pub struct VespeneGeyser;

/// A destructible terrain obstacle.
#[derive(Default, Clone, Copy, Debug, Hash, PartialEq, Eq, Structural)]
pub struct DestructibleRock;

/// The colony structure whose site the engine places (five units square).
#[derive(Default, Clone, Copy, Debug, Hash, PartialEq, Eq, Structural)]
pub struct Hatchery;

/// A harvesting worker unit.
#[derive(Default, Clone, Copy, Debug, Hash, PartialEq, Eq, Structural)]
pub struct Worker;

/// A flying supply unit.
#[derive(Default, Clone, Copy, Debug, Hash, PartialEq, Eq, Structural)]
pub struct Overlord;

impl GameEntity for MineralPatch {
    open spec fn spec_footprint() -> Vec2 {
        (Vec2 { x: 20, y: 10 })
    }

    fn footprint() -> (r: Vec2) {
        Vec2 { x: 20, y: 10 }
    }
}

impl MapEntity for MineralPatch {

}

impl GameEntity for VespeneGeyser {
    open spec fn spec_footprint() -> Vec2 {
        (Vec2 { x: 30, y: 30 })
    }

    fn footprint() -> (r: Vec2) {
        Vec2 { x: 30, y: 30 }
    }
}

impl MapEntity for VespeneGeyser {

}

impl GameEntity for Hatchery {
    open spec fn spec_footprint() -> Vec2 {
        (Vec2 { x: 50, y: 50 })
    }

    fn footprint() -> (r: Vec2) {
        Vec2 { x: 50, y: 50 }
    }
}

impl BuildingEntity for Hatchery {

}

impl GameEntity for Worker {
    open spec fn spec_footprint() -> Vec2 {
        (Vec2 { x: 10, y: 10 })
    }

    fn footprint() -> (r: Vec2) {
        Vec2 { x: 10, y: 10 }
    }
}

impl UnitEntity for Worker {

}

/// A resource deposit a base could harvest: the engine's per-pass view of
/// one mineral patch or vespene geyser.
#[derive(Clone, Copy, Debug, PartialEq, Eq, Structural)]
pub enum BaseResource {
    Mineral { entity: GameId, pos: Vec2 },
    Vespene { entity: GameId, pos: Vec2 },
}

impl BaseResource {
    /// The catalog handle of the deposit.
    pub open spec fn spec_entity(self) -> GameId {
        match self {
            BaseResource::Mineral { entity, .. } => entity,
            BaseResource::Vespene { entity, .. } => entity,
        }
    }

    /// The position of the deposit's center.
    pub open spec fn spec_position(self) -> Vec2 {
        match self {
            BaseResource::Mineral { pos, .. } => pos,
            BaseResource::Vespene { pos, .. } => pos,
        }
    }

    /// The footprint of the deposit's kind.
    pub open spec fn spec_footprint(self) -> Vec2 {
        match self {
            BaseResource::Mineral { .. } => MineralPatch::spec_footprint(),
            BaseResource::Vespene { .. } => VespeneGeyser::spec_footprint(),
        }
    }

    /// The minimum clearance of the deposit's kind, in the squared-gap
    /// metric the grid search uses (see [`crate::geometry::gap_sq`]).
    pub open spec fn spec_clearance(self) -> int {
        match self {
            BaseResource::Mineral { .. } => crate::base::MINERAL_CLEARANCE as int,
            BaseResource::Vespene { .. } => crate::base::VESPENE_CLEARANCE as int,
        }
    }

    pub fn entity(&self) -> (r: GameId)
        ensures
            r == self.spec_entity(),
    {
        match self {
            BaseResource::Mineral { entity, .. } => *entity,
            BaseResource::Vespene { entity, .. } => *entity,
        }
    }

    pub fn position(&self) -> (r: Vec2)
        ensures
            r == self.spec_position(),
    {
        match self {
            BaseResource::Mineral { pos, .. } => *pos,
            BaseResource::Vespene { pos, .. } => *pos,
        }
    }

    pub fn footprint(&self) -> (r: Vec2)
        ensures
            r == self.spec_footprint(),
    {
        match self {
            BaseResource::Mineral { .. } => MineralPatch::footprint(),
            BaseResource::Vespene { .. } => VespeneGeyser::footprint(),
        }
    }

    pub fn clearance(&self) -> (r: i64)
        ensures
            r as int == self.spec_clearance(),
    {
        match self {
            BaseResource::Mineral { .. } => crate::base::MINERAL_CLEARANCE,
            BaseResource::Vespene { .. } => crate::base::VESPENE_CLEARANCE,
        }
    }
}

} // verus!
