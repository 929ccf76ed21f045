use vstd::prelude::*;

verus! {

/// Kind of terrain a grid cell holds.
#[derive(Clone, Copy, Debug, PartialEq, Eq, Structural)]
pub enum TileType {
    Clear,
    Blocked,
    Spawner,
    Goal,
}

/// Terrain of one grid cell.
#[derive(Clone, Copy, Debug, PartialEq, Eq, Structural)]
pub struct Tile {
    pub tile_type: TileType,
}

/// Whether a cell lies on the current enemy path. Kept apart from `Tile`, so
/// that marking the path does not look like a change of terrain.
#[derive(Clone, Copy, Debug, PartialEq, Eq, Structural)]
pub struct TilePath {
    pub is_path: bool,
}

/// Damage dealt each attack period to whatever stands on a cell: the sum of
/// the damage of every tower that covers it.
#[derive(Clone, Copy, Debug, PartialEq, Eq, Structural)]
pub struct DamageArea {
    pub damage: u32,
}

impl TileType {
    /// Traversal cost that a path finder gives to this terrain.
    pub open spec fn cost(self) -> nat {
        match self {
            TileType::Clear => 1,
            TileType::Blocked => 1000,
            TileType::Spawner => 1,
            TileType::Goal => 1,
        }
    }

    /// Towers may stand on clear and blocked cells only.
    pub open spec fn valid_spawn(self) -> bool {
        self == TileType::Clear || self == TileType::Blocked
    }

    pub fn get_cost(&self) -> (r: u32)
        ensures
            r == self.cost(),
    {
        match self {
            TileType::Clear => 1,
            TileType::Blocked => 1000,
            TileType::Spawner => 1,
            TileType::Goal => 1,
        }
    }

    pub fn is_valid_spawn(&self) -> (r: bool)
        ensures
            r == self.valid_spawn(),
    {
        !matches!(self, TileType::Spawner | TileType::Goal)
    }
}

} // verus!
