use vstd::prelude::*;

use crate::hex::Hex;
use crate::tiles::{DamageArea, Tile, TilePath, TileType};

verus! {

/// One cell of the board: its coordinate, its terrain, its path mark, and the
/// damage area that towers have laid on it, if any.
#[derive(Clone, Copy, Debug, PartialEq, Eq, Structural)]
pub struct TileEntity {
    pub hex: Hex,
    pub tile: Tile,
    pub path: TilePath,
    pub damage: Option<DamageArea>,
}

/// A tower, anchored on the cell it was placed on.
#[derive(Clone, Copy, Debug, PartialEq, Eq, Structural)]
pub struct Tower {
    pub hex: Hex,
}

/// The board. Tiles and towers live in arenas and are referred to by their
/// index there; `spawned` holds the cells of the towers placed since the
/// damage areas were last brought up to date.
#[derive(Debug)]
pub struct HexGrid {
    pub tiles: Vec<TileEntity>,
    pub towers: Vec<Tower>,
    pub spawned: Vec<Hex>,
}

/// Damage laid on a cell, zero where it carries no damage area.
pub open spec fn damage_value(d: Option<DamageArea>) -> nat {
    match d {
        Some(a) => a.damage as nat,
        None => 0,
    }
}

impl HexGrid {
    /// No two tiles share a cell, no two towers share a cell, and each tower
    /// stands on a tile that admits towers.
    pub open spec fn wf(self) -> bool {
        &&& forall|i: int, j: int|
            0 <= i < self.tiles@.len() && 0 <= j < self.tiles@.len() && i != j
                ==> #[trigger] self.tiles@[i].hex != #[trigger] self.tiles@[j].hex
        &&& forall|i: int, j: int|
            0 <= i < self.towers@.len() && 0 <= j < self.towers@.len() && i != j
                ==> #[trigger] self.towers@[i].hex != #[trigger] self.towers@[j].hex
        &&& forall|k: int|
            0 <= k < self.towers@.len() ==> #[trigger] self.allows_tower(self.towers@[k].hex)
    }

    /// Index `i` is the tile at cell `h`.
    pub open spec fn tile_index(self, i: int, h: Hex) -> bool {
        0 <= i < self.tiles@.len() && self.tiles@[i].hex == h
    }

    pub open spec fn has_tile(self, h: Hex) -> bool {
        exists|i: int| #[trigger] self.tile_index(i, h)
    }

    /// Cell `h` holds a tile whose terrain admits a tower.
    pub open spec fn allows_tower(self, h: Hex) -> bool {
        exists|i: int| #[trigger]
            self.tile_index(i, h) && self.tiles@[i].tile.tile_type.valid_spawn()
    }

    pub open spec fn has_tower(self, h: Hex) -> bool {
        exists|k: int| 0 <= k < self.towers@.len() && #[trigger] self.towers@[k].hex == h
    }

    /// Damage laid on cell `h`; zero off the board.
    pub open spec fn damage_on(self, h: Hex) -> nat {
        if self.has_tile(h) {
            damage_value(self.tiles@[choose|i: int| self.tile_index(i, h)].damage)
        } else {
            0
        }
    }

    /// An empty board.
    pub fn new() -> (g: HexGrid)
        ensures
            g.wf(),
            g.tiles@.len() == 0,
            g.towers@.len() == 0,
            g.spawned@.len() == 0,
    {
        HexGrid { tiles: Vec::new(), towers: Vec::new(), spawned: Vec::new() }
    }

    /// Index of the tile at cell `h`, if the board has one there.
    pub fn tile_at(&self, h: Hex) -> (r: Option<usize>)
        requires
            self.wf(),
        ensures
            r matches Some(i) ==> self.tile_index(i as int, h),
            r is None <==> !self.has_tile(h),
    {
        let mut i: usize = 0;
        while i < self.tiles.len()
            invariant
                forall|j: int| 0 <= j < i ==> !#[trigger] self.tile_index(j, h),
            decreases self.tiles.len() - i,
        {
            if self.tiles[i].hex == h {
                assert(self.tile_index(i as int, h));
                return Some(i);
            }
            i = i + 1;
        }
        None
    }

    /// Index of the tower at cell `h`, if one stands there.
    pub fn tower_at(&self, h: Hex) -> (r: Option<usize>)
        requires
            self.wf(),
        ensures
            r matches Some(k) ==> k < self.towers@.len() && self.towers@[k as int].hex == h,
            r is None <==> !self.has_tower(h),
    {
        let mut k: usize = 0;
        while k < self.towers.len()
            invariant
                forall|j: int| 0 <= j < k ==> #[trigger] self.towers@[j].hex != h,
            decreases self.towers.len() - k,
        {
            if self.towers[k].hex == h {
                return Some(k);
            }
            k = k + 1;
        }
        None
    }

    /// Adds a tile of terrain `tile_type` at cell `h`, off the path and with no
    /// damage area. Refused, leaving the board as it was, where `h` already
    /// holds a tile.
    pub fn add_tile(&mut self, h: Hex, tile_type: TileType) -> (r: Option<usize>)
        requires
            old(self).wf(),
        ensures
            final(self).wf(),
            r is Some <==> !old(self).has_tile(h),
            r matches Some(i) ==> {
                &&& i == old(self).tiles@.len()
                &&& final(self).tiles@ == old(self).tiles@.push(
                    (TileEntity {
                        hex: h,
                        tile: Tile { tile_type },
                        path: TilePath { is_path: false },
                        damage: None,
                    }),
                )
                &&& final(self).towers@ == old(self).towers@
                &&& final(self).spawned@ == old(self).spawned@
            },
            r is None ==> *final(self) == *old(self),
    {
        if self.tile_at(h).is_some() {
            return None;
        }
        let i = self.tiles.len();
        let ghost prev = *self;
        self.tiles.push(
            TileEntity {
                hex: h,
                tile: Tile { tile_type },
                path: TilePath { is_path: false },
                damage: None,
            },
        );
        proof {
            assert forall|k: int| 0 <= k < self.towers@.len() implies #[trigger] self.allows_tower(
                self.towers@[k].hex,
            ) by {
                assert(prev.allows_tower(prev.towers@[k].hex));
                let j = choose|j: int|
                    #[trigger] prev.tile_index(j, prev.towers@[k].hex)
                        && prev.tiles@[j].tile.tile_type.valid_spawn();
                assert(self.tile_index(j, self.towers@[k].hex));
            }
            assert forall|a: int, b: int|
                0 <= a < self.tiles@.len() && 0 <= b < self.tiles@.len() && a != b
                    implies #[trigger] self.tiles@[a].hex != #[trigger] self.tiles@[b].hex by {
                if a == i {
                    assert(!prev.tile_index(b, h));
                } else if b == i {
                    assert(!prev.tile_index(a, h));
                }
            }
        }
        Some(i)
    }

    /// Marks whether the tile at index `i` lies on the current path. Only the
    /// path mark changes: terrain and damage stay as they were.
    pub fn set_path(&mut self, i: usize, is_path: bool)
        requires
            old(self).wf(),
            i < old(self).tiles@.len(),
        ensures
            final(self).wf(),
            final(self).towers@ == old(self).towers@,
            final(self).spawned@ == old(self).spawned@,
            final(self).tiles@ == old(self).tiles@.update(
                i as int,
                (TileEntity { path: TilePath { is_path }, ..old(self).tiles@[i as int] }),
            ),
    {
        let ghost prev = *self;
        let mut t: TileEntity = self.tiles[i];
        t.path = TilePath { is_path };
        self.tiles.set(i, t);
        proof {
            prev.lemma_wf_same_terrain(*self);
        }
    }

    /// Damage laid on cell `h`; zero where the board has no tile or the tile
    /// carries no damage area.
    pub fn damage_at(&self, h: Hex) -> (r: u32)
        requires
            self.wf(),
        ensures
            r == self.damage_on(h),
    {
        match self.tile_at(h) {
            Some(i) => {
                proof {
                    self.lemma_tile_index_unique(i as int, h);
                }
                match self.tiles[i].damage {
                    Some(a) => a.damage,
                    None => 0,
                }
            },
            None => 0,
        }
    }

    /// A board with the same towers, and tiles on the same cells with the same
    /// terrain, as a well-formed one is well-formed.
    pub proof fn lemma_wf_same_terrain(self, other: HexGrid)
        requires
            self.wf(),
            other.towers@ == self.towers@,
            other.tiles@.len() == self.tiles@.len(),
            forall|j: int|
                0 <= j < self.tiles@.len() ==> (#[trigger] other.tiles@[j]).hex
                    == self.tiles@[j].hex && other.tiles@[j].tile == self.tiles@[j].tile,
        ensures
            other.wf(),
    {
        assert forall|a: int, b: int|
            0 <= a < other.tiles@.len() && 0 <= b < other.tiles@.len() && a != b
                implies #[trigger] other.tiles@[a].hex != #[trigger] other.tiles@[b].hex by {
            assert(self.tiles@[a].hex != self.tiles@[b].hex);
        }
        assert forall|k: int| 0 <= k < other.towers@.len() implies #[trigger] other.allows_tower(
            other.towers@[k].hex,
        ) by {
            assert(self.allows_tower(self.towers@[k].hex));
            let j = choose|j: int| #[trigger]
                self.tile_index(j, self.towers@[k].hex)
                    && self.tiles@[j].tile.tile_type.valid_spawn();
            assert(other.tile_index(j, other.towers@[k].hex));
        }
    }

    /// On a well-formed board the tile at a cell is the one that `choose`
    /// picks.
    pub proof fn lemma_tile_index_unique(self, i: int, h: Hex)
        requires
            self.wf(),
            self.tile_index(i, h),
        ensures
            self.has_tile(h),
            (choose|j: int| self.tile_index(j, h)) == i,
            self.damage_on(h) == damage_value(self.tiles@[i].damage),
    {
        let j = choose|j: int| self.tile_index(j, h);
        assert(self.tile_index(j, h));
        if j != i {
            assert(self.tiles@[i].hex != self.tiles@[j].hex);
        }
    }
}

} // verus!
