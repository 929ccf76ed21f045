use vstd::prelude::*;

use crate::grid::{damage_value, HexGrid, TileEntity, Tower};
use crate::hex::{cells_within, hex_distance, Hex};
use crate::tiles::DamageArea;

verus! {

/// Clock that gates the damage tick: it finishes once `elapsed` reaches
/// `period`, and then stays finished until it is reset.
#[derive(Clone, Copy, Debug, PartialEq, Eq, Structural)]
pub struct TowerAttackTimer {
    pub period: u64,
    pub elapsed: u64,
}

/// Health of a damageable entity.
#[derive(Clone, Copy, Debug, PartialEq, Eq, Structural)]
pub struct Health {
    pub health: u32,
}

/// `health` less `damage`, but never below zero.
pub open spec fn worn_down(health: int, damage: int) -> int {
    if damage >= health {
        0
    } else {
        health - damage
    }
}

impl TowerAttackTimer {
    pub fn new(period: u64) -> (t: TowerAttackTimer)
        ensures
            t.period == period,
            t.elapsed == 0,
    {
        TowerAttackTimer { period, elapsed: 0 }
    }

    /// Advances the clock by `delta`, stopping at the period; tells whether
    /// the period is complete.
    pub fn tick(&mut self, delta: u64) -> (finished: bool)
        ensures
            final(self).period == old(self).period,
            final(self).elapsed == if old(self).elapsed + delta >= old(self).period {
                old(self).period as int
            } else {
                old(self).elapsed + delta
            },
            finished == (old(self).elapsed + delta >= old(self).period),
    {
        let sum = self.elapsed.saturating_add(delta);
        self.elapsed = if sum >= self.period {
            self.period
        } else {
            sum
        };
        self.elapsed >= self.period
    }

    pub fn reset(&mut self)
        ensures
            final(self).period == old(self).period,
            final(self).elapsed == 0,
    {
        self.elapsed = 0;
    }
}

/// Advances `timer` by `delta`. When that completes a period, the timer is
/// reset and each entity loses the damage laid on the cell it stands on,
/// never going below zero health; otherwise no entity is touched. Tells
/// whether the period was complete.
pub fn damage_entities(
    entities: &mut Vec<(Health, Hex)>,
    grid: &HexGrid,
    timer: &mut TowerAttackTimer,
    delta: u64,
) -> (fired: bool)
    requires
        grid.wf(),
    ensures
        fired == (old(timer).elapsed + delta >= old(timer).period),
        final(timer).period == old(timer).period,
        fired ==> final(timer).elapsed == 0,
        !fired ==> final(timer).elapsed == old(timer).elapsed + delta,
        final(entities)@.len() == old(entities)@.len(),
        forall|i: int|
            0 <= i < old(entities)@.len() ==> {
                &&& (#[trigger] final(entities)@[i]).1 == old(entities)@[i].1
                &&& final(entities)@[i].0.health == if fired {
                    worn_down(
                        old(entities)@[i].0.health as int,
                        grid.damage_on(old(entities)@[i].1) as int,
                    )
                } else {
                    old(entities)@[i].0.health as int
                }
            },
{
    if !timer.tick(delta) {
        return false;
    }
    timer.reset();
    let ghost orig = entities@;
    let mut i: usize = 0;
    while i < entities.len()
        invariant
            grid.wf(),
            entities@.len() == orig.len(),
            0 <= i <= orig.len(),
            forall|j: int|
                0 <= j < orig.len() ==> {
                    &&& (#[trigger] entities@[j]).1 == orig[j].1
                    &&& entities@[j].0.health == if j < i {
                        worn_down(orig[j].0.health as int, grid.damage_on(orig[j].1) as int)
                    } else {
                        orig[j].0.health as int
                    }
                },
        decreases orig.len() - i,
    {
        let (health, hex) = entities[i];
        let damage = grid.damage_at(hex);
        entities.set(i, (Health { health: health.health.saturating_sub(damage) }, hex));
        i = i + 1;
    }
    true
}



/// Number of the towers at `towers` whose range of `range` steps reaches cell `c`.
pub open spec fn coverage(towers: Seq<Hex>, c: Hex, range: int) -> nat
    decreases towers.len(),
{
    if towers.len() == 0 {
        0
    } else {
        coverage(towers.drop_last(), c, range) + if hex_distance(c, towers.last()) <= range {
            1nat
        } else {
            0nat
        }
    }
}

/// `v`, or the largest `u32` where `v` exceeds it.
pub open spec fn cap_u32(v: int) -> int {
    if v > u32::MAX {
        u32::MAX as int
    } else {
        v
    }
}

/// Total damage of towers at `towers`, when they all cover a cell, is the number
/// of towers times the damage of each, whatever order they were placed in.
pub proof fn law_damage_stacks(
    towers: Seq<Hex>,
    before: TileEntity,
    after: TileEntity,
    range: int,
    damage: int,
)
    requires
        0 <= damage,
        forall|i: int| 0 <= i < towers.len() ==> hex_distance(before.hex, #[trigger] towers[i]) <= range,
        before.damage is None,
        towers.len() * damage <= u32::MAX,
        stacked(before, after, coverage(towers, before.hex, range), damage),
    ensures
        damage_value(after.damage) == towers.len() * damage,
{
    lemma_coverage_all(towers, before.hex, range);
    let n = towers.len() as int;
    assert(damage * n == n * damage && n * damage >= 0) by (nonlinear_arith)
        requires
            damage >= 0,
            n >= 0,
    ;
}

proof fn lemma_coverage_all(towers: Seq<Hex>, c: Hex, range: int)
    requires
        forall|i: int| 0 <= i < towers.len() ==> hex_distance(c, #[trigger] towers[i]) <= range,
    ensures
        coverage(towers, c, range) == towers.len(),
    decreases towers.len(),
{
    if towers.len() > 0 {
        let rest = towers.drop_last();
        assert forall|i: int| 0 <= i < rest.len() implies hex_distance(c, #[trigger] rest[i])
            <= range by {
            assert(rest[i] == towers[i]);
        }
        lemma_coverage_all(rest, c, range);
    }
}

/// Towers placed in two batches cover a cell as often as the two batches do
/// apart, whichever batch comes first.
pub proof fn law_coverage_order_free(first: Seq<Hex>, second: Seq<Hex>, c: Hex, range: int)
    ensures
        coverage(first + second, c, range) == coverage(first, c, range) + coverage(
            second,
            c,
            range,
        ),
        coverage(first + second, c, range) == coverage(second + first, c, range),
{
    lemma_coverage_concat(first, second, c, range);
    lemma_coverage_concat(second, first, c, range);
}

proof fn lemma_coverage_concat(s: Seq<Hex>, t: Seq<Hex>, c: Hex, range: int)
    ensures
        coverage(s + t, c, range) == coverage(s, c, range) + coverage(t, c, range),
    decreases t.len(),
{
    if t.len() == 0 {
        assert(s + t =~= s);
    } else {
        assert((s + t).drop_last() =~= s + t.drop_last());
        lemma_coverage_concat(s, t.drop_last(), c, range);
    }
}

/// A cell whose tile is a spawner or a goal never admits a tower, so placing
/// one there leaves the board as it was.
pub proof fn law_no_tower_on_spawner_or_goal(grid: HexGrid, i: int)
    requires
        grid.wf(),
        0 <= i < grid.tiles@.len(),
        !grid.tiles@[i].tile.tile_type.valid_spawn(),
    ensures
        !grid.allows_tower(grid.tiles@[i].hex),
{
    let h = grid.tiles@[i].hex;
    if grid.allows_tower(h) {
        let j = choose|j: int| #[trigger]
            grid.tile_index(j, h) && grid.tiles@[j].tile.tile_type.valid_spawn();
        assert(grid.tiles@[i].hex != grid.tiles@[j].hex);
    }
}

/// Places a tower on cell `hex`. It is placed exactly where the board has a
/// tile there whose terrain admits towers and no tower stands there yet; it
/// then joins the towers and the queue of newly placed towers. Otherwise the
/// board is left as it was.
pub fn spawn_tower(grid: &mut HexGrid, hex: Hex) -> (r: Option<usize>)
    requires
        old(grid).wf(),
    ensures
        final(grid).wf(),
        r is Some <==> (old(grid).allows_tower(hex) && !old(grid).has_tower(hex)),
        r matches Some(k) ==> {
            &&& k == old(grid).towers@.len()
            &&& final(grid).towers@ == old(grid).towers@.push(Tower { hex })
            &&& final(grid).spawned@ == old(grid).spawned@.push(hex)
            &&& final(grid).tiles@ == old(grid).tiles@
        },
        r is None ==> *final(grid) == *old(grid),
{
    let i = match grid.tile_at(hex) {
        Some(i) => i,
        None => {
            return None;
        },
    };
    proof {
        grid.lemma_tile_index_unique(i as int, hex);
        if grid.allows_tower(hex) {
            let j = choose|j: int| #[trigger]
                grid.tile_index(j, hex) && grid.tiles@[j].tile.tile_type.valid_spawn();
            if j != i {
                assert(grid.tiles@[i as int].hex != grid.tiles@[j].hex);
            }
        }
    }
    if !grid.tiles[i].tile.tile_type.is_valid_spawn() || grid.tower_at(hex).is_some() {
        return None;
    }
    let k = grid.towers.len();
    let ghost prev = *grid;
    grid.towers.push(Tower { hex });
    grid.spawned.push(hex);
    proof {
        assert(prev.tile_index(i as int, hex));
        assert(grid.tile_index(i as int, hex));
        assert forall|t: int| 0 <= t < grid.towers@.len() implies #[trigger] grid.allows_tower(
            grid.towers@[t].hex,
        ) by {
            if t < k {
                assert(prev.allows_tower(prev.towers@[t].hex));
                let j = choose|j: int| #[trigger]
                    prev.tile_index(j, prev.towers@[t].hex)
                        && prev.tiles@[j].tile.tile_type.valid_spawn();
                assert(grid.tile_index(j, grid.towers@[t].hex));
            }
        }
        assert forall|a: int, b: int|
            0 <= a < grid.towers@.len() && 0 <= b < grid.towers@.len() && a != b
                implies #[trigger] grid.towers@[a].hex != #[trigger] grid.towers@[b].hex by {
            if a == k {
                assert(prev.towers@[b].hex != hex);
            } else if b == k {
                assert(prev.towers@[a].hex != hex);
            }
        }
    }
    Some(k)
}

/// Both boards list the same cells, with the same terrain and path marks.
pub open spec fn same_cells(a: Seq<TileEntity>, b: Seq<TileEntity>) -> bool {
    &&& a.len() == b.len()
    &&& forall|j: int|
        0 <= j < a.len() ==> {
            &&& (#[trigger] b[j]).hex == a[j].hex
            &&& b[j].tile == a[j].tile
            &&& b[j].path == a[j].path
        }
}

/// `after` is `before` with `hits` more towers of `damage` each laid on it:
/// the damage adds up (capped at the largest `u32`), and the cell carries a
/// damage area once any tower has covered it.
pub open spec fn stacked(before: TileEntity, after: TileEntity, hits: nat, damage: int) -> bool {
    &&& damage_value(after.damage) == cap_u32(damage_value(before.damage) + damage * hits)
    &&& (after.damage is Some <==> (before.damage is Some || hits > 0))
}

proof fn lemma_stacked_compose(
    a: TileEntity,
    b: TileEntity,
    c: TileEntity,
    h1: nat,
    h2: nat,
    damage: int,
)
    requires
        0 <= damage,
        stacked(a, b, h1, damage),
        stacked(b, c, h2, damage),
    ensures
        stacked(a, c, h1 + h2, damage),
{
    assert(damage * (h1 + h2) == damage * h1 + damage * h2) by (nonlinear_arith);
    assert(damage * h2 >= 0) by (nonlinear_arith)
        requires
            damage >= 0,
    ;
    assert(damage * h1 >= 0) by (nonlinear_arith)
        requires
            damage >= 0,
    ;
}

proof fn lemma_coverage_step(towers: Seq<Hex>, k: int, c: Hex, range: int)
    requires
        0 <= k < towers.len(),
    ensures
        coverage(towers.take(k + 1), c, range) == coverage(towers.take(k), c, range) + if hex_distance(
            c,
            towers[k],
        ) <= range {
            1nat
        } else {
            0nat
        },
{
    assert(towers.take(k + 1).drop_last() =~= towers.take(k));
}

/// Lays the damage of every newly placed tower on the cells within its range,
/// then empties the queue of newly placed towers. On each tile the damage of
/// all the towers that cover it adds up; cells off the board are skipped.
pub fn on_tower_spawned(grid: &mut HexGrid, tower_range: u32, tower_damage: u32)
    requires
        old(grid).wf(),
    ensures
        final(grid).wf(),
        final(grid).towers@ == old(grid).towers@,
        final(grid).spawned@.len() == 0,
        same_cells(old(grid).tiles@, final(grid).tiles@),
        forall|j: int|
            0 <= j < old(grid).tiles@.len() ==> stacked(
                old(grid).tiles@[j],
                #[trigger] final(grid).tiles@[j],
                coverage(old(grid).spawned@, old(grid).tiles@[j].hex, tower_range as int),
                tower_damage as int,
            ),
{
    let ghost orig = grid.tiles@;
    let ghost queue = grid.spawned@;
    let ghost range = tower_range as int;
    let ghost d = tower_damage as int;
    let mut k: usize = 0;
    proof {
        assert(queue.take(0) =~= Seq::<Hex>::empty());
        assert forall|j: int| 0 <= j < orig.len() implies stacked(
            orig[j],
            #[trigger] grid.tiles@[j],
            coverage(queue.take(0), orig[j].hex, range),
            d,
        ) by {
            assert(coverage(queue.take(0), orig[j].hex, range) == 0);
            assert(d * 0 == 0);
        }
    }
    while k < grid.spawned.len()
        invariant
            grid.wf(),
            grid.towers@ == old(grid).towers@,
            grid.spawned@ == queue,
            orig == old(grid).tiles@,
            queue == old(grid).spawned@,
            range == tower_range,
            d == tower_damage,
            0 <= k <= queue.len(),
            same_cells(orig, grid.tiles@),
            forall|j: int|
                0 <= j < orig.len() ==> stacked(
                    orig[j],
                    #[trigger] grid.tiles@[j],
                    coverage(queue.take(k as int), orig[j].hex, range),
                    d,
                ),
        decreases queue.len() - k,
    {
        let p = grid.spawned[k];
        let cells = cells_within(p, tower_range);
        let ghost base = grid.tiles@;
        let mut m: usize = 0;
        while m < cells.len()
            invariant
                grid.wf(),
                grid.towers@ == old(grid).towers@,
                grid.spawned@ == queue,
                d == tower_damage,
                0 <= m <= cells@.len(),
                cells@.no_duplicates(),
                same_cells(base, grid.tiles@),
                forall|j: int|
                    0 <= j < base.len() ==> stacked(
                        base[j],
                        #[trigger] grid.tiles@[j],
                        if cells@.take(m as int).contains(base[j].hex) {
                            1nat
                        } else {
                            0nat
                        },
                        d,
                    ),
            decreases cells.len() - m,
        {
            let cell = cells[m];
            let ghost before = grid.tiles@;
            let ghost prev = *grid;
            proof {
                assert(cells@.take(m + 1) =~= cells@.take(m as int).push(cell));
                assert(!cells@.take(m as int).contains(cell)) by {
                    if cells@.take(m as int).contains(cell) {
                        let t = choose|t: int|
                            0 <= t < m && #[trigger] cells@.take(m as int)[t] == cell;
                        assert(cells@[t] == cells@[m as int]);
                    }
                }
            }
            match grid.tile_at(cell) {
                Some(i) => {
                    let mut t: TileEntity = grid.tiles[i];
                    t.damage = match t.damage {
                        Some(a) => Some(DamageArea { damage: a.damage.saturating_add(tower_damage) }),
                        None => Some(DamageArea { damage: tower_damage }),
                    };
                    grid.tiles.set(i, t);
                    proof {
                        prev.lemma_wf_same_terrain(*grid);
                        assert forall|j: int| 0 <= j < base.len() implies stacked(
                            base[j],
                            #[trigger] grid.tiles@[j],
                            if cells@.take(m + 1).contains(base[j].hex) {
                                1nat
                            } else {
                                0nat
                            },
                            d,
                        ) by {
                            if j != i {
                                assert(before[j].hex != before[i as int].hex);
                                assert(cells@.take(m + 1).contains(base[j].hex)
                                    == cells@.take(m as int).contains(base[j].hex));
                            } else {
                                assert(cells@.take(m + 1)[m as int] == cell);
                            }
                        }
                    }
                },
                None => {
                    proof {
                        assert forall|j: int| 0 <= j < base.len() implies stacked(
                            base[j],
                            #[trigger] grid.tiles@[j],
                            if cells@.take(m + 1).contains(base[j].hex) {
                                1nat
                            } else {
                                0nat
                            },
                            d,
                        ) by {
                            assert(!grid.tile_index(j, cell));
                            assert(cells@.take(m + 1).contains(base[j].hex)
                                == cells@.take(m as int).contains(base[j].hex));
                        }
                    }
                },
            }
            m = m + 1;
        }
        proof {
            assert(cells@.take(cells@.len() as int) =~= cells@);
            assert forall|j: int| 0 <= j < orig.len() implies stacked(
                orig[j],
                #[trigger] grid.tiles@[j],
                coverage(queue.take(k + 1), orig[j].hex, range),
                d,
            ) by {
                lemma_coverage_step(queue, k as int, orig[j].hex, range);
                assert(base[j].hex == orig[j].hex);
                lemma_stacked_compose(
                    orig[j],
                    base[j],
                    grid.tiles@[j],
                    coverage(queue.take(k as int), orig[j].hex, range),
                    if cells@.contains(base[j].hex) {
                        1nat
                    } else {
                        0nat
                    },
                    d,
                );
            }
        }
        k = k + 1;
    }
    proof {
        assert(queue.take(queue.len() as int) =~= queue);
    }
    let ghost prev = *grid;
    grid.spawned = Vec::new();
    proof {
        prev.lemma_wf_same_terrain(*grid);
    }
}

} // verus!
