use hex_defense::{
    cells_within, damage_entities, on_tower_spawned, spawn_tower, DamageArea, Health, Hex,
    HexGrid, TileType, TowerAttackTimer,
};

fn hex(x: i32, y: i32) -> Hex {
    Hex { x, y }
}

fn distance(a: Hex, b: Hex) -> i64 {
    let dx = (a.x as i64 - b.x as i64).abs();
    let dy = (a.y as i64 - b.y as i64).abs();
    let ds = (a.x as i64 - b.x as i64 + a.y as i64 - b.y as i64).abs();
    dx.max(dy).max(ds)
}

fn board(radius: u32, kind: TileType) -> HexGrid {
    let mut grid = HexGrid::new();
    for h in cells_within(hex(0, 0), radius) {
        assert!(grid.add_tile(h, kind).is_some());
    }
    grid
}

fn damage_of(grid: &HexGrid, h: Hex) -> Option<u32> {
    let i = grid.tile_at(h).unwrap();
    grid.tiles[i].damage.map(|a| a.damage)
}

#[test]
fn traversal_cost_table() {
    assert_eq!(TileType::Clear.get_cost(), 1);
    assert_eq!(TileType::Blocked.get_cost(), 1000);
    assert_eq!(TileType::Spawner.get_cost(), 1);
    assert_eq!(TileType::Goal.get_cost(), 1);
}

#[test]
fn spawn_eligibility_table() {
    assert!(TileType::Clear.is_valid_spawn());
    assert!(TileType::Blocked.is_valid_spawn());
    assert!(!TileType::Spawner.is_valid_spawn());
    assert!(!TileType::Goal.is_valid_spawn());
}

#[test]
fn no_tower_on_spawner_or_goal() {
    let mut grid = HexGrid::new();
    grid.add_tile(hex(0, 0), TileType::Spawner);
    grid.add_tile(hex(1, 0), TileType::Goal);
    assert_eq!(spawn_tower(&mut grid, hex(0, 0)), None);
    assert_eq!(spawn_tower(&mut grid, hex(1, 0)), None);
    assert!(grid.towers.is_empty());
    assert!(grid.spawned.is_empty());
}

#[test]
fn tower_on_blocked_tile() {
    let mut grid = HexGrid::new();
    grid.add_tile(hex(2, -1), TileType::Blocked);
    assert_eq!(spawn_tower(&mut grid, hex(2, -1)), Some(0));
    assert_eq!(grid.tower_at(hex(2, -1)), Some(0));
}

#[test]
fn no_second_tower_on_occupied_cell() {
    let mut grid = board(1, TileType::Clear);
    assert_eq!(spawn_tower(&mut grid, hex(0, 0)), Some(0));
    assert_eq!(spawn_tower(&mut grid, hex(0, 0)), None);
    assert_eq!(grid.towers.len(), 1);
    assert_eq!(grid.spawned.len(), 1);
    assert_eq!(grid.tower_at(hex(0, 0)), Some(0));
}

#[test]
fn no_tower_off_the_board() {
    let mut grid = board(1, TileType::Clear);
    assert_eq!(spawn_tower(&mut grid, hex(5, 5)), None);
    assert!(grid.towers.is_empty());
}

#[test]
fn click_on_goal_creates_no_tower() {
    let mut grid = board(2, TileType::Clear);
    let mut goal = HexGrid::new();
    for t in grid.tiles.iter() {
        let kind = if t.hex == hex(-1, 2) { TileType::Goal } else { t.tile.tile_type };
        goal.add_tile(t.hex, kind);
    }
    grid = goal;
    assert_eq!(spawn_tower(&mut grid, hex(-1, 2)), None);
    assert!(grid.tower_at(hex(-1, 2)).is_none());
    assert!(grid.towers.is_empty());
}

#[test]
fn duplicate_tile_is_refused() {
    let mut grid = HexGrid::new();
    assert_eq!(grid.add_tile(hex(0, 0), TileType::Clear), Some(0));
    assert_eq!(grid.add_tile(hex(0, 0), TileType::Goal), None);
    assert_eq!(grid.tiles.len(), 1);
    assert_eq!(grid.tiles[0].tile.tile_type, TileType::Clear);
}

#[test]
fn cells_within_radius_zero_is_center() {
    assert_eq!(cells_within(hex(3, -7), 0), vec![hex(3, -7)]);
}

#[test]
fn cells_within_counts_and_membership() {
    for radius in 0..5u32 {
        let center = hex(2, -3);
        let cells = cells_within(center, radius);
        let r = radius as usize;
        assert_eq!(cells.len(), 1 + 3 * r * (r + 1));
        assert!(cells.contains(&center));
        for (i, a) in cells.iter().enumerate() {
            assert!(distance(*a, center) <= radius as i64);
            for b in cells.iter().skip(i + 1) {
                assert_ne!(a, b);
            }
        }
        for x in -8..=8 {
            for y in -8..=8 {
                let h = hex(center.x + x, center.y + y);
                assert_eq!(cells.contains(&h), distance(h, center) <= radius as i64);
            }
        }
    }
}

#[test]
fn cells_within_stops_at_coordinate_limits() {
    let corner = hex(i32::MAX, i32::MAX);
    let cells = cells_within(corner, 1);
    let mut sorted: Vec<(i32, i32)> = cells.iter().map(|h| (h.x, h.y)).collect();
    sorted.sort();
    assert_eq!(
        sorted,
        vec![(i32::MAX - 1, i32::MAX), (i32::MAX, i32::MAX - 1), (i32::MAX, i32::MAX)]
    );
}

#[test]
fn single_tower_damages_its_range() {
    let mut grid = board(1, TileType::Clear);
    assert!(spawn_tower(&mut grid, hex(0, 0)).is_some());
    on_tower_spawned(&mut grid, 1, 10);
    assert!(grid.spawned.is_empty());
    for h in cells_within(hex(0, 0), 1) {
        assert_eq!(damage_of(&grid, h), Some(10));
    }
}

#[test]
fn single_clear_tile_scenario() {
    let mut grid = HexGrid::new();
    grid.add_tile(hex(0, 0), TileType::Clear);
    assert_eq!(spawn_tower(&mut grid, hex(0, 0)), Some(0));
    on_tower_spawned(&mut grid, 1, 10);
    assert_eq!(damage_of(&grid, hex(0, 0)), Some(10));
    assert_eq!(grid.damage_at(hex(1, 0)), 0);
}

#[test]
fn overlapping_towers_stack() {
    let mut grid = board(3, TileType::Clear);
    assert!(spawn_tower(&mut grid, hex(0, 0)).is_some());
    on_tower_spawned(&mut grid, 1, 10);
    assert!(spawn_tower(&mut grid, hex(1, 0)).is_some());
    on_tower_spawned(&mut grid, 1, 10);
    let first = cells_within(hex(0, 0), 1);
    let second = cells_within(hex(1, 0), 1);
    for t in grid.tiles.iter() {
        let n = first.contains(&t.hex) as u32 + second.contains(&t.hex) as u32;
        let expected = if n == 0 { None } else { Some(DamageArea { damage: 10 * n }) };
        assert_eq!(t.damage, expected);
    }
    assert_eq!(grid.damage_at(hex(0, 0)), 20);
    assert_eq!(grid.damage_at(hex(1, -1)), 20);
    assert_eq!(grid.damage_at(hex(-1, 0)), 10);
    assert_eq!(grid.damage_at(hex(2, 0)), 10);
}

#[test]
fn towers_placed_in_one_cycle_stack() {
    let mut grid = board(3, TileType::Clear);
    let towers = [hex(0, 0), hex(1, 0), hex(0, 1), hex(-1, 1)];
    for t in towers {
        assert!(spawn_tower(&mut grid, t).is_some());
    }
    on_tower_spawned(&mut grid, 2, 7);
    assert_eq!(grid.damage_at(hex(0, 0)), 28);
    assert_eq!(grid.damage_at(hex(1, 1)), 28);
}

#[test]
fn placement_order_does_not_matter() {
    let order_a = [hex(0, 0), hex(2, -1), hex(-1, 2)];
    let order_b = [hex(-1, 2), hex(0, 0), hex(2, -1)];
    let mut a = board(4, TileType::Clear);
    let mut b = board(4, TileType::Clear);
    for t in order_a {
        spawn_tower(&mut a, t);
        on_tower_spawned(&mut a, 2, 5);
    }
    for t in order_b {
        spawn_tower(&mut b, t);
    }
    on_tower_spawned(&mut b, 2, 5);
    assert_eq!(a.tiles, b.tiles);
    assert_eq!(a.damage_at(hex(0, 0)), 15);
}

#[test]
fn damage_saturates_at_u32_max() {
    let mut grid = board(1, TileType::Clear);
    spawn_tower(&mut grid, hex(0, 0));
    on_tower_spawned(&mut grid, 1, u32::MAX - 1);
    spawn_tower(&mut grid, hex(1, 0));
    on_tower_spawned(&mut grid, 1, 5);
    assert_eq!(grid.damage_at(hex(0, 0)), u32::MAX);
    assert_eq!(grid.damage_at(hex(-1, 0)), u32::MAX - 1);
}

#[test]
fn zero_damage_tower_still_marks_cells() {
    let mut grid = board(1, TileType::Clear);
    spawn_tower(&mut grid, hex(0, 0));
    on_tower_spawned(&mut grid, 0, 0);
    assert_eq!(damage_of(&grid, hex(0, 0)), Some(0));
    assert_eq!(damage_of(&grid, hex(1, 0)), None);
}

#[test]
fn timer_ticks_and_stops_at_period() {
    let mut timer = TowerAttackTimer::new(100);
    assert!(!timer.tick(40));
    assert_eq!(timer.elapsed, 40);
    assert!(timer.tick(80));
    assert_eq!(timer.elapsed, 100);
    timer.reset();
    assert_eq!(timer.elapsed, 0);
    assert!(!timer.tick(99));
    assert!(timer.tick(u64::MAX));
}

fn damaged_board() -> HexGrid {
    let mut grid = board(2, TileType::Clear);
    spawn_tower(&mut grid, hex(0, 0));
    on_tower_spawned(&mut grid, 1, 3);
    grid
}

#[test]
fn damage_applied_once_per_period() {
    let grid = damaged_board();
    let mut timer = TowerAttackTimer::new(10);
    let mut entities = vec![(Health { health: 20 }, hex(0, 0)), (Health { health: 20 }, hex(2, 0))];
    assert!(!damage_entities(&mut entities, &grid, &mut timer, 6));
    assert_eq!(entities[0].0.health, 20);
    assert_eq!(entities[1].0.health, 20);
    assert_eq!(timer.elapsed, 6);
    assert!(damage_entities(&mut entities, &grid, &mut timer, 6));
    assert_eq!(timer.elapsed, 0);
    assert_eq!(entities[0].0.health, 17);
    assert_eq!(entities[1].0.health, 20);
    assert_eq!(entities[0].1, hex(0, 0));
    assert!(!damage_entities(&mut entities, &grid, &mut timer, 9));
    assert_eq!(entities[0].0.health, 17);
    assert!(damage_entities(&mut entities, &grid, &mut timer, 1));
    assert_eq!(entities[0].0.health, 14);
}

#[test]
fn health_never_underflows() {
    let mut grid = board(0, TileType::Clear);
    spawn_tower(&mut grid, hex(0, 0));
    on_tower_spawned(&mut grid, 0, 10);
    let mut timer = TowerAttackTimer::new(0);
    let mut entities = vec![(Health { health: 5 }, hex(0, 0))];
    assert!(damage_entities(&mut entities, &grid, &mut timer, 0));
    assert_eq!(entities[0].0.health, 0);
    assert!(damage_entities(&mut entities, &grid, &mut timer, 0));
    assert_eq!(entities[0].0.health, 0);
}

#[test]
fn entity_off_the_board_is_untouched() {
    let grid = damaged_board();
    let mut timer = TowerAttackTimer::new(1);
    let mut entities = vec![(Health { health: 8 }, hex(40, 40))];
    assert!(damage_entities(&mut entities, &grid, &mut timer, 1));
    assert_eq!(entities[0].0.health, 8);
}

#[test]
fn path_mark_leaves_terrain_and_damage() {
    let mut grid = board(1, TileType::Blocked);
    spawn_tower(&mut grid, hex(0, 0));
    on_tower_spawned(&mut grid, 1, 4);
    let i = grid.tile_at(hex(1, 0)).unwrap();
    let before = grid.tiles[i];
    grid.set_path(i, true);
    assert!(grid.tiles[i].path.is_path);
    assert_eq!(grid.tiles[i].tile, before.tile);
    assert_eq!(grid.tiles[i].damage, before.damage);
    grid.set_path(i, false);
    assert_eq!(grid.tiles[i], before);
}
