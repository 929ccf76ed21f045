//! Simulation core of a hex-grid tower-defense game: terrain rules, a hex
//! grid index over an arena of tiles and towers, tower placement, damage
//! areas stacked by towers, a timer-gated damage tick, and the restart
//! commands that reach the game through a channel.

pub mod channel;
pub mod grid;
pub mod hex;
pub mod tiles;
pub mod towers;

pub use channel::{
    apply_restart_tokens, is_restart_command, is_restart_token, listen_channel, AppState,
    ChannelTD,
};
pub use grid::{HexGrid, TileEntity, Tower};
pub use hex::{cells_within, Hex};
pub use tiles::{DamageArea, Tile, TilePath, TileType};
pub use towers::{
    damage_entities, law_coverage_order_free, law_damage_stacks, law_no_tower_on_spawner_or_goal,
    on_tower_spawned, spawn_tower, Health, TowerAttackTimer,
};
