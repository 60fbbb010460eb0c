//! Verified core of a grid-based tower defense game: the map grid and its
//! path search, the economy, waves and scoring, input bindings, debug
//! access control and the small state machines behind the menus.

pub mod grid;
pub mod pathfinding;
pub mod economy;
pub mod score;
pub mod waves;
pub mod text;
pub mod security;
pub mod ui_state;
pub mod cheats;
pub mod input_registry;
pub mod input_handlers;
pub mod path_cache;
pub mod obstacles;
pub mod menus;
pub mod level_gen;
pub mod combat;
pub mod zones;
pub mod tower_panel;
