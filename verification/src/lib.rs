//! Simulation core of a grid-based tower-defense game: a tile map with a
//! shortest-path field, a diffusing gas field, an economy ledger, and the
//! fixed pipeline of stages that advances the world by one tick.

pub mod components;
pub mod detail_view;
pub mod ecs;
pub mod grid;
pub mod tile_helpers;
pub mod resources;
pub mod setup;
pub mod systems;
