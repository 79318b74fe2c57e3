//! The requests that the player submits, each as an entity of its own that
//! carries one of these components.

use crate::resources::ledger::OwnedResources;
use crate::resources::path::Tile;
use crate::resources::StructureKind;
use legion::Entity;
use vstd::prelude::*;

verus! {

/// The player asks to change the tile at `(x, y)` into `desired`.
#[derive(Copy, Clone, Debug)]
pub struct TryChangeTileType {
    pub x: i32,
    pub y: i32,
    pub desired: Tile,
    pub costs: OwnedResources,
}

/// The player asks to build a structure on the tile at `(x, y)`.
#[derive(Copy, Clone, Debug)]
pub struct TryBuildStructure {
    pub x: i32,
    pub y: i32,
    pub desired: StructureKind,
    pub costs: OwnedResources,
}

/// The player asks to sell a structure.
#[derive(Copy, Clone, Debug)]
pub struct TrySellStructure {
    pub to_sell: Entity,
}

/// The player asks to launch the next wave.
#[derive(Copy, Clone, Debug, PartialEq, Eq, Structural)]
pub struct TryLaunchWave;

/// The player asks to switch the automatic launch of waves on or off.
#[derive(Copy, Clone, Debug, PartialEq, Eq, Structural)]
pub struct ToggleAutoLaunchWave;

/// A direction key, whichever physical key stands for it.
#[derive(Copy, Clone, Debug, PartialEq, Eq, Structural)]
pub enum UserKey {
    Up,
    Down,
    Left,
    Right,
}

/// The player has pressed or released a direction key, or left the canvas.
#[derive(Copy, Clone, Debug, PartialEq, Eq, Structural)]
pub enum UserKeyEvent {
    KeyDown(UserKey),
    KeyUp(UserKey),
    AllKeysUp,
}

/// The player has clicked the tile at `(tile_x, tile_y)`.
#[derive(Copy, Clone, Debug, PartialEq, Eq, Structural)]
pub struct UserClickTile {
    pub tile_x: i32,
    pub tile_y: i32,
}

/// The player has dropped the selection.
#[derive(Copy, Clone, Debug, PartialEq, Eq, Structural)]
pub struct UserUnselectTile;

} // verus!
