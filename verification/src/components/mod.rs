//! The components that entities carry.

pub mod user_input;

use crate::grid::Pos;
use crate::resources::ledger::{OwnedResource, OwnedResources};
use crate::resources::StructureKind;
use crate::tile_helpers::{addressable, coords_to_tile, tile_center, tile_of_pixel, tile_to_pixel_coords};
use legion::Entity;
use vstd::prelude::*;

verus! {

/// The entity has touched the core.
#[derive(Copy, Clone, Debug, PartialEq, Eq, Structural)]
pub struct TouchedCore;

/// The entity's position, in world pixels.
#[derive(Copy, Clone, Debug, PartialEq, Eq, Structural)]
pub struct Position {
    pub x: i32,
    pub y: i32,
}

impl Position {
    /// The tile that holds this position.
    pub open spec fn tile(self) -> Pos {
        tile_of_pixel(self.x as int, self.y as int)
    }

    /// The position at the centre of the tile `(tile_x, tile_y)`.
    pub fn at_tile_center(tile_x: i32, tile_y: i32) -> (p: Position)
        requires
            addressable((tile_x, tile_y)),
        ensures
            (p.x as int, p.y as int) == tile_center((tile_x, tile_y)),
    {
        let (x, y) = tile_to_pixel_coords(tile_x, tile_y);
        Position { x, y }
    }

    /// The tile that holds this position.
    pub fn to_tile_coords(&self) -> (t: (i32, i32))
        ensures
            t == self.tile(),
            addressable(t),
    {
        match coords_to_tile(self.x, self.y) {
            Some(t) => t,
            None => (0, 0),
        }
    }
}

/// The entity is a mob of the tower defense.
#[derive(Copy, Clone, Debug, PartialEq, Eq, Structural)]
pub struct TdMob;

/// The entity's health; at zero or below it dies.
#[derive(Copy, Clone, Debug, PartialEq, Eq, Structural)]
pub struct MobHealth {
    pub current_health: i32,
    pub max_health: i32,
}

/// The entity has died: its death events are to be handled, and it is to be deleted.
#[derive(Copy, Clone, Debug, PartialEq, Eq, Structural)]
pub struct Died;

/// What happens when the entity dies.
#[derive(Copy, Clone, Debug, PartialEq, Eq, Structural)]
pub enum DeathEvent {
    GetResources(OwnedResource, i64),
}

/// The events that the entity's death sets off.
#[derive(Clone, Debug)]
pub struct OnDeath {
    pub events: Vec<DeathEvent>,
}

/// A bitmap that an entity can be drawn with.
#[derive(Copy, Clone, Debug, PartialEq, Eq, Structural)]
pub enum RenderBitmap {
    GasTrap,
}

/// A shape that an entity can be drawn with.
#[derive(Copy, Clone, Debug, PartialEq, Eq, Structural)]
pub enum RenderGeometry {
    Circle { radius: i32 },
}

/// How the entity is drawn. The stages hand it on and never read it.
#[derive(Copy, Clone, Debug, PartialEq, Eq, Structural)]
pub enum Renderable {
    Bitmap { dx: i32, dy: i32, bitmap: RenderBitmap },
    Geometry(RenderGeometry),
}

/// Whether an entity of a wave is in play or still waits for its turn.
#[derive(Copy, Clone, Debug, PartialEq, Eq, Structural)]
pub enum WaitState {
    Active,
    Waiting { ticks_remaining: usize },
}

/// The wave that the entity belongs to, and whether it is in play yet.
#[derive(Copy, Clone, Debug, PartialEq, Eq, Structural)]
pub struct WaveState {
    pub wave_num: usize,
    pub wait_state: WaitState,
}

/// The entity is not drawn.
#[derive(Copy, Clone, Debug, PartialEq, Eq, Structural)]
pub struct Hidden;

/// The entity needs air, so gas hurts it.
#[derive(Copy, Clone, Debug, PartialEq, Eq, Structural)]
pub struct Breathes;

/// The entity is a structure of the given kind.
#[derive(Copy, Clone, Debug, PartialEq, Eq, Structural)]
pub struct Structure(pub StructureKind);

/// What the player gets for selling the entity.
#[derive(Copy, Clone, Debug, PartialEq, Eq, Structural)]
pub struct SellValue(pub OwnedResources);

/// The entity is a gas trap: it gives off poison gas every tick.
#[derive(Copy, Clone, Debug, PartialEq, Eq, Structural)]
pub struct PoisonGasTrap {
    /// How much gas it gives off each tick.
    pub amount: i32,
}

/// The entity `target` is to take `amount` of damage.
#[derive(Copy, Clone, Debug)]
pub struct TakeDamage {
    pub target: Entity,
    pub amount: i32,
}

} // verus!
