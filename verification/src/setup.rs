//! The state in which a game begins.

use crate::components::{PoisonGasTrap, Position, RenderGeometry, Renderable};
use crate::ecs::{blank, clear_world, entities, push_emitter, world_id, Components};
use crate::grid::Pos;
use crate::resources::ledger::{OwnedResource, OwnedResources};
use crate::resources::map::TileMap;
use crate::resources::path::{is_route, lemma_route_reaches, spawns_connected, Tile};
use crate::resources::tables::{StructureBuilds, TileTransformDesc, TileTransforms};
use crate::resources::{GameState, KeysPressed, NextWaveState, PlayerHealth, TdCamera, TdTileSelect};
use crate::systems::tick_systems::{GameResources, GameView};
use legion::{Entity, World};
use vstd::prelude::*;

verus! {

/// The two legs of the starting map: from the spawn tile at `(8, 0)` and
/// from the spawn tile at `(0, 0)` to where they meet at `(4, 2)`, and from
/// there to the core tile at `(4, -2)`.
pub open spec fn starting_tiles() -> Map<Pos, Tile> {
    Map::<Pos, Tile>::empty().insert((8, 0), Tile::Spawn).insert((8, 1), Tile::Open).insert((8, 2), Tile::Open).insert(
        (8, 3),
        Tile::Open,
    ).insert((7, 3), Tile::Open).insert((6, 3), Tile::Open).insert((5, 3), Tile::Open).insert((4, 3), Tile::Open).insert(
        (0, 0),
        Tile::Spawn,
    ).insert((0, 1), Tile::Open).insert((0, 2), Tile::Open).insert((1, 2), Tile::Open).insert((2, 2), Tile::Open).insert(
        (3, 2),
        Tile::Open,
    ).insert((4, 2), Tile::Open).insert((4, 1), Tile::Open).insert((4, 0), Tile::Open).insert(
        (4, -1i32),
        Tile::Open,
    ).insert((4, -2i32), Tile::Core)
}

/// The ledger at the start: fifty money and twenty wood.
pub open spec fn starting_ledger() -> Map<OwnedResource, int> {
    Map::<OwnedResource, int>::empty().insert(OwnedResource::Money, 50).insert(OwnedResource::Wood, 20)
}

/// The changes of tiles that the game offers, each with its cost.
pub open spec fn starting_transforms() -> Map<(Tile, Tile), OwnedResources> {
    Map::<(Tile, Tile), OwnedResources>::empty().insert(
        (Tile::Open, Tile::Wall),
        OwnedResources::spec_new().spec_with(OwnedResource::Money, 5).spec_with(OwnedResource::Wood, 5),
    ).insert((Tile::Wall, Tile::Open), OwnedResources::spec_new().spec_with(OwnedResource::Money, 3)).insert(
        (Tile::Open, Tile::Spawn),
        OwnedResources::spec_new().spec_with(OwnedResource::Metal, 15).spec_with(OwnedResource::Wood, 25),
    ).insert(
        (Tile::Open, Tile::Core),
        OwnedResources::spec_new().spec_with(OwnedResource::Metal, 15).spec_with(OwnedResource::Wood, 25),
    )
}

/// What the resources hold at the start.
pub open spec fn starting_view() -> GameView {
    GameView {
        tiles: starting_tiles(),
        gas: Map::empty(),
        ledger: starting_ledger(),
        next_wave: NextWaveState { auto_launch: false, next_wave: 1, delay_ticks: 0 },
        health: PlayerHealth { health: 20, max: 20 },
        state: GameState::Opening,
        keys: KeysPressed { down: false, up: false, left: false, right: false },
        camera: TdCamera { top: -100i32, left: -100i32 },
        selected: None,
        transforms: starting_transforms(),
        builds: Map::empty(),
    }
}

/// What the one entity of the starting world carries: it gives off ten
/// units of gas per tick at the centre of the tile `(4, 2)`.
pub open spec fn starting_emitter() -> Components {
    Components {
        gas_trap: Some(PoisonGasTrap { amount: 10 }),
        renderable: Some(Renderable::Geometry(RenderGeometry::Circle { radius: 3 })),
        position: Some(Position { x: 144, y: 80 }),
        ..blank()
    }
}

/// On the starting map every spawn tile has a path to the core tile.
pub proof fn lemma_starting_map_connected()
    ensures
        spawns_connected(starting_tiles()),
{
    let t = starting_tiles();
    let east: Seq<Pos> = seq![
        (4i32, -2i32),
        (4, -1i32),
        (4, 0),
        (4, 1),
        (4, 2),
        (4, 3),
        (5, 3),
        (6, 3),
        (7, 3),
        (8, 3),
        (8, 2),
        (8, 1),
        (8, 0),
    ];
    let west: Seq<Pos> = seq![(4i32, -2i32), (4, -1i32), (4, 0), (4, 1), (4, 2), (3, 2), (2, 2), (1, 2), (0, 2), (0, 1), (0, 0)];
    assert(is_route(t, east));
    assert(is_route(t, west));
    lemma_route_reaches(t, east);
    lemma_route_reaches(t, west);
    assert(east.last() == (8i32, 0i32));
    assert(west.last() == (0i32, 0i32));
}

/// Sets a game up: the world holds one gas emitter and nothing else; the
/// resources are those of the start, with the game in its opening phase.
pub fn init_ecs(world: &mut World) -> (resources: GameResources)
    ensures
        resources.wf(),
        resources@ == starting_view(),
        spawns_connected(resources@.tiles),
        exists|e: Entity| entities(*final(world)) == Map::<Entity, Components>::empty().insert(e, starting_emitter()),
        world_id(*final(world)) == world_id(*old(world)),
{
    clear_world(world);
    let e = push_emitter(
        world,
        PoisonGasTrap { amount: 10 },
        Renderable::Geometry(RenderGeometry::Circle { radius: 3 }),
        Position::at_tile_center(4, 2),
    );
    let mut map = TileMap::new();
    map.set_tile(8, 0, Tile::Spawn);
    map.set_tile(8, 1, Tile::Open);
    map.set_tile(8, 2, Tile::Open);
    map.set_tile(8, 3, Tile::Open);
    map.set_tile(7, 3, Tile::Open);
    map.set_tile(6, 3, Tile::Open);
    map.set_tile(5, 3, Tile::Open);
    map.set_tile(4, 3, Tile::Open);
    map.set_tile(0, 0, Tile::Spawn);
    map.set_tile(0, 1, Tile::Open);
    map.set_tile(0, 2, Tile::Open);
    map.set_tile(1, 2, Tile::Open);
    map.set_tile(2, 2, Tile::Open);
    map.set_tile(3, 2, Tile::Open);
    map.set_tile(4, 2, Tile::Open);
    map.set_tile(4, 1, Tile::Open);
    map.set_tile(4, 0, Tile::Open);
    map.set_tile(4, -1, Tile::Open);
    map.set_tile(4, -2, Tile::Core);
    let mut camera = TdCamera::default();
    camera.top = -100;
    camera.left = -100;
    let mut transforms = TileTransforms::new();
    transforms.add(
        TileTransformDesc {
            source: Tile::Open,
            target: Tile::Wall,
            cost: OwnedResources::new().with(OwnedResource::Money, 5).with(OwnedResource::Wood, 5),
        },
    );
    transforms.add(
        TileTransformDesc {
            source: Tile::Wall,
            target: Tile::Open,
            cost: OwnedResources::new().with(OwnedResource::Money, 3),
        },
    );
    transforms.add(
        TileTransformDesc {
            source: Tile::Open,
            target: Tile::Spawn,
            cost: OwnedResources::new().with(OwnedResource::Metal, 15).with(OwnedResource::Wood, 25),
        },
    );
    transforms.add(
        TileTransformDesc {
            source: Tile::Open,
            target: Tile::Core,
            cost: OwnedResources::new().with(OwnedResource::Metal, 15).with(OwnedResource::Wood, 25),
        },
    );
    let resources = GameResources {
        map,
        owned: OwnedResources::new().with(OwnedResource::Money, 50).with(OwnedResource::Wood, 20),
        next_wave: NextWaveState::default(),
        health: PlayerHealth::default(),
        state: GameState::Opening,
        keys: KeysPressed::default(),
        camera,
        selected: TdTileSelect::default(),
        transforms,
        builds: StructureBuilds::new(),
    };
    proof {
        lemma_starting_map_connected();
        assert(entities(*world) == Map::<Entity, Components>::empty().insert(e, starting_emitter()));
    }
    resources
}

} // verus!
