use legion::{IntoQuery, World};
use tower_defense::components::{PoisonGasTrap, Position, RenderBitmap, RenderGeometry, Renderable};
use tower_defense::detail_view::{
    from_ecs, make_build_button, make_change_button, make_structure_view, tile_details, BuildButton, ChangeButton,
    DetailState, StructureState,
};
use tower_defense::resources::ledger::{OwnedResource, OwnedResources};
use tower_defense::resources::path::Tile;
use tower_defense::resources::tables::{StructureBuildDesc, TileTransformDesc};
use tower_defense::resources::{
    GameState, KeysPressed, NextWaveState, PlayerHealth, SelectedStructure, StructureKind, TdCamera, TdTileSelect,
};
use tower_defense::setup::init_ecs;
use tower_defense::systems::map_render_helpers::{get_render_bounds, intersects, intersects_1d, BoundingBox};
use tower_defense::systems::tick_systems::{advance_tick, GameResources};

fn money(n: i64) -> OwnedResources {
    OwnedResources::new().with(OwnedResource::Money, n)
}

fn five_five() -> OwnedResources {
    OwnedResources::new().with(OwnedResource::Money, 5).with(OwnedResource::Wood, 5)
}

#[test]
fn game_begins_with_the_starting_state() {
    let mut world = World::default();
    world.push((Position { x: 1, y: 1 },));
    let mut resources = init_ecs(&mut world);
    assert_eq!(resources.state, GameState::Opening);
    assert_eq!(resources.next_wave, NextWaveState::default());
    assert_eq!(resources.health, PlayerHealth::default());
    assert_eq!(resources.keys, KeysPressed::default());
    assert_eq!(resources.camera, TdCamera { top: -100, left: -100 });
    assert!(!resources.selected.is_selected());
    assert_eq!(resources.owned, OwnedResources::new().with(OwnedResource::Money, 50).with(OwnedResource::Wood, 20));
    assert_eq!(resources.map.all_spawns(), vec![(0, 0), (8, 0)]);
    assert_eq!(resources.map.get_tile(4, -2), Tile::Core);
    assert_eq!(resources.map.get_tile(4, 2), Tile::Open);
    assert_eq!(resources.map.get_tile(1, 1), Tile::Wall);
    assert_eq!(resources.map.path_cost(0, 0), Some(10));
    assert_eq!(resources.map.path_cost(8, 0), Some(12));
    assert_eq!(resources.transforms.cost_of(Tile::Open, Tile::Wall), Some(five_five()));
    assert_eq!(resources.transforms.cost_of(Tile::Wall, Tile::Open), Some(money(3)));
    let big = OwnedResources::new().with(OwnedResource::Metal, 15).with(OwnedResource::Wood, 25);
    assert_eq!(resources.transforms.cost_of(Tile::Open, Tile::Spawn), Some(big));
    assert_eq!(resources.transforms.cost_of(Tile::Open, Tile::Core), Some(big));
    assert_eq!(resources.builds.list_all_for(Tile::Open), vec![]);
    let all: Vec<(PoisonGasTrap, Renderable, Position)> =
        <(&PoisonGasTrap, &Renderable, &Position)>::query().iter(&world).map(|(g, r, p)| (*g, *r, *p)).collect();
    assert_eq!(
        all,
        vec![(
            PoisonGasTrap { amount: 10 },
            Renderable::Geometry(RenderGeometry::Circle { radius: 3 }),
            Position { x: 144, y: 80 },
        )]
    );
    assert_eq!(world.len(), 1);
}

#[test]
fn started_game_fills_the_trap_tile_with_gas() {
    let mut world = World::default();
    let mut resources = init_ecs(&mut world);
    advance_tick(&mut world, &mut resources);
    assert_eq!(resources.map.get_gas_amount(4, 2), 0);
    resources.state = GameState::MainGame;
    advance_tick(&mut world, &mut resources);
    // ten units given off, one decayed; the tile's three open neighbours,
    // west, south and north, take two units each; the northern one comes
    // later in the order and passes one unit on to the east
    assert_eq!(resources.map.get_gas_amount(4, 2), 3);
    assert_eq!(resources.map.get_gas_amount(3, 2), 2);
    assert_eq!(resources.map.get_gas_amount(4, 1), 2);
    assert_eq!(resources.map.get_gas_amount(4, 3), 1);
    assert_eq!(resources.map.get_gas_amount(5, 3), 1);
    assert_eq!(resources.map.get_gas_amount(5, 2), 0);
}

#[test]
fn detail_state_is_read_from_the_selection() {
    let mut world = World::default();
    let mut resources = init_ecs(&mut world);
    assert!(matches!(from_ecs(&resources), DetailState::Nothing));
    let e = world.push((Position { x: 0, y: 0 },));
    resources.selected = TdTileSelect::Selected {
        x: 4,
        y: -2,
        structures: vec![SelectedStructure { entity: e, kind: StructureKind::GasTrap, sell_value: Some(money(10)) }],
    };
    match from_ecs(&resources) {
        DetailState::Tile { x, y, tile, structures } => {
            assert_eq!((x, y, tile), (4, -2, Tile::Core));
            assert_eq!(structures.len(), 1);
            assert_eq!(structures[0].entity, e);
            assert_eq!(structures[0].kind, StructureKind::GasTrap);
            assert_eq!(structures[0].sell_value, Some(money(10)));
        }
        DetailState::Nothing => panic!("a tile is selected"),
    }
}

#[test]
fn sell_offer_works_with_a_sell_value() {
    let mut world = World::default();
    let e = world.push((Position { x: 0, y: 0 },));
    let with = make_structure_view(&StructureState { entity: e, kind: StructureKind::GasTrap, sell_value: Some(money(1)) });
    assert!(with.would_work);
    assert_eq!(with.sell_value, Some(money(1)));
    let without = make_structure_view(&StructureState { entity: e, kind: StructureKind::GasTrap, sell_value: None });
    assert!(!without.would_work);
}

#[test]
fn build_offer_needs_money_and_a_free_tile() {
    let mut world = World::default();
    let resources = init_ecs(&mut world);
    assert_eq!(
        make_build_button(&resources, StructureKind::GasTrap, money(50), false),
        BuildButton { kind: StructureKind::GasTrap, cost: money(50), can_pay: true, blocked: false, would_work: true }
    );
    assert_eq!(
        make_build_button(&resources, StructureKind::GasTrap, money(51), false),
        BuildButton { kind: StructureKind::GasTrap, cost: money(51), can_pay: false, blocked: false, would_work: false }
    );
    assert_eq!(
        make_build_button(&resources, StructureKind::GasTrap, money(50), true),
        BuildButton { kind: StructureKind::GasTrap, cost: money(50), can_pay: true, blocked: true, would_work: false }
    );
}

#[test]
fn change_offer_needs_money_and_a_path() {
    let mut world = World::default();
    let resources = init_ecs(&mut world);
    // (4, 0) lies on the only way to the core
    assert_eq!(
        make_change_button(&resources, 4, 0, Tile::Wall, five_five()),
        ChangeButton { target: Tile::Wall, cost: five_five(), can_pay: true, can_path: false, would_work: false }
    );
    assert_eq!(
        make_change_button(&resources, 1, 1, Tile::Open, money(3)),
        ChangeButton { target: Tile::Open, cost: money(3), can_pay: true, can_path: true, would_work: true }
    );
    assert_eq!(
        make_change_button(&resources, 1, 1, Tile::Open, money(300)),
        ChangeButton { target: Tile::Open, cost: money(300), can_pay: false, can_path: true, would_work: false }
    );
}

#[test]
fn tile_details_list_every_offer_of_the_tables() {
    let mut world = World::default();
    let mut resources = init_ecs(&mut world);
    resources.builds.add(StructureBuildDesc { tile: Tile::Open, kind: StructureKind::GasTrap, cost: money(20) });
    resources.transforms.add(TileTransformDesc { source: Tile::Core, target: Tile::Open, cost: money(1) });
    let e = world.push((Position { x: 0, y: 0 },));
    let structures = vec![StructureState { entity: e, kind: StructureKind::GasTrap, sell_value: None }];

    let details = tile_details(&resources, 8, 1, Tile::Open, &vec![]);
    assert_eq!(details.sell_structures.len(), 0);
    assert_eq!(
        details.build_structures,
        vec![BuildButton { kind: StructureKind::GasTrap, cost: money(20), can_pay: true, blocked: false, would_work: true }]
    );
    let mut targets: Vec<(Tile, bool, bool, bool)> =
        details.changes.iter().map(|c| (c.target, c.can_pay, c.can_path, c.would_work)).collect();
    targets.sort_by_key(|t| format!("{:?}", t.0));
    assert_eq!(
        targets,
        vec![
            (Tile::Core, false, true, false),
            (Tile::Spawn, false, true, false),
            (Tile::Wall, true, false, false),
        ]
    );

    let details = tile_details(&resources, 8, 1, Tile::Open, &structures);
    assert_eq!(details.sell_structures.len(), 1);
    assert!(!details.sell_structures[0].would_work);
    assert!(details.build_structures[0].blocked);
    assert!(!details.build_structures[0].would_work);

    let details = tile_details(&resources, 1, 1, Tile::Wall, &vec![]);
    assert_eq!(details.build_structures, vec![]);
    assert_eq!(
        details.changes,
        vec![ChangeButton { target: Tile::Open, cost: money(3), can_pay: true, can_path: true, would_work: true }]
    );
}

#[test]
fn intervals_and_rectangles_intersect() {
    assert!(intersects_1d(0, 10, 9, 20));
    assert!(!intersects_1d(0, 10, 10, 20));
    assert!(!intersects_1d(10, 20, 0, 10));
    let a = BoundingBox { xmin: 0, xmax: 10, ymin: 0, ymax: 10 };
    assert!(intersects(a, BoundingBox { xmin: 9, xmax: 12, ymin: 9, ymax: 12 }));
    assert!(!intersects(a, BoundingBox { xmin: 10, xmax: 12, ymin: 0, ymax: 10 }));
    assert!(!intersects(a, BoundingBox { xmin: 0, xmax: 10, ymin: -5, ymax: 0 }));
}

#[test]
fn render_bounds_of_a_bitmap_and_a_circle() {
    let pos = Position { x: 48, y: 16 };
    assert_eq!(
        get_render_bounds(pos, Renderable::Bitmap { dx: -16, dy: -16, bitmap: RenderBitmap::GasTrap }),
        BoundingBox { xmin: 32, xmax: 64, ymin: 0, ymax: 32 }
    );
    assert_eq!(
        get_render_bounds(pos, Renderable::Geometry(RenderGeometry::Circle { radius: 10 })),
        BoundingBox { xmin: 38, xmax: 59, ymin: 6, ymax: 27 }
    );
}
