use legion::systems::CommandBuffer;
use legion::{Entity, EntityStore, IntoQuery, Resources, World};
use tower_defense::components::user_input::{
    ToggleAutoLaunchWave, TryBuildStructure, TryChangeTileType, TryLaunchWave, TrySellStructure, UserClickTile, UserKey,
    UserKeyEvent, UserUnselectTile,
};
use tower_defense::components::{
    Breathes, DeathEvent, Died, Hidden, MobHealth, OnDeath, PoisonGasTrap, Position, RenderBitmap, Renderable,
    SellValue, Structure, TakeDamage, TdMob, TouchedCore, WaitState, WaveState,
};
use tower_defense::resources::ledger::{OwnedResource, OwnedResources};
use tower_defense::resources::map::TileMap;
use tower_defense::resources::path::Tile;
use tower_defense::resources::tables::{StructureBuildDesc, StructureBuilds, TileTransformDesc, TileTransforms};
use tower_defense::resources::{GameState, KeysPressed, NextWaveState, PlayerHealth, StructureKind, TdTileSelect};
use tower_defense::systems::tick_systems::breathe_gas_system::breathe_gas;
use tower_defense::systems::tick_systems::build_structure_system::build_structures;
use tower_defense::systems::tick_systems::change_tile_system::process_tile_changes;
use tower_defense::systems::tick_systems::death_cleanup::death_cleanup;
use tower_defense::systems::tick_systems::death_handler::death_handler;
use tower_defense::systems::tick_systems::gas_trap_run_system::gas_traps_make_gas;
use tower_defense::systems::tick_systems::keyboard_system::process_key_input;
use tower_defense::systems::tick_systems::launch_wave_system::{launch_wave, process_wave_launch};
use tower_defense::systems::tick_systems::mob_core_system::mob_core_hits;
use tower_defense::systems::tick_systems::mob_death_tracker::mobs_die_at_no_health;
use tower_defense::systems::tick_systems::mob_movement_system::{move_mobs, unit_diff};
use tower_defense::systems::tick_systems::sell_structure_system::sell_structures;
use tower_defense::systems::tick_systems::take_damage_system::take_damage;
use tower_defense::systems::tick_systems::user_click_system::process_tile_clicks;
use tower_defense::systems::tick_systems::wave_update_system::update_wave_state;
use tower_defense::systems::tick_systems::{advance_tick, GameResources};

fn flush(cmd: &mut CommandBuffer, world: &mut World) {
    cmd.flush(world, &mut Resources::default());
}

fn count<T: Send + Sync + 'static>(world: &World) -> usize {
    <&T>::query().iter(world).count()
}

fn get<T: Clone + Send + Sync + 'static>(world: &World, e: Entity) -> Option<T> {
    world.entry_ref(e).ok().and_then(|entry| entry.get_component::<T>().ok().cloned())
}

fn money(n: i64) -> OwnedResources {
    OwnedResources::new().with(OwnedResource::Money, n)
}

fn five_five() -> OwnedResources {
    OwnedResources::new().with(OwnedResource::Money, 5).with(OwnedResource::Wood, 5)
}

// Spawn at (0, 0), Core at (0, -2), corridor through (0, -1)
fn short_map() -> TileMap {
    let mut map = TileMap::new();
    map.set_tile(0, 0, Tile::Spawn);
    map.set_tile(0, -1, Tile::Open);
    map.set_tile(0, -2, Tile::Core);
    map
}

// Core at (0, 0), Open at (1, 0), Spawn at (2, 0)
fn row_map() -> TileMap {
    let mut map = TileMap::new();
    map.set_tile(0, 0, Tile::Core);
    map.set_tile(1, 0, Tile::Open);
    map.set_tile(2, 0, Tile::Spawn);
    map
}

fn game(map: TileMap) -> GameResources {
    let mut resources = GameResources::new();
    resources.map = map;
    resources.state = GameState::MainGame;
    resources.owned = OwnedResources::new().with(OwnedResource::Money, 50).with(OwnedResource::Wood, 20);
    resources.transforms.add(TileTransformDesc { source: Tile::Open, target: Tile::Wall, cost: five_five() });
    resources.transforms.add(TileTransformDesc { source: Tile::Wall, target: Tile::Open, cost: money(3) });
    resources.builds.add(StructureBuildDesc { tile: Tile::Open, kind: StructureKind::GasTrap, cost: money(20) });
    resources
}

fn active_mob(world: &mut World, x: i32, y: i32, health: i32) -> Entity {
    world.push((
        Position { x, y },
        TdMob,
        WaveState { wave_num: 0, wait_state: WaitState::Active },
        MobHealth { current_health: health, max_health: 100 },
        Breathes,
    ))
}

#[test]
fn new_resources_are_those_of_a_game_not_begun() {
    let resources = GameResources::new();
    assert_eq!(resources.state, GameState::Opening);
    assert_eq!(resources.next_wave, NextWaveState { auto_launch: false, next_wave: 1, delay_ticks: 0 });
    assert_eq!(resources.health, PlayerHealth { health: 20, max: 20 });
    assert_eq!(resources.owned, OwnedResources::new());
    assert!(!resources.selected.is_selected());
}

#[test]
fn tick_does_nothing_outside_the_main_game() {
    for state in [GameState::Opening, GameState::Died] {
        let mut world = World::default();
        let intent = world.push((TryLaunchWave,));
        let mut resources = game(row_map());
        resources.state = state;
        resources.keys.right = true;
        advance_tick(&mut world, &mut resources);
        assert!(world.contains(intent));
        assert_eq!(count::<TdMob>(&world), 0);
        assert_eq!(resources.next_wave, NextWaveState::default());
        assert_eq!(resources.camera.left, 0);
        assert_eq!(resources.state, state);
    }
}

#[test]
fn launch_intent_is_consumed_whether_or_not_the_wave_launches() {
    let mut world = World::default();
    let intent = world.push((TryLaunchWave,));
    let mut resources = game(row_map());
    advance_tick(&mut world, &mut resources);
    assert!(!world.contains(intent));
    assert_eq!(count::<TryLaunchWave>(&world), 0);
    assert_eq!(count::<TdMob>(&world), 10);
    assert_eq!(resources.next_wave.next_wave, 2);

    let second = world.push((TryLaunchWave,));
    advance_tick(&mut world, &mut resources);
    assert!(!world.contains(second));
    assert_eq!(count::<TryLaunchWave>(&world), 0);
    assert_eq!(count::<TdMob>(&world), 10);
    assert_eq!(resources.next_wave.next_wave, 2);
}

#[test]
fn tile_change_on_the_only_corridor_is_rejected() {
    let mut world = World::default();
    let intent = world.push((TryChangeTileType { x: 0, y: -1, desired: Tile::Wall, costs: five_five() },));
    let mut resources = game(short_map());
    advance_tick(&mut world, &mut resources);
    assert!(!world.contains(intent));
    assert_eq!(resources.map.get_tile(0, -1), Tile::Open);
    assert_eq!(resources.owned, OwnedResources::new().with(OwnedResource::Money, 50).with(OwnedResource::Wood, 20));
}

#[test]
fn tile_change_off_the_path_succeeds() {
    let mut world = World::default();
    let mut resources = game(short_map());
    resources.transforms.add(TileTransformDesc { source: Tile::Wall, target: Tile::Wall, cost: five_five() });
    let intent = world.push((TryChangeTileType { x: 5, y: 5, desired: Tile::Wall, costs: five_five() },));
    advance_tick(&mut world, &mut resources);
    assert!(!world.contains(intent));
    assert_eq!(resources.map.get_tile(5, 5), Tile::Wall);
    assert_eq!(resources.owned.amount(OwnedResource::Money), 45);
    assert_eq!(resources.owned.amount(OwnedResource::Wood), 15);
}

#[test]
fn open_tile_off_the_path_becomes_a_wall() {
    let mut world = World::default();
    let mut map = short_map();
    map.set_tile(5, 5, Tile::Open);
    let mut resources = game(map);
    world.push((TryChangeTileType { x: 5, y: 5, desired: Tile::Wall, costs: five_five() },));
    advance_tick(&mut world, &mut resources);
    assert_eq!(resources.map.get_tile(5, 5), Tile::Wall);
    assert_eq!(resources.owned.amount(OwnedResource::Money), 45);
    assert_eq!(resources.owned.amount(OwnedResource::Wood), 15);
    assert_eq!(count::<TryChangeTileType>(&world), 0);
}

#[test]
fn tile_change_is_charged_by_the_table_not_by_the_request() {
    let mut world = World::default();
    let mut map = short_map();
    map.set_tile(5, 5, Tile::Open);
    let mut resources = game(map);
    let mut cmd = CommandBuffer::new(&world);
    world.push((TryChangeTileType { x: 5, y: 5, desired: Tile::Wall, costs: OwnedResources::new() },));
    process_tile_changes(&mut resources.map, &mut resources.owned, &resources.transforms, &mut cmd, &world);
    assert_eq!(resources.map.get_tile(5, 5), Tile::Wall);
    assert_eq!(resources.owned.amount(OwnedResource::Money), 45);
    assert_eq!(resources.owned.amount(OwnedResource::Wood), 15);
}

#[test]
fn tile_change_that_the_table_does_not_enter_is_dropped() {
    let mut world = World::default();
    let mut map = short_map();
    map.set_tile(5, 5, Tile::Open);
    let mut resources = game(map);
    let mut cmd = CommandBuffer::new(&world);
    let intent = world.push((TryChangeTileType { x: 5, y: 5, desired: Tile::Core, costs: OwnedResources::new() },));
    process_tile_changes(&mut resources.map, &mut resources.owned, &resources.transforms, &mut cmd, &world);
    flush(&mut cmd, &mut world);
    assert!(!world.contains(intent));
    assert_eq!(resources.map.get_tile(5, 5), Tile::Open);
    assert_eq!(resources.owned.amount(OwnedResource::Money), 50);
}

#[test]
fn unaffordable_tile_change_is_dropped() {
    let mut world = World::default();
    let mut map = short_map();
    map.set_tile(5, 5, Tile::Open);
    let mut resources = game(map);
    resources.owned = OwnedResources::new().with(OwnedResource::Money, 50).with(OwnedResource::Wood, 4);
    let mut cmd = CommandBuffer::new(&world);
    let intent = world.push((TryChangeTileType { x: 5, y: 5, desired: Tile::Wall, costs: five_five() },));
    process_tile_changes(&mut resources.map, &mut resources.owned, &resources.transforms, &mut cmd, &world);
    flush(&mut cmd, &mut world);
    assert!(!world.contains(intent));
    assert_eq!(resources.map.get_tile(5, 5), Tile::Open);
    assert_eq!(resources.owned.amount(OwnedResource::Money), 50);
    assert_eq!(resources.owned.amount(OwnedResource::Wood), 4);
}

#[test]
fn wave_has_ten_mobs_twenty_ticks_apart() {
    let spawns = vec![(2, 0), (0, -3)];
    let (actions, delay) = launch_wave(&spawns);
    assert_eq!(actions.len(), 10);
    assert_eq!(delay, 200);

    let mut world = World::default();
    world.push((TryLaunchWave,));
    let mut map = row_map();
    map.set_tile(2, 1, Tile::Spawn);
    let mut next = NextWaveState::default();
    let mut cmd = CommandBuffer::new(&world);
    process_wave_launch(&mut next, &map, &mut cmd, &world);
    flush(&mut cmd, &mut world);
    assert_eq!(next, NextWaveState { auto_launch: false, next_wave: 2, delay_ticks: 199 });
    assert_eq!(count::<TryLaunchWave>(&world), 0);
    let mut mobs: Vec<(usize, Position, MobHealth, usize, usize)> =
        <(&Position, &TdMob, &WaveState, &MobHealth, &Breathes, &OnDeath, &Hidden, &Renderable)>::query()
            .iter(&world)
            .map(|(pos, _, wave, health, _, on_death, _, _)| {
                let wait = match wave.wait_state {
                    WaitState::Waiting { ticks_remaining } => ticks_remaining,
                    WaitState::Active => usize::MAX,
                };
                (wait, *pos, *health, wave.wave_num, on_death.events.len())
            })
            .collect();
    mobs.sort_by_key(|m| m.0);
    assert_eq!(mobs.len(), 10);
    for (k, mob) in mobs.iter().enumerate() {
        assert_eq!(mob.0, 20 * k);
        // the spawn tiles (2, 0) and (2, 1) take turns
        let want = if k % 2 == 0 { Position { x: 80, y: 16 } } else { Position { x: 80, y: 48 } };
        assert_eq!(mob.1, want);
        assert_eq!(mob.2, MobHealth { current_health: 100, max_health: 100 });
        assert_eq!(mob.3, 0);
        assert_eq!(mob.4, 1);
    }
    let payouts: Vec<DeathEvent> =
        <&OnDeath>::query().iter(&world).flat_map(|on_death| on_death.events.clone()).collect();
    assert_eq!(payouts, vec![DeathEvent::GetResources(OwnedResource::Money, 5); 10]);
}

#[test]
fn second_launch_before_the_countdown_ends_is_dropped() {
    let mut world = World::default();
    let map = row_map();
    let mut next = NextWaveState::default();
    world.push((TryLaunchWave,));
    let mut cmd = CommandBuffer::new(&world);
    process_wave_launch(&mut next, &map, &mut cmd, &world);
    flush(&mut cmd, &mut world);
    assert_eq!(count::<TdMob>(&world), 10);
    let second = world.push((TryLaunchWave,));
    process_wave_launch(&mut next, &map, &mut cmd, &world);
    flush(&mut cmd, &mut world);
    assert!(!world.contains(second));
    assert_eq!(count::<TdMob>(&world), 10);
    assert_eq!(next, NextWaveState { auto_launch: false, next_wave: 2, delay_ticks: 198 });
}

#[test]
fn two_launch_requests_in_one_tick_launch_one_wave() {
    let mut world = World::default();
    let map = row_map();
    let mut next = NextWaveState::default();
    world.push((TryLaunchWave,));
    world.push((TryLaunchWave,));
    let mut cmd = CommandBuffer::new(&world);
    process_wave_launch(&mut next, &map, &mut cmd, &world);
    flush(&mut cmd, &mut world);
    assert_eq!(count::<TdMob>(&world), 10);
    assert_eq!(count::<TryLaunchWave>(&world), 0);
    assert_eq!(next.next_wave, 2);
}

#[test]
fn no_wave_without_a_spawn_tile() {
    let mut world = World::default();
    let mut map = TileMap::new();
    map.set_tile(0, 0, Tile::Core);
    let mut next = NextWaveState::default();
    let intent = world.push((TryLaunchWave,));
    let mut cmd = CommandBuffer::new(&world);
    process_wave_launch(&mut next, &map, &mut cmd, &world);
    flush(&mut cmd, &mut world);
    assert!(!world.contains(intent));
    assert_eq!(count::<TdMob>(&world), 0);
    assert_eq!(next, NextWaveState::default());
}

#[test]
fn countdown_runs_without_requests() {
    let mut world = World::default();
    let map = row_map();
    let mut next = NextWaveState { auto_launch: true, next_wave: 4, delay_ticks: 2 };
    let mut cmd = CommandBuffer::new(&world);
    process_wave_launch(&mut next, &map, &mut cmd, &world);
    assert_eq!(next, NextWaveState { auto_launch: true, next_wave: 4, delay_ticks: 1 });
    process_wave_launch(&mut next, &map, &mut cmd, &world);
    process_wave_launch(&mut next, &map, &mut cmd, &world);
    assert_eq!(next, NextWaveState { auto_launch: true, next_wave: 4, delay_ticks: 0 });
    flush(&mut cmd, &mut world);
    assert_eq!(count::<TdMob>(&world), 0);
}

#[test]
fn toggle_flips_the_automatic_launch() {
    let mut world = World::default();
    let map = row_map();
    let mut next = NextWaveState { auto_launch: false, next_wave: 1, delay_ticks: 7 };
    let toggle = world.push((ToggleAutoLaunchWave,));
    let mut cmd = CommandBuffer::new(&world);
    process_wave_launch(&mut next, &map, &mut cmd, &world);
    flush(&mut cmd, &mut world);
    assert!(!world.contains(toggle));
    assert!(next.auto_launch);
    world.push((ToggleAutoLaunchWave,));
    world.push((ToggleAutoLaunchWave,));
    process_wave_launch(&mut next, &map, &mut cmd, &world);
    flush(&mut cmd, &mut world);
    assert!(next.auto_launch);
    assert_eq!(count::<ToggleAutoLaunchWave>(&world), 0);
}

#[test]
fn automatic_launch_asks_for_the_next_wave() {
    let mut world = World::default();
    let mut cmd = CommandBuffer::new(&world);
    update_wave_state(&NextWaveState { auto_launch: true, next_wave: 1, delay_ticks: 0 }, &mut cmd, &mut world);
    flush(&mut cmd, &mut world);
    assert_eq!(count::<TryLaunchWave>(&world), 1);
    update_wave_state(&NextWaveState { auto_launch: true, next_wave: 1, delay_ticks: 3 }, &mut cmd, &mut world);
    update_wave_state(&NextWaveState { auto_launch: false, next_wave: 1, delay_ticks: 0 }, &mut cmd, &mut world);
    flush(&mut cmd, &mut world);
    assert_eq!(count::<TryLaunchWave>(&world), 1);
}

#[test]
fn waiting_mobs_count_down_and_come_into_play() {
    let mut world = World::default();
    let waiting = world.push((WaveState { wave_num: 3, wait_state: WaitState::Waiting { ticks_remaining: 2 } }, Hidden));
    let ready = world.push((WaveState { wave_num: 3, wait_state: WaitState::Waiting { ticks_remaining: 0 } }, Hidden));
    let active = world.push((WaveState { wave_num: 3, wait_state: WaitState::Active }, Hidden));
    let next = NextWaveState::default();
    let mut cmd = CommandBuffer::new(&world);
    update_wave_state(&next, &mut cmd, &mut world);
    flush(&mut cmd, &mut world);
    assert_eq!(
        get::<WaveState>(&world, waiting),
        Some(WaveState { wave_num: 3, wait_state: WaitState::Waiting { ticks_remaining: 1 } })
    );
    assert_eq!(get::<WaveState>(&world, ready), Some(WaveState { wave_num: 3, wait_state: WaitState::Active }));
    assert_eq!(get::<WaveState>(&world, active), Some(WaveState { wave_num: 3, wait_state: WaitState::Active }));
    assert!(get::<Hidden>(&world, waiting).is_some());
    assert!(get::<Hidden>(&world, ready).is_none());
    assert!(get::<Hidden>(&world, active).is_some());
    update_wave_state(&next, &mut cmd, &mut world);
    update_wave_state(&next, &mut cmd, &mut world);
    flush(&mut cmd, &mut world);
    assert_eq!(get::<WaveState>(&world, waiting), Some(WaveState { wave_num: 3, wait_state: WaitState::Active }));
    assert!(get::<Hidden>(&world, waiting).is_none());
}

#[test]
fn click_selects_a_tile_and_lists_its_structures() {
    let mut world = World::default();
    let trap = world.push((Position { x: 144, y: 80 }, Structure(StructureKind::GasTrap), SellValue(money(10))));
    let bare = world.push((Position { x: 130, y: 70 }, Structure(StructureKind::GasTrap)));
    world.push((Position { x: 16, y: 16 }, Structure(StructureKind::GasTrap)));
    world.push((Position { x: 144, y: 80 }, TdMob));
    let click = world.push((UserClickTile { tile_x: 4, tile_y: 2 },));
    let mut selected = TdTileSelect::default();
    let mut cmd = CommandBuffer::new(&world);
    process_tile_clicks(&mut selected, &mut cmd, &world);
    flush(&mut cmd, &mut world);
    assert!(!world.contains(click));
    match selected {
        TdTileSelect::Selected { x, y, ref structures } => {
            assert_eq!((x, y), (4, 2));
            let mut found: Vec<(Entity, StructureKind, Option<OwnedResources>)> =
                structures.iter().map(|s| (s.entity, s.kind, s.sell_value)).collect();
            found.sort_by_key(|s| s.2.is_none());
            assert_eq!(
                found,
                vec![(trap, StructureKind::GasTrap, Some(money(10))), (bare, StructureKind::GasTrap, None)]
            );
        }
        TdTileSelect::Nothing => panic!("a tile should be selected"),
    }
}

#[test]
fn selection_is_refreshed_every_tick_and_dropped_on_unselect() {
    let mut world = World::default();
    let mut selected = TdTileSelect::Selected { x: 0, y: 0, structures: vec![] };
    let mut cmd = CommandBuffer::new(&world);
    let trap = world.push((Position { x: 5, y: 5 }, Structure(StructureKind::GasTrap)));
    process_tile_clicks(&mut selected, &mut cmd, &world);
    match selected {
        TdTileSelect::Selected { x, y, ref structures } => {
            assert_eq!((x, y), (0, 0));
            assert_eq!(structures.len(), 1);
            assert_eq!(structures[0].entity, trap);
        }
        TdTileSelect::Nothing => panic!("the tile should stay selected"),
    }
    let unselect = world.push((UserUnselectTile,));
    world.push((UserClickTile { tile_x: 1, tile_y: 1 },));
    process_tile_clicks(&mut selected, &mut cmd, &world);
    flush(&mut cmd, &mut world);
    assert!(!selected.is_selected());
    assert!(!world.contains(unselect));
    assert_eq!(count::<UserClickTile>(&world), 0);
}

#[test]
fn selling_refunds_and_removes_the_structure() {
    let mut world = World::default();
    let trap = world.push((Structure(StructureKind::GasTrap), SellValue(five_five())));
    let intent = world.push((TrySellStructure { to_sell: trap },));
    let mut owned = money(1);
    let mut cmd = CommandBuffer::new(&world);
    sell_structures(&mut owned, &mut cmd, &world);
    flush(&mut cmd, &mut world);
    assert!(!world.contains(trap));
    assert!(!world.contains(intent));
    assert_eq!(owned.amount(OwnedResource::Money), 6);
    assert_eq!(owned.amount(OwnedResource::Wood), 5);
}

#[test]
fn selling_what_is_gone_does_nothing() {
    let mut world = World::default();
    let trap = world.push((Structure(StructureKind::GasTrap), SellValue(five_five())));
    world.remove(trap);
    let intent = world.push((TrySellStructure { to_sell: trap },));
    let mut owned = money(1);
    let mut cmd = CommandBuffer::new(&world);
    sell_structures(&mut owned, &mut cmd, &world);
    flush(&mut cmd, &mut world);
    assert!(!world.contains(intent));
    assert_eq!(owned, money(1));
}

#[test]
fn selling_what_has_no_value_removes_it_without_refund() {
    let mut world = World::default();
    let thing = world.push((Structure(StructureKind::GasTrap),));
    world.push((TrySellStructure { to_sell: thing },));
    let mut owned = money(1);
    let mut cmd = CommandBuffer::new(&world);
    sell_structures(&mut owned, &mut cmd, &world);
    flush(&mut cmd, &mut world);
    assert!(!world.contains(thing));
    assert_eq!(owned, money(1));
}

#[test]
fn building_pays_and_creates_a_gas_trap() {
    let mut world = World::default();
    let mut resources = game(row_map());
    let intent = world.push((TryBuildStructure { x: 1, y: 0, desired: StructureKind::GasTrap, costs: money(20) },));
    let mut cmd = CommandBuffer::new(&world);
    build_structures(&mut resources.owned, &resources.map, &resources.builds, &mut cmd, &world);
    flush(&mut cmd, &mut world);
    assert!(!world.contains(intent));
    assert_eq!(resources.owned.amount(OwnedResource::Money), 30);
    let traps: Vec<(Position, Structure, PoisonGasTrap, Renderable, SellValue)> =
        <(&Position, &Structure, &PoisonGasTrap, &Renderable, &SellValue)>::query()
            .iter(&world)
            .map(|(p, s, g, r, v)| (*p, *s, *g, *r, *v))
            .collect();
    assert_eq!(
        traps,
        vec![(
            Position { x: 48, y: 16 },
            Structure(StructureKind::GasTrap),
            PoisonGasTrap { amount: 10 },
            Renderable::Bitmap { dx: -16, dy: -16, bitmap: RenderBitmap::GasTrap },
            SellValue(OwnedResources::new().with(OwnedResource::Money, 10).with(OwnedResource::Wood, 5)),
        )]
    );
}

#[test]
fn building_on_an_occupied_tile_is_dropped() {
    let mut world = World::default();
    let mut resources = game(row_map());
    world.push((Position { x: 40, y: 5 }, Structure(StructureKind::GasTrap)));
    let intent = world.push((TryBuildStructure { x: 1, y: 0, desired: StructureKind::GasTrap, costs: money(20) },));
    let mut cmd = CommandBuffer::new(&world);
    build_structures(&mut resources.owned, &resources.map, &resources.builds, &mut cmd, &world);
    flush(&mut cmd, &mut world);
    assert!(!world.contains(intent));
    assert_eq!(count::<Structure>(&world), 1);
    assert_eq!(resources.owned.amount(OwnedResource::Money), 50);
}

#[test]
fn two_builds_on_one_tile_build_one_structure() {
    let mut world = World::default();
    let mut resources = game(row_map());
    world.push((TryBuildStructure { x: 1, y: 0, desired: StructureKind::GasTrap, costs: money(20) },));
    world.push((TryBuildStructure { x: 1, y: 0, desired: StructureKind::GasTrap, costs: money(20) },));
    let mut cmd = CommandBuffer::new(&world);
    build_structures(&mut resources.owned, &resources.map, &resources.builds, &mut cmd, &world);
    flush(&mut cmd, &mut world);
    assert_eq!(count::<TryBuildStructure>(&world), 0);
    assert_eq!(count::<Structure>(&world), 1);
    assert_eq!(resources.owned.amount(OwnedResource::Money), 30);
}

#[test]
fn unaffordable_or_unlisted_build_is_dropped() {
    let mut world = World::default();
    let mut resources = game(row_map());
    resources.owned = money(19);
    world.push((TryBuildStructure { x: 1, y: 0, desired: StructureKind::GasTrap, costs: money(1) },));
    let mut cmd = CommandBuffer::new(&world);
    build_structures(&mut resources.owned, &resources.map, &resources.builds, &mut cmd, &world);
    flush(&mut cmd, &mut world);
    assert_eq!(count::<Structure>(&world), 0);
    assert_eq!(resources.owned, money(19));
    resources.owned = money(100);
    // the table enters no structure for a wall
    world.push((TryBuildStructure { x: 7, y: 7, desired: StructureKind::GasTrap, costs: money(1) },));
    build_structures(&mut resources.owned, &resources.map, &resources.builds, &mut cmd, &world);
    flush(&mut cmd, &mut world);
    assert_eq!(count::<Structure>(&world), 0);
    assert_eq!(count::<TryBuildStructure>(&world), 0);
    assert_eq!(resources.owned, money(100));
}

#[test]
fn key_events_set_and_clear_the_flags() {
    let mut world = World::default();
    let mut keys = KeysPressed::default();
    let mut cmd = CommandBuffer::new(&world);
    world.push((UserKeyEvent::KeyDown(UserKey::Up),));
    process_key_input(&mut keys, &mut cmd, &world);
    flush(&mut cmd, &mut world);
    assert_eq!(count::<UserKeyEvent>(&world), 0);
    assert_eq!(keys, KeysPressed { down: false, up: true, left: false, right: false });
    world.push((UserKeyEvent::KeyDown(UserKey::Left),));
    process_key_input(&mut keys, &mut cmd, &world);
    flush(&mut cmd, &mut world);
    world.push((UserKeyEvent::KeyUp(UserKey::Up),));
    process_key_input(&mut keys, &mut cmd, &world);
    flush(&mut cmd, &mut world);
    assert_eq!(keys, KeysPressed { down: false, up: false, left: true, right: false });
    world.push((UserKeyEvent::KeyDown(UserKey::Down),));
    world.push((UserKeyEvent::KeyDown(UserKey::Right),));
    process_key_input(&mut keys, &mut cmd, &world);
    flush(&mut cmd, &mut world);
    assert_eq!(keys, KeysPressed { down: true, up: false, left: true, right: true });
    world.push((UserKeyEvent::AllKeysUp,));
    process_key_input(&mut keys, &mut cmd, &world);
    flush(&mut cmd, &mut world);
    assert_eq!(keys, KeysPressed::default());
}

#[test]
fn gas_traps_give_off_gas_on_their_tile() {
    let mut world = World::default();
    world.push((PoisonGasTrap { amount: 10 }, Position { x: 48, y: 16 }));
    world.push((PoisonGasTrap { amount: 3 }, Position { x: 33, y: 1 }));
    world.push((PoisonGasTrap { amount: 99 },));
    let mut map = row_map();
    gas_traps_make_gas(&mut map, &world);
    assert_eq!(map.get_gas_amount(1, 0), 13);
    assert_eq!(map.get_gas_amount(0, 0), 0);
    gas_traps_make_gas(&mut map, &world);
    assert_eq!(map.get_gas_amount(1, 0), 26);
}

#[test]
fn unit_diff_is_the_sign_of_the_difference() {
    assert_eq!(unit_diff(3, 9), 1);
    assert_eq!(unit_diff(9, 3), -1);
    assert_eq!(unit_diff(-4, -4), 0);
}

#[test]
fn mob_moves_two_pixels_along_one_axis() {
    let mut world = World::default();
    let mut map = row_map();
    let mob = active_mob(&mut world, 80, 16, 100);
    let mut cmd = CommandBuffer::new(&world);
    move_mobs(&mut map, &mut cmd, &mut world);
    assert_eq!(get::<Position>(&world, mob), Some(Position { x: 78, y: 16 }));
}

#[test]
fn mob_moves_one_pixel_along_each_of_two_axes() {
    let mut world = World::default();
    let mut map = row_map();
    let mob = active_mob(&mut world, 70, 20, 100);
    let mut cmd = CommandBuffer::new(&world);
    move_mobs(&mut map, &mut cmd, &mut world);
    assert_eq!(get::<Position>(&world, mob), Some(Position { x: 69, y: 19 }));
}

#[test]
fn waiting_mobs_and_other_entities_do_not_move() {
    let mut world = World::default();
    let mut map = row_map();
    let waiting = world.push((
        Position { x: 80, y: 16 },
        TdMob,
        WaveState { wave_num: 0, wait_state: WaitState::Waiting { ticks_remaining: 0 } },
    ));
    let other = world.push((Position { x: 80, y: 16 }, WaveState { wave_num: 0, wait_state: WaitState::Active }));
    let mut cmd = CommandBuffer::new(&world);
    move_mobs(&mut map, &mut cmd, &mut world);
    assert_eq!(get::<Position>(&world, waiting), Some(Position { x: 80, y: 16 }));
    assert_eq!(get::<Position>(&world, other), Some(Position { x: 80, y: 16 }));
}

#[test]
fn mob_that_enters_the_core_has_touched_it() {
    let mut world = World::default();
    let mut map = row_map();
    let mob = active_mob(&mut world, 80, 16, 100);
    let mut cmd = CommandBuffer::new(&world);
    for _ in 0..24 {
        move_mobs(&mut map, &mut cmd, &mut world);
        flush(&mut cmd, &mut world);
    }
    assert_eq!(get::<Position>(&world, mob), Some(Position { x: 32, y: 16 }));
    assert!(get::<TouchedCore>(&world, mob).is_none());
    move_mobs(&mut map, &mut cmd, &mut world);
    flush(&mut cmd, &mut world);
    assert_eq!(get::<Position>(&world, mob), Some(Position { x: 30, y: 16 }));
    assert!(get::<TouchedCore>(&world, mob).is_some());
}

#[test]
fn mob_at_the_centre_of_the_core_stays() {
    let mut world = World::default();
    let mut map = row_map();
    let mob = active_mob(&mut world, 16, 16, 100);
    let mut cmd = CommandBuffer::new(&world);
    move_mobs(&mut map, &mut cmd, &mut world);
    flush(&mut cmd, &mut world);
    assert_eq!(get::<Position>(&world, mob), Some(Position { x: 16, y: 16 }));
    assert!(get::<TouchedCore>(&world, mob).is_some());
}

#[test]
fn breathing_gas_makes_a_damage_event_of_five() {
    let mut world = World::default();
    let mut map = row_map();
    map.add_gas_to_tile(1, 0, 3);
    let on_gas = active_mob(&mut world, 48, 16, 100);
    active_mob(&mut world, 80, 16, 100);
    world.push((Position { x: 48, y: 16 }, TdMob));
    let mut cmd = CommandBuffer::new(&world);
    breathe_gas(&map, &mut cmd, &world);
    flush(&mut cmd, &mut world);
    let events: Vec<(Entity, i32)> = <&TakeDamage>::query().iter(&world).map(|d| (d.target, d.amount)).collect();
    assert_eq!(events, vec![(on_gas, 5)]);
}

#[test]
fn mobs_that_touched_the_core_cost_health_and_are_removed() {
    let mut world = World::default();
    let a = world.push((TdMob, TouchedCore));
    let b = world.push((TdMob, TouchedCore));
    let c = world.push((TdMob,));
    let d = world.push((TouchedCore,));
    let mut health = PlayerHealth::default();
    let mut cmd = CommandBuffer::new(&world);
    mob_core_hits(&mut health, &mut cmd, &world);
    flush(&mut cmd, &mut world);
    assert_eq!(health, PlayerHealth { health: 18, max: 20 });
    assert!(!world.contains(a));
    assert!(!world.contains(b));
    assert!(world.contains(c));
    assert!(world.contains(d));
}

#[test]
fn damage_events_for_one_target_add_up() {
    let mut world = World::default();
    let mob = active_mob(&mut world, 0, 0, 100);
    let other = active_mob(&mut world, 0, 0, 7);
    world.push((TakeDamage { target: mob, amount: 5 },));
    world.push((TakeDamage { target: mob, amount: 12 },));
    world.push((TakeDamage { target: other, amount: 9 },));
    let mut cmd = CommandBuffer::new(&world);
    take_damage(&mut cmd, &mut world);
    flush(&mut cmd, &mut world);
    assert_eq!(get::<MobHealth>(&world, mob), Some(MobHealth { current_health: 83, max_health: 100 }));
    assert_eq!(get::<MobHealth>(&world, other), Some(MobHealth { current_health: -2, max_health: 100 }));
    assert_eq!(count::<TakeDamage>(&world), 0);
}

#[test]
fn damage_to_what_is_gone_or_has_no_health_is_ignored() {
    let mut world = World::default();
    let gone = active_mob(&mut world, 0, 0, 100);
    world.remove(gone);
    let healthless = world.push((TdMob,));
    world.push((TakeDamage { target: gone, amount: 5 },));
    world.push((TakeDamage { target: healthless, amount: 5 },));
    let mut cmd = CommandBuffer::new(&world);
    take_damage(&mut cmd, &mut world);
    flush(&mut cmd, &mut world);
    assert_eq!(count::<TakeDamage>(&world), 0);
    assert!(world.contains(healthless));
    assert!(!world.contains(gone));
}

#[test]
fn health_stops_at_the_end_of_the_range() {
    let mut world = World::default();
    let mob = active_mob(&mut world, 0, 0, i32::MIN + 2);
    world.push((TakeDamage { target: mob, amount: 5 },));
    let mut cmd = CommandBuffer::new(&world);
    take_damage(&mut cmd, &mut world);
    assert_eq!(get::<MobHealth>(&world, mob), Some(MobHealth { current_health: i32::MIN, max_health: 100 }));
}

#[test]
fn mobs_in_play_without_health_die() {
    let mut world = World::default();
    let dead = active_mob(&mut world, 0, 0, 0);
    let worse = active_mob(&mut world, 0, 0, -5);
    let alive = active_mob(&mut world, 0, 0, 1);
    let waiting = world.push((
        TdMob,
        MobHealth { current_health: 0, max_health: 100 },
        WaveState { wave_num: 0, wait_state: WaitState::Waiting { ticks_remaining: 4 } },
    ));
    let no_mob = world.push((
        MobHealth { current_health: 0, max_health: 100 },
        WaveState { wave_num: 0, wait_state: WaitState::Active },
    ));
    let mut cmd = CommandBuffer::new(&world);
    mobs_die_at_no_health(&mut cmd, &world);
    flush(&mut cmd, &mut world);
    assert!(get::<Died>(&world, dead).is_some());
    assert!(get::<Died>(&world, worse).is_some());
    assert!(get::<Died>(&world, alive).is_none());
    assert!(get::<Died>(&world, waiting).is_none());
    assert!(get::<Died>(&world, no_mob).is_none());
}

#[test]
fn the_dead_pay_out_and_are_removed() {
    let mut world = World::default();
    let paying = world.push((
        Died,
        OnDeath {
            events: vec![
                DeathEvent::GetResources(OwnedResource::Money, 5),
                DeathEvent::GetResources(OwnedResource::Wood, 2),
            ],
        },
    ));
    let silent = world.push((Died,));
    let living = world.push((OnDeath { events: vec![DeathEvent::GetResources(OwnedResource::Money, 1000)] },));
    let mut owned = money(1);
    death_handler(&mut owned, &world);
    assert_eq!(owned.amount(OwnedResource::Money), 6);
    assert_eq!(owned.amount(OwnedResource::Wood), 2);
    let mut cmd = CommandBuffer::new(&world);
    death_cleanup(&mut cmd, &world);
    flush(&mut cmd, &mut world);
    assert!(!world.contains(paying));
    assert!(!world.contains(silent));
    assert!(world.contains(living));
}

#[test]
fn payout_that_would_leave_the_range_is_dropped() {
    let mut world = World::default();
    world.push((Died, OnDeath { events: vec![DeathEvent::GetResources(OwnedResource::Money, i64::MAX)] }));
    let mut owned = money(1);
    death_handler(&mut owned, &world);
    assert_eq!(owned, money(1));
}

#[test]
fn first_mob_of_a_wave_reaches_the_core_and_costs_one_health() {
    let mut world = World::default();
    let mut resources = game(row_map());
    world.push((TryLaunchWave,));
    for _ in 0..24 {
        advance_tick(&mut world, &mut resources);
    }
    assert_eq!(resources.health.health, 20);
    assert_eq!(count::<TdMob>(&world), 10);
    advance_tick(&mut world, &mut resources);
    assert_eq!(resources.health.health, 19);
    assert_eq!(count::<TdMob>(&world), 9);
    assert_eq!(resources.state, GameState::MainGame);
    assert_eq!(resources.next_wave, NextWaveState { auto_launch: false, next_wave: 2, delay_ticks: 175 });
}

#[test]
fn mob_in_gas_dies_and_pays_five_money() {
    let mut world = World::default();
    let mut resources = game(row_map());
    resources.owned = OwnedResources::new();
    // a mob that stands still on the core's centre, in gas, with six points of health
    let mob = world.push((
        Position { x: 16, y: 16 },
        TdMob,
        WaveState { wave_num: 0, wait_state: WaitState::Active },
        MobHealth { current_health: 6, max_health: 100 },
        Breathes,
        OnDeath { events: vec![DeathEvent::GetResources(OwnedResource::Money, 5)] },
    ));
    world.push((PoisonGasTrap { amount: 10 }, Position { x: 16, y: 16 }));
    let mut cmd = CommandBuffer::new(&world);
    for round in 0..2 {
        gas_traps_make_gas(&mut resources.map, &world);
        breathe_gas(&resources.map, &mut cmd, &world);
        flush(&mut cmd, &mut world);
        take_damage(&mut cmd, &mut world);
        flush(&mut cmd, &mut world);
        mobs_die_at_no_health(&mut cmd, &world);
        flush(&mut cmd, &mut world);
        death_handler(&mut resources.owned, &world);
        death_cleanup(&mut cmd, &world);
        flush(&mut cmd, &mut world);
        if round == 0 {
            assert_eq!(get::<MobHealth>(&world, mob), Some(MobHealth { current_health: 1, max_health: 100 }));
            assert_eq!(resources.owned.amount(OwnedResource::Money), 0);
        }
    }
    assert!(!world.contains(mob));
    assert_eq!(resources.owned.amount(OwnedResource::Money), 5);
}

#[test]
fn player_without_health_ends_the_game() {
    let mut world = World::default();
    let mut resources = game(row_map());
    resources.health = PlayerHealth { health: 1, max: 20 };
    world.push((TdMob, TouchedCore));
    advance_tick(&mut world, &mut resources);
    assert_eq!(resources.health.health, 0);
    assert_eq!(resources.state, GameState::Died);
    world.push((TryLaunchWave,));
    advance_tick(&mut world, &mut resources);
    assert_eq!(count::<TryLaunchWave>(&world), 1);
}
