//! The stages, in the order in which a tick runs them.

pub mod breathe_gas_system;
pub mod build_structure_system;
pub mod camera_move_system;
pub mod change_tile_system;
pub mod death_cleanup;
pub mod death_handler;
pub mod gas_dispersal;
pub mod gas_trap_run_system;
pub mod keyboard_system;
pub mod launch_wave_system;
pub mod mob_core_system;
pub mod mob_death_tracker;
pub mod mob_movement_system;
pub mod player_death_system;
pub mod sell_structure_system;
pub mod take_damage_system;
pub mod user_click_system;
pub mod wave_update_system;

use crate::components::user_input::{ToggleAutoLaunchWave, TryLaunchWave};
use crate::ecs::{
    entities, flush, home_id, issued, lists, new_buffer, queued, replayed, world_id, Action, Carried, Components, Queued,
};
use crate::systems::removals;
use crate::grid::Pos;
use crate::resources::flow::{ticked, GasFlow};
use crate::resources::ledger::{OwnedResource, OwnedResources};
use crate::resources::map::{TileMap, GAS_DISPERSAL, GAS_FLUIDITY};
use crate::resources::path::Tile;
use crate::resources::tables::{StructureBuilds, TileTransforms};
use crate::resources::{
    GameState, KeysPressed, NextWaveState, PlayerHealth, SelectedStructure, StructureKind, TdCamera, TdTileSelect,
};
use legion::systems::CommandBuffer;
use legion::{Entity, World};
use vstd::prelude::*;

verus! {

/// The singleton values of a game, which the stages read and write.
pub struct GameResources {
    pub map: TileMap,
    pub owned: OwnedResources,
    pub next_wave: NextWaveState,
    pub health: PlayerHealth,
    pub state: GameState,
    pub keys: KeysPressed,
    pub camera: TdCamera,
    pub selected: TdTileSelect,
    pub transforms: TileTransforms,
    pub builds: StructureBuilds,
}

/// What the resources hold, as mathematical values.
pub struct GameView {
    pub tiles: Map<Pos, Tile>,
    pub gas: Map<Pos, int>,
    pub ledger: Map<OwnedResource, int>,
    pub next_wave: NextWaveState,
    pub health: PlayerHealth,
    pub state: GameState,
    pub keys: KeysPressed,
    pub camera: TdCamera,
    pub selected: Option<(Pos, Seq<SelectedStructure>)>,
    pub transforms: Map<(Tile, Tile), OwnedResources>,
    pub builds: Map<(Tile, StructureKind), OwnedResources>,
}

impl View for GameResources {
    type V = GameView;

    open spec fn view(&self) -> GameView {
        GameView {
            tiles: self.map.tiles(),
            gas: self.map.gas(),
            ledger: self.owned@,
            next_wave: self.next_wave,
            health: self.health,
            state: self.state,
            keys: self.keys,
            camera: self.camera,
            selected: self.selected@,
            transforms: self.transforms@,
            builds: self.builds@,
        }
    }
}

impl GameResources {
    /// The map and the two tables are well formed.
    pub open spec fn wf(&self) -> bool {
        &&& self.map.wf()
        &&& self.transforms.wf()
        &&& self.builds.wf()
    }

    /// The resources of a game that has not begun: an empty map, an empty
    /// ledger, empty tables, the first wave ahead, full health, no key
    /// pressed, the camera at the origin, nothing selected, and the
    /// opening phase.
    pub fn new() -> (r: Self)
        ensures
            r.wf(),
            r@ == (GameView {
                tiles: Map::empty(),
                gas: Map::empty(),
                ledger: Map::empty(),
                next_wave: NextWaveState { auto_launch: false, next_wave: 1, delay_ticks: 0 },
                health: PlayerHealth { health: 20, max: 20 },
                state: GameState::Opening,
                keys: KeysPressed { down: false, up: false, left: false, right: false },
                camera: TdCamera { top: 0, left: 0 },
                selected: None,
                transforms: Map::empty(),
                builds: Map::empty(),
            }),
    {
        GameResources {
            map: TileMap::new(),
            owned: OwnedResources::new(),
            next_wave: NextWaveState::default(),
            health: PlayerHealth::default(),
            state: GameState::Opening,
            keys: KeysPressed::default(),
            camera: TdCamera::default(),
            selected: TdTileSelect::default(),
            transforms: TileTransforms::new(),
            builds: StructureBuilds::new(),
        }
    }
}

/// The state of a game between two stages: the entities of the world, and
/// what the resources hold.
pub struct Snapshot {
    pub world: Map<Entity, Components>,
    pub game: GameView,
}

/// The state of a game.
pub open spec fn snapshot(world: World, resources: GameResources) -> Snapshot {
    Snapshot { world: entities(world), game: resources@ }
}

/// Stage 1 with its flush: clicks and unselects.
pub open spec fn clicks_stage(a: Snapshot, b: Snapshot) -> bool {
    exists|q: Seq<Queued>|
        #[trigger] user_click_system::clicks_processed(a.game.selected, b.game.selected, a.world, Seq::empty(), q)
            && b.world == replayed(a.world, q) && b.game == (GameView { selected: b.game.selected, ..a.game })
}

/// Stage 2 with its flush: tile changes.
pub open spec fn changes_stage(a: Snapshot, b: Snapshot) -> bool {
    exists|q: Seq<Queued>|
        #[trigger] change_tile_system::tile_changes_processed(
            (a.game.tiles, a.game.ledger),
            (b.game.tiles, b.game.ledger),
            a.game.transforms,
            a.world,
            Seq::empty(),
            q,
        ) && b.world == replayed(a.world, q) && b.game == (GameView {
            tiles: b.game.tiles,
            ledger: b.game.ledger,
            ..a.game
        })
}

/// Stage 3 with its flush: sales.
pub open spec fn sales_stage(a: Snapshot, b: Snapshot) -> bool {
    exists|q: Seq<Queued>|
        #[trigger] sell_structure_system::sales_processed(a.game.ledger, b.game.ledger, a.world, Seq::empty(), q)
            && b.world == replayed(a.world, q) && b.game == (GameView { ledger: b.game.ledger, ..a.game })
}

/// Stage 4 with its flush: builds.
pub open spec fn builds_stage(a: Snapshot, b: Snapshot) -> bool {
    exists|q: Seq<Queued>|
        #[trigger] build_structure_system::builds_processed(
            a.game.ledger,
            b.game.ledger,
            a.game.tiles,
            a.game.builds,
            a.world,
            Seq::empty(),
            q,
        ) && b.world == replayed(a.world, q) && b.game == (GameView { ledger: b.game.ledger, ..a.game })
}

/// Stage 5 with its flush: wave launches.
pub open spec fn launch_stage(a: Snapshot, b: Snapshot) -> bool {
    exists|q: Seq<Queued>|
        #[trigger] launch_wave_system::wave_launch_processed(
            a.game.next_wave,
            b.game.next_wave,
            a.game.tiles,
            a.world,
            Seq::empty(),
            q,
        ) && b.world == replayed(a.world, q) && b.game == (GameView { next_wave: b.game.next_wave, ..a.game })
}

/// Stage 6 with its flush: keys.
pub open spec fn keys_stage(a: Snapshot, b: Snapshot) -> bool {
    exists|q: Seq<Queued>|
        #[trigger] keyboard_system::key_input_processed(a.game.keys, b.game.keys, a.world, Seq::empty(), q)
            && b.world == replayed(a.world, q) && b.game == (GameView { keys: b.game.keys, ..a.game })
}

/// Stage 7: the camera.
pub open spec fn camera_stage(a: Snapshot, b: Snapshot) -> bool {
    b.world == a.world && b.game == (GameView {
        camera: camera_move_system::camera_moved(a.game.keys, a.game.camera),
        ..a.game
    })
}

/// Stage 8 with its flush: wave states.
pub open spec fn waves_stage(a: Snapshot, b: Snapshot) -> bool {
    exists|q: Seq<Queued>|
        #[trigger] wave_update_system::wakings_queued(a.game.next_wave, a.world, Seq::empty(), q) && b.world
            == replayed(wave_update_system::waves_ticked(a.world), q) && b.game == a.game
}

/// Stage 9: gas traps.
pub open spec fn traps_stage(a: Snapshot, b: Snapshot) -> bool {
    gas_trap_run_system::traps_made_gas(a.game.gas, b.game.gas, a.world) && b.world == a.world && b.game == (GameView {
        gas: b.game.gas,
        ..a.game
    })
}

/// Stage 10: the gas field.
pub open spec fn gas_stage(a: Snapshot, b: Snapshot) -> bool {
    b.world == a.world && b.game == (GameView {
        gas: ticked(GasFlow, a.game.tiles, Tile::Wall, GAS_FLUIDITY as int, GAS_DISPERSAL as int, a.game.gas),
        ..a.game
    })
}

/// Stage 11 with its flush: movement.
pub open spec fn movement_stage(a: Snapshot, b: Snapshot) -> bool {
    exists|q: Seq<Queued>|
        #[trigger] mob_movement_system::touches_queued(a.game.tiles, a.world, Seq::empty(), q) && b.world == replayed(
            mob_movement_system::mobs_moved(a.game.tiles, a.world),
            q,
        ) && b.game == a.game
}

/// Stage 12 with its flush: breathing.
pub open spec fn breathing_stage(a: Snapshot, b: Snapshot) -> bool {
    exists|q: Seq<Queued>|
        #[trigger] breathe_gas_system::gas_breathed(a.game.gas, a.world, Seq::empty(), q) && b.world == replayed(
            a.world,
            q,
        ) && b.game == a.game
}

/// Stage 13 with its flush: core hits.
pub open spec fn core_stage(a: Snapshot, b: Snapshot) -> bool {
    exists|q: Seq<Queued>|
        #[trigger] mob_core_system::core_hits_processed(a.game.health, b.game.health, a.world, Seq::empty(), q)
            && b.world == replayed(a.world, q) && b.game == (GameView { health: b.game.health, ..a.game })
}

/// Stage 14: the player's death.
pub open spec fn player_stage(a: Snapshot, b: Snapshot) -> bool {
    b.world == a.world && b.game == (GameView {
        state: if a.game.health.health <= 0 {
            GameState::Died
        } else {
            a.game.state
        },
        ..a.game
    })
}

/// Stage 15 with its flush: damage.
pub open spec fn damage_stage(a: Snapshot, b: Snapshot) -> bool {
    exists|q: Seq<Queued>, hurt: Map<Entity, Components>|
        #[trigger] take_damage_system::damage_taken(a.world, hurt, Seq::empty(), q) && b.world == replayed(hurt, q)
            && b.game == a.game
}

/// Stage 16 with its flush: deaths.
pub open spec fn deaths_stage(a: Snapshot, b: Snapshot) -> bool {
    exists|q: Seq<Queued>|
        #[trigger] mob_death_tracker::deaths_tracked(a.world, Seq::empty(), q) && b.world == replayed(a.world, q)
            && b.game == a.game
}

/// Stage 17: death events.
pub open spec fn payout_stage(a: Snapshot, b: Snapshot) -> bool {
    death_handler::deaths_handled(a.game.ledger, b.game.ledger, a.world) && b.world == a.world && b.game == (GameView {
        ledger: b.game.ledger,
        ..a.game
    })
}

/// Stage 18 with its flush: cleanup.
pub open spec fn cleanup_stage(a: Snapshot, b: Snapshot) -> bool {
    exists|q: Seq<Queued>|
        #[trigger] death_cleanup::dead_cleaned(a.world, Seq::empty(), q) && b.world == replayed(a.world, q) && b.game
            == a.game
}

/// The states of a game before the first input stage, between the input
/// stages, and after the last.
pub open spec fn input_chain(s: Seq<Snapshot>) -> bool {
    &&& s.len() == 7
    &&& clicks_stage(s[0], s[1])
    &&& changes_stage(s[1], s[2])
    &&& sales_stage(s[2], s[3])
    &&& builds_stage(s[3], s[4])
    &&& launch_stage(s[4], s[5])
    &&& keys_stage(s[5], s[6])
}

/// The states of a game before the first of the stages that advance the
/// world by themselves, between those stages, and after the last.
pub open spec fn auto_chain(s: Seq<Snapshot>) -> bool {
    &&& s.len() == 13
    &&& camera_stage(s[0], s[1])
    &&& waves_stage(s[1], s[2])
    &&& traps_stage(s[2], s[3])
    &&& gas_stage(s[3], s[4])
    &&& movement_stage(s[4], s[5])
    &&& breathing_stage(s[5], s[6])
    &&& core_stage(s[6], s[7])
    &&& player_stage(s[7], s[8])
    &&& damage_stage(s[8], s[9])
    &&& deaths_stage(s[9], s[10])
    &&& payout_stage(s[10], s[11])
    &&& cleanup_stage(s[11], s[12])
}

/// One tick leads from `pre` to `post`. In the main phase of the game the
/// eighteen stages run once, in their fixed order, each on the state that
/// the stage before it and its flush have left; in any other phase nothing
/// changes.
pub open spec fn tick_ran(pre: Snapshot, post: Snapshot) -> bool {
    if pre.game.state == GameState::MainGame {
        exists|input: Seq<Snapshot>, auto: Seq<Snapshot>|
            #[trigger] input_chain(input) && #[trigger] auto_chain(auto) && input[0] == pre && input[6] == auto[0]
                && auto[12] == post
    } else {
        post == pre
    }
}

/// Exactly-once consumption, within a tick. Whatever the states of a tick
/// are, an entity that carries a request to launch a wave, or a toggle,
/// when the launch stage begins does not exist when that stage and its
/// flush are over, whether or not a wave was launched.
pub proof fn lemma_tick_consumes_launch_requests(input: Seq<Snapshot>, e: Entity)
    requires
        input_chain(input),
        input[4].world.contains_key(e),
        input[4].world[e].try_launch is Some || input[4].world[e].toggle_auto_launch is Some,
    ensures
        !input[5].world.contains_key(e),
{
    let a = input[4];
    let b = input[5];
    assert(launch_stage(a, b));
    let q = choose|q: Seq<Queued>|
        #[trigger] launch_wave_system::wave_launch_processed(
            a.game.next_wave,
            b.game.next_wave,
            a.game.tiles,
            a.world,
            Seq::empty(),
            q,
        ) && b.world == replayed(a.world, q) && b.game == (GameView { next_wave: b.game.next_wave, ..a.game });
    let (requests, toggles, spawns, actions) = choose|
        requests: Seq<(Entity, TryLaunchWave)>,
        toggles: Seq<(Entity, ToggleAutoLaunchWave)>,
        spawns: Seq<Pos>,
        actions: Seq<Action>,
    |
        {
            &&& lists(requests, a.world)
            &&& lists(toggles, a.world)
            &&& crate::grid::is_ascending_listing(spawns, crate::resources::path::spawn_set(a.game.tiles))
            &&& b.game.next_wave == launch_wave_system::wave_state_after(
                a.game.next_wave,
                launch_wave_system::launches(a.game.next_wave, spawns, requests.len() as int),
                toggles.len() as int,
            )
            &&& issued(Seq::empty(), q, actions)
            &&& launch_wave_system::launches(a.game.next_wave, spawns, requests.len() as int) ==> {
                &&& actions.len() == 10 + requests.len() + toggles.len()
                &&& forall|k: int|
                    0 <= k < 10 ==> launch_wave_system::wave_mob(#[trigger] actions[k], spawns, k)
                &&& actions.skip(10) == removals(requests) + removals(toggles)
            }
            &&& !launch_wave_system::launches(a.game.next_wave, spawns, requests.len() as int) ==> actions
                == removals(requests) + removals(toggles)
        };
    launch_wave_system::lemma_launch_requests_consumed(
        a.world,
        a.game.next_wave,
        spawns,
        requests,
        toggles,
        actions,
        q,
    );
    if a.world[e].try_launch is Some {
        assert(TryLaunchWave::held(a.world[e]) is Some);
        let i = choose|i: int| 0 <= i < requests.len() && (#[trigger] requests[i]).0 == e;
        assert(!replayed(a.world, q).contains_key(requests[i].0));
    } else {
        assert(ToggleAutoLaunchWave::held(a.world[e]) is Some);
        let i = choose|i: int| 0 <= i < toggles.len() && (#[trigger] toggles[i]).0 == e;
        assert(!replayed(a.world, q).contains_key(toggles[i].0));
    }
}

/// Runs the input stages, each followed by a flush: clicks, tile changes,
/// sales, builds, wave launches, keys.
fn run_input_stages(world: &mut World, resources: &mut GameResources, cmd: &mut CommandBuffer) -> (trace: Ghost<
    Seq<Snapshot>,
>)
    requires
        old(resources).wf(),
        queued(*old(cmd)).len() == 0,
        home_id(*old(cmd)) == world_id(*old(world)),
    ensures
        final(resources).wf(),
        queued(*final(cmd)).len() == 0,
        home_id(*final(cmd)) == world_id(*final(world)),
        world_id(*final(world)) == world_id(*old(world)),
        input_chain(trace@),
        trace@[0] == snapshot(*old(world), *old(resources)),
        trace@[6] == snapshot(*final(world), *final(resources)),
{
    let ghost s0 = snapshot(*world, *resources);
    assert(queued(*cmd) =~= Seq::<Queued>::empty());
    user_click_system::process_tile_clicks(&mut resources.selected, cmd, world);
    let ghost q1 = queued(*cmd);
    flush(cmd, world);
    let ghost s1 = snapshot(*world, *resources);
    assert(clicks_stage(s0, s1)) by {
        assert(user_click_system::clicks_processed(s0.game.selected, s1.game.selected, s0.world, Seq::empty(), q1));
    }
    assert(queued(*cmd) =~= Seq::<Queued>::empty());
    change_tile_system::process_tile_changes(
        &mut resources.map,
        &mut resources.owned,
        &resources.transforms,
        cmd,
        world,
    );
    let ghost q2 = queued(*cmd);
    flush(cmd, world);
    let ghost s2 = snapshot(*world, *resources);
    assert(changes_stage(s1, s2)) by {
        assert(change_tile_system::tile_changes_processed(
            (s1.game.tiles, s1.game.ledger),
            (s2.game.tiles, s2.game.ledger),
            s1.game.transforms,
            s1.world,
            Seq::empty(),
            q2,
        ));
    }
    assert(queued(*cmd) =~= Seq::<Queued>::empty());
    sell_structure_system::sell_structures(&mut resources.owned, cmd, world);
    let ghost q3 = queued(*cmd);
    flush(cmd, world);
    let ghost s3 = snapshot(*world, *resources);
    assert(sales_stage(s2, s3)) by {
        assert(sell_structure_system::sales_processed(s2.game.ledger, s3.game.ledger, s2.world, Seq::empty(), q3));
    }
    assert(queued(*cmd) =~= Seq::<Queued>::empty());
    build_structure_system::build_structures(&mut resources.owned, &resources.map, &resources.builds, cmd, world);
    let ghost q4 = queued(*cmd);
    flush(cmd, world);
    let ghost s4 = snapshot(*world, *resources);
    assert(builds_stage(s3, s4)) by {
        assert(build_structure_system::builds_processed(
            s3.game.ledger,
            s4.game.ledger,
            s3.game.tiles,
            s3.game.builds,
            s3.world,
            Seq::empty(),
            q4,
        ));
    }
    assert(queued(*cmd) =~= Seq::<Queued>::empty());
    launch_wave_system::process_wave_launch(&mut resources.next_wave, &resources.map, cmd, world);
    let ghost q5 = queued(*cmd);
    flush(cmd, world);
    let ghost s5 = snapshot(*world, *resources);
    assert(launch_stage(s4, s5)) by {
        assert(launch_wave_system::wave_launch_processed(
            s4.game.next_wave,
            s5.game.next_wave,
            s4.game.tiles,
            s4.world,
            Seq::empty(),
            q5,
        ));
    }
    assert(queued(*cmd) =~= Seq::<Queued>::empty());
    keyboard_system::process_key_input(&mut resources.keys, cmd, world);
    let ghost q6 = queued(*cmd);
    flush(cmd, world);
    let ghost s6 = snapshot(*world, *resources);
    assert(keys_stage(s5, s6)) by {
        assert(keyboard_system::key_input_processed(s5.game.keys, s6.game.keys, s5.world, Seq::empty(), q6));
    }
    let ghost trace = seq![s0, s1, s2, s3, s4, s5, s6];
    Ghost(trace)
}

/// Runs the stages that advance the world by themselves, each followed by
/// a flush: camera, waves, gas traps, gas, movement, breathing, core hits,
/// the player's death, damage, deaths, death events, cleanup.
fn run_auto_stages(world: &mut World, resources: &mut GameResources, cmd: &mut CommandBuffer) -> (trace: Ghost<
    Seq<Snapshot>,
>)
    requires
        old(resources).wf(),
        queued(*old(cmd)).len() == 0,
        home_id(*old(cmd)) == world_id(*old(world)),
    ensures
        final(resources).wf(),
        queued(*final(cmd)).len() == 0,
        home_id(*final(cmd)) == world_id(*final(world)),
        world_id(*final(world)) == world_id(*old(world)),
        auto_chain(trace@),
        trace@[0] == snapshot(*old(world), *old(resources)),
        trace@[12] == snapshot(*final(world), *final(resources)),
{
    let ghost s0 = snapshot(*world, *resources);
    camera_move_system::camera_move(&resources.keys, &mut resources.camera);
    flush(cmd, world);
    let ghost s1 = snapshot(*world, *resources);
    assert(camera_stage(s0, s1));
    assert(queued(*cmd) =~= Seq::<Queued>::empty());
    wave_update_system::update_wave_state(&resources.next_wave, cmd, world);
    let ghost q2 = queued(*cmd);
    flush(cmd, world);
    let ghost s2 = snapshot(*world, *resources);
    assert(waves_stage(s1, s2)) by {
        assert(wave_update_system::wakings_queued(s1.game.next_wave, s1.world, Seq::empty(), q2));
    }
    gas_trap_run_system::gas_traps_make_gas(&mut resources.map, world);
    flush(cmd, world);
    let ghost s3 = snapshot(*world, *resources);
    assert(traps_stage(s2, s3));
    gas_dispersal::disperse_gas(&mut resources.map);
    flush(cmd, world);
    let ghost s4 = snapshot(*world, *resources);
    assert(gas_stage(s3, s4));
    assert(queued(*cmd) =~= Seq::<Queued>::empty());
    mob_movement_system::move_mobs(&mut resources.map, cmd, world);
    let ghost q5 = queued(*cmd);
    flush(cmd, world);
    let ghost s5 = snapshot(*world, *resources);
    assert(movement_stage(s4, s5)) by {
        assert(mob_movement_system::touches_queued(s4.game.tiles, s4.world, Seq::empty(), q5));
    }
    assert(queued(*cmd) =~= Seq::<Queued>::empty());
    breathe_gas_system::breathe_gas(&resources.map, cmd, world);
    let ghost q6 = queued(*cmd);
    flush(cmd, world);
    let ghost s6 = snapshot(*world, *resources);
    assert(breathing_stage(s5, s6)) by {
        assert(breathe_gas_system::gas_breathed(s5.game.gas, s5.world, Seq::empty(), q6));
    }
    assert(queued(*cmd) =~= Seq::<Queued>::empty());
    mob_core_system::mob_core_hits(&mut resources.health, cmd, world);
    let ghost q7 = queued(*cmd);
    flush(cmd, world);
    let ghost s7 = snapshot(*world, *resources);
    assert(core_stage(s6, s7)) by {
        assert(mob_core_system::core_hits_processed(s6.game.health, s7.game.health, s6.world, Seq::empty(), q7));
    }
    player_death_system::player_death(&resources.health, &mut resources.state);
    flush(cmd, world);
    let ghost s8 = snapshot(*world, *resources);
    assert(player_stage(s7, s8));
    assert(queued(*cmd) =~= Seq::<Queued>::empty());
    take_damage_system::take_damage(cmd, world);
    let ghost q9 = queued(*cmd);
    let ghost hurt = entities(*world);
    flush(cmd, world);
    let ghost s9 = snapshot(*world, *resources);
    assert(damage_stage(s8, s9)) by {
        assert(take_damage_system::damage_taken(s8.world, hurt, Seq::empty(), q9));
    }
    assert(queued(*cmd) =~= Seq::<Queued>::empty());
    mob_death_tracker::mobs_die_at_no_health(cmd, world);
    let ghost q10 = queued(*cmd);
    flush(cmd, world);
    let ghost s10 = snapshot(*world, *resources);
    assert(deaths_stage(s9, s10)) by {
        assert(mob_death_tracker::deaths_tracked(s9.world, Seq::empty(), q10));
    }
    death_handler::death_handler(&mut resources.owned, world);
    flush(cmd, world);
    let ghost s11 = snapshot(*world, *resources);
    assert(payout_stage(s10, s11));
    assert(queued(*cmd) =~= Seq::<Queued>::empty());
    death_cleanup::death_cleanup(cmd, world);
    let ghost q12 = queued(*cmd);
    flush(cmd, world);
    let ghost s12 = snapshot(*world, *resources);
    assert(cleanup_stage(s11, s12)) by {
        assert(death_cleanup::dead_cleaned(s11.world, Seq::empty(), q12));
    }
    let ghost trace = seq![s0, s1, s2, s3, s4, s5, s6, s7, s8, s9, s10, s11, s12];
    Ghost(trace)
}

/// Advances the game by one tick: while the game is in its main phase, the
/// stages run once, in their fixed order, each followed by a flush of the
/// command buffer; in any other phase nothing happens.
pub fn advance_tick(world: &mut World, resources: &mut GameResources)
    requires
        old(resources).wf(),
    ensures
        final(resources).wf(),
        world_id(*final(world)) == world_id(*old(world)),
        tick_ran(snapshot(*old(world), *old(resources)), snapshot(*final(world), *final(resources))),
{
    match resources.state {
        GameState::MainGame => {},
        GameState::Opening | GameState::Died => {
            return ;
        },
    }
    let mut cmd = new_buffer(world);
    let input = run_input_stages(world, resources, &mut cmd);
    let auto = run_auto_stages(world, resources, &mut cmd);
    assert(input_chain(input@) && auto_chain(auto@));
}

} // verus!
