//! Stage: the requests to launch a wave are checked and carried out, and
//! the countdown to the next wave runs.

use crate::components::user_input::{ToggleAutoLaunchWave, TryLaunchWave};
use crate::components::{DeathEvent, MobHealth, OnDeath, Position, RenderGeometry, Renderable, WaitState, WaveState};
use crate::ecs::{
    entities, home_id, issued, lists, queued, replay_safe, replayed, rows, submit, Action, Blueprint, Components, Queued,
};
use crate::grid::{is_ascending_listing, Pos};
use crate::resources::ledger::OwnedResource;
use crate::resources::map::TileMap;
use crate::resources::path::{spawn_set, Tile};
use crate::resources::NextWaveState;
use crate::systems::{harmless, lemma_harmless, lemma_issued_harmless, lemma_removed_is_gone, remove_all, removals};
use crate::tile_helpers::{addressable, tile_center, tile_to_pixel_coords};
use legion::systems::CommandBuffer;
use legion::{Entity, World};
use vstd::prelude::*;

verus! {

/// How many mobs a wave has.
pub const WAVE_SIZE: usize = 10;

/// How many ticks lie between two mobs of a wave, and between the last mob
/// and the next wave.
pub const WAVE_SPACING: usize = 20;

/// `a` asks for the `k`-th mob of a wave: it stands at the centre of the
/// spawn tile whose turn it is, waits `20 * k` ticks, hidden, has a hundred
/// points of health, breathes, and pays five money when it dies.
pub open spec fn wave_mob(a: Action, spawns: Seq<Pos>, k: int) -> bool {
    &&& a matches Action::Spawn(Blueprint::Mob { position, wave, renderable, health, on_death })
    &&& (position.x as int, position.y as int) == tile_center(spawns[k % (spawns.len() as int)])
    &&& wave == WaveState { wave_num: 0, wait_state: WaitState::Waiting { ticks_remaining: (k * 20) as usize } }
    &&& renderable == Renderable::Geometry(RenderGeometry::Circle { radius: 10 })
    &&& health == MobHealth { current_health: 100, max_health: 100 }
    &&& on_death.events@ == seq![DeathEvent::GetResources(OwnedResource::Money, 5)]
}

/// Whether a wave is launched: it has been asked for, the countdown has
/// run out, there is a spawn tile, and the wave number can still be raised.
pub open spec fn launches(state: NextWaveState, spawns: Seq<Pos>, asked: int) -> bool {
    asked > 0 && state.delay_ticks == 0 && spawns.len() > 0 && state.next_wave < usize::MAX
}

/// The wave state after the stage. A launch raises the wave number and
/// sets the countdown to the last mob's wait and one spacing more; then the
/// countdown, if it runs, drops by one. Every toggle flips the automatic
/// launch.
pub open spec fn wave_state_after(state: NextWaveState, launched: bool, toggles: int) -> NextWaveState {
    NextWaveState {
        auto_launch: if toggles % 2 == 1 {
            !state.auto_launch
        } else {
            state.auto_launch
        },
        next_wave: if launched {
            (state.next_wave + 1) as usize
        } else {
            state.next_wave
        },
        delay_ticks: if launched {
            199
        } else if state.delay_ticks > 0 {
            (state.delay_ticks - 1) as usize
        } else {
            0
        },
    }
}

/// Lowers a countdown by one, unless it has run out.
fn safe_reduce(m: &mut usize)
    ensures
        *final(m) == if *old(m) > 0 {
            (*old(m) - 1) as usize
        } else {
            0
        },
{
    if *m > 0 {
        *m -= 1;
    }
}

/// The mobs of one wave, the `k`-th on the spawn tile whose turn it is and
/// `20 * k` ticks from now, with the countdown to the next wave: the last
/// mob's wait and one spacing more.
pub fn launch_wave(spawns: &Vec<(i32, i32)>) -> (r: (Vec<Action>, usize))
    requires
        spawns@.len() > 0,
        forall|i: int| 0 <= i < spawns@.len() ==> addressable(#[trigger] spawns@[i]),
    ensures
        r.0@.len() == 10,
        forall|k: int| 0 <= k < 10 ==> wave_mob(#[trigger] r.0@[k], spawns@, k),
        r.1 == 200,
{
    let mut actions: Vec<Action> = Vec::new();
    let mut max_delay: usize = 0;
    let mut delay: usize = 0;
    while delay < WAVE_SIZE
        invariant
            delay <= 10,
            spawns@.len() > 0,
            forall|i: int| 0 <= i < spawns@.len() ==> addressable(#[trigger] spawns@[i]),
            actions@.len() == delay,
            forall|k: int| 0 <= k < delay ==> wave_mob(#[trigger] actions@[k], spawns@, k),
            max_delay == if delay == 0 {
                0
            } else {
                (delay - 1) * 20
            },
        decreases 10 - delay,
    {
        let delay_ticks = delay * WAVE_SPACING;
        let spawn_idx = delay % spawns.len();
        let (tile_x, tile_y) = spawns[spawn_idx];
        assert(addressable(spawns@[spawn_idx as int]));
        let (x, y) = tile_to_pixel_coords(tile_x, tile_y);
        let mut events: Vec<DeathEvent> = Vec::new();
        events.push(DeathEvent::GetResources(OwnedResource::Money, 5));
        assert(events@ =~= seq![DeathEvent::GetResources(OwnedResource::Money, 5)]);
        actions.push(
            Action::Spawn(
                Blueprint::Mob {
                    position: Position { x, y },
                    wave: WaveState { wave_num: 0, wait_state: WaitState::Waiting { ticks_remaining: delay_ticks } },
                    renderable: Renderable::Geometry(RenderGeometry::Circle { radius: 10 }),
                    health: MobHealth { current_health: 100, max_health: 100 },
                    on_death: OnDeath { events },
                },
            ),
        );
        if delay_ticks > max_delay {
            max_delay = delay_ticks;
        }
        delay += 1;
    }
    (actions, max_delay + WAVE_SPACING)
}

/// Launches a wave if one is asked for and can be launched, flips the
/// automatic launch once per toggle, runs the countdown, and asks for the
/// creation of the wave's mobs and the removal of every request.
pub fn plan_launch(
    next_wave_state: &mut NextWaveState,
    spawns: &Vec<(i32, i32)>,
    requests: &Vec<(Entity, TryLaunchWave)>,
    toggles: &Vec<(Entity, ToggleAutoLaunchWave)>,
) -> (actions: Vec<Action>)
    requires
        forall|i: int| 0 <= i < spawns@.len() ==> addressable(#[trigger] spawns@[i]),
    ensures
        harmless(actions@),
        *final(next_wave_state) == wave_state_after(
            *old(next_wave_state),
            launches(*old(next_wave_state), spawns@, requests@.len() as int),
            toggles@.len() as int,
        ),
        launches(*old(next_wave_state), spawns@, requests@.len() as int) ==> {
            &&& actions@.len() == 10 + requests@.len() + toggles@.len()
            &&& forall|k: int| 0 <= k < 10 ==> wave_mob(#[trigger] actions@[k], spawns@, k)
            &&& actions@.skip(10) == removals(requests@) + removals(toggles@)
        },
        !launches(*old(next_wave_state), spawns@, requests@.len() as int) ==> actions@ == removals(requests@)
            + removals(toggles@),
{
    let mut actions: Vec<Action> = Vec::new();
    if requests.len() > 0 && next_wave_state.delay_ticks == 0 && spawns.len() > 0 && next_wave_state.next_wave
        < usize::MAX {
        let (mut wave, wave_delay) = launch_wave(spawns);
        actions.append(&mut wave);
        next_wave_state.next_wave += 1;
        next_wave_state.delay_ticks = wave_delay;
    }
    let ghost wave_len = actions@.len();
    let ghost mobs = actions@;
    let mut asked = remove_all(requests);
    actions.append(&mut asked);
    let mut flipped = remove_all(toggles);
    actions.append(&mut flipped);
    if toggles.len() % 2 == 1 {
        next_wave_state.auto_launch = !next_wave_state.auto_launch;
    }
    safe_reduce(&mut next_wave_state.delay_ticks);
    proof {
        lemma_harmless(requests@, Seq::empty(), Seq::empty());
        lemma_harmless(toggles@, removals(requests@), removals(toggles@));
        assert(harmless(mobs)) by {
            if mobs.len() > 0 {
                assert forall|k: int| 0 <= k < mobs.len() implies (#[trigger] mobs[k]) is Remove || mobs[k] is Spawn by {
                    assert(wave_mob(mobs[k], spawns@, k));
                }
            }
        }
        lemma_harmless(requests@, mobs, removals(requests@) + removals(toggles@));
        assert(actions@ =~= mobs + (removals(requests@) + removals(toggles@)));
        if wave_len == 10 {
            assert(actions@.skip(10) =~= removals(requests@) + removals(toggles@));
        } else {
            assert(actions@ =~= removals(requests@) + removals(toggles@));
        }
    }
    actions
}

/// What the stage does: a wave is launched if the world holds a request
/// and the wave state and the spawn tiles allow it; the creation of its
/// mobs and the removal of every request and toggle are queued.
pub open spec fn wave_launch_processed(
    state0: NextWaveState,
    state1: NextWaveState,
    tiles: Map<Pos, Tile>,
    w: Map<Entity, Components>,
    q0: Seq<Queued>,
    q1: Seq<Queued>,
) -> bool {
    exists|requests: Seq<(Entity, TryLaunchWave)>, toggles: Seq<(Entity, ToggleAutoLaunchWave)>, spawns: Seq<
        Pos,
    >, actions: Seq<Action>|
        {
            &&& lists(requests, w)
            &&& lists(toggles, w)
            &&& is_ascending_listing(spawns, spawn_set(tiles))
            &&& state1 == wave_state_after(
                state0,
                launches(state0, spawns, requests.len() as int),
                toggles.len() as int,
            )
            &&& issued(q0, q1, actions)
            &&& launches(state0, spawns, requests.len() as int) ==> {
                &&& actions.len() == 10 + requests.len() + toggles.len()
                &&& forall|k: int| 0 <= k < 10 ==> wave_mob(#[trigger] actions[k], spawns, k)
                &&& actions.skip(10) == removals(requests) + removals(toggles)
            }
            &&& !launches(state0, spawns, requests.len() as int) ==> actions == removals(requests)
                + removals(toggles)
        }
}

/// The stage: the first request to launch a wave is carried out if the
/// countdown has run out; all requests are removed, carried out or not.
/// The toggles flip the automatic launch and are removed. Then the
/// countdown runs.
pub fn process_wave_launch(
    next_wave_state: &mut NextWaveState,
    map: &TileMap,
    cmd: &mut CommandBuffer,
    world: &World,
)
    requires
        map.wf(),
    ensures
        wave_launch_processed(
            *old(next_wave_state),
            *final(next_wave_state),
            map.tiles(),
            entities(*world),
            queued(*old(cmd)),
            queued(*final(cmd)),
        ),
        home_id(*final(cmd)) == home_id(*old(cmd)),
        queued(*old(cmd)).len() == 0 ==> replay_safe(entities(*world), queued(*final(cmd))),
{
    let requests = rows::<TryLaunchWave>(world);
    let toggles = rows::<ToggleAutoLaunchWave>(world);
    let spawns = map.all_spawns();
    proof {
        map.lemma_wf();
        assert forall|i: int| 0 <= i < spawns@.len() implies addressable(#[trigger] spawns@[i]) by {
            assert(spawns@.contains(spawns@[i]));
            assert(spawn_set(map.tiles()).contains(spawns@[i]));
        }
    }
    let actions = plan_launch(next_wave_state, &spawns, &requests, &toggles);
    let ghost asked = actions@;
    submit(cmd, actions);
    proof {
        assert(lists(requests@, entities(*world)) && lists(toggles@, entities(*world)) && is_ascending_listing(
            spawns@,
            spawn_set(map.tiles()),
        ) && issued(queued(*old(cmd)), queued(*cmd), asked));
        lemma_issued_harmless(entities(*world), queued(*old(cmd)), queued(*cmd), asked);
    }
}

/// Exactly-once consumption. Whatever the wave state and the spawn tiles,
/// so whether or not a wave is launched, the commands that the stage queues
/// in an empty buffer hold at most one wave, and once they have been
/// carried out no entity that carried a request to launch a wave, or a
/// toggle, exists any more.
pub proof fn lemma_launch_requests_consumed(
    w: Map<Entity, Components>,
    state: NextWaveState,
    spawns: Seq<Pos>,
    requests: Seq<(Entity, TryLaunchWave)>,
    toggles: Seq<(Entity, ToggleAutoLaunchWave)>,
    actions: Seq<Action>,
    cmds: Seq<Queued>,
)
    requires
        issued(Seq::empty(), cmds, actions),
        launches(state, spawns, requests.len() as int) ==> actions.len() == 10 + requests.len() + toggles.len()
            && actions.skip(10) == removals(requests) + removals(toggles),
        !launches(state, spawns, requests.len() as int) ==> actions == removals(requests) + removals(toggles),
    ensures
        forall|i: int| 0 <= i < requests.len() ==> !replayed(w, cmds).contains_key((#[trigger] requests[i]).0),
        forall|i: int| 0 <= i < toggles.len() ==> !replayed(w, cmds).contains_key((#[trigger] toggles[i]).0),
        actions.len() - requests.len() - toggles.len() == if launches(state, spawns, requests.len() as int) {
            10int
        } else {
            0int
        },
{
    let wave: int = if launches(state, spawns, requests.len() as int) {
        10
    } else {
        0
    };
    let tail = removals(requests) + removals(toggles);
    assert(actions.skip(wave) == tail) by {
        if wave == 0 {
            assert(actions.skip(0) =~= actions);
        }
    }
    assert forall|k: int| wave <= k < cmds.len() implies (#[trigger] cmds[k]).action == tail[k - wave] by {
        assert(cmds[0 + k].action == actions[k]);
        assert(actions.skip(wave)[k - wave] == actions[k]);
    }
    assert forall|k: int| wave <= k < cmds.len() implies (#[trigger] cmds[k]).action is Remove by {
        assert(cmds[k].action == tail[k - wave]);
    }
    assert forall|i: int| 0 <= i < requests.len() implies !replayed(w, cmds).contains_key(
        (#[trigger] requests[i]).0,
    ) by {
        assert(cmds[wave + i].action == tail[i]);
        lemma_removed_is_gone(w, cmds, wave + i, requests[i].0);
    }
    assert forall|i: int| 0 <= i < toggles.len() implies !replayed(w, cmds).contains_key((#[trigger] toggles[i]).0) by {
        let k = wave + requests.len() + i;
        assert(cmds[k].action == tail[k - wave]);
        lemma_removed_is_gone(w, cmds, k, toggles[i].0);
    }
}

} // verus!
