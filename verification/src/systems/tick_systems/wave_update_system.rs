//! Stage: the waiting mobs count down and come into play, and the next
//! wave is asked for if it is to launch by itself.

use crate::components::{WaitState, WaveState};
use crate::ecs::{
    entities, home_id, issued, lists, queued, replay_safe, rows, store, submit, world_id, Action, Blueprint, Carried,
    Components, Queued,
};
use crate::resources::NextWaveState;
use crate::systems::tick_systems::mob_movement_system::among;
use crate::systems::{lemma_issued_marks, marks_within};
use legion::systems::CommandBuffer;
use legion::{Entity, World};
use vstd::prelude::*;

verus! {

/// The wave state of an entity after one tick: a wait of more than zero
/// ticks drops by one; a wait of zero ticks ends.
pub open spec fn wave_ticked(state: WaveState) -> WaveState {
    match state.wait_state {
        WaitState::Active => state,
        WaitState::Waiting { ticks_remaining } => if ticks_remaining > 0 {
            WaveState {
                wave_num: state.wave_num,
                wait_state: WaitState::Waiting { ticks_remaining: (ticks_remaining - 1) as usize },
            }
        } else {
            WaveState { wave_num: state.wave_num, wait_state: WaitState::Active }
        },
    }
}

/// Whether the entity's wait ends in this tick.
pub open spec fn wakes(state: WaveState) -> bool {
    state.wait_state == (WaitState::Waiting { ticks_remaining: 0 })
}

/// What the entity carries after the stage.
pub open spec fn waited(c: Components) -> Components {
    if c.wave is Some {
        Components { wave: Some(wave_ticked(c.wave->0)), ..c }
    } else {
        c
    }
}

/// The world after the stage: every wave state has been ticked.
pub open spec fn waves_ticked(w: Map<Entity, Components>) -> Map<Entity, Components> {
    Map::new(|e: Entity| w.contains_key(e), |e: Entity| waited(w[e]))
}

/// The world when the first `n` rows have been handled.
pub open spec fn ticked_upto(w: Map<Entity, Components>, waves: Seq<(Entity, WaveState)>, n: int) -> Map<
    Entity,
    Components,
> {
    Map::new(
        |e: Entity| w.contains_key(e),
        |e: Entity|
            if among(waves, n, e) {
                waited(w[e])
            } else {
                w[e]
            },
    )
}

/// One `Unhide` for every entity whose wait ends, in the order of the rows.
pub open spec fn unhidings(waves: Seq<(Entity, WaveState)>) -> Seq<Action>
    decreases waves.len(),
{
    if waves.len() == 0 {
        Seq::empty()
    } else {
        let rest = unhidings(waves.drop_last());
        if wakes(waves.last().1) {
            rest.push(Action::Unhide(waves.last().0))
        } else {
            rest
        }
    }
}

/// The request for the next wave, if waves launch by themselves and the
/// countdown has run out.
pub open spec fn auto_request(next: NextWaveState) -> Seq<Action> {
    if next.delay_ticks == 0 && next.auto_launch {
        seq![Action::Spawn(Blueprint::LaunchIntent)]
    } else {
        Seq::empty()
    }
}

/// The wave state of an entity after one tick, and whether its wait ends.
pub fn tick_wave(state: WaveState) -> (r: (WaveState, bool))
    ensures
        r.0 == wave_ticked(state),
        r.1 == wakes(state),
{
    match state.wait_state {
        WaitState::Active => (state, false),
        WaitState::Waiting { ticks_remaining } => {
            if ticks_remaining > 0 {
                (
                    WaveState {
                        wave_num: state.wave_num,
                        wait_state: WaitState::Waiting { ticks_remaining: ticks_remaining - 1 },
                    },
                    false,
                )
            } else {
                (WaveState { wave_num: state.wave_num, wait_state: WaitState::Active }, true)
            }
        },
    }
}

/// What the stage queues: the request for the next wave, if it launches by
/// itself, and the removal of `Hidden` from every entity whose wait ends.
pub open spec fn wakings_queued(
    next: NextWaveState,
    w0: Map<Entity, Components>,
    q0: Seq<Queued>,
    q1: Seq<Queued>,
) -> bool {
    exists|waves: Seq<(Entity, WaveState)>|
        lists(waves, w0) && issued(
            q0,
            q1,
            auto_request(next) + unhidings(waves),
        )
}

/// The stage: a request for the next wave is created if waves launch by
/// themselves and the countdown has run out; every waiting entity counts
/// down, and one whose wait ends comes into play and loses `Hidden`.
pub fn update_wave_state(next_wave_state: &NextWaveState, cmd: &mut CommandBuffer, world: &mut World)
    ensures
        entities(*final(world)) == waves_ticked(entities(*old(world))),
        world_id(*final(world)) == world_id(*old(world)),
        wakings_queued(*next_wave_state, entities(*old(world)), queued(*old(cmd)), queued(*final(cmd))),
        home_id(*final(cmd)) == home_id(*old(cmd)),
        queued(*old(cmd)).len() == 0 ==> replay_safe(entities(*final(world)), queued(*final(cmd))),
{
    let mut actions: Vec<Action> = Vec::new();
    if next_wave_state.delay_ticks == 0 && next_wave_state.auto_launch {
        actions.push(Action::Spawn(Blueprint::LaunchIntent));
    }
    assert(actions@ =~= auto_request(*next_wave_state));
    let waves = rows::<WaveState>(world);
    let ghost w0 = entities(*world);
    let mut i: usize = 0;
    proof {
        assert(waves@.subrange(0, 0) =~= Seq::<(Entity, WaveState)>::empty());
        assert(entities(*world) =~= ticked_upto(w0, waves@, 0));
        assert(actions@ =~= auto_request(*next_wave_state) + unhidings(waves@.subrange(0, 0)));
    }
    while i < waves.len()
        invariant
            i <= waves.len(),
            lists(waves@, w0),
            entities(*world) == ticked_upto(w0, waves@, i as int),
            world_id(*world) == world_id(*old(world)),
            marks_within(actions@, w0),
            actions@ == auto_request(*next_wave_state) + unhidings(waves@.subrange(0, i as int)),
        decreases waves.len() - i,
    {
        proof {
            assert(waves@.subrange(0, i + 1).drop_last() =~= waves@.subrange(0, i as int));
        }
        let e = waves[i].0;
        proof {
            assert(w0.contains_key(waves@[i as int].0));
            assert(WaveState::held(w0[e]) == Some(waves@[i as int].1));
            assert(!among(waves@, i as int, e)) by {
                if among(waves@, i as int, e) {
                    let k = choose|k: int| 0 <= k < i && k < waves@.len() && (#[trigger] waves@[k]).0 == e;
                    assert(waves@[k].0 != waves@[i as int].0);
                }
            }
            assert(entities(*world)[e] == w0[e]);
        }
        let ghost before = entities(*world);
        let ghost asked = actions@;
        let (next_state, remove_hidden) = tick_wave(waves[i].1);
        if remove_hidden {
            actions.push(Action::Unhide(e));
        }
        store(world, e, next_state);
        proof {
            assert(actions@ =~= auto_request(*next_wave_state) + unhidings(waves@.subrange(0, i + 1))) by {
                let upto = unhidings(waves@.subrange(0, i as int));
                if remove_hidden {
                    assert(actions@ =~= (auto_request(*next_wave_state) + upto).push(Action::Unhide(e)));
                }
            }
            assert(entities(*world) =~= ticked_upto(w0, waves@, i + 1)) by {
                assert forall|x: Entity| w0.contains_key(x) implies entities(*world)[x] == ticked_upto(
                    w0,
                    waves@,
                    i + 1,
                )[x] by {
                    if x == e {
                        assert(among(waves@, i + 1, x)) by {
                            assert(waves@[i as int].0 == x);
                        }
                    } else {
                        assert(entities(*world)[x] == before[x]);
                        if among(waves@, i + 1, x) {
                            let k = choose|k: int| 0 <= k < i + 1 && k < waves@.len() && (#[trigger] waves@[k]).0 == x;
                            assert(k < i);
                            assert(among(waves@, i as int, x));
                        }
                        if among(waves@, i as int, x) {
                            let k = choose|k: int| 0 <= k < i && k < waves@.len() && (#[trigger] waves@[k]).0 == x;
                            assert(among(waves@, i + 1, x));
                        }
                    }
                }
            }
        }
        i += 1;
    }
    let ghost asked = actions@;
    submit(cmd, actions);
    proof {
        assert(waves@.subrange(0, i as int) =~= waves@);
        assert(entities(*world) =~= waves_ticked(w0)) by {
            assert forall|x: Entity| w0.contains_key(x) implies entities(*world)[x] == waves_ticked(w0)[x] by {
                if w0[x].wave is Some {
                    assert(WaveState::held(w0[x]) is Some);
                    let k = choose|k: int| 0 <= k < waves@.len() && (#[trigger] waves@[k]).0 == x;
                    assert(among(waves@, i as int, x));
                }
            }
        }
        assert(marks_within(asked, entities(*world)));
        lemma_issued_marks(entities(*world), queued(*old(cmd)), queued(*cmd), asked);
    }
}

} // verus!
