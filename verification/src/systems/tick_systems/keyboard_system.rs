//! Stage: the key events set and clear the pressed-key flags.

use crate::components::user_input::{UserKey, UserKeyEvent};
use crate::ecs::{
    entities, home_id, issued, lists, queued, replay_safe, rows, submit, Action, Components, Queued,
};
use crate::resources::KeysPressed;
use crate::systems::{lemma_harmless, lemma_issued_harmless, remove_all, removals};
use legion::systems::CommandBuffer;
use legion::{Entity, World};
use vstd::prelude::*;

verus! {

/// The flags with the one of `key` set to `value`.
pub open spec fn with_flag(keys: KeysPressed, key: UserKey, value: bool) -> KeysPressed {
    match key {
        UserKey::Up => KeysPressed { up: value, ..keys },
        UserKey::Down => KeysPressed { down: value, ..keys },
        UserKey::Left => KeysPressed { left: value, ..keys },
        UserKey::Right => KeysPressed { right: value, ..keys },
    }
}

/// The flags after one key event.
pub open spec fn key_applied(keys: KeysPressed, event: UserKeyEvent) -> KeysPressed {
    match event {
        UserKeyEvent::KeyDown(key) => with_flag(keys, key, true),
        UserKeyEvent::KeyUp(key) => with_flag(keys, key, false),
        UserKeyEvent::AllKeysUp => KeysPressed { down: false, up: false, left: false, right: false },
    }
}

/// The flags after the key events, taken in order.
pub open spec fn keys_after(keys: KeysPressed, events: Seq<(Entity, UserKeyEvent)>) -> KeysPressed
    decreases events.len(),
{
    if events.len() == 0 {
        keys
    } else {
        key_applied(keys_after(keys, events.drop_last()), events.last().1)
    }
}

/// Sets the flag of `key` to `value`.
fn set_flag(key: UserKey, keys: &mut KeysPressed, value: bool)
    ensures
        *final(keys) == with_flag(*old(keys), key, value),
{
    match key {
        UserKey::Up => {
            keys.up = value;
        },
        UserKey::Down => {
            keys.down = value;
        },
        UserKey::Left => {
            keys.left = value;
        },
        UserKey::Right => {
            keys.right = value;
        },
    }
}

/// Applies the key events in order, and asks for the removal of each.
pub fn apply_key_events(keys: &mut KeysPressed, events: &Vec<(Entity, UserKeyEvent)>) -> (actions: Vec<Action>)
    ensures
        *final(keys) == keys_after(*old(keys), events@),
        actions@ == removals(events@),
{
    let mut i: usize = 0;
    assert(events@.subrange(0, 0) =~= Seq::<(Entity, UserKeyEvent)>::empty());
    while i < events.len()
        invariant
            i <= events.len(),
            *keys == keys_after(*old(keys), events@.subrange(0, i as int)),
        decreases events.len() - i,
    {
        proof {
            assert(events@.subrange(0, i + 1).drop_last() =~= events@.subrange(0, i as int));
        }
        match events[i].1 {
            UserKeyEvent::KeyDown(key) => set_flag(key, keys, true),
            UserKeyEvent::KeyUp(key) => set_flag(key, keys, false),
            UserKeyEvent::AllKeysUp => {
                keys.left = false;
                keys.right = false;
                keys.down = false;
                keys.up = false;
            },
        }
        i += 1;
    }
    assert(events@.subrange(0, i as int) =~= events@);
    remove_all(events)
}

/// What the stage does: the flags are those after the key events of the
/// world, taken in some order, and the removal of each event is queued.
pub open spec fn key_input_processed(
    keys0: KeysPressed,
    keys1: KeysPressed,
    w: Map<Entity, Components>,
    q0: Seq<Queued>,
    q1: Seq<Queued>,
) -> bool {
    exists|events: Seq<(Entity, UserKeyEvent)>|
        lists(events, w) && keys1 == keys_after(keys0, events) && issued(
            q0,
            q1,
            removals(events),
        )
}

/// The stage: every key event in the world is applied to the flags, in the
/// order in which the world hands them out, and its entity is removed.
pub fn process_key_input(keys: &mut KeysPressed, cmd: &mut CommandBuffer, world: &World)
    ensures
        key_input_processed(*old(keys), *final(keys), entities(*world), queued(*old(cmd)), queued(*final(cmd))),
        home_id(*final(cmd)) == home_id(*old(cmd)),
        queued(*old(cmd)).len() == 0 ==> replay_safe(entities(*world), queued(*final(cmd))),
{
    let events = rows::<UserKeyEvent>(world);
    let actions = apply_key_events(keys, &events);
    submit(cmd, actions);
    proof {
        assert(lists(events@, entities(*world)));
        lemma_harmless(events@, Seq::empty(), Seq::empty());
        lemma_issued_harmless(entities(*world), queued(*old(cmd)), queued(*cmd), removals(events@));
    }
}

} // verus!
