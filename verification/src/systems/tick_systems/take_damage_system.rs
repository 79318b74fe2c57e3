//! Stage: the damage events are applied to the health of their targets.

use crate::components::{MobHealth, TakeDamage};
use crate::ecs::{
    component, entities, home_id, issued, lists, queued, replay_safe, rows, store, submit, world_id, Components, Queued,
};
use crate::systems::{lemma_harmless, lemma_issued_harmless, remove_all, removals};
use legion::systems::CommandBuffer;
use legion::{Entity, World};
use vstd::prelude::*;

verus! {

/// The health after `amount` of damage; the current health never leaves
/// the machine's range.
pub open spec fn hurt(health: MobHealth, amount: int) -> MobHealth {
    let left = health.current_health - amount;
    MobHealth {
        current_health: if left < i32::MIN {
            i32::MIN
        } else if left > i32::MAX {
            i32::MAX
        } else {
            left as i32
        },
        max_health: health.max_health,
    }
}

/// The world after one damage event: the target's health is lowered, if the
/// target exists and has health.
pub open spec fn damage_applied(w: Map<Entity, Components>, damage: TakeDamage) -> Map<Entity, Components> {
    if w.contains_key(damage.target) && w[damage.target].health is Some {
        w.insert(
            damage.target,
            Components { health: Some(hurt(w[damage.target].health->0, damage.amount as int)), ..w[damage.target] },
        )
    } else {
        w
    }
}

/// The world after the damage events, taken in order.
pub open spec fn damages_applied(w: Map<Entity, Components>, events: Seq<(Entity, TakeDamage)>) -> Map<
    Entity,
    Components,
>
    decreases events.len(),
{
    if events.len() == 0 {
        w
    } else {
        damage_applied(damages_applied(w, events.drop_last()), events.last().1)
    }
}

/// The health after `amount` of damage.
pub fn hurt_by(health: MobHealth, amount: i32) -> (r: MobHealth)
    ensures
        r == hurt(health, amount as int),
{
    let left: i64 = health.current_health as i64 - amount as i64;
    MobHealth {
        current_health: if left < i32::MIN as i64 {
            i32::MIN
        } else if left > i32::MAX as i64 {
            i32::MAX
        } else {
            left as i32
        },
        max_health: health.max_health,
    }
}

/// What the stage does: the world is that after the damage events, taken
/// in some order, and the removal of each event is queued.
pub open spec fn damage_taken(
    w0: Map<Entity, Components>,
    w1: Map<Entity, Components>,
    q0: Seq<Queued>,
    q1: Seq<Queued>,
) -> bool {
    exists|events: Seq<(Entity, TakeDamage)>|
        lists(events, w0) && w1 == damages_applied(
            w0,
            events,
        ) && issued(q0, q1, removals(events))
}

/// The stage: every damage event lowers the health of its target, if the
/// target still exists and has health, and is removed. Several events for
/// one target add up.
pub fn take_damage(cmd: &mut CommandBuffer, world: &mut World)
    ensures
        damage_taken(entities(*old(world)), entities(*final(world)), queued(*old(cmd)), queued(*final(cmd))),
        world_id(*final(world)) == world_id(*old(world)),
        home_id(*final(cmd)) == home_id(*old(cmd)),
        queued(*old(cmd)).len() == 0 ==> replay_safe(entities(*final(world)), queued(*final(cmd))),
{
    let events = rows::<TakeDamage>(world);
    let ghost w0 = entities(*world);
    let mut i: usize = 0;
    assert(events@.subrange(0, 0) =~= Seq::<(Entity, TakeDamage)>::empty());
    while i < events.len()
        invariant
            i <= events.len(),
            entities(*world) == damages_applied(w0, events@.subrange(0, i as int)),
            world_id(*world) == world_id(*old(world)),
        decreases events.len() - i,
    {
        proof {
            assert(events@.subrange(0, i + 1).drop_last() =~= events@.subrange(0, i as int));
        }
        let damage = events[i].1;
        match component::<MobHealth>(world, damage.target) {
            Some(health) => {
                store(world, damage.target, hurt_by(health, damage.amount));
            },
            None => {},
        }
        i += 1;
    }
    assert(events@.subrange(0, i as int) =~= events@);
    let actions = remove_all(&events);
    submit(cmd, actions);
    proof {
        assert(lists(events@, w0));
        lemma_harmless(events@, Seq::empty(), Seq::empty());
        lemma_issued_harmless(entities(*world), queued(*old(cmd)), queued(*cmd), removals(events@));
    }
}

} // verus!
