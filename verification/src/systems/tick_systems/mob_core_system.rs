//! Stage: a mob that has touched the core costs the player one point of
//! health and is removed.

use crate::components::{TdMob, TouchedCore};
use crate::ecs::{
    component, entities, home_id, issued, lists, queued, replay_safe, rows, submit, Action, Components, Queued,
};
use crate::resources::PlayerHealth;
use crate::systems::{lemma_harmless, lemma_issued_harmless, remove_all, removals};
use legion::systems::CommandBuffer;
use legion::{Entity, World};
use vstd::prelude::*;

verus! {

/// The health after `hits` mobs have reached the core: one point less for
/// each, and never below the least number the machine holds.
pub open spec fn health_after_hits(health: PlayerHealth, hits: int) -> PlayerHealth {
    PlayerHealth {
        health: if health.health - hits < i32::MIN {
            i32::MIN
        } else {
            (health.health - hits) as i32
        },
        max: health.max,
    }
}

/// The rows whose entity is a mob, in the order of the rows.
pub open spec fn mobs_among(rows: Seq<(Entity, TouchedCore)>, w: Map<Entity, Components>) -> Seq<
    (Entity, TouchedCore),
>
    decreases rows.len(),
{
    if rows.len() == 0 {
        Seq::empty()
    } else {
        let rest = mobs_among(rows.drop_last(), w);
        if w.contains_key(rows.last().0) && w[rows.last().0].mob is Some {
            rest.push(rows.last())
        } else {
            rest
        }
    }
}

/// Takes one point of health for every hit, and asks for the removal of
/// every mob that hit.
pub fn core_hits(player_health: &mut PlayerHealth, hits: &Vec<(Entity, TouchedCore)>) -> (actions: Vec<Action>)
    ensures
        *final(player_health) == health_after_hits(*old(player_health), hits@.len() as int),
        actions@ == removals(hits@),
{
    let mut i: usize = 0;
    while i < hits.len()
        invariant
            i <= hits.len(),
            *player_health == health_after_hits(*old(player_health), i as int),
        decreases hits.len() - i,
    {
        if player_health.health > i32::MIN {
            player_health.health = player_health.health - 1;
        }
        i += 1;
    }
    remove_all(hits)
}

/// What the stage does: the player loses one point of health for every mob
/// that carries `TouchedCore`, and the removal of each such mob is queued.
pub open spec fn core_hits_processed(
    health0: PlayerHealth,
    health1: PlayerHealth,
    w: Map<Entity, Components>,
    q0: Seq<Queued>,
    q1: Seq<Queued>,
) -> bool {
    exists|touched: Seq<(Entity, TouchedCore)>|
        lists(touched, w) && health1 == health_after_hits(
            health0,
            mobs_among(touched, w).len() as int,
        ) && issued(q0, q1, removals(mobs_among(touched, w)))
}

/// The stage: every mob that carries `TouchedCore` costs the player one
/// point of health and is removed.
pub fn mob_core_hits(player_health: &mut PlayerHealth, cmd: &mut CommandBuffer, world: &World)
    ensures
        core_hits_processed(
            *old(player_health),
            *final(player_health),
            entities(*world),
            queued(*old(cmd)),
            queued(*final(cmd)),
        ),
        home_id(*final(cmd)) == home_id(*old(cmd)),
        queued(*old(cmd)).len() == 0 ==> replay_safe(entities(*world), queued(*final(cmd))),
{
    let touched = rows::<TouchedCore>(world);
    let mut hits: Vec<(Entity, TouchedCore)> = Vec::new();
    let mut i: usize = 0;
    assert(touched@.subrange(0, 0) =~= Seq::<(Entity, TouchedCore)>::empty());
    while i < touched.len()
        invariant
            i <= touched.len(),
            lists(touched@, entities(*world)),
            hits@ == mobs_among(touched@.subrange(0, i as int), entities(*world)),
        decreases touched.len() - i,
    {
        proof {
            assert(touched@.subrange(0, i + 1).drop_last() =~= touched@.subrange(0, i as int));
        }
        if component::<TdMob>(world, touched[i].0).is_some() {
            hits.push(touched[i]);
        }
        i += 1;
    }
    assert(touched@.subrange(0, i as int) =~= touched@);
    let actions = core_hits(player_health, &hits);
    submit(cmd, actions);
    proof {
        lemma_harmless(hits@, Seq::empty(), Seq::empty());
        lemma_issued_harmless(entities(*world), queued(*old(cmd)), queued(*cmd), removals(hits@));
    }
}

} // verus!
