//! Stage: the entities that have died are removed.

use crate::components::Died;
use crate::ecs::{entities, home_id, issued, lists, queued, replay_safe, rows, submit, Components, Queued};
use crate::systems::{lemma_harmless, lemma_issued_harmless, remove_all, removals};
use legion::systems::CommandBuffer;
use legion::{Entity, World};
use vstd::prelude::*;

verus! {

/// What the stage does: the removal of every entity that carries `Died` is queued.
pub open spec fn dead_cleaned(
    w: Map<Entity, Components>,
    q0: Seq<Queued>,
    q1: Seq<Queued>,
) -> bool {
    exists|dead: Seq<(Entity, Died)>|
        lists(dead, w) && issued(q0, q1, removals(dead))
}

/// The stage: every entity that carries `Died` is removed.
pub fn death_cleanup(cmd: &mut CommandBuffer, world: &World)
    ensures
        dead_cleaned(entities(*world), queued(*old(cmd)), queued(*final(cmd))),
        home_id(*final(cmd)) == home_id(*old(cmd)),
        queued(*old(cmd)).len() == 0 ==> replay_safe(entities(*world), queued(*final(cmd))),
{
    let dead = rows::<Died>(world);
    let actions = remove_all(&dead);
    submit(cmd, actions);
    proof {
        assert(lists(dead@, entities(*world)));
        lemma_harmless(dead@, Seq::empty(), Seq::empty());
        lemma_issued_harmless(entities(*world), queued(*old(cmd)), queued(*cmd), removals(dead@));
    }
}

} // verus!
