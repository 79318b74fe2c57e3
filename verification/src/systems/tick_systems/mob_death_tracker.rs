//! Stage: a mob in play whose health is spent has died.

use crate::components::{MobHealth, TdMob, WaitState, WaveState};
use crate::ecs::{
    component, entities, home_id, issued, lists, queued, replay_safe, rows, submit, Action, Components, Queued,
};
use crate::systems::{lemma_issued_marks, marks_within};
use legion::systems::CommandBuffer;
use legion::{Entity, World};
use vstd::prelude::*;

verus! {

/// Whether the entity is a mob in play with no health left.
pub open spec fn spent(c: Components) -> bool {
    &&& c.mob is Some
    &&& c.health is Some
    &&& c.wave is Some
    &&& c.wave->0.wait_state is Active
    &&& c.health->0.current_health <= 0
}

/// One `Die` for every mob in play with no health left, in the order of the rows.
pub open spec fn deaths(w: Map<Entity, Components>, mobs: Seq<(Entity, TdMob)>) -> Seq<Action>
    decreases mobs.len(),
{
    if mobs.len() == 0 {
        Seq::empty()
    } else {
        let rest = deaths(w, mobs.drop_last());
        let e = mobs.last().0;
        if w.contains_key(e) && spent(w[e]) {
            rest.push(Action::Die(e))
        } else {
            rest
        }
    }
}

/// What the stage does: `Died` is queued for every mob of the world that is
/// in play and has no health left.
pub open spec fn deaths_tracked(
    w: Map<Entity, Components>,
    q0: Seq<Queued>,
    q1: Seq<Queued>,
) -> bool {
    exists|mobs: Seq<(Entity, TdMob)>|
        lists(mobs, w) && issued(
            q0,
            q1,
            deaths(w, mobs),
        )
}

/// The stage: every mob that is in play and has no health left is given `Died`.
pub fn mobs_die_at_no_health(cmd: &mut CommandBuffer, world: &World)
    ensures
        deaths_tracked(entities(*world), queued(*old(cmd)), queued(*final(cmd))),
        home_id(*final(cmd)) == home_id(*old(cmd)),
        queued(*old(cmd)).len() == 0 ==> replay_safe(entities(*world), queued(*final(cmd))),
{
    let mobs = rows::<TdMob>(world);
    let mut actions: Vec<Action> = Vec::new();
    let mut i: usize = 0;
    assert(mobs@.subrange(0, 0) =~= Seq::<(Entity, TdMob)>::empty());
    while i < mobs.len()
        invariant
            i <= mobs.len(),
            lists(mobs@, entities(*world)),
            marks_within(actions@, entities(*world)),
            actions@ == deaths(entities(*world), mobs@.subrange(0, i as int)),
        decreases mobs.len() - i,
    {
        proof {
            assert(mobs@.subrange(0, i + 1).drop_last() =~= mobs@.subrange(0, i as int));
        }
        let e = mobs[i].0;
        assert(entities(*world).contains_key(mobs@[i as int].0) && entities(*world)[e].mob is Some);
        let health = component::<MobHealth>(world, e);
        let wave = component::<WaveState>(world, e);
        match (health, wave) {
            (Some(h), Some(ws)) => {
                let active = match ws.wait_state {
                    WaitState::Active => true,
                    WaitState::Waiting { .. } => false,
                };
                if active && h.current_health <= 0 {
                    actions.push(Action::Die(e));
                }
            },
            _ => {},
        }
        i += 1;
    }
    assert(mobs@.subrange(0, i as int) =~= mobs@);
    let ghost asked = actions@;
    submit(cmd, actions);
    proof {
        assert(lists(mobs@, entities(*world)));
        lemma_issued_marks(entities(*world), queued(*old(cmd)), queued(*cmd), asked);
    }
}

} // verus!
