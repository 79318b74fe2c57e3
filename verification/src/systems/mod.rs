//! The stages of a tick, and what they share.

pub mod map_render_helpers;
pub mod tick_systems;

use crate::ecs::{issued, replay_safe, replay_step, replayed, step_safe, target, Action, Components, Queued};
use legion::Entity;
use vstd::prelude::*;

verus! {

/// One `Remove` for the entity of every row, in the order of the rows.
pub open spec fn removals<T>(rows: Seq<(Entity, T)>) -> Seq<Action> {
    Seq::new(rows.len(), |i: int| Action::Remove(rows[i].0))
}

/// One `Remove` for the entity of every row, in the order of the rows.
pub fn remove_all<T>(rows: &Vec<(Entity, T)>) -> (actions: Vec<Action>)
    ensures
        actions@ == removals(rows@),
{
    let mut actions: Vec<Action> = Vec::new();
    let mut i: usize = 0;
    while i < rows.len()
        invariant
            i <= rows.len(),
            actions@.len() == i,
            forall|k: int| 0 <= k < i ==> actions@[k] == Action::Remove(rows@[k].0),
        decreases rows.len() - i,
    {
        actions.push(Action::Remove(rows[i].0));
        i += 1;
    }
    assert(actions@ =~= removals(rows@));
    actions
}

/// The actions destroy and create entities, and do nothing else.
pub open spec fn harmless(actions: Seq<Action>) -> bool {
    forall|i: int| 0 <= i < actions.len() ==> (#[trigger] actions[i]) is Remove || actions[i] is Spawn
}

/// The actions destroy nothing, and name only entities of `w`.
pub open spec fn marks_within(actions: Seq<Action>, w: Map<Entity, Components>) -> bool {
    forall|i: int|
        0 <= i < actions.len() ==> !((#[trigger] actions[i]) is Remove) && (target(actions[i]) matches Some(e)
            ==> w.contains_key(e))
}

/// Commands that destroy and create entities, and do nothing else, can be
/// carried out on any world.
pub proof fn lemma_harmless_safe(w: Map<Entity, Components>, cmds: Seq<Queued>)
    requires
        forall|i: int| 0 <= i < cmds.len() ==> (#[trigger] cmds[i]).action is Remove || cmds[i].action is Spawn,
    ensures
        replay_safe(w, cmds),
    decreases cmds.len(),
{
    if cmds.len() > 0 {
        assert(cmds[0].action is Remove || cmds[0].action is Spawn);
        let rest = cmds.drop_first();
        assert forall|i: int| 0 <= i < rest.len() implies (#[trigger] rest[i]).action is Remove || rest[i].action
            is Spawn by {
            assert(rest[i] == cmds[i + 1]);
        }
        lemma_harmless_safe(replay_step(w, cmds[0]), rest);
    }
}

/// Commands that destroy nothing, and name only entities of the world, can
/// be carried out on it.
pub proof fn lemma_marks_safe(w: Map<Entity, Components>, cmds: Seq<Queued>, held: Set<Entity>)
    requires
        forall|e: Entity| held.contains(e) ==> w.contains_key(e),
        forall|i: int|
            0 <= i < cmds.len() ==> !((#[trigger] cmds[i]).action is Remove) && (target(cmds[i].action) matches Some(
                e,
            ) ==> held.contains(e) && cmds[i].subject == e),
    ensures
        replay_safe(w, cmds),
    decreases cmds.len(),
{
    if cmds.len() > 0 {
        assert(!(cmds[0].action is Remove));
        assert(step_safe(w, cmds[0]));
        let rest = cmds.drop_first();
        let next = replay_step(w, cmds[0]);
        assert forall|i: int| 0 <= i < rest.len() implies !((#[trigger] rest[i]).action is Remove) && (target(
            rest[i].action,
        ) matches Some(e) ==> held.contains(e) && rest[i].subject == e) by {
            assert(rest[i] == cmds[i + 1]);
        }
        lemma_marks_safe(next, rest, held);
    }
}

/// Actions that destroy and create entities, and do nothing else, can be
/// carried out on any world once they have been queued in an empty buffer.
pub proof fn lemma_issued_harmless(w: Map<Entity, Components>, before: Seq<Queued>, after: Seq<Queued>, actions: Seq<Action>)
    requires
        issued(before, after, actions),
        harmless(actions),
    ensures
        before.len() == 0 ==> replay_safe(w, after),
{
    if before.len() == 0 {
        assert forall|i: int| 0 <= i < after.len() implies (#[trigger] after[i]).action is Remove || after[i].action
            is Spawn by {
            assert(after[before.len() + i].action == actions[i]);
        }
        lemma_harmless_safe(w, after);
    }
}

/// Actions that destroy nothing, and name only entities of the world, can
/// be carried out on it once they have been queued in an empty buffer.
pub proof fn lemma_issued_marks(w: Map<Entity, Components>, before: Seq<Queued>, after: Seq<Queued>, actions: Seq<Action>)
    requires
        issued(before, after, actions),
        marks_within(actions, w),
    ensures
        before.len() == 0 ==> replay_safe(w, after),
{
    if before.len() == 0 {
        let held = w.dom();
        assert forall|i: int| 0 <= i < after.len() implies !((#[trigger] after[i]).action is Remove) && (target(
            after[i].action,
        ) matches Some(e) ==> held.contains(e) && after[i].subject == e) by {
            assert(after[before.len() + i].action == actions[i]);
        }
        lemma_marks_safe(w, after, held);
    }
}

/// Removals are harmless, and so are two harmless lists one after the other.
pub proof fn lemma_harmless<T>(rows: Seq<(Entity, T)>, a: Seq<Action>, b: Seq<Action>)
    ensures
        harmless(removals(rows)),
        harmless(a) && harmless(b) ==> harmless(a + b),
{
    if harmless(a) && harmless(b) {
        assert forall|i: int| 0 <= i < (a + b).len() implies (#[trigger] (a + b)[i]) is Remove || (a + b)[i]
            is Spawn by {
            if i < a.len() {
                assert((a + b)[i] == a[i]);
            } else {
                assert((a + b)[i] == b[i - a.len()]);
            }
        }
    }
}

/// What is gone stays gone while entities are only destroyed.
pub proof fn lemma_stays_gone(w: Map<Entity, Components>, cmds: Seq<Queued>, e: Entity)
    requires
        !w.contains_key(e),
        forall|i: int| 0 <= i < cmds.len() ==> (#[trigger] cmds[i]).action is Remove,
    ensures
        !replayed(w, cmds).contains_key(e),
    decreases cmds.len(),
{
    if cmds.len() > 0 {
        assert(cmds[0].action is Remove);
        let rest = cmds.drop_first();
        assert forall|i: int| 0 <= i < rest.len() implies (#[trigger] rest[i]).action is Remove by {
            assert(rest[i] == cmds[i + 1]);
        }
        lemma_stays_gone(replay_step(w, cmds[0]), rest, e);
    }
}

/// An entity whose destruction is queued at `k`, with nothing but
/// destructions queued behind it, is gone once the commands have been
/// carried out.
pub proof fn lemma_removed_is_gone(w: Map<Entity, Components>, cmds: Seq<Queued>, k: int, e: Entity)
    requires
        0 <= k < cmds.len(),
        cmds[k].action == Action::Remove(e),
        forall|i: int| k <= i < cmds.len() ==> (#[trigger] cmds[i]).action is Remove,
    ensures
        !replayed(w, cmds).contains_key(e),
    decreases cmds.len(),
{
    let rest = cmds.drop_first();
    let next = replay_step(w, cmds[0]);
    if k == 0 {
        assert forall|i: int| 0 <= i < rest.len() implies (#[trigger] rest[i]).action is Remove by {
            assert(rest[i] == cmds[i + 1]);
        }
        lemma_stays_gone(next, rest, e);
    } else {
        assert(rest[k - 1] == cmds[k]);
        assert forall|i: int| k - 1 <= i < rest.len() implies (#[trigger] rest[i]).action is Remove by {
            assert(rest[i] == cmds[i + 1]);
        }
        lemma_removed_is_gone(next, rest, k - 1, e);
    }
}

} // verus!
