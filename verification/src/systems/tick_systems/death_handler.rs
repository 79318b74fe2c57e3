//! Stage: the death events of the entities that have died are carried out.

use crate::components::{DeathEvent, Died, OnDeath};
use crate::ecs::{component, entities, lists, rows, Components};
use crate::resources::ledger::{balance, received, OwnedResource, OwnedResources};
use legion::{Entity, World};
use vstd::prelude::*;

verus! {

/// The ledger after one death event: it receives the resources, unless the
/// amount would leave the machine's range.
pub open spec fn payout(ledger: Map<OwnedResource, int>, event: DeathEvent) -> Map<OwnedResource, int> {
    match event {
        DeathEvent::GetResources(kind, amount) => if i64::MIN <= balance(ledger, kind) + amount <= i64::MAX {
            received(ledger, kind, amount as int)
        } else {
            ledger
        },
    }
}

/// The ledger after the death events, taken in order.
pub open spec fn payouts(ledger: Map<OwnedResource, int>, events: Seq<DeathEvent>) -> Map<OwnedResource, int>
    decreases events.len(),
{
    if events.len() == 0 {
        ledger
    } else {
        payout(payouts(ledger, events.drop_last()), events.last())
    }
}

/// The ledger after the death events of the dead, taken in order.
pub open spec fn deaths_paid(ledger: Map<OwnedResource, int>, w: Map<Entity, Components>, dead: Seq<(Entity, Died)>) -> Map<
    OwnedResource,
    int,
>
    decreases dead.len(),
{
    if dead.len() == 0 {
        ledger
    } else {
        let before = deaths_paid(ledger, w, dead.drop_last());
        let e = dead.last().0;
        if w.contains_key(e) && w[e].on_death is Some {
            payouts(before, w[e].on_death->0)
        } else {
            before
        }
    }
}

/// Carries out the death events, in order.
pub fn pay_out(owned: &mut OwnedResources, on_death: &OnDeath)
    ensures
        final(owned)@ == payouts(old(owned)@, on_death.events@),
{
    let mut i: usize = 0;
    assert(on_death.events@.subrange(0, 0) =~= Seq::<DeathEvent>::empty());
    while i < on_death.events.len()
        invariant
            i <= on_death.events.len(),
            owned@ == payouts(old(owned)@, on_death.events@.subrange(0, i as int)),
        decreases on_death.events.len() - i,
    {
        proof {
            assert(on_death.events@.subrange(0, i + 1).drop_last() =~= on_death.events@.subrange(0, i as int));
        }
        match on_death.events[i] {
            DeathEvent::GetResources(kind, amount) => {
                if owned.receive_fits(kind, amount) {
                    owned.receive(kind, amount);
                }
            },
        }
        i += 1;
    }
    assert(on_death.events@.subrange(0, i as int) =~= on_death.events@);
}

/// What the stage does: the ledger is that after the death events of the
/// dead of the world, taken in some order.
pub open spec fn deaths_handled(
    ledger0: Map<OwnedResource, int>,
    ledger1: Map<OwnedResource, int>,
    w: Map<Entity, Components>,
) -> bool {
    exists|dead: Seq<(Entity, Died)>|
        lists(dead, w) && ledger1 == deaths_paid(ledger0, w, dead)
}

/// The stage: for every entity that carries `Died`, its death events are
/// carried out.
pub fn death_handler(owned: &mut OwnedResources, world: &World)
    ensures
        deaths_handled(old(owned)@, final(owned)@, entities(*world)),

{
    let dead = rows::<Died>(world);
    let mut i: usize = 0;
    assert(dead@.subrange(0, 0) =~= Seq::<(Entity, Died)>::empty());
    while i < dead.len()
        invariant
            i <= dead.len(),
            owned@ == deaths_paid(old(owned)@, entities(*world), dead@.subrange(0, i as int)),
        decreases dead.len() - i,
    {
        proof {
            assert(dead@.subrange(0, i + 1).drop_last() =~= dead@.subrange(0, i as int));
        }
        match component::<OnDeath>(world, dead[i].0) {
            Some(on_death) => {
                pay_out(owned, &on_death);
            },
            None => {},
        }
        i += 1;
    }
    assert(dead@.subrange(0, i as int) =~= dead@);
    assert(lists(dead@, entities(*world)));
}

} // verus!
