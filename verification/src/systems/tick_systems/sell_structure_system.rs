//! Stage: the requests to sell a structure are carried out.

use crate::components::user_input::TrySellStructure;
use crate::components::SellValue;
use crate::ecs::{
    component, entities, exists_in, home_id, issued, lists, queued, replay_safe, rows, submit, Action, Components,
    Queued,
};
use crate::systems::{harmless, lemma_issued_harmless};
use crate::resources::ledger::{in_range, received_all, OwnedResource, OwnedResources};
use legion::systems::CommandBuffer;
use legion::{Entity, World};
use vstd::prelude::*;

verus! {

/// The ledger and the actions asked for, as a request finds them.
pub type Settlement = (Map<OwnedResource, int>, Seq<Action>);

/// The ledger and the actions after one request. The request itself is
/// always removed. Where the entity to sell is gone, nothing else happens.
/// Where it carries no sell value, it is removed. Where it carries one, the
/// ledger receives it and the entity is removed, unless an amount would
/// leave the machine's range: then the sale is dropped.
pub open spec fn sale_settled(done: Settlement, w: Map<Entity, Components>, intent: Entity, to_sell: Entity) -> Settlement {
    let asked = done.1.push(Action::Remove(intent));
    if !w.contains_key(to_sell) {
        (done.0, asked)
    } else {
        match w[to_sell].sell_value {
            None => (done.0, asked.push(Action::Remove(to_sell))),
            Some(SellValue(value)) => if in_range(received_all(done.0, value@)) {
                (received_all(done.0, value@), asked.push(Action::Remove(to_sell)))
            } else {
                (done.0, asked)
            },
        }
    }
}

/// The ledger and the actions after the requests, taken in order.
pub open spec fn sales_settled(
    ledger: Map<OwnedResource, int>,
    w: Map<Entity, Components>,
    reqs: Seq<(Entity, TrySellStructure)>,
) -> Settlement
    decreases reqs.len(),
{
    if reqs.len() == 0 {
        (ledger, Seq::empty())
    } else {
        sale_settled(sales_settled(ledger, w, reqs.drop_last()), w, reqs.last().0, reqs.last().1.to_sell)
    }
}

/// What the stage does: the ledger is that after the requests of the
/// world, taken in some order, and the removals that they ask for are
/// queued.
pub open spec fn sales_processed(
    ledger0: Map<OwnedResource, int>,
    ledger1: Map<OwnedResource, int>,
    w: Map<Entity, Components>,
    q0: Seq<Queued>,
    q1: Seq<Queued>,
) -> bool {
    exists|requests: Seq<(Entity, TrySellStructure)>|
        lists(requests, w) && ledger1 == sales_settled(
            ledger0,
            w,
            requests,
        ).0 && issued(
            q0,
            q1,
            sales_settled(ledger0, w, requests).1,
        )
}

/// The stage: every request to sell is removed; the entity it names, if it
/// still exists, is removed too, and its sell value, if it carries one, is
/// received by the ledger.
pub fn sell_structures(owned_resources: &mut OwnedResources, cmd: &mut CommandBuffer, world: &World)
    ensures
        sales_processed(
            old(owned_resources)@,
            final(owned_resources)@,
            entities(*world),
            queued(*old(cmd)),
            queued(*final(cmd)),
        ),
        home_id(*final(cmd)) == home_id(*old(cmd)),
        queued(*old(cmd)).len() == 0 ==> replay_safe(entities(*world), queued(*final(cmd))),
{
    let requests = rows::<TrySellStructure>(world);
    let mut actions: Vec<Action> = Vec::new();
    let mut i: usize = 0;
    assert(requests@.subrange(0, 0) =~= Seq::<(Entity, TrySellStructure)>::empty());
    while i < requests.len()
        invariant
            i <= requests.len(),
            harmless(actions@),
            (owned_resources@, actions@) == sales_settled(
                old(owned_resources)@,
                entities(*world),
                requests@.subrange(0, i as int),
            ),
        decreases requests.len() - i,
    {
        proof {
            assert(requests@.subrange(0, i + 1).drop_last() =~= requests@.subrange(0, i as int));
        }
        let intent = requests[i].0;
        let to_sell = requests[i].1.to_sell;
        actions.push(Action::Remove(intent));
        if exists_in(world, to_sell) {
            match component::<SellValue>(world, to_sell) {
                Some(value) => {
                    if owned_resources.receive_all_fits(&value.0) {
                        owned_resources.receive_all(&value.0);
                        actions.push(Action::Remove(to_sell));
                    }
                },
                None => {
                    actions.push(Action::Remove(to_sell));
                },
            }
        }
        i += 1;
    }
    assert(requests@.subrange(0, i as int) =~= requests@);
    let ghost asked = actions@;
    submit(cmd, actions);
    proof {
        assert(lists(requests@, entities(*world)));
        lemma_issued_harmless(entities(*world), queued(*old(cmd)), queued(*cmd), asked);
    }
}

} // verus!
