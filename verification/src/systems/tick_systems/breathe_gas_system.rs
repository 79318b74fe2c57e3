//! Stage: whoever breathes on a tile with gas is to take damage.

use crate::components::{Breathes, Position, TakeDamage};
use crate::ecs::{
    component, entities, home_id, issued, lists, queued, replay_safe, rows, submit, Action, Blueprint, Components,
    Queued,
};
use crate::systems::{harmless, lemma_issued_harmless};
use crate::grid::Pos;
use crate::resources::flow::amount_at;
use crate::resources::map::TileMap;
use legion::systems::CommandBuffer;
use legion::{Entity, World};
use vstd::prelude::*;

verus! {

/// The damage that any amount of gas does in one tick.
pub const GAS_DAMAGE: i32 = 5;

/// The damage events for the breathers that stand on gas, in the order of the rows.
pub open spec fn gas_damage(gas: Map<Pos, int>, w: Map<Entity, Components>, breathers: Seq<(Entity, Breathes)>) -> Seq<
    Action,
>
    decreases breathers.len(),
{
    if breathers.len() == 0 {
        Seq::empty()
    } else {
        let rest = gas_damage(gas, w, breathers.drop_last());
        let e = breathers.last().0;
        if w.contains_key(e) && w[e].position is Some && amount_at(gas, w[e].position->0.tile()) > 0 {
            rest.push(Action::Spawn(Blueprint::Damage(TakeDamage { target: e, amount: 5 })))
        } else {
            rest
        }
    }
}

/// What the stage does: a damage event is queued for every entity of the
/// world that breathes and stands on gas.
pub open spec fn gas_breathed(
    gas: Map<Pos, int>,
    w: Map<Entity, Components>,
    q0: Seq<Queued>,
    q1: Seq<Queued>,
) -> bool {
    exists|breathers: Seq<(Entity, Breathes)>|
        lists(breathers, w) && issued(
            q0,
            q1,
            gas_damage(gas, w, breathers),
        )
}

/// The stage: for every entity that breathes and stands on a tile with
/// gas, a damage event of five points is created.
pub fn breathe_gas(map: &TileMap, cmd: &mut CommandBuffer, world: &World)
    requires
        map.wf(),
    ensures
        gas_breathed(map.gas(), entities(*world), queued(*old(cmd)), queued(*final(cmd))),
        home_id(*final(cmd)) == home_id(*old(cmd)),
        queued(*old(cmd)).len() == 0 ==> replay_safe(entities(*world), queued(*final(cmd))),
{
    let breathers = rows::<Breathes>(world);
    let mut actions: Vec<Action> = Vec::new();
    let mut i: usize = 0;
    assert(breathers@.subrange(0, 0) =~= Seq::<(Entity, Breathes)>::empty());
    while i < breathers.len()
        invariant
            i <= breathers.len(),
            map.wf(),
            harmless(actions@),
            actions@ == gas_damage(map.gas(), entities(*world), breathers@.subrange(0, i as int)),
        decreases breathers.len() - i,
    {
        proof {
            assert(breathers@.subrange(0, i + 1).drop_last() =~= breathers@.subrange(0, i as int));
        }
        let e = breathers[i].0;
        match component::<Position>(world, e) {
            Some(pos) => {
                let (tile_x, tile_y) = pos.to_tile_coords();
                if map.get_gas_amount(tile_x, tile_y) > 0 {
                    actions.push(Action::Spawn(Blueprint::Damage(TakeDamage { target: e, amount: GAS_DAMAGE })));
                }
            },
            None => {},
        }
        i += 1;
    }
    assert(breathers@.subrange(0, i as int) =~= breathers@);
    let ghost asked = actions@;
    submit(cmd, actions);
    proof {
        assert(lists(breathers@, entities(*world)));
        lemma_issued_harmless(entities(*world), queued(*old(cmd)), queued(*cmd), asked);
    }
}

} // verus!
