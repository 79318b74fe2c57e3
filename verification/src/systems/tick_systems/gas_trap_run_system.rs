//! Stage: every gas trap gives off gas on its tile.

use crate::components::{PoisonGasTrap, Position};
use crate::ecs::{component, entities, lists, rows, Components};
use crate::grid::Pos;
use crate::resources::flow::{amount_at, clamped};
use crate::resources::map::TileMap;
use legion::{Entity, World};
use vstd::prelude::*;

verus! {

/// The gas after the trap `row` has given off its amount, if it has a position.
pub open spec fn trap_run(gas: Map<Pos, int>, w: Map<Entity, Components>, row: (Entity, PoisonGasTrap)) -> Map<
    Pos,
    int,
> {
    if w.contains_key(row.0) && w[row.0].position is Some {
        let tile = w[row.0].position->0.tile();
        gas.insert(tile, clamped(amount_at(gas, tile) + row.1.amount))
    } else {
        gas
    }
}

/// The gas after the traps have given off their amounts, in order.
pub open spec fn traps_run(gas: Map<Pos, int>, w: Map<Entity, Components>, traps: Seq<(Entity, PoisonGasTrap)>) -> Map<
    Pos,
    int,
>
    decreases traps.len(),
{
    if traps.len() == 0 {
        gas
    } else {
        trap_run(traps_run(gas, w, traps.drop_last()), w, traps.last())
    }
}

/// What the stage does: the gas is that after the traps of the world have
/// given off their amounts, in some order.
pub open spec fn traps_made_gas(
    gas0: Map<Pos, int>,
    gas1: Map<Pos, int>,
    w: Map<Entity, Components>,
) -> bool {
    exists|traps: Seq<(Entity, PoisonGasTrap)>|
        lists(traps, w) && gas1 == traps_run(gas0, w, traps)
}

/// The stage: every gas trap that has a position adds its amount to the
/// gas on the tile it stands on.
pub fn gas_traps_make_gas(map: &mut TileMap, world: &World)
    requires
        old(map).wf(),
    ensures
        final(map).wf(),
        final(map).tiles() == old(map).tiles(),
        traps_made_gas(old(map).gas(), final(map).gas(), entities(*world)),

{
    let traps = rows::<PoisonGasTrap>(world);
    let mut i: usize = 0;
    assert(traps@.subrange(0, 0) =~= Seq::<(Entity, PoisonGasTrap)>::empty());
    while i < traps.len()
        invariant
            i <= traps.len(),
            map.wf(),
            map.tiles() == old(map).tiles(),
            map.gas() == traps_run(old(map).gas(), entities(*world), traps@.subrange(0, i as int)),
        decreases traps.len() - i,
    {
        proof {
            assert(traps@.subrange(0, i + 1).drop_last() =~= traps@.subrange(0, i as int));
        }
        match component::<Position>(world, traps[i].0) {
            Some(pos) => {
                let (tile_x, tile_y) = pos.to_tile_coords();
                map.add_gas_to_tile(tile_x, tile_y, traps[i].1.amount);
            },
            None => {},
        }
        i += 1;
    }
    assert(traps@.subrange(0, i as int) =~= traps@);
    assert(lists(traps@, entities(*world)));
}

} // verus!
