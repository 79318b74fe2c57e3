//! Stage: the gas decays and spreads.

use crate::resources::flow::{ticked, GasFlow};
use crate::resources::map::{TileMap, GAS_DISPERSAL, GAS_FLUIDITY};
use crate::resources::path::Tile;
use vstd::prelude::*;

verus! {

/// The stage: the gas field advances by one step.
pub fn disperse_gas(map: &mut TileMap)
    requires
        old(map).wf(),
    ensures
        final(map).wf(),
        final(map).tiles() == old(map).tiles(),
        final(map).gas() == ticked(
            GasFlow,
            old(map).tiles(),
            Tile::Wall,
            GAS_FLUIDITY as int,
            GAS_DISPERSAL as int,
            old(map).gas(),
        ),
{
    map.tick_gas_map();
}

} // verus!
