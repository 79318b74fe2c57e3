//! Stage: the requests to change a tile are checked and carried out.

use crate::components::user_input::TryChangeTileType;
use crate::ecs::{
    entities, home_id, issued, lists, queued, replay_safe, rows, submit, Action, Components, Queued,
};
use crate::grid::Pos;
use crate::resources::ledger::{affordable, in_range, paid, OwnedResource, OwnedResources};
use crate::resources::map::TileMap;
use crate::resources::path::{spawns_connected, tile_at, Tile};
use crate::resources::tables::TileTransforms;
use crate::systems::{lemma_harmless, lemma_issued_harmless, remove_all, removals};
use crate::tile_helpers::addressable;
use legion::systems::CommandBuffer;
use legion::{Entity, World};
use vstd::prelude::*;

verus! {

/// The tiles and the ledger, as a request finds them.
pub type Holdings = (Map<Pos, Tile>, Map<OwnedResource, int>);

/// Whether a request is carried out: the table enters the change from the
/// tile that is there to the desired one, the ledger can pay the cost that
/// the table gives (the cost attached to the request is not read), the
/// amounts that remain fit the machine, the coordinate is addressable, and
/// every spawn tile keeps a path to a core tile.
pub open spec fn change_allowed(
    held: Holdings,
    table: Map<(Tile, Tile), OwnedResources>,
    req: TryChangeTileType,
) -> bool {
    let p = (req.x, req.y);
    let change = (tile_at(held.0, p), req.desired);
    &&& table.contains_key(change)
    &&& affordable(held.1, table[change]@)
    &&& in_range(paid(held.1, table[change]@))
    &&& addressable(p)
    &&& spawns_connected(held.0.insert(p, req.desired))
}

/// The tiles and the ledger after one request.
pub open spec fn change_applied(
    held: Holdings,
    table: Map<(Tile, Tile), OwnedResources>,
    req: TryChangeTileType,
) -> Holdings {
    let p = (req.x, req.y);
    let change = (tile_at(held.0, p), req.desired);
    if change_allowed(held, table, req) {
        (held.0.insert(p, req.desired), paid(held.1, table[change]@))
    } else {
        held
    }
}

/// The tiles and the ledger after the requests, taken in order.
pub open spec fn changes_applied(
    held: Holdings,
    table: Map<(Tile, Tile), OwnedResources>,
    reqs: Seq<(Entity, TryChangeTileType)>,
) -> Holdings
    decreases reqs.len(),
{
    if reqs.len() == 0 {
        held
    } else {
        change_applied(changes_applied(held, table, reqs.drop_last()), table, reqs.last().1)
    }
}

/// Carries out, in order, every request that is allowed, and asks for the
/// removal of every request.
pub fn change_tiles(
    map: &mut TileMap,
    owned: &mut OwnedResources,
    transforms: &TileTransforms,
    requests: &Vec<(Entity, TryChangeTileType)>,
) -> (actions: Vec<Action>)
    requires
        old(map).wf(),
        transforms.wf(),
    ensures
        final(map).wf(),
        final(map).gas() == old(map).gas(),
        (final(map).tiles(), final(owned)@) == changes_applied(
            (old(map).tiles(), old(owned)@),
            transforms@,
            requests@,
        ),
        actions@ == removals(requests@),
{
    let mut i: usize = 0;
    assert(requests@.subrange(0, 0) =~= Seq::<(Entity, TryChangeTileType)>::empty());
    while i < requests.len()
        invariant
            i <= requests.len(),
            map.wf(),
            transforms.wf(),
            map.gas() == old(map).gas(),
            (map.tiles(), owned@) == changes_applied(
                (old(map).tiles(), old(owned)@),
                transforms@,
                requests@.subrange(0, i as int),
            ),
        decreases requests.len() - i,
    {
        proof {
            assert(requests@.subrange(0, i + 1).drop_last() =~= requests@.subrange(0, i as int));
        }
        let req = requests[i].1;
        let from = map.get_tile(req.x, req.y);
        match transforms.cost_of(from, req.desired) {
            Some(cost) => {
                if owned.can_pay(&cost) && owned.pay_fits(&cost) && map.can_set_tile(req.x, req.y, req.desired) {
                    owned.pay(&cost);
                    map.set_tile(req.x, req.y, req.desired);
                }
            },
            None => {},
        }
        i += 1;
    }
    assert(requests@.subrange(0, i as int) =~= requests@);
    remove_all(requests)
}

/// What the stage does: the tiles and the ledger are those after the
/// requests of the world, taken in some order, and the removal of each
/// request is queued.
pub open spec fn tile_changes_processed(
    held0: Holdings,
    held1: Holdings,
    table: Map<(Tile, Tile), OwnedResources>,
    w: Map<Entity, Components>,
    q0: Seq<Queued>,
    q1: Seq<Queued>,
) -> bool {
    exists|requests: Seq<(Entity, TryChangeTileType)>|
        lists(requests, w) && held1 == changes_applied(
            held0,
            table,
            requests,
        ) && issued(q0, q1, removals(requests))
}

/// The stage: every request to change a tile is checked against the table,
/// the ledger and the paths, carried out if it passes, and removed either
/// way.
pub fn process_tile_changes(
    map: &mut TileMap,
    owned_resources: &mut OwnedResources,
    transforms: &TileTransforms,
    cmd: &mut CommandBuffer,
    world: &World,
)
    requires
        old(map).wf(),
        transforms.wf(),
    ensures
        final(map).wf(),
        final(map).gas() == old(map).gas(),
        tile_changes_processed(
            (old(map).tiles(), old(owned_resources)@),
            (final(map).tiles(), final(owned_resources)@),
            transforms@,
            entities(*world),
            queued(*old(cmd)),
            queued(*final(cmd)),
        ),
        home_id(*final(cmd)) == home_id(*old(cmd)),
        queued(*old(cmd)).len() == 0 ==> replay_safe(entities(*world), queued(*final(cmd))),
{
    let requests = rows::<TryChangeTileType>(world);
    let actions = change_tiles(map, owned_resources, transforms, &requests);
    submit(cmd, actions);
    proof {
        assert(lists(requests@, entities(*world)));
        lemma_harmless(requests@, Seq::empty(), Seq::empty());
        lemma_issued_harmless(entities(*world), queued(*old(cmd)), queued(*cmd), removals(requests@));
    }
}

} // verus!
