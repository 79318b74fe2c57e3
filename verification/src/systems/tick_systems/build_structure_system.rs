//! Stage: the requests to build a structure are checked and carried out.

use crate::components::user_input::TryBuildStructure;
use crate::components::{PoisonGasTrap, Position, RenderBitmap, Renderable, SellValue, Structure};
use crate::ecs::{
    entities, home_id, issued, lists, queued, replay_safe, rows, submit, Action, Blueprint, Components, Queued,
};
use crate::systems::{harmless, lemma_issued_harmless};
use crate::grid::Pos;
use crate::resources::ledger::{affordable, in_range, paid, OwnedResource, OwnedResources};
use crate::resources::map::TileMap;
use crate::resources::path::{tile_at, Tile};
use crate::resources::tables::StructureBuilds;
use crate::resources::StructureKind;
use crate::systems::tick_systems::user_click_system::{positioned_structures, structure_rows, StructureRow};
use crate::tile_helpers::{addressable, is_addressable};
use legion::systems::CommandBuffer;
use legion::{Entity, World};
use vstd::prelude::*;

verus! {

/// The ledger, the tiles that hold a structure, and the actions asked for,
/// as a request finds them.
pub type Site = (Map<OwnedResource, int>, Seq<Pos>, Seq<Action>);

/// What a structure of `kind` on the tile `p` is made of. A gas trap stands
/// at the centre of its tile, gives off ten units of gas per tick, is drawn
/// with its bitmap from the tile's corner, and sells for ten money and five
/// wood.
pub open spec fn structure_blueprint(kind: StructureKind, p: Pos) -> Blueprint {
    match kind {
        StructureKind::GasTrap => Blueprint::GasTrap {
            position: Position { x: (p.0 * 32 + 16) as i32, y: (p.1 * 32 + 16) as i32 },
            structure: Structure(StructureKind::GasTrap),
            gas_trap: PoisonGasTrap { amount: 10 },
            renderable: Renderable::Bitmap { dx: -16i32, dy: -16i32, bitmap: RenderBitmap::GasTrap },
            sell_value: SellValue(
                OwnedResources::spec_new().spec_with(OwnedResource::Money, 10).spec_with(OwnedResource::Wood, 5),
            ),
        },
    }
}

/// The tiles of the structures, in the order of the rows.
pub open spec fn tiles_of(rows: Seq<StructureRow>) -> Seq<Pos> {
    Seq::new(rows.len(), |i: int| rows[i].2.tile())
}

/// Whether a request is carried out: the table enters the structure for
/// the tile that is there, the ledger can pay the cost that the table gives
/// (the cost attached to the request is not read), the amounts that remain
/// fit the machine, the coordinate is addressable, and no structure stands
/// on the tile, nor is one to be built there by an earlier request.
pub open spec fn build_allowed(
    site: Site,
    tiles: Map<Pos, Tile>,
    table: Map<(Tile, StructureKind), OwnedResources>,
    req: TryBuildStructure,
) -> bool {
    let p = (req.x, req.y);
    let entry = (tile_at(tiles, p), req.desired);
    &&& table.contains_key(entry)
    &&& affordable(site.0, table[entry]@)
    &&& in_range(paid(site.0, table[entry]@))
    &&& addressable(p)
    &&& !site.1.contains(p)
}

/// The site after one request. The request itself is always removed.
pub open spec fn build_settled(
    site: Site,
    tiles: Map<Pos, Tile>,
    table: Map<(Tile, StructureKind), OwnedResources>,
    intent: Entity,
    req: TryBuildStructure,
) -> Site {
    let p = (req.x, req.y);
    let entry = (tile_at(tiles, p), req.desired);
    let asked = site.2.push(Action::Remove(intent));
    if build_allowed(site, tiles, table, req) {
        (
            paid(site.0, table[entry]@),
            site.1.push(p),
            asked.push(Action::Spawn(structure_blueprint(req.desired, p))),
        )
    } else {
        (site.0, site.1, asked)
    }
}

/// The site after the requests, taken in order.
pub open spec fn builds_settled(
    site: Site,
    tiles: Map<Pos, Tile>,
    table: Map<(Tile, StructureKind), OwnedResources>,
    reqs: Seq<(Entity, TryBuildStructure)>,
) -> Site
    decreases reqs.len(),
{
    if reqs.len() == 0 {
        site
    } else {
        build_settled(builds_settled(site, tiles, table, reqs.drop_last()), tiles, table, reqs.last().0, reqs.last().1)
    }
}

/// What a gas trap on the tile `(tile_x, tile_y)` is made of.
pub fn build_gas_trap(tile_x: i32, tile_y: i32) -> (b: Blueprint)
    requires
        addressable((tile_x, tile_y)),
    ensures
        b == structure_blueprint(StructureKind::GasTrap, (tile_x, tile_y)),
{
    Blueprint::GasTrap {
        position: Position::at_tile_center(tile_x, tile_y),
        structure: Structure(StructureKind::GasTrap),
        gas_trap: PoisonGasTrap { amount: 10 },
        renderable: Renderable::Bitmap {
            dx: -crate::tile_helpers::TILE_WIDTH_PIXELS / 2,
            dy: -crate::tile_helpers::TILE_HEIGHT_PIXELS / 2,
            bitmap: RenderBitmap::GasTrap,
        },
        sell_value: SellValue(OwnedResources::new().with(OwnedResource::Money, 10).with(OwnedResource::Wood, 5)),
    }
}

/// Whether `p` is a member of `list`.
fn holds(list: &Vec<Pos>, p: Pos) -> (r: bool)
    ensures
        r == list@.contains(p),
{
    let mut i: usize = 0;
    while i < list.len()
        invariant
            i <= list.len(),
            forall|k: int| 0 <= k < i ==> list@[k] != p,
        decreases list.len() - i,
    {
        if list[i].0 == p.0 && list[i].1 == p.1 {
            return true;
        }
        i += 1;
    }
    false
}

/// Carries out, in order, every request that is allowed, and asks for the
/// removal of every request and the creation of every structure built.
pub fn plan_builds(
    owned: &mut OwnedResources,
    map: &TileMap,
    builds: &StructureBuilds,
    requests: &Vec<(Entity, TryBuildStructure)>,
    structures: &Vec<StructureRow>,
) -> (actions: Vec<Action>)
    requires
        builds.wf(),
    ensures
        harmless(actions@),
        (final(owned)@, actions@) == ({
            let site = builds_settled(
                (old(owned)@, tiles_of(structures@), Seq::empty()),
                map.tiles(),
                builds@,
                requests@,
            );
            (site.0, site.2)
        }),
{
    let mut taken: Vec<Pos> = Vec::new();
    let mut k: usize = 0;
    while k < structures.len()
        invariant
            k <= structures.len(),
            taken@.len() == k,
            forall|j: int| 0 <= j < k ==> taken@[j] == structures@[j].2.tile(),
        decreases structures.len() - k,
    {
        taken.push(structures[k].2.to_tile_coords());
        k += 1;
    }
    assert(taken@ =~= tiles_of(structures@));
    let mut actions: Vec<Action> = Vec::new();
    let mut i: usize = 0;
    assert(requests@.subrange(0, 0) =~= Seq::<(Entity, TryBuildStructure)>::empty());
    while i < requests.len()
        invariant
            i <= requests.len(),
            builds.wf(),
            harmless(actions@),
            (owned@, taken@, actions@) == builds_settled(
                (old(owned)@, tiles_of(structures@), Seq::empty()),
                map.tiles(),
                builds@,
                requests@.subrange(0, i as int),
            ),
        decreases requests.len() - i,
    {
        proof {
            assert(requests@.subrange(0, i + 1).drop_last() =~= requests@.subrange(0, i as int));
        }
        let intent = requests[i].0;
        let req = requests[i].1;
        actions.push(Action::Remove(intent));
        let tile = map.get_tile(req.x, req.y);
        match builds.cost_of(tile, req.desired) {
            Some(cost) => {
                if owned.can_pay(&cost) && owned.pay_fits(&cost) && is_addressable(req.x, req.y) && !holds(
                    &taken,
                    (req.x, req.y),
                ) {
                    owned.pay(&cost);
                    taken.push((req.x, req.y));
                    match req.desired {
                        StructureKind::GasTrap => {
                            actions.push(Action::Spawn(build_gas_trap(req.x, req.y)));
                        },
                    }
                }
            },
            None => {},
        }
        i += 1;
    }
    assert(requests@.subrange(0, i as int) =~= requests@);
    actions
}

/// What the stage does: the ledger is that after the requests of the
/// world, taken in some order, and the removal of every request and the
/// creation of every structure built are queued.
pub open spec fn builds_processed(
    ledger0: Map<OwnedResource, int>,
    ledger1: Map<OwnedResource, int>,
    tiles: Map<Pos, Tile>,
    table: Map<(Tile, StructureKind), OwnedResources>,
    w: Map<Entity, Components>,
    q0: Seq<Queued>,
    q1: Seq<Queued>,
) -> bool {
    exists|requests: Seq<(Entity, TryBuildStructure)>, structs: Seq<(Entity, Structure)>|
        lists(requests, w) && lists(structs, w) && ({
            let site = builds_settled(
                (
                    ledger0,
                    tiles_of(structure_rows(structs, w)),
                    Seq::empty(),
                ),
                tiles,
                table,
                requests,
            );
            ledger1 == site.0 && issued(q0, q1, site.2)
        })
}

/// The stage: every request to build is checked against the table, the
/// ledger and the structures that stand already, carried out if it passes,
/// and removed either way.
pub fn build_structures(
    owned_resources: &mut OwnedResources,
    map: &TileMap,
    builds: &StructureBuilds,
    cmd: &mut CommandBuffer,
    world: &World,
)
    requires
        builds.wf(),
    ensures
        builds_processed(
            old(owned_resources)@,
            final(owned_resources)@,
            map.tiles(),
            builds@,
            entities(*world),
            queued(*old(cmd)),
            queued(*final(cmd)),
        ),
        home_id(*final(cmd)) == home_id(*old(cmd)),
        queued(*old(cmd)).len() == 0 ==> replay_safe(entities(*world), queued(*final(cmd))),
{
    let requests = rows::<TryBuildStructure>(world);
    let structures = positioned_structures(world);
    let actions = plan_builds(owned_resources, map, builds, &requests, &structures);
    let ghost asked = actions@;
    submit(cmd, actions);
    proof {
        lemma_issued_harmless(entities(*world), queued(*old(cmd)), queued(*cmd), asked);
        let structs = choose|structs: Seq<(Entity, Structure)>|
            lists(structs, entities(*world)) && structures@ == structure_rows(structs, entities(*world));
        assert(lists(requests@, entities(*world)) && lists(structs, entities(*world)));
    }
}

} // verus!
