//! Stage: clicks select a tile, and the selection lists the structures on it.

use crate::components::user_input::{UserClickTile, UserUnselectTile};
use crate::components::{Position, SellValue, Structure};
use crate::ecs::{
    component, entities, home_id, issued, lists, queued, replay_safe, rows, submit, Action, Components, Queued,
};
use crate::grid::Pos;
use crate::resources::{SelectedStructure, TdTileSelect};
use crate::systems::{lemma_harmless, lemma_issued_harmless, remove_all, removals};
use legion::systems::CommandBuffer;
use legion::{Entity, World};
use vstd::prelude::*;

verus! {

/// A structure with its position and, if it has one, its sell value.
pub type StructureRow = (Entity, Structure, Position, Option<SellValue>);

/// The structures that have a position, in the order of the rows, each with
/// its position and sell value.
pub open spec fn structure_rows(structs: Seq<(Entity, Structure)>, w: Map<Entity, Components>) -> Seq<
    StructureRow,
>
    decreases structs.len(),
{
    if structs.len() == 0 {
        Seq::empty()
    } else {
        let rest = structure_rows(structs.drop_last(), w);
        let e = structs.last().0;
        if w.contains_key(e) && w[e].position is Some {
            rest.push((e, structs.last().1, w[e].position->0, w[e].sell_value))
        } else {
            rest
        }
    }
}

/// What the selection shows of one structure.
pub open spec fn shown(row: StructureRow) -> SelectedStructure {
    SelectedStructure {
        entity: row.0,
        kind: row.1.0,
        sell_value: match row.3 {
            Some(SellValue(value)) => Some(value),
            None => None,
        },
    }
}

/// The structures that stand on `tile`, in the order of the rows.
pub open spec fn on_tile(rows: Seq<StructureRow>, tile: Pos) -> Seq<SelectedStructure>
    decreases rows.len(),
{
    if rows.len() == 0 {
        Seq::empty()
    } else {
        let rest = on_tile(rows.drop_last(), tile);
        if rows.last().2.tile() == tile {
            rest.push(shown(rows.last()))
        } else {
            rest
        }
    }
}

/// The tile that is selected after the clicks and the unselects: none if
/// there is an unselect; else the tile of the last click; else the tile
/// that was selected before.
pub open spec fn tile_chosen(
    before: Option<Pos>,
    clicks: Seq<(Entity, UserClickTile)>,
    unselects: Seq<(Entity, UserUnselectTile)>,
) -> Option<Pos> {
    if unselects.len() > 0 {
        None
    } else if clicks.len() > 0 {
        Some((clicks.last().1.tile_x, clicks.last().1.tile_y))
    } else {
        before
    }
}

/// The tile of a selection.
pub open spec fn tile_selected(selection: Option<(Pos, Seq<SelectedStructure>)>) -> Option<Pos> {
    match selection {
        Some((tile, structures)) => Some(tile),
        None => None,
    }
}

/// The selection of `tile`, with the structures that stand on it.
pub open spec fn selection(tile: Option<Pos>, rows: Seq<StructureRow>) -> Option<(Pos, Seq<SelectedStructure>)> {
    match tile {
        Some(t) => Some((t, on_tile(rows, t))),
        None => None,
    }
}

/// Selects the tile that the clicks and unselects ask for, lists the
/// structures on it, and asks for the removal of every click and unselect.
pub fn select_tile(
    selected_tile: &mut TdTileSelect,
    clicks: &Vec<(Entity, UserClickTile)>,
    unselects: &Vec<(Entity, UserUnselectTile)>,
    structures: &Vec<StructureRow>,
) -> (actions: Vec<Action>)
    ensures
        final(selected_tile)@ == selection(
            tile_chosen(tile_selected(old(selected_tile)@), clicks@, unselects@),
            structures@,
        ),
        actions@ == removals(clicks@) + removals(unselects@),
{
    let mut tile: Option<(i32, i32)> = match selected_tile {
        TdTileSelect::Selected { x, y, .. } => Some((*x, *y)),
        TdTileSelect::Nothing => None,
    };
    if clicks.len() > 0 {
        let click = clicks[clicks.len() - 1].1;
        tile = Some((click.tile_x, click.tile_y));
    }
    if unselects.len() > 0 {
        tile = None;
    }
    match tile {
        None => {
            *selected_tile = TdTileSelect::Nothing;
        },
        Some((x, y)) => {
            let mut found: Vec<SelectedStructure> = Vec::new();
            let mut i: usize = 0;
            assert(structures@.subrange(0, 0) =~= Seq::<StructureRow>::empty());
            while i < structures.len()
                invariant
                    i <= structures.len(),
                    found@ == on_tile(structures@.subrange(0, i as int), (x, y)),
                decreases structures.len() - i,
            {
                proof {
                    assert(structures@.subrange(0, i + 1).drop_last() =~= structures@.subrange(0, i as int));
                }
                let row = structures[i];
                let at = row.2.to_tile_coords();
                if at.0 == x && at.1 == y {
                    found.push(
                        SelectedStructure {
                            entity: row.0,
                            kind: row.1.0,
                            sell_value: match row.3 {
                                Some(value) => Some(value.0),
                                None => None,
                            },
                        },
                    );
                }
                i += 1;
            }
            assert(structures@.subrange(0, i as int) =~= structures@);
            *selected_tile = TdTileSelect::Selected { x, y, structures: found };
        },
    }
    let mut actions = remove_all(clicks);
    let mut more = remove_all(unselects);
    actions.append(&mut more);
    actions
}

/// The structures of the world that have a position, each with its
/// position and sell value.
pub fn positioned_structures(world: &World) -> (r: Vec<StructureRow>)
    ensures
        exists|structs: Seq<(Entity, Structure)>|
            lists(structs, entities(*world)) && r@ == structure_rows(structs, entities(*world)),
{
    let structs = rows::<Structure>(world);
    let mut r: Vec<StructureRow> = Vec::new();
    let mut i: usize = 0;
    assert(structs@.subrange(0, 0) =~= Seq::<(Entity, Structure)>::empty());
    while i < structs.len()
        invariant
            i <= structs.len(),
            r@ == structure_rows(structs@.subrange(0, i as int), entities(*world)),
        decreases structs.len() - i,
    {
        proof {
            assert(structs@.subrange(0, i + 1).drop_last() =~= structs@.subrange(0, i as int));
        }
        let e = structs[i].0;
        match component::<Position>(world, e) {
            Some(position) => {
                let sell_value = component::<SellValue>(world, e);
                r.push((e, structs[i].1, position, sell_value));
            },
            None => {},
        }
        i += 1;
    }
    assert(structs@.subrange(0, i as int) =~= structs@);
    assert(lists(structs@, entities(*world)));
    r
}

/// What the stage does: the selection is the tile that the clicks and
/// unselects of the world choose, with the structures of the world that
/// stand on it, and the removal of every click and unselect is queued.
pub open spec fn clicks_processed(
    selected0: Option<(Pos, Seq<SelectedStructure>)>,
    selected1: Option<(Pos, Seq<SelectedStructure>)>,
    w: Map<Entity, Components>,
    q0: Seq<Queued>,
    q1: Seq<Queued>,
) -> bool {
    exists|clicks: Seq<(Entity, UserClickTile)>, unselects: Seq<(Entity, UserUnselectTile)>, structs: Seq<
        (Entity, Structure),
    >|
        lists(clicks, w) && lists(unselects, w) && lists(
            structs,
            w,
        ) && selected1 == selection(
            tile_chosen(tile_selected(selected0), clicks, unselects),
            structure_rows(structs, w),
        ) && issued(q0, q1, removals(clicks) + removals(unselects))
}

/// The stage: the clicks and unselects of the world choose the selected
/// tile and are removed; the selection lists the structures on that tile.
pub fn process_tile_clicks(selected_tile: &mut TdTileSelect, cmd: &mut CommandBuffer, world: &World)
    ensures
        clicks_processed(
            old(selected_tile)@,
            final(selected_tile)@,
            entities(*world),
            queued(*old(cmd)),
            queued(*final(cmd)),
        ),
        home_id(*final(cmd)) == home_id(*old(cmd)),
        queued(*old(cmd)).len() == 0 ==> replay_safe(entities(*world), queued(*final(cmd))),
{
    let clicks = rows::<UserClickTile>(world);
    let unselects = rows::<UserUnselectTile>(world);
    let structures = positioned_structures(world);
    let actions = select_tile(selected_tile, &clicks, &unselects, &structures);
    submit(cmd, actions);
    proof {
        let structs = choose|structs: Seq<(Entity, Structure)>|
            lists(structs, entities(*world)) && structures@ == structure_rows(structs, entities(*world));
        assert(lists(clicks@, entities(*world)) && lists(unselects@, entities(*world)) && lists(
            structs,
            entities(*world),
        ));
        lemma_harmless(clicks@, Seq::empty(), Seq::empty());
        lemma_harmless(unselects@, removals(clicks@), removals(unselects@));
        lemma_issued_harmless(
            entities(*world),
            queued(*old(cmd)),
            queued(*cmd),
            removals(clicks@) + removals(unselects@),
        );
    }
}

} // verus!
