//! What the player can do with the selected tile: the structures to sell,
//! the structures to build and the changes of the tile, each with what it
//! costs or yields and with whether it would be carried out.

use crate::grid::Pos;
use crate::resources::ledger::{affordable, OwnedResources};
use crate::resources::path::{spawns_connected, tile_at, Tile};
use crate::resources::{SelectedStructure, StructureKind, TdTileSelect};
use crate::systems::tick_systems::GameResources;
use crate::tile_helpers::addressable;
use legion::Entity;
use vstd::prelude::*;

verus! {

/// One structure on the selected tile.
#[derive(Copy, Clone, Debug)]
pub struct StructureState {
    pub entity: Entity,
    pub kind: StructureKind,
    pub sell_value: Option<OwnedResources>,
}

/// The selected tile, if there is one, with its tile and its structures.
#[derive(Clone, Debug)]
pub enum DetailState {
    Nothing,
    Tile { x: i32, y: i32, tile: Tile, structures: Vec<StructureState> },
}

impl View for DetailState {
    type V = Option<(Pos, Tile, Seq<StructureState>)>;

    open spec fn view(&self) -> Option<(Pos, Tile, Seq<StructureState>)> {
        match *self {
            DetailState::Nothing => None,
            DetailState::Tile { x, y, tile, structures } => Some(((x, y), tile, structures@)),
        }
    }
}

/// The offer to sell a structure.
#[derive(Copy, Clone, Debug)]
pub struct SellButton {
    pub entity: Entity,
    pub kind: StructureKind,
    pub sell_value: Option<OwnedResources>,
    /// Whether the structure has a sell value, so that it can be sold.
    pub would_work: bool,
}

/// The offer to build a structure.
#[derive(Copy, Clone, Debug, PartialEq, Eq, Structural)]
pub struct BuildButton {
    pub kind: StructureKind,
    pub cost: OwnedResources,
    /// Whether the ledger can pay the cost.
    pub can_pay: bool,
    /// Whether a structure stands on the tile already.
    pub blocked: bool,
    /// Whether the structure would be built.
    pub would_work: bool,
}

/// The offer to change the tile.
#[derive(Copy, Clone, Debug, PartialEq, Eq, Structural)]
pub struct ChangeButton {
    pub target: Tile,
    pub cost: OwnedResources,
    /// Whether the ledger can pay the cost.
    pub can_pay: bool,
    /// Whether every spawn tile would keep a path to a core tile.
    pub can_path: bool,
    /// Whether the change would be carried out.
    pub would_work: bool,
}

/// Everything that the player can do with the selected tile.
#[derive(Clone, Debug)]
pub struct TileDetails {
    pub sell_structures: Vec<SellButton>,
    pub build_structures: Vec<BuildButton>,
    pub changes: Vec<ChangeButton>,
}

/// What the selection's entry for a structure becomes in the detail state.
pub open spec fn detailed(s: SelectedStructure) -> StructureState {
    StructureState { entity: s.entity, kind: s.kind, sell_value: s.sell_value }
}

/// The offer to sell `s`.
pub open spec fn sell_offer(s: StructureState) -> SellButton {
    SellButton { entity: s.entity, kind: s.kind, sell_value: s.sell_value, would_work: s.sell_value is Some }
}

/// The offer to build `kind` at `cost`.
pub open spec fn build_offer(
    resources: GameResources,
    kind: StructureKind,
    cost: OwnedResources,
    structures_present: bool,
) -> BuildButton {
    BuildButton {
        kind,
        cost,
        can_pay: affordable(resources.owned@, cost@),
        blocked: structures_present,
        would_work: affordable(resources.owned@, cost@) && !structures_present,
    }
}

/// The offer to change the tile at `p` into `target` at `cost`.
pub open spec fn change_offer(resources: GameResources, p: Pos, target: Tile, cost: OwnedResources) -> ChangeButton {
    let can_pay = affordable(resources.owned@, cost@);
    let can_path = addressable(p) && spawns_connected(resources.map.tiles().insert(p, target));
    ChangeButton { target, cost, can_pay, can_path, would_work: can_pay && can_path }
}

/// The selected tile with its tile and its structures, read from the resources.
pub fn from_ecs(resources: &GameResources) -> (state: DetailState)
    ensures
        state@ == match resources.selected@ {
            None => None::<(Pos, Tile, Seq<StructureState>)>,
            Some((p, selected)) => Some(
                (p, tile_at(resources.map.tiles(), p), Seq::new(selected.len(), |i: int| detailed(selected[i]))),
            ),
        },
{
    match &resources.selected {
        TdTileSelect::Nothing => DetailState::Nothing,
        TdTileSelect::Selected { x, y, structures: selected } => {
            let tile = resources.map.get_tile(*x, *y);
            let mut structures: Vec<StructureState> = Vec::new();
            let mut i: usize = 0;
            while i < selected.len()
                invariant
                    i <= selected.len(),
                    structures@.len() == i,
                    forall|k: int| 0 <= k < i ==> structures@[k] == detailed(selected@[k]),
                decreases selected.len() - i,
            {
                let s = selected[i];
                structures.push(StructureState { entity: s.entity, kind: s.kind, sell_value: s.sell_value });
                i += 1;
            }
            assert(structures@ =~= Seq::new(selected@.len(), |i: int| detailed(selected@[i])));
            DetailState::Tile { x: *x, y: *y, tile, structures }
        },
    }
}

/// The offer to sell a structure: it can be sold if it has a sell value.
pub fn make_structure_view(structure: &StructureState) -> (b: SellButton)
    ensures
        b == sell_offer(*structure),
{
    SellButton {
        entity: structure.entity,
        kind: structure.kind,
        sell_value: structure.sell_value,
        would_work: structure.sell_value.is_some(),
    }
}

/// The offer to build a structure: it would be built if the ledger can pay
/// for it and no structure stands on the tile.
pub fn make_build_button(
    resources: &GameResources,
    kind: StructureKind,
    costs: OwnedResources,
    structures_present: bool,
) -> (b: BuildButton)
    ensures
        b == build_offer(*resources, kind, costs, structures_present),
{
    let can_pay = resources.owned.can_pay(&costs);
    let would_work = can_pay && !structures_present;
    BuildButton { kind, cost: costs, can_pay, blocked: structures_present, would_work }
}

/// The offer to change the tile at `(x, y)`: it would be carried out if
/// the ledger can pay for it and every spawn tile keeps a path to a core tile.
pub fn make_change_button(resources: &GameResources, x: i32, y: i32, tile: Tile, costs: OwnedResources) -> (b:
    ChangeButton)
    ensures
        b == change_offer(*resources, (x, y), tile, costs),
{
    let can_pay = resources.owned.can_pay(&costs);
    let can_path = resources.map.can_set_tile(x, y, tile);
    let would_work = can_pay && can_path;
    ChangeButton { target: tile, cost: costs, can_pay, can_path, would_work }
}

/// Everything that the player can do with the tile at `(x, y)`, which is
/// `tile` and holds `structures`: one offer to sell for every structure,
/// and one offer for every structure and every change that the tables
/// enter for the tile.
pub fn tile_details(resources: &GameResources, x: i32, y: i32, tile: Tile, structures: &Vec<StructureState>) -> (d:
    TileDetails)
    requires
        resources.wf(),
    ensures
        d.sell_structures@.len() == structures@.len(),
        forall|i: int|
            0 <= i < structures@.len() ==> #[trigger] d.sell_structures@[i] == sell_offer(structures@[i]),
        forall|i: int, j: int|
            0 <= i < j < d.changes@.len() ==> (#[trigger] d.changes@[i]).target != (#[trigger] d.changes@[j]).target,
        forall|i: int|
            0 <= i < d.changes@.len() ==> resources.transforms@.contains_key((tile, (#[trigger] d.changes@[i]).target))
                && d.changes@[i] == change_offer(
                *resources,
                (x, y),
                d.changes@[i].target,
                resources.transforms@[(tile, d.changes@[i].target)],
            ),
        forall|target: Tile| #[trigger]
            resources.transforms@.contains_key((tile, target)) ==> exists|i: int|
                0 <= i < d.changes@.len() && d.changes@[i].target == target,
        forall|i: int, j: int|
            0 <= i < j < d.build_structures@.len() ==> (#[trigger] d.build_structures@[i]).kind != (
            #[trigger] d.build_structures@[j]).kind,
        forall|i: int|
            0 <= i < d.build_structures@.len() ==> resources.builds@.contains_key(
                (tile, (#[trigger] d.build_structures@[i]).kind),
            ) && d.build_structures@[i] == build_offer(
                *resources,
                d.build_structures@[i].kind,
                resources.builds@[(tile, d.build_structures@[i].kind)],
                structures@.len() > 0,
            ),
        forall|kind: StructureKind| #[trigger]
            resources.builds@.contains_key((tile, kind)) ==> exists|i: int|
                0 <= i < d.build_structures@.len() && d.build_structures@[i].kind == kind,
{
    let mut sell_structures: Vec<SellButton> = Vec::new();
    let mut i: usize = 0;
    while i < structures.len()
        invariant
            i <= structures.len(),
            sell_structures@.len() == i,
            forall|k: int| 0 <= k < i ==> #[trigger] sell_structures@[k] == sell_offer(structures@[k]),
        decreases structures.len() - i,
    {
        sell_structures.push(make_structure_view(&structures[i]));
        i += 1;
    }
    let transforms = resources.transforms.list_all_for(tile);
    let mut changes: Vec<ChangeButton> = Vec::new();
    let mut i: usize = 0;
    while i < transforms.len()
        invariant
            i <= transforms.len(),
            changes@.len() == i,
            forall|k: int|
                0 <= k < i ==> #[trigger] changes@[k] == change_offer(
                    *resources,
                    (x, y),
                    transforms@[k].0,
                    transforms@[k].1,
                ),
        decreases transforms.len() - i,
    {
        changes.push(make_change_button(resources, x, y, transforms[i].0, transforms[i].1));
        i += 1;
    }
    let builds = resources.builds.list_all_for(tile);
    let structures_present = structures.len() > 0;
    let mut build_structures: Vec<BuildButton> = Vec::new();
    let mut i: usize = 0;
    while i < builds.len()
        invariant
            i <= builds.len(),
            build_structures@.len() == i,
            forall|k: int|
                0 <= k < i ==> #[trigger] build_structures@[k] == build_offer(
                    *resources,
                    builds@[k].0,
                    builds@[k].1,
                    structures_present,
                ),
        decreases builds.len() - i,
    {
        build_structures.push(make_build_button(resources, builds[i].0, builds[i].1, structures_present));
        i += 1;
    }
    proof {
        assert forall|a: int, b: int| 0 <= a < b < changes@.len() implies (#[trigger] changes@[a]).target != (
        #[trigger] changes@[b]).target by {
            assert(transforms@[a].0 != transforms@[b].0);
        }
        assert forall|a: int| 0 <= a < changes@.len() implies resources.transforms@.contains_key(
            (tile, (#[trigger] changes@[a]).target),
        ) && changes@[a] == change_offer(
            *resources,
            (x, y),
            changes@[a].target,
            resources.transforms@[(tile, changes@[a].target)],
        ) by {
            assert(resources.transforms@.contains_key((tile, transforms@[a].0)));
        }
        assert forall|target: Tile| #[trigger] resources.transforms@.contains_key((tile, target)) implies exists|
            a: int,
        | 0 <= a < changes@.len() && changes@[a].target == target by {
            let a = choose|a: int| 0 <= a < transforms@.len() && transforms@[a].0 == target;
            assert(changes@[a].target == target);
        }
        assert forall|a: int, b: int| 0 <= a < b < build_structures@.len() implies (
        #[trigger] build_structures@[a]).kind != (#[trigger] build_structures@[b]).kind by {
            assert(builds@[a].0 != builds@[b].0);
        }
        assert forall|a: int| 0 <= a < build_structures@.len() implies resources.builds@.contains_key(
            (tile, (#[trigger] build_structures@[a]).kind),
        ) && build_structures@[a] == build_offer(
            *resources,
            build_structures@[a].kind,
            resources.builds@[(tile, build_structures@[a].kind)],
            structures@.len() > 0,
        ) by {
            assert(resources.builds@.contains_key((tile, builds@[a].0)));
        }
        assert forall|kind: StructureKind| #[trigger] resources.builds@.contains_key((tile, kind)) implies exists|
            a: int,
        | 0 <= a < build_structures@.len() && build_structures@[a].kind == kind by {
            let a = choose|a: int| 0 <= a < builds@.len() && builds@[a].0 == kind;
            assert(build_structures@[a].kind == kind);
        }
    }
    TileDetails { sell_structures, build_structures, changes }
}

} // verus!
