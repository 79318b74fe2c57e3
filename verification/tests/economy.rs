use tower_defense::resources::ledger::{all_resources, OwnedResource, OwnedResources};
use tower_defense::resources::path::Tile;
use tower_defense::resources::tables::{StructureBuildDesc, StructureBuilds, TileTransformDesc, TileTransforms};
use tower_defense::resources::StructureKind;

fn ledger(wood: i64, metal: i64, money: i64) -> OwnedResources {
    OwnedResources::new()
        .with(OwnedResource::Wood, wood)
        .with(OwnedResource::Metal, metal)
        .with(OwnedResource::Money, money)
}

#[test]
fn new_ledger_has_no_entries() {
    let l = OwnedResources::new();
    for kind in all_resources() {
        assert_eq!(l.get(kind), None);
        assert_eq!(l.amount(kind), 0);
    }
    assert_eq!(l, OwnedResources::default());
}

#[test]
fn with_enters_and_replaces() {
    let l = OwnedResources::new().with(OwnedResource::Money, 50).with(OwnedResource::Wood, 20);
    assert_eq!(l.get(OwnedResource::Money), Some(50));
    assert_eq!(l.get(OwnedResource::Wood), Some(20));
    assert_eq!(l.get(OwnedResource::Metal), None);
    let l = l.with(OwnedResource::Money, 7);
    assert_eq!(l.get(OwnedResource::Money), Some(7));
}

#[test]
fn resource_names() {
    assert_eq!(OwnedResource::Metal.to_string(), "Metal");
    assert_eq!(OwnedResource::Wood.to_string(), "Wood");
    assert_eq!(OwnedResource::Money.to_string(), "Money");
}

#[test]
fn can_pay_when_every_required_kind_is_covered() {
    let l = ledger(20, 0, 50);
    let cost = OwnedResources::new().with(OwnedResource::Money, 5).with(OwnedResource::Wood, 5);
    assert!(l.can_pay(&cost));
    assert!(l.can_pay(&OwnedResources::new().with(OwnedResource::Money, 50)));
    assert!(l.can_pay(&OwnedResources::new()));
}

#[test]
fn cannot_pay_when_one_kind_is_short() {
    let l = ledger(20, 0, 50);
    assert!(!l.can_pay(&OwnedResources::new().with(OwnedResource::Money, 51)));
    assert!(!l.can_pay(&OwnedResources::new().with(OwnedResource::Money, 5).with(OwnedResource::Metal, 1)));
    assert!(!OwnedResources::new().can_pay(&OwnedResources::new().with(OwnedResource::Wood, 1)));
}

#[test]
fn zero_and_negative_costs_are_always_payable() {
    let empty = OwnedResources::new();
    assert!(empty.can_pay(&OwnedResources::new().with(OwnedResource::Wood, 0)));
    assert!(empty.can_pay(&OwnedResources::new().with(OwnedResource::Wood, -4)));
    let owing = OwnedResources::new().with(OwnedResource::Money, -10);
    assert!(owing.can_pay(&OwnedResources::new().with(OwnedResource::Money, 0)));
    assert!(!owing.can_pay(&OwnedResources::new().with(OwnedResource::Money, 1)));
}

#[test]
fn receipts_make_a_cost_payable_exactly_when_they_cover_it() {
    let cost = OwnedResources::new().with(OwnedResource::Metal, 15).with(OwnedResource::Wood, 25);
    let mut l = OwnedResources::new();
    assert!(!l.can_pay(&cost));
    l.receive(OwnedResource::Metal, 15);
    assert!(!l.can_pay(&cost));
    l.receive(OwnedResource::Wood, 24);
    assert!(!l.can_pay(&cost));
    l.receive(OwnedResource::Wood, 1);
    assert!(l.can_pay(&cost));
    l.receive(OwnedResource::Money, 3);
    assert!(l.can_pay(&cost));
    l.pay(&cost);
    assert!(!l.can_pay(&cost));
    assert_eq!(l.amount(OwnedResource::Metal), 0);
    assert_eq!(l.amount(OwnedResource::Wood), 0);
    assert_eq!(l.amount(OwnedResource::Money), 3);
}

#[test]
fn pay_subtracts_every_kind_and_enters_all() {
    let mut l = OwnedResources::new().with(OwnedResource::Money, 50).with(OwnedResource::Wood, 20);
    l.pay(&OwnedResources::new().with(OwnedResource::Money, 5).with(OwnedResource::Wood, 5));
    assert_eq!(l.get(OwnedResource::Money), Some(45));
    assert_eq!(l.get(OwnedResource::Wood), Some(15));
    assert_eq!(l.get(OwnedResource::Metal), Some(0));
}

#[test]
fn pay_never_refuses() {
    let mut l = OwnedResources::new().with(OwnedResource::Money, 3);
    l.pay(&OwnedResources::new().with(OwnedResource::Money, 10).with(OwnedResource::Metal, -2));
    assert_eq!(l.amount(OwnedResource::Money), -7);
    assert_eq!(l.amount(OwnedResource::Metal), 2);
}

#[test]
fn pay_fits_tells_when_an_amount_would_leave_the_range() {
    let l = OwnedResources::new().with(OwnedResource::Money, i64::MIN + 1);
    assert!(l.pay_fits(&OwnedResources::new().with(OwnedResource::Money, 1)));
    assert!(!l.pay_fits(&OwnedResources::new().with(OwnedResource::Money, 2)));
    let top = OwnedResources::new().with(OwnedResource::Wood, i64::MAX);
    assert!(!top.pay_fits(&OwnedResources::new().with(OwnedResource::Wood, -1)));
}

#[test]
fn receive_adds_to_one_kind() {
    let mut l = OwnedResources::new();
    l.receive(OwnedResource::Money, 5);
    l.receive(OwnedResource::Money, 5);
    assert_eq!(l.get(OwnedResource::Money), Some(10));
    assert_eq!(l.get(OwnedResource::Wood), None);
    assert!(l.receive_fits(OwnedResource::Money, i64::MAX - 10));
    assert!(!l.receive_fits(OwnedResource::Money, i64::MAX - 9));
}

#[test]
fn receive_all_adds_the_entered_kinds_only() {
    let mut l = OwnedResources::new().with(OwnedResource::Money, 1);
    l.receive_all(&OwnedResources::new().with(OwnedResource::Money, 10).with(OwnedResource::Wood, 5));
    assert_eq!(l.get(OwnedResource::Money), Some(11));
    assert_eq!(l.get(OwnedResource::Wood), Some(5));
    assert_eq!(l.get(OwnedResource::Metal), None);
    assert!(l.receive_all_fits(&OwnedResources::new().with(OwnedResource::Wood, i64::MAX - 5)));
    assert!(!l.receive_all_fits(&OwnedResources::new().with(OwnedResource::Wood, i64::MAX - 4)));
}

#[test]
fn tile_transforms_list_what_a_tile_can_become() {
    let mut t = TileTransforms::new();
    let wall_cost = OwnedResources::new().with(OwnedResource::Money, 5).with(OwnedResource::Wood, 5);
    let open_cost = OwnedResources::new().with(OwnedResource::Money, 3);
    let big = OwnedResources::new().with(OwnedResource::Metal, 15).with(OwnedResource::Wood, 25);
    t.add(TileTransformDesc { source: Tile::Open, target: Tile::Wall, cost: wall_cost });
    t.add(TileTransformDesc { source: Tile::Wall, target: Tile::Open, cost: open_cost });
    t.add(TileTransformDesc { source: Tile::Open, target: Tile::Spawn, cost: big });
    t.add(TileTransformDesc { source: Tile::Open, target: Tile::Core, cost: big });
    let mut from_open = t.list_all_for(Tile::Open);
    from_open.sort_by_key(|(tile, _)| format!("{:?}", tile));
    assert_eq!(from_open, vec![(Tile::Core, big), (Tile::Spawn, big), (Tile::Wall, wall_cost)]);
    assert_eq!(t.list_all_for(Tile::Wall), vec![(Tile::Open, open_cost)]);
    assert_eq!(t.list_all_for(Tile::Spawn), vec![]);
    assert_eq!(t.cost_of(Tile::Open, Tile::Wall), Some(wall_cost));
    assert_eq!(t.cost_of(Tile::Wall, Tile::Wall), None);
}

#[test]
fn a_second_entry_for_the_same_change_replaces_the_first() {
    let mut t = TileTransforms::new();
    let a = OwnedResources::new().with(OwnedResource::Money, 5);
    let b = OwnedResources::new().with(OwnedResource::Money, 9);
    t.add(TileTransformDesc { source: Tile::Open, target: Tile::Wall, cost: a });
    t.add(TileTransformDesc { source: Tile::Open, target: Tile::Wall, cost: b });
    assert_eq!(t.list_all_for(Tile::Open), vec![(Tile::Wall, b)]);
}

#[test]
fn structure_builds_list_what_can_stand_on_a_tile() {
    let mut s = StructureBuilds::new();
    let cost = OwnedResources::new().with(OwnedResource::Money, 20);
    assert_eq!(s.list_all_for(Tile::Open), vec![]);
    s.add(StructureBuildDesc { tile: Tile::Open, kind: StructureKind::GasTrap, cost });
    assert_eq!(s.list_all_for(Tile::Open), vec![(StructureKind::GasTrap, cost)]);
    assert_eq!(s.list_all_for(Tile::Wall), vec![]);
    assert_eq!(s.cost_of(Tile::Open, StructureKind::GasTrap), Some(cost));
    assert_eq!(s.cost_of(Tile::Core, StructureKind::GasTrap), None);
    let cheaper = OwnedResources::new().with(OwnedResource::Money, 2);
    s.add(StructureBuildDesc { tile: Tile::Open, kind: StructureKind::GasTrap, cost: cheaper });
    assert_eq!(s.list_all_for(Tile::Open), vec![(StructureKind::GasTrap, cheaper)]);
}
