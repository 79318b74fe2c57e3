use tower_defense::grid::Grid;
use tower_defense::resources::flow::{FlowMap, GasFlow, PassableChecker};
use tower_defense::resources::map::TileMap;
use tower_defense::resources::path::Tile;

fn open_row(from: i32, to: i32) -> Grid<Tile> {
    let mut tiles: Grid<Tile> = Grid::new();
    for x in from..=to {
        tiles.insert(x, 0, Tile::Open);
    }
    tiles
}

fn total(field: &FlowMap<GasFlow>, from: i32, to: i32) -> i64 {
    let mut sum = 0i64;
    for x in from..=to {
        for y in from..=to {
            sum += field.get_amount(x, y) as i64;
        }
    }
    sum
}

#[test]
fn gas_enters_open_tiles_only() {
    assert!(GasFlow.is_passable(Tile::Open));
    assert!(!GasFlow.is_passable(Tile::Wall));
    assert!(!GasFlow.is_passable(Tile::Spawn));
    assert!(!GasFlow.is_passable(Tile::Core));
}

#[test]
fn absent_amount_is_zero() {
    let field = FlowMap::new(GasFlow, 6, 1);
    assert_eq!(field.get_amount(3, 4), 0);
}

#[test]
fn add_amount_adds() {
    let mut field = FlowMap::new(GasFlow, 6, 1);
    field.add_amount(1, 2, 10);
    field.add_amount(1, 2, 5);
    assert_eq!(field.get_amount(1, 2), 15);
    assert_eq!(field.get_amount(2, 1), 0);
}

#[test]
fn add_amount_saturates_and_never_goes_below_zero() {
    let mut field = FlowMap::new(GasFlow, 6, 1);
    field.add_amount(0, 0, i32::MAX);
    field.add_amount(0, 0, 7);
    assert_eq!(field.get_amount(0, 0), i32::MAX);
    field.add_amount(1, 0, 4);
    field.add_amount(1, 0, -9);
    assert_eq!(field.get_amount(1, 0), 0);
    field.add_amount(2, 0, i32::MIN);
    assert_eq!(field.get_amount(2, 0), 0);
}

#[test]
fn disperse_lowers_every_amount_and_floors_at_zero() {
    let mut field = FlowMap::new(GasFlow, 6, 3);
    field.add_amount(0, 0, 10);
    field.add_amount(4, 4, 2);
    field.add_amount(5, 5, 3);
    field.disperse();
    assert_eq!(field.get_amount(0, 0), 7);
    assert_eq!(field.get_amount(4, 4), 0);
    assert_eq!(field.get_amount(5, 5), 0);
}

#[test]
fn without_flow_a_tile_empties_within_the_rounded_up_quotient() {
    // amount 10, decay 3: 7, 4, 1, 0
    let tiles = open_row(-3, 3);
    let mut field = FlowMap::new(GasFlow, 0, 3);
    field.add_amount(0, 0, 10);
    let expected = [7, 4, 1, 0, 0];
    let mut last = 10;
    for want in expected.iter() {
        field.tick(&tiles, Tile::Wall);
        assert_eq!(field.get_amount(0, 0), *want);
        assert_eq!(total(&field, -4, 4), *want as i64);
        assert!(field.get_amount(0, 0) <= last);
        last = field.get_amount(0, 0);
    }
}

#[test]
fn flow_moves_units_to_the_only_open_neighbor() {
    // ten units on (0, 0), whose only open neighbour is (1, 0): decay
    // leaves nine; four units move until one more would no longer leave
    // the neighbour below the source
    let tiles = open_row(0, 1);
    let mut field = FlowMap::new(GasFlow, 6, 1);
    field.add_amount(0, 0, 10);
    field.tick(&tiles, Tile::Wall);
    assert_eq!(field.get_amount(0, 0), 5);
    assert_eq!(field.get_amount(1, 0), 4);
    assert_eq!(total(&field, -3, 3), 9);
}

#[test]
fn flow_is_bounded_by_the_fluidity() {
    let tiles = open_row(0, 1);
    let mut field = FlowMap::new(GasFlow, 2, 0);
    field.add_amount(0, 0, 100);
    field.flow(&tiles, Tile::Wall);
    assert_eq!(field.get_amount(0, 0), 98);
    assert_eq!(field.get_amount(1, 0), 2);
}

#[test]
fn flow_fills_the_least_filled_neighbor_first() {
    // west holds five, east nothing: five units go east, and the sixth
    // goes west, the first of the two equals
    let tiles = open_row(-1, 1);
    let mut field = FlowMap::new(GasFlow, 6, 0);
    field.add_amount(-1, 0, 5);
    field.add_amount(0, 0, 100);
    field.add_amount(1, 0, 0);
    field.pour_from(&tiles, Tile::Wall, 0, 0);
    assert_eq!(field.get_amount(-1, 0), 6);
    assert_eq!(field.get_amount(0, 0), 94);
    assert_eq!(field.get_amount(1, 0), 5);
}

#[test]
fn flow_spreads_evenly_over_equal_neighbors() {
    let mut tiles: Grid<Tile> = Grid::new();
    for (x, y) in [(0, 0), (-1, 0), (1, 0), (0, -1), (0, 1)] {
        tiles.insert(x, y, Tile::Open);
    }
    let mut field = FlowMap::new(GasFlow, 6, 0);
    field.add_amount(0, 0, 50);
    field.pour_from(&tiles, Tile::Wall, 0, 0);
    // west, east, south, north, then west and east again
    assert_eq!(field.get_amount(-1, 0), 2);
    assert_eq!(field.get_amount(1, 0), 2);
    assert_eq!(field.get_amount(0, -1), 1);
    assert_eq!(field.get_amount(0, 1), 1);
    assert_eq!(field.get_amount(0, 0), 44);
}

#[test]
fn gas_does_not_enter_walls_spawns_or_cores() {
    let mut tiles: Grid<Tile> = Grid::new();
    tiles.insert(0, 0, Tile::Open);
    tiles.insert(1, 0, Tile::Spawn);
    tiles.insert(-1, 0, Tile::Core);
    tiles.insert(0, 1, Tile::Wall);
    let mut field = FlowMap::new(GasFlow, 6, 0);
    field.add_amount(0, 0, 20);
    field.tick(&tiles, Tile::Wall);
    assert_eq!(field.get_amount(0, 0), 20);
    assert_eq!(total(&field, -3, 3), 20);
}

#[test]
fn a_single_unit_does_not_flow() {
    let tiles = open_row(0, 1);
    let mut field = FlowMap::new(GasFlow, 6, 0);
    field.add_amount(0, 0, 1);
    field.tick(&tiles, Tile::Wall);
    assert_eq!(field.get_amount(0, 0), 1);
    assert_eq!(field.get_amount(1, 0), 0);
}

#[test]
fn later_tiles_pass_on_what_they_received_in_the_same_tick() {
    // (0, 0) comes before (1, 0) in ascending order, so what (1, 0)
    // receives it shares with (2, 0) in the same step
    let tiles = open_row(0, 2);
    let mut field = FlowMap::new(GasFlow, 6, 0);
    field.add_amount(0, 0, 20);
    field.tick(&tiles, Tile::Wall);
    assert_eq!(field.get_amount(0, 0), 14);
    assert_eq!(field.get_amount(1, 0), 3);
    assert_eq!(field.get_amount(2, 0), 3);
}

#[test]
fn total_gas_never_grows() {
    let mut map = TileMap::new();
    for x in 0..6 {
        for y in 0..3 {
            map.set_tile(x, y, Tile::Open);
        }
    }
    map.add_gas_to_tile(2, 1, 40);
    let sum = |map: &TileMap| -> i64 {
        let mut s = 0i64;
        for x in -2..9 {
            for y in -2..6 {
                s += map.get_gas_amount(x, y) as i64;
            }
        }
        s
    };
    let mut last = sum(&map);
    assert_eq!(last, 40);
    for _ in 0..60 {
        map.tick_gas_map();
        let now = sum(&map);
        assert!(now <= last);
        last = now;
    }
    assert_eq!(last, 0);
}

#[test]
fn map_gas_uses_fluidity_six_and_dispersal_one() {
    let mut map = TileMap::new();
    map.set_tile(0, 0, Tile::Open);
    map.set_tile(1, 0, Tile::Open);
    map.add_gas_to_tile(0, 0, 10);
    assert_eq!(map.get_gas_amount(0, 0), 10);
    map.tick_gas_map();
    assert_eq!(map.get_gas_amount(0, 0), 5);
    assert_eq!(map.get_gas_amount(1, 0), 4);
    assert_eq!(map.get_tile(0, 0), Tile::Open);
}

#[test]
fn cleanup_prunes_zero_entries() {
    let mut field = FlowMap::new(GasFlow, 6, 1);
    field.add_amount(0, 0, 0);
    field.add_amount(1, 0, 3);
    assert_eq!(field.len(), 2);
    field.cleanup();
    assert_eq!(field.len(), 1);
    assert_eq!(field.get_amount(1, 0), 3);
}
