use tower_defense::resources::map::TileMap;
use tower_defense::resources::path::{neighbors, parse_tile, Tile};

fn corridor(n: i32) -> TileMap {
    let mut map = TileMap::new();
    map.set_tile(0, 0, Tile::Core);
    for x in 1..n {
        map.set_tile(x, 0, Tile::Open);
    }
    map.set_tile(n, 0, Tile::Spawn);
    map
}

#[test]
fn unset_tiles_are_walls() {
    let map = TileMap::new();
    assert_eq!(map.get_tile(0, 0), Tile::Wall);
    assert_eq!(map.get_tile(-7, 1234), Tile::Wall);
}

#[test]
fn set_tile_is_read_back() {
    let mut map = TileMap::new();
    map.set_tile(3, -4, Tile::Open);
    map.set_tile(3, -5, Tile::Spawn);
    map.set_tile(3, -4, Tile::Core);
    assert_eq!(map.get_tile(3, -4), Tile::Core);
    assert_eq!(map.get_tile(3, -5), Tile::Spawn);
    assert_eq!(map.get_tile(3, -6), Tile::Wall);
}

#[test]
fn passable_tiles() {
    assert!(Tile::Open.is_passable());
    assert!(Tile::Spawn.is_passable());
    assert!(Tile::Core.is_passable());
    assert!(!Tile::Wall.is_passable());
}

#[test]
fn neighbors_come_west_east_south_north() {
    assert_eq!(neighbors(2, 5), vec![(1, 5), (3, 5), (2, 4), (2, 6)]);
}

#[test]
fn neighbors_stop_at_the_edge_of_the_grid() {
    assert_eq!(neighbors(i32::MIN, i32::MAX), vec![(i32::MIN + 1, i32::MAX), (i32::MIN, i32::MAX - 1)]);
}

#[test]
fn corridor_cost_is_its_length() {
    for n in 1..8 {
        let mut map = corridor(n);
        assert_eq!(map.path_cost(n, 0), Some(n as usize));
        assert_eq!(map.path_cost(0, 0), Some(0));
        for x in 0..=n {
            assert_eq!(map.path_cost(x, 0), Some(x as usize));
        }
    }
}

#[test]
fn walls_beside_the_corridor_have_a_cost_and_what_lies_behind_has_none() {
    let mut map = corridor(3);
    assert_eq!(map.path_cost(1, 1), Some(2));
    assert_eq!(map.path_cost(1, 2), None);
    assert_eq!(map.path_cost(4, 0), Some(4));
    assert_eq!(map.path_cost(5, 0), None);
}

#[test]
fn no_core_no_cost() {
    let mut map = TileMap::new();
    map.set_tile(0, 0, Tile::Spawn);
    map.set_tile(1, 0, Tile::Open);
    assert_eq!(map.path_cost(0, 0), None);
    assert_eq!(map.path_cost(1, 0), None);
}

#[test]
fn two_cores_give_the_nearer_distance() {
    let mut map = TileMap::new();
    map.set_tile(0, 0, Tile::Core);
    map.set_tile(6, 0, Tile::Core);
    for x in 1..6 {
        map.set_tile(x, 0, Tile::Open);
    }
    assert_eq!(map.path_cost(1, 0), Some(1));
    assert_eq!(map.path_cost(2, 0), Some(2));
    assert_eq!(map.path_cost(3, 0), Some(3));
    assert_eq!(map.path_cost(4, 0), Some(2));
    assert_eq!(map.path_cost(5, 0), Some(1));
}

#[test]
fn path_field_follows_a_tile_change() {
    let mut map = corridor(4);
    assert_eq!(map.path_cost(4, 0), Some(4));
    map.set_tile(2, 0, Tile::Wall);
    assert_eq!(map.path_cost(4, 0), None);
    assert_eq!(map.path_cost(2, 0), Some(2));
    map.set_tile(1, 1, Tile::Open);
    map.set_tile(2, 1, Tile::Open);
    map.set_tile(3, 1, Tile::Open);
    assert_eq!(map.path_cost(4, 0), Some(6));
}

#[test]
fn only_corridor_cannot_be_walled() {
    let map = corridor(3);
    assert!(!map.can_set_tile(1, 0, Tile::Wall));
    assert!(!map.can_set_tile(2, 0, Tile::Wall));
    assert_eq!(map.get_tile(1, 0), Tile::Open);
}

#[test]
fn tile_with_an_alternate_route_can_be_walled() {
    let mut map = corridor(3);
    map.set_tile(1, 1, Tile::Open);
    map.set_tile(2, 1, Tile::Open);
    map.set_tile(3, 1, Tile::Open);
    map.set_tile(0, 1, Tile::Open);
    assert!(map.can_set_tile(1, 0, Tile::Wall));
    assert!(map.can_set_tile(2, 0, Tile::Wall));
    assert!(map.can_set_tile(2, 1, Tile::Wall));
    assert!(map.can_set_tile(9, 9, Tile::Wall));
}

#[test]
fn can_set_tile_leaves_the_map_alone() {
    let mut map = corridor(3);
    assert!(!map.can_set_tile(1, 0, Tile::Wall));
    assert_eq!(map.get_tile(1, 0), Tile::Open);
    assert_eq!(map.path_cost(3, 0), Some(3));
}

#[test]
fn new_spawn_must_be_connected() {
    let map = corridor(3);
    assert!(!map.can_set_tile(7, 7, Tile::Spawn));
    assert!(map.can_set_tile(3, 1, Tile::Spawn));
}

#[test]
fn tile_beyond_the_pixel_range_cannot_be_set() {
    let map = corridor(3);
    assert!(!map.can_set_tile(67108864, 0, Tile::Open));
    assert!(!map.can_set_tile(0, -67108865, Tile::Open));
    assert!(map.can_set_tile(67108863, -67108864, Tile::Open));
}

#[test]
fn greedy_descent_reaches_the_core_and_stays() {
    let mut map = corridor(5);
    let mut at = (5, 0);
    let mut cost = map.path_cost(at.0, at.1).unwrap();
    assert_eq!(cost, 5);
    while cost > 0 {
        let next = map.move_toward_spawn(at.0, at.1);
        let next_cost = map.path_cost(next.0, next.1).unwrap();
        assert_eq!(next_cost, cost - 1);
        at = next;
        cost = next_cost;
    }
    assert_eq!(at, (0, 0));
    assert_eq!(map.move_toward_spawn(0, 0), (0, 0));
    assert_eq!(map.move_toward_spawn(0, 0), (0, 0));
}

#[test]
fn greedy_step_prefers_the_first_of_equal_neighbors() {
    let mut map = TileMap::new();
    map.set_tile(0, 0, Tile::Core);
    map.set_tile(1, 0, Tile::Open);
    map.set_tile(0, 1, Tile::Open);
    map.set_tile(1, 1, Tile::Open);
    // both (0, 1) to the west and (1, 0) to the south have cost one
    assert_eq!(map.move_toward_spawn(1, 1), (0, 1));
}

#[test]
fn disconnected_mob_does_not_move() {
    let mut map = corridor(3);
    map.set_tile(10, 10, Tile::Open);
    map.set_tile(11, 10, Tile::Open);
    assert_eq!(map.move_toward_spawn(10, 10), (10, 10));
    assert_eq!(map.move_toward_spawn(50, 50), (50, 50));
}

#[test]
fn mob_on_a_wall_beside_the_path_steps_onto_it() {
    let mut map = corridor(3);
    assert_eq!(map.move_toward_spawn(2, 1), (2, 0));
}

#[test]
fn all_spawns_are_listed_in_ascending_order() {
    let mut map = TileMap::new();
    map.set_tile(8, 0, Tile::Spawn);
    map.set_tile(0, 0, Tile::Spawn);
    map.set_tile(0, -3, Tile::Spawn);
    map.set_tile(-2, 9, Tile::Spawn);
    map.set_tile(4, -2, Tile::Core);
    map.set_tile(4, -1, Tile::Open);
    assert_eq!(map.all_spawns(), vec![(-2, 9), (0, -3), (0, 0), (8, 0)]);
    map.set_tile(0, 0, Tile::Open);
    assert_eq!(map.all_spawns(), vec![(-2, 9), (0, -3), (8, 0)]);
}

#[test]
fn tiles_are_read_from_their_names() {
    assert_eq!(parse_tile("Wall"), Some(Tile::Wall));
    assert_eq!(parse_tile("Open"), Some(Tile::Open));
    assert_eq!(parse_tile("Spawn"), Some(Tile::Spawn));
    assert_eq!(parse_tile("Core"), Some(Tile::Core));
    assert_eq!(parse_tile("core"), None);
    assert_eq!(parse_tile(""), None);
    assert_eq!(parse_tile("Wall "), None);
}
