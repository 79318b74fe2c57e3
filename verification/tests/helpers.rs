use tower_defense::components::Position;
use tower_defense::resources::{GameState, KeysPressed, MenuCollapseStates, NextWaveState, PlayerHealth, TdCamera, TdTileSelect};
use tower_defense::systems::map_render_helpers::{div_round_up, get_map_render_data, MapRenderData};
use tower_defense::systems::tick_systems::camera_move_system::camera_move;
use tower_defense::systems::tick_systems::player_death_system::player_death;
use tower_defense::tile_helpers::{
    coords_to_tile, coords_to_tile_buffered, is_addressable, safe_div, tile_to_pixel_coords, MAX_TILE, MIN_TILE,
    TILE_HEIGHT_PIXELS, TILE_WIDTH_PIXELS,
};

#[test]
fn tiles_are_thirty_two_pixels_wide_and_tall() {
    assert_eq!(TILE_WIDTH_PIXELS, 32);
    assert_eq!(TILE_HEIGHT_PIXELS, 32);
}

#[test]
fn coords_to_tile_rounds_down() {
    assert_eq!(coords_to_tile(0, 0), Some((0, 0)));
    assert_eq!(coords_to_tile(31, 32), Some((0, 1)));
    assert_eq!(coords_to_tile(-1, -32), Some((-1, -1)));
    assert_eq!(coords_to_tile(-33, 95), Some((-2, 2)));
    assert_eq!(coords_to_tile(i32::MIN, i32::MAX), Some((MIN_TILE, MAX_TILE)));
}

#[test]
fn buffered_coords_reject_the_border() {
    assert_eq!(coords_to_tile_buffered(16, 16, 0), Some((0, 0)));
    assert_eq!(coords_to_tile_buffered(2, 29, 0), Some((0, 0)));
    assert_eq!(coords_to_tile_buffered(1, 16, 0), None);
    assert_eq!(coords_to_tile_buffered(16, 30, 0), None);
    assert_eq!(coords_to_tile_buffered(33, 16, 1), None);
    assert_eq!(coords_to_tile_buffered(34, 16, 1), None);
    assert_eq!(coords_to_tile_buffered(35, 16, 1), Some((1, 0)));
    assert_eq!(coords_to_tile_buffered(-14, -50, 0), Some((-1, -2)));
}

#[test]
fn buffered_coords_shift_by_the_border_offset() {
    // with offset 1, a tile begins on 1, 33, ...
    assert_eq!(coords_to_tile_buffered(2, 2, 1), None);
    assert_eq!(coords_to_tile_buffered(3, 3, 1), Some((0, 0)));
    assert_eq!(coords_to_tile_buffered(30, 30, 1), Some((0, 0)));
    assert_eq!(coords_to_tile_buffered(31, 31, 1), None);
}

#[test]
fn tile_to_pixel_coords_gives_the_centre() {
    assert_eq!(tile_to_pixel_coords(0, 0), (16, 16));
    assert_eq!(tile_to_pixel_coords(4, 2), (144, 80));
    assert_eq!(tile_to_pixel_coords(-1, -2), (-16, -48));
    assert_eq!(tile_to_pixel_coords(MAX_TILE, MIN_TILE), (2147483632, -2147483632));
}

#[test]
fn centre_of_a_tile_lies_in_that_tile() {
    for (x, y) in [(0, 0), (5, -7), (-3, 2), (MAX_TILE, MIN_TILE)] {
        let (px, py) = tile_to_pixel_coords(x, y);
        assert_eq!(coords_to_tile(px, py), Some((x, y)));
        assert_eq!(Position::at_tile_center(x, y), Position { x: px, y: py });
        assert_eq!(Position { x: px, y: py }.to_tile_coords(), (x, y));
    }
}

#[test]
fn addressable_range() {
    assert!(is_addressable(0, 0));
    assert!(is_addressable(MAX_TILE, MIN_TILE));
    assert!(!is_addressable(MAX_TILE + 1, 0));
    assert!(!is_addressable(0, MIN_TILE - 1));
}

#[test]
fn safe_div_divides_rounding_down() {
    assert_eq!(safe_div(64, 32, 0), Some(2));
    assert_eq!(safe_div(-1, 32, 0), Some(-1));
    assert_eq!(safe_div(7, 1, 0), Some(7));
}

#[test]
fn safe_div_refuses_a_divisor_that_is_not_positive() {
    assert_eq!(safe_div(64, 0, 0), None);
    assert_eq!(safe_div(64, -32, 0), None);
}

#[test]
fn safe_div_keeps_the_tolerance_from_both_ends() {
    assert_eq!(safe_div(33, 32, 2), None);
    assert_eq!(safe_div(34, 32, 2), Some(1));
    assert_eq!(safe_div(61, 32, 2), Some(1));
    assert_eq!(safe_div(62, 32, 2), None);
    assert_eq!(safe_div(34, 32, -2), Some(1));
    assert_eq!(safe_div(33, 32, -2), None);
}

#[test]
fn div_round_up_rounds_up() {
    assert_eq!(div_round_up(64, 32), 2);
    assert_eq!(div_round_up(65, 32), 3);
    assert_eq!(div_round_up(0, 32), 0);
    assert_eq!(div_round_up(-1, 32), 0);
    assert_eq!(div_round_up(-32, 32), -1);
    assert_eq!(div_round_up(-33, 32), -1);
    assert_eq!(div_round_up(7, -2), -2);
}

#[test]
fn render_data_for_a_camera_inside_a_tile() {
    let camera = TdCamera { top: -100, left: -100 };
    let data = get_map_render_data(640, 480, &camera);
    assert_eq!(
        data,
        MapRenderData {
            x_min_tile: -4,
            y_min_tile: -4,
            num_tiles_wide: 21,
            num_tiles_tall: 16,
            x_pixel_offset: -28,
            y_pixel_offset: -28,
        }
    );
}

#[test]
fn render_data_for_a_camera_on_a_tile_corner() {
    let camera = TdCamera { top: 64, left: 0 };
    let data = get_map_render_data(64, 33, &camera);
    assert_eq!(data.x_min_tile, 0);
    assert_eq!(data.x_pixel_offset, 0);
    assert_eq!(data.num_tiles_wide, 2);
    assert_eq!(data.y_min_tile, 2);
    assert_eq!(data.y_pixel_offset, 0);
    assert_eq!(data.num_tiles_tall, 2);
}

#[test]
fn defaults() {
    assert_eq!(NextWaveState::default(), NextWaveState { auto_launch: false, next_wave: 1, delay_ticks: 0 });
    assert_eq!(PlayerHealth::default(), PlayerHealth { health: 20, max: 20 });
    assert_eq!(TdCamera::default(), TdCamera { top: 0, left: 0 });
    assert_eq!(KeysPressed::default(), KeysPressed { down: false, up: false, left: false, right: false });
    assert!(!TdTileSelect::default().is_selected());
    assert!(TdTileSelect::Selected { x: 1, y: 2, structures: vec![] }.is_selected());
}

#[test]
fn menu_sections_collapse_and_expand() {
    let mut menu = MenuCollapseStates::default();
    assert!(!menu.is_collapsed("Resources"));
    menu.set_collapsed("Resources", true);
    menu.set_collapsed("Details", true);
    menu.set_collapsed("Resources", true);
    assert!(menu.is_collapsed("Resources"));
    assert!(menu.is_collapsed("Details"));
    assert!(!menu.is_collapsed("resources"));
    menu.set_collapsed("Resources", false);
    assert!(!menu.is_collapsed("Resources"));
    assert!(menu.is_collapsed("Details"));
    menu.set_collapsed("Never", false);
    assert!(!menu.is_collapsed("Never"));
}

#[test]
fn camera_moves_eight_pixels_per_pressed_key() {
    let mut camera = TdCamera { top: 0, left: 0 };
    camera_move(&KeysPressed { down: true, up: false, left: false, right: true }, &mut camera);
    assert_eq!(camera, TdCamera { top: 8, left: 8 });
    camera_move(&KeysPressed { down: false, up: true, left: true, right: false }, &mut camera);
    camera_move(&KeysPressed { down: false, up: true, left: true, right: false }, &mut camera);
    assert_eq!(camera, TdCamera { top: -8, left: -8 });
    camera_move(&KeysPressed { down: true, up: true, left: true, right: true }, &mut camera);
    assert_eq!(camera, TdCamera { top: -8, left: -8 });
    camera_move(&KeysPressed::default(), &mut camera);
    assert_eq!(camera, TdCamera { top: -8, left: -8 });
}

#[test]
fn camera_stops_at_the_end_of_the_pixel_range() {
    let mut camera = TdCamera { top: i32::MIN + 3, left: i32::MAX - 3 };
    camera_move(&KeysPressed { down: false, up: true, left: false, right: true }, &mut camera);
    assert_eq!(camera, TdCamera { top: i32::MIN, left: i32::MAX });
}

#[test]
fn player_dies_without_health() {
    let mut state = GameState::MainGame;
    player_death(&PlayerHealth { health: 1, max: 20 }, &mut state);
    assert_eq!(state, GameState::MainGame);
    player_death(&PlayerHealth { health: 0, max: 20 }, &mut state);
    assert_eq!(state, GameState::Died);
    let mut state = GameState::MainGame;
    player_death(&PlayerHealth { health: -3, max: 20 }, &mut state);
    assert_eq!(state, GameState::Died);
}
