use bracket_lib::prelude::RandomNumberGenerator;
use polders::command::{execute_command, Command};
use polders::grid::{map_idx, Coordinate, NUM_TILES};
use polders::map_builder::MapBuilder;
use polders::state::State;
use polders::tile::{MapTile, TileImprovement};

#[test]
fn fixed_layout_has_sea_river_and_land() {
    let mut rng = RandomNumberGenerator::new();
    let map = MapBuilder::new(&mut rng, false).map;
    assert_eq!(map.tiles.len(), NUM_TILES);
    assert_eq!(map.river_source, Coordinate { x: 20, y: 49 });
    assert!(map.connected_to_sea.is_empty());
    // sea in the rows above row 12
    assert_eq!(map.tiles[map_idx(0, 0)], MapTile::new(1));
    assert_eq!(map.tiles[map_idx(79, 11)], MapTile::new(1));
    // row 12 is land
    assert_eq!(map.tiles[map_idx(20, 12)], MapTile::new(6));
    assert_eq!(map.tiles[map_idx(0, 12)], MapTile::new(6));
    // the river, two columns wide, from row 13 to the last row
    assert_eq!(map.tiles[map_idx(20, 13)], MapTile::new(2));
    assert_eq!(map.tiles[map_idx(21, 49)], MapTile::new(2));
    assert_eq!(map.tiles[map_idx(19, 13)], MapTile::new(6));
    assert_eq!(map.tiles[map_idx(22, 30)], MapTile::new(6));
    assert_eq!(map.tiles[map_idx(79, 49)], MapTile::new(6));
}

#[test]
fn random_layout_keeps_within_its_ranges() {
    let mut rng = RandomNumberGenerator::seeded(7);
    let map = MapBuilder::new(&mut rng, true).map;
    assert_eq!(map.river_source.y, 49);
    assert!(6 <= map.river_source.x && map.river_source.x < 34);
    let mut seen_six = false;
    let mut seen_seven = false;
    for t in map.tiles.iter() {
        assert!([1, 2, 6, 7].contains(&t.height()));
        assert_eq!(t.water_level(), if t.height() < 4 { 4 } else { t.height() });
        assert_eq!(t.improvement(), TileImprovement::Unimproved);
        seen_six = seen_six || t.height() == 6;
        seen_seven = seen_seven || t.height() == 7;
    }
    assert!(seen_six && seen_seven);
    // the first three rows are always sea
    for x in 0..80 {
        for y in 0..3 {
            assert_eq!(map.tiles[map_idx(x, y)], MapTile::new(1));
        }
    }
    // the river reaches the last row at its source
    assert_eq!(map.tiles[map_idx(map.river_source.x, 49)], MapTile::new(2));
}

#[test]
fn fill_rect_is_cut_to_the_grid() {
    let mut rng = RandomNumberGenerator::new();
    let mut mb = MapBuilder::new(&mut rng, false);
    let rect = polders::bracket::Region { x1: 78, x2: 85, y1: -2, y2: 2 };
    mb.fill_rect(rect, MapTile::new(7));
    assert_eq!(mb.map.tiles[map_idx(78, 0)], MapTile::new(7));
    assert_eq!(mb.map.tiles[map_idx(79, 1)], MapTile::new(7));
    assert_eq!(mb.map.tiles[map_idx(77, 0)], MapTile::new(1));
    assert_eq!(mb.map.tiles[map_idx(79, 2)], MapTile::new(1));
    let count = mb.map.tiles.iter().filter(|t| t.height() == 7).count();
    assert_eq!(count, 4);
}

#[test]
fn new_state() {
    let state = State::new();
    assert_eq!(state.selected_tile, Coordinate { x: 0, y: 0 });
    assert_eq!(state.active_command, Command::Flood);
    assert_eq!(state.count, 0);
    assert_eq!(state.map.tiles[map_idx(20, 13)], MapTile::new(2));
}

#[test]
fn commands_edit_the_selected_cell() {
    let mut state = State::new();
    state.selected_tile = Coordinate::new(30, 30);
    state.active_command = Command::LowerHeight;
    execute_command(&mut state, Command::LowerHeight);
    assert_eq!(state.map.tiles[map_idx(30, 30)].height(), 5);
    execute_command(&mut state, Command::RaiseHeight);
    execute_command(&mut state, Command::RaiseHeight);
    assert_eq!(state.map.tiles[map_idx(30, 30)].height(), 7);
    let before = state.map.tiles.clone();
    execute_command(&mut state, Command::Flood);
    execute_command(&mut state, Command::Drain);
    assert_eq!(state.map.tiles, before);
    assert_eq!(state.selected_tile, Coordinate { x: 30, y: 30 });
    execute_command(&mut state, Command::RestartGame);
    assert_eq!(state.selected_tile, Coordinate { x: 0, y: 0 });
    assert_eq!(state.active_command, Command::Flood);
    assert_eq!(state.map.tiles[map_idx(30, 30)].height(), 6);
}

#[test]
fn render_draws_every_cell() {
    let mut rng = RandomNumberGenerator::new();
    let map = MapBuilder::new(&mut rng, false).map;
    let screen = map.render();
    assert_eq!(screen.len(), NUM_TILES);
    let sea = screen[map_idx(3, 2)];
    assert_eq!((sea.x, sea.y), (3, 2));
    assert_eq!(sea.bg, (0, 0, 139));
    assert_eq!(sea.fg, (255, 255, 255));
    // the digit 4 has the code 52 in code page 437
    assert_eq!(sea.glyph, 52);
    let land = screen[map_idx(79, 49)];
    assert_eq!((land.x, land.y), (79, 49));
    assert_eq!(land.bg, (0, 255, 0));
    assert_eq!(land.fg, (0, 100, 0));
    assert_eq!(land.glyph, 54);
}

#[test]
fn points_are_noted_in_order() {
    let mut points = vec![Coordinate::new(1, 2)];
    polders::bracket::note_point(&mut points, 3, 4);
    assert_eq!(points, vec![Coordinate { x: 1, y: 2 }, Coordinate { x: 3, y: 4 }]);
}
