use polders::entry::{rank_in, TileEntry};
use polders::grid::{map_idx, Coordinate, TerrainGrid, NUM_TILES};
use polders::tile::{MapTile, TileImprovement, TileType, MAX_HEIGHT, SEA_BOTTOM, SEA_LEVEL};

#[test]
fn new_tile_is_filled_up_to_the_sea_level() {
    let t = MapTile::new(2);
    assert_eq!((t.height(), t.water()), (2, 2));
    assert_eq!(t.water_level(), SEA_LEVEL);
    assert_eq!(t.improvement(), TileImprovement::Unimproved);
    let t = MapTile::new(SEA_LEVEL);
    assert_eq!((t.height(), t.water()), (4, 0));
    let t = MapTile::new(6);
    assert_eq!((t.height(), t.water()), (6, 0));
}

#[test]
fn new_tile_keeps_within_the_elevations() {
    let t = MapTile::new(0);
    assert_eq!((t.height(), t.water()), (SEA_BOTTOM, 3));
    let t = MapTile::new(-5);
    assert_eq!((t.height(), t.water()), (SEA_BOTTOM, 3));
    let t = MapTile::new(100);
    assert_eq!((t.height(), t.water()), (MAX_HEIGHT, 0));
}

#[test]
fn tile_type_follows_water_then_improvement() {
    let mut t = MapTile::new(5);
    assert_eq!(t.tile_type(), TileType::Flatland);
    t.set_improvement(TileImprovement::Dike);
    assert_eq!(t.tile_type(), TileType::Dike);
    t.add_water(1);
    assert_eq!(t.tile_type(), TileType::Water);
}

#[test]
fn heights_are_clamped() {
    let mut t = MapTile::new(6);
    t.increase_height();
    assert_eq!(t.height(), 7);
    t.increase_height();
    assert_eq!(t.height(), 7);
    let mut t = MapTile::new(2);
    t.lower_height();
    assert_eq!((t.height(), t.water()), (1, 2));
    t.lower_height();
    assert_eq!((t.height(), t.water()), (1, 2));
}

#[test]
fn raising_lifts_the_water_with_the_land() {
    let mut t = MapTile::new(5);
    t.add_water(2);
    assert_eq!(t.water_level(), MAX_HEIGHT);
    assert!(t.column_fits());
    t.increase_height();
    assert_eq!((t.height(), t.water()), (6, 2));
    assert_eq!(t.water_level(), 8);
    assert!(!t.column_fits());
    assert!(t.is_well_formed());
    assert_eq!(t.screen_glyph(), '8');
    // adding water brings the column back within the highest level
    t.remove_water(0);
    assert_eq!(t.water(), 2);
    t.remove_water(-1);
    assert_eq!(t.water(), 2);
    t.add_water(0);
    assert_eq!(t.water(), 1);
    assert!(t.column_fits());
}

#[test]
fn a_level_of_two_digits_has_no_glyph() {
    let mut t = MapTile::new(2);
    t.add_water(5);
    assert_eq!((t.height(), t.water()), (2, 5));
    t.increase_height();
    t.increase_height();
    assert_eq!(t.screen_glyph(), '9');
    t.increase_height();
    assert_eq!(t.water_level(), 10);
    assert_eq!(t.screen_glyph(), 'N');
}

#[test]
fn the_sea_brings_a_lifted_column_down() {
    let mut t = MapTile::new(5);
    t.add_water(2);
    t.increase_height();
    t.increase_height();
    assert_eq!((t.height(), t.water()), (7, 2));
    // above the target, and the bed not below it: drained, not recorded
    assert!(!t.level_to(7));
    assert_eq!(t.water(), 0);
    let mut t = MapTile::new(5);
    t.add_water(2);
    t.increase_height();
    // below a target out of reach: the column ends at the highest level
    assert!(t.level_to(9));
    assert_eq!((t.height(), t.water()), (6, 1));
}

#[test]
fn water_is_clamped() {
    let mut t = MapTile::new(5);
    t.add_water(1);
    assert_eq!(t.water(), 1);
    t.add_water(10);
    assert_eq!(t.water(), 2);
    t.add_water(i32::MAX);
    assert_eq!(t.water(), 2);
    t.remove_water(1);
    assert_eq!(t.water(), 1);
    t.remove_water(10);
    assert_eq!(t.water(), 0);
    t.remove_water(i32::MAX);
    assert_eq!(t.water(), 0);
    t.add_water(-3);
    assert_eq!(t.water(), 0);
    t.remove_water(-1);
    assert_eq!(t.water(), 1);
    t.remove_water(i32::MIN);
    assert_eq!(t.water(), 2);
    t.add_water(i32::MIN);
    assert_eq!(t.water(), 0);
}

#[test]
fn sea_floor_keeps_its_water() {
    let mut t = MapTile::new(SEA_BOTTOM);
    assert_eq!(t.water(), 3);
    t.add_water(2);
    assert_eq!(t.water(), 3);
    t.remove_water(2);
    assert_eq!(t.water(), 3);
}

#[test]
fn level_to_fills_and_drains() {
    let mut t = MapTile::new(3);
    assert!(t.level_to(6));
    assert_eq!(t.water(), 3);
    assert!(!t.level_to(6));
    assert_eq!(t.water(), 3);
    assert!(t.level_to(4));
    assert_eq!(t.water(), 1);
    assert!(!t.level_to(2));
    assert_eq!(t.water(), 0);
    assert!(!t.level_to(3));
    assert_eq!(t.water(), 0);
    assert!(t.level_to(50));
    assert_eq!(t.water(), 4);
}

#[test]
fn glyph_is_the_digit_of_the_level() {
    assert_eq!(MapTile::new(2).screen_glyph(), '4');
    assert_eq!(MapTile::new(6).screen_glyph(), '6');
    assert_eq!(MapTile::new(7).screen_glyph(), '7');
}

#[test]
fn background_colours() {
    assert_eq!(MapTile::new(1).screen_color_bg(), (0, 0, 139));
    assert_eq!(MapTile::new(2).screen_color_bg(), (138, 43, 226));
    assert_eq!(MapTile::new(3).screen_color_bg(), (0, 0, 255));
    let mut t = MapTile::new(5);
    t.add_water(1);
    assert_eq!(t.screen_color_bg(), (173, 216, 230));
    assert_eq!(MapTile::new(4).screen_color_bg(), (173, 255, 47));
    assert_eq!(MapTile::new(5).screen_color_bg(), (144, 238, 144));
    assert_eq!(MapTile::new(6).screen_color_bg(), (0, 255, 0));
    assert_eq!(MapTile::new(7).screen_color_bg(), (0, 100, 0));
    let mut d = MapTile::new(4);
    d.set_improvement(TileImprovement::Dike);
    assert_eq!(d.screen_color_bg(), (144, 238, 144));
    let mut d = MapTile::new(5);
    d.set_improvement(TileImprovement::Dike);
    assert_eq!(d.screen_color_bg(), (0, 255, 0));
    let mut d = MapTile::new(6);
    d.set_improvement(TileImprovement::Dike);
    assert_eq!(d.screen_color_bg(), (0, 100, 0));
    let mut d = MapTile::new(7);
    d.set_improvement(TileImprovement::Dike);
    assert_eq!(d.screen_color_bg(), (173, 255, 47));
}

#[test]
fn foreground_colours() {
    assert_eq!(MapTile::new(1).screen_color_fg(), (255, 255, 255));
    assert_eq!(MapTile::new(4).screen_color_fg(), (0, 100, 0));
    assert_eq!(MapTile::new(5).screen_color_fg(), (0, 100, 0));
    assert_eq!(MapTile::new(6).screen_color_fg(), (0, 100, 0));
    assert_eq!(MapTile::new(7).screen_color_fg(), (144, 238, 144));
}

#[test]
fn index_is_row_major() {
    assert_eq!(map_idx(0, 0), 0);
    assert_eq!(map_idx(79, 0), 79);
    assert_eq!(map_idx(0, 1), 80);
    assert_eq!(map_idx(23, 19), 1543);
    assert_eq!(map_idx(79, 49), NUM_TILES - 1);
}

#[test]
fn coordinates_on_and_off_the_grid() {
    let map = TerrainGrid::new(Coordinate::new(3, 4));
    assert_eq!(map.river_source, Coordinate { x: 3, y: 4 });
    assert_eq!(map.tiles.len(), NUM_TILES);
    assert!(map.connected_to_sea.is_empty());
    assert!(map.valid_coordinates(0, 0));
    assert!(map.valid_coordinates(79, 49));
    assert!(!map.valid_coordinates(80, 0));
    assert!(!map.valid_coordinates(0, 50));
    assert!(!map.valid_coordinates(-1, 0));
    assert!(!map.valid_coordinates(0, -1));
    assert_eq!(map.valid_neighbor(5, 6), Some(Coordinate { x: 5, y: 6 }));
    assert_eq!(map.valid_neighbor(80, 6), None);
}

#[test]
fn edits_off_the_grid_change_nothing() {
    let mut map = TerrainGrid::new(Coordinate::new(0, 0));
    let before = map.tiles.clone();
    map.increase_height(80, 3);
    map.lower_height(-1, 3);
    map.build_dike(3, 50);
    map.increase_height(i32::MAX, i32::MAX);
    map.lower_height(i32::MIN, i32::MIN);
    assert_eq!(map.tiles, before);
}

#[test]
fn dike_only_on_dry_ground() {
    let mut map = TerrainGrid::new(Coordinate::new(0, 0));
    map.tiles[map_idx(4, 4)] = MapTile::new(6);
    map.tiles[map_idx(5, 4)] = MapTile::new(3);
    map.build_dike(4, 4);
    map.build_dike(5, 4);
    assert_eq!(map.tiles[map_idx(4, 4)].improvement(), TileImprovement::Dike);
    assert_eq!(map.tiles[map_idx(4, 4)].tile_type(), TileType::Dike);
    assert_eq!(map.tiles[map_idx(5, 4)].improvement(), TileImprovement::Unimproved);
    assert_eq!(map.tiles[map_idx(5, 4)].tile_type(), TileType::Water);
}

#[test]
fn grid_height_edits() {
    let mut map = TerrainGrid::new(Coordinate::new(0, 0));
    map.tiles[map_idx(4, 4)] = MapTile::new(6);
    map.increase_height(4, 4);
    assert_eq!(map.tiles[map_idx(4, 4)].height(), 7);
    map.lower_height(4, 4);
    map.lower_height(4, 4);
    assert_eq!(map.tiles[map_idx(4, 4)].height(), 5);
}

#[test]
fn entries_rank_by_level_then_x_then_y() {
    let low = TileEntry::new(9, 9, 3);
    let high = TileEntry::new(0, 0, 4);
    assert!(low.ranks_before(&high));
    assert!(!high.ranks_before(&low));
    let a = TileEntry::new(1, 5, 4);
    let b = TileEntry::new(2, 0, 4);
    assert!(a.ranks_before(&b));
    assert!(!b.ranks_before(&a));
    let c = TileEntry::new(1, 6, 4);
    assert!(a.ranks_before(&c));
    assert!(!c.ranks_before(&a));
    assert!(!a.ranks_before(&a));
}

#[test]
fn rank_in_keeps_the_list_ranked() {
    let mut list = Vec::new();
    rank_in(&mut list, TileEntry::new(5, 4, 6));
    rank_in(&mut list, TileEntry::new(3, 4, 6));
    rank_in(&mut list, TileEntry::new(4, 5, 2));
    rank_in(&mut list, TileEntry::new(4, 3, 6));
    assert_eq!(
        list,
        vec![
            TileEntry::new(4, 5, 2),
            TileEntry::new(3, 4, 6),
            TileEntry::new(4, 3, 6),
            TileEntry::new(5, 4, 6),
        ]
    );
}

#[test]
fn well_formed_grids() {
    let mut map = TerrainGrid::new(Coordinate::new(0, 0));
    assert!(map.is_well_formed());
    assert!(MapTile::new(3).is_well_formed());
    map.tiles.pop();
    assert!(!map.is_well_formed());
}
