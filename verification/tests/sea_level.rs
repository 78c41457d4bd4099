use bracket_lib::prelude::RandomNumberGenerator;
use polders::grid::{map_idx, TerrainGrid, NUM_TILES};
use polders::map_builder::MapBuilder;
use polders::tile::{MapTile, TileImprovement, MAX_HEIGHT, SEA_BOTTOM, SEA_LEVEL};

fn grid_with_canal_and_lake() -> TerrainGrid {
    let mut rng = RandomNumberGenerator::new();
    let map_builder = MapBuilder::new(&mut rng, false);
    let mut map = map_builder.map;
    // canal
    map.tiles[map_idx(23, 19)] = MapTile::new(SEA_LEVEL);
    map.tiles[map_idx(24, 19)] = MapTile::new(SEA_LEVEL);
    map.tiles[map_idx(25, 19)] = MapTile::new(SEA_LEVEL);
    // lake
    map.tiles[map_idx(26, 19)] = MapTile::new(SEA_LEVEL);
    map.tiles[map_idx(26, 18)] = MapTile::new(SEA_LEVEL);
    map.tiles[map_idx(26, 20)] = MapTile::new(SEA_LEVEL);
    map.tiles[map_idx(27, 19)] = MapTile::new(SEA_LEVEL);
    // embankment
    map.tiles[map_idx(23, 18)] = MapTile::new(MAX_HEIGHT);
    map.tiles[map_idx(24, 18)] = MapTile::new(MAX_HEIGHT);
    map.tiles[map_idx(25, 18)] = MapTile::new(MAX_HEIGHT);
    map.tiles[map_idx(23, 20)] = MapTile::new(MAX_HEIGHT);
    map.tiles[map_idx(24, 20)] = MapTile::new(MAX_HEIGHT);
    map.tiles[map_idx(25, 20)] = MapTile::new(MAX_HEIGHT);
    map
}

fn waters(map: &TerrainGrid) -> Vec<i32> {
    map.tiles.iter().map(|t| t.water()).collect()
}

#[test]
fn increase_sea_level() {
    let mut rng = RandomNumberGenerator::new();
    let map_builder = MapBuilder::new(&mut rng, false);
    let mut map = map_builder.map;

    // canal
    let tile_idx_canal1 = map_idx(23, 19);
    let tile_idx_canal2 = map_idx(24, 19);
    let tile_idx_canal3 = map_idx(25, 19);
    map.tiles[tile_idx_canal1] = MapTile::new(SEA_LEVEL);
    map.tiles[tile_idx_canal2] = MapTile::new(SEA_LEVEL);
    map.tiles[tile_idx_canal3] = MapTile::new(SEA_LEVEL);
    // lake
    let tile_idx_lake_center = map_idx(26, 19);
    let tile_idx_lake_up = map_idx(26, 18);
    let tile_idx_lake_down = map_idx(26, 20);
    let tile_idx_lake_right = map_idx(27, 19);
    map.tiles[tile_idx_lake_center] = MapTile::new(SEA_LEVEL);
    map.tiles[tile_idx_lake_up] = MapTile::new(SEA_LEVEL);
    map.tiles[tile_idx_lake_down] = MapTile::new(SEA_LEVEL);
    map.tiles[tile_idx_lake_right] = MapTile::new(SEA_LEVEL);
    // embankment
    let tile_idx_emb_canal_top1 = map_idx(23, 18);
    let tile_idx_emb_canal_top2 = map_idx(24, 18);
    let tile_idx_emb_canal_top3 = map_idx(25, 18);
    let tile_idx_emb_canal_bottom1 = map_idx(23, 20);
    let tile_idx_emb_canal_bottom2 = map_idx(24, 20);
    let tile_idx_emb_canal_bottom3 = map_idx(25, 20);
    map.tiles[tile_idx_emb_canal_top1] = MapTile::new(MAX_HEIGHT);
    map.tiles[tile_idx_emb_canal_top2] = MapTile::new(MAX_HEIGHT);
    map.tiles[tile_idx_emb_canal_top3] = MapTile::new(MAX_HEIGHT);
    map.tiles[tile_idx_emb_canal_bottom1] = MapTile::new(MAX_HEIGHT);
    map.tiles[tile_idx_emb_canal_bottom2] = MapTile::new(MAX_HEIGHT);
    map.tiles[tile_idx_emb_canal_bottom3] = MapTile::new(MAX_HEIGHT);

    let lake_center_tile = map.tiles[tile_idx_lake_center];
    assert_eq!(lake_center_tile.water(), 0); // no water

    // increase sea level
    map.recalculate_sea_level(SEA_LEVEL + 1);
    // check that canal and lake have been filled
    assert_eq!(map.tiles[tile_idx_canal1].water(), 1);
    assert_eq!(map.tiles[tile_idx_canal2].water(), 1);
    assert_eq!(map.tiles[tile_idx_canal3].water(), 1);
    assert_eq!(map.tiles[tile_idx_lake_center].water(), 1);
    assert_eq!(map.tiles[tile_idx_lake_up].water(), 1);
    assert_eq!(map.tiles[tile_idx_lake_down].water(), 1);
    assert_eq!(map.tiles[tile_idx_lake_right].water(), 1);
    // check that embankment has NOT been filled
    assert_eq!(map.tiles[tile_idx_emb_canal_top1].water(), 0);
    assert_eq!(map.tiles[tile_idx_emb_canal_top2].water(), 0);
    assert_eq!(map.tiles[tile_idx_emb_canal_top3].water(), 0);
    assert_eq!(map.tiles[tile_idx_emb_canal_bottom1].water(), 0);
    assert_eq!(map.tiles[tile_idx_emb_canal_bottom2].water(), 0);
    assert_eq!(map.tiles[tile_idx_emb_canal_bottom3].water(), 0);
}

#[test]
fn decrease_sea_level() {
    let mut rng = RandomNumberGenerator::new();
    let map_builder = MapBuilder::new(&mut rng, false);
    let mut map = map_builder.map;

    // canal
    let tile_idx_canal1 = map_idx(23, 19);
    let tile_idx_canal2 = map_idx(24, 19);
    let tile_idx_canal3 = map_idx(25, 19);
    map.tiles[tile_idx_canal1] = MapTile::new(SEA_LEVEL);
    map.tiles[tile_idx_canal2] = MapTile::new(SEA_LEVEL);
    map.tiles[tile_idx_canal3] = MapTile::new(SEA_LEVEL);
    // lake
    let tile_idx_lake_center = map_idx(26, 19);
    let tile_idx_lake_up = map_idx(26, 18);
    let tile_idx_lake_down = map_idx(26, 20);
    let tile_idx_lake_right = map_idx(27, 19);
    map.tiles[tile_idx_lake_center] = MapTile::new(SEA_LEVEL);
    map.tiles[tile_idx_lake_up] = MapTile::new(SEA_LEVEL);
    map.tiles[tile_idx_lake_down] = MapTile::new(SEA_LEVEL);
    map.tiles[tile_idx_lake_right] = MapTile::new(SEA_LEVEL);
    // embankment
    let tile_idx_emb_canal_top1 = map_idx(23, 18);
    let tile_idx_emb_canal_top2 = map_idx(24, 18);
    let tile_idx_emb_canal_top3 = map_idx(25, 18);
    let tile_idx_emb_canal_bottom1 = map_idx(23, 20);
    let tile_idx_emb_canal_bottom2 = map_idx(24, 20);
    let tile_idx_emb_canal_bottom3 = map_idx(25, 20);
    map.tiles[tile_idx_emb_canal_top1] = MapTile::new(MAX_HEIGHT);
    map.tiles[tile_idx_emb_canal_top2] = MapTile::new(MAX_HEIGHT);
    map.tiles[tile_idx_emb_canal_top3] = MapTile::new(MAX_HEIGHT);
    map.tiles[tile_idx_emb_canal_bottom1] = MapTile::new(MAX_HEIGHT);
    map.tiles[tile_idx_emb_canal_bottom2] = MapTile::new(MAX_HEIGHT);
    map.tiles[tile_idx_emb_canal_bottom3] = MapTile::new(MAX_HEIGHT);

    let lake_center_tile = map.tiles[tile_idx_lake_center];
    assert_eq!(lake_center_tile.water(), 0); // no water

    // increase sea level to flood lake
    map.recalculate_sea_level(SEA_LEVEL + 1);

    // now decrease it again
    map.recalculate_sea_level(SEA_LEVEL);

    // check that canal and lake have been emptied
    assert_eq!(map.tiles[tile_idx_canal1].water(), 0);
    assert_eq!(map.tiles[tile_idx_canal2].water(), 0);
    assert_eq!(map.tiles[tile_idx_canal3].water(), 0);
    assert_eq!(map.tiles[tile_idx_lake_center].water(), 0);
    assert_eq!(map.tiles[tile_idx_lake_up].water(), 0);
    assert_eq!(map.tiles[tile_idx_lake_down].water(), 0);
    assert_eq!(map.tiles[tile_idx_lake_right].water(), 0);
}

#[test]
fn decrease_height_inner_region_isolated_from_sea() {
    // a lake of one cell, walled in by land at the highest elevation
    let mut map = grid_with_canal_and_lake();
    let mut lake = MapTile::new(5);
    lake.add_water(2);
    map.tiles[map_idx(40, 30)] = lake;
    map.tiles[map_idx(39, 30)] = MapTile::new(MAX_HEIGHT);
    map.tiles[map_idx(40, 29)] = MapTile::new(MAX_HEIGHT);
    map.tiles[map_idx(40, 31)] = MapTile::new(MAX_HEIGHT);
    map.tiles[map_idx(41, 29)] = MapTile::new(MAX_HEIGHT);
    map.tiles[map_idx(41, 31)] = MapTile::new(MAX_HEIGHT);
    map.tiles[map_idx(42, 30)] = MapTile::new(MAX_HEIGHT);
    let before = waters(&map);
    // lower the neighbouring cell from 6 to 5
    map.lower_height(41, 30);
    assert_eq!(map.tiles[map_idx(41, 30)].height(), 5);
    // the lowered cell is the one that is met, and it is dry: nothing moves
    assert_eq!(waters(&map), before);
}

#[test]
fn increase_height_inner_region_isolated_from_sea() {
    let mut map = grid_with_canal_and_lake();
    map.recalculate_sea_level(SEA_LEVEL + 1);
    let before = waters(&map);
    // raising the bed of the flooded lake leaves its water where it is
    map.increase_height(26, 19);
    assert_eq!(map.tiles[map_idx(26, 19)].height(), SEA_LEVEL + 1);
    assert_eq!(map.tiles[map_idx(26, 19)].water(), 1);
    assert_eq!(waters(&map), before);
}

#[test]
fn flood_inner_region_connecting_to_sea() {
    let mut map = grid_with_canal_and_lake();
    map.recalculate_sea_level(SEA_LEVEL + 1);
    // everything that lay below the new level has been filled and recorded
    for idx in [map_idx(23, 19), map_idx(24, 19), map_idx(25, 19), map_idx(26, 19)] {
        assert_eq!(map.tiles[idx].water_level(), SEA_LEVEL + 1);
        assert!(map.connected_to_sea.contains(&idx));
    }
    // the sea itself too
    assert_eq!(map.tiles[map_idx(0, 0)].water(), SEA_LEVEL + 1 - SEA_BOTTOM);
    assert!(map.connected_to_sea.contains(&map_idx(0, 0)));
    // land above the level has not
    assert!(!map.connected_to_sea.contains(&map_idx(23, 18)));
    assert!(!map.connected_to_sea.contains(&map_idx(50, 40)));
}

#[test]
fn sea_level_records_each_cell_once() {
    let mut map = grid_with_canal_and_lake();
    map.recalculate_sea_level(SEA_LEVEL + 1);
    let mut seen = vec![false; NUM_TILES];
    for &idx in map.connected_to_sea.iter() {
        assert!(!seen[idx]);
        seen[idx] = true;
    }
    // 12 rows of sea, 2 columns of river over 37 rows, canal and lake
    assert_eq!(map.connected_to_sea.len(), 12 * 80 + 2 * 37 + 7);
}

#[test]
fn sea_level_twice_keeps_the_water() {
    let mut map = grid_with_canal_and_lake();
    map.recalculate_sea_level(SEA_LEVEL + 1);
    let once = waters(&map);
    assert!(!map.connected_to_sea.is_empty());
    map.recalculate_sea_level(SEA_LEVEL + 1);
    assert_eq!(waters(&map), once);
    // a cell that already stands at the level is not recorded
    assert!(map.connected_to_sea.is_empty());
}

#[test]
fn sea_level_above_the_highest_level_fills_the_columns() {
    let mut map = grid_with_canal_and_lake();
    map.recalculate_sea_level(MAX_HEIGHT + 2);
    for tile in map.tiles.iter() {
        assert_eq!(tile.water_level(), MAX_HEIGHT);
    }
    assert_eq!(map.connected_to_sea.len(), NUM_TILES);
    let once = waters(&map);
    map.recalculate_sea_level(MAX_HEIGHT + 2);
    assert_eq!(waters(&map), once);
    assert_eq!(map.connected_to_sea.len(), NUM_TILES);
}

#[test]
fn falling_sea_leaves_high_beds_dry_and_unrecorded() {
    let mut map = grid_with_canal_and_lake();
    map.recalculate_sea_level(SEA_LEVEL + 1);
    map.recalculate_sea_level(SEA_LEVEL - 1);
    // the canal bed lies above the new level: drained, not connected
    assert_eq!(map.tiles[map_idx(24, 19)].water(), 0);
    assert!(!map.connected_to_sea.contains(&map_idx(24, 19)));
    // the sea floor keeps a column up to the new level
    assert_eq!(map.tiles[map_idx(5, 5)].water(), SEA_LEVEL - 1 - SEA_BOTTOM);
    assert!(map.connected_to_sea.contains(&map_idx(5, 5)));
}

#[test]
fn rising_sea_wets_a_low_dike() {
    let mut map = grid_with_canal_and_lake();
    map.build_dike(24, 19);
    map.build_dike(24, 18);
    assert_eq!(map.tiles[map_idx(24, 19)].improvement(), TileImprovement::Dike);
    map.recalculate_sea_level(SEA_LEVEL + 1);
    assert_eq!(map.tiles[map_idx(24, 19)].water(), 1);
    // a dike at the highest elevation stays dry
    assert_eq!(map.tiles[map_idx(24, 18)].water(), 0);
}
