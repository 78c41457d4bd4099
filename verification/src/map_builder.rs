//! The grids a session starts with: a fixed layout, or one with random land,
//! a random coast and a random river.

use vstd::prelude::*;
use crate::bracket::{rect_points, rect_with_size, rng_range, Region};
use crate::grid::{
    dikes_dry, grid_wf, in_grid, map_idx, Coordinate, TerrainGrid, NUM_TILES, SCREEN_HEIGHT,
    SCREEN_WIDTH,
};
use crate::tile::{MapTile, TileModel, MAX_HEIGHT, SEA_BOTTOM, SEA_LEVEL};

verus! {

/// The grid with every cell of the rectangle replaced by `tile`.
pub open spec fn filled(cells: Seq<TileModel>, rect: Region, tile: TileModel) -> Seq<TileModel> {
    Seq::new(
        cells.len(),
        |i: int|
            if rect.holds(i % 80, i / 80) {
                tile
            } else {
                cells[i]
            },
    )
}

/// The grid with the sea and the river cut into it: the sea floor in the
/// rows above `coast_row`, and below the row `coast_row` a river, one above
/// the sea floor, from the column `river_col` on, `river_width` columns
/// wide.
pub open spec fn carved(cells: Seq<TileModel>, coast_row: int, river_col: int, river_width: int) -> Seq<
    TileModel,
> {
    Seq::new(
        cells.len(),
        |i: int|
            if river_col <= i % 80 < river_col + river_width && coast_row < i / 80 {
                TileModel::fresh(SEA_BOTTOM + 1)
            } else if i / 80 < coast_row {
                TileModel::fresh(SEA_BOTTOM as int)
            } else {
                cells[i]
            },
    )
}

/// The fixed layout: land two above the sea level, the sea in the upper
/// quarter, and a river two columns wide at a quarter of the width.
pub open spec fn fixed_layout() -> Seq<TileModel> {
    carved(Seq::new(NUM_TILES as nat, |i: int| TileModel::fresh(SEA_LEVEL + 2)), 12, 20, 2)
}

/// Every cell is land as the random layout makes it: dry, two or three above
/// the sea level.
pub open spec fn random_land(cells: Seq<TileModel>) -> bool {
    &&& cells.len() == NUM_TILES
    &&& forall|i: int|
        0 <= i < cells.len() ==> #[trigger] cells[i] == TileModel::fresh(SEA_LEVEL + 2)
            || cells[i] == TileModel::fresh(SEA_LEVEL + 3)
}

/// A grid under construction.
pub struct MapBuilder {
    pub map: TerrainGrid,
}

impl MapBuilder {
    /// Makes every cell land of a random elevation.
    pub fn fill_with_random_land_tiles(
        &mut self,
        rng: &mut bracket_lib::prelude::RandomNumberGenerator,
    )
        requires
            old(self).map.wf(),
        ensures
            final(self).map.wf(),
            random_land(final(self).map.cells()),
            final(self).map.river_source == old(self).map.river_source,
            final(self).map.connected_to_sea == old(self).map.connected_to_sea,
    {
        let mut i: usize = 0;
        while i < NUM_TILES
            invariant
                i <= NUM_TILES,
                self.map.wf(),
                forall|j: int|
                    0 <= j < i ==> #[trigger] self.map.cells()[j] == TileModel::fresh(SEA_LEVEL + 2)
                        || self.map.cells()[j] == TileModel::fresh(SEA_LEVEL + 3),
                self.map.river_source == old(self).map.river_source,
                self.map.connected_to_sea == old(self).map.connected_to_sea,
            decreases NUM_TILES - i,
        {
            let ghost before = self.map.cells();
            let rise = rng_range(rng, 2, MAX_HEIGHT - SEA_LEVEL + 1);
            self.map.tiles[i] = MapTile::new(SEA_LEVEL + rise);
            assert(self.map.cells() =~= before.update(i as int, self.map.tiles@[i as int]@));
            i += 1;
        }
    }

    /// Replaces every cell of the grid that lies in the rectangle by `tile`.
    pub fn fill_rect(&mut self, rect: Region, tile: MapTile)
        requires
            old(self).map.wf(),
            tile@.wf(),
            rect.count() <= usize::MAX,
        ensures
            final(self).map.wf(),
            final(self).map.cells() == filled(old(self).map.cells(), rect, tile@),
            final(self).map.river_source == old(self).map.river_source,
            final(self).map.connected_to_sea == old(self).map.connected_to_sea,
    {
        let ghost cells0 = self.map.cells();
        let points = rect_points(rect);
        let mut j: usize = 0;
        while j < points.len()
            invariant
                j <= points.len(),
                self.map.wf(),
                tile@.wf(),
                forall|k: int|
                    0 <= k < points@.len() ==> rect.holds(
                        (#[trigger] points@[k]).x as int,
                        points@[k].y as int,
                    ),
                forall|i: int|
                    0 <= i < NUM_TILES && !rect.holds(i % 80, i / 80) ==> #[trigger] self.map.cells()[i]
                        == cells0[i],
                forall|k: int|
                    0 <= k < j && in_grid((#[trigger] points@[k]).x as int, points@[k].y as int)
                        ==> self.map.cells()[points@[k].index()] == tile@,
                forall|i: int|
                    0 <= i < NUM_TILES ==> #[trigger] self.map.cells()[i] == cells0[i]
                        || self.map.cells()[i] == tile@,
                self.map.river_source == old(self).map.river_source,
                self.map.connected_to_sea == old(self).map.connected_to_sea,
            decreases points.len() - j,
        {
            let p = points[j];
            if p.x >= 0 && p.y >= 0 && p.x < SCREEN_WIDTH && p.y < SCREEN_HEIGHT {
                let ghost before = self.map.cells();
                let idx = map_idx(p.x, p.y);
                self.map.tiles[idx] = tile;
                assert(self.map.cells() =~= before.update(idx as int, tile@));
            }
            j += 1;
        }
        proof {
            assert forall|i: int| 0 <= i < NUM_TILES implies #[trigger] self.map.cells()[i] == filled(
                cells0,
                rect,
                tile@,
            )[i] by {
                if rect.holds(i % 80, i / 80) {
                    let pos = Coordinate { x: (i % 80) as i32, y: (i / 80) as i32 };
                    assert(points@.contains(pos));
                    let k = choose|k: int| 0 <= k < points@.len() && points@[k] == pos;
                    assert(points@[k].index() == i);
                }
            }
            assert(self.map.cells() =~= filled(cells0, rect, tile@));
        }
    }

    /// Cuts the sea and the river into the grid and puts the source of the
    /// river in the last row.
    pub fn carve_sea_and_river(&mut self, coast_row: i32, river_col: i32, river_width: i32)
        requires
            old(self).map.wf(),
            0 <= coast_row < SCREEN_HEIGHT,
            0 <= river_col <= SCREEN_WIDTH,
            0 <= river_width <= SCREEN_WIDTH,
        ensures
            final(self).map.wf(),
            final(self).map.cells() == carved(
                old(self).map.cells(),
                coast_row as int,
                river_col as int,
                river_width as int,
            ),
            final(self).map.river_source == (Coordinate { x: river_col, y: 49i32 }),
            final(self).map.connected_to_sea == old(self).map.connected_to_sea,
    {
        let ghost cells0 = self.map.cells();
        assert(80 * coast_row <= 80 * 50) by (nonlinear_arith)
            requires
                0 <= coast_row < 50,
        ;
        let sea = rect_with_size(0, 0, SCREEN_WIDTH, coast_row);
        self.fill_rect(sea, MapTile::new(SEA_BOTTOM));
        assert(river_width * (50 - coast_row) <= 80 * 50) by (nonlinear_arith)
            requires
                0 <= coast_row < 50,
                0 <= river_width <= 80,
        ;
        let river = rect_with_size(river_col, coast_row + 1, river_width, SCREEN_HEIGHT - coast_row);
        self.fill_rect(river, MapTile::new(SEA_BOTTOM + 1));
        self.map.river_source = Coordinate::new(river_col, SCREEN_HEIGHT - 1);
        assert(self.map.cells() =~= carved(
            cells0,
            coast_row as int,
            river_col as int,
            river_width as int,
        ));
    }

    /// Random land, with the coast somewhere in the upper half and a river of
    /// one or two columns somewhere in the left half.
    pub fn build_random_map(&mut self, rng: &mut bracket_lib::prelude::RandomNumberGenerator)
        requires
            old(self).map.wf(),
        ensures
            final(self).map.wf(),
            exists|land: Seq<TileModel>, coast_row: int, river_width: int|
                {
                    &&& random_land(land)
                    &&& 3 <= coast_row < SCREEN_HEIGHT / 2 - 5
                    &&& 1 <= river_width < 3
                    &&& final(self).map.cells() == #[trigger] carved(
                        land,
                        coast_row,
                        final(self).map.river_source.x as int,
                        river_width,
                    )
                },
            6 <= final(self).map.river_source.x < SCREEN_WIDTH / 2 - 6,
            final(self).map.river_source.y == SCREEN_HEIGHT - 1,
            final(self).map.connected_to_sea == old(self).map.connected_to_sea,
    {
        self.fill_with_random_land_tiles(rng);
        let ghost land = self.map.cells();
        let coast_row = rng_range(rng, 3, (SCREEN_HEIGHT / 2) - 5);
        let river_col = rng_range(rng, 6, (SCREEN_WIDTH / 2) - 6);
        let river_width = rng_range(rng, 1, 3);
        self.carve_sea_and_river(coast_row, river_col, river_width);
        assert(self.map.cells() == carved(
            land,
            coast_row as int,
            self.map.river_source.x as int,
            river_width as int,
        ));
    }

    /// The fixed layout.
    pub fn build_fixed_map(&mut self)
        requires
            old(self).map.wf(),
        ensures
            final(self).map.wf(),
            final(self).map.cells() == fixed_layout(),
            final(self).map.river_source == (Coordinate { x: 20, y: 49 }),
            final(self).map.connected_to_sea == old(self).map.connected_to_sea,
    {
        let all = rect_with_size(0, 0, SCREEN_WIDTH, SCREEN_HEIGHT);
        self.fill_rect(all, MapTile::new(SEA_LEVEL + 2));
        assert(self.map.cells() =~= Seq::new(
            NUM_TILES as nat,
            |i: int| TileModel::fresh(SEA_LEVEL + 2),
        ));
        let coast_row = SCREEN_HEIGHT / 4;
        let river_col = SCREEN_WIDTH / 4;
        self.carve_sea_and_river(coast_row, river_col, 2);
    }

    /// A grid in the random layout where `generate_random_map` is set, in the
    /// fixed layout otherwise. Nothing is recorded as connected to the sea.
    pub fn new(rng: &mut bracket_lib::prelude::RandomNumberGenerator, generate_random_map: bool) -> (mb:
        MapBuilder)
        ensures
            mb.map.wf(),
            mb.map.connected_to_sea@.len() == 0,
            dikes_dry(mb.map.cells()),
            !generate_random_map ==> mb.map.cells() == fixed_layout() && mb.map.river_source == (
            Coordinate { x: 20, y: 49 }),
            generate_random_map ==> 6 <= mb.map.river_source.x < SCREEN_WIDTH / 2 - 6
                && mb.map.river_source.y == SCREEN_HEIGHT - 1 && exists|
                land: Seq<TileModel>,
                coast_row: int,
                river_width: int,
            |
                {
                    &&& random_land(land)
                    &&& 3 <= coast_row < SCREEN_HEIGHT / 2 - 5
                    &&& 1 <= river_width < 3
                    &&& mb.map.cells() == #[trigger] carved(
                        land,
                        coast_row,
                        mb.map.river_source.x as int,
                        river_width,
                    )
                },
    {
        let mut mb = MapBuilder { map: TerrainGrid::new(Coordinate { x: 0, y: 0 }) };
        if generate_random_map {
            mb.build_random_map(rng);
        } else {
            mb.build_fixed_map();
        }
        proof {
            let cells = mb.map.cells();
            if generate_random_map {
                let (land, coast_row, river_width) = choose|
                    land: Seq<TileModel>,
                    coast_row: int,
                    river_width: int,
                |
                    {
                        &&& random_land(land)
                        &&& 3 <= coast_row < SCREEN_HEIGHT / 2 - 5
                        &&& 1 <= river_width < 3
                        &&& cells == #[trigger] carved(
                            land,
                            coast_row,
                            mb.map.river_source.x as int,
                            river_width,
                        )
                    };
                assert forall|i: int| 0 <= i < cells.len() implies (#[trigger] cells[i]).dike_is_dry() by {
                    assert(land[i] == TileModel::fresh(SEA_LEVEL + 2) || land[i] == TileModel::fresh(
                        SEA_LEVEL + 3,
                    ));
                }
            } else {
                assert forall|i: int| 0 <= i < cells.len() implies (#[trigger] cells[i]).dike_is_dry() by {
                    assert(cells[i] == fixed_layout()[i]);
                }
            }
        }
        mb
    }
}

} // verus!
