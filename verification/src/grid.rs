//! The grid: a dense, row-major array of cells, with the edits a caller can
//! make to one cell.

use vstd::prelude::*;
use crate::tile::{MapTile, TileImprovement, TileModel};

verus! {

/// The number of columns.
pub const SCREEN_WIDTH: i32 = 80;

/// The number of rows.
pub const SCREEN_HEIGHT: i32 = 50;

/// The number of cells: `SCREEN_WIDTH` times `SCREEN_HEIGHT`.
pub const NUM_TILES: usize = 4000;

/// A column `x` and a row `y`.
#[derive(Copy, Clone, PartialEq, Eq, Structural, Debug)]
pub struct Coordinate {
    pub x: i32,
    pub y: i32,
}

impl Coordinate {
    pub fn new(x: i32, y: i32) -> (pos: Coordinate)
        ensures
            pos.x == x,
            pos.y == y,
    {
        Coordinate { x, y }
    }

    /// The place of this coordinate in the row-major array.
    pub open spec fn index(self) -> int {
        cell_index(self.x as int, self.y as int)
    }
}

/// The coordinate lies on the grid.
pub open spec fn in_grid(x: int, y: int) -> bool {
    0 <= x < SCREEN_WIDTH && 0 <= y < SCREEN_HEIGHT
}

/// The place of the cell at `(x, y)` in the row-major array, with
/// `SCREEN_WIDTH` cells to a row.
pub open spec fn cell_index(x: int, y: int) -> int {
    y * 80 + x
}

/// Every cell of a full grid is within its bounds.
pub open spec fn grid_wf(cells: Seq<TileModel>) -> bool {
    &&& cells.len() == NUM_TILES
    &&& forall|i: int| 0 <= i < cells.len() ==> (#[trigger] cells[i]).wf()
}

/// No column of the grid rises above the highest level.
pub open spec fn columns_fit(cells: Seq<TileModel>) -> bool {
    forall|i: int| 0 <= i < cells.len() ==> (#[trigger] cells[i]).column_fits()
}

/// No dike of the grid stands in water.
pub open spec fn dikes_dry(cells: Seq<TileModel>) -> bool {
    forall|i: int| 0 <= i < cells.len() ==> (#[trigger] cells[i]).dike_is_dry()
}

/// The water of the first `n` cells together.
pub open spec fn water_of_prefix(cells: Seq<TileModel>, n: nat) -> int
    decreases n,
{
    if n == 0 || n > cells.len() {
        0
    } else {
        water_of_prefix(cells, (n - 1) as nat) + cells[n - 1].water
    }
}

/// All the water of the grid.
pub open spec fn total_water(cells: Seq<TileModel>) -> int {
    water_of_prefix(cells, cells.len())
}

/// The grid with the land of the cell at `(x, y)` raised by one. Off the
/// grid, the grid as it is.
pub open spec fn raised_at(cells: Seq<TileModel>, x: int, y: int) -> Seq<TileModel> {
    if in_grid(x, y) {
        cells.update(cell_index(x, y), cells[cell_index(x, y)].raised())
    } else {
        cells
    }
}

/// The grid with a dike on the cell at `(x, y)`. Off the grid, or where the
/// cell holds water, the grid as it is.
pub open spec fn diked_at(cells: Seq<TileModel>, x: int, y: int) -> Seq<TileModel> {
    if in_grid(x, y) && cells[cell_index(x, y)].water == 0 {
        cells.update(
            cell_index(x, y),
            TileModel { improvement: TileImprovement::Dike, ..cells[cell_index(x, y)] },
        )
    } else {
        cells
    }
}

/// The place of the cell at `(x, y)` in the row-major array.
pub fn map_idx(x: i32, y: i32) -> (idx: usize)
    requires
        0 <= cell_index(x as int, y as int) <= i32::MAX,
    ensures
        idx == cell_index(x as int, y as int),
{
    let wide: i64 = (y as i64) * (SCREEN_WIDTH as i64) + (x as i64);
    wide as usize
}

/// The grid: its cells row by row, the source of its river, and the indices
/// of the cells that the last levelling of the sea recorded as connected to
/// the sea.
pub struct TerrainGrid {
    pub tiles: Vec<MapTile>,
    pub river_source: Coordinate,
    pub connected_to_sea: Vec<usize>,
}

impl TerrainGrid {
    /// The cells as the contracts see them, in row-major order.
    pub open spec fn cells(&self) -> Seq<TileModel> {
        Seq::new(self.tiles@.len(), |i: int| self.tiles@[i]@)
    }

    /// The indices recorded as connected to the sea.
    pub open spec fn connected(&self) -> Set<int> {
        Set::new(
            |i: int|
                exists|k: int|
                    0 <= k < self.connected_to_sea@.len() && #[trigger] self.connected_to_sea@[k]
                        == i,
        )
    }

    /// The grid has all its cells, and each is within its bounds.
    pub open spec fn wf(&self) -> bool {
        grid_wf(self.cells())
    }

    /// A grid of sea floor, filled to the sea level, with nothing recorded
    /// as connected to the sea.
    pub fn new(river_source: Coordinate) -> (grid: TerrainGrid)
        ensures
            grid.wf(),
            grid.cells() == Seq::new(NUM_TILES as nat, |i: int| TileModel::fresh(0)),
            grid.river_source == river_source,
            grid.connected_to_sea@.len() == 0,
    {
        let mut tiles: Vec<MapTile> = Vec::new();
        while tiles.len() < NUM_TILES
            invariant
                tiles.len() <= NUM_TILES,
                forall|i: int| 0 <= i < tiles.len() ==> (#[trigger] tiles[i])@ == TileModel::fresh(0),
            decreases NUM_TILES - tiles.len(),
        {
            tiles.push(MapTile::new(0));
        }
        let grid = TerrainGrid { tiles, river_source, connected_to_sea: Vec::new() };
        assert(grid.cells() =~= Seq::new(NUM_TILES as nat, |i: int| TileModel::fresh(0)));
        grid
    }

    /// Whether the grid has all its cells and each is within its bounds.
    pub fn is_well_formed(&self) -> (ok: bool)
        ensures
            ok == self.wf(),
    {
        if self.tiles.len() != NUM_TILES {
            return false;
        }
        let mut i: usize = 0;
        while i < NUM_TILES
            invariant
                i <= NUM_TILES,
                self.tiles.len() == NUM_TILES,
                forall|j: int| 0 <= j < i ==> (#[trigger] self.cells()[j]).wf(),
            decreases NUM_TILES - i,
        {
            if !self.tiles[i].is_well_formed() {
                assert(!self.cells()[i as int].wf());
                return false;
            }
            i += 1;
        }
        true
    }

    /// Whether `(x, y)` lies on the grid.
    pub fn valid_coordinates(&self, x: i32, y: i32) -> (valid: bool)
        ensures
            valid == in_grid(x as int, y as int),
    {
        0 <= x && x < SCREEN_WIDTH && 0 <= y && y < SCREEN_HEIGHT
    }

    /// The coordinate itself where it lies on the grid.
    pub fn valid_neighbor(&self, x: i32, y: i32) -> (pos: Option<Coordinate>)
        ensures
            in_grid(x as int, y as int) ==> pos == Some(Coordinate { x, y }),
            !in_grid(x as int, y as int) ==> pos.is_none(),
    {
        if self.valid_coordinates(x, y) {
            Some(Coordinate::new(x, y))
        } else {
            None
        }
    }

    /// Raises the land of the cell by one. Off the grid, nothing changes.
    pub fn increase_height(&mut self, x: i32, y: i32)
        requires
            old(self).wf(),
        ensures
            final(self).wf(),
            final(self).cells() == raised_at(old(self).cells(), x as int, y as int),
            final(self).river_source == old(self).river_source,
            final(self).connected_to_sea == old(self).connected_to_sea,
            dikes_dry(old(self).cells()) ==> dikes_dry(final(self).cells()),
            columns_fit(old(self).cells()) ==> (columns_fit(final(self).cells()) <==> (in_grid(
                x as int,
                y as int,
            ) ==> old(self).cells()[cell_index(x as int, y as int)].raised().column_fits())),
            total_water(final(self).cells()) == total_water(old(self).cells()),
    {
        if !self.valid_coordinates(x, y) {
            return ;
        }
        let idx = map_idx(x, y);
        assert(self.cells()[idx as int].wf());
        self.tiles[idx].increase_height();
        assert(self.cells() =~= old(self).cells().update(
            idx as int,
            old(self).cells()[idx as int].raised(),
        ));
        proof {
            lemma_water_after_update(old(self).cells(), idx as int, self.cells()[idx as int]);
        }
    }

    /// Builds a dike on the cell if it lies on the grid and is dry; if not,
    /// nothing changes.
    pub fn build_dike(&mut self, x: i32, y: i32)
        requires
            old(self).wf(),
        ensures
            final(self).wf(),
            final(self).cells() == diked_at(old(self).cells(), x as int, y as int),
            final(self).river_source == old(self).river_source,
            final(self).connected_to_sea == old(self).connected_to_sea,
            dikes_dry(old(self).cells()) ==> dikes_dry(final(self).cells()),
            columns_fit(old(self).cells()) ==> columns_fit(final(self).cells()),
            total_water(final(self).cells()) == total_water(old(self).cells()),
    {
        if !self.valid_coordinates(x, y) {
            return ;
        }
        let idx = map_idx(x, y);
        if self.tiles[idx].water() > 0 {
            return ;
        }
        self.tiles[idx].set_improvement(TileImprovement::Dike);
        assert(self.cells() =~= old(self).cells().update(
            idx as int,
            TileModel { improvement: TileImprovement::Dike, ..old(self).cells()[idx as int] },
        ));
        proof {
            lemma_water_after_update(old(self).cells(), idx as int, self.cells()[idx as int]);
        }
    }
}

/// Replacing one cell changes the water of a prefix by what that cell gained,
/// where the prefix holds it.
pub proof fn lemma_prefix_after_update(cells: Seq<TileModel>, i: int, cell: TileModel, n: nat)
    requires
        0 <= i < cells.len(),
        n <= cells.len(),
    ensures
        water_of_prefix(cells.update(i, cell), n) == water_of_prefix(cells, n) + (if i < n {
            cell.water - cells[i].water
        } else {
            0
        }),
    decreases n,
{
    if n > 0 {
        lemma_prefix_after_update(cells, i, cell, (n - 1) as nat);
    }
}

/// Replacing one cell changes the water of the grid by what that cell gained.
pub proof fn lemma_water_after_update(cells: Seq<TileModel>, i: int, cell: TileModel)
    requires
        0 <= i < cells.len(),
    ensures
        total_water(cells.update(i, cell)) == total_water(cells) + cell.water - cells[i].water,
{
    lemma_prefix_after_update(cells, i, cell, cells.len());
}

} // verus!
