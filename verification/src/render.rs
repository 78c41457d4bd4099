//! What the grid looks like: for each cell a glyph and a pair of colours.

use vstd::prelude::*;
use crate::bracket::{cp437_code, glyph_code};
use crate::grid::{TerrainGrid, NUM_TILES, SCREEN_HEIGHT, SCREEN_WIDTH};
use crate::tile::TileModel;

verus! {

/// One cell as it is drawn: where, in which colours, and with which glyph of
/// code page 437.
#[derive(Copy, Clone, Debug)]
pub struct ScreenCell {
    pub x: i32,
    pub y: i32,
    pub fg: (u8, u8, u8),
    pub bg: (u8, u8, u8),
    pub glyph: u16,
}

/// The cell with the index `i`, drawn.
pub open spec fn drawn(i: int, cell: TileModel) -> ScreenCell {
    ScreenCell {
        x: (i % 80) as i32,
        y: (i / 80) as i32,
        fg: cell.foreground(),
        bg: cell.background(),
        glyph: cp437_code(cell.glyph()),
    }
}

impl TerrainGrid {
    /// The cells as they are drawn, row by row.
    pub fn render(&self) -> (screen: Vec<ScreenCell>)
        requires
            self.wf(),
        ensures
            screen@.len() == NUM_TILES,
            forall|i: int| 0 <= i < NUM_TILES ==> #[trigger] screen@[i] == drawn(i, self.cells()[i]),
    {
        let mut screen: Vec<ScreenCell> = Vec::new();
        let mut y: i32 = 0;
        while y < SCREEN_HEIGHT
            invariant
                self.wf(),
                0 <= y <= SCREEN_HEIGHT,
                screen@.len() == y * 80,
                forall|i: int|
                    0 <= i < screen@.len() ==> #[trigger] screen@[i] == drawn(i, self.cells()[i]),
            decreases SCREEN_HEIGHT - y,
        {
            let mut x: i32 = 0;
            while x < SCREEN_WIDTH
                invariant
                    self.wf(),
                    0 <= y < SCREEN_HEIGHT,
                    0 <= x <= SCREEN_WIDTH,
                    screen@.len() == y * 80 + x,
                    forall|i: int|
                        0 <= i < screen@.len() ==> #[trigger] screen@[i] == drawn(
                            i,
                            self.cells()[i],
                        ),
                decreases SCREEN_WIDTH - x,
            {
                let idx = crate::grid::map_idx(x, y);
                assert(self.cells()[idx as int].wf());
                let tile = self.tiles[idx];
                screen.push(
                    ScreenCell {
                        x,
                        y,
                        fg: tile.screen_color_fg(),
                        bg: tile.screen_color_bg(),
                        glyph: glyph_code(tile.screen_glyph()),
                    },
                );
                x += 1;
            }
            y += 1;
        }
        screen
    }
}

} // verus!
