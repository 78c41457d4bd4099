//! One cell of the grid: its elevation, the water standing on it and what has
//! been built on it.

use vstd::prelude::*;
use crate::bracket::{
    blue, blue_violet, dark_blue, dark_green, decimal_digit, digit_char, green, green_yellow,
    light_blue, light_green, rgb_blue, rgb_blue_violet, rgb_dark_blue, rgb_dark_green, rgb_green,
    rgb_green_yellow, rgb_light_blue, rgb_light_green, rgb_white, white,
};

verus! {

/// The lowest elevation: the sea floor.
pub const SEA_BOTTOM: i32 = 1;

/// The level of the sea at the start. A new cell below it is filled up to
/// it, and a cell gives water away only while its level is above it.
pub const SEA_LEVEL: i32 = 4;

/// The highest elevation, and the highest level a water column can reach.
pub const MAX_HEIGHT: i32 = 7;

/// What a cell shows: water where it holds any, else its dike, else land.
#[derive(Copy, Clone, PartialEq, Eq, Structural, Debug)]
pub enum TileType {
    Flatland,
    Water,
    Dike,
}

/// What has been built on a cell.
#[derive(Copy, Clone, PartialEq, Eq, Structural, Debug)]
pub enum TileImprovement {
    Unimproved,
    Dike,
}

/// A cell as the contracts see it.
pub ghost struct TileModel {
    pub height: int,
    pub water: int,
    pub improvement: TileImprovement,
}

impl TileModel {
    /// The elevation is within its range, and the water is not negative and
    /// no more than a column on the sea floor can hold.
    pub open spec fn wf(self) -> bool {
        &&& SEA_BOTTOM <= self.height <= MAX_HEIGHT
        &&& 0 <= self.water <= MAX_HEIGHT - SEA_BOTTOM
    }

    /// The column does not rise above the highest level.
    pub open spec fn column_fits(self) -> bool {
        self.height + self.water <= MAX_HEIGHT
    }

    /// A dike stands on dry ground only.
    pub open spec fn dike_is_dry(self) -> bool {
        self.improvement == TileImprovement::Dike ==> self.water == 0
    }

    pub open spec fn water_level(self) -> int {
        self.height + self.water
    }

    pub open spec fn tile_type(self) -> TileType {
        if self.water > 0 {
            TileType::Water
        } else if self.improvement == TileImprovement::Dike {
            TileType::Dike
        } else {
            TileType::Flatland
        }
    }

    /// A new cell of the given elevation, brought into the range of
    /// elevations: filled up to the sea level where it lies below it, dry
    /// otherwise, with nothing built on it.
    pub open spec fn fresh(height: int) -> TileModel {
        let h = if height < SEA_BOTTOM {
            SEA_BOTTOM as int
        } else if height > MAX_HEIGHT {
            MAX_HEIGHT as int
        } else {
            height
        };
        TileModel {
            height: h,
            water: if h <= SEA_LEVEL { SEA_LEVEL - h } else { 0 },
            improvement: TileImprovement::Unimproved,
        }
    }

    /// The land one higher, unless it is at the highest elevation. The
    /// water stays, and is lifted with the land.
    pub open spec fn raised(self) -> TileModel {
        TileModel {
            height: if self.height < MAX_HEIGHT { self.height + 1 } else { self.height },
            ..self
        }
    }

    /// The land one lower, unless it is the sea floor. The water stays.
    pub open spec fn lowered(self) -> TileModel {
        TileModel {
            height: if self.height > SEA_BOTTOM { self.height - 1 } else { self.height },
            ..self
        }
    }

    /// The cell with `amount` of water added. The sea floor keeps its water.
    /// On any other cell the column ends no higher than the highest level,
    /// and no lower than its bed.
    pub open spec fn flooded(self, amount: int) -> TileModel {
        if self.height <= SEA_BOTTOM {
            self
        } else if self.water + amount > MAX_HEIGHT - self.height {
            TileModel { water: MAX_HEIGHT - self.height, ..self }
        } else if self.water + amount < 0 {
            TileModel { water: 0, ..self }
        } else {
            TileModel { water: self.water + amount, ..self }
        }
    }

    /// The cell with `amount` of water removed, down to its bed. The sea
    /// floor keeps its water. A negative amount adds water, as far as the
    /// column has room.
    pub open spec fn drained(self, amount: int) -> TileModel {
        if self.height <= SEA_BOTTOM {
            self
        } else if self.water - amount < 0 {
            TileModel { water: 0, ..self }
        } else if amount >= 0 || self.water - amount <= MAX_HEIGHT - self.height {
            TileModel { water: self.water - amount, ..self }
        } else if self.water >= MAX_HEIGHT - self.height {
            self
        } else {
            TileModel { water: MAX_HEIGHT - self.height, ..self }
        }
    }

    /// The cell after the sea has reached it at the level `target`. Below
    /// the target its column is brought up to the target, or to the highest
    /// level where the target lies above that. Above the target it loses the
    /// water that stands above the target, down to its bed. At the target it
    /// stays as it is.
    pub open spec fn levelled(self, target: int) -> TileModel {
        if self.water_level() < target {
            TileModel {
                water: if target <= MAX_HEIGHT {
                    target - self.height
                } else {
                    MAX_HEIGHT - self.height
                },
                ..self
            }
        } else if self.water_level() > target {
            TileModel { water: if self.height >= target { 0 } else { target - self.height }, ..self }
        } else {
            self
        }
    }

    /// Whether levelling to `target` records the cell as connected to the
    /// sea: it stood below the target, or it stood above and keeps water. A
    /// cell already at the target is not recorded.
    pub open spec fn joins_sea(self, target: int) -> bool {
        self.water_level() < target || (self.water_level() > target && self.height < target)
    }

    /// The digit of the water level; `'N'` where the level has no digit.
    pub open spec fn glyph(self) -> char {
        if 0 <= self.water_level() <= u32::MAX {
            match decimal_digit(self.water_level() as u32) {
                Some(c) => c,
                None => 'N',
            }
        } else {
            'N'
        }
    }

    /// Water is blue, the darker the deeper its bed; land is green, the
    /// darker the higher, and a dike is drawn as land one step higher.
    pub open spec fn background(self) -> (u8, u8, u8) {
        match self.tile_type() {
            TileType::Water => {
                if self.height == 1 {
                    rgb_dark_blue()
                } else if self.height == 2 {
                    rgb_blue_violet()
                } else if self.height == 3 {
                    rgb_blue()
                } else {
                    rgb_light_blue()
                }
            },
            TileType::Flatland => {
                if self.height == 5 {
                    rgb_light_green()
                } else if self.height == 6 {
                    rgb_green()
                } else if self.height == 7 {
                    rgb_dark_green()
                } else {
                    rgb_green_yellow()
                }
            },
            TileType::Dike => {
                if self.height == 4 {
                    rgb_light_green()
                } else if self.height == 5 {
                    rgb_green()
                } else if self.height == 6 {
                    rgb_dark_green()
                } else {
                    rgb_green_yellow()
                }
            },
        }
    }

    /// Dark green on the lighter greens, light green on dark green, white on
    /// water.
    pub open spec fn foreground(self) -> (u8, u8, u8) {
        let bg = self.background();
        if bg == rgb_light_green() || bg == rgb_green() || bg == rgb_green_yellow() {
            rgb_dark_green()
        } else if bg == rgb_dark_green() {
            rgb_light_green()
        } else {
            rgb_white()
        }
    }
}

/// A cell: the elevation of its land, the water standing on it, and what
/// has been built on it.
#[derive(Copy, Clone, PartialEq, Eq, Structural, Debug)]
pub struct MapTile {
    height: i32,
    water: i32,
    improvement: TileImprovement,
}

impl View for MapTile {
    type V = TileModel;

    closed spec fn view(&self) -> TileModel {
        TileModel {
            height: self.height as int,
            water: self.water as int,
            improvement: self.improvement,
        }
    }
}

impl MapTile {
    /// A new cell of the given elevation, brought into the range of
    /// elevations.
    pub fn new(height: i32) -> (tile: MapTile)
        ensures
            tile@ == TileModel::fresh(height as int),
            tile@.wf(),
            tile@.column_fits(),
    {
        let h: i32 = if height < SEA_BOTTOM {
            SEA_BOTTOM
        } else if height > MAX_HEIGHT {
            MAX_HEIGHT
        } else {
            height
        };
        let water: i32 = if h <= SEA_LEVEL { SEA_LEVEL - h } else { 0 };
        MapTile { height: h, water, improvement: TileImprovement::Unimproved }
    }

    /// Whether the cell is within its bounds.
    pub fn is_well_formed(&self) -> (ok: bool)
        ensures
            ok == self@.wf(),
    {
        SEA_BOTTOM <= self.height && self.height <= MAX_HEIGHT && 0 <= self.water && self.water
            <= MAX_HEIGHT - SEA_BOTTOM
    }

    /// Whether the column keeps within the highest level.
    pub fn column_fits(&self) -> (ok: bool)
        requires
            self@.wf(),
        ensures
            ok == self@.column_fits(),
    {
        self.height + self.water <= MAX_HEIGHT
    }

    pub fn height(&self) -> (h: i32)
        ensures
            h == self@.height,
    {
        self.height
    }

    pub fn water(&self) -> (w: i32)
        ensures
            w == self@.water,
    {
        self.water
    }

    pub fn improvement(&self) -> (kind: TileImprovement)
        ensures
            kind == self@.improvement,
    {
        self.improvement
    }

    pub fn tile_type(&self) -> (kind: TileType)
        ensures
            kind == self@.tile_type(),
    {
        if self.water > 0 {
            TileType::Water
        } else {
            match self.improvement {
                TileImprovement::Dike => TileType::Dike,
                _ => TileType::Flatland,
            }
        }
    }

    /// Raises the land by one, up to the highest elevation.
    pub fn increase_height(&mut self)
        requires
            old(self)@.wf(),
        ensures
            final(self)@ == old(self)@.raised(),
            final(self)@.wf(),
            final(self)@.column_fits() <==> (old(self)@.height == MAX_HEIGHT
                && old(self)@.water == 0) || old(self)@.water_level() < MAX_HEIGHT,
    {
        if self.height < MAX_HEIGHT {
            self.height = self.height + 1;
        }
    }

    /// Lowers the land by one, down to the sea floor.
    pub fn lower_height(&mut self)
        requires
            old(self)@.wf(),
        ensures
            final(self)@ == old(self)@.lowered(),
            final(self)@.wf(),
            old(self)@.column_fits() ==> final(self)@.column_fits(),
    {
        if self.height > SEA_BOTTOM {
            self.height = self.height - 1;
        }
    }

    /// Adds water, as far as the column has room. The sea floor keeps its
    /// water.
    pub fn add_water(&mut self, amount: i32)
        requires
            old(self)@.wf(),
        ensures
            final(self)@ == old(self)@.flooded(amount as int),
            final(self)@.wf(),
            old(self)@.height > SEA_BOTTOM ==> final(self)@.column_fits(),
    {
        if self.height > SEA_BOTTOM {
            let room: i32 = MAX_HEIGHT - self.height;
            if amount > room - self.water {
                self.water = room;
            } else if amount < -self.water {
                self.water = 0;
            } else {
                self.water = self.water + amount;
            }
        }
    }

    /// Removes water, down to the bed. The sea floor keeps its water.
    pub fn remove_water(&mut self, amount: i32)
        requires
            old(self)@.wf(),
        ensures
            final(self)@ == old(self)@.drained(amount as int),
            final(self)@.wf(),
            old(self)@.column_fits() ==> final(self)@.column_fits(),
    {
        if self.height > SEA_BOTTOM {
            let room: i32 = MAX_HEIGHT - self.height;
            if amount > self.water {
                self.water = 0;
            } else if amount >= 0 || amount >= self.water - room {
                self.water = self.water - amount;
            } else if self.water < room {
                self.water = room;
            }
        }
    }

    /// Brings the water column to the level `target` as the sea does, and
    /// says whether the cell counts as connected to the sea afterwards.
    pub fn level_to(&mut self, target: i32) -> (joined: bool)
        requires
            old(self)@.wf(),
        ensures
            final(self)@ == old(self)@.levelled(target as int),
            joined == old(self)@.joins_sea(target as int),
            final(self)@.wf(),
            old(self)@.column_fits() ==> final(self)@.column_fits(),
    {
        let level: i32 = self.water + self.height;
        if level < target {
            if target <= MAX_HEIGHT {
                self.water = target - self.height;
            } else {
                self.water = MAX_HEIGHT - self.height;
            }
            true
        } else if level > target {
            if self.height >= target {
                self.water = 0;
            } else {
                self.water = target - self.height;
            }
            self.water > 0
        } else {
            false
        }
    }

    /// Sets what is built on the cell, whatever the cell holds. Whether a
    /// dike may be built there is for the caller to decide.
    pub fn set_improvement(&mut self, improvement: TileImprovement)
        ensures
            final(self)@ == (TileModel { improvement, ..old(self)@ }),
    {
        self.improvement = improvement;
    }

    pub fn water_level(&self) -> (level: i32)
        requires
            self@.wf(),
        ensures
            level == self@.water_level(),
    {
        self.water + self.height
    }

    /// The digit of the water level; `'N'` where the level has no digit.
    pub fn screen_glyph(&self) -> (glyph: char)
        requires
            self@.wf(),
        ensures
            glyph == self@.glyph(),
    {
        let level: i32 = self.water_level();
        match digit_char(level as u32) {
            Some(glyph) => glyph,
            None => 'N',
        }
    }

    /// The colour behind the glyph.
    pub fn screen_color_bg(&self) -> (color: (u8, u8, u8))
        ensures
            color == self@.background(),
    {
        match self.tile_type() {
            TileType::Water => {
                match self.height {
                    1 => dark_blue(),
                    2 => blue_violet(),
                    3 => blue(),
                    _ => light_blue(),
                }
            },
            TileType::Flatland => {
                match self.height {
                    5 => light_green(),
                    6 => green(),
                    7 => dark_green(),
                    _ => green_yellow(),
                }
            },
            TileType::Dike => {
                match self.height {
                    4 => light_green(),
                    5 => green(),
                    6 => dark_green(),
                    _ => green_yellow(),
                }
            },
        }
    }

    /// The colour of the glyph.
    pub fn screen_color_fg(&self) -> (color: (u8, u8, u8))
        ensures
            color == self@.foreground(),
    {
        let bg = self.screen_color_bg();
        let lg = light_green();
        let g = green();
        let gy = green_yellow();
        let dg = dark_green();
        if same_color(bg, lg) || same_color(bg, g) || same_color(bg, gy) {
            dark_green()
        } else if same_color(bg, dg) {
            light_green()
        } else {
            white()
        }
    }
}

fn same_color(a: (u8, u8, u8), b: (u8, u8, u8)) -> (same: bool)
    ensures
        same == (a == b),
{
    a.0 == b.0 && a.1 == b.1 && a.2 == b.2
}

} // verus!
