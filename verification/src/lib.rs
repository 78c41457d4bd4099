//! A terrain grid of land and water: cells with an elevation and a water
//! column, dikes, the settling of water after an elevation edit, and the
//! levelling of the whole grid to a new sea level.

pub mod bracket;
pub mod command;
pub mod entry;
pub mod grid;
pub mod map_builder;
pub mod marks;
pub mod render;
pub mod sea;
pub mod state;
pub mod tile;
pub mod water;
