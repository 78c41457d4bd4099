//! A session: the grid, the cell the player has selected and the command
//! that is active.

use vstd::prelude::*;
use crate::bracket::rng_new;
use crate::command::Command;
use crate::grid::{dikes_dry, Coordinate, TerrainGrid};
use crate::map_builder::{fixed_layout, MapBuilder};

verus! {

/// A session of the game.
pub struct State {
    pub map: TerrainGrid,
    pub selected_tile: Coordinate,
    pub active_command: Command,
    pub count: i32,
}

impl State {
    /// The session is as a new one: the grid in the fixed layout, the corner
    /// selected, flooding active.
    pub open spec fn is_fresh(&self) -> bool {
        &&& self.map.cells() == fixed_layout()
        &&& self.map.river_source == (Coordinate { x: 20, y: 49 })
        &&& self.map.connected_to_sea@.len() == 0
        &&& self.selected_tile == (Coordinate { x: 0, y: 0 })
        &&& self.active_command == Command::Flood
        &&& self.count == 0
    }

    /// A new session.
    pub fn new() -> (state: State)
        ensures
            state.is_fresh(),
            state.map.wf(),
            dikes_dry(state.map.cells()),
    {
        let mut rng = rng_new();
        let map_builder = MapBuilder::new(&mut rng, false);
        State {
            map: map_builder.map,
            active_command: Command::Flood,
            selected_tile: Coordinate::new(0, 0),
            count: 0,
        }
    }
}

} // verus!
