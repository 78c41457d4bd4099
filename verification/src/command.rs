//! The commands a player can give, and what each does to a session.

use vstd::prelude::*;
use crate::grid::raised_at;
use crate::map_builder::fixed_layout;
use crate::state::State;
use crate::tile::TileModel;
use crate::water::lowered_at;

verus! {

/// What the player can ask for.
#[derive(Debug, Copy, Clone, PartialEq, Eq, Structural)]
pub enum Command {
    Flood,
    Drain,
    RaiseHeight,
    LowerHeight,
    RestartGame,
}

/// The grid after `command` has been carried out on the cell at `(x, y)`.
/// Raising and lowering edit the land there. Flooding and draining are
/// bound to no edit of the grid, and a restart lays the grid out anew.
pub open spec fn commanded(cells: Seq<TileModel>, command: Command, x: int, y: int) -> Seq<
    TileModel,
> {
    match command {
        Command::Flood => cells,
        Command::Drain => cells,
        Command::RaiseHeight => raised_at(cells, x, y),
        Command::LowerHeight => lowered_at(cells, x, y),
        Command::RestartGame => fixed_layout(),
    }
}

/// Carries out `command` on the selected cell. A restart begins a new
/// session; any other command leaves all but the cells of the grid as it is.
pub fn execute_command(state: &mut State, command: Command)
    requires
        old(state).map.wf(),
    ensures
        final(state).map.wf(),
        final(state).map.cells() == commanded(
            old(state).map.cells(),
            command,
            old(state).selected_tile.x as int,
            old(state).selected_tile.y as int,
        ),
        command == Command::RestartGame ==> final(state).is_fresh(),
        command != Command::RestartGame ==> {
            &&& final(state).selected_tile == old(state).selected_tile
            &&& final(state).active_command == old(state).active_command
            &&& final(state).count == old(state).count
            &&& final(state).map.river_source == old(state).map.river_source
            &&& final(state).map.connected_to_sea == old(state).map.connected_to_sea
        },
{
    let x = state.selected_tile.x;
    let y = state.selected_tile.y;
    match command {
        Command::Flood => {},
        Command::Drain => {},
        Command::RaiseHeight => {
            state.map.increase_height(x, y);
        },
        Command::LowerHeight => {
            state.map.lower_height(x, y);
        },
        Command::RestartGame => {
            *state = State::new();
        },
    }
}

} // verus!
