//! The settling of water after the land of one cell has changed. Starting at
//! that cell, each cell that is met gives water, one unit per neighbour, to
//! the neighbours that lie no higher than itself, lowest first, and every
//! neighbour that received water is met in turn.

use std::collections::VecDeque;
use vstd::prelude::*;
use crate::entry::{
    entries_on_grid, insert_ranked, lemma_insert_holds, lemma_insert_keeps_rank,
    lemma_insert_members, rank_in, ranked,
    TileEntry,
};
use crate::grid::{
    cell_index, columns_fit, dikes_dry, grid_wf, in_grid, lemma_water_after_update, map_idx, total_water, Coordinate,
    TerrainGrid, NUM_TILES,
};
use crate::marks::{lemma_mark_one, unvisited_count};
use crate::sea::adjacent;
use crate::tile::{TileModel, TileType, MAX_HEIGHT, SEA_BOTTOM, SEA_LEVEL};

verus! {

/// A cell can give water away unless its land is at the highest elevation,
/// it is a dry dike, or it is the sea floor.
pub open spec fn gives(cell: TileModel) -> bool {
    cell.height < MAX_HEIGHT && cell.tile_type() != TileType::Dike && cell.height > SEA_BOTTOM
}

/// The cell `n` can take one unit of water: it has not been met, it is no
/// dry dike, it is not the sea floor and its column is not full.
pub open spec fn accepts(cells: Seq<TileModel>, visited: Seq<bool>, n: int) -> bool {
    &&& 0 <= n < cells.len()
    &&& n < visited.len()
    &&& !visited[n]
    &&& cells[n].tile_type() != TileType::Dike
    &&& cells[n].height > SEA_BOTTOM
    &&& cells[n].water_level() < MAX_HEIGHT
}

/// One unit of water taken from the cell `from` and given to the cell `to`.
pub open spec fn moved(cells: Seq<TileModel>, from: int, to: int) -> Seq<TileModel> {
    let drained = cells.update(from, cells[from].drained(1));
    drained.update(to, drained[to].flooded(1))
}

/// The two grids have the same land and the same improvements.
pub open spec fn same_ground(a: Seq<TileModel>, b: Seq<TileModel>) -> bool {
    &&& a.len() == b.len()
    &&& forall|i: int|
        0 <= i < a.len() ==> (#[trigger] a[i]).height == b[i].height && a[i].improvement
            == b[i].improvement
}

/// No cell has been met.
pub open spec fn unmarked() -> Seq<bool> {
    Seq::new(NUM_TILES as nat, |i: int| false)
}

/// The cell at `(x, y)` with its present water level, as it is ranked.
pub open spec fn entry_at(cells: Seq<TileModel>, x: int, y: int) -> TileEntry {
    TileEntry {
        x: x as i32,
        y: y as i32,
        water_level: cells[cell_index(x, y)].water_level() as i32,
    }
}

/// The list with the cell at `(x, y)` ranked in at its present water level,
/// where `(x, y)` lies on the grid.
pub open spec fn with_neighbor(list: Seq<TileEntry>, cells: Seq<TileModel>, x: int, y: int) -> Seq<
    TileEntry,
> {
    if in_grid(x, y) {
        insert_ranked(list, entry_at(cells, x, y))
    } else {
        list
    }
}

/// The neighbours of `pos` on the grid, to the right, left, below and above,
/// ranked by their water levels.
pub open spec fn ranked_neighbors(cells: Seq<TileModel>, pos: Coordinate) -> Seq<TileEntry> {
    let x = pos.x as int;
    let y = pos.y as int;
    with_neighbor(
        with_neighbor(
            with_neighbor(with_neighbor(Seq::empty(), cells, x + 1, y), cells, x - 1, y),
            cells,
            x,
            y + 1,
        ),
        cells,
        x,
        y - 1,
    )
}

/// What the cell `cur` does with the candidates, taken in their order, and
/// which cells are to be met next. It stops when it is dry, when its level
/// is not above the sea level, or when the next candidate was ranked at a
/// level above its own. A candidate that cannot take water is passed over;
/// any other receives one unit from `cur`.
pub open spec fn pour(
    cells: Seq<TileModel>,
    visited: Seq<bool>,
    cur: int,
    candidates: Seq<TileEntry>,
) -> (Seq<TileModel>, Seq<Coordinate>)
    decreases candidates.len(),
{
    if candidates.len() == 0 || cells[cur].water <= 0 || cells[cur].water_level() <= SEA_LEVEL
        || candidates[0].water_level > cells[cur].water_level() {
        (cells, Seq::empty())
    } else if !accepts(cells, visited, candidates[0].index()) {
        pour(cells, visited, cur, candidates.skip(1))
    } else {
        let rest = pour(
            moved(cells, cur, candidates[0].index()),
            visited,
            cur,
            candidates.skip(1),
        );
        (rest.0, seq![Coordinate { x: candidates[0].x, y: candidates[0].y }] + rest.1)
    }
}

/// What meeting the cell at `pos` does to the grid, and which cells are to
/// be met next. `visited` holds the mark of `pos` already.
pub open spec fn visit(cells: Seq<TileModel>, visited: Seq<bool>, pos: Coordinate) -> (
    Seq<TileModel>,
    Seq<Coordinate>,
) {
    if gives(cells[pos.index()]) {
        pour(cells, visited, pos.index(), ranked_neighbors(cells, pos))
    } else {
        (cells, Seq::empty())
    }
}

/// The grid after the queue of cells to be met has run empty. A coordinate
/// off the grid, or one of a cell met before, is dropped; any other is
/// marked and met, and what it names to be met next joins the end of the
/// queue.
pub open spec fn settled(cells: Seq<TileModel>, visited: Seq<bool>, queue: Seq<Coordinate>) -> Seq<
    TileModel,
>
    decreases unvisited_count(visited), queue.len(),
{
    if queue.len() == 0 {
        cells
    } else {
        let pos = queue[0];
        let rest = queue.skip(1);
        if !in_grid(pos.x as int, pos.y as int) || pos.index() >= visited.len()
            || visited[pos.index()] {
            settled(cells, visited, rest)
        } else {
            let marked = visited.update(pos.index(), true);
            proof {
                lemma_mark_one(visited, pos.index());
            }
            let step = visit(cells, marked, pos);
            settled(step.0, marked, rest + step.1)
        }
    }
}

/// The cells that have been met when the queue has run empty: the marks at
/// the end of the settling that `settled` describes.
pub open spec fn met(cells: Seq<TileModel>, visited: Seq<bool>, queue: Seq<Coordinate>) -> Seq<
    bool,
>
    decreases unvisited_count(visited), queue.len(),
{
    if queue.len() == 0 {
        visited
    } else {
        let pos = queue[0];
        let rest = queue.skip(1);
        if !in_grid(pos.x as int, pos.y as int) || pos.index() >= visited.len()
            || visited[pos.index()] {
            met(cells, visited, rest)
        } else {
            let marked = visited.update(pos.index(), true);
            proof {
                lemma_mark_one(visited, pos.index());
            }
            let step = visit(cells, marked, pos);
            met(step.0, marked, rest + step.1)
        }
    }
}

/// The rule of the settling would move a unit from the cell `a` to the
/// cell `b`: `a` can give water, holds some and stands above the sea level,
/// and `b` stands no higher and can take a unit.
pub open spec fn fires(cells: Seq<TileModel>, marks: Seq<bool>, a: int, b: int) -> bool {
    &&& gives(cells[a])
    &&& cells[a].water > 0
    &&& cells[a].water_level() > SEA_LEVEL
    &&& cells[b].water_level() <= cells[a].water_level()
    &&& accepts(cells, marks, b)
}

/// Some entry of the queue names the cell `b` of the grid.
pub open spec fn queued(queue: Seq<Coordinate>, b: int) -> bool {
    exists|j: int|
        0 <= j < queue.len() && in_grid((#[trigger] queue[j]).x as int, queue[j].y as int)
            && queue[j].index() == b
}

/// Every cell that has been met is spent towards each of its neighbours:
/// the rule would move nothing from it to the neighbour, unless the
/// neighbour is still in the queue.
pub open spec fn spent_so_far(cells: Seq<TileModel>, visited: Seq<bool>, queue: Seq<Coordinate>) -> bool {
    forall|a: int, b: int| #[trigger]
        adjacent(a, b) && visited[a] ==> !fires(cells, visited, a, b) || queued(queue, b)
}

/// The grid with the land of the cell at `(x, y)` lowered by one and the
/// water settled from there. Off the grid, the grid as it is.
pub open spec fn lowered_at(cells: Seq<TileModel>, x: int, y: int) -> Seq<TileModel> {
    if in_grid(x, y) {
        settled(
            cells.update(cell_index(x, y), cells[cell_index(x, y)].lowered()),
            unmarked(),
            seq![Coordinate { x: x as i32, y: y as i32 }],
        )
    } else {
        cells
    }
}

/// The entry stands for one of the first `k` neighbours of `(x, y)`, counted
/// to the right, to the left, below and above: it names a cell of the grid
/// there, with the water level of that cell.
pub open spec fn among_neighbors(
    entry: TileEntry,
    cells: Seq<TileModel>,
    x: int,
    y: int,
    k: int,
) -> bool {
    &&& in_grid(entry.x as int, entry.y as int)
    &&& entry == entry_at(cells, entry.x as int, entry.y as int)
    &&& {
        ||| k >= 1 && entry.x == x + 1 && entry.y == y
        ||| k >= 2 && entry.x == x - 1 && entry.y == y
        ||| k >= 3 && entry.x == x && entry.y == y + 1
        ||| k >= 4 && entry.x == x && entry.y == y - 1
    }
}

/// Ranking in the neighbour `k + 1` of `(x, y)` keeps a list of the first
/// `k` neighbours ranked.
proof fn lemma_with_neighbor_ranked(
    list: Seq<TileEntry>,
    cells: Seq<TileModel>,
    x: int,
    y: int,
    k: int,
    nx: int,
    ny: int,
)
    requires
        in_grid(x, y),
        ranked(list),
        forall|j: int| 0 <= j < list.len() ==> among_neighbors(#[trigger] list[j], cells, x, y, k),
        0 <= k < 4,
        k == 0 ==> nx == x + 1 && ny == y,
        k == 1 ==> nx == x - 1 && ny == y,
        k == 2 ==> nx == x && ny == y + 1,
        k == 3 ==> nx == x && ny == y - 1,
    ensures
        ranked(with_neighbor(list, cells, nx, ny)),
        forall|j: int|
            0 <= j < with_neighbor(list, cells, nx, ny).len() ==> among_neighbors(
                #[trigger] with_neighbor(list, cells, nx, ny)[j],
                cells,
                x,
                y,
                k + 1,
            ),
{
    if in_grid(nx, ny) {
        let entry = entry_at(cells, nx, ny);
        let longer = insert_ranked(list, entry);
        assert forall|j: int| 0 <= j < list.len() implies #[trigger] list[j] != entry by {
            assert(among_neighbors(list[j], cells, x, y, k));
        }
        lemma_insert_keeps_rank(list, entry);
        lemma_insert_members(list, entry);
        assert forall|j: int| 0 <= j < longer.len() implies among_neighbors(
            #[trigger] longer[j],
            cells,
            x,
            y,
            k + 1,
        ) by {
            if longer[j] != entry {
                let i = choose|i: int| 0 <= i < list.len() && list[i] == longer[j];
                assert(among_neighbors(list[i], cells, x, y, k));
            }
        }
    }
}

/// The neighbours of a cell, as they are ranked, come in the order in which
/// they are served: lowest level first, then lower `x`, then lower `y`. Each
/// stands for one of the four neighbours, where that lies on the grid.
pub proof fn lemma_neighbors_ranked(cells: Seq<TileModel>, pos: Coordinate)
    requires
        in_grid(pos.x as int, pos.y as int),
    ensures
        ranked(ranked_neighbors(cells, pos)),
        forall|j: int|
            0 <= j < ranked_neighbors(cells, pos).len() ==> among_neighbors(
                #[trigger] ranked_neighbors(cells, pos)[j],
                cells,
                pos.x as int,
                pos.y as int,
                4,
            ),
{
    let x = pos.x as int;
    let y = pos.y as int;
    let l0 = Seq::<TileEntry>::empty();
    lemma_with_neighbor_ranked(l0, cells, x, y, 0, x + 1, y);
    let l1 = with_neighbor(l0, cells, x + 1, y);
    lemma_with_neighbor_ranked(l1, cells, x, y, 1, x - 1, y);
    let l2 = with_neighbor(l1, cells, x - 1, y);
    lemma_with_neighbor_ranked(l2, cells, x, y, 2, x, y + 1);
    let l3 = with_neighbor(l2, cells, x, y + 1);
    lemma_with_neighbor_ranked(l3, cells, x, y, 3, x, y - 1);
}

/// Every neighbour of a cell that lies on the grid is among its ranked
/// neighbours, with its present water level.
pub proof fn lemma_neighbors_complete(cells: Seq<TileModel>, pos: Coordinate, nx: int, ny: int)
    requires
        in_grid(nx, ny),
        (nx == pos.x + 1 && ny == pos.y) || (nx == pos.x - 1 && ny == pos.y) || (nx == pos.x && ny
            == pos.y + 1) || (nx == pos.x && ny == pos.y - 1),
    ensures
        ranked_neighbors(cells, pos).contains(entry_at(cells, nx, ny)),
{
    let x = pos.x as int;
    let y = pos.y as int;
    let l0 = Seq::<TileEntry>::empty();
    let l1 = with_neighbor(l0, cells, x + 1, y);
    let l2 = with_neighbor(l1, cells, x - 1, y);
    let l3 = with_neighbor(l2, cells, x, y + 1);
    lemma_insert_holds(l0, entry_at(cells, x + 1, y));
    lemma_insert_holds(l1, entry_at(cells, x - 1, y));
    lemma_insert_holds(l2, entry_at(cells, x, y + 1));
    lemma_insert_holds(l3, entry_at(cells, x, y - 1));
}

/// Pouring never makes a cell take water that could not take it before, and
/// it never raises the level of the cell that pours.
pub proof fn lemma_pour_keeps_refusals(
    cells: Seq<TileModel>,
    visited: Seq<bool>,
    cur: int,
    candidates: Seq<TileEntry>,
    n: int,
)
    requires
        0 <= cur < cells.len(),
        cur < visited.len(),
        visited[cur],
    ensures
        pour(cells, visited, cur, candidates).0.len() == cells.len(),
        !accepts(cells, visited, n) ==> !accepts(
            pour(cells, visited, cur, candidates).0,
            visited,
            n,
        ),
        pour(cells, visited, cur, candidates).0[cur].water_level() <= cells[cur].water_level(),
    decreases candidates.len(),
{
    if candidates.len() == 0 || cells[cur].water <= 0 || cells[cur].water_level() <= SEA_LEVEL
        || candidates[0].water_level > cells[cur].water_level() {
    } else if !accepts(cells, visited, candidates[0].index()) {
        lemma_pour_keeps_refusals(cells, visited, cur, candidates.skip(1), n);
    } else {
        let next = moved(cells, cur, candidates[0].index());
        lemma_pour_keeps_refusals(next, visited, cur, candidates.skip(1), n);
    }
}

/// When a cell has poured, it is spent: it is dry, or its level is not above
/// the sea level, or each candidate has received a unit and is queued,
/// cannot take water, or was ranked at a level above the level the cell has
/// now. No further unit would leave the cell under the same rule.
pub proof fn lemma_pour_is_spent(
    cells: Seq<TileModel>,
    visited: Seq<bool>,
    cur: int,
    candidates: Seq<TileEntry>,
    j: int,
)
    requires
        0 <= cur < cells.len(),
        cur < visited.len(),
        visited[cur],
        ranked(candidates),
        0 <= j < candidates.len(),
    ensures
        ({
            let after = pour(cells, visited, cur, candidates);
            ||| after.0[cur].water <= 0
            ||| after.0[cur].water_level() <= SEA_LEVEL
            ||| after.1.contains(Coordinate { x: candidates[j].x, y: candidates[j].y })
            ||| !accepts(after.0, visited, candidates[j].index())
            ||| candidates[j].water_level > after.0[cur].water_level()
        }),
    decreases candidates.len(),
{
    let rest = candidates.skip(1);
    let after = pour(cells, visited, cur, candidates);
    assert forall|a: int, b: int| 0 <= a < b < rest.len() implies (#[trigger] rest[a]).before(
        #[trigger] rest[b],
    ) by {
        assert(candidates[a + 1].before(candidates[b + 1]));
    }
    if cells[cur].water <= 0 || cells[cur].water_level() <= SEA_LEVEL {
    } else if candidates[0].water_level > cells[cur].water_level() {
        if j > 0 {
            assert(candidates[0].before(candidates[j]));
        }
    } else if !accepts(cells, visited, candidates[0].index()) {
        if j == 0 {
            lemma_pour_keeps_refusals(cells, visited, cur, rest, candidates[0].index());
        } else {
            lemma_pour_is_spent(cells, visited, cur, rest, j - 1);
        }
    } else {
        let next = moved(cells, cur, candidates[0].index());
        let first = Coordinate { x: candidates[0].x, y: candidates[0].y };
        let inner = pour(next, visited, cur, rest);
        if j == 0 {
            assert(after.1[0] == first);
        } else {
            lemma_pour_is_spent(next, visited, cur, rest, j - 1);
            let wanted = Coordinate { x: candidates[j].x, y: candidates[j].y };
            if inner.1.contains(wanted) {
                let i = choose|i: int| 0 <= i < inner.1.len() && inner.1[i] == wanted;
                assert(after.1[i + 1] == wanted);
            }
        }
    }
}

/// When a cell that can give water has been met, it is spent with regard
/// to each of its neighbours on the grid.
pub proof fn lemma_visit_is_spent(
    cells: Seq<TileModel>,
    visited: Seq<bool>,
    pos: Coordinate,
    j: int,
)
    requires
        cells.len() == NUM_TILES,
        visited.len() == NUM_TILES,
        in_grid(pos.x as int, pos.y as int),
        visited[pos.index()],
        gives(cells[pos.index()]),
        0 <= j < ranked_neighbors(cells, pos).len(),
    ensures
        ({
            let neighbor = ranked_neighbors(cells, pos)[j];
            let after = visit(cells, visited, pos);
            ||| after.0[pos.index()].water <= 0
            ||| after.0[pos.index()].water_level() <= SEA_LEVEL
            ||| after.1.contains(Coordinate { x: neighbor.x, y: neighbor.y })
            ||| !accepts(after.0, visited, neighbor.index())
            ||| neighbor.water_level > after.0[pos.index()].water_level()
        }),
{
    lemma_neighbors_ranked(cells, pos);
    lemma_pour_is_spent(cells, visited, pos.index(), ranked_neighbors(cells, pos), j);
}

/// Pouring changes no cell that has been met, but the one that pours.
pub proof fn lemma_pour_keeps_met(
    cells: Seq<TileModel>,
    visited: Seq<bool>,
    cur: int,
    candidates: Seq<TileEntry>,
    i: int,
)
    requires
        cells.len() == visited.len(),
        0 <= cur < cells.len(),
        0 <= i < cells.len(),
        visited[i],
        i != cur,
    ensures
        pour(cells, visited, cur, candidates).0[i] == cells[i],
    decreases candidates.len(),
{
    if candidates.len() == 0 || cells[cur].water <= 0 || cells[cur].water_level() <= SEA_LEVEL
        || candidates[0].water_level > cells[cur].water_level() {
    } else if !accepts(cells, visited, candidates[0].index()) {
        lemma_pour_keeps_met(cells, visited, cur, candidates.skip(1), i);
    } else {
        let next = moved(cells, cur, candidates[0].index());
        lemma_pour_keeps_met(next, visited, cur, candidates.skip(1), i);
    }
}

/// A cell that has been met keeps its column for the rest of the settling:
/// what its visit left is what the settled grid holds.
pub proof fn lemma_settled_keeps_met(
    cells: Seq<TileModel>,
    visited: Seq<bool>,
    queue: Seq<Coordinate>,
    i: int,
)
    requires
        cells.len() == visited.len(),
        0 <= i < cells.len(),
        visited[i],
    ensures
        settled(cells, visited, queue)[i] == cells[i],
    decreases unvisited_count(visited), queue.len(),
{
    if queue.len() > 0 {
        let pos = queue[0];
        let rest = queue.skip(1);
        if !in_grid(pos.x as int, pos.y as int) || pos.index() >= visited.len()
            || visited[pos.index()] {
            lemma_settled_keeps_met(cells, visited, rest, i);
        } else {
            let marked = visited.update(pos.index(), true);
            lemma_mark_one(visited, pos.index());
            let step = visit(cells, marked, pos);
            if gives(cells[pos.index()]) {
                lemma_pour_keeps_met(cells, marked, pos.index(), ranked_neighbors(cells, pos), i);
                lemma_pour_keeps_refusals(
                    cells,
                    marked,
                    pos.index(),
                    ranked_neighbors(cells, pos),
                    i,
                );
            }
            lemma_settled_keeps_met(step.0, marked, rest + step.1, i);
        }
    }
}

/// What settling keeps: the bounds of every cell, the land and the
/// improvements, and the water of the grid; and, where they hold before,
/// that no dike stands in water and that no column rises above the highest
/// level.
pub open spec fn kept(before: Seq<TileModel>, after: Seq<TileModel>) -> bool {
    &&& grid_wf(after)
    &&& same_ground(before, after)
    &&& total_water(after) == total_water(before)
    &&& dikes_dry(before) ==> dikes_dry(after)
    &&& columns_fit(before) ==> columns_fit(after)
}

/// One unit moved from a cell that holds water above the sea floor to a cell
/// that accepts it leaves the first with one unit less and the second with
/// one more, and keeps what settling keeps.
pub proof fn lemma_moved_keeps(cells: Seq<TileModel>, visited: Seq<bool>, from: int, to: int)
    requires
        grid_wf(cells),
        visited.len() == NUM_TILES,
        0 <= from < NUM_TILES,
        visited[from],
        cells[from].height > SEA_BOTTOM,
        cells[from].water > 0,
        accepts(cells, visited, to),
    ensures
        kept(cells, moved(cells, from, to)),
        moved(cells, from, to)[from].water == cells[from].water - 1,
        moved(cells, from, to)[to].water == cells[to].water + 1,
        forall|i: int|
            0 <= i < NUM_TILES && i != from && i != to ==> moved(cells, from, to)[i] == cells[i],
{
    let drained = cells.update(from, cells[from].drained(1));
    let after = moved(cells, from, to);
    assert(cells[from].wf());
    assert(cells[to].wf());
    lemma_water_after_update(cells, from, drained[from]);
    lemma_water_after_update(drained, to, after[to]);
    assert forall|i: int| 0 <= i < after.len() implies (#[trigger] after[i]).wf() by {
        assert(cells[i].wf());
    }
    if dikes_dry(cells) {
        assert forall|i: int| 0 <= i < after.len() implies (#[trigger] after[i]).dike_is_dry() by {
            assert(cells[i].dike_is_dry());
        }
    }
    if columns_fit(cells) {
        assert forall|i: int| 0 <= i < after.len() implies (#[trigger] after[i]).column_fits() by {
            assert(cells[i].column_fits());
        }
    }
}

/// Pouring keeps what settling keeps.
pub proof fn lemma_pour_keeps(
    cells: Seq<TileModel>,
    visited: Seq<bool>,
    cur: int,
    candidates: Seq<TileEntry>,
)
    requires
        grid_wf(cells),
        visited.len() == NUM_TILES,
        0 <= cur < NUM_TILES,
        visited[cur],
        cells[cur].height > SEA_BOTTOM,
    ensures
        kept(cells, pour(cells, visited, cur, candidates).0),
    decreases candidates.len(),
{
    if candidates.len() == 0 || cells[cur].water <= 0 || cells[cur].water_level() <= SEA_LEVEL
        || candidates[0].water_level > cells[cur].water_level() {
    } else if !accepts(cells, visited, candidates[0].index()) {
        lemma_pour_keeps(cells, visited, cur, candidates.skip(1));
    } else {
        let next = moved(cells, cur, candidates[0].index());
        lemma_moved_keeps(cells, visited, cur, candidates[0].index());
        lemma_pour_keeps(next, visited, cur, candidates.skip(1));
        let after = pour(cells, visited, cur, candidates).0;
        assert(same_ground(cells, after)) by {
            assert forall|i: int| 0 <= i < cells.len() implies (#[trigger] cells[i]).height
                == after[i].height && cells[i].improvement == after[i].improvement by {
                assert(next[i].height == after[i].height);
            }
        }
    }
}

/// Settling keeps the bounds of every cell, the land and the improvements,
/// and the water of the grid: water is moved, never made or lost. Where no
/// dike stands in water before, none does after, and where no column rises
/// above the highest level before, none does after.
pub proof fn lemma_settled_keeps(cells: Seq<TileModel>, visited: Seq<bool>, queue: Seq<Coordinate>)
    requires
        grid_wf(cells),
        visited.len() == NUM_TILES,
    ensures
        kept(cells, settled(cells, visited, queue)),
    decreases unvisited_count(visited), queue.len(),
{
    if queue.len() > 0 {
        let pos = queue[0];
        let rest = queue.skip(1);
        if !in_grid(pos.x as int, pos.y as int) || pos.index() >= visited.len()
            || visited[pos.index()] {
            lemma_settled_keeps(cells, visited, rest);
        } else {
            let marked = visited.update(pos.index(), true);
            lemma_mark_one(visited, pos.index());
            let step = visit(cells, marked, pos);
            if gives(cells[pos.index()]) {
                lemma_pour_keeps(cells, marked, pos.index(), ranked_neighbors(cells, pos));
            }
            lemma_settled_keeps(step.0, marked, rest + step.1);
            let after = settled(cells, visited, queue);
            assert(same_ground(cells, after)) by {
                assert forall|i: int| 0 <= i < cells.len() implies (#[trigger] cells[i]).height
                    == after[i].height && cells[i].improvement == after[i].improvement by {
                    assert(step.0[i].height == after[i].height);
                }
            }
        }
    }
}

/// Lowering the land of a cell and letting the water settle keeps the water
/// of the grid and the bounds of every cell.
pub proof fn lemma_lowering_keeps_water(cells: Seq<TileModel>, x: int, y: int)
    requires
        grid_wf(cells),
    ensures
        grid_wf(lowered_at(cells, x, y)),
        total_water(lowered_at(cells, x, y)) == total_water(cells),
        dikes_dry(cells) ==> dikes_dry(lowered_at(cells, x, y)),
        columns_fit(cells) ==> columns_fit(lowered_at(cells, x, y)),
{
    if in_grid(x, y) {
        let idx = cell_index(x, y);
        let dug = cells.update(idx, cells[idx].lowered());
        assert(cells[idx].wf());
        lemma_water_after_update(cells, idx, cells[idx].lowered());
        assert forall|i: int| 0 <= i < dug.len() implies (#[trigger] dug[i]).wf() by {
            assert(cells[i].wf());
        }
        if dikes_dry(cells) {
            assert forall|i: int| 0 <= i < dug.len() implies (#[trigger] dug[i]).dike_is_dry() by {
                assert(cells[i].dike_is_dry());
            }
        }
        if columns_fit(cells) {
            assert forall|i: int| 0 <= i < dug.len() implies (#[trigger] dug[i]).column_fits() by {
                assert(cells[i].column_fits());
            }
        }
        lemma_settled_keeps(dug, unmarked(), seq![Coordinate { x: x as i32, y: y as i32 }]);
    }
}

/// Pouring changes only the cell that pours and the cells it queues.
pub proof fn lemma_pour_touches(
    cells: Seq<TileModel>,
    visited: Seq<bool>,
    cur: int,
    candidates: Seq<TileEntry>,
    i: int,
)
    requires
        cells.len() == visited.len(),
        0 <= cur < cells.len(),
        0 <= i < cells.len(),
        i != cur,
        entries_on_grid(candidates),
    ensures
        pour(cells, visited, cur, candidates).0[i] == cells[i] || queued(
            pour(cells, visited, cur, candidates).1,
            i,
        ),
    decreases candidates.len(),
{
    let rest = candidates.skip(1);
    if candidates.len() == 0 || cells[cur].water <= 0 || cells[cur].water_level() <= SEA_LEVEL
        || candidates[0].water_level > cells[cur].water_level() {
    } else {
        assert forall|j: int| 0 <= j < rest.len() implies in_grid(
            (#[trigger] rest[j]).x as int,
            rest[j].y as int,
        ) by {
            assert(rest[j] == candidates[j + 1]);
        }
        if !accepts(cells, visited, candidates[0].index()) {
            lemma_pour_touches(cells, visited, cur, rest, i);
        } else {
            let n = candidates[0].index();
            let next = moved(cells, cur, n);
            let inner = pour(next, visited, cur, rest);
            let after = pour(cells, visited, cur, candidates);
            lemma_pour_touches(next, visited, cur, rest, i);
            if i == n {
                assert(after.1[0].index() == i);
            } else if queued(inner.1, i) {
                let j = choose|j: int|
                    0 <= j < inner.1.len() && in_grid(
                        (#[trigger] inner.1[j]).x as int,
                        inner.1[j].y as int,
                    ) && inner.1[j].index() == i;
                assert(after.1[j + 1] == inner.1[j]);
            }
        }
    }
}

/// Meeting a cell keeps every cell that has been met spent towards its
/// neighbours, and leaves the cell just met spent too.
pub proof fn lemma_visit_keeps_spent(
    cells: Seq<TileModel>,
    visited: Seq<bool>,
    rest: Seq<Coordinate>,
    pos: Coordinate,
)
    requires
        grid_wf(cells),
        visited.len() == NUM_TILES,
        in_grid(pos.x as int, pos.y as int),
        !visited[pos.index()],
        spent_so_far(cells, visited, seq![pos] + rest),
    ensures
        ({
            let marked = visited.update(pos.index(), true);
            let step = visit(cells, marked, pos);
            &&& grid_wf(step.0)
            &&& spent_so_far(step.0, marked, rest + step.1)
        }),
{
    let cur = pos.index();
    let x = pos.x as int;
    let y = pos.y as int;
    let marked = visited.update(cur, true);
    let step = visit(cells, marked, pos);
    let after = step.0;
    let candidates = ranked_neighbors(cells, pos);
    let queue = seq![pos] + rest;
    let later = rest + step.1;
    lemma_neighbors_ranked(cells, pos);
    assert(entries_on_grid(candidates)) by {
        assert forall|j: int| 0 <= j < candidates.len() implies in_grid(
            (#[trigger] candidates[j]).x as int,
            candidates[j].y as int,
        ) by {
            assert(among_neighbors(candidates[j], cells, x, y, 4));
        }
    }
    assert(cells[cur].wf());
    if gives(cells[cur]) {
        lemma_pour_keeps(cells, marked, cur, candidates);
    }
    assert forall|k: int| queued(step.1, k) implies queued(later, k) by {
        let j = choose|j: int|
            0 <= j < step.1.len() && in_grid((#[trigger] step.1[j]).x as int, step.1[j].y as int)
                && step.1[j].index() == k;
        assert(later[rest.len() + j] == step.1[j]);
    }
    assert forall|a: int, b: int| #[trigger] adjacent(a, b) && marked[a] implies !fires(
        after,
        marked,
        a,
        b,
    ) || queued(later, b) by {
        if gives(cells[cur]) && b != cur {
            lemma_pour_touches(cells, marked, cur, candidates, b);
        }
        if a != cur {
            if gives(cells[cur]) {
                lemma_pour_keeps_met(cells, marked, cur, candidates, a);
            }
            assert(after[a] == cells[a]);
            if b != cur && !queued(step.1, b) {
                assert(after[b] == cells[b]);
                if queued(queue, b) {
                    let j = choose|j: int|
                        0 <= j < queue.len() && in_grid(
                            (#[trigger] queue[j]).x as int,
                            queue[j].y as int,
                        ) && queue[j].index() == b;
                    assert(j > 0);
                    assert(later[j - 1] == queue[j]);
                } else {
                    assert(!fires(cells, visited, a, b));
                }
            }
        } else if gives(cells[cur]) {
            assert(cur % 80 == x);
            let nx = if b == cur + 1 {
                x + 1
            } else if b == cur - 1 {
                x - 1
            } else {
                x
            };
            let ny = if b == cur + 80 {
                y + 1
            } else if b == cur - 80 {
                y - 1
            } else {
                y
            };
            assert(in_grid(nx, ny) && cell_index(nx, ny) == b);
            lemma_neighbors_complete(cells, pos, nx, ny);
            let entry = entry_at(cells, nx, ny);
            let j = choose|j: int| 0 <= j < candidates.len() && candidates[j] == entry;
            assert(cells[b].wf());
            lemma_pour_is_spent(cells, marked, cur, candidates, j);
            let wanted = Coordinate { x: candidates[j].x, y: candidates[j].y };
            if step.1.contains(wanted) {
                let k = choose|k: int| 0 <= k < step.1.len() && step.1[k] == wanted;
                assert(step.1[k].index() == b);
                assert(queued(step.1, b));
            }
        }
    }
}

/// When the settling ends, the rule would move nothing more from any cell
/// that has been met to any of its neighbours, given that the cells met
/// before were spent towards all neighbours but those in the queue.
pub proof fn lemma_settled_is_spent(
    cells: Seq<TileModel>,
    visited: Seq<bool>,
    queue: Seq<Coordinate>,
)
    requires
        grid_wf(cells),
        visited.len() == NUM_TILES,
        spent_so_far(cells, visited, queue),
    ensures
        forall|a: int, b: int| #[trigger]
            adjacent(a, b) && met(cells, visited, queue)[a] ==> !fires(
                settled(cells, visited, queue),
                met(cells, visited, queue),
                a,
                b,
            ),
    decreases unvisited_count(visited), queue.len(),
{
    if queue.len() == 0 {
        assert forall|a: int, b: int| #[trigger] adjacent(a, b) && visited[a] implies !fires(
            cells,
            visited,
            a,
            b,
        ) by {
            assert(!queued(queue, b));
        }
    } else {
        let pos = queue[0];
        let rest = queue.skip(1);
        assert(queue =~= seq![pos] + rest);
        if !in_grid(pos.x as int, pos.y as int) || pos.index() >= visited.len()
            || visited[pos.index()] {
            assert forall|a: int, b: int| #[trigger] adjacent(a, b) && visited[a] implies !fires(
                cells,
                visited,
                a,
                b,
            ) || queued(rest, b) by {
                if queued(queue, b) && !visited[b] {
                    let j = choose|j: int|
                        0 <= j < queue.len() && in_grid(
                            (#[trigger] queue[j]).x as int,
                            queue[j].y as int,
                        ) && queue[j].index() == b;
                    assert(j > 0);
                    assert(rest[j - 1] == queue[j]);
                }
            }
            lemma_settled_is_spent(cells, visited, rest);
        } else {
            let marked = visited.update(pos.index(), true);
            lemma_mark_one(visited, pos.index());
            let step = visit(cells, marked, pos);
            lemma_visit_keeps_spent(cells, visited, rest, pos);
            lemma_settled_is_spent(step.0, marked, rest + step.1);
        }
    }
}

/// The fixed point of the settling. When the water has settled from `pos`,
/// the rule would move nothing more from any cell that was met to any of
/// its four neighbours: the cell cannot give, is dry or stands no higher
/// than the sea level, or the neighbour stands higher or cannot take a unit.
pub proof fn lemma_recalculated_is_spent(cells: Seq<TileModel>, pos: Coordinate)
    requires
        grid_wf(cells),
    ensures
        forall|a: int, b: int| #[trigger]
            adjacent(a, b) && met(cells, unmarked(), seq![pos])[a] ==> !fires(
                settled(cells, unmarked(), seq![pos]),
                met(cells, unmarked(), seq![pos]),
                a,
                b,
            ),
{
    lemma_settled_is_spent(cells, unmarked(), seq![pos]);
}

impl TerrainGrid {
    /// Lowers the land of the cell by one and lets the water settle from
    /// there. Off the grid, nothing changes.
    pub fn lower_height(&mut self, x: i32, y: i32)
        requires
            old(self).wf(),
        ensures
            final(self).wf(),
            final(self).cells() == lowered_at(old(self).cells(), x as int, y as int),
            final(self).river_source == old(self).river_source,
            final(self).connected_to_sea == old(self).connected_to_sea,
            dikes_dry(old(self).cells()) ==> dikes_dry(final(self).cells()),
            columns_fit(old(self).cells()) ==> columns_fit(final(self).cells()),
            total_water(final(self).cells()) == total_water(old(self).cells()),
    {
        if !self.valid_coordinates(x, y) {
            return ;
        }
        let idx = map_idx(x, y);
        assert(self.cells()[idx as int].wf());
        self.tiles[idx].lower_height();
        assert(self.cells() =~= old(self).cells().update(
            idx as int,
            old(self).cells()[idx as int].lowered(),
        ));
        proof {
            lemma_water_after_update(old(self).cells(), idx as int, self.cells()[idx as int]);
        }
        self.recalculate_water(Coordinate::new(x, y));
    }

    /// Lets the water settle, starting at `initial_pos`. Land and
    /// improvements stay as they are, and no water is gained or lost. At
    /// the end the rule would move nothing more from any cell that was met
    /// to any of its neighbours.
    pub fn recalculate_water(&mut self, initial_pos: Coordinate)
        requires
            old(self).wf(),
        ensures
            final(self).wf(),
            final(self).cells() == settled(old(self).cells(), unmarked(), seq![initial_pos]),
            forall|a: int, b: int| #[trigger]
                adjacent(a, b) && met(old(self).cells(), unmarked(), seq![initial_pos])[a]
                    ==> !fires(
                    final(self).cells(),
                    met(old(self).cells(), unmarked(), seq![initial_pos]),
                    a,
                    b,
                ),
            same_ground(old(self).cells(), final(self).cells()),
            total_water(final(self).cells()) == total_water(old(self).cells()),
            dikes_dry(old(self).cells()) ==> dikes_dry(final(self).cells()),
            columns_fit(old(self).cells()) ==> columns_fit(final(self).cells()),
            final(self).river_source == old(self).river_source,
            final(self).connected_to_sea == old(self).connected_to_sea,
    {
        let ghost cells0 = self.cells();
        let mut to_be_recalculated: VecDeque<Coordinate> = VecDeque::new();
        let mut visited: Vec<bool> = Vec::new();
        while visited.len() < NUM_TILES
            invariant
                visited.len() <= NUM_TILES,
                forall|i: int| 0 <= i < visited.len() ==> !(#[trigger] visited[i]),
            decreases NUM_TILES - visited.len(),
        {
            visited.push(false);
        }
        to_be_recalculated.push_back(initial_pos);
        assert(visited@ =~= unmarked());
        assert(to_be_recalculated@ =~= seq![initial_pos]);
        while to_be_recalculated.len() > 0
            invariant
                self.wf(),
                visited@.len() == NUM_TILES,
                settled(self.cells(), visited@, to_be_recalculated@) == settled(
                    cells0,
                    unmarked(),
                    seq![initial_pos],
                ),
                same_ground(cells0, self.cells()),
                total_water(self.cells()) == total_water(cells0),
                dikes_dry(cells0) ==> dikes_dry(self.cells()),
                columns_fit(cells0) ==> columns_fit(self.cells()),
                self.river_source == old(self).river_source,
                self.connected_to_sea == old(self).connected_to_sea,
            decreases unvisited_count(visited@), to_be_recalculated@.len(),
        {
            let ghost cells1 = self.cells();
            let ghost visited1 = visited@;
            let ghost queue1 = to_be_recalculated@;
            let pos = to_be_recalculated.pop_front().unwrap();
            assert(to_be_recalculated@ =~= queue1.skip(1));
            self.water_visit(pos, &mut to_be_recalculated, &mut visited);
            proof {
                if in_grid(pos.x as int, pos.y as int) && !visited1[pos.index()] {
                    lemma_mark_one(visited1, pos.index());
                }
            }
        }
        proof {
            lemma_recalculated_is_spent(cells0, initial_pos);
        }
    }

    /// Meets the cell at `pos`, unless `pos` lies off the grid or the cell
    /// has been met: marks it and, where it can give water away, pours to
    /// its neighbours.
    fn water_visit(
        &mut self,
        pos: Coordinate,
        to_be_recalculated: &mut VecDeque<Coordinate>,
        visited: &mut Vec<bool>,
    )
        requires
            old(self).wf(),
            old(visited)@.len() == NUM_TILES,
        ensures
            final(self).wf(),
            final(visited)@.len() == NUM_TILES,
            !in_grid(pos.x as int, pos.y as int) || old(visited)@[pos.index()] ==> {
                &&& final(self).cells() == old(self).cells()
                &&& final(visited)@ == old(visited)@
                &&& final(to_be_recalculated)@ == old(to_be_recalculated)@
            },
            in_grid(pos.x as int, pos.y as int) && !old(visited)@[pos.index()] ==> {
                &&& final(visited)@ == old(visited)@.update(pos.index(), true)
                &&& final(self).cells() == visit(old(self).cells(), final(visited)@, pos).0
                &&& final(to_be_recalculated)@ == old(to_be_recalculated)@ + visit(
                    old(self).cells(),
                    final(visited)@,
                    pos,
                ).1
            },
            same_ground(old(self).cells(), final(self).cells()),
            total_water(final(self).cells()) == total_water(old(self).cells()),
            dikes_dry(old(self).cells()) ==> dikes_dry(final(self).cells()),
            columns_fit(old(self).cells()) ==> columns_fit(final(self).cells()),
            final(self).river_source == old(self).river_source,
            final(self).connected_to_sea == old(self).connected_to_sea,
    {
        let x = pos.x;
        let y = pos.y;
        if !self.valid_coordinates(x, y) {
            return ;
        }
        let idx = map_idx(x, y);
        if visited[idx] {
            return ;
        }
        visited[idx] = true;
        assert(self.cells()[idx as int].wf());
        let tile = self.tiles[idx];
        if tile.height() >= MAX_HEIGHT || tile.tile_type() == TileType::Dike || tile.height()
            <= SEA_BOTTOM {
            assert(to_be_recalculated@ =~= old(to_be_recalculated)@ + Seq::<Coordinate>::empty());
            return ;
        }
        let neighbors = self.neighbors_by_level(x, y);
        self.pour_water(idx, &neighbors, to_be_recalculated, visited);
    }

    /// The neighbours of `(x, y)` on the grid, ranked by their water levels.
    fn neighbors_by_level(&self, x: i32, y: i32) -> (neighbors: Vec<TileEntry>)
        requires
            self.wf(),
            in_grid(x as int, y as int),
        ensures
            neighbors@ == ranked_neighbors(self.cells(), Coordinate { x, y }),
            entries_on_grid(neighbors@),
    {
        let mut neighbors: Vec<TileEntry> = Vec::new();
        if let Some(p) = self.valid_neighbor(x + 1, y) {
            let level = self.level_at(p);
            rank_in(&mut neighbors, TileEntry::new(p.x, p.y, level));
        }
        if let Some(p) = self.valid_neighbor(x - 1, y) {
            let level = self.level_at(p);
            rank_in(&mut neighbors, TileEntry::new(p.x, p.y, level));
        }
        if let Some(p) = self.valid_neighbor(x, y + 1) {
            let level = self.level_at(p);
            rank_in(&mut neighbors, TileEntry::new(p.x, p.y, level));
        }
        if let Some(p) = self.valid_neighbor(x, y - 1) {
            let level = self.level_at(p);
            rank_in(&mut neighbors, TileEntry::new(p.x, p.y, level));
        }
        neighbors
    }

    /// The water level of the cell at `pos`.
    fn level_at(&self, pos: Coordinate) -> (level: i32)
        requires
            self.wf(),
            in_grid(pos.x as int, pos.y as int),
        ensures
            level == self.cells()[pos.index()].water_level(),
    {
        let idx = map_idx(pos.x, pos.y);
        assert(self.cells()[idx as int].wf());
        self.tiles[idx].water_level()
    }

    /// Gives water from the cell at `idx` to the ranked neighbours, one unit
    /// each, as `pour` says, and queues every neighbour that received water.
    fn pour_water(
        &mut self,
        idx: usize,
        neighbors: &Vec<TileEntry>,
        to_be_recalculated: &mut VecDeque<Coordinate>,
        visited: &Vec<bool>,
    )
        requires
            old(self).wf(),
            visited@.len() == NUM_TILES,
            idx < NUM_TILES,
            visited@[idx as int],
            gives(old(self).cells()[idx as int]),
            entries_on_grid(neighbors@),
        ensures
            final(self).wf(),
            final(self).cells() == pour(old(self).cells(), visited@, idx as int, neighbors@).0,
            final(to_be_recalculated)@ == old(to_be_recalculated)@ + pour(
                old(self).cells(),
                visited@,
                idx as int,
                neighbors@,
            ).1,
            same_ground(old(self).cells(), final(self).cells()),
            total_water(final(self).cells()) == total_water(old(self).cells()),
            dikes_dry(old(self).cells()) ==> dikes_dry(final(self).cells()),
            columns_fit(old(self).cells()) ==> columns_fit(final(self).cells()),
            final(self).river_source == old(self).river_source,
            final(self).connected_to_sea == old(self).connected_to_sea,
    {
        let ghost cells0 = self.cells();
        let ghost queue0 = to_be_recalculated@;
        let ghost goal = pour(cells0, visited@, idx as int, neighbors@);
        let ghost mut pushed: Seq<Coordinate> = Seq::empty();
        let mut k: usize = 0;
        let mut flowing = true;
        assert(neighbors@.skip(0) =~= neighbors@);
        assert(pushed + goal.1 =~= goal.1);
        while flowing && k < neighbors.len()
            invariant
                self.wf(),
                visited@.len() == NUM_TILES,
                idx < NUM_TILES,
                visited@[idx as int],
                self.cells()[idx as int].height > SEA_BOTTOM,
                entries_on_grid(neighbors@),
                k <= neighbors.len(),
                goal == pour(cells0, visited@, idx as int, neighbors@),
                to_be_recalculated@ == queue0 + pushed,
                flowing ==> goal.0 == pour(
                    self.cells(),
                    visited@,
                    idx as int,
                    neighbors@.skip(k as int),
                ).0,
                flowing ==> goal.1 == pushed + pour(
                    self.cells(),
                    visited@,
                    idx as int,
                    neighbors@.skip(k as int),
                ).1,
                !flowing ==> goal.0 == self.cells() && goal.1 == pushed,
                same_ground(cells0, self.cells()),
                total_water(self.cells()) == total_water(cells0),
                dikes_dry(cells0) ==> dikes_dry(self.cells()),
                columns_fit(cells0) ==> columns_fit(self.cells()),
                self.river_source == old(self).river_source,
                self.connected_to_sea == old(self).connected_to_sea,
            decreases neighbors.len() - k + if flowing { 1int } else { 0int },
        {
            let ghost cells1 = self.cells();
            let ghost left = neighbors@.skip(k as int);
            assert(left[0] == neighbors@[k as int]);
            assert(left.skip(1) =~= neighbors@.skip(k + 1));
            assert(cells1[idx as int].wf());
            let tile = self.tiles[idx];
            let level = tile.water_level();
            let entry = neighbors[k];
            if tile.water() <= 0 || level <= SEA_LEVEL || entry.water_level > level {
                flowing = false;
                proof {
                    assert(pushed + Seq::<Coordinate>::empty() =~= pushed);
                }
            } else {
                let n = map_idx(entry.x, entry.y);
                assert(cells1[n as int].wf());
                let target = self.tiles[n];
                if !visited[n] && target.tile_type() != TileType::Dike && target.height()
                    > SEA_BOTTOM && target.water_level() < MAX_HEIGHT {
                    self.tiles[idx].remove_water(1);
                    let ghost cells2 = self.cells();
                    assert(cells2 =~= cells1.update(idx as int, cells1[idx as int].drained(1)));
                    self.tiles[n].add_water(1);
                    assert(self.cells() =~= moved(cells1, idx as int, n as int));
                    to_be_recalculated.push_back(Coordinate::new(entry.x, entry.y));
                    proof {
                        let next = Coordinate { x: entry.x, y: entry.y };
                        let rest = pour(self.cells(), visited@, idx as int, left.skip(1));
                        assert(pushed + (seq![next] + rest.1) =~= pushed.push(next) + rest.1);
                        assert(queue0 + pushed.push(next) =~= (queue0 + pushed).push(next));
                        pushed = pushed.push(next);
                        lemma_water_after_update(cells1, idx as int, cells2[idx as int]);
                        lemma_water_after_update(cells2, n as int, self.cells()[n as int]);
                    }
                }
                k += 1;
            }
        }
        proof {
            assert(to_be_recalculated@ =~= queue0 + goal.1);
        }
    }
}

} // verus!
