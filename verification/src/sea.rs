//! Levelling the whole grid to a new sea level: a sweep that starts at the
//! corner `(0, 0)`, walks from cell to neighbouring cell, and brings each
//! cell it meets to the new level once.

use vstd::prelude::*;
use crate::grid::{
    cell_index, columns_fit, dikes_dry, grid_wf, in_grid, map_idx, Coordinate, TerrainGrid,
    NUM_TILES,
};
use crate::marks::{lemma_mark_one, unvisited_count};
use crate::tile::{TileImprovement, TileModel, MAX_HEIGHT};

verus! {

/// Every cell levelled to `target`.
pub open spec fn levelled_grid(cells: Seq<TileModel>, target: int) -> Seq<TileModel> {
    Seq::new(cells.len(), |i: int| cells[i].levelled(target))
}

/// The indices of the cells that levelling to `target` records as connected
/// to the sea.
pub open spec fn joined_cells(cells: Seq<TileModel>, target: int) -> Set<int> {
    Set::new(|i: int| 0 <= i < cells.len() && cells[i].joins_sea(target))
}

/// `b` is the cell to the right or left of `a`, or the one below or above.
pub open spec fn adjacent(a: int, b: int) -> bool {
    &&& 0 <= a < NUM_TILES
    &&& 0 <= b < NUM_TILES
    &&& ((b == a + 1 && a % 80 != 79) || (b == a - 1 && a % 80 != 0) || b == a + 80 || b == a
        - 80)
}

/// Some entry of the work stack names the cell `b`.
pub open spec fn awaits(stack: Seq<Coordinate>, b: int) -> bool {
    exists|j: int| 0 <= j < stack.len() && (#[trigger] stack[j]).index() == b
}

/// Every entry of the work stack is a coordinate of the grid.
pub open spec fn on_grid(stack: Seq<Coordinate>) -> bool {
    forall|j: int|
        0 <= j < stack.len() ==> in_grid((#[trigger] stack[j]).x as int, stack[j].y as int)
}

pub open spec fn is_marked(visited: Seq<bool>, pos: Coordinate) -> bool {
    0 <= pos.index() < visited.len() && visited[pos.index()]
}

/// How many entries of the work stack name a cell that has been met already.
pub open spec fn stale_count(stack: Seq<Coordinate>, visited: Seq<bool>) -> nat
    decreases stack.len(),
{
    if stack.len() == 0 {
        0
    } else {
        stale_count(stack.drop_last(), visited) + if is_marked(visited, stack.last()) {
            1nat
        } else {
            0nat
        }
    }
}

/// What holds between two steps of the sweep over a grid that was `before`:
/// a cell is levelled exactly if it has been met; the cells recorded as
/// connected are those met that join the sea, each once; the stack names
/// cells of the grid only; the corner has been met or is on the stack, and
/// so is every neighbour of a cell that has been met.
pub open spec fn sweep_inv(
    before: Seq<TileModel>,
    target: int,
    cells: Seq<TileModel>,
    connected: Seq<usize>,
    visited: Seq<bool>,
    stack: Seq<Coordinate>,
) -> bool {
    &&& grid_wf(before)
    &&& cells.len() == NUM_TILES
    &&& visited.len() == NUM_TILES
    &&& forall|i: int|
        0 <= i < NUM_TILES ==> #[trigger] cells[i] == if visited[i] {
            before[i].levelled(target)
        } else {
            before[i]
        }
    &&& forall|k: int|
        0 <= k < connected.len() ==> {
            &&& (#[trigger] connected[k]) < NUM_TILES
            &&& visited[connected[k] as int]
            &&& before[connected[k] as int].joins_sea(target)
        }
    &&& forall|i: int|
        0 <= i < NUM_TILES && #[trigger] visited[i] && before[i].joins_sea(target) ==> exists|
            k: int,
        |
            0 <= k < connected.len() && #[trigger] connected[k] == i
    &&& connected.no_duplicates()
    &&& on_grid(stack)
    &&& (visited[0] || awaits(stack, 0))
    &&& forall|a: int, b: int| #[trigger]
        adjacent(a, b) && visited[a] && !visited[b] ==> awaits(stack, b)
}

/// A stack with one more entry names what it named before, and the cell of
/// the new entry.
pub proof fn lemma_awaits_push(stack: Seq<Coordinate>, pos: Coordinate, b: int)
    ensures
        awaits(stack.push(pos), b) <==> (awaits(stack, b) || pos.index() == b),
{
    let longer = stack.push(pos);
    if awaits(stack, b) {
        let j = choose|j: int| 0 <= j < stack.len() && (#[trigger] stack[j]).index() == b;
        assert(longer[j].index() == b);
    }
    if pos.index() == b {
        assert(longer[stack.len() as int].index() == b);
    }
    if awaits(longer, b) {
        let j = choose|j: int| 0 <= j < longer.len() && (#[trigger] longer[j]).index() == b;
        if j < stack.len() {
            assert(stack[j].index() == b);
        }
    }
}

/// Putting at most the entry `extra` on a stack keeps what the stack named,
/// and names the cell of `extra` where it was put on.
pub proof fn lemma_awaits_step(prev: Seq<Coordinate>, next: Seq<Coordinate>, extra: Coordinate)
    requires
        next == prev || next == prev.push(extra),
    ensures
        forall|b: int| awaits(prev, b) ==> #[trigger] awaits(next, b),
        next == prev.push(extra) ==> awaits(next, extra.index()),
        on_grid(prev) && in_grid(extra.x as int, extra.y as int) ==> on_grid(next),
{
    assert forall|b: int| awaits(prev, b) implies #[trigger] awaits(next, b) by {
        lemma_awaits_push(prev, extra, b);
    }
    lemma_awaits_push(prev, extra, extra.index());
}

/// One more entry on the stack is one more stale entry exactly if its cell
/// has been met.
pub proof fn lemma_stale_push(stack: Seq<Coordinate>, visited: Seq<bool>, pos: Coordinate)
    ensures
        stale_count(stack.push(pos), visited) == stale_count(stack, visited) + if is_marked(
            visited,
            pos,
        ) {
            1nat
        } else {
            0nat
        },
{
    assert(stack.push(pos).drop_last() =~= stack);
}

/// A set of cells that holds the corner and, with each cell, its neighbours
/// holds every cell of the grid.
pub proof fn lemma_sweep_complete(visited: Seq<bool>, i: int)
    requires
        visited.len() == NUM_TILES,
        visited[0],
        forall|a: int, b: int| #[trigger] adjacent(a, b) && visited[a] ==> visited[b],
        0 <= i < NUM_TILES,
    ensures
        visited[i],
    decreases i,
{
    if i > 0 {
        if i % 80 != 0 {
            lemma_sweep_complete(visited, i - 1);
            assert(adjacent(i - 1, i));
        } else {
            lemma_sweep_complete(visited, i - 80);
            assert(adjacent(i - 80, i));
        }
    }
}

/// The list with the coordinate `(x, y)` at its end, where `(x, y)` lies on
/// the grid and its cell has not been met.
pub open spec fn with_unmet(list: Seq<Coordinate>, visited: Seq<bool>, x: int, y: int) -> Seq<
    Coordinate,
> {
    if in_grid(x, y) && !visited[cell_index(x, y)] {
        list.push(Coordinate { x: x as i32, y: y as i32 })
    } else {
        list
    }
}

/// The neighbours of `pos` on the grid that have not been met, in the order
/// left, right, up, down.
pub open spec fn unmet_neighbors(visited: Seq<bool>, pos: Coordinate) -> Seq<Coordinate> {
    let x = pos.x as int;
    let y = pos.y as int;
    with_unmet(
        with_unmet(
            with_unmet(with_unmet(Seq::empty(), visited, x - 1, y), visited, x + 1, y),
            visited,
            x,
            y - 1,
        ),
        visited,
        x,
        y + 1,
    )
}

/// One step of the sweep, for the coordinate `pos` just taken from the
/// stack: the cells, the record, the marks and the stack after it.
/// A coordinate off the grid changes nothing. A cell met before keeps its
/// column, and the record and the marks stay; a cell met for the first time
/// is levelled, recorded exactly if it joins the sea, and marked. In both
/// cases the stack gains the neighbours that have not been met.
pub open spec fn sweep_step(
    cells: Seq<TileModel>,
    connected: Seq<usize>,
    visited: Seq<bool>,
    stack: Seq<Coordinate>,
    target: int,
    pos: Coordinate,
) -> (Seq<TileModel>, Seq<usize>, Seq<bool>, Seq<Coordinate>) {
    if !in_grid(pos.x as int, pos.y as int) {
        (cells, connected, visited, stack)
    } else if visited[pos.index()] {
        (cells, connected, visited, stack + unmet_neighbors(visited, pos))
    } else {
        let marked = visited.update(pos.index(), true);
        (
            cells.update(pos.index(), cells[pos.index()].levelled(target)),
            if cells[pos.index()].joins_sea(target) {
                connected.push(pos.index() as usize)
            } else {
                connected
            },
            marked,
            stack + unmet_neighbors(marked, pos),
        )
    }
}

/// A step of the sweep keeps what holds between two steps, and brings the
/// sweep nearer its end: it leaves fewer cells unmet, or as many and fewer
/// stale entries on the stack.
pub proof fn lemma_sweep_step_keeps(
    before: Seq<TileModel>,
    target: int,
    cells: Seq<TileModel>,
    connected: Seq<usize>,
    visited: Seq<bool>,
    stack: Seq<Coordinate>,
    pos: Coordinate,
)
    requires
        sweep_inv(before, target, cells, connected, visited, stack.push(pos)),
    ensures
        ({
            let after = sweep_step(cells, connected, visited, stack, target, pos);
            &&& sweep_inv(before, target, after.0, after.1, after.2, after.3)
            &&& (unvisited_count(after.2) < unvisited_count(visited) || (unvisited_count(after.2)
                == unvisited_count(visited) && stale_count(after.3, after.2) < stale_count(
                stack.push(pos),
                visited,
            )))
        }),
{
    let full = stack.push(pos);
    let after = sweep_step(cells, connected, visited, stack, target, pos);
    assert(in_grid(full[stack.len() as int].x as int, full[stack.len() as int].y as int));
    let a = pos.index();
    let x = pos.x as int;
    let y = pos.y as int;
    let v1 = after.2;
    let c1 = after.1;
    let left = Coordinate { x: (x - 1) as i32, y: pos.y };
    let right = Coordinate { x: (x + 1) as i32, y: pos.y };
    let up = Coordinate { x: pos.x, y: (y - 1) as i32 };
    let down = Coordinate { x: pos.x, y: (y + 1) as i32 };
    let n0 = Seq::<Coordinate>::empty();
    let n1 = with_unmet(n0, v1, x - 1, y);
    let n2 = with_unmet(n1, v1, x + 1, y);
    let n3 = with_unmet(n2, v1, x, y - 1);
    let n4 = with_unmet(n3, v1, x, y + 1);
    let s0 = stack;
    let s1 = stack + n1;
    let s2 = stack + n2;
    let s3 = stack + n3;
    let s4 = stack + n4;
    assert(s0 =~= stack + n0);
    assert(s1 == s0 || s1 =~= s0.push(left));
    assert(s2 == s1 || s2 =~= s1.push(right));
    assert(s3 == s2 || s3 =~= s2.push(up));
    assert(s4 == s3 || s4 =~= s3.push(down));
    assert(after.3 == s4);
    if visited[a] {
        lemma_stale_push(s0, visited, pos);
    } else {
        lemma_mark_one(visited, a);
        assert(cells[a] == before[a]);
        assert forall|i: int|
            0 <= i < NUM_TILES && #[trigger] v1[i] && before[i].joins_sea(target) implies exists|
            k: int,
        |
            0 <= k < c1.len() && #[trigger] c1[k] == i by {
            if i == a {
                assert(c1[c1.len() - 1] == i);
            } else {
                let k = choose|k: int| 0 <= k < connected.len() && #[trigger] connected[k] == i;
                assert(c1[k] == i);
            }
        }
        assert(c1.no_duplicates()) by {
            assert forall|k: int, l: int|
                0 <= k < c1.len() && 0 <= l < c1.len() && k != l implies c1[k] != c1[l] by {
                if k < connected.len() {
                    assert(visited[connected[k] as int]);
                }
                if l < connected.len() {
                    assert(visited[connected[l] as int]);
                }
            }
        }
    }
    lemma_stale_push(s0, v1, left);
    lemma_stale_push(s1, v1, right);
    lemma_stale_push(s2, v1, up);
    lemma_stale_push(s3, v1, down);
    assert forall|b: int| 0 <= b < NUM_TILES && !v1[b] && #[trigger] awaits(full, b) implies awaits(
        s0,
        b,
    ) by {
        lemma_awaits_push(s0, pos, b);
    }
    assert(on_grid(s0)) by {
        assert forall|j: int| 0 <= j < s0.len() implies in_grid(
            (#[trigger] s0[j]).x as int,
            s0[j].y as int,
        ) by {
            assert(full[j] == s0[j]);
        }
    }
    lemma_awaits_step(s0, s1, left);
    lemma_awaits_step(s1, s2, right);
    lemma_awaits_step(s2, s3, up);
    lemma_awaits_step(s3, s4, down);
    lemma_awaits_push(s0, pos, 0);
    assert forall|n: int, b: int| #[trigger] adjacent(n, b) && v1[n] && !v1[b] implies awaits(
        s4,
        b,
    ) by {
        if visited[n] {
            assert(awaits(full, b));
            assert(awaits(s0, b));
        } else {
            assert(n == a);
            assert(a % 80 == x);
            if b == a - 1 {
                assert(left.index() == b);
                assert(awaits(s1, b));
            } else if b == a + 1 {
                assert(right.index() == b);
                assert(awaits(s2, b));
            } else if b == a - 80 {
                assert(up.index() == b);
                assert(awaits(s3, b));
            } else {
                assert(down.index() == b);
                assert(awaits(s4, b));
            }
        }
    }
    assert forall|i: int| 0 <= i < NUM_TILES implies #[trigger] after.0[i] == if v1[i] {
        before[i].levelled(target)
    } else {
        before[i]
    } by {
        assert(cells[i] == if visited[i] {
            before[i].levelled(target)
        } else {
            before[i]
        });
    }
}

/// Levelling keeps every cell within its bounds, and leaves the land and
/// the improvements as they are.
pub proof fn lemma_levelling_keeps_bounds(cells: Seq<TileModel>, target: int)
    requires
        grid_wf(cells),
    ensures
        grid_wf(levelled_grid(cells, target)),
        columns_fit(cells) ==> columns_fit(levelled_grid(cells, target)),
        forall|i: int|
            0 <= i < cells.len() ==> (#[trigger] levelled_grid(cells, target)[i]).height
                == cells[i].height && levelled_grid(cells, target)[i].improvement
                == cells[i].improvement,
{
    assert forall|i: int| 0 <= i < cells.len() implies (#[trigger] levelled_grid(cells, target)[i]).wf() by {
        assert(cells[i].wf());
    }
    if columns_fit(cells) {
        assert forall|i: int| 0 <= i < cells.len() implies (#[trigger] levelled_grid(
            cells,
            target,
        )[i]).column_fits() by {
            assert(cells[i].wf());
            assert(cells[i].column_fits());
        }
    }
}

/// Levelling to the same target a second time changes no water.
pub proof fn lemma_levelling_twice_keeps_water(cells: Seq<TileModel>, target: int)
    requires
        grid_wf(cells),
    ensures
        levelled_grid(levelled_grid(cells, target), target) == levelled_grid(cells, target),
{
    let once = levelled_grid(cells, target);
    assert forall|i: int| 0 <= i < cells.len() implies #[trigger] once[i].levelled(target) == once[i] by {
        assert(cells[i].wf());
    }
    assert(levelled_grid(once, target) =~= once);
}

/// The cells that stay below the target when the grid is levelled: a
/// target above the highest level is out of their reach.
pub open spec fn left_below(cells: Seq<TileModel>, target: int) -> Set<int> {
    Set::new(
        |i: int| 0 <= i < cells.len() && target > MAX_HEIGHT && cells[i].water_level() < target,
    )
}

/// What a second levelling to the same target records: the cells that
/// stayed below the target. Every other cell stands at the target, or dry
/// above it, after the first levelling, and is not recorded again. So the
/// two records agree exactly if the first holds only cells that stay below
/// the target.
pub proof fn lemma_levelling_twice_records(cells: Seq<TileModel>, target: int)
    requires
        grid_wf(cells),
    ensures
        joined_cells(levelled_grid(cells, target), target) == left_below(cells, target),
        joined_cells(levelled_grid(cells, target), target) == joined_cells(cells, target)
            <==> joined_cells(cells, target).subset_of(left_below(cells, target)),
{
    let once = levelled_grid(cells, target);
    assert forall|i: int| 0 <= i < cells.len() implies (once[i].joins_sea(target) <==> (target
        > MAX_HEIGHT && #[trigger] cells[i].water_level() < target)) by {
        assert(cells[i].wf());
    }
    assert(joined_cells(once, target) =~= left_below(cells, target));
    assert(left_below(cells, target).subset_of(joined_cells(cells, target)));
    if joined_cells(cells, target).subset_of(left_below(cells, target)) {
        assert(joined_cells(cells, target) =~= left_below(cells, target));
    }
}

/// Where no dike stands in water, levelling keeps it so exactly if every
/// dike stands at the highest elevation or not below the target: the sea
/// fills the column of any other dike.
pub proof fn lemma_levelling_and_dikes(cells: Seq<TileModel>, target: int)
    requires
        grid_wf(cells),
        dikes_dry(cells),
    ensures
        dikes_dry(levelled_grid(cells, target)) <==> forall|i: int|
            0 <= i < cells.len() && (#[trigger] cells[i]).improvement == TileImprovement::Dike
                ==> cells[i].height >= target || cells[i].height == MAX_HEIGHT,
{
    let once = levelled_grid(cells, target);
    assert forall|i: int| 0 <= i < cells.len() implies (#[trigger] once[i].dike_is_dry() <==> (
    cells[i].improvement == TileImprovement::Dike ==> cells[i].height >= target || cells[i].height
        == MAX_HEIGHT)) by {
        assert(cells[i].wf());
        assert(cells[i].dike_is_dry());
    }
    if dikes_dry(once) {
        assert forall|i: int|
            0 <= i < cells.len() && (#[trigger] cells[i]).improvement
                == TileImprovement::Dike implies cells[i].height >= target || cells[i].height
            == MAX_HEIGHT by {
            assert(once[i].dike_is_dry());
        }
    }
}

impl TerrainGrid {
    /// Levels the whole grid to `new_sea_level` and records anew which cells
    /// are connected to the sea. The sweep reaches every cell, so each cell
    /// is levelled once.
    pub fn recalculate_sea_level(&mut self, new_sea_level: i32)
        requires
            old(self).wf(),
        ensures
            final(self).wf(),
            final(self).cells() == levelled_grid(old(self).cells(), new_sea_level as int),
            final(self).connected() == joined_cells(old(self).cells(), new_sea_level as int),
            final(self).connected_to_sea@.no_duplicates(),
            final(self).river_source == old(self).river_source,
            columns_fit(old(self).cells()) ==> columns_fit(final(self).cells()),
            dikes_dry(old(self).cells()) ==> (dikes_dry(final(self).cells()) <==> forall|i: int|
                0 <= i < NUM_TILES && (#[trigger] old(self).cells()[i]).improvement
                    == TileImprovement::Dike ==> old(self).cells()[i].height >= new_sea_level
                    || old(self).cells()[i].height == MAX_HEIGHT),
    {
        let ghost before = self.cells();
        self.connected_to_sea = Vec::new();
        let mut visited: Vec<bool> = Vec::new();
        while visited.len() < NUM_TILES
            invariant
                visited.len() <= NUM_TILES,
                forall|i: int| 0 <= i < visited.len() ==> !(#[trigger] visited[i]),
            decreases NUM_TILES - visited.len(),
        {
            visited.push(false);
        }
        let mut to_visit: Vec<Coordinate> = Vec::new();
        to_visit.push(Coordinate::new(0, 0));
        assert(to_visit@[0].index() == 0);
        assert(self.cells() =~= before);
        while to_visit.len() > 0
            invariant
                self.wf(),
                visited@.len() == NUM_TILES,
                sweep_inv(
                    before,
                    new_sea_level as int,
                    self.cells(),
                    self.connected_to_sea@,
                    visited@,
                    to_visit@,
                ),
                self.river_source == old(self).river_source,
            decreases unvisited_count(visited@), stale_count(to_visit@, visited@),
        {
            let ghost stack = to_visit@;
            let pos = to_visit.pop().unwrap();
            assert(stack =~= to_visit@.push(pos));
            proof {
                lemma_sweep_step_keeps(
                    before,
                    new_sea_level as int,
                    self.cells(),
                    self.connected_to_sea@,
                    visited@,
                    to_visit@,
                    pos,
                );
            }
            self.sea_level_visit(new_sea_level, pos, &mut visited, &mut to_visit);
        }
        proof {
            let target = new_sea_level as int;
            assert(!awaits(to_visit@, 0));
            assert forall|a: int, b: int| #[trigger] adjacent(a, b) && visited@[a] implies visited@[b] by {
                if !visited@[b] {
                    assert(awaits(to_visit@, b));
                }
            }
            assert forall|i: int| 0 <= i < NUM_TILES implies #[trigger] visited@[i] by {
                lemma_sweep_complete(visited@, i);
            }
            assert(self.cells() =~= levelled_grid(before, target));
            lemma_levelling_keeps_bounds(before, target);
            if dikes_dry(before) {
                lemma_levelling_and_dikes(before, target);
            }
            let recorded = self.connected_to_sea@;
            assert forall|i: int| joined_cells(before, target).contains(i) implies self.connected().contains(
                i,
            ) by {
                assert(visited@[i]);
                let k = choose|k: int| 0 <= k < recorded.len() && #[trigger] recorded[k] == i;
                assert(recorded[k] == i);
            }
            assert forall|i: int| self.connected().contains(i) implies joined_cells(
                before,
                target,
            ).contains(i) by {
                let k = choose|k: int| 0 <= k < recorded.len() && #[trigger] recorded[k] == i;
                assert(before[recorded[k] as int].joins_sea(target));
            }
            assert(self.connected() =~= joined_cells(before, target));
        }
    }

    /// One step of the sweep, for the coordinate just taken from the stack,
    /// as `sweep_step` says.
    fn sea_level_visit(
        &mut self,
        new_sea_level: i32,
        pos: Coordinate,
        visited: &mut Vec<bool>,
        to_visit: &mut Vec<Coordinate>,
    )
        requires
            old(self).wf(),
            old(visited)@.len() == NUM_TILES,
        ensures
            final(self).cells() == sweep_step(
                old(self).cells(),
                old(self).connected_to_sea@,
                old(visited)@,
                old(to_visit)@,
                new_sea_level as int,
                pos,
            ).0,
            final(self).connected_to_sea@ == sweep_step(
                old(self).cells(),
                old(self).connected_to_sea@,
                old(visited)@,
                old(to_visit)@,
                new_sea_level as int,
                pos,
            ).1,
            final(visited)@ == sweep_step(
                old(self).cells(),
                old(self).connected_to_sea@,
                old(visited)@,
                old(to_visit)@,
                new_sea_level as int,
                pos,
            ).2,
            final(to_visit)@ == sweep_step(
                old(self).cells(),
                old(self).connected_to_sea@,
                old(visited)@,
                old(to_visit)@,
                new_sea_level as int,
                pos,
            ).3,
            final(self).wf(),
            final(visited)@.len() == NUM_TILES,
            final(self).river_source == old(self).river_source,
    {
        let ghost s0 = to_visit@;
        if self.valid_coordinates(pos.x, pos.y) {
            let pos_idx = map_idx(pos.x, pos.y);
            if !visited[pos_idx] {
                assert(self.cells()[pos_idx as int].wf());
                let joined = self.tiles[pos_idx].level_to(new_sea_level);
                if joined {
                    self.connected_to_sea.push(pos_idx);
                }
                visited[pos_idx] = true;
                assert(self.cells() =~= old(self).cells().update(
                    pos_idx as int,
                    old(self).cells()[pos_idx as int].levelled(new_sea_level as int),
                ));
            }
            let ghost x = pos.x as int;
            let ghost y = pos.y as int;
            let ghost n0 = Seq::<Coordinate>::empty();
            let ghost n1 = with_unmet(n0, visited@, x - 1, y);
            let ghost n2 = with_unmet(n1, visited@, x + 1, y);
            let ghost n3 = with_unmet(n2, visited@, x, y - 1);
            assert(to_visit@ =~= s0 + n0);
            if self.valid_coordinates(pos.x - 1, pos.y) && !visited[map_idx(pos.x - 1, pos.y)] {
                to_visit.push(Coordinate { x: pos.x - 1, y: pos.y });
            }
            assert(to_visit@ =~= s0 + n1);
            if self.valid_coordinates(pos.x + 1, pos.y) && !visited[map_idx(pos.x + 1, pos.y)] {
                to_visit.push(Coordinate { x: pos.x + 1, y: pos.y });
            }
            assert(to_visit@ =~= s0 + n2);
            if self.valid_coordinates(pos.x, pos.y - 1) && !visited[map_idx(pos.x, pos.y - 1)] {
                to_visit.push(Coordinate { x: pos.x, y: pos.y - 1 });
            }
            assert(to_visit@ =~= s0 + n3);
            if self.valid_coordinates(pos.x, pos.y + 1) && !visited[map_idx(pos.x, pos.y + 1)] {
                to_visit.push(Coordinate { x: pos.x, y: pos.y + 1 });
            }
            assert(to_visit@ =~= s0 + unmet_neighbors(visited@, pos));
        }
    }
}

} // verus!
