//! The marks that a traversal of the grid leaves on the cells it has met.

use vstd::prelude::*;

verus! {

/// How many cells a traversal has not met yet.
pub open spec fn unvisited_count(visited: Seq<bool>) -> nat
    decreases visited.len(),
{
    if visited.len() == 0 {
        0
    } else {
        unvisited_count(visited.drop_last()) + if visited.last() {
            0nat
        } else {
            1nat
        }
    }
}

/// Marking a cell that was not marked leaves one unmarked cell fewer.
pub proof fn lemma_mark_one(visited: Seq<bool>, i: int)
    requires
        0 <= i < visited.len(),
        !visited[i],
    ensures
        unvisited_count(visited.update(i, true)) + 1 == unvisited_count(visited),
    decreases visited.len(),
{
    let marked = visited.update(i, true);
    if i == visited.len() - 1 {
        assert(marked.drop_last() =~= visited.drop_last());
    } else {
        lemma_mark_one(visited.drop_last(), i);
        assert(marked.drop_last() =~= visited.drop_last().update(i, true));
    }
}

} // verus!
