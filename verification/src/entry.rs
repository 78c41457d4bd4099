//! The neighbours of a cell, ranked for the settling of water: the lowest
//! water level first and, among equal levels, the lower `x`, then the lower
//! `y`.

use vstd::prelude::*;
use crate::grid::{cell_index, in_grid};

verus! {

/// A cell by its coordinates, with the water level it had when it was ranked.
#[derive(Copy, Clone, PartialEq, Eq, Structural, Debug)]
pub struct TileEntry {
    pub x: i32,
    pub y: i32,
    pub water_level: i32,
}

impl TileEntry {
    pub fn new(x: i32, y: i32, water_level: i32) -> (entry: TileEntry)
        ensures
            entry == (TileEntry { x, y, water_level }),
    {
        TileEntry { x, y, water_level }
    }

    /// The place of the cell in the row-major array.
    pub open spec fn index(self) -> int {
        cell_index(self.x as int, self.y as int)
    }

    /// `self` is served before `other`.
    pub open spec fn before(self, other: TileEntry) -> bool {
        self.water_level < other.water_level || (self.water_level == other.water_level && (self.x
            < other.x || (self.x == other.x && self.y < other.y)))
    }

    pub fn ranks_before(&self, other: &TileEntry) -> (first: bool)
        ensures
            first == self.before(*other),
    {
        self.water_level < other.water_level || (self.water_level == other.water_level && (self.x
            < other.x || (self.x == other.x && self.y < other.y)))
    }
}

/// Each entry is served before the ones behind it.
pub open spec fn ranked(list: Seq<TileEntry>) -> bool {
    forall|i: int, j: int| 0 <= i < j < list.len() ==> (#[trigger] list[i]).before(#[trigger] list[j])
}

/// Every entry names a cell of the grid.
pub open spec fn entries_on_grid(list: Seq<TileEntry>) -> bool {
    forall|j: int| 0 <= j < list.len() ==> in_grid((#[trigger] list[j]).x as int, list[j].y as int)
}

/// The list with `entry` put in front of the first entry that it is served
/// before, or at the end where there is none.
pub open spec fn insert_ranked(list: Seq<TileEntry>, entry: TileEntry) -> Seq<TileEntry>
    decreases list.len(),
{
    if list.len() == 0 {
        seq![entry]
    } else if entry.before(list[0]) {
        seq![entry] + list
    } else {
        seq![list[0]] + insert_ranked(list.skip(1), entry)
    }
}

/// Where `entry` is served before the entry at `at` and before none in front
/// of it, `insert_ranked` puts it at `at`.
pub proof fn lemma_insert_place(list: Seq<TileEntry>, entry: TileEntry, at: int)
    requires
        0 <= at <= list.len(),
        forall|j: int| 0 <= j < at ==> !entry.before(#[trigger] list[j]),
        at < list.len() ==> entry.before(list[at]),
    ensures
        insert_ranked(list, entry) == list.insert(at, entry),
        entries_on_grid(list) && in_grid(entry.x as int, entry.y as int) ==> entries_on_grid(
            list.insert(at, entry),
        ),
    decreases at,
{
    list.insert_ensures(at, entry);
    if at == 0 {
        assert(insert_ranked(list, entry) =~= list.insert(at, entry));
    } else {
        let rest = list.skip(1);
        assert forall|j: int| 0 <= j < at - 1 implies !entry.before(#[trigger] rest[j]) by {
            assert(rest[j] == list[j + 1]);
        }
        lemma_insert_place(rest, entry, at - 1);
        rest.insert_ensures(at - 1, entry);
        assert(seq![list[0]] + rest.insert(at - 1, entry) =~= list.insert(at, entry));
    }
    if entries_on_grid(list) && in_grid(entry.x as int, entry.y as int) {
        let longer = list.insert(at, entry);
        assert forall|j: int| 0 <= j < longer.len() implies in_grid(
            (#[trigger] longer[j]).x as int,
            longer[j].y as int,
        ) by {
            if j < at {
                assert(longer[j] == list[j]);
            } else if j > at {
                assert(longer[j - 1 + 1] == list[j - 1]);
            }
        }
    }
}

/// Putting an entry in makes the list one longer, and every entry of the
/// longer list is the new one or one of the list.
pub proof fn lemma_insert_members(list: Seq<TileEntry>, entry: TileEntry)
    ensures
        insert_ranked(list, entry).len() == list.len() + 1,
        forall|k: int|
            0 <= k < list.len() + 1 ==> #[trigger] insert_ranked(list, entry)[k] == entry
                || list.contains(insert_ranked(list, entry)[k]),
    decreases list.len(),
{
    let longer = insert_ranked(list, entry);
    if list.len() == 0 {
    } else if entry.before(list[0]) {
        assert forall|k: int| 0 <= k < list.len() + 1 implies #[trigger] longer[k] == entry
            || list.contains(longer[k]) by {
            if k > 0 {
                assert(list[k - 1] == longer[k]);
            }
        }
    } else {
        let rest = list.skip(1);
        let inner = insert_ranked(rest, entry);
        lemma_insert_members(rest, entry);
        assert forall|k: int| 0 <= k < list.len() + 1 implies #[trigger] longer[k] == entry
            || list.contains(longer[k]) by {
            if k == 0 {
                assert(list[0] == longer[0]);
            } else {
                assert(longer[k] == inner[k - 1]);
                if inner[k - 1] != entry {
                    assert(rest.contains(inner[k - 1]));
                    let i = choose|i: int| 0 <= i < rest.len() && rest[i] == inner[k - 1];
                    assert(list[i + 1] == longer[k]);
                }
            }
        }
    }
}

/// Putting an entry in keeps every entry of the list, and the longer list
/// holds the new entry.
pub proof fn lemma_insert_holds(list: Seq<TileEntry>, entry: TileEntry)
    ensures
        insert_ranked(list, entry).contains(entry),
        forall|e: TileEntry| list.contains(e) ==> #[trigger] insert_ranked(list, entry).contains(e),
    decreases list.len(),
{
    let longer = insert_ranked(list, entry);
    if list.len() == 0 {
        assert(longer[0] == entry);
    } else if entry.before(list[0]) {
        assert(longer[0] == entry);
        assert forall|e: TileEntry| list.contains(e) implies #[trigger] longer.contains(e) by {
            let j = choose|j: int| 0 <= j < list.len() && list[j] == e;
            assert(longer[j + 1] == e);
        }
    } else {
        let rest = list.skip(1);
        let inner = insert_ranked(rest, entry);
        lemma_insert_holds(rest, entry);
        let at = choose|k: int| 0 <= k < inner.len() && inner[k] == entry;
        assert(longer[at + 1] == entry);
        assert forall|e: TileEntry| list.contains(e) implies #[trigger] longer.contains(e) by {
            let j = choose|j: int| 0 <= j < list.len() && list[j] == e;
            if j == 0 {
                assert(longer[0] == e);
            } else {
                assert(rest[j - 1] == e);
                assert(inner.contains(e));
                let k = choose|k: int| 0 <= k < inner.len() && inner[k] == e;
                assert(longer[k + 1] == e);
            }
        }
    }
}

/// A ranked list stays ranked when an entry that differs from all of its
/// entries in level or place is put in.
pub proof fn lemma_insert_keeps_rank(list: Seq<TileEntry>, entry: TileEntry)
    requires
        ranked(list),
        forall|j: int| 0 <= j < list.len() ==> #[trigger] list[j] != entry,
    ensures
        ranked(insert_ranked(list, entry)),
        insert_ranked(list, entry).to_multiset() == list.to_multiset().insert(entry),
    decreases list.len(),
{
    broadcast use vstd::seq_lib::group_to_multiset_ensures;
    let longer = insert_ranked(list, entry);
    if list.len() == 0 {
        assert(longer =~= Seq::<TileEntry>::empty().push(entry));
    } else if entry.before(list[0]) {
        assert forall|i: int, j: int| 0 <= i < j < longer.len() implies (#[trigger] longer[i]).before(
            #[trigger] longer[j],
        ) by {
            if i > 0 {
                assert(list[i - 1].before(list[j - 1]));
            } else if j > 1 {
                assert(list[0].before(list[j - 1]));
            }
        }
        assert(longer =~= list.insert(0, entry));
        vstd::seq_lib::to_multiset_insert(list, 0, entry);
    } else {
        let rest = list.skip(1);
        assert forall|i: int, j: int| 0 <= i < j < rest.len() implies (#[trigger] rest[i]).before(
            #[trigger] rest[j],
        ) by {
            assert(list[i + 1].before(list[j + 1]));
        }
        assert forall|j: int| 0 <= j < rest.len() implies #[trigger] rest[j] != entry by {
            assert(list[j + 1] != entry);
        }
        lemma_insert_keeps_rank(rest, entry);
        let inner = insert_ranked(rest, entry);
        assert(list[0] != entry);
        assert forall|j: int| 0 <= j < inner.len() implies list[0].before(#[trigger] inner[j]) by {
            assert(inner.to_multiset().count(inner[j]) > 0);
            if inner[j] != entry {
                assert(rest.to_multiset().count(inner[j]) > 0);
                assert(rest.contains(inner[j]));
                let k = choose|k: int| 0 <= k < rest.len() && rest[k] == inner[j];
                assert(list[0].before(list[k + 1]));
            }
        }
        assert forall|i: int, j: int| 0 <= i < j < longer.len() implies (#[trigger] longer[i]).before(
            #[trigger] longer[j],
        ) by {
            if i > 0 {
                assert(inner[i - 1].before(inner[j - 1]));
            } else {
                assert(longer[j] == inner[j - 1]);
            }
        }
        assert(list =~= seq![list[0]] + rest);
        assert(longer =~= inner.insert(0, list[0]));
        vstd::seq_lib::to_multiset_insert(inner, 0, list[0]);
        assert(list =~= rest.insert(0, list[0]));
        vstd::seq_lib::to_multiset_insert(rest, 0, list[0]);
        assert(longer.to_multiset() =~= list.to_multiset().insert(entry));
    }
}

/// Puts `entry` into the list at its rank.
pub fn rank_in(list: &mut Vec<TileEntry>, entry: TileEntry)
    ensures
        final(list)@ == insert_ranked(old(list)@, entry),
        entries_on_grid(old(list)@) && in_grid(entry.x as int, entry.y as int) ==> entries_on_grid(
            final(list)@,
        ),
{
    let mut at: usize = 0;
    while at < list.len() && !entry.ranks_before(&list[at])
        invariant
            at <= list.len(),
            forall|j: int| 0 <= j < at ==> !entry.before(#[trigger] list@[j]),
        decreases list.len() - at,
    {
        at += 1;
    }
    proof {
        lemma_insert_place(list@, entry, at as int);
    }
    list.insert(at, entry);
}

} // verus!
