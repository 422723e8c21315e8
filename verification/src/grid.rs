//! What a grid is made of: positions and ranges of cells, sorting, and the order
//! of columns.
use vstd::prelude::*;

use crate::browse::SortDirection;
use crate::ordered_map::OrderedMap;

verus! {

// ---------------------------------------------------------------------
// Moving columns
// ---------------------------------------------------------------------
/// Where a column stands after the column at `source` was moved to `target`.
pub open spec fn moved(index: int, source: int, target: int) -> int {
    if index == source {
        target
    } else if source < index <= target {
        index - 1
    } else if target <= index < source {
        index + 1
    } else {
        index
    }
}

/// Where a column stands after the column at `source` was moved to `target`.
pub fn moved_index(index: usize, source: usize, target: usize) -> (r: usize)
    ensures
        r == moved(index as int, source as int, target as int),
{
    if index == source {
        target
    } else if source < index && index <= target {
        index - 1
    } else if target <= index && index < source {
        index + 1
    } else {
        index
    }
}

/// Moving a column back undoes the move.
pub proof fn lemma_moved_back(index: int, source: int, target: int)
    ensures
        moved(moved(index, source, target), target, source) == index,
        moved(moved(index, target, source), source, target) == index,
{
}

/// A list after the item at `source` was moved to `target`.
pub open spec fn moved_item<T>(list: Seq<T>, source: int, target: int) -> Seq<T> {
    list.remove(source).insert(target, list[source])
}

/// An item that is moved takes every other item along as [`moved`] says.
pub proof fn law_items_follow_their_index<T>(list: Seq<T>, source: int, target: int, index: int)
    requires
        0 <= source < list.len(),
        0 <= target < list.len(),
        0 <= index < list.len(),
    ensures
        moved_item(list, source, target).len() == list.len(),
        0 <= moved(index, source, target) < list.len(),
        moved_item(list, source, target)[moved(index, source, target)] == list[index],
        moved_item(moved_item(list, source, target), target, source) == list,
{
    let there = moved_item(list, source, target);
    assert(moved_item(there, target, source) =~= list);
}

pub fn move_item<T>(list: &mut Vec<T>, source: usize, target: usize)
    requires
        source < old(list)@.len(),
        target < old(list)@.len(),
    ensures
        final(list)@ == moved_item(old(list)@, source as int, target as int),
{
    let item = list.remove(source);
    list.insert(target, item);
}

/// The indices after a move.
pub open spec fn moved_set(set: Set<usize>, source: int, target: int) -> Set<usize> {
    Set::new(|c: usize| set.contains(moved(c as int, target, source) as usize))
}

pub fn move_set(set: &OrderedMap<usize, ()>, source: usize, target: usize) -> (r: OrderedMap<usize, ()>)
    requires
        set.wf(),
    ensures
        r.wf(),
        r.map().dom() == moved_set(set.map().dom(), source as int, target as int),
{
    let mut out: OrderedMap<usize, ()> = OrderedMap::new();
    let mut i: usize = 0;
    while i < set.len()
        invariant
            i <= set.entries().len(),
            set.wf(),
            out.wf(),
            forall|c: usize| #[trigger]
                out.map().contains_key(c) == exists|k: int|
                    0 <= k < i && set.entries()[k].0 == moved(
                        c as int,
                        target as int,
                        source as int,
                    ) as usize,
        decreases set.entries().len() - i,
    {
        let index: usize = *set.key(i);
        let ghost before = out.map();
        out.insert(moved_index(index, source, target), ());
        proof {
            assert forall|c: usize| #[trigger] out.map().contains_key(c) == exists|k: int|
                0 <= k < i + 1 && set.entries()[k].0 == moved(
                    c as int,
                    target as int,
                    source as int,
                ) as usize by {
                lemma_moved_back(index as int, source as int, target as int);
                lemma_moved_back(c as int, source as int, target as int);
                assert(out.map().contains_key(c) == (c == moved(
                    index as int,
                    source as int,
                    target as int,
                ) || before.contains_key(c)));
                if c == moved(index as int, source as int, target as int) {
                    assert(set.entries()[i as int].0 == moved(
                        c as int,
                        target as int,
                        source as int,
                    ) as usize);
                }
            }
        }
        i += 1;
    }
    proof {
        let want = moved_set(set.map().dom(), source as int, target as int);
        assert forall|c: usize| #[trigger] out.map().dom().contains(c) == want.contains(c) by {
            let back = moved(c as int, target as int, source as int) as usize;
            if set.map().dom().contains(back) {
                let at = choose|at: int| #[trigger] set.key_at(back, at);
                assert(set.entries()[at].0 == back);
            }
            if out.map().contains_key(c) {
                let k = choose|k: int|
                    0 <= k < set.entries().len() && set.entries()[k].0 == moved(
                        c as int,
                        target as int,
                        source as int,
                    ) as usize;
                assert(set.key_at(back, k));
            }
        }
        assert(out.map().dom() =~= want);
    }
    out
}

// ---------------------------------------------------------------------
// Positions and ranges
// ---------------------------------------------------------------------
/// A cell of the grid.
#[derive(Clone, Copy, Debug, PartialEq, Eq, Structural)]
pub struct CellPosition {
    pub row: usize,
    pub column: usize,
}

/// The cells between two corners, these included.
#[derive(Clone, Copy, Debug, PartialEq, Eq, Structural)]
pub struct CellRange {
    pub start: CellPosition,
    pub end: CellPosition,
}

impl CellRange {
    /// Whether the range holds a cell.
    pub open spec fn holds(self, position: CellPosition) -> bool {
        &&& self.start.row <= position.row <= self.end.row
        &&& self.start.column <= position.column <= self.end.column
    }

    /// The smallest range that holds both cells.
    pub fn between(anchor: CellPosition, head: CellPosition) -> (r: Self)
        ensures
            r.holds(anchor),
            r.holds(head),
            forall|other: CellRange|
                other.holds(anchor) && other.holds(head) ==> #[trigger] other.holds(r.start)
                    && other.holds(r.end),
    {
        CellRange {
            start: CellPosition {
                row: if anchor.row <= head.row {
                    anchor.row
                } else {
                    head.row
                },
                column: if anchor.column <= head.column {
                    anchor.column
                } else {
                    head.column
                },
            },
            end: CellPosition {
                row: if anchor.row <= head.row {
                    head.row
                } else {
                    anchor.row
                },
                column: if anchor.column <= head.column {
                    head.column
                } else {
                    anchor.column
                },
            },
        }
    }

    pub fn contains(self, position: CellPosition) -> (r: bool)
        ensures
            r == self.holds(position),
    {
        self.start.row <= position.row && position.row <= self.end.row && self.start.column
            <= position.column && position.column <= self.end.column
    }
}

// ---------------------------------------------------------------------
// Sorting
// ---------------------------------------------------------------------
/// The direction after a click on a column: ascending, then descending, then
/// none; ascending for a column that the grid is not sorted by.
pub open spec fn direction_after(sort: Option<(usize, SortDirection)>, column: usize) -> Option<
    SortDirection,
> {
    match sort {
        Some((sorted, direction)) => if sorted != column {
            Some(SortDirection::Asc)
        } else if direction == SortDirection::Asc {
            Some(SortDirection::Desc)
        } else {
            None
        },
        None => Some(SortDirection::Asc),
    }
}

pub fn next_sort_direction(sort: Option<(usize, SortDirection)>, column: usize) -> (r: Option<
    SortDirection,
>)
    ensures
        r == direction_after(sort, column),
{
    match sort {
        Some((sorted, direction)) => if sorted != column {
            Some(SortDirection::Asc)
        } else {
            match direction {
                SortDirection::Asc => Some(SortDirection::Desc),
                SortDirection::Desc => None,
            }
        },
        None => Some(SortDirection::Asc),
    }
}

/// The sort after a click on a column.
pub open spec fn sort_after(sort: Option<(usize, SortDirection)>, column: usize) -> Option<
    (usize, SortDirection),
> {
    match direction_after(sort, column) {
        Some(direction) => Some((column, direction)),
        None => None,
    }
}

/// The clicks on a column sort by it ascending, then descending, then not at
/// all, whatever the grid was sorted by before.
pub proof fn law_sorting_cycles(sort: Option<(usize, SortDirection)>, column: usize)
    requires
        sort matches Some((sorted, _)) ==> sorted != column,
    ensures
        sort_after(sort, column) == Some((column, SortDirection::Asc)),
        sort_after(sort_after(sort, column), column) == Some((column, SortDirection::Desc)),
        sort_after(sort_after(sort_after(sort, column), column), column) is None,
{
}

/// A column that is moved stands where it was moved to, and the others keep their
/// order.
pub proof fn law_moving_keeps_the_order_of_the_others(
    source: usize,
    target: usize,
    a: usize,
    b: usize,
    moved_source: usize,
    moved_a: usize,
    moved_b: usize,
)
    requires
        call_ensures(moved_index, (source, source, target), moved_source),
        call_ensures(moved_index, (a, source, target), moved_a),
        call_ensures(moved_index, (b, source, target), moved_b),
        a != source,
        b != source,
    ensures
        moved_source == target,
        moved_a != target,
        a < b <==> moved_a < moved_b,
        (a < source && a < target) || (a > source && a > target) ==> moved_a == a,
{
}

/// A range holds the cells between its corners, and one between two cells has them
/// as its corners, by row and by column.
pub proof fn law_ranges_lie_between_their_corners(
    anchor: CellPosition,
    head: CellPosition,
    range: CellRange,
    position: CellPosition,
    held: bool,
)
    requires
        call_ensures(CellRange::between, (anchor, head), range),
        call_ensures(CellRange::contains, (range, position), held),
    ensures
        held <==> {
            &&& anchor.row <= position.row <= head.row || head.row <= position.row <= anchor.row
            &&& anchor.column <= position.column <= head.column || head.column <= position.column
                <= anchor.column
        },
{
    let exact = CellRange {
        start: CellPosition {
            row: if anchor.row <= head.row {
                anchor.row
            } else {
                head.row
            },
            column: if anchor.column <= head.column {
                anchor.column
            } else {
                head.column
            },
        },
        end: CellPosition {
            row: if anchor.row <= head.row {
                head.row
            } else {
                anchor.row
            },
            column: if anchor.column <= head.column {
                head.column
            } else {
                anchor.column
            },
        },
    };
    assert(exact.holds(range.start) && exact.holds(range.end));
}

/// A click on a column that the grid is not sorted by sorts it upwards; further
/// clicks sort downwards and then not at all.
pub proof fn law_clicks_turn_the_sort(
    sort: Option<(usize, SortDirection)>,
    column: usize,
    r: Option<SortDirection>,
)
    requires
        call_ensures(next_sort_direction, (sort, column), r),
    ensures
        sort == Some((column, SortDirection::Asc)) ==> r == Some(SortDirection::Desc),
        sort == Some((column, SortDirection::Desc)) ==> r is None,
        sort is None || (sort->0).0 != column ==> r == Some(SortDirection::Asc),
{
}

/// A set of columns follows a move: a column is in it where it stands now exactly
/// where it was in it before.
pub proof fn law_sets_follow_a_move(
    set: &OrderedMap<usize, ()>,
    source: usize,
    target: usize,
    r: OrderedMap<usize, ()>,
    column: usize,
    now: usize,
)
    requires
        set.wf(),
        call_ensures(move_set, (set, source, target), r),
        call_ensures(moved_index, (column, source, target), now),
    ensures
        r.map().contains_key(now) <==> set.map().contains_key(column),
{
    lemma_moved_back(column as int, source as int, target as int);
    assert(r.map().dom().contains(now) <==> set.map().dom().contains(column));
}

} // verus!
