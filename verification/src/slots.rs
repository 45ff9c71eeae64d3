//! Slot sequences and accounting matrices as mathematical values.
//!
//! A slot holds a value or is empty. A new value goes into the empty slot with
//! the lowest index, or behind the last slot if none is empty.

use vstd::prelude::*;

verus! {

/// The index of the first entry of `s` that is `x`, or the length of `s` if
/// none is.
pub open spec fn position<T>(s: Seq<T>, x: T) -> int
    decreases s.len(),
{
    if s.len() == 0 || s[0] == x {
        0
    } else {
        1 + position(s.drop_first(), x)
    }
}

/// The index of the first empty slot, or the number of slots if every one is
/// taken.
pub open spec fn first_empty<T>(slots: Seq<Option<T>>) -> int {
    position(slots, None)
}

/// `slots` with `value` in slot `id`: in place of what was there, or appended
/// if `id` is the number of slots.
pub open spec fn install<T>(slots: Seq<Option<T>>, id: int, value: T) -> Seq<Option<T>> {
    if id < slots.len() {
        slots.update(id, Some(value))
    } else {
        slots.push(Some(value))
    }
}

/// `row` with a zero in column `id`: in place of what was there, or appended if
/// `id` is the length of the row.
pub open spec fn clear_entry(row: Seq<int>, id: int) -> Seq<int> {
    if id < row.len() {
        row.update(id, 0)
    } else {
        row.push(0)
    }
}

/// `matrix` with column `id` set to zero in every row. Where `id` is the width
/// of the matrix, this appends a column of zeros.
pub open spec fn clear_column(matrix: Seq<Seq<int>>, id: int) -> Seq<Seq<int>> {
    Seq::new(matrix.len(), |t: int| clear_entry(matrix[t], id))
}

/// A row of `width` zeros.
pub open spec fn zero_row(width: nat) -> Seq<int> {
    Seq::new(width, |j: int| 0int)
}

/// `matrix` with `value` at row `t`, column `j`.
pub open spec fn set_entry(matrix: Seq<Seq<int>>, t: int, j: int, value: int) -> Seq<Seq<int>> {
    matrix.update(t, matrix[t].update(j, value))
}

/// `matrix` has `rows` rows of `width` entries each.
pub open spec fn rectangular(matrix: Seq<Seq<int>>, rows: nat, width: nat) -> bool {
    &&& matrix.len() == rows
    &&& forall|t: int| 0 <= t < rows ==> (#[trigger] matrix[t]).len() == width
}

/// No entry of `matrix` is negative.
pub open spec fn nonnegative(matrix: Seq<Seq<int>>) -> bool {
    forall|t: int, j: int|
        0 <= t < matrix.len() && 0 <= j < matrix[t].len() ==> 0 <= #[trigger] matrix[t][j]
}

/// What pins `position` down: no entry below it is `x`, and the entry at it
/// is `x` unless it is the length of `s`.
pub proof fn lemma_position<T>(s: Seq<T>, x: T)
    ensures
        0 <= position(s, x) <= s.len(),
        forall|i: int| 0 <= i < position(s, x) ==> #[trigger] s[i] != x,
        position(s, x) < s.len() ==> s[position(s, x)] == x,
    decreases s.len(),
{
    if s.len() > 0 && s[0] != x {
        let rest = s.drop_first();
        lemma_position(rest, x);
        assert forall|i: int| 0 <= i < position(s, x) implies #[trigger] s[i] != x by {
            if i > 0 {
                assert(rest[i - 1] == s[i]);
            }
        }
        if position(s, x) < s.len() {
            assert(rest[position(rest, x)] == s[position(s, x)]);
        }
    }
}

/// An index of which both hold is `position`.
pub proof fn lemma_position_is<T>(s: Seq<T>, x: T, at: int)
    requires
        0 <= at <= s.len(),
        forall|i: int| 0 <= i < at ==> #[trigger] s[i] != x,
        at < s.len() ==> s[at] == x,
    ensures
        position(s, x) == at,
{
    lemma_position(s, x);
    let found = position(s, x);
    if found < at {
        assert(s[found] != x);
    } else if at < found {
        assert(s[at] != x);
    }
}

/// Every slot below the first empty one is taken, and it is empty unless it
/// is the number of slots.
pub proof fn lemma_first_empty<T>(slots: Seq<Option<T>>)
    ensures
        0 <= first_empty(slots) <= slots.len(),
        forall|i: int| 0 <= i < first_empty(slots) ==> (#[trigger] slots[i]) is Some,
        first_empty(slots) < slots.len() ==> slots[first_empty(slots)] is None,
{
    lemma_position(slots, None);
    assert forall|i: int| 0 <= i < first_empty(slots) implies (#[trigger] slots[i]) is Some by {
        assert(slots[i] != None::<T>);
    }
}

/// An index of which both hold is `first_empty`.
pub proof fn lemma_first_empty_is<T>(slots: Seq<Option<T>>, id: int)
    requires
        0 <= id <= slots.len(),
        forall|i: int| 0 <= i < id ==> (#[trigger] slots[i]) is Some,
        id < slots.len() ==> slots[id] is None,
    ensures
        first_empty(slots) == id,
{
    assert forall|i: int| 0 <= i < id implies #[trigger] slots[i] != None::<T> by {
        assert(slots[i] is Some);
    }
    lemma_position_is(slots, None, id);
}

} // verus!
