//! Properties that relate the list's operations to one another, stated over
//! the contracts of `IndexList`.
use vstd::prelude::*;

use crate::{inline_eligible, lookup, IndexList, MAX_IMMEDIATE_VALUE, MAX_LENGTH};

verus! {

/// A list built from an eligible sequence is packed, has the sequence's
/// length, returns each of its elements, and has nothing at its length.
pub proof fn eligible_sequence_is_packed(v: Seq<usize>, l: IndexList)
    requires
        l.wf(),
        l@ == v,
        l.immediate() == inline_eligible(v),
        inline_eligible(v),
    ensures
        l.immediate(),
        l@.len() == v.len(),
        forall|i: int| 0 <= i < v.len() ==> lookup(l@, i) == Some(#[trigger] v[i]),
        lookup(l@, v.len() as int) == None::<usize>,
{
}

/// A list built from a sequence that is too long, or that holds a value
/// wider than four bits, is on the heap and still returns each element.
pub proof fn ineligible_sequence_is_on_heap(v: Seq<usize>, l: IndexList)
    requires
        l.wf(),
        l@ == v,
        l.immediate() == inline_eligible(v),
        v.len() > MAX_LENGTH || exists|i: int| 0 <= i < v.len() && #[trigger] v[i] > MAX_IMMEDIATE_VALUE,
    ensures
        !l.immediate(),
        l@.len() == v.len(),
        forall|i: int| 0 <= i < v.len() ==> lookup(l@, i) == Some(#[trigger] v[i]),
        lookup(l@, v.len() as int) == None::<usize>,
{
}

/// Capacity boundary: exactly `MAX_LENGTH` small values are packed, one more
/// is not, whatever the values.
pub proof fn length_boundary(v: Seq<usize>, l: IndexList)
    requires
        l@ == v,
        l.immediate() == inline_eligible(v),
        forall|i: int| 0 <= i < v.len() ==> #[trigger] v[i] <= MAX_IMMEDIATE_VALUE,
    ensures
        v.len() == MAX_LENGTH ==> l.immediate(),
        v.len() == MAX_LENGTH + 1 ==> !l.immediate(),
{
}

/// Value boundary: among otherwise eligible values, the element at `i` keeps
/// the list packed exactly when it is at most 15; 16 or more forces the heap.
pub proof fn value_boundary(v: Seq<usize>, l: IndexList, i: int)
    requires
        l@ == v,
        l.immediate() == inline_eligible(v),
        0 <= i < v.len(),
    ensures
        v[i] >= 16 ==> !l.immediate(),
        (v.len() <= MAX_LENGTH && forall|j: int| 0 <= j < v.len() && j != i ==> #[trigger] v[j] <= 15)
            ==> (l.immediate() <==> v[i] <= 15),
{
    if v[i] >= 16 {
        assert(v[i] > MAX_IMMEDIATE_VALUE);
    }
}

/// After a push, every earlier element is where it was and the new value is
/// last; a full packed list moves to the heap on the push.
pub proof fn push_keeps_order(before: IndexList, after: IndexList, value: usize)
    requires
        after@ == before@.push(value),
        after.immediate() == (before.immediate() && inline_eligible(after@)),
    ensures
        after@.len() == before@.len() + 1,
        forall|i: int| 0 <= i < before@.len() ==> #[trigger] lookup(after@, i) == lookup(before@, i),
        lookup(after@, before@.len() as int) == Some(value),
        lookup(after@, before@.len() + 1int) == None::<usize>,
        before@.len() >= MAX_LENGTH ==> !after.immediate(),
{
    assert(after@[before@.len() as int] == value);
}

/// A set on a valid index changes that index alone and keeps the length.
pub proof fn set_changes_one_index(before: IndexList, after: IndexList, index: int, value: usize)
    requires
        0 <= index < before@.len(),
        after@ == before@.update(index, value),
    ensures
        after@.len() == before@.len(),
        lookup(after@, index) == Some(value),
        forall|j: int| j != index ==> #[trigger] lookup(after@, j) == lookup(before@, j),
{
}

/// Building a list from any sequence keeps its length and its elements, in
/// either form; the empty sequence gives an empty packed list.
pub proof fn from_sequence_round_trip(v: Seq<usize>, l: IndexList)
    requires
        l@ == v,
        l.immediate() == inline_eligible(v),
    ensures
        l@.len() == v.len(),
        forall|i: int| #[trigger] lookup(l@, i) == lookup(v, i),
        v.len() == 0 ==> l.immediate() && forall|i: int| #[trigger] lookup(l@, i) == None::<usize>,
{
}

} // verus!
