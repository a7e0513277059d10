use vstd::prelude::*;
use arrayvec::ArrayVec;
use crate::position::Position;

verus! {

#[verifier::external_type_specification]
#[verifier::external_body]
#[verifier::reject_recursive_types(T)]
pub struct ExArrayVec<T, const CAP: usize>(ArrayVec<T, CAP>);

/// The most positions that a move list can hold.
pub const MOVE_LIST_CAPACITY: usize = 6;

/// A list of at most six positions, stored inline.
pub type MoveList = ArrayVec<Position, 6>;

/// The positions that a move list holds, first to last.
pub uninterp spec fn list_items(l: ArrayVec<Position, 6>) -> Seq<Position>;

/// `ArrayVec::new`: the new list holds nothing.
#[verifier::external_body]
pub(crate) fn list_new() -> (l: MoveList)
    ensures
        list_items(l) == Seq::<Position>::empty(),
{
    ArrayVec::new()
}

/// `ArrayVec::len`: the number of positions held, which never exceeds the
/// capacity that the type fixes.
#[verifier::external_body]
pub(crate) fn list_len(l: &MoveList) -> (n: usize)
    ensures
        n == list_items(*l).len(),
        n <= MOVE_LIST_CAPACITY,
{
    l.len()
}

/// Indexing an `ArrayVec`: the position at `i`. An index past the end panics,
/// which `requires` leaves out.
#[verifier::external_body]
pub(crate) fn list_get(l: &MoveList, i: usize) -> (p: Position)
    requires
        i < list_items(*l).len(),
    ensures
        p == list_items(*l)[i as int],
{
    l[i]
}

/// `ArrayVec::push`: the position is added behind the others. The call panics
/// on a full list, which `requires` leaves out.
#[verifier::external_body]
pub(crate) fn list_push(l: &mut MoveList, p: Position)
    requires
        list_items(*old(l)).len() < MOVE_LIST_CAPACITY,
    ensures
        list_items(*final(l)) == list_items(*old(l)).push(p),
{
    l.push(p)
}

/// `ArrayVec::insert`: the position is put at `i` and those from `i` on move
/// up by one. The call panics on a full list or an index past the length,
/// which `requires` leaves out.
#[verifier::external_body]
pub(crate) fn list_insert(l: &mut MoveList, i: usize, p: Position)
    requires
        i <= list_items(*old(l)).len(),
        list_items(*old(l)).len() < MOVE_LIST_CAPACITY,
    ensures
        list_items(*final(l)) == list_items(*old(l)).insert(i as int, p),
{
    l.insert(i, p)
}

/// `ArrayVec::remove`: the position at `i` is taken out and returned, and
/// those behind it move down by one. An index past the end panics, which
/// `requires` leaves out.
#[verifier::external_body]
pub(crate) fn list_remove(l: &mut MoveList, i: usize) -> (p: Position)
    requires
        i < list_items(*old(l)).len(),
    ensures
        p == list_items(*old(l))[i as int],
        list_items(*final(l)) == list_items(*old(l)).remove(i as int),
{
    l.remove(i)
}

} // verus!
