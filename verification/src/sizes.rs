//! The sizes of the ranked files, kept largest first by `sorted_vec` and
//! searched with `bisection`.
//!
//! Nothing in this file is proved: each function states what the two crates
//! do, and the rest of the library is verified against these statements.

use sorted_vec::SortedVec;
use std::cmp::Reverse;
use vstd::prelude::*;

verus! {

/// `std::cmp::Reverse`, which turns the order of what it holds around.
/// Nothing is said of what is inside.
#[verifier::external_type_specification]
#[verifier::external_body]
#[verifier::reject_recursive_types(T)]
pub struct ExReverse<T>(Reverse<T>);

/// `sorted_vec::SortedVec`, a vector that keeps itself in rising order. With
/// `Reverse` around its items that is largest first. Nothing is said of what
/// is inside: [`held`] names it.
#[verifier::external_type_specification]
#[verifier::external_body]
#[verifier::reject_recursive_types(T)]
pub struct ExSortedVec<T: Ord>(SortedVec<T>);

/// The sizes that the collection holds, first to last.
pub uninterp spec fn held(v: SortedVec<Reverse<u64>>) -> Seq<u64>;

/// Largest first: no size is smaller than one that stands after it.
pub open spec fn falling(s: Seq<u64>) -> bool {
    forall|i: int, j: int| 0 <= i <= j < s.len() ==> s[i] >= s[j]
}

/// `SortedVec::new`: a collection that holds nothing.
#[verifier::external_body]
pub(crate) fn no_sizes() -> (v: SortedVec<Reverse<u64>>)
    ensures
        held(v) == Seq::<u64>::empty(),
{
    SortedVec::new()
}

/// `SortedVec::insert`: puts `size` at a place that keeps the sizes largest
/// first and returns that place. Where the collection already holds `size`,
/// the place is any one next to it.
#[verifier::external_body]
pub(crate) fn insert_size(v: &mut SortedVec<Reverse<u64>>, size: u64) -> (at: usize)
    requires
        falling(held(*old(v))),
    ensures
        at <= held(*old(v)).len(),
        held(*final(v)) == held(*old(v)).insert(at as int, size),
        falling(held(*final(v))),
{
    v.insert(Reverse(size))
}

/// `SortedVec::pop`: takes the last size out, which is the smallest, and
/// returns it; `None` and no change where nothing is held.
#[verifier::external_body]
pub(crate) fn pop_size(v: &mut SortedVec<Reverse<u64>>) -> (last: Option<u64>)
    ensures
        held(*old(v)).len() == 0 ==> last.is_none() && held(*final(v)) == held(*old(v)),
        held(*old(v)).len() > 0 ==> last == Some(held(*old(v)).last()) && held(*final(v)) == held(
            *old(v),
        ).drop_last(),
{
    v.pop().map(|r| r.0)
}

/// `bisection::bisect_right` on sizes that stand largest first: the place
/// behind every held size that is at least `size`, which is in front of
/// every smaller one.
#[verifier::external_body]
pub(crate) fn place_behind(v: &SortedVec<Reverse<u64>>, size: u64) -> (at: usize)
    requires
        falling(held(*v)),
    ensures
        at <= held(*v).len(),
        forall|i: int| 0 <= i < at ==> held(*v)[i] >= size,
        forall|i: int| at <= i < held(*v).len() ==> held(*v)[i] < size,
{
    bisection::bisect_right(v, &Reverse(size))
}

} // verus!
