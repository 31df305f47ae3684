//! Trusted interface to `indexmap::IndexSet`, the insertion-ordered set
//! used for the cached legal-move and perimeter sets.
//!
//! The contents of a set are modelled by the uninterpreted sequence
//! `iset_seq`, in insertion order; every wrapper below states over that
//! sequence exactly what the crate's documentation and source promise.

use vstd::prelude::*;

verus! {

#[verifier::external_type_specification]
#[verifier::external_body]
#[verifier::reject_recursive_types(T)]
#[verifier::reject_recursive_types(S)]
pub struct ExIndexSet<T, S>(indexmap::IndexSet<T, S>);

/// The elements of an `IndexSet`, in their insertion order.
pub uninterp spec fn iset_seq(s: indexmap::IndexSet<u8>) -> Seq<u8>;

/// Relies on `IndexSet::new`: creates an empty set.
#[verifier::external_body]
pub(crate) fn iset_new() -> (r: indexmap::IndexSet<u8>)
    ensures
        iset_seq(r).len() == 0,
{
    indexmap::IndexSet::new()
}

/// Relies on `IndexSet::len`: the number of elements.
#[verifier::external_body]
pub(crate) fn iset_len(s: &indexmap::IndexSet<u8>) -> (r: usize)
    ensures
        r == iset_seq(*s).len(),
{
    s.len()
}

/// Relies on `IndexSet::contains`: membership.
#[verifier::external_body]
pub(crate) fn iset_contains(s: &indexmap::IndexSet<u8>, v: u8) -> (r: bool)
    ensures
        r == iset_seq(*s).contains(v),
{
    s.contains(&v)
}

/// Relies on `IndexSet::insert`: appends a new element at the end of the
/// order and returns true; leaves the set and the order unchanged and
/// returns false if an equal element is already present.
#[verifier::external_body]
pub(crate) fn iset_insert(s: &mut indexmap::IndexSet<u8>, v: u8) -> (r: bool)
    ensures
        iset_seq(*old(s)).contains(v) ==> iset_seq(*final(s)) == iset_seq(*old(s)) && r == false,
        !iset_seq(*old(s)).contains(v) ==> iset_seq(*final(s)) == iset_seq(*old(s)).push(v) && r
            == true,
{
    s.insert(v)
}

/// Relies on `IndexSet::shift_remove`: removes the element if present,
/// shifting the elements after it and preserving their relative order;
/// returns whether the element was present.
#[verifier::external_body]
pub(crate) fn iset_shift_remove(s: &mut indexmap::IndexSet<u8>, v: u8) -> (r: bool)
    ensures
        iset_seq(*final(s)) == iset_seq(*old(s)).remove_value(v),
        r == iset_seq(*old(s)).contains(v),
{
    s.shift_remove(&v)
}

/// Relies on `IndexSet::get_index`: the element at an index below the
/// length, in insertion order.
#[verifier::external_body]
pub(crate) fn iset_get(s: &indexmap::IndexSet<u8>, i: usize) -> (r: u8)
    requires
        i < iset_seq(*s).len(),
    ensures
        r == iset_seq(*s)[i as int],
{
    *s.get_index(i).unwrap()
}

/// Relies on `IndexSet::clone` (via `IndexMap::clone`): an independent
/// copy with the same elements in the same order.
#[verifier::external_body]
pub(crate) fn iset_clone(s: &indexmap::IndexSet<u8>) -> (r: indexmap::IndexSet<u8>)
    ensures
        iset_seq(r) == iset_seq(*s),
{
    s.clone()
}

} // verus!
