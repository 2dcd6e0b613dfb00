//! The arenas of the parser: vectors of `typed_index_collections` that hold
//! the terms, the quantifiers and the instantiations under their indices.
//! Nothing is ever taken out of an arena, so that an index, once given,
//! stays good.

use crate::items::{Instantiation, Quantifier, Term};
use typed_index_collections::TiVec;
use vstd::prelude::*;

verus! {

/// `typed_index_collections::TiVec`: a vector whose items are found under
/// keys of a type of their own.
#[verifier::external_type_specification]
#[verifier::external_body]
#[verifier::reject_recursive_types(K)]
#[verifier::reject_recursive_types(V)]
pub struct ExTiVec<K, V>(TiVec<K, V>);

/// The terms that an arena holds, in the order of their keys.
pub uninterp spec fn term_arena(v: TiVec<usize, Term>) -> Seq<Term>;

/// No terms.
pub open spec fn no_terms() -> Seq<Term> {
    Seq::empty()
}

/// `TiVec::new`: an arena that holds nothing.
#[verifier::external_body]
pub(crate) fn new_terms() -> (v: TiVec<usize, Term>)
    ensures
        term_arena(v) == no_terms(),
{
    TiVec::new()
}

/// `TiSlice::next_key`, on the slice of a `TiVec`: the key that the next item
/// gets, which is the number of items.
#[verifier::external_body]
pub(crate) fn next_term_key(v: &TiVec<usize, Term>) -> (k: usize)
    ensures
        k == term_arena(*v).len(),
{
    v.next_key()
}

/// `TiVec::push_and_get_key`: the item is added after those that are there,
/// and its key is what their number was.
#[verifier::external_body]
pub(crate) fn push_term(v: &mut TiVec<usize, Term>, item: Term) -> (k: usize)
    ensures
        k == term_arena(*old(v)).len(),
        term_arena(*final(v)) == term_arena(*old(v)).push(item),
{
    v.push_and_get_key(item)
}

/// Indexing a `TiVec` by a key: the item under the key. The call panics
/// where the key is none of the arena.
#[verifier::external_body]
pub(crate) fn term_at(v: &TiVec<usize, Term>, key: usize) -> (r: &Term)
    requires
        key < term_arena(*v).len(),
    ensures
        *r == term_arena(*v)[key as int],
{
    &v[key]
}

/// Indexing a `TiVec` by a key, to change the item under it: the arena
/// afterwards holds what the item was changed to, and all else as before.
/// The call panics where the key is none of the arena.
#[verifier::external_body]
pub(crate) fn term_at_mut(v: &mut TiVec<usize, Term>, key: usize) -> (r: &mut Term)
    requires
        key < term_arena(*old(v)).len(),
    ensures
        *r == term_arena(*old(v))[key as int],
        term_arena(*final(v)) == term_arena(*old(v)).update(key as int, *final(r)),
{
    &mut v[key]
}

/// The quantifiers that an arena holds, in the order of their keys.
pub uninterp spec fn quantifier_arena(v: TiVec<usize, Quantifier>) -> Seq<Quantifier>;

/// No quantifiers.
pub open spec fn no_quantifiers() -> Seq<Quantifier> {
    Seq::empty()
}

/// `TiVec::new`: an arena that holds nothing.
#[verifier::external_body]
pub(crate) fn new_quantifiers() -> (v: TiVec<usize, Quantifier>)
    ensures
        quantifier_arena(v) == no_quantifiers(),
{
    TiVec::new()
}

/// `TiSlice::next_key`, on the slice of a `TiVec`: the key that the next item
/// gets, which is the number of items.
#[verifier::external_body]
pub(crate) fn next_quantifier_key(v: &TiVec<usize, Quantifier>) -> (k: usize)
    ensures
        k == quantifier_arena(*v).len(),
{
    v.next_key()
}

/// `TiVec::push_and_get_key`: the item is added after those that are there,
/// and its key is what their number was.
#[verifier::external_body]
pub(crate) fn push_quantifier(v: &mut TiVec<usize, Quantifier>, item: Quantifier) -> (k: usize)
    ensures
        k == quantifier_arena(*old(v)).len(),
        quantifier_arena(*final(v)) == quantifier_arena(*old(v)).push(item),
{
    v.push_and_get_key(item)
}

/// Indexing a `TiVec` by a key: the item under the key. The call panics
/// where the key is none of the arena.
#[verifier::external_body]
pub(crate) fn quantifier_at(v: &TiVec<usize, Quantifier>, key: usize) -> (r: &Quantifier)
    requires
        key < quantifier_arena(*v).len(),
    ensures
        *r == quantifier_arena(*v)[key as int],
{
    &v[key]
}

/// Indexing a `TiVec` by a key, to change the item under it: the arena
/// afterwards holds what the item was changed to, and all else as before.
/// The call panics where the key is none of the arena.
#[verifier::external_body]
pub(crate) fn quantifier_at_mut(v: &mut TiVec<usize, Quantifier>, key: usize) -> (r: &mut Quantifier)
    requires
        key < quantifier_arena(*old(v)).len(),
    ensures
        *r == quantifier_arena(*old(v))[key as int],
        quantifier_arena(*final(v)) == quantifier_arena(*old(v)).update(key as int, *final(r)),
{
    &mut v[key]
}

/// The instantiations that an arena holds, in the order of their keys.
pub uninterp spec fn instantiation_arena(v: TiVec<usize, Instantiation>) -> Seq<Instantiation>;

/// No instantiations.
pub open spec fn no_instantiations() -> Seq<Instantiation> {
    Seq::empty()
}

/// `TiVec::new`: an arena that holds nothing.
#[verifier::external_body]
pub(crate) fn new_instantiations() -> (v: TiVec<usize, Instantiation>)
    ensures
        instantiation_arena(v) == no_instantiations(),
{
    TiVec::new()
}

/// `TiSlice::next_key`, on the slice of a `TiVec`: the key that the next item
/// gets, which is the number of items.
#[verifier::external_body]
pub(crate) fn next_instantiation_key(v: &TiVec<usize, Instantiation>) -> (k: usize)
    ensures
        k == instantiation_arena(*v).len(),
{
    v.next_key()
}

/// `TiVec::push_and_get_key`: the item is added after those that are there,
/// and its key is what their number was.
#[verifier::external_body]
pub(crate) fn push_instantiation(v: &mut TiVec<usize, Instantiation>, item: Instantiation) -> (k: usize)
    ensures
        k == instantiation_arena(*old(v)).len(),
        instantiation_arena(*final(v)) == instantiation_arena(*old(v)).push(item),
{
    v.push_and_get_key(item)
}

/// Indexing a `TiVec` by a key: the item under the key. The call panics
/// where the key is none of the arena.
#[verifier::external_body]
pub(crate) fn instantiation_at(v: &TiVec<usize, Instantiation>, key: usize) -> (r: &Instantiation)
    requires
        key < instantiation_arena(*v).len(),
    ensures
        *r == instantiation_arena(*v)[key as int],
{
    &v[key]
}

/// Indexing a `TiVec` by a key, to change the item under it: the arena
/// afterwards holds what the item was changed to, and all else as before.
/// The call panics where the key is none of the arena.
#[verifier::external_body]
pub(crate) fn instantiation_at_mut(v: &mut TiVec<usize, Instantiation>, key: usize) -> (r: &mut Instantiation)
    requires
        key < instantiation_arena(*old(v)).len(),
    ensures
        *r == instantiation_arena(*old(v))[key as int],
        instantiation_arena(*final(v)) == instantiation_arena(*old(v)).update(key as int, *final(r)),
{
    &mut v[key]
}

} // verus!
