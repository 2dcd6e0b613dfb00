//! The table that resolves the solver's textual identifiers to indices, and
//! the hash maps it is made of.

use crate::items::{DiscoveredId, DiscoveredIdView, QuantIdx, TermIdx};
use fxhash::FxHashMap;
use vstd::prelude::*;

verus! {

/// `fxhash::FxHasher`: the hasher of the maps of this module.
#[verifier::external_type_specification]
#[verifier::external_body]
pub struct ExFxHasher(fxhash::FxHasher);

/// `std::hash::BuildHasherDefault`: makes the hashers of a map from their
/// default value.
#[verifier::external_type_specification]
#[verifier::external_body]
#[verifier::reject_recursive_types(H)]
pub struct ExBuildHasherDefault<H>(std::hash::BuildHasherDefault<H>);

/// What a map from identifiers to indices holds.
pub uninterp spec fn id_map(m: FxHashMap<Vec<u8>, usize>) -> Map<Seq<u8>, usize>;

/// The map that binds no identifier.
pub open spec fn no_ids() -> Map<Seq<u8>, usize> {
    Map::empty()
}

/// `FxHashMap::default`: a new map is empty.
#[verifier::external_body]
fn id_map_new() -> (m: FxHashMap<Vec<u8>, usize>)
    ensures
        id_map(m) == no_ids(),
{
    FxHashMap::default()
}

/// `HashMap::insert` on an `FxHashMap`: the key is bound to the new index,
/// whatever it was bound to before, and no other key changes.
#[verifier::external_body]
fn id_map_insert(m: &mut FxHashMap<Vec<u8>, usize>, key: Vec<u8>, idx: usize)
    ensures
        id_map(*final(m)) == id_map(*old(m)).insert(key@, idx),
{
    m.insert(key, idx);
}

/// `HashMap::get` on an `FxHashMap`: the index that the key is bound to, if any.
#[verifier::external_body]
fn id_map_get(m: &FxHashMap<Vec<u8>, usize>, key: &[u8]) -> (r: Option<usize>)
    ensures
        r == if id_map(*m).contains_key(key@) {
            Some(id_map(*m)[key@])
        } else {
            None
        },
{
    m.get(key).copied()
}

/// `HashMap::insert` on an `FxHashMap` with integer keys: the key is bound to
/// the new value, whatever it was bound to before, and no other key changes.
#[verifier::external_body]
pub(crate) fn fx_insert<K: Integer + Eq + std::hash::Hash, V>(m: &mut FxHashMap<K, V>, key: K, value: V)
    ensures
        final(m)@ == old(m)@.insert(key, value),
{
    m.insert(key, value);
}

/// `HashMap::remove` on an `FxHashMap` with integer keys: the value that the
/// key was bound to, if any, is handed out and the key is bound no more.
#[verifier::external_body]
pub(crate) fn fx_remove<K: Integer + Eq + std::hash::Hash, V>(m: &mut FxHashMap<K, V>, key: K) -> (r: Option<V>)
    ensures
        final(m)@ == old(m)@.remove(key),
        r == if old(m)@.contains_key(key) {
            Some(old(m)@[key])
        } else {
            None
        },
{
    m.remove(&key)
}

/// Resolves the solver's identifiers: those of terms, and the keys under which
/// quantifiers that the solver made up are kept. A binding is only ever
/// replaced by a later one, never removed.
#[derive(Debug)]
pub struct IdxMap {
    term_map: FxHashMap<Vec<u8>, TermIdx>,
    theory_map: FxHashMap<Vec<u8>, QuantIdx>,
    mbqi: Option<QuantIdx>,
}

impl Default for IdxMap {
    /// A table that binds nothing.
    fn default() -> (r: Self)
        ensures
            r.terms() == Map::<Seq<u8>, TermIdx>::empty(),
            r.discovered() == Map::<DiscoveredIdView, QuantIdx>::empty(),
    {
        IdxMap::new()
    }
}

impl IdxMap {
    /// The term that each identifier is bound to.
    pub closed spec fn terms(&self) -> Map<Seq<u8>, TermIdx> {
        id_map(self.term_map)
    }

    /// The quantifier that each discovery key is bound to.
    pub closed spec fn discovered(&self) -> Map<DiscoveredIdView, QuantIdx> {
        discovered_of(id_map(self.theory_map), self.mbqi)
    }

    /// A table that binds nothing.
    pub fn new() -> (r: Self)
        ensures
            r.terms() == Map::<Seq<u8>, TermIdx>::empty(),
            r.discovered() == Map::<DiscoveredIdView, QuantIdx>::empty(),
    {
        let r = IdxMap { term_map: id_map_new(), theory_map: id_map_new(), mbqi: None };
        r
    }

    /// Binds an identifier to a term. An earlier binding of the same
    /// identifier is replaced: the solver reuses identifiers, and later uses
    /// mean the new term.
    pub fn register_term(&mut self, id: Vec<u8>, idx: TermIdx)
        ensures
            final(self).terms() == old(self).terms().insert(id@, idx),
            final(self).discovered() == old(self).discovered(),
    {
        id_map_insert(&mut self.term_map, id, idx);
    }

    /// The term that an identifier is bound to now, if any.
    pub fn get_term(&self, id: &[u8]) -> (r: Option<TermIdx>)
        ensures
            r == lookup(self.terms(), id@),
    {
        id_map_get(&self.term_map, id)
    }

    /// The quantifier kept under a discovery key. Where the key is not bound
    /// yet, `default` is called for the quantifier, which is then kept under
    /// the key.
    pub fn discovered_quant(&mut self, id: DiscoveredId, default: impl FnOnce() -> QuantIdx) -> (r:
        QuantIdx)
        requires
            default.requires(()),
        ensures
            final(self).terms() == old(self).terms(),
            old(self).discovered().contains_key(id@) ==> r == old(self).discovered()[id@]
                && final(self).discovered() == old(self).discovered(),
            !old(self).discovered().contains_key(id@) ==> default.ensures((), r)
                && final(self).discovered() == old(self).discovered().insert(id@, r),
    {
        match id {
            DiscoveredId::TheorySolving(key) => {
                match id_map_get(&self.theory_map, key.as_slice()) {
                    Some(q) => q,
                    None => {
                        let q = default();
                        id_map_insert(&mut self.theory_map, key, q);
                        q
                    },
                }
            },
            DiscoveredId::MBQI => {
                match self.mbqi {
                    Some(q) => q,
                    None => {
                        let q = default();
                        self.mbqi = Some(q);
                        q
                    },
                }
            },
        }
    }
}

/// The bindings of discovery keys, from those of theory terms and that of
/// the one key of model-based instantiation.
pub open spec fn discovered_of(theory: Map<Seq<u8>, QuantIdx>, mbqi: Option<QuantIdx>) -> Map<
    DiscoveredIdView,
    QuantIdx,
> {
    Map::new(
        |k: DiscoveredIdView| discovered_has(theory, mbqi, k),
        |k: DiscoveredIdView| discovered_at(theory, mbqi, k),
    )
}

/// Whether a discovery key is bound.
pub open spec fn discovered_has(
    theory: Map<Seq<u8>, QuantIdx>,
    mbqi: Option<QuantIdx>,
    k: DiscoveredIdView,
) -> bool {
    match k {
        DiscoveredIdView::TheorySolving(id) => theory.contains_key(id),
        DiscoveredIdView::MBQI => mbqi is Some,
    }
}

/// The quantifier that a discovery key is bound to.
pub open spec fn discovered_at(
    theory: Map<Seq<u8>, QuantIdx>,
    mbqi: Option<QuantIdx>,
    k: DiscoveredIdView,
) -> QuantIdx {
    match k {
        DiscoveredIdView::TheorySolving(id) => theory[id],
        DiscoveredIdView::MBQI => mbqi->0,
    }
}

/// What a key is bound to in a map, if anything.
pub open spec fn lookup<K, V>(m: Map<K, V>, k: K) -> Option<V> {
    if m.contains_key(k) {
        Some(m[k])
    } else {
        None
    }
}

} // verus!
