//! Attribute maps of `<A>` and `<H3>` tags, held in an insertion-ordered
//! `indexmap::IndexMap` so unknown attributes round-trip in their original
//! order.
use vstd::prelude::*;
use indexmap::IndexMap;
use crate::urls::pairs_view;

verus! {

#[verifier::external_type_specification]
#[verifier::external_body]
#[verifier::reject_recursive_types(K)]
#[verifier::reject_recursive_types(V)]
#[verifier::reject_recursive_types(S)]
pub struct ExIndexMap<K, V, S>(IndexMap<K, V, S>);

/// Attribute map that preserves insertion order.
pub type AttrMap = IndexMap<String, String>;

/// The entries of an attribute map, in insertion order.
pub uninterp spec fn attr_entries(m: IndexMap<String, String>) -> Seq<(Seq<char>, Seq<char>)>;

/// Index of the entry whose key is `k`, if any.
pub open spec fn key_index(es: Seq<(Seq<char>, Seq<char>)>, k: Seq<char>) -> Option<int>
    decreases es.len(),
{
    if es.len() == 0 {
        None
    } else if es[0].0 == k {
        Some(0)
    } else {
        match key_index(es.subrange(1, es.len() as int), k) {
            Some(i) => Some(i + 1),
            None => None,
        }
    }
}

/// `IndexMap::insert`: an existing key keeps its place and gets the new
/// value; a new key is appended last.
pub open spec fn entries_insert(
    es: Seq<(Seq<char>, Seq<char>)>,
    k: Seq<char>,
    v: Seq<char>,
) -> Seq<(Seq<char>, Seq<char>)> {
    match key_index(es, k) {
        Some(i) => es.update(i, (k, v)),
        None => es.push((k, v)),
    }
}

/// The keys of an index map are pairwise distinct.
pub open spec fn keys_distinct(es: Seq<(Seq<char>, Seq<char>)>) -> bool {
    forall|i: int, j: int| 0 <= i < j < es.len() ==> es[i].0 != es[j].0
}

/// `IndexMap::new`: an empty map.
#[verifier::external_body]
pub fn attr_map_new() -> (r: AttrMap)
    ensures
        attr_entries(r) == Seq::<(Seq<char>, Seq<char>)>::empty(),
{
    IndexMap::new()
}

/// `IndexMap::insert` for an attribute map; the previous value is dropped.
#[verifier::external_body]
pub fn attr_map_insert(m: &mut AttrMap, k: String, v: String)
    ensures
        attr_entries(*final(m)) == entries_insert(attr_entries(*old(m)), k@, v@),
{
    m.insert(k, v);
}

/// The entries of the map in order (`IndexMap::iter`), as owned pairs.
#[verifier::external_body]
pub fn attr_map_entries(m: &AttrMap) -> (r: Vec<(String, String)>)
    ensures
        pairs_view(r@) == attr_entries(*m),
        keys_distinct(pairs_view(r@)),
{
    m.iter().map(|(k, v)| (k.clone(), v.clone())).collect()
}

/// `IndexMap::clone`: a map with the same entries in the same order.
#[verifier::external_body]
pub fn attr_map_clone(m: &AttrMap) -> (r: AttrMap)
    ensures
        attr_entries(r) == attr_entries(*m),
{
    m.clone()
}

} // verus!
