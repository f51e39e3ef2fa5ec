//! The insertion-ordered map of the `indexmap` crate, used for the
//! per-shard counters of a block, with contracts for the operations that
//! the models call.
use vstd::prelude::*;

use indexmap::IndexMap;

verus! {

/// Declares `indexmap::IndexMap` to Verus as an opaque type.
#[verifier::external_type_specification]
#[verifier::external_body]
#[verifier::reject_recursive_types(K)]
#[verifier::reject_recursive_types(V)]
#[verifier::reject_recursive_types(S)]
pub struct ExIndexMap<K, V, S>(IndexMap<K, V, S>);

/// The entries of a map of shard numbers to counters, in the map's order.
pub uninterp spec fn index_map_entries(m: IndexMap<u32, u64>) -> Seq<(u32, u64)>;

/// Whether no key occurs twice among `entries`.
pub open spec fn keys_distinct(entries: Seq<(u32, u64)>) -> bool {
    forall|i: int, j: int| 0 <= i < j < entries.len() ==> entries[i].0 != entries[j].0
}

/// The value of the first entry with key `key`, if any.
pub open spec fn entries_get(entries: Seq<(u32, u64)>, key: u32) -> Option<u64>
    decreases entries.len(),
{
    if entries.len() == 0 {
        None
    } else if entries[0].0 == key {
        Some(entries[0].1)
    } else {
        entries_get(entries.drop_first(), key)
    }
}

/// `IndexMap::new`: a map with no entries.
#[verifier::external_body]
pub(crate) fn index_map_new() -> (m: IndexMap<u32, u64>)
    ensures
        index_map_entries(m) == Seq::<(u32, u64)>::empty(),
{
    IndexMap::new()
}

/// `IndexMap::get`: the value stored under `key`, looked up by hash and
/// equality of the key.
#[verifier::external_body]
pub(crate) fn index_map_get(m: &IndexMap<u32, u64>, key: u32) -> (r: Option<u64>)
    ensures
        r == entries_get(index_map_entries(*m), key),
{
    m.get(&key).copied()
}

/// `IndexMap::iter`: the entries in the map's order, each key once.
#[verifier::external_body]
pub(crate) fn index_map_to_vec(m: &IndexMap<u32, u64>) -> (r: Vec<(u32, u64)>)
    ensures
        r@ == index_map_entries(*m),
        keys_distinct(r@),
{
    m.iter().map(|(k, v)| (*k, *v)).collect()
}

/// `IndexMap::clone`: a map with the same entries in the same order.
#[verifier::external_body]
pub(crate) fn index_map_clone(m: &IndexMap<u32, u64>) -> (r: IndexMap<u32, u64>)
    ensures
        index_map_entries(r) == index_map_entries(*m),
{
    m.clone()
}

} // verus!
