//! Names to places: a `dashmap::DashMap` from texts to integers.

use vstd::prelude::*;
use dashmap::DashMap;

verus! {

/// `dashmap::DashMap`: what it holds is named by `entries` alone.
#[verifier::external_type_specification]
#[verifier::external_body]
#[verifier::reject_recursive_types(K)]
#[verifier::reject_recursive_types(V)]
#[verifier::reject_recursive_types(S)]
pub struct ExDashMap<K, V, S>(DashMap<K, V, S>);

/// The entries of a map: each key's characters with its value.
pub uninterp spec fn entries(m: DashMap<String, u64>) -> Map<Seq<char>, u64>;

/// `DashMap::new` makes an empty map.
#[verifier::external_body]
pub(crate) fn index_new() -> (m: DashMap<String, u64>)
    ensures
        entries(m).dom() == Set::<Seq<char>>::empty(),
{
    DashMap::new()
}

/// `DashMap::len` counts the entries.
#[verifier::external_body]
pub(crate) fn index_len(m: &DashMap<String, u64>) -> (n: usize)
    ensures
        n == entries(*m).dom().len(),
{
    m.len()
}

/// `DashMap::get` finds the value under a key.
#[verifier::external_body]
pub(crate) fn index_get(m: &DashMap<String, u64>, key: &str) -> (value: Option<u64>)
    ensures
        value == if entries(*m).dom().contains(key@) {
            Some(entries(*m)[key@])
        } else {
            None
        },
{
    m.get(key).map(|entry| *entry.value())
}

/// `DashMap::insert` sets the value under a key, in place of an earlier one.
#[verifier::external_body]
pub(crate) fn index_insert(m: &mut DashMap<String, u64>, key: String, value: u64)
    ensures
        entries(*final(m)) == entries(*old(m)).insert(key@, value),
{
    m.insert(key, value);
}

/// `DashMap::remove` takes the entry of a key out.
#[verifier::external_body]
pub(crate) fn index_remove(m: &mut DashMap<String, u64>, key: &str)
    ensures
        entries(*final(m)) == entries(*old(m)).remove(key@),
{
    m.remove(key);
}

} // verus!
