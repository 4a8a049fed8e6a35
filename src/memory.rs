//! The concurrent in-memory map that holds the cache's contents.
use dashmap::DashMap;
use vstd::prelude::*;

use crate::snapshot::{lookup, opt_view, KeyValues};

verus! {

/// The concurrent hash map of the dashmap crate, held as an opaque value.
#[verifier::external_type_specification]
#[verifier::external_body]
#[verifier::reject_recursive_types(K)]
#[verifier::reject_recursive_types(V)]
#[verifier::reject_recursive_types(S)]
pub struct ExDashMap<K, V, S>(DashMap<K, V, S>);

/// The entries that a concurrent map of string keys and values holds.
pub uninterp spec fn cache_contents(m: DashMap<String, String>) -> KeyValues;

/// Relies on `DashMap::new`: a new map holds no entry.
#[verifier::external_body]
pub(crate) fn cache_new() -> (r: DashMap<String, String>)
    ensures
        cache_contents(r) == KeyValues::empty(),
{
    DashMap::new()
}

/// Relies on `DashMap::insert`: the key maps to the value afterwards, and the
/// value it had before is returned.
#[verifier::external_body]
pub(crate) fn cache_insert(m: &mut DashMap<String, String>, key: String, value: String) -> (r:
    Option<String>)
    ensures
        cache_contents(*final(m)) == cache_contents(*old(m)).insert(key@, value@),
        opt_view(r) == lookup(cache_contents(*old(m)), key@),
{
    m.insert(key, value)
}

/// Relies on `DashMap::get`: a copy of the value stored for the key.
#[verifier::external_body]
pub(crate) fn cache_get(m: &DashMap<String, String>, key: &String) -> (r: Option<String>)
    ensures
        opt_view(r) == lookup(cache_contents(*m), key@),
{
    m.get(key).map(|entry| entry.value().clone())
}

/// Relies on `DashMap::remove`: the key has no entry afterwards, and the
/// value it had is returned.
#[verifier::external_body]
pub(crate) fn cache_remove(m: &mut DashMap<String, String>, key: &String) -> (r: Option<String>)
    ensures
        cache_contents(*final(m)) == cache_contents(*old(m)).remove(key@),
        opt_view(r) == lookup(cache_contents(*old(m)), key@),
{
    m.remove(key).map(|(_, value)| value)
}

/// Relies on `DashMap::len`: the number of entries.
#[verifier::external_body]
pub(crate) fn cache_len(m: &DashMap<String, String>) -> (r: usize)
    ensures
        r == cache_contents(*m).len(),
{
    m.len()
}

/// Relies on `DashMap::is_empty`: whether the number of entries is zero.
#[verifier::external_body]
pub(crate) fn cache_is_empty(m: &DashMap<String, String>) -> (r: bool)
    ensures
        r == (cache_contents(*m).len() == 0),
{
    m.is_empty()
}

/// Relies on `DashMap::contains_key`: whether the key has an entry.
#[verifier::external_body]
pub(crate) fn cache_contains_key(m: &DashMap<String, String>, key: &String) -> (r: bool)
    ensures
        r == cache_contents(*m).contains_key(key@),
{
    m.contains_key(key)
}

/// Relies on `DashMap::clear`: no entry is left.
#[verifier::external_body]
pub(crate) fn cache_clear(m: &mut DashMap<String, String>)
    ensures
        cache_contents(*final(m)) == KeyValues::empty(),
{
    m.clear()
}

} // verus!
