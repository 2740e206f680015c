//! The concurrent collections of the `dashmap` crate that the interposition
//! layer and the semaphore table keep their state in.
//!
//! The collections take `&self` for updates; the wrappers below take
//! `&mut` so that their contracts can relate the contents before and after.
use dashmap::{DashMap, DashSet};
use std::collections::hash_map::RandomState;
use vstd::prelude::*;

verus! {

/// `dashmap::DashSet`, seen by the library as an opaque value.
#[verifier::external_type_specification]
#[verifier::external_body]
#[verifier::reject_recursive_types(K)]
#[verifier::reject_recursive_types(S)]
pub struct ExDashSet<K, S>(DashSet<K, S>);

/// `dashmap::DashMap`, seen by the library as an opaque value.
#[verifier::external_type_specification]
#[verifier::external_body]
#[verifier::reject_recursive_types(K)]
#[verifier::reject_recursive_types(V)]
#[verifier::reject_recursive_types(S)]
pub struct ExDashMap<K, V, S>(DashMap<K, V, S>);

/// A concurrent set of cage ids.
pub type IdSet = DashSet<u64, RandomState>;

/// A concurrent map from ids to ids.
pub type IdMap = DashMap<u64, u64, RandomState>;

/// The ids a `DashSet<u64>` holds.
pub uninterp spec fn id_set_contents(s: IdSet) -> Set<u64>;

/// The entries a `DashMap<u64, u64>` holds.
pub uninterp spec fn id_map_contents(m: IdMap) -> Map<u64, u64>;

/// Calls `DashSet::new`: the new set holds nothing.
#[verifier::external_body]
pub(crate) fn id_set_new() -> (s: IdSet)
    ensures
        id_set_contents(s) == Set::<u64>::empty(),
{
    DashSet::new()
}

/// Calls `DashSet::contains`: whether `k` is in the set.
#[verifier::external_body]
pub(crate) fn id_set_contains(s: &IdSet, k: u64) -> (r: bool)
    ensures
        r == id_set_contents(*s).contains(k),
{
    s.contains(&k)
}

/// Calls `DashSet::insert`: `k` is added; the result says whether it was
/// absent before.
#[verifier::external_body]
pub(crate) fn id_set_insert(s: &mut IdSet, k: u64) -> (r: bool)
    ensures
        id_set_contents(*final(s)) == id_set_contents(*old(s)).insert(k),
        r == !id_set_contents(*old(s)).contains(k),
{
    s.insert(k)
}

/// Calls `DashSet::remove`: `k` is no longer in the set; the result is
/// `Some(k)` exactly when it was there.
#[verifier::external_body]
pub(crate) fn id_set_remove(s: &mut IdSet, k: u64) -> (r: Option<u64>)
    ensures
        id_set_contents(*final(s)) == id_set_contents(*old(s)).remove(k),
        r == (if id_set_contents(*old(s)).contains(k) {
            Some(k)
        } else {
            None
        }),
{
    s.remove(&k)
}

/// Calls `DashSet::clear`: the set holds nothing afterwards.
#[verifier::external_body]
pub(crate) fn id_set_clear(s: &mut IdSet)
    ensures
        id_set_contents(*final(s)) == Set::<u64>::empty(),
{
    s.clear()
}

/// Calls `DashMap::new`: the new map holds nothing.
#[verifier::external_body]
pub(crate) fn id_map_new() -> (m: IdMap)
    ensures
        id_map_contents(m) =~= Map::empty(),
{
    DashMap::new()
}

/// Calls `DashMap::insert`: `k` maps to `v` afterwards; the result is the
/// value it replaced, if any.
#[verifier::external_body]
pub(crate) fn id_map_insert(m: &mut IdMap, k: u64, v: u64) -> (r: Option<u64>)
    ensures
        id_map_contents(*final(m)) == id_map_contents(*old(m)).insert(k, v),
        r == id_map_contents(*old(m)).get(k),
{
    m.insert(k, v)
}

/// Calls `DashMap::get` and copies the value out of the guard.
#[verifier::external_body]
pub(crate) fn id_map_get(m: &IdMap, k: u64) -> (r: Option<u64>)
    ensures
        r == id_map_contents(*m).get(k),
{
    m.get(&k).map(|v| *v)
}

/// A concurrent map from wide keys to indices.
pub type KeyMap = DashMap<u128, u64, RandomState>;

/// The entries a `DashMap<u128, u64>` holds.
pub uninterp spec fn key_map_contents(m: KeyMap) -> Map<u128, u64>;

/// Calls `DashMap::new`: the new map holds nothing.
#[verifier::external_body]
pub(crate) fn key_map_new() -> (m: KeyMap)
    ensures
        key_map_contents(m) =~= Map::empty(),
{
    DashMap::new()
}

/// Calls `DashMap::insert`: `k` maps to `v` afterwards; the result is the
/// value it replaced, if any.
#[verifier::external_body]
pub(crate) fn key_map_insert(m: &mut KeyMap, k: u128, v: u64) -> (r: Option<u64>)
    ensures
        key_map_contents(*final(m)) == key_map_contents(*old(m)).insert(k, v),
        r == key_map_contents(*old(m)).get(k),
{
    m.insert(k, v)
}

/// Calls `DashMap::get` and copies the value out of the guard.
#[verifier::external_body]
pub(crate) fn key_map_get(m: &KeyMap, k: u128) -> (r: Option<u64>)
    ensures
        r == key_map_contents(*m).get(k),
{
    m.get(&k).map(|v| *v)
}

/// Calls `DashMap::remove`: `k` has no entry afterwards; the result is the
/// entry it had, if any.
#[verifier::external_body]
pub(crate) fn key_map_remove(m: &mut KeyMap, k: u128) -> (r: Option<(u128, u64)>)
    ensures
        key_map_contents(*final(m)) == key_map_contents(*old(m)).remove(k),
        r == (match key_map_contents(*old(m)).get(k) {
            Some(v) => Some((k, v)),
            None => None,
        }),
{
    m.remove(&k)
}

} // verus!
