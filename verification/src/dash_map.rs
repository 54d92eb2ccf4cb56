//! The hash map of the `dashmap` crate, as far as the queues use it.
//!
//! A `DashMap` can be changed through a shared reference. Here only its
//! exclusive owner changes it, so that what it holds is a function of its
//! value.

use dashmap::DashMap;
use vstd::prelude::*;

verus! {

/// The type `dashmap::DashMap`.
#[verifier::external_type_specification]
#[verifier::external_body]
#[verifier::reject_recursive_types(K)]
#[verifier::reject_recursive_types(V)]
#[verifier::reject_recursive_types(S)]
pub struct ExDashMap<K, V, S>(DashMap<K, V, S>);

/// What a map holds.
pub uninterp spec fn dash_entries(map: DashMap<(u8, u16, u64), u64>) -> Map<(u8, u16, u64), u64>;

/// `DashMap::new`: the map is empty.
#[verifier::external_body]
pub(crate) fn dash_new() -> (map: DashMap<(u8, u16, u64), u64>)
    ensures
        (dash_entries(map) == Map::<(u8, u16, u64), u64>::empty()),
{
    DashMap::new()
}

/// `DashMap::len`: the number of keys.
#[verifier::external_body]
pub(crate) fn dash_len(map: &DashMap<(u8, u16, u64), u64>) -> (len: usize)
    ensures
        len == dash_entries(*map).dom().len(),
{
    map.len()
}

/// `DashMap::contains_key`: whether the map has the key.
#[verifier::external_body]
pub(crate) fn dash_contains_key(map: &DashMap<(u8, u16, u64), u64>, key: (u8, u16, u64)) -> (r: bool)
    ensures
        r == dash_entries(*map).contains_key(key),
{
    map.contains_key(&key)
}

/// `DashMap::insert`: stores the value under the key and returns the value
/// that was there before.
#[verifier::external_body]
pub(crate) fn dash_insert(
    map: &mut DashMap<(u8, u16, u64), u64>,
    key: (u8, u16, u64),
    value: u64,
) -> (r: Option<u64>)
    ensures
        dash_entries(*final(map)) == dash_entries(*old(map)).insert(key, value),
        r == if dash_entries(*old(map)).contains_key(key) {
            Some(dash_entries(*old(map))[key])
        } else {
            None
        },
{
    map.insert(key, value)
}

/// `DashMap::remove`: takes the entry of the key out and returns it.
#[verifier::external_body]
pub(crate) fn dash_remove(map: &mut DashMap<(u8, u16, u64), u64>, key: (u8, u16, u64)) -> (r: Option<
    ((u8, u16, u64), u64),
>)
    ensures
        dash_entries(*final(map)) == dash_entries(*old(map)).remove(key),
        r == if dash_entries(*old(map)).contains_key(key) {
            Some((key, dash_entries(*old(map))[key]))
        } else {
            None
        },
{
    map.remove(&key)
}

/// `DashMap::iter` and the first item it yields: a key of the map, or nothing
/// if the map is empty. Which key comes first is left open, since it depends
/// on the hasher that each map seeds anew.
#[verifier::external_body]
pub(crate) fn dash_first_key(map: &DashMap<(u8, u16, u64), u64>) -> (r: Option<(u8, u16, u64)>)
    ensures
        match r {
            Some(key) => dash_entries(*map).contains_key(key),
            None => (dash_entries(*map) == Map::<(u8, u16, u64), u64>::empty()),
        },
{
    map.iter().next().map(|entry| *entry.key())
}

} // verus!
