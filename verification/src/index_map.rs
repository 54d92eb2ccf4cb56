//! The ordered hash map of the `indexmap` crate, as far as the queues use it.

use indexmap::IndexMap;
use vstd::prelude::*;

verus! {

/// The type `indexmap::IndexMap`.
#[verifier::external_type_specification]
#[verifier::external_body]
#[verifier::reject_recursive_types(K)]
#[verifier::reject_recursive_types(V)]
#[verifier::reject_recursive_types(S)]
pub struct ExIndexMap<K, V, S>(IndexMap<K, V, S>);

/// The entries of a map, in their order.
pub uninterp spec fn index_entries(map: IndexMap<(u8, u16, u64), (u64, bool)>) -> Seq<
    ((u8, u16, u64), (u64, bool)),
>;

/// `IndexMap::new`: the map is empty.
#[verifier::external_body]
pub(crate) fn index_new() -> (map: IndexMap<(u8, u16, u64), (u64, bool)>)
    ensures
        index_entries(map) == Seq::<((u8, u16, u64), (u64, bool))>::empty(),
{
    IndexMap::new()
}

/// `IndexMap::len`: the number of entries.
#[verifier::external_body]
pub(crate) fn index_len(map: &IndexMap<(u8, u16, u64), (u64, bool)>) -> (len: usize)
    ensures
        len == index_entries(*map).len(),
{
    map.len()
}

/// `IndexMap::insert`: an entry with that key keeps its place and gets the
/// new value, and the old value is returned; without such an entry a new one
/// comes last.
#[verifier::external_body]
pub(crate) fn index_insert(
    map: &mut IndexMap<(u8, u16, u64), (u64, bool)>,
    key: (u8, u16, u64),
    value: (u64, bool),
) -> (r: Option<(u64, bool)>)
    ensures
        forall|i: int|
            0 <= i < index_entries(*old(map)).len() && (#[trigger] index_entries(*old(map))[i]).0
                == key ==> index_entries(*final(map)) == index_entries(*old(map)).update(
                i,
                (key, value),
            ) && r == Some(index_entries(*old(map))[i].1),
        (forall|i: int|
            0 <= i < index_entries(*old(map)).len() ==> (#[trigger] index_entries(*old(map))[i]).0
                != key) ==> index_entries(*final(map)) == index_entries(*old(map)).push((key, value))
            && r is None,
{
    map.insert(key, value)
}

/// `IndexMap::shift_remove`: takes the entry with that key out, closes the
/// gap, and returns its value; without such an entry nothing changes.
#[verifier::external_body]
pub(crate) fn index_shift_remove(
    map: &mut IndexMap<(u8, u16, u64), (u64, bool)>,
    key: (u8, u16, u64),
) -> (r: Option<(u64, bool)>)
    ensures
        forall|i: int|
            0 <= i < index_entries(*old(map)).len() && (#[trigger] index_entries(*old(map))[i]).0
                == key ==> index_entries(*final(map)) == index_entries(*old(map)).remove(i) && r
                == Some(index_entries(*old(map))[i].1),
        (forall|i: int|
            0 <= i < index_entries(*old(map)).len() ==> (#[trigger] index_entries(*old(map))[i]).0
                != key) ==> index_entries(*final(map)) == index_entries(*old(map)) && r is None,
{
    map.shift_remove(&key)
}

/// `IndexMap::get_index_mut`: access to the entry at a position, whose key is
/// handed out by value.
#[verifier::external_body]
pub(crate) fn index_get_index_mut(
    map: &mut IndexMap<(u8, u16, u64), (u64, bool)>,
    index: usize,
) -> (r: Option<((u8, u16, u64), &mut (u64, bool))>)
    ensures
        match r {
            Some((key, value)) => {
                &&& index < index_entries(*old(map)).len()
                &&& index_entries(*old(map))[index as int] == (key, *value)
                &&& index_entries(*final(map)) == index_entries(*old(map)).update(
                    index as int,
                    (key, *final(value)),
                )
            },
            None => index >= index_entries(*old(map)).len() && index_entries(*final(map))
                == index_entries(*old(map)),
        },
{
    map.get_index_mut(index).map(|(key, value)| (*key, value))
}

/// `IndexMap::get_full_mut`: the position of the entry with that key, its key,
/// and access to its value.
#[verifier::external_body]
pub(crate) fn index_get_full_mut(
    map: &mut IndexMap<(u8, u16, u64), (u64, bool)>,
    key: (u8, u16, u64),
) -> (r: Option<(usize, (u8, u16, u64), &mut (u64, bool))>)
    ensures
        match r {
            Some((index, found, value)) => {
                &&& found == key
                &&& index < index_entries(*old(map)).len()
                &&& index_entries(*old(map))[index as int] == (key, *value)
                &&& index_entries(*final(map)) == index_entries(*old(map)).update(
                    index as int,
                    (key, *final(value)),
                )
            },
            None => {
                &&& forall|i: int|
                    0 <= i < index_entries(*old(map)).len() ==> (#[trigger] index_entries(
                        *old(map),
                    )[i]).0 != key
                &&& index_entries(*final(map)) == index_entries(*old(map))
            },
        },
{
    map.get_full_mut(&key).map(|(index, found, value)| (index, *found, value))
}

} // verus!
