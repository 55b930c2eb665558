//! Operations of the standard library's `BTreeMap` and iterators that the bounded map
//! needs and that come without a specification. Each function here makes one call; its
//! contract is taken on trust from the standard library's documentation.

use crate::bounded_btree_map::{
    collected_from, eq_by_contents, hands_out, is_entry, ordered_keys,
};
use core::borrow::Borrow;
use std::collections::btree_map::IterMut;
use std::collections::BTreeMap;
use vstd::prelude::*;
use vstd::std_specs::btree::{
    borrowed_key_removed, contains_borrowed_key, maps_borrowed_key_to_value,
};
use vstd::std_specs::cmp::OrdSpec;
use vstd::std_specs::iter::IteratorSpec;

verus! {

/// The iterator that hands out the values of a `BTreeMap` for writing.
#[verifier::external_type_specification]
#[verifier::external_body]
#[verifier::reject_recursive_types(K)]
#[verifier::reject_recursive_types(V)]
pub struct ExIterMut<'a, K: 'a, V: 'a>(IterMut<'a, K, V>);

/// `BTreeMap::remove_entry`: removes the entry whose key matches `key` and hands back the
/// stored key with its value, or `None`, with the map as it was, where no key matches.
#[verifier::external_body]
pub(crate) fn remove_entry<K, V, Q>(map: &mut BTreeMap<K, V>, key: &Q) -> (removed: Option<(K, V)>)
    where
        K: Borrow<Q> + Ord,
        Q: Ord + ?Sized,
    ensures
        ordered_keys::<K>() ==> {
            &&& borrowed_key_removed(old(map)@, final(map)@, key)
            &&& match removed {
                Some((k, v)) => {
                    &&& maps_borrowed_key_to_value(old(map)@, key, v)
                    &&& old(map)@.contains_key(k)
                    &&& old(map)@[k] == v
                    &&& final(map)@ == old(map)@.remove(k)
                },
                None => !contains_borrowed_key(old(map)@, key) && final(map)@ == old(map)@,
            }
        },
{
    map.remove_entry(key)
}

/// `BTreeMap::get_mut`: a mutable reference to the value stored under `key`, or `None`
/// where no key matches. Writing through the reference changes that one value and nothing
/// else.
#[verifier::external_body]
pub(crate) fn get_mut<'a, K, V, Q>(map: &'a mut BTreeMap<K, V>, key: &Q) -> (slot: Option<&'a mut V>)
    where
        K: Borrow<Q> + Ord,
        Q: Ord + ?Sized,
    ensures
        ordered_keys::<K>() ==> match slot {
            Some(value) => {
                &&& maps_borrowed_key_to_value(old(map)@, key, *value)
                &&& exists|k: K|
                    {
                        &&& #[trigger] old(map)@.contains_key(k)
                        &&& old(map)@[k] == *value
                        &&& final(map)@ == old(map)@.insert(k, *final(value))
                    }
            },
            None => !contains_borrowed_key(old(map)@, key) && final(map)@ == old(map)@,
        },
{
    map.get_mut(key)
}

/// `BTreeMap::pop_first`: removes and returns the entry with the least key, or `None`
/// where the map is empty. The map gets one entry shorter each time an entry comes out.
#[verifier::external_body]
pub(crate) fn pop_first<K: Ord, V>(map: &mut BTreeMap<K, V>) -> (first: Option<(K, V)>)
    ensures
        first is Some ==> final(map).len() < old(map).len(),
        ordered_keys::<K>() ==> match first {
            Some((k, v)) => {
                &&& old(map)@.contains_key(k)
                &&& old(map)@[k] == v
                &&& final(map)@ == old(map)@.remove(k)
                &&& forall|other: K| #[trigger]
                    old(map)@.contains_key(other) && other != k ==> k.cmp_spec(&other) is Less
            },
            None => old(map)@ == Map::<K, V>::empty() && final(map)@ == old(map)@,
        },
{
    map.pop_first()
}

/// `BTreeMap::retain`: calls `f` once on every entry, in ascending order of the keys, and
/// removes the entries for which it answers `false`. `f` may write to the value it is shown.
#[verifier::external_body]
pub(crate) fn retain<K: Ord, V, F: FnMut(&K, &mut V) -> bool>(map: &mut BTreeMap<K, V>, f: F)
    requires
        forall|k: &K, slot: &mut V|
            is_entry(old(map)@, *k, *slot) ==> #[trigger] f.requires((k, slot)),
    ensures
        ordered_keys::<K>() ==> final(map)@.dom().subset_of(old(map)@.dom()),
        ordered_keys::<K>() ==> forall|k: K| #[trigger]
            old(map)@.contains_key(k) ==> exists|slot: &mut V, keep: bool|
                {
                    &&& *slot == old(map)@[k]
                    &&& #[trigger] f.ensures((&k, slot), keep)
                    &&& keep == final(map)@.contains_key(k)
                    &&& keep ==> final(map)@[k] == *final(slot)
                },
{
    map.retain(f)
}

/// `BTreeMap::iter_mut`: an iterator over the entries in ascending order of the keys, with
/// the values open to writing. It hands out every entry once, each key with a reference to
/// the value stored under it; what is written through the reference is the value that the
/// map has under that key afterwards. It adds no key and removes none.
#[verifier::external_body]
pub(crate) fn iter_mut<'a, K, V>(map: &'a mut BTreeMap<K, V>) -> (iter: IterMut<'a, K, V>)
    ensures
        ordered_keys::<K>() ==> {
            &&& final(map)@.dom() == old(map)@.dom()
            &&& iter.obeys_prophetic_iter_laws()
            &&& hands_out(iter.remaining(), old(map)@)
            &&& forall|i: int|
                0 <= i < iter.remaining().len() ==> final(map)@[*(#[trigger] iter.remaining()[
                    i
                ]).0] == *final(iter.remaining()[i].1)
        },
{
    map.iter_mut()
}

/// `==` of two `BTreeMap`s: they have the same length and, walked in ascending order of
/// the keys, the same entries.
#[verifier::external_body]
pub(crate) fn maps_equal<K: PartialEq, V: PartialEq>(a: &BTreeMap<K, V>, b: &BTreeMap<K, V>) -> (same: bool)
    ensures
        (eq_by_contents::<K, V>() ==> same == (a@ == b@)),
{
    a == b
}

/// `partial_cmp` of two `BTreeMap`s: compares their entries in ascending order of the
/// keys, one by one.
#[verifier::external_body]
pub(crate) fn maps_partial_cmp<K: PartialOrd, V: PartialOrd>(a: &BTreeMap<K, V>, b: &BTreeMap<K, V>) -> (order: Option<core::cmp::Ordering>)
{
    a.partial_cmp(b)
}

/// `Hash::hash` of a `BTreeMap`: feeds the length and then every entry to the hasher.
#[verifier::external_body]
pub(crate) fn hash_map<K: core::hash::Hash, V: core::hash::Hash, H: core::hash::Hasher>(map: &BTreeMap<K, V>, state: &mut H)
{
    core::hash::Hash::hash(map, state)
}

/// What `Debug` writes to.
#[verifier::external_type_specification]
#[verifier::external_body]
pub struct ExFormatter<'a>(core::fmt::Formatter<'a>);

/// The error of writing to a `Formatter`.
#[verifier::external_type_specification]
#[verifier::external_body]
pub struct ExFmtError(core::fmt::Error);

/// `Formatter::debug_tuple`: writes `name`, then the map and the bound in brackets.
#[verifier::external_body]
pub(crate) fn debug_map_with_bound<K: core::fmt::Debug, V: core::fmt::Debug>(map: &BTreeMap<K, V>, bound: usize, f: &mut core::fmt::Formatter<'_>) -> core::fmt::Result
{
    f.debug_tuple("BoundedBTreeMap").field(map).field(&bound).finish()
}

/// `Iterator::size_hint`: the least number of items that the iterator says it has left,
/// which is their exact number where the iterator knows it. An iterator may say anything,
/// so nothing is promised of the number.
#[verifier::external_body]
pub(crate) fn announced_len<I: Iterator>(iter: &I) -> (len: usize)
{
    iter.size_hint().0
}

/// `Iterator::collect` into a `BTreeMap`: takes every pair that the iterator produces. The
/// map has the keys of the pairs; where pairs have the same key, all but one of them are
/// dropped.
#[verifier::external_body]
pub(crate) fn collect_map<K: Ord, V, I: Iterator<Item = (K, V)>>(iter: I) -> (map: BTreeMap<K, V>)
    ensures
        (ordered_keys::<K>() && iter.obeys_prophetic_iter_laws() ==> collected_from(
            iter.remaining(),
            map@,
        )),
{
    iter.collect()
}

} // verus!
