//! Traits, types and structs to support a bounded BTreeMap.

use crate::bound::{Get, TryCollect};
use crate::btree_ops;
use core::borrow::Borrow;
use std::collections::btree_map::{Iter, IterMut};
use std::collections::BTreeMap;
use std::marker::PhantomData;
use vstd::prelude::*;
use vstd::std_specs::btree::{
    borrowed_key_removed, contains_borrowed_key, increasing_seq, maps_borrowed_key_to_value,
    spec_btree_map_iter,
};
use vstd::std_specs::iter::IteratorSpec;
use vstd::std_specs::cmp::OrdSpec;

verus! {

/// Whether Verus knows how keys of type `K` compare, which is what gives a `BTreeMap<K, _>`
/// its meaning as a mathematical map. It holds of the integer types and of tuples of them.
/// Every contract below that speaks of a map's contents is stated for such keys.
pub open spec fn ordered_keys<K>() -> bool {
    vstd::std_specs::btree::key_obeys_cmp_spec::<K>()
}

/// When `==` on a `BTreeMap<K, V>` can be read off the map's contents: the keys come out
/// in one order, and `==` on keys and on values is equality of the values themselves.
pub open spec fn eq_by_contents<K: PartialEq, V: PartialEq>() -> bool {
    &&& ordered_keys::<K>()
    &&& vstd::laws_eq::obeys_concrete_eq::<K>()
    &&& vstd::laws_eq::obeys_concrete_eq::<V>()
}

/// Whether a map that may hold `bound` entries takes an entry under `key`: it does where
/// it has the key already, or has room for one entry more.
pub open spec fn admits<K, V>(map: Map<K, V>, bound: nat, key: K) -> bool {
    map.contains_key(key) || map.len() < bound
}

/// What becomes of a map that may hold `bound` entries when an entry is offered to it: the
/// entry is in it where the map admits the key, and nothing has changed where it does not.
pub open spec fn inserted<K, V>(map: Map<K, V>, bound: nat, key: K, value: V) -> Map<K, V> {
    if admits(map, bound, key) {
        map.insert(key, value)
    } else {
        map
    }
}

/// Whether `value` under `key` is an entry of `map`. Of a map whose keys Verus does not
/// know how to compare nothing is known, and anything may be an entry of it.
pub open spec fn is_entry<K, V>(map: Map<K, V>, key: K, value: V) -> bool {
    ordered_keys::<K>() ==> map.contains_key(key) && map[key] == value
}

/// Whether `items` are the entries of `map`, each once and in ascending order of the keys,
/// every key with a reference to the value that the map holds under it.
pub open spec fn hands_out<K, V>(items: Seq<(&K, &mut V)>, map: Map<K, V>) -> bool {
    &&& items.len() == map.len()
    &&& increasing_seq(items.map_values(|item: (&K, &mut V)| *item.0))
    &&& forall|i: int|
        0 <= i < items.len() ==> map.contains_key(*(#[trigger] items[i]).0) && *items[i].1
            == map[*items[i].0]
    &&& forall|k: K| #[trigger]
        map.contains_key(k) ==> exists|i: int| 0 <= i < items.len() && *(#[trigger] items[i]).0 == k
}

/// Whether `map` is what collecting the pairs `items` gives: it has the keys of the pairs,
/// and under each key the value of one of the pairs with that key.
pub open spec fn collected_from<K, V>(items: Seq<(K, V)>, map: Map<K, V>) -> bool {
    &&& forall|i: int| 0 <= i < items.len() ==> map.contains_key((#[trigger] items[i]).0)
    &&& forall|k: K| #[trigger]
        map.contains_key(k) ==> exists|i: int|
            0 <= i < items.len() && #[trigger] items[i] == (k, map[k])
}

/// The keys of the pairs `items`, each counted once.
pub open spec fn keys_of<K, V>(items: Seq<(K, V)>) -> Set<K> {
    items.map_values(|item: (K, V)| item.0).to_set()
}

/// A map collected from pairs has the keys of the pairs, no more and no fewer.
pub proof fn lemma_collected_keys<K, V>(items: Seq<(K, V)>, map: Map<K, V>)
    requires
        collected_from(items, map),
    ensures
        map.dom() == keys_of(items),
{
    let keys = items.map_values(|item: (K, V)| item.0);
    assert forall|k: K| map.dom().contains(k) <==> keys_of(items).contains(k) by {
        if map.contains_key(k) {
            let i = choose|i: int| 0 <= i < items.len() && #[trigger] items[i] == (k, map[k]);
            assert(keys[i] == k);
        }
        if keys_of(items).contains(k) {
            let i = choose|i: int| 0 <= i < keys.len() && keys[i] == k;
            assert(map.contains_key(items[i].0));
        }
    }
    assert(map.dom() =~= keys_of(items));
}

/// Whether `a` comes before `b` in the order of the keys.
pub open spec fn key_before<K: Ord>(a: K, b: K) -> bool {
    a.cmp_spec(&b) is Less
}

/// Of two keys, one comes before the other at most one way round, and no key comes before
/// itself.
proof fn lemma_before_is_one_way<K: Ord>(a: K, b: K)
    requires
        ordered_keys::<K>(),
        key_before(a, b),
    ensures
        !key_before(b, a),
        a != b,
{
    reveal(vstd::laws_cmp::obeys_partial_cmp_spec_properties);
    reveal(vstd::laws_cmp::obeys_cmp_ord);
}

/// Writing a value under a key that a map already has leaves its set of keys as it was.
proof fn lemma_overwrite_keeps_keys<K, V>()
    ensures
        forall|m: Map<K, V>, k: K, v: V|
            m.contains_key(k) ==> (#[trigger] m.insert(k, v)).dom() == m.dom(),
{
    assert forall|m: Map<K, V>, k: K, v: V| m.contains_key(k) implies (#[trigger] m.insert(
        k,
        v,
    )).dom() == m.dom() by {
        assert(m.insert(k, v).dom() =~= m.dom());
    }
}

/// A finite set has at least as many elements as any set it contains.
proof fn lemma_fewer_keys<K>(part: Set<K>, whole: Set<K>)
    requires
        whole.finite(),
        part.subset_of(whole),
    ensures
        part.finite(),
        part.len() <= whole.len(),
{
    vstd::set_lib::lemma_len_subset(part, whole);
}

/// A bounded map based on a B-Tree.
///
/// B-Trees represent a fundamental compromise between cache-efficiency and actually
/// minimizing the amount of work performed in a search. See [`BTreeMap`] for more details.
///
/// Unlike a standard `BTreeMap`, there is an enforced upper limit to the number of items in
/// the map. All internal operations ensure this bound is respected.
pub struct BoundedBTreeMap<K, V, S>(BTreeMap<K, V>, PhantomData<S>);

impl<K, V, S> View for BoundedBTreeMap<K, V, S> {
    type V = Map<K, V>;

    /// The entries of the map.
    open spec fn view(&self) -> Map<K, V> {
        self.inner()@
    }
}

impl<K, V, S> BoundedBTreeMap<K, V, S> {
    /// The `BTreeMap` that holds the entries.
    pub closed spec fn inner(&self) -> BTreeMap<K, V> {
        self.0
    }

    /// The bounded map that holds `inner`.
    pub closed spec fn holding(inner: BTreeMap<K, V>) -> Self {
        BoundedBTreeMap(inner, PhantomData)
    }
}

impl<K, V, S: Get<u32>> BoundedBTreeMap<K, V, S> {
    /// The bound as a mathematical integer.
    pub open spec fn spec_bound() -> nat {
        S::spec_get() as nat
    }

    /// The invariant of the type: the map holds no more entries than the bound allows.
    ///
    /// Every constructor establishes it and every operation keeps it.
    pub open spec fn wf(&self) -> bool {
        ordered_keys::<K>() ==> self@.len() <= Self::spec_bound()
    }

    /// Get the bound of the type in `usize`.
    pub fn bound() -> (limit: usize)
        ensures
            limit == Self::spec_bound(),
    {
        S::get() as usize
    }

    /// Whether a collection of `len` entries stays within the bound.
    ///
    /// This is the one test behind every checked way of making a map: from a `BTreeMap`,
    /// from an iterator, after a batch of edits, from bytes and from text.
    pub fn fits(len: usize) -> (within: bool)
        ensures
            within == (len <= Self::spec_bound()),
    {
        len <= Self::bound()
    }
}

impl<K: Ord, V, S: Get<u32>> BoundedBTreeMap<K, V, S> {
    /// Create `Self` from `t` without any checks.
    ///
    /// For callers that know `t` to be within the bound, as the precondition asks: `t` was
    /// made from a bounded map without adding a key, or its size was tested a moment ago.
    pub(crate) fn unchecked_from(t: BTreeMap<K, V>) -> (map: Self)
        requires
            ordered_keys::<K>() ==> t@.len() <= Self::spec_bound(),
        ensures
            map.inner() == t,
            map.wf(),
    {
        BoundedBTreeMap(t, PhantomData)
    }

    /// Exactly the same semantics as `BTreeMap::retain`.
    ///
    /// `f` is shown every entry once and may write to its value; the entries for which it
    /// answers `false` are removed. No key is added, so the map stays within its bound.
    pub fn retain<F: FnMut(&K, &mut V) -> bool>(&mut self, f: F)
        requires
            old(self).wf(),
            forall|k: &K, slot: &mut V|
                is_entry(old(self)@, *k, *slot) ==> #[trigger] f.requires((k, slot)),
        ensures
            final(self).wf(),
            ordered_keys::<K>() ==> final(self)@.dom().subset_of(old(self)@.dom()),
            ordered_keys::<K>() ==> forall|k: K| #[trigger]
                old(self)@.contains_key(k) ==> exists|slot: &mut V, keep: bool|
                    {
                        &&& *slot == old(self)@[k]
                        &&& #[trigger] f.ensures((&k, slot), keep)
                        &&& keep == final(self)@.contains_key(k)
                        &&& keep ==> final(self)@[k] == *final(slot)
                    },
    {
        btree_ops::retain(&mut self.0, f);
        proof {
            if ordered_keys::<K>() {
                lemma_fewer_keys(self@.dom(), old(self)@.dom());
            }
        }
    }

    /// Create a new `BoundedBTreeMap`.
    ///
    /// Does not allocate.
    pub fn new() -> (map: Self)
        ensures
            map@ == Map::<K, V>::empty(),
            map.wf(),
    {
        BoundedBTreeMap(BTreeMap::new(), PhantomData)
    }

    /// Consume self, and return the inner `BTreeMap`.
    ///
    /// This is useful when a mutating API of the inner type is desired, and closure-based
    /// mutation such as provided by [`try_mutate`][Self::try_mutate] is inconvenient.
    pub fn into_inner(self) -> (inner: BTreeMap<K, V>)
        ensures
            inner == self.inner(),
    {
        self.0
    }

    /// Consumes self and mutates self via the given `mutate` function.
    ///
    /// If the outcome of mutation is within bounds, `Some(Self)` is returned. Else, `None` is
    /// returned.
    ///
    /// This is essentially a *consuming* shorthand [`Self::into_inner`] -> `...` ->
    /// [`Self::try_from`].
    pub fn try_mutate<F: FnMut(&mut BTreeMap<K, V>)>(self, mut mutate: F) -> (outcome: Option<Self>)
        requires
            forall|place: &mut BTreeMap<K, V>|
                *place == self.inner() ==> #[trigger] mutate.requires((place,)),
        ensures
            exists|place: &mut BTreeMap<K, V>|
                {
                    &&& *place == self.inner()
                    &&& #[trigger] mutate.ensures((place,), ())
                    &&& outcome is Some <==> final(place).len() <= Self::spec_bound()
                    &&& outcome matches Some(map) ==> map.inner() == *final(place) && map.wf()
                },
    {
        let mut inner = self.0;
        mutate(&mut inner);
        if Self::fits(inner.len()) {
            Some(BoundedBTreeMap(inner, PhantomData))
        } else {
            None
        }
    }

    /// Clears the map, removing all elements.
    pub fn clear(&mut self)
        ensures
            final(self)@ == Map::<K, V>::empty(),
            final(self).wf(),
    {
        self.0.clear()
    }

    /// Return a mutable reference to the value corresponding to the key.
    ///
    /// The key may be any borrowed form of the map's key type, but the ordering on the
    /// borrowed form _must_ match the ordering on the key type.
    ///
    /// Writing through the reference replaces that one value: the keys stay as they are, and
    /// so does the number of entries.
    pub fn get_mut<Q>(&mut self, key: &Q) -> (slot: Option<&mut V>) where
        K: Borrow<Q>,
        Q: Ord + ?Sized,

        requires
            old(self).wf(),
        ensures
            final(self).wf(),
            ordered_keys::<K>() ==> final(self)@.dom() == old(self)@.dom(),
            ordered_keys::<K>() ==> match slot {
                Some(value) => {
                    &&& maps_borrowed_key_to_value(old(self)@, key, *value)
                    &&& exists|k: K|
                        {
                            &&& #[trigger] old(self)@.contains_key(k)
                            &&& old(self)@[k] == *value
                            &&& final(self)@ == old(self)@.insert(k, *final(value))
                        }
                },
                None => !contains_borrowed_key(old(self)@, key) && final(self)@ == old(self)@,
            },
    {
        proof {
            lemma_overwrite_keeps_keys::<K, V>();
        }
        btree_ops::get_mut(&mut self.0, key)
    }

    /// Exactly the same semantics as [`BTreeMap::insert`], but returns an `Err` (and is a
    /// noop) if the new length of the map exceeds `S`.
    ///
    /// In the `Err` case, returns the inserted pair so it can be further used without
    /// cloning.
    pub fn try_insert(&mut self, key: K, value: V) -> (outcome: Result<Option<V>, (K, V)>)
        requires
            old(self).wf(),
        ensures
            final(self).wf(),
            old(self).inner().len() < Self::spec_bound() ==> outcome is Ok,
            outcome is Err ==> *final(self) == *old(self),
            outcome matches Err(rejected) ==> rejected == (key, value),
            ordered_keys::<K>() ==> {
                &&& outcome is Ok <==> admits(old(self)@, Self::spec_bound(), key)
                &&& final(self)@ == inserted(old(self)@, Self::spec_bound(), key, value)
                &&& outcome matches Ok(previous) ==> previous == if old(self)@.contains_key(key) {
                    Some(old(self)@[key])
                } else {
                    None
                }
            },
    {
        if self.0.len() < Self::bound() || self.0.contains_key(&key) {
            Ok(self.0.insert(key, value))
        } else {
            Err((key, value))
        }
    }

    /// Remove a key from the map, returning the value at the key if the key was previously
    /// in the map.
    ///
    /// The key may be any borrowed form of the map's key type, but the ordering on the
    /// borrowed form _must_ match the ordering on the key type.
    pub fn remove<Q>(&mut self, key: &Q) -> (removed: Option<V>) where
        K: Borrow<Q>,
        Q: Ord + ?Sized,

        requires
            old(self).wf(),
        ensures
            final(self).wf(),
            ordered_keys::<K>() ==> {
                &&& final(self)@.len() <= old(self)@.len()
                &&& borrowed_key_removed(old(self)@, final(self)@, key)
                &&& match removed {
                    Some(v) => {
                        &&& maps_borrowed_key_to_value(old(self)@, key, v)
                        &&& exists|k: K|
                            {
                                &&& #[trigger] old(self)@.contains_key(k)
                                &&& old(self)@[k] == v
                                &&& final(self)@ == old(self)@.remove(k)
                            }
                    },
                    None => !contains_borrowed_key(old(self)@, key) && final(self)@ == old(self)@,
                }
            },
    {
        match btree_ops::remove_entry(&mut self.0, key) {
            Some((_, v)) => Some(v),
            None => None,
        }
    }

    /// Remove a key from the map, returning the stored key and value if the key was
    /// previously in the map.
    ///
    /// The key may be any borrowed form of the map's key type, but the ordering on the
    /// borrowed form _must_ match the ordering on the key type.
    pub fn remove_entry<Q>(&mut self, key: &Q) -> (removed: Option<(K, V)>) where
        K: Borrow<Q>,
        Q: Ord + ?Sized,

        requires
            old(self).wf(),
        ensures
            final(self).wf(),
            ordered_keys::<K>() ==> {
                &&& final(self)@.len() <= old(self)@.len()
                &&& borrowed_key_removed(old(self)@, final(self)@, key)
                &&& match removed {
                    Some((k, v)) => {
                        &&& maps_borrowed_key_to_value(old(self)@, key, v)
                        &&& old(self)@.contains_key(k)
                        &&& old(self)@[k] == v
                        &&& final(self)@ == old(self)@.remove(k)
                    },
                    None => !contains_borrowed_key(old(self)@, key) && final(self)@ == old(self)@,
                }
            },
    {
        btree_ops::remove_entry(&mut self.0, key)
    }

    /// Gets a mutable iterator over the entries of the map, sorted by key.
    ///
    /// The iterator hands out the values for writing and the keys for reading only, so the
    /// map has the same keys when the iterator is done with it.
    pub fn iter_mut(&mut self) -> (iter: IterMut<'_, K, V>)
        requires
            old(self).wf(),
        ensures
            final(self).wf(),
            ordered_keys::<K>() ==> {
                &&& final(self)@.dom() == old(self)@.dom()
                &&& iter.obeys_prophetic_iter_laws()
                &&& hands_out(iter.remaining(), old(self)@)
                &&& forall|i: int|
                    0 <= i < iter.remaining().len() ==> final(self)@[*(
                    #[trigger] iter.remaining()[i]).0] == *final(iter.remaining()[i].1)
            },
    {
        btree_ops::iter_mut(&mut self.0)
    }

    /// Consume the map, applying `f` to each of it's values and returning a new map.
    ///
    /// The keys stay as they are, so the new map is within the bound because the old one
    /// was. `f` sees the entries in ascending order of their keys.
    pub fn map<T, F>(self, mut f: F) -> (mapped: BoundedBTreeMap<K, T, S>) where
        F: FnMut((&K, V)) -> T,

        requires
            self.wf(),
            forall|k: K, v: V| is_entry(self@, k, v) ==> f.requires(((&k, v),)),
        ensures
            mapped.wf(),
            ordered_keys::<K>() ==> {
                &&& mapped@.dom() == self@.dom()
                &&& mapped@.len() == self@.len()
                &&& forall|k: K| #[trigger]
                    self@.contains_key(k) ==> f.ensures(((&k, self@[k]),), mapped@[k])
            },
    {
        let ghost before = self@;
        let ghost f0 = f;
        let mut rest = self.0;
        let mut done: BTreeMap<K, T> = BTreeMap::new();
        loop
            invariant
                f == f0,
                forall|k: K, v: V| is_entry(before, k, v) ==> f.requires(((&k, v),)),
                ordered_keys::<K>() ==> {
                    &&& rest@.submap_of(before)
                    &&& forall|k: K| #[trigger]
                        before.contains_key(k) ==> (rest@.contains_key(k) != done@.contains_key(k))
                    &&& forall|k: K| #[trigger]
                        done@.contains_key(k) ==> before.contains_key(k) && f.ensures(
                            ((&k, before[k]),),
                            done@[k],
                        )
                },
            ensures
                f == f0,
                ordered_keys::<K>() ==> {
                    &&& done@.dom() == before.dom()
                    &&& forall|k: K| #[trigger]
                        before.contains_key(k) ==> f.ensures(((&k, before[k]),), done@[k])
                },
            decreases rest.len(),
        {
            match btree_ops::pop_first(&mut rest) {
                Some((k, v)) => {
                    assert(is_entry(before, k, v));
                    let t = f((&k, v));
                    done.insert(k, t);
                },
                None => {
                    proof {
                        if ordered_keys::<K>() {
                            assert(done@.dom() =~= before.dom());
                        }
                    }
                    break ;
                },
            }
        }
        BoundedBTreeMap::<K, T, S>::unchecked_from(done)
    }

    /// Consume the map, applying `f` to each of it's values as long as it returns
    /// successfully. If an `Err(E)` is ever encountered, the mapping is short circuited and
    /// the error is returned; otherwise, a new map is returned in the contained `Ok` value.
    ///
    /// `f` sees the entries in ascending order of their keys, so the error that comes back is
    /// that of the least key at which `f` failed.
    pub fn try_map<T, E, F>(self, mut f: F) -> (outcome: Result<BoundedBTreeMap<K, T, S>, E>) where
        F: FnMut((&K, V)) -> Result<T, E>,

        requires
            self.wf(),
            forall|k: K, v: V| is_entry(self@, k, v) ==> f.requires(((&k, v),)),
        ensures
            outcome matches Ok(mapped) ==> mapped.wf(),
            ordered_keys::<K>() ==> match outcome {
                Ok(mapped) => {
                    &&& mapped@.dom() == self@.dom()
                    &&& mapped@.len() == self@.len()
                    &&& forall|k: K| #[trigger]
                        self@.contains_key(k) ==> f.ensures(((&k, self@[k]),), Ok(mapped@[k]))
                },
                Err(error) => exists|k: K|
                    {
                        &&& #[trigger] self@.contains_key(k)
                        &&& f.ensures(((&k, self@[k]),), Err(error))
                        &&& forall|j: K|
                            self@.contains_key(j) && #[trigger] key_before(j, k) ==> exists|t: T|
                                f.ensures(((&j, self@[j]),), Ok(t))
                    },
            },
    {
        let ghost before = self@;
        let ghost f0 = f;
        let mut rest = self.0;
        let mut done: BTreeMap<K, T> = BTreeMap::new();
        let mut failure: Option<E> = None;
        loop
            invariant_except_break
                f == f0,
                forall|k: K, v: V| is_entry(before, k, v) ==> f.requires(((&k, v),)),
                failure is None,
                ordered_keys::<K>() ==> {
                    &&& rest@.submap_of(before)
                    &&& forall|k: K| #[trigger]
                        before.contains_key(k) ==> (rest@.contains_key(k) != done@.contains_key(k))
                    &&& forall|k: K| #[trigger]
                        done@.contains_key(k) ==> before.contains_key(k) && f.ensures(
                            ((&k, before[k]),),
                            Ok(done@[k]),
                        )
                },
            ensures
                f == f0,
                ordered_keys::<K>() ==> match failure {
                    None => {
                        &&& done@.dom() == before.dom()
                        &&& forall|k: K| #[trigger]
                            before.contains_key(k) ==> f.ensures(((&k, before[k]),), Ok(done@[k]))
                    },
                    Some(error) => exists|k: K|
                        {
                            &&& #[trigger] before.contains_key(k)
                            &&& f.ensures(((&k, before[k]),), Err(error))
                            &&& forall|j: K|
                                before.contains_key(j) && #[trigger] key_before(j, k)
                                    ==> exists|t: T| f.ensures(((&j, before[j]),), Ok(t))
                        },
                },
            decreases rest.len(),
        {
            let ghost rest_before = rest@;
            match btree_ops::pop_first(&mut rest) {
                Some((k, v)) => {
                    assert(is_entry(before, k, v));
                    match f((&k, v)) {
                        Ok(t) => {
                            done.insert(k, t);
                        },
                        Err(error) => {
                            proof {
                                if ordered_keys::<K>() {
                                    assert(before.contains_key(k));
                                    assert forall|j: K|
                                        before.contains_key(j) && #[trigger] key_before(
                                            j,
                                            k,
                                        ) implies exists|t: T|
                                        f.ensures(((&j, before[j]),), Ok(t)) by {
                                        lemma_before_is_one_way(j, k);
                                        assert(!rest_before.contains_key(j));
                                        assert(done@.contains_key(j));
                                        assert(f.ensures(((&j, before[j]),), Ok(done@[j])));
                                    }
                                }
                            }
                            failure = Some(error);
                            break ;
                        },
                    }
                },
                None => {
                    proof {
                        if ordered_keys::<K>() {
                            assert(done@.dom() =~= before.dom());
                        }
                    }
                    break ;
                },
            }
        }
        match failure {
            Some(error) => Err(error),
            None => Ok(BoundedBTreeMap::<K, T, S>::unchecked_from(done)),
        }
    }

    /// Returns true if this map is full.
    pub fn is_full(&self) -> (full: bool)
        ensures
            full == (self.inner().len() >= Self::spec_bound()),
            ordered_keys::<K>() ==> full == (self@.len() >= Self::spec_bound()),
    {
        self.0.len() >= Self::bound()
    }
}

impl<K: Ord, V, S: Get<u32>> Default for BoundedBTreeMap<K, V, S> {
    fn default() -> (map: Self)
        ensures
            map@ == Map::<K, V>::empty(),
            map.wf(),
    {
        Self::new()
    }
}

impl<K: Clone, V: Clone, S> Clone for BoundedBTreeMap<K, V, S> {
    fn clone(&self) -> (copy: Self)
        ensures
            copy@ == self@,
    {
        BoundedBTreeMap(self.0.clone(), PhantomData)
    }
}

/// Shows the entries and the bound.
impl<K: core::fmt::Debug, V: core::fmt::Debug, S: Get<u32>> core::fmt::Debug for BoundedBTreeMap<K, V, S> {
    fn fmt(&self, f: &mut core::fmt::Formatter<'_>) -> core::fmt::Result {
        btree_ops::debug_map_with_bound(&self.0, Self::bound(), f)
    }
}

// Written by hand since deriving it would require `S` to implement it too. Only the entries
// are hashed, never the bound.
impl<K: core::hash::Hash, V: core::hash::Hash, S> core::hash::Hash for BoundedBTreeMap<K, V, S> {
    fn hash<H: core::hash::Hasher>(&self, state: &mut H) {
        btree_ops::hash_map(&self.0, state)
    }
}

/// Two bounded maps are equal when their bounds are the same number and they hold the same
/// entries, whether or not the bounds come from the same type.
impl<K: PartialEq, V: PartialEq, S1: Get<u32>, S2: Get<u32>> PartialEq<BoundedBTreeMap<K, V, S1>> for BoundedBTreeMap<K, V, S2> {
    fn eq(&self, other: &BoundedBTreeMap<K, V, S1>) -> (same: bool) {
        S1::get() == S2::get() && btree_ops::maps_equal(&self.0, &other.0)
    }
}

impl<K: PartialEq, V: PartialEq, S1: Get<u32>, S2: Get<u32>> vstd::std_specs::cmp::PartialEqSpecImpl<BoundedBTreeMap<K, V, S1>> for BoundedBTreeMap<K, V, S2> {
    open spec fn obeys_eq_spec() -> bool {
        eq_by_contents::<K, V>()
    }

    open spec fn eq_spec(&self, other: &BoundedBTreeMap<K, V, S1>) -> bool {
        S1::spec_get() == S2::spec_get() && self@ == other@
    }
}

impl<K: Eq, V: Eq, S: Get<u32>> Eq for BoundedBTreeMap<K, V, S> {}

/// A bounded map equals a `BTreeMap` when they hold the same entries: the bound plays no
/// part.
impl<K: PartialEq, V: PartialEq, S> PartialEq<BTreeMap<K, V>> for BoundedBTreeMap<K, V, S> {
    fn eq(&self, other: &BTreeMap<K, V>) -> (same: bool) {
        btree_ops::maps_equal(&self.0, other)
    }
}

impl<K: PartialEq, V: PartialEq, S> vstd::std_specs::cmp::PartialEqSpecImpl<BTreeMap<K, V>> for BoundedBTreeMap<K, V, S> {
    open spec fn obeys_eq_spec() -> bool {
        eq_by_contents::<K, V>()
    }

    open spec fn eq_spec(&self, other: &BTreeMap<K, V>) -> bool {
        self@ == other@
    }
}

/// Bounded maps are ordered as their inner maps are. Nothing is stated of the order here.
impl<K: PartialOrd, V: PartialOrd, S: Get<u32>> PartialOrd for BoundedBTreeMap<K, V, S> {
    fn partial_cmp(&self, other: &Self) -> (order: Option<core::cmp::Ordering>) {
        btree_ops::maps_partial_cmp(&self.0, &other.0)
    }
}

impl<K: PartialOrd, V: PartialOrd, S: Get<u32>> vstd::std_specs::cmp::PartialOrdSpecImpl for BoundedBTreeMap<K, V, S> {
    open spec fn obeys_partial_cmp_spec() -> bool {
        false
    }

    open spec fn partial_cmp_spec(&self, other: &Self) -> Option<core::cmp::Ordering> {
        None
    }
}

impl<'a, K, V, S> IntoIterator for &'a BoundedBTreeMap<K, V, S> {
    type Item = (&'a K, &'a V);

    type IntoIter = Iter<'a, K, V>;

    /// The iterator of the inner map: every entry once, in ascending order of the keys.
    fn into_iter(self) -> (iter: Self::IntoIter)
        ensures
            ordered_keys::<K>() ==> {
                &&& iter == spec_btree_map_iter(&self.inner())
                &&& iter.remaining().no_duplicates()
                &&& iter.remaining().len() == self@.len()
                &&& iter.remaining().unref().to_set() == self@.kv_pairs()
                &&& increasing_seq(iter.remaining().map_values(|kv: (&K, &V)| *kv.0))
                &&& IteratorSpec::decrease(&iter) is Some
                &&& IteratorSpec::initial_value_relation(&iter, &iter)
            },
    {
        self.0.iter()
    }
}

impl<'a, K, V, S> IntoIterator for &'a mut BoundedBTreeMap<K, V, S> {
    type Item = (&'a K, &'a mut V);

    type IntoIter = IterMut<'a, K, V>;

    /// The iterator of the inner map that hands out the values for writing: every entry
    /// once, in ascending order of the keys. The map keeps its keys, and so its size.
    fn into_iter(self) -> (iter: Self::IntoIter)
        ensures
            ordered_keys::<K>() ==> {
                &&& final(self)@.dom() == old(self)@.dom()
                &&& final(self)@.len() == old(self)@.len()
                &&& iter.obeys_prophetic_iter_laws()
                &&& hands_out(iter.remaining(), old(self)@)
                &&& forall|i: int|
                    0 <= i < iter.remaining().len() ==> final(self)@[*(
                    #[trigger] iter.remaining()[i]).0] == *final(iter.remaining()[i].1)
            },
    {
        btree_ops::iter_mut(&mut self.0)
    }
}

impl<K: Ord, V, S> core::ops::Deref for BoundedBTreeMap<K, V, S> {
    type Target = BTreeMap<K, V>;

    fn deref(&self) -> (inner: &BTreeMap<K, V>)
        ensures
            *inner == self.inner(),
    {
        &self.0
    }
}

impl<K: Ord, V, S> AsRef<BTreeMap<K, V>> for BoundedBTreeMap<K, V, S> {
    fn as_ref(&self) -> (inner: &BTreeMap<K, V>)
        ensures
            *inner == self.inner(),
    {
        &self.0
    }
}

impl<K: Ord, V, S> From<BoundedBTreeMap<K, V, S>> for BTreeMap<K, V> {
    fn from(map: BoundedBTreeMap<K, V, S>) -> (inner: Self) {
        map.0
    }
}

impl<K: Ord, V, S> vstd::std_specs::convert::FromSpecImpl<BoundedBTreeMap<K, V, S>> for BTreeMap<K, V> {
    open spec fn obeys_from_spec() -> bool {
        true
    }

    open spec fn from_spec(map: BoundedBTreeMap<K, V, S>) -> Self {
        map.inner()
    }
}

impl<K: Ord, V, S: Get<u32>> TryFrom<BTreeMap<K, V>> for BoundedBTreeMap<K, V, S> {
    type Error = ();

    fn try_from(value: BTreeMap<K, V>) -> (outcome: Result<Self, ()>)
        ensures
            outcome is Ok <==> value.len() <= Self::spec_bound(),
            ordered_keys::<K>() ==> (outcome is Ok <==> value@.len() <= Self::spec_bound()),
            outcome matches Ok(map) ==> map == Self::holding(value) && map.inner() == value
                && map.wf(),
    {
        if Self::fits(value.len()) {
            Ok(BoundedBTreeMap(value, PhantomData))
        } else {
            Err(())
        }
    }
}

impl<K: Ord, V, S: Get<u32>> vstd::std_specs::convert::TryFromSpecImpl<BTreeMap<K, V>> for BoundedBTreeMap<K, V, S> {
    open spec fn obeys_try_from_spec() -> bool {
        true
    }

    open spec fn try_from_spec(value: BTreeMap<K, V>) -> Result<Self, ()> {
        if value.len() <= Self::spec_bound() {
            Ok(Self::holding(value))
        } else {
            Err(())
        }
    }
}

impl<I, K, V, Bound> TryCollect<BoundedBTreeMap<K, V, Bound>> for I where
    K: Ord,
    I: Iterator<Item = (K, V)>,
    Bound: Get<u32>,
 {
    type Error = &'static str;

    /// Collects the items into a bounded map, unless the iterator announces more items
    /// than the bound allows: then it fails at once and takes no item. It fails as well
    /// where the items make a map beyond the bound, whatever the iterator announced.
    ///
    /// What an iterator announces is its own affair; [`collect_announced`] says what comes
    /// of each announced length.
    fn try_collect(self) -> (outcome: Result<BoundedBTreeMap<K, V, Bound>, Self::Error>)
        ensures
            ordered_keys::<K>() && self.obeys_prophetic_iter_laws() && keys_of(
                self.remaining(),
            ).len() > BoundedBTreeMap::<K, V, Bound>::spec_bound() ==> outcome is Err,
            outcome matches Ok(map) ==> BoundedBTreeMap::<K, V, Bound>::wf(&map),
            outcome matches Ok(map) ==> (ordered_keys::<K>() && self.obeys_prophetic_iter_laws()
                ==> collected_from(self.remaining(), map@)),
            outcome matches Err(message) ==> message@ == "iterator length too big"@,
    {
        let announced = btree_ops::announced_len(&self);
        collect_announced::<K, V, Bound, I>(announced, self)
    }
}

/// Collects `items` into a bounded map, given the number of items that their iterator
/// announced.
///
/// An announced number beyond the bound is refused at once, and no item is taken. Else the
/// items are collected, and the map that they make is held against the bound: it is
/// returned where it has no more keys than the bound allows.
pub fn collect_announced<K: Ord, V, S: Get<u32>, I: Iterator<Item = (K, V)>>(
    announced: usize,
    items: I,
) -> (outcome: Result<BoundedBTreeMap<K, V, S>, &'static str>)
    ensures
        announced > BoundedBTreeMap::<K, V, S>::spec_bound() ==> outcome is Err,
        ordered_keys::<K>() && items.obeys_prophetic_iter_laws() && announced
            <= BoundedBTreeMap::<K, V, S>::spec_bound() ==> (outcome is Ok <==> keys_of(
            items.remaining(),
        ).len() <= BoundedBTreeMap::<K, V, S>::spec_bound()),
        outcome matches Ok(map) ==> map.wf(),
        outcome matches Ok(map) ==> (ordered_keys::<K>() && items.obeys_prophetic_iter_laws()
            ==> collected_from(items.remaining(), map@)),
        outcome matches Err(message) ==> message@ == "iterator length too big"@,
{
    if !BoundedBTreeMap::<K, V, S>::fits(announced) {
        Err("iterator length too big")
    } else {
        let collected = btree_ops::collect_map(items);
        proof {
            if ordered_keys::<K>() && items.obeys_prophetic_iter_laws() {
                lemma_collected_keys(items.remaining(), collected@);
            }
        }
        match BoundedBTreeMap::<K, V, S>::try_from(collected) {
            Ok(map) => Ok(map),
            Err(_) => Err("iterator length too big"),
        }
    }
}

} // verus!
