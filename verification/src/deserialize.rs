//! The decisions taken while a bounded map is read from a self-describing format.
//!
//! A deserializer hands over the entries of a map one by one: first the number of entries,
//! if the format knows it, then each key followed by its value. [`MapCollector`] says after
//! each of these events whether reading may go on, so that an input with too many entries
//! is refused before the entry that would exceed the bound has been read in full. Driving
//! the deserializer is left to the caller.

use crate::bound::Get;
use crate::bounded_btree_map::{ordered_keys, BoundedBTreeMap};
use std::collections::BTreeMap;
use std::marker::PhantomData;
use vstd::prelude::*;

verus! {

/// Why a bounded map could not be read.
#[derive(Clone, Copy, Debug, PartialEq, Eq, Structural)]
pub enum DeserializeError {
    /// The input holds more entries than the bound allows.
    ExceedsBounds,
    /// The entries were read, and the map made of them is not within the bound.
    ConversionFailed,
}

impl DeserializeError {
    /// The message to report the error with.
    pub fn message(&self) -> (text: &'static str)
        ensures
            text@ == match self {
                DeserializeError::ExceedsBounds => "map exceeds the size of the bounds"@,
                DeserializeError::ConversionFailed =>
                    "failed to create a BoundedBTreeMap from the provided map"@,
            },
    {
        match self {
            DeserializeError::ExceedsBounds => "map exceeds the size of the bounds",
            DeserializeError::ConversionFailed =>
                "failed to create a BoundedBTreeMap from the provided map",
        }
    }
}

/// The entries read so far of a map that is to become a `BoundedBTreeMap<K, V, S>`.
pub struct MapCollector<K, V, S> {
    values: BTreeMap<K, V>,
    bound: PhantomData<S>,
}

impl<K, V, S> View for MapCollector<K, V, S> {
    type V = Map<K, V>;

    /// The entries read so far.
    open spec fn view(&self) -> Map<K, V> {
        self.entries()@
    }
}

impl<K, V, S> MapCollector<K, V, S> {
    /// The `BTreeMap` that holds the entries read so far.
    pub closed spec fn entries(&self) -> BTreeMap<K, V> {
        self.values
    }
}

impl<K: Ord, V, S: Get<u32>> MapCollector<K, V, S> {
    /// The bound of the map that is being read.
    pub open spec fn spec_bound() -> nat {
        S::spec_get() as nat
    }

    /// Whether the entries read so far make a map within the bound.
    pub open spec fn within_bound(&self) -> bool {
        ordered_keys::<K>() ==> self@.len() <= Self::spec_bound()
    }

    /// Starts reading a map of which the input says that it has `size_hint` entries, or
    /// says nothing. A map announced with more entries than the bound allows is refused at
    /// once; one that comes without a number is taken for empty and judged as it grows.
    pub fn begin(size_hint: Option<usize>) -> (outcome: Result<Self, DeserializeError>)
        ensures
            match outcome {
                Ok(collector) => {
                    &&& size_hint.unwrap_or(0) <= Self::spec_bound()
                    &&& collector@ == Map::<K, V>::empty()
                    &&& collector.within_bound()
                },
                Err(error) => {
                    &&& size_hint.unwrap_or(0) > Self::spec_bound()
                    &&& error == DeserializeError::ExceedsBounds
                },
            },
    {
        let size: usize = size_hint.unwrap_or(0);
        if !BoundedBTreeMap::<K, V, S>::fits(size) {
            Err(DeserializeError::ExceedsBounds)
        } else {
            Ok(MapCollector { values: BTreeMap::new(), bound: PhantomData })
        }
    }

    /// Says, when the input has given one more key, whether its value may be read: not
    /// where the entries read so far fill the bound already.
    pub fn admit_key(&self) -> (verdict: Result<(), DeserializeError>)
        ensures
            verdict matches Err(error) ==> error == DeserializeError::ExceedsBounds,
            verdict is Err <==> self.entries().len() >= Self::spec_bound(),
            ordered_keys::<K>() ==> (verdict is Err <==> self@.len() >= Self::spec_bound()),
    {
        if self.values.len() >= BoundedBTreeMap::<K, V, S>::bound() {
            Err(DeserializeError::ExceedsBounds)
        } else {
            Ok(())
        }
    }

    /// Takes in an entry that has been read. A key that was read before gets the new value.
    pub fn insert(&mut self, key: K, value: V)
        ensures
            ordered_keys::<K>() ==> final(self)@ == old(self)@.insert(key, value),
            ordered_keys::<K>() && old(self)@.len() < Self::spec_bound()
                ==> final(self).within_bound(),
    {
        self.values.insert(key, value);
    }

    /// Ends the reading: the entries become a bounded map, unless they are more than the
    /// bound allows, which cannot be where [`MapCollector::admit_key`] was asked before
    /// each entry and heeded.
    pub fn finish(self) -> (outcome: Result<BoundedBTreeMap<K, V, S>, DeserializeError>)
        ensures
            outcome is Ok <==> self.entries().len() <= Self::spec_bound(),
            ordered_keys::<K>() ==> (outcome is Ok <==> self@.len() <= Self::spec_bound()),
            match outcome {
                Ok(map) => map.inner() == self.entries() && map.wf(),
                Err(error) => error == DeserializeError::ConversionFailed,
            },
    {
        match BoundedBTreeMap::<K, V, S>::try_from(self.values) {
            Ok(map) => Ok(map),
            Err(_) => Err(DeserializeError::ConversionFailed),
        }
    }
}

} // verus!
