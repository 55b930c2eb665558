//! Reading and writing a bounded map in the JAM format of `jam_codec`.
//!
//! On the wire a bounded map is what its inner `BTreeMap` is: the number of entries in the
//! compact form, then the entries in ascending order of their keys. The bound is not written.
//! When reading, the number of entries is held against the bound before any entry is read.

use crate::bound::Get;
use crate::bounded_btree_map::{ordered_keys, BoundedBTreeMap};
use crate::codec_utils::{bounded_len, max_len};
use jam_codec::{Compact, Decode, Encode, Error, MaxEncodedLen};
use std::collections::BTreeMap;
use vstd::prelude::*;

verus! {

/// The error type of `jam_codec`.
#[verifier::external_type_specification]
#[verifier::external_body]
pub struct ExError(Error);

/// What `Compact::<u32>::decode` makes of `bytes`: the number at their head and how many
/// bytes hold it, or `None` where the bytes do not begin with a `u32` in the compact form.
pub uninterp spec fn jam_compact_u32(bytes: Seq<u8>) -> Option<(u32, nat)>;

/// How many bytes the compact form of `n` takes.
pub open spec fn compact_len(n: u32) -> nat {
    if n < 0x80 {
        1
    } else if n < 0x4000 {
        2
    } else if n < 0x20_0000 {
        3
    } else if n < 0x1000_0000 {
        4
    } else {
        5
    }
}

/// The greatest length that the encoding of a map of up to `bound` entries can have, where
/// no key takes more than `key_max` bytes and no value more than `value_max`: every entry at
/// its longest, after the compact form of `bound`.
pub open spec fn max_encoded_len_of(bound: u32, key_max: usize, value_max: usize) -> nat {
    bounded_len(bound, key_max, value_max, compact_len(bound) as usize)
}

/// How many bytes at the head of `bytes` hold the number of entries, where they hold one.
pub open spec fn prefix_len(bytes: Seq<u8>) -> nat {
    match jam_compact_u32(bytes) {
        Some((_, used)) => used,
        None => 0,
    }
}

/// Whether `bytes` announce more entries than a map bounded by `S` may hold.
pub open spec fn exceeds_limit<S: Get<u32>>(bytes: Seq<u8>) -> bool {
    jam_compact_u32(bytes) matches Some((declared, _)) && declared > S::spec_get()
}

/// Why a bounded map could not be read.
#[derive(Debug, PartialEq, Eq)]
pub enum DecodeError {
    /// The input announces more entries than the bound allows.
    ExceedsLimit,
    /// The codec could not make sense of the input.
    Codec(Error),
}

/// The error that `Error::from` makes of the text `message`.
pub uninterp spec fn jam_error_from(message: Seq<char>) -> Error;

/// The text that goes with a length beyond the bound.
pub open spec fn exceeds_limit_message() -> Seq<char> {
    "BoundedBTreeMap exceeds its limit"@
}

impl DecodeError {
    /// The error as the codec's own error type: the codec's error as it came, and for a
    /// length beyond the bound the error that the codec makes of the message for it.
    pub fn into_codec_error(self) -> (error: Error)
        ensures
            error == match self {
                DecodeError::ExceedsLimit => jam_error_from(exceeds_limit_message()),
                DecodeError::Codec(inner) => inner,
            },
    {
        match self {
            DecodeError::ExceedsLimit => error_from_message("BoundedBTreeMap exceeds its limit"),
            DecodeError::Codec(error) => error,
        }
    }
}

/// `Error::from`: a codec error that carries `message` and has no cause. Which error it is
/// depends on the text alone.
#[verifier::external_body]
fn error_from_message(message: &'static str) -> (error: Error)
    ensures
        error == jam_error_from(message@),
{
    Error::from(message)
}

/// `Compact::<u32>::decode` on a slice: reads the number at the head of the input and moves
/// the input past it. Whether it succeeds, with which number and after how many bytes, is a
/// matter of the bytes at the head alone.
#[verifier::external_body]
fn read_compact_u32(input: &mut &[u8]) -> (read: Result<u32, Error>)
    ensures
        match read {
            Ok(n) => {
                &&& jam_compact_u32(old(input)@) matches Some((declared, used))
                &&& declared == n
                &&& used <= old(input)@.len()
                &&& final(input)@ == old(input)@.skip(used as int)
            },
            Err(_) => jam_compact_u32(old(input)@) is None,
        },
{
    match Compact::<u32>::decode(input) {
        Ok(Compact(n)) => Ok(n),
        Err(error) => Err(error),
    }
}

/// `BTreeMap::<K, V>::decode` on a slice: reads the number of entries in the compact form
/// and then that many entries, which it collects into a map. The map can have fewer
/// entries than were read, where keys repeat, and never more.
#[verifier::external_body]
fn decode_btree_map<K: Decode + Ord, V: Decode>(input: &mut &[u8]) -> (decoded: Result<BTreeMap<K, V>, Error>)
    ensures
        decoded matches Ok(map) ==> {
            &&& jam_compact_u32(old(input)@) matches Some((declared, _))
            &&& map.len() <= declared
        },
{
    BTreeMap::<K, V>::decode(input)
}

/// `Encode::encode` of a `BTreeMap`: the number of entries in the compact form, then every
/// entry in ascending order of the keys. Read back with `Compact::<u32>::decode`, the bytes
/// begin with that number. It panics on a map of more than `u32::MAX` entries.
#[verifier::external_body]
fn encode_btree_map<K: Encode, V: Encode>(map: &BTreeMap<K, V>) -> (bytes: Vec<u8>)
    requires
        map.len() <= u32::MAX,
    ensures
        jam_compact_u32(bytes@) == Some((map.len() as u32, compact_len(map.len() as u32))),
{
    map.encode()
}

/// `Encode::encoded_size` of a `Compact<u32>`: the number of bytes that the compact form
/// of `n` takes.
#[verifier::external_body]
fn compact_encoded_size(n: u32) -> (size: usize)
    ensures
        size == compact_len(n),
{
    Compact(n).encoded_size()
}

/// `MaxEncodedLen::max_encoded_len` of `T`: an upper bound that `T` gives for the length
/// of its encodings.
#[verifier::external_body]
fn max_encoded_len_of_type<T: MaxEncodedLen>() -> (len: usize) {
    T::max_encoded_len()
}

/// Holds the number of entries that an input announces against the bound.
pub fn check_declared_len<S: Get<u32>>(declared: u32) -> (verdict: Result<(), DecodeError>)
    ensures
        verdict == if declared > S::spec_get() {
            Err::<(), DecodeError>(DecodeError::ExceedsLimit)
        } else {
            Ok::<(), DecodeError>(())
        },
{
    if declared > S::get() {
        Err(DecodeError::ExceedsLimit)
    } else {
        Ok(())
    }
}

/// Reads a bounded map from the head of `input`.
///
/// Fails early if the number of entries that the input announces is too big: then nothing
/// but that number has been taken from the input. Otherwise the input is handed to the
/// decoder of `BTreeMap` as it came, the number at its head included.
pub fn decode<K: Decode + Ord, V: Decode, S: Get<u32>>(input: &mut &[u8]) -> (outcome: Result<BoundedBTreeMap<K, V, S>, DecodeError>)
    ensures
        outcome == Err::<BoundedBTreeMap<K, V, S>, DecodeError>(DecodeError::ExceedsLimit)
            <==> exceeds_limit::<S>(old(input)@),
        exceeds_limit::<S>(old(input)@) ==> {
            &&& prefix_len(old(input)@) <= old(input)@.len()
            &&& final(input)@ == old(input)@.skip(prefix_len(old(input)@) as int)
        },
        jam_compact_u32(old(input)@) is None ==> outcome matches Err(DecodeError::Codec(_)),
        outcome matches Ok(map) ==> {
            &&& map.wf()
            &&& jam_compact_u32(old(input)@) matches Some((declared, _))
            &&& map.inner().len() <= declared
        },
{
    let start: &[u8] = *input;
    let declared = match read_compact_u32(input) {
        Ok(declared) => declared,
        Err(error) => {
            return Err(DecodeError::Codec(error));
        },
    };
    match check_declared_len::<S>(declared) {
        Ok(()) => {},
        Err(error) => {
            return Err(error);
        },
    }
    *input = start;
    match decode_btree_map::<K, V>(input) {
        Ok(inner) => Ok(BoundedBTreeMap::unchecked_from(inner)),
        Err(error) => Err(DecodeError::Codec(error)),
    }
}

/// The encoding of a bounded map, which is that of its inner `BTreeMap`: the encoder of
/// `BTreeMap` is handed the inner map and what it answers is handed on.
///
/// The bytes begin with the number of entries, which is why `decode` never refuses them for
/// that number where the map is within its bound.
pub fn encode<K: Encode + Ord, V: Encode, S: Get<u32>>(map: &BoundedBTreeMap<K, V, S>) -> (bytes: Vec<u8>)
    requires
        map.inner().len() <= u32::MAX,
    ensures
        jam_compact_u32(bytes@) == Some((map.inner().len() as u32, compact_len(map.inner().len() as u32))),
        map.wf() && ordered_keys::<K>() ==> !exceeds_limit::<S>(bytes@),
{
    encode_btree_map(map.as_ref())
}

/// The greatest length that the encoding of a map bounded by `S` can have, given the
/// greatest lengths of the encodings of a key and of a value.
pub fn max_encoded_len_with<S: Get<u32>>(key_max: usize, value_max: usize) -> (len: usize)
    ensures
        len == max_encoded_len_of(S::spec_get(), key_max, value_max),
{
    let bound: u32 = S::get();
    max_len(bound, key_max, value_max, compact_encoded_size(bound))
}

/// The greatest length that the encoding of a `BoundedBTreeMap<K, V, S>` can have.
///
/// It is [`max_encoded_len_with`] of what `K` and `V` give as their own greatest lengths.
pub fn max_encoded_len<K: MaxEncodedLen, V: MaxEncodedLen, S: Get<u32>>() -> (len: usize)
    ensures
        exists|key_max: usize, value_max: usize|
            len == #[trigger] max_encoded_len_of(S::spec_get(), key_max, value_max),
{
    max_encoded_len_with::<S>(max_encoded_len_of_type::<K>(), max_encoded_len_of_type::<V>())
}

} // verus!
