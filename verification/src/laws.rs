//! What holds of a bounded map whatever is done to it, stated over the entries of the map
//! and proved from what the operations ensure.

use crate::bound::Get;
use crate::bounded_btree_map::{admits, inserted, ordered_keys, BoundedBTreeMap};
use crate::jam_codec_impl;
use crate::scale_codec_impl;
use vstd::prelude::*;

verus! {

/// One edit of a map: what `try_insert` or `remove` is asked to do.
pub enum Edit<K, V> {
    /// Offer an entry to the map.
    Insert(K, V),
    /// Take the entry under a key out of the map.
    Remove(K),
}

/// The entries after one edit of a map that may hold `bound` entries, as `try_insert` and
/// `remove` ensure them.
pub open spec fn edited<K, V>(map: Map<K, V>, bound: nat, edit: Edit<K, V>) -> Map<K, V> {
    match edit {
        Edit::Insert(key, value) => inserted(map, bound, key, value),
        Edit::Remove(key) => map.remove(key),
    }
}

/// The entries after the first `n` of a run of edits.
pub open spec fn run<K, V>(map: Map<K, V>, bound: nat, edits: Seq<Edit<K, V>>, n: int) -> Map<
    K,
    V,
>
    decreases n,
{
    if n <= 0 || n > edits.len() {
        map
    } else {
        edited(run(map, bound, edits, n - 1), bound, edits[n - 1])
    }
}

/// An edit leaves a map that is within its bound within its bound.
pub proof fn lemma_edit_keeps_bound<K, V>(map: Map<K, V>, bound: nat, edit: Edit<K, V>)
    requires
        map.dom().finite(),
        map.len() <= bound,
    ensures
        edited(map, bound, edit).dom().finite(),
        edited(map, bound, edit).len() <= bound,
{
}

/// However many entries are offered to a map and taken out of it, and in whatever order,
/// the map is within its bound after every single one of them.
pub proof fn lemma_edits_keep_bound<K, V>(map: Map<K, V>, bound: nat, edits: Seq<Edit<K, V>>)
    requires
        map.dom().finite(),
        map.len() <= bound,
    ensures
        forall|n: int|
            0 <= n <= edits.len() ==> {
                &&& (#[trigger] run(map, bound, edits, n)).dom().finite()
                &&& run(map, bound, edits, n).len() <= bound
            },
{
    assert forall|n: int| 0 <= n <= edits.len() implies {
        &&& (#[trigger] run(map, bound, edits, n)).dom().finite()
        &&& run(map, bound, edits, n).len() <= bound
    } by {
        lemma_run_keeps_bound(map, bound, edits, n);
    }
}

/// The first `n` edits of a run leave a map that is within its bound within its bound.
proof fn lemma_run_keeps_bound<K, V>(map: Map<K, V>, bound: nat, edits: Seq<Edit<K, V>>, n: int)
    requires
        map.dom().finite(),
        map.len() <= bound,
        0 <= n <= edits.len(),
    ensures
        run(map, bound, edits, n).dom().finite(),
        run(map, bound, edits, n).len() <= bound,
    decreases n,
{
    if n > 0 {
        lemma_run_keeps_bound(map, bound, edits, n - 1);
        lemma_edit_keeps_bound(run(map, bound, edits, n - 1), bound, edits[n - 1]);
    }
}

/// A map that is full refuses an entry under a key that it does not have, and stays as
/// it is.
pub proof fn lemma_full_map_refuses_new_key<K, V>(map: Map<K, V>, bound: nat, key: K, value: V)
    requires
        map.len() >= bound,
        !map.contains_key(key),
    ensures
        !admits(map, bound, key),
        inserted(map, bound, key, value) == map,
{
}

/// A map takes an entry under a key that it has, full or not, and has as many entries
/// afterwards as before.
pub proof fn lemma_known_key_is_overwritten<K, V>(map: Map<K, V>, bound: nat, key: K, value: V)
    requires
        map.dom().finite(),
        map.contains_key(key),
    ensures
        admits(map, bound, key),
        inserted(map, bound, key, value) == map.insert(key, value),
        inserted(map, bound, key, value).len() == map.len(),
        inserted(map, bound, key, value)[key] == value,
{
    assert(map.insert(key, value).dom() =~= map.dom());
}

/// Two maps with the same keys have the same number of entries, whatever their values:
/// this is why `map` and `try_map` need not test the bound again.
pub proof fn lemma_same_keys_same_size<K, V, T>(before: Map<K, V>, after: Map<K, T>)
    requires
        after.dom() == before.dom(),
    ensures
        after.len() == before.len(),
{
}

/// The SCALE encoding of a map that is within its bound is not refused for the number of
/// entries that it announces: whatever `decode` answers to it is the answer of the decoder of
/// `BTreeMap`.
pub proof fn lemma_scale_encoding_is_within_limit<K, V, S: Get<u32>>(
    map: BoundedBTreeMap<K, V, S>,
    bytes: Seq<u8>,
)
    requires
        ordered_keys::<K>(),
        map.wf(),
        scale_codec_impl::scale_compact_u32(bytes) matches Some((declared, _)) && declared
            == map@.len(),
    ensures
        !scale_codec_impl::exceeds_limit::<S>(bytes),
{
}

/// The JAM encoding of a map that is within its bound is not refused for the number of
/// entries that it announces: whatever `decode` answers to it is the answer of the decoder of
/// `BTreeMap`.
pub proof fn lemma_jam_encoding_is_within_limit<K, V, S: Get<u32>>(
    map: BoundedBTreeMap<K, V, S>,
    bytes: Seq<u8>,
)
    requires
        ordered_keys::<K>(),
        map.wf(),
        jam_codec_impl::jam_compact_u32(bytes) matches Some((declared, _)) && declared
            == map@.len(),
    ensures
        !jam_codec_impl::exceeds_limit::<S>(bytes),
{
}

} // verus!
