//! What the codecs of a bounded map share: the arithmetic of its greatest encoded length.

use vstd::prelude::*;

verus! {

/// `x`, or the greatest `usize` where `x` is beyond it.
pub open spec fn saturated(x: nat) -> nat {
    if x > usize::MAX {
        usize::MAX as nat
    } else {
        x
    }
}

/// The greatest length of the encoding of a map of up to `bound` entries, where no key
/// takes more than `key_max` bytes, no value more than `value_max`, and the number of
/// entries is written in `prefix` bytes: `bound × (key_max + value_max) + prefix`, with
/// every step cut off at the greatest `usize`.
pub open spec fn bounded_len(bound: u32, key_max: usize, value_max: usize, prefix: usize) -> nat {
    let entry = saturated((key_max + value_max) as nat);
    let entries = saturated(bound as nat * entry);
    saturated((entries + prefix) as nat)
}

/// Computes [`bounded_len`].
pub fn max_len(bound: u32, key_max: usize, value_max: usize, prefix: usize) -> (len: usize)
    ensures
        len == bounded_len(bound, key_max, value_max, prefix),
{
    let entry: usize = key_max.saturating_add(value_max);
    let entries: usize = match (bound as usize).checked_mul(entry) {
        Some(entries) => entries,
        None => usize::MAX,
    };
    entries.saturating_add(prefix)
}

} // verus!
