//! A multi-admin authorization gate: a group of admins jointly approves
//! execution of target operations once a confirmation threshold is reached,
//! with time-bounded proposals, replay-protected re-proposal after execution,
//! and bounded-cost pruning of expired entries.

use vstd::prelude::*;

pub mod bls;
pub mod error;
pub mod events;
pub mod keys;
pub mod laws;
pub mod ops;
pub mod registry;
pub mod state;

verus! {

/// The maximum number of admin keys that the state may hold.
pub const MAX_ADMINS: usize = 15;

/// Returns `true` if the given slice contains two equal elements.
///
/// Only used for small sets, so an element-by-element comparison is adequate.
pub fn has_duplicates(elements: &[u32]) -> (dup: bool)
    ensures
        dup == exists|i: int, j: int|
            0 <= i < j < elements@.len() && elements@[i] == elements@[j],
{
    let len = elements.len();
    let mut i: usize = 0;
    while i < len
        invariant
            i <= len,
            len == elements@.len(),
            forall|p: int, q: int|
                0 <= p < q < len && p < i ==> elements@[p] != elements@[q],
        decreases len - i,
    {
        let mut j: usize = i + 1;
        while j < len
            invariant
                i < j <= len || (i < len && j == i + 1),
                i < len,
                len == elements@.len(),
                forall|q: int| i < q < j ==> elements@[i as int] != elements@[q],
            decreases len - j,
        {
            if elements[i] == elements[j] {
                return true;
            }
            j += 1;
        }
        i += 1;
    }
    false
}

} // verus!
