//! The scoped pin token.
//!
//! A `Guard` is produced only by pinning and names the registry entry it
//! pinned.  It is consumed, by value, by exactly one matching unpin, so a
//! verified caller can neither unpin twice with one guard nor leak the
//! depth it added.

use vstd::prelude::*;

verus! {

/// A token witnessing one pin of one registry entry.
#[derive(Debug)]
pub struct Guard {
    /// Index of the pinned participant in the collector's registry.
    pub participant: usize,
}

} // verus!
