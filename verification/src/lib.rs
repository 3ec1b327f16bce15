//! Best-effort resolution of collectible-token ownership counts across
//! external registries of unknown wire shape.
//!
//! The crate covers candidate encoding of identities, a decode cascade over
//! the known response schemas, probing a service with each candidate in turn,
//! enumerating whole registries as a fallback, bounded retries with
//! exponential backoff, and a freshness-bounded holder cache.

use vstd::prelude::*;

pub mod cache;
pub mod coordinator;
pub mod csv;
pub mod crypto;
pub mod ext;
pub mod ids;
pub mod prober;
pub mod registry;
pub mod retry;
pub mod util;
pub mod wire;

verus! {

/// Maximum age of a cache entry, in nanoseconds, before a refresh is required.
pub const CACHE_DURATION: u64 = 24 * 60 * 60 * 1_000_000_000;

} // verus!
