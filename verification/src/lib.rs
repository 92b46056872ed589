//! Content-addressed case sharing: hashing and deduplication of uploaded
//! assets, extraction of asset references from a case document, share-code
//! generation, and the share/import services over a relational store model.

pub mod codes;
pub mod errors;
pub mod hashing;
pub mod import;
pub mod json;
pub mod laws;
pub mod mime;
pub mod proxy;
pub mod share;
pub mod store;
pub mod strings;

use vstd::prelude::*;

verus! {

/// Seconds in the seven-day lifetime of a shared case.
pub const SHARE_LIFETIME_SECONDS: i64 = 604800;

/// The expiry timestamp of a case shared at `now`.
pub fn expiry_of(now: i64) -> (r: i64)
    requires
        now <= i64::MAX - SHARE_LIFETIME_SECONDS,
    ensures
        r == now + SHARE_LIFETIME_SECONDS,
{
    now + SHARE_LIFETIME_SECONDS
}

} // verus!
