//! Stateless-token authentication and revocation.
//!
//! Issues paired short-lived access / long-lived refresh tokens, verifies
//! them, checks role-based authorization, and tracks a three-tier revocation
//! denylist (global cutoff, per-user cutoff, per-token list).

use vstd::prelude::*;

pub mod b64;
pub mod claims;
pub mod config;
pub mod db;
pub mod errors;
pub mod extractor;
pub mod jsonstr;
pub mod jwt;
pub mod laws;
pub mod models;
pub mod roles;
pub mod service;
pub mod store;
pub mod strings;
pub mod version;
pub mod wire;

verus! {

/// A token is considered expired once the clock passes its expiry plus the
/// configured leeway.
pub open spec fn within_leeway(now: u64, exp: u64, leeway: u64) -> bool {
    now <= exp + leeway
}

/// Expiry check used by the token codec: succeeds exactly while
/// `now <= exp + leeway`, computed without overflow.
pub fn check_within_leeway(now: u64, exp: u64, leeway: u64) -> (r: bool)
    ensures
        r == within_leeway(now, exp, leeway),
{
    now <= exp || now - exp <= leeway
}

} // verus!
