//! Token-subsystem configuration, handed in by the surrounding application.

use vstd::prelude::*;

verus! {

/// Upper bound on the configured durations, far beyond any sensible value;
/// keeps every timestamp computation inside `u64`.
pub const MAX_DURATION_SECONDS: u64 = 0x4000_0000;

/// Configuration of the token subsystem.
#[derive(Clone, Debug)]
pub struct Config {
    /// Symmetric signing secret.
    pub jwt_secret: String,
    /// Lifetime of an access token, in seconds.
    pub jwt_expire_access_token_seconds: u64,
    /// Lifetime of a refresh token, in seconds.
    pub jwt_expire_refresh_token_seconds: u64,
    /// Clock-skew leeway added to the expiry check when decoding.
    pub jwt_validation_leeway_seconds: u64,
    /// Whether revocation tracking is enabled. When disabled, revocation
    /// checks are skipped entirely (an explicit fail-open choice).
    pub jwt_enable_revoked_tokens: bool,
}

impl Config {
    /// The configured durations stay below `MAX_DURATION_SECONDS`, which
    /// machine arithmetic needs; any realistic configuration satisfies it.
    pub open spec fn wf(&self) -> bool {
        self.jwt_expire_access_token_seconds <= MAX_DURATION_SECONDS
            && self.jwt_expire_refresh_token_seconds <= MAX_DURATION_SECONDS
            && self.jwt_validation_leeway_seconds <= MAX_DURATION_SECONDS
    }
}

} // verus!
