//! The request-boundary authentication step: takes the bearer token the
//! transport layer extracted (or its absence), decodes and validates it,
//! and consults the revocation store when the configuration enables it.
//!
//! The contract settles both directions: a well-signed bearer within
//! leeway of its expiry that the store does not revoke (or with revocation
//! checking disabled, any well-signed in-leeway bearer, the store untouched)
//! is admitted with exactly its embedded claims; everything else — absent,
//! malformed, expired and revoked tokens alike — fails with
//! `WrongCredentials`, deliberately indistinguishable to the caller.

use vstd::prelude::*;

use crate::claims::{
    AccessClaims, AccessClaimsView, ClaimsMethods, RefreshClaims, RefreshClaimsView,
};
use crate::config::Config;
use crate::errors::AuthError;
use crate::jwt::{access_decode_post, decode_access_at, decode_refresh_at, jwt_of,
    refresh_decode_post};
use crate::service::now_seconds;
use crate::store::RevocationStore;
use crate::wire::{access_json, refresh_json};
use crate::within_leeway;

verus! {

/// What authenticating an access bearer at clock reading `now` settles: no
/// bearer fails; a success names a well-signed, in-leeway, unrevoked
/// bearer and returns its claims; every such bearer succeeds with exactly
/// those claims; every failure is `WrongCredentials`.
pub open spec fn access_auth_post(
    r: Result<AccessClaims, AuthError>,
    bearer: Option<&String>,
    config: Config,
    store: RevocationStore,
    now: u64,
) -> bool {
    &&& (bearer is None ==> r == Err::<AccessClaims, AuthError>(AuthError::WrongCredentials))
    &&& (r matches Ok(c) ==> {
        &&& bearer matches Some(t) && t@ == jwt_of(config.jwt_secret@, access_json(c@))
        &&& within_leeway(now, c.exp, config.jwt_validation_leeway_seconds)
        &&& config.jwt_enable_revoked_tokens ==> !store.spec_is_revoked(c.sub@, c.iat, c.jti@)
    })
    &&& (forall|v: AccessClaimsView|
        (bearer matches Some(t) && t@ == jwt_of(config.jwt_secret@, #[trigger] access_json(v))
            && within_leeway(now, v.exp, config.jwt_validation_leeway_seconds) && (
        config.jwt_enable_revoked_tokens ==> !store.spec_is_revoked(v.sub, v.iat, v.jti))) ==> (
        r matches Ok(c) && c@ == v))
    &&& (r matches Err(e) ==> e == AuthError::WrongCredentials)
}

/// The same, over the refresh claims form.
pub open spec fn refresh_auth_post(
    r: Result<RefreshClaims, AuthError>,
    bearer: Option<&String>,
    config: Config,
    store: RevocationStore,
    now: u64,
) -> bool {
    &&& (bearer is None ==> r == Err::<RefreshClaims, AuthError>(AuthError::WrongCredentials))
    &&& (r matches Ok(c) ==> {
        &&& bearer matches Some(t) && t@ == jwt_of(config.jwt_secret@, refresh_json(c@))
        &&& within_leeway(now, c.exp, config.jwt_validation_leeway_seconds)
        &&& config.jwt_enable_revoked_tokens ==> !store.spec_is_revoked(c.sub@, c.iat, c.jti@)
    })
    &&& (forall|v: RefreshClaimsView|
        (bearer matches Some(t) && t@ == jwt_of(config.jwt_secret@, #[trigger] refresh_json(v))
            && within_leeway(now, v.exp, config.jwt_validation_leeway_seconds) && (
        config.jwt_enable_revoked_tokens ==> !store.spec_is_revoked(v.sub, v.iat, v.jti))) ==> (
        r matches Ok(c) && c@ == v))
    &&& (r matches Err(e) ==> e == AuthError::WrongCredentials)
}

/// Authenticates a request by its bearer access token at the given clock
/// reading; `access_auth_post` states the whole outcome. Fail-closed:
/// nothing is admitted that the codec and the store have not both passed;
/// with revocation checking disabled the store is never consulted.
#[verifier::rlimit(100)]
#[verifier::spinoff_prover]
pub fn authenticate_access_at(
    bearer: Option<&String>,
    config: &Config,
    store: &RevocationStore,
    now: u64,
) -> (r: Result<AccessClaims, AuthError>)
    requires
        store.wf(),
    ensures
        access_auth_post(r, bearer, *config, *store, now),
{
    let token = match bearer {
        Some(t) => t,
        None => {
            return Err(AuthError::WrongCredentials);
        },
    };
    let decoded = decode_access_at(
        token.as_str(),
        config.jwt_secret.as_str(),
        now,
        config.jwt_validation_leeway_seconds,
    );
    proof {
        assert(access_decode_post(
            decoded,
            token@,
            config.jwt_secret@,
            now,
            config.jwt_validation_leeway_seconds,
        ));
    }
    let claims = match decoded {
        Ok(c) => c,
        Err(_) => {
            return Err(AuthError::WrongCredentials);
        },
    };
    if config.jwt_enable_revoked_tokens {
        if store.is_revoked(&claims) {
            proof {
                assert forall|v: AccessClaimsView|
                    (token@ == jwt_of(config.jwt_secret@, #[trigger] access_json(v))
                        && within_leeway(now, v.exp, config.jwt_validation_leeway_seconds)
                        && !store.spec_is_revoked(v.sub, v.iat, v.jti)) implies false by {
                    assert(claims@ == v);
                }
            }
            return Err(AuthError::WrongCredentials);
        }
    }
    Ok(claims)
}

/// Authenticates a request by its bearer refresh token at the given clock
/// reading; the same policy as `authenticate_access_at`.
#[verifier::rlimit(100)]
#[verifier::spinoff_prover]
pub fn authenticate_refresh_at(
    bearer: Option<&String>,
    config: &Config,
    store: &RevocationStore,
    now: u64,
) -> (r: Result<RefreshClaims, AuthError>)
    requires
        store.wf(),
    ensures
        refresh_auth_post(r, bearer, *config, *store, now),
{
    let token = match bearer {
        Some(t) => t,
        None => {
            return Err(AuthError::WrongCredentials);
        },
    };
    let decoded = decode_refresh_at(
        token.as_str(),
        config.jwt_secret.as_str(),
        now,
        config.jwt_validation_leeway_seconds,
    );
    proof {
        assert(refresh_decode_post(
            decoded,
            token@,
            config.jwt_secret@,
            now,
            config.jwt_validation_leeway_seconds,
        ));
    }
    let claims = match decoded {
        Ok(c) => c,
        Err(_) => {
            return Err(AuthError::WrongCredentials);
        },
    };
    if config.jwt_enable_revoked_tokens {
        if store.is_revoked(&claims) {
            proof {
                assert forall|v: RefreshClaimsView|
                    (token@ == jwt_of(config.jwt_secret@, #[trigger] refresh_json(v))
                        && within_leeway(now, v.exp, config.jwt_validation_leeway_seconds)
                        && !store.spec_is_revoked(v.sub, v.iat, v.jti)) implies false by {
                    assert(claims@ == v);
                }
            }
            return Err(AuthError::WrongCredentials);
        }
    }
    Ok(claims)
}

/// Authenticates a request by its bearer access token against the current
/// clock: at the clock reading the call took, `access_auth_post` holds in
/// full, success direction included.
pub fn authenticate_access(
    bearer: Option<&String>,
    config: &Config,
    store: &RevocationStore,
) -> (r: Result<AccessClaims, AuthError>)
    requires
        store.wf(),
    ensures
        exists|now: u64|
            now <= 0x7fff_ffff_ffff_ffff && #[trigger] access_auth_post(
                r,
                bearer,
                *config,
                *store,
                now,
            ),
        bearer is None ==> r == Err::<AccessClaims, AuthError>(AuthError::WrongCredentials),
        r matches Ok(c) ==> bearer matches Some(t) && t@ == jwt_of(
            config.jwt_secret@,
            access_json(c@),
        ) && (config.jwt_enable_revoked_tokens ==> !store.spec_is_revoked(c.sub@, c.iat, c.jti@)),
        r matches Err(e) ==> e == AuthError::WrongCredentials,
{
    let now = now_seconds();
    let r = authenticate_access_at(bearer, config, store, now);
    proof {
        assert(access_auth_post(r, bearer, *config, *store, now));
    }
    r
}

/// Authenticates a request by its bearer refresh token against the current
/// clock; the same contract as `authenticate_access` over the refresh
/// claims form.
pub fn authenticate_refresh(
    bearer: Option<&String>,
    config: &Config,
    store: &RevocationStore,
) -> (r: Result<RefreshClaims, AuthError>)
    requires
        store.wf(),
    ensures
        exists|now: u64|
            now <= 0x7fff_ffff_ffff_ffff && #[trigger] refresh_auth_post(
                r,
                bearer,
                *config,
                *store,
                now,
            ),
        bearer is None ==> r == Err::<RefreshClaims, AuthError>(AuthError::WrongCredentials),
        r matches Ok(c) ==> bearer matches Some(t) && t@ == jwt_of(
            config.jwt_secret@,
            refresh_json(c@),
        ) && (config.jwt_enable_revoked_tokens ==> !store.spec_is_revoked(c.sub@, c.iat, c.jti@)),
        r matches Err(e) ==> e == AuthError::WrongCredentials,
{
    let now = now_seconds();
    let r = authenticate_refresh_at(bearer, config, store, now);
    proof {
        assert(refresh_auth_post(r, bearer, *config, *store, now));
    }
    r
}

} // verus!
