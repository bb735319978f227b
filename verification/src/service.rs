//! The token lifecycle: issuing a paired access/refresh token set, logout
//! (revoke), refresh (rotate), and denylist cleanup, composing the codec
//! and the revocation store.
//!
//! Outside collaborators enter as plain values: the caller performs the
//! user-store lookup and hands its outcome in; the clock and the token-id
//! generator are trusted wrappers whose results the contracts treat as
//! arbitrary.

use vstd::prelude::*;

use crate::claims::{
    AccessClaims, AccessClaimsView, ClaimsMethods, JwtTokens, JwtTokenType, RefreshClaims,
    RefreshClaimsView, validate_token_type,
};
use crate::config::Config;
use crate::errors::{AuthError, UserStoreError};
use crate::jwt::{encode_access_claims, encode_refresh_claims, jwt_of};
use crate::models::{LoginUser, User};
use crate::store::RevocationStore;
use crate::wire::{access_json, refresh_json};

verus! {

/// Relies on `chrono::Utc::now().timestamp()`: the current time as whole
/// seconds since the Unix epoch. Nothing is assumed about the clock.
#[verifier::external_body]
fn now_unix_timestamp() -> i64 {
    chrono::Utc::now().timestamp()
}

/// The current clock reading clamped to a non-negative second count; what
/// the rest of the library takes as "now".
pub fn now_seconds() -> (r: u64)
    ensures
        r <= 0x7fff_ffff_ffff_ffff,
{
    let t = now_unix_timestamp();
    if t >= 0 {
        t as u64
    } else {
        0
    }
}

/// Relies on `uuid::Uuid::new_v4()` and its hyphenated `Display` form: a
/// fresh random token id. Nothing is assumed about the value.
#[verifier::external_body]
pub fn new_token_id() -> String {
    uuid::Uuid::new_v4().to_string()
}

/// Whether `bcrypt::verify` accepts `password` against `hash`, with a
/// verification error counted as a mismatch. A function of the two
/// arguments alone, computed by the outside crate.
pub uninterp spec fn bcrypt_matches(password: Seq<char>, hash: Seq<char>) -> bool;

/// Relies on `bcrypt::verify`: whether the password matches the stored
/// bcrypt hash; an error (such as a malformed hash) counts as a mismatch.
#[verifier::external_body]
fn bcrypt_verify(password: &str, hash: &str) -> (r: bool)
    ensures
        r == bcrypt_matches(password@, hash@),
{
    bcrypt::verify(password, hash).unwrap_or(false)
}

/// What a freshly issued token pair looks like: both tokens carry the
/// subject and roles given at issuance, were signed with the configured
/// secret, agree on the issue time (a clock reading, so at most
/// `i64::MAX` seconds), expire after the configured lifetimes, and the
/// refresh claims point back at the paired access token.
pub open spec fn issued_pair(
    tokens: JwtTokens,
    av: AccessClaimsView,
    rv: RefreshClaimsView,
    sub: Seq<char>,
    roles: Seq<char>,
    now: u64,
    config: Config,
) -> bool {
    &&& now <= 0x7fff_ffff_ffff_ffff
    &&& tokens.access_token@ == jwt_of(config.jwt_secret@, access_json(av))
    &&& tokens.refresh_token@ == jwt_of(config.jwt_secret@, refresh_json(rv))
    &&& av.sub == sub
    &&& av.roles == roles
    &&& av.iat == now
    &&& av.exp == now + config.jwt_expire_access_token_seconds
    &&& av.typ == JwtTokenType::AccessToken.spec_code()
    &&& rv.sub == sub
    &&& rv.roles == roles
    &&& rv.iat == now
    &&& rv.exp == now + config.jwt_expire_refresh_token_seconds
    &&& rv.typ == JwtTokenType::RefreshToken.spec_code()
    &&& rv.prf == av.jti
    &&& rv.pex == av.exp
}

/// A token pair issued for `sub` with `roles` under this configuration, at
/// some clock reading.
pub open spec fn issued_for(tokens: JwtTokens, sub: Seq<char>, roles: Seq<char>, config: Config) -> bool {
    exists|av: AccessClaimsView, rv: RefreshClaimsView, now: u64|
        issued_pair(tokens, av, rv, sub, roles, now, config)
}

/// Builds and signs the claims of one issuance, from the subject, roles,
/// two fresh token ids and the clock reading.
pub fn issue_tokens_at(
    sub: &String,
    roles: &String,
    access_jti: String,
    refresh_jti: String,
    now: u64,
    config: &Config,
) -> (r: (AccessClaims, RefreshClaims, JwtTokens))
    requires
        config.wf(),
        now <= 0x7fff_ffff_ffff_ffff,
    ensures
        issued_pair(r.2, r.0@, r.1@, sub@, roles@, now, *config),
        r.0.jti@ == access_jti@,
        r.1.jti@ == refresh_jti@,
{
    let access_exp = now + config.jwt_expire_access_token_seconds;
    let refresh_exp = now + config.jwt_expire_refresh_token_seconds;
    let access_claims = AccessClaims {
        sub: sub.clone(),
        jti: access_jti,
        iat: now,
        exp: access_exp,
        typ: JwtTokenType::AccessToken.code(),
        roles: roles.clone(),
    };
    let refresh_claims = RefreshClaims {
        sub: sub.clone(),
        jti: refresh_jti,
        iat: now,
        exp: refresh_exp,
        prf: access_claims.jti.clone(),
        pex: access_exp,
        typ: JwtTokenType::RefreshToken.code(),
        roles: roles.clone(),
    };
    let access_token = encode_access_claims(&access_claims, config.jwt_secret.as_str());
    let refresh_token = encode_refresh_claims(&refresh_claims, config.jwt_secret.as_str());
    let tokens = JwtTokens { access_token, refresh_token };
    (access_claims, refresh_claims, tokens)
}

/// Issues a fresh token pair for `user`: two random token ids, issue time
/// read from the clock, lifetimes from the configuration.
#[verifier::rlimit(100)]
#[verifier::spinoff_prover]
pub fn generate_tokens(user: &User, config: &Config) -> (r: JwtTokens)
    requires
        config.wf(),
    ensures
        issued_for(r, user.id@, user.roles@, *config),
{
    let now = now_seconds();
    let access_jti = new_token_id();
    let refresh_jti = new_token_id();
    let (access_claims, refresh_claims, tokens) = issue_tokens_at(
        &user.id,
        &user.roles,
        access_jti,
        refresh_jti,
        now,
        config,
    );
    proof {
        assert(issued_pair(tokens, access_claims@, refresh_claims@, user.id@, user.roles@, now,
            *config));
    }
    tokens
}

/// Verifies credentials and issues a token pair: succeeds exactly when the
/// user lookup succeeded and the password matches the stored hash; any
/// other outcome is `WrongCredentials`.
#[verifier::rlimit(100)]
#[verifier::spinoff_prover]
pub fn login(login_user: &LoginUser, lookup: Result<User, UserStoreError>, config: &Config) -> (r:
    Result<JwtTokens, AuthError>)
    requires
        config.wf(),
    ensures
        r is Ok <==> (lookup matches Ok(u) && bcrypt_matches(
            login_user.spec_password(),
            u.password_hash@,
        )),
        r matches Ok(t) ==> issued_for(t, lookup->Ok_0.id@, lookup->Ok_0.roles@, *config),
        r matches Err(e) ==> e == AuthError::WrongCredentials,
{
    match lookup {
        Ok(user) => {
            if bcrypt_verify(login_user.password(), user.password_hash.as_str()) {
                Ok(generate_tokens(&user, config))
            } else {
                Err(AuthError::WrongCredentials)
            }
        },
        Err(_) => Err(AuthError::WrongCredentials),
    }
}

/// Fails with `WrongCredentials` exactly when the store revokes these
/// claims.
pub fn validate_revoked<T: ClaimsMethods>(claims: &T, store: &RevocationStore) -> (r: Result<
    (),
    AuthError,
>)
    requires
        store.wf(),
    ensures
        r is Ok <==> !store.spec_is_revoked(claims.spec_sub(), claims.spec_iat(), claims.spec_jti()),
        r is Err ==> r == Err::<(), AuthError>(AuthError::WrongCredentials),
{
    if store.is_revoked(claims) {
        Err(AuthError::WrongCredentials)
    } else {
        Ok(())
    }
}

/// Revokes a presented refresh token and its paired access token. Fails
/// with `RevokedTokensInactive` while revocation tracking is disabled and
/// with `InvalidToken` when the claims are not refresh claims. Revoking an
/// already-revoked token is a no-op success: logout is idempotent.
#[verifier::rlimit(100)]
#[verifier::spinoff_prover]
pub fn logout(refresh_claims: &RefreshClaims, config: &Config, store: &mut RevocationStore) -> (r:
    Result<(), AuthError>)
    requires
        old(store).wf(),
    ensures
        final(store).wf(),
        !config.jwt_enable_revoked_tokens ==> r == Err::<(), AuthError>(
            AuthError::RevokedTokensInactive,
        ) && *final(store) == *old(store),
        config.jwt_enable_revoked_tokens && refresh_claims.typ
            != JwtTokenType::RefreshToken.spec_code() ==> r == Err::<(), AuthError>(
            AuthError::InvalidToken,
        ) && *final(store) == *old(store),
        config.jwt_enable_revoked_tokens && refresh_claims.typ
            == JwtTokenType::RefreshToken.spec_code() ==> r is Ok && final(store).global() == old(
            store,
        ).global() && final(store).users() == old(store).users(),
        config.jwt_enable_revoked_tokens && refresh_claims.typ
            == JwtTokenType::RefreshToken.spec_code() && old(store).spec_is_revoked(
            refresh_claims.sub@,
            refresh_claims.iat,
            refresh_claims.jti@,
        ) ==> *final(store) == *old(store),
        config.jwt_enable_revoked_tokens && refresh_claims.typ
            == JwtTokenType::RefreshToken.spec_code() && !old(store).spec_is_revoked(
            refresh_claims.sub@,
            refresh_claims.iat,
            refresh_claims.jti@,
        ) ==> final(store).tokens() == old(store).tokens().insert(
            refresh_claims.jti@,
            refresh_claims.exp,
        ).insert(refresh_claims.prf@, refresh_claims.exp),
{
    if !config.jwt_enable_revoked_tokens {
        return Err(AuthError::RevokedTokensInactive);
    }
    if !validate_token_type(refresh_claims, JwtTokenType::RefreshToken) {
        return Err(AuthError::InvalidToken);
    }
    if store.is_revoked(refresh_claims) {
        return Ok(());
    }
    store.revoke_token_pair(refresh_claims);
    Ok(())
}

/// Rotates a refresh token: checks its type, revokes the presented pair
/// while revocation tracking is enabled (a revoked refresh token must not
/// mint again), and issues a fresh pair for the subject the caller looked
/// up. A failed lookup surfaces as a `UserStore` error.
#[verifier::rlimit(100)]
#[verifier::spinoff_prover]
pub fn refresh(
    refresh_claims: &RefreshClaims,
    lookup: Result<User, UserStoreError>,
    config: &Config,
    store: &mut RevocationStore,
) -> (r: Result<JwtTokens, AuthError>)
    requires
        old(store).wf(),
        config.wf(),
    ensures
        final(store).wf(),
        refresh_claims.typ != JwtTokenType::RefreshToken.spec_code() ==> r == Err::<
            JwtTokens,
            AuthError,
        >(AuthError::InvalidToken) && *final(store) == *old(store),
        refresh_claims.typ == JwtTokenType::RefreshToken.spec_code()
            && config.jwt_enable_revoked_tokens && old(store).spec_is_revoked(
            refresh_claims.sub@,
            refresh_claims.iat,
            refresh_claims.jti@,
        ) ==> r == Err::<JwtTokens, AuthError>(AuthError::WrongCredentials) && *final(store)
            == *old(store),
        refresh_claims.typ == JwtTokenType::RefreshToken.spec_code()
            && config.jwt_enable_revoked_tokens && !old(store).spec_is_revoked(
            refresh_claims.sub@,
            refresh_claims.iat,
            refresh_claims.jti@,
        ) ==> final(store).tokens() == old(store).tokens().insert(
            refresh_claims.jti@,
            refresh_claims.exp,
        ).insert(refresh_claims.prf@, refresh_claims.exp) && final(store).global() == old(
            store,
        ).global() && final(store).users() == old(store).users(),
        refresh_claims.typ == JwtTokenType::RefreshToken.spec_code()
            && !config.jwt_enable_revoked_tokens ==> *final(store) == *old(store),
        refresh_claims.typ == JwtTokenType::RefreshToken.spec_code() && (
        !config.jwt_enable_revoked_tokens || !old(store).spec_is_revoked(
            refresh_claims.sub@,
            refresh_claims.iat,
            refresh_claims.jti@,
        )) ==> match lookup {
            Ok(u) => r matches Ok(t) && issued_for(t, u.id@, u.roles@, *config),
            Err(e) => r == Err::<JwtTokens, AuthError>(AuthError::UserStore(e)),
        },
{
    if !validate_token_type(refresh_claims, JwtTokenType::RefreshToken) {
        return Err(AuthError::InvalidToken);
    }
    if config.jwt_enable_revoked_tokens {
        if store.is_revoked(refresh_claims) {
            return Err(AuthError::WrongCredentials);
        }
        store.revoke_token_pair(refresh_claims);
    }
    match lookup {
        Ok(user) => Ok(generate_tokens(&user, config)),
        Err(e) => Err(AuthError::UserStore(e)),
    }
}

/// Scans the denylist and removes the entries whose cleanup horizon is
/// strictly in the past. Requires the administrator role and fails with
/// `RevokedTokensInactive` while revocation tracking is disabled.
#[verifier::rlimit(100)]
#[verifier::spinoff_prover]
pub fn cleanup_revoked_and_expired(
    access_claims: &AccessClaims,
    config: &Config,
    store: &mut RevocationStore,
    now: u64,
) -> (r: Result<usize, AuthError>)
    requires
        old(store).wf(),
    ensures
        final(store).wf(),
        !crate::roles::roles_contain_admin(access_claims.roles@) ==> r == Err::<usize, AuthError>(
            AuthError::Forbidden,
        ) && *final(store) == *old(store),
        crate::roles::roles_contain_admin(access_claims.roles@)
            && !config.jwt_enable_revoked_tokens ==> r == Err::<usize, AuthError>(
            AuthError::RevokedTokensInactive,
        ) && *final(store) == *old(store),
        crate::roles::roles_contain_admin(access_claims.roles@) && config.jwt_enable_revoked_tokens
            ==> {
            &&& final(store).global() == old(store).global()
            &&& final(store).users() == old(store).users()
            &&& forall|k: Seq<char>|
                final(store).tokens().contains_key(k) <==> (old(store).tokens().contains_key(k)
                    && old(store).tokens()[k] >= now)
            &&& forall|k: Seq<char>| #[trigger]
                final(store).tokens().contains_key(k) ==> final(store).tokens()[k] == old(
                    store,
                ).tokens()[k]
            &&& final(store).tokens().dom().finite()
            &&& old(store).tokens().dom().finite()
            &&& r == Ok::<usize, AuthError>(
                (old(store).tokens().dom().len() - final(store).tokens().dom().len()) as usize,
            )
        },
{
    match access_claims.validate_role_admin() {
        Ok(_) => {},
        Err(e) => {
            return Err(e);
        },
    }
    if !config.jwt_enable_revoked_tokens {
        return Err(AuthError::RevokedTokensInactive);
    }
    let deleted = store.cleanup_expired(now);
    Ok(deleted)
}

/// Sets the global revocation cutoff to the given clock reading.
pub fn revoke_global(store: &mut RevocationStore, now: u64)
    requires
        old(store).wf(),
    ensures
        final(store).wf(),
        final(store).global() == Some(now),
        final(store).users() == old(store).users(),
        final(store).tokens() == old(store).tokens(),
{
    store.revoke_global(now);
}

/// Sets one subject's revocation cutoff to the given clock reading.
pub fn revoke_user_tokens(user_id: &str, store: &mut RevocationStore, now: u64)
    requires
        old(store).wf(),
    ensures
        final(store).wf(),
        final(store).global() == old(store).global(),
        final(store).users() == old(store).users().insert(user_id@, now),
        final(store).tokens() == old(store).tokens(),
{
    store.revoke_user(user_id, now);
}

} // verus!
