use watchlist_backend::claims::{JwtTokenType, RefreshClaims};
use watchlist_backend::config::Config;
use watchlist_backend::errors::{AuthError, UserStoreError};
use watchlist_backend::models::User;
use watchlist_backend::service::{
    cleanup_revoked_and_expired, logout, refresh, revoke_global, revoke_user_tokens,
    validate_revoked,
};
use watchlist_backend::store::RevocationStore;

fn test_config(enabled: bool) -> Config {
    Config {
        jwt_secret: String::from("test-secret-0123456789"),
        jwt_expire_access_token_seconds: 600,
        jwt_expire_refresh_token_seconds: 3600,
        jwt_validation_leeway_seconds: 30,
        jwt_enable_revoked_tokens: enabled,
    }
}

const NOW: u64 = 1_700_000_000;

fn refresh_claims(sub: &str, jti: &str, prf: &str, iat: u64, exp: u64) -> RefreshClaims {
    RefreshClaims {
        sub: String::from(sub),
        jti: String::from(jti),
        iat,
        exp,
        prf: String::from(prf),
        pex: iat + 600,
        typ: JwtTokenType::RefreshToken.code(),
        roles: String::from("guest"),
    }
}

fn test_user(id: &str) -> User {
    User {
        id: String::from(id),
        username: String::from("bob"),
        email: String::from("bob@example.com"),
        password_hash: String::new(),
        password_salt: String::new(),
        roles: String::from("guest"),
        created_at: None,
        updated_at: None,
    }
}

#[test]
fn global_cutoff_revokes_older_tokens_only() {
    let mut store = RevocationStore::new();
    let older = refresh_claims("u1", "j1", "p1", NOW - 10, NOW + 3600);
    let boundary = refresh_claims("u1", "j2", "p2", NOW, NOW + 3600);
    let newer = refresh_claims("u1", "j3", "p3", NOW + 10, NOW + 3600);
    assert!(store.is_revoked(&older) == false);
    revoke_global(&mut store, NOW);
    assert!(store.is_revoked(&older));
    assert!(store.is_revoked(&boundary));
    assert!(!store.is_revoked(&newer));
}

#[test]
fn user_cutoff_revokes_only_that_subject() {
    let mut store = RevocationStore::new();
    let mine = refresh_claims("victim", "j1", "p1", NOW - 5, NOW + 3600);
    let other = refresh_claims("bystander", "j2", "p2", NOW - 5, NOW + 3600);
    let later = refresh_claims("victim", "j3", "p3", NOW + 5, NOW + 3600);
    revoke_user_tokens("victim", &mut store, NOW);
    assert!(store.is_revoked(&mine));
    assert!(!store.is_revoked(&other));
    assert!(!store.is_revoked(&later));
    assert!(validate_revoked(&mine, &store).is_err());
    assert!(validate_revoked(&other, &store).is_ok());
}

#[test]
fn logout_revokes_both_ids_of_the_pair() {
    let config = test_config(true);
    let mut store = RevocationStore::new();
    let rc = refresh_claims("u1", "refresh-id", "access-id", NOW, NOW + 3600);
    logout(&rc, &config, &mut store).expect("logout must succeed");
    assert!(store.is_revoked(&rc));
    let paired_access = refresh_claims("u1", "access-id", "x", NOW, NOW + 600);
    assert!(store.is_revoked(&paired_access));
}

#[test]
fn logout_twice_succeeds_both_times() {
    let config = test_config(true);
    let mut store = RevocationStore::new();
    let rc = refresh_claims("u1", "refresh-id", "access-id", NOW, NOW + 3600);
    assert!(logout(&rc, &config, &mut store).is_ok());
    assert!(logout(&rc, &config, &mut store).is_ok());
    assert!(store.is_revoked(&rc));
}

#[test]
fn logout_needs_revocation_tracking() {
    let config = test_config(false);
    let mut store = RevocationStore::new();
    let rc = refresh_claims("u1", "j", "p", NOW, NOW + 3600);
    let r = logout(&rc, &config, &mut store);
    assert_eq!(r.unwrap_err(), AuthError::RevokedTokensInactive);
}

#[test]
fn logout_rejects_access_claims_shape() {
    let config = test_config(true);
    let mut store = RevocationStore::new();
    let mut rc = refresh_claims("u1", "j", "p", NOW, NOW + 3600);
    rc.typ = JwtTokenType::AccessToken.code();
    let r = logout(&rc, &config, &mut store);
    assert_eq!(r.unwrap_err(), AuthError::InvalidToken);
}

#[test]
fn refresh_rotates_and_issues_new_pair() {
    let config = test_config(true);
    let mut store = RevocationStore::new();
    let rc = refresh_claims("u1", "old-refresh", "old-access", NOW, NOW + 3600);
    let tokens = refresh(&rc, Ok(test_user("u1")), &config, &mut store)
        .expect("refresh with a fresh token must succeed");
    assert!(!tokens.access_token.is_empty());
    assert!(store.is_revoked(&rc));
    let again = refresh(&rc, Ok(test_user("u1")), &config, &mut store);
    assert_eq!(again.unwrap_err(), AuthError::WrongCredentials);
}

#[test]
fn refresh_with_type_confusion_fails_invalid_token() {
    let config = test_config(true);
    let mut store = RevocationStore::new();
    let mut rc = refresh_claims("u1", "j", "p", NOW, NOW + 3600);
    rc.typ = JwtTokenType::AccessToken.code();
    let r = refresh(&rc, Ok(test_user("u1")), &config, &mut store);
    assert_eq!(r.unwrap_err(), AuthError::InvalidToken);
    assert!(!store.is_revoked(&refresh_claims("u1", "j", "p", NOW, NOW + 3600)));
}

#[test]
fn refresh_surfaces_user_store_failures() {
    let config = test_config(true);
    let mut store = RevocationStore::new();
    let rc = refresh_claims("gone", "j", "p", NOW, NOW + 3600);
    let r = refresh(&rc, Err(UserStoreError::NotFound), &config, &mut store);
    assert_eq!(r.unwrap_err(), AuthError::UserStore(UserStoreError::NotFound));
}

#[test]
fn cleanup_removes_exactly_expired_entries() {
    let config = test_config(true);
    let mut store = RevocationStore::new();
    let expired_a = refresh_claims("u1", "ja", "pa", NOW - 100, NOW - 1);
    let expired_b = refresh_claims("u2", "jb", "pb", NOW - 100, NOW - 50);
    let live = refresh_claims("u3", "jc", "pc", NOW - 100, NOW);
    logout(&expired_a, &config, &mut store).unwrap();
    logout(&expired_b, &config, &mut store).unwrap();
    logout(&live, &config, &mut store).unwrap();
    let admin = watchlist_backend::claims::AccessClaims {
        sub: String::from("root"),
        jti: String::from("admin-jti"),
        iat: NOW,
        exp: NOW + 600,
        typ: JwtTokenType::AccessToken.code(),
        roles: String::from("admin"),
    };
    // Each logout listed two ids; the two expired pairs hold four entries.
    let deleted = cleanup_revoked_and_expired(&admin, &config, &mut store, NOW).unwrap();
    assert_eq!(deleted, 4);
    assert!(store.is_revoked(&live));
    assert!(!store.is_revoked(&expired_a));
    let deleted_again = cleanup_revoked_and_expired(&admin, &config, &mut store, NOW).unwrap();
    assert_eq!(deleted_again, 0);
}

#[test]
fn cleanup_requires_admin_and_tracking() {
    let mut store = RevocationStore::new();
    let guest = watchlist_backend::claims::AccessClaims {
        sub: String::from("u"),
        jti: String::from("j"),
        iat: NOW,
        exp: NOW + 600,
        typ: JwtTokenType::AccessToken.code(),
        roles: String::from("guest,customer"),
    };
    let r = cleanup_revoked_and_expired(&guest, &test_config(true), &mut store, NOW);
    assert_eq!(r.unwrap_err(), AuthError::Forbidden);
    let admin = watchlist_backend::claims::AccessClaims {
        roles: String::from("admin"),
        ..guest
    };
    let r = cleanup_revoked_and_expired(&admin, &test_config(false), &mut store, NOW);
    assert_eq!(r.unwrap_err(), AuthError::RevokedTokensInactive);
}

#[test]
fn store_state_is_observable() {
    let config = test_config(true);
    let mut store = RevocationStore::new();
    assert_eq!(store.global_cutoff(), None);
    assert!(store.user_cutoff_entries().is_empty());
    assert!(store.denylist_entries().is_empty());
    revoke_global(&mut store, NOW);
    assert_eq!(store.global_cutoff(), Some(NOW));
    revoke_user_tokens("victim", &mut store, NOW + 1);
    assert_eq!(
        store.user_cutoff_entries().as_slice(),
        &[(String::from("victim"), NOW + 1)]
    );
    revoke_user_tokens("victim", &mut store, NOW + 2);
    assert_eq!(
        store.user_cutoff_entries().as_slice(),
        &[(String::from("victim"), NOW + 2)]
    );
    // Issued after the global cutoff, so it is not yet revoked and logout
    // really lists the pair.
    let rc = refresh_claims("u", "jti-1", "prf-1", NOW + 10, NOW + 60);
    logout(&rc, &config, &mut store).unwrap();
    let mut entries = store.denylist_entries().clone();
    entries.sort();
    assert_eq!(
        entries,
        vec![
            (String::from("jti-1"), NOW + 60),
            (String::from("prf-1"), NOW + 60),
        ]
    );
}

#[test]
fn role_names_parse_back() {
    assert_eq!(
        watchlist_backend::roles::UserRole::from_name("admin"),
        Some(watchlist_backend::roles::UserRole::Admin)
    );
    assert_eq!(watchlist_backend::roles::UserRole::from_name("Admin"), None);
    assert_eq!(watchlist_backend::roles::UserRole::from_name(""), None);
}
