use watchlist_backend::claims::JwtTokenType;
use watchlist_backend::config::Config;
use watchlist_backend::errors::AuthError;
use watchlist_backend::jwt::{decode_access_at, decode_refresh_at};
use watchlist_backend::service::issue_tokens_at;

fn test_config() -> Config {
    Config {
        jwt_secret: String::from("test-secret-0123456789"),
        jwt_expire_access_token_seconds: 600,
        jwt_expire_refresh_token_seconds: 3600,
        jwt_validation_leeway_seconds: 30,
        jwt_enable_revoked_tokens: true,
    }
}

const NOW: u64 = 1_700_000_000;

#[test]
fn decode_access_after_issue_yields_inputs() {
    let config = test_config();
    let sub = String::from("5f8b1a2c-0000-4000-8000-000000000001");
    let roles = String::from("admin,customer");
    let (ac, _rc, tokens) = issue_tokens_at(
        &sub,
        &roles,
        String::from("access-jti-1"),
        String::from("refresh-jti-1"),
        NOW,
        &config,
    );
    let decoded = decode_access_at(&tokens.access_token, &config.jwt_secret, NOW, 30)
        .expect("fresh access token must decode");
    assert_eq!(decoded.sub, sub);
    assert_eq!(decoded.roles, roles);
    assert_eq!(decoded.jti, ac.jti);
    assert_eq!(decoded.iat, NOW);
    assert_eq!(decoded.exp, NOW + 600);
    assert_eq!(decoded.typ, JwtTokenType::AccessToken.code());
}

#[test]
fn decode_refresh_after_issue_yields_inputs() {
    let config = test_config();
    let sub = String::from("user-17");
    let roles = String::from("guest");
    let (_ac, rc, tokens) = issue_tokens_at(
        &sub,
        &roles,
        String::from("a-2"),
        String::from("r-2"),
        NOW,
        &config,
    );
    let decoded = decode_refresh_at(&tokens.refresh_token, &config.jwt_secret, NOW, 30)
        .expect("fresh refresh token must decode");
    assert_eq!(decoded.sub, sub);
    assert_eq!(decoded.roles, roles);
    assert_eq!(decoded.jti, rc.jti);
    assert_eq!(decoded.exp, NOW + 3600);
    assert_eq!(decoded.typ, JwtTokenType::RefreshToken.code());
}

#[test]
fn refresh_claims_reference_paired_access_token() {
    let config = test_config();
    let (ac, rc, _tokens) = issue_tokens_at(
        &String::from("u"),
        &String::from("guest"),
        String::from("access-id-xyz"),
        String::from("refresh-id-xyz"),
        NOW,
        &config,
    );
    assert_eq!(rc.prf, ac.jti);
    assert_eq!(rc.pex, ac.exp);
    assert_eq!(rc.sub, ac.sub);
    assert_eq!(rc.iat, ac.iat);
}

#[test]
fn decode_at_leeway_boundary() {
    let config = test_config();
    let (ac, _rc, tokens) = issue_tokens_at(
        &String::from("u"),
        &String::from("guest"),
        String::from("a"),
        String::from("r"),
        NOW,
        &config,
    );
    let boundary = ac.exp + 30;
    assert!(decode_access_at(&tokens.access_token, &config.jwt_secret, boundary, 30).is_ok());
    let too_late = decode_access_at(&tokens.access_token, &config.jwt_secret, boundary + 1, 30);
    assert_eq!(too_late.unwrap_err(), AuthError::WrongCredentials);
}

#[test]
fn decode_with_other_secret_fails() {
    let config = test_config();
    let (_ac, _rc, tokens) = issue_tokens_at(
        &String::from("u"),
        &String::from("guest"),
        String::from("a"),
        String::from("r"),
        NOW,
        &config,
    );
    let r = decode_access_at(&tokens.access_token, "another-secret", NOW, 30);
    assert_eq!(r.unwrap_err(), AuthError::WrongCredentials);
}

#[test]
fn decode_tampered_token_fails() {
    let config = test_config();
    let (_ac, _rc, tokens) = issue_tokens_at(
        &String::from("u"),
        &String::from("guest"),
        String::from("a"),
        String::from("r"),
        NOW,
        &config,
    );
    let mut tampered: String = tokens.access_token.clone();
    let flipped = if tampered.ends_with('A') { 'B' } else { 'A' };
    tampered.pop();
    tampered.push(flipped);
    assert!(decode_access_at(&tampered, &config.jwt_secret, NOW, 30).is_err());
    assert!(decode_access_at("", &config.jwt_secret, NOW, 30).is_err());
    assert!(decode_access_at("not.a.token", &config.jwt_secret, NOW, 30).is_err());
}

#[test]
fn roles_with_special_characters_round_trip() {
    let config = test_config();
    let roles = String::from("we\"ird\\role,\nwith\tctl,\u{1F600} unicode,admin");
    let sub = String::from("sub with spaces \u{00E9}");
    let (_ac, _rc, tokens) = issue_tokens_at(
        &sub,
        &roles,
        String::from("a"),
        String::from("r"),
        NOW,
        &config,
    );
    let decoded = decode_access_at(&tokens.access_token, &config.jwt_secret, NOW, 30)
        .expect("token with escaped characters must decode");
    assert_eq!(decoded.roles, roles);
    assert_eq!(decoded.sub, sub);
}

#[test]
fn empty_subject_and_roles_round_trip() {
    let config = test_config();
    let (_ac, _rc, tokens) = issue_tokens_at(
        &String::new(),
        &String::new(),
        String::from("a"),
        String::from("r"),
        NOW,
        &config,
    );
    let decoded = decode_access_at(&tokens.access_token, &config.jwt_secret, NOW, 30).unwrap();
    assert_eq!(decoded.sub, "");
    assert_eq!(decoded.roles, "");
}

#[test]
fn issued_token_verifies_with_jsonwebtoken() {
    let config = test_config();
    let sub = String::from("11111111-2222-3333-4444-555555555555");
    let roles = String::from("admin");
    let (_ac, _rc, tokens) = issue_tokens_at(
        &sub,
        &roles,
        String::from("access-jti-interop"),
        String::from("refresh-jti-interop"),
        NOW,
        &config,
    );
    let key = jsonwebtoken::DecodingKey::from_secret(config.jwt_secret.as_bytes());
    let mut validation = jsonwebtoken::Validation::new(jsonwebtoken::Algorithm::HS256);
    validation.validate_exp = false;
    validation.required_spec_claims.clear();
    let data = jsonwebtoken::decode::<serde_json::Value>(&tokens.access_token, &key, &validation)
        .expect("jsonwebtoken must accept the issued token");
    assert_eq!(data.claims.get("sub").and_then(|v| v.as_str()), Some(sub.as_str()));
    assert_eq!(data.claims.get("roles").and_then(|v| v.as_str()), Some(roles.as_str()));
    assert_eq!(data.claims.get("iat").and_then(|v| v.as_u64()), Some(NOW));
    assert_eq!(data.claims.get("exp").and_then(|v| v.as_u64()), Some(NOW + 600));
    assert_eq!(data.claims.get("typ").and_then(|v| v.as_u64()), Some(0));
}

#[test]
fn jsonwebtoken_issued_token_decodes_here() {
    let config = test_config();
    let mut claims = serde_json::Map::new();
    claims.insert("sub".to_string(), serde_json::Value::from("interop-user"));
    claims.insert("jti".to_string(), serde_json::Value::from("interop-jti"));
    claims.insert("iat".to_string(), serde_json::Value::from(NOW));
    claims.insert("exp".to_string(), serde_json::Value::from(NOW + 600));
    claims.insert("typ".to_string(), serde_json::Value::from(0u64));
    claims.insert("roles".to_string(), serde_json::Value::from("admin"));
    let key = jsonwebtoken::EncodingKey::from_secret(config.jwt_secret.as_bytes());
    let token = jsonwebtoken::encode(&jsonwebtoken::Header::default(), &claims, &key)
        .expect("jsonwebtoken encode");
    let decoded = decode_access_at(&token, &config.jwt_secret, NOW, 30)
        .expect("a token jsonwebtoken signed in canonical field order must decode");
    assert_eq!(decoded.sub, "interop-user");
    assert_eq!(decoded.jti, "interop-jti");
    assert_eq!(decoded.roles, "admin");
    assert_eq!(decoded.typ, 0);
}

#[test]
fn generate_tokens_produces_decodable_pair() {
    let config = test_config();
    let user = watchlist_backend::models::User {
        id: String::from("99999999-0000-4000-8000-000000000009"),
        username: String::from("alice"),
        email: String::from("alice@example.com"),
        password_hash: String::new(),
        password_salt: String::new(),
        roles: String::from("admin"),
        created_at: None,
        updated_at: None,
    };
    let tokens = watchlist_backend::service::generate_tokens(&user, &config);
    let now = watchlist_backend::service::now_seconds();
    let ac = decode_access_at(&tokens.access_token, &config.jwt_secret, now, 30).unwrap();
    let rc = decode_refresh_at(&tokens.refresh_token, &config.jwt_secret, now, 30).unwrap();
    assert_eq!(ac.sub, user.id);
    assert_eq!(rc.sub, user.id);
    assert_eq!(rc.prf, ac.jti);
    assert_eq!(rc.pex, ac.exp);
    assert_ne!(ac.jti, rc.jti);
}
