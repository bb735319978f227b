//! Authentication errors and their mapping to API error responses.
//!
//! Backend failures are deliberately under-specific to callers: raw error
//! text is never part of the mapped response data.

use vstd::prelude::*;

verus! {

/// A failure reported by the user store collaborator.
#[derive(Copy, Clone, Debug, PartialEq, Eq, Structural)]
pub enum UserStoreError {
    /// No record with the requested key.
    NotFound,
    /// The backend failed; the cause is logged at the boundary, not carried.
    Backend,
}

/// Authentication and authorization failures.
#[derive(Copy, Clone, Debug, PartialEq, Eq, Structural)]
pub enum AuthError {
    /// Bad, expired, revoked or missing token, or a bad password.
    WrongCredentials,
    /// No credentials were supplied at all.
    MissingCredentials,
    /// Signing a new token failed; treated as internal.
    TokenCreationError,
    /// The wrong kind of token was presented where a specific kind is
    /// required.
    InvalidToken,
    /// A revocation-dependent operation was attempted while revocation
    /// tracking is disabled.
    RevokedTokensInactive,
    /// Authenticated, but lacking the required role.
    Forbidden,
    /// The user store failed during an authentication flow.
    UserStore(UserStoreError),
}

impl AuthError {
    /// A short human-readable description.
    pub fn message(&self) -> &'static str {
        match self {
            AuthError::WrongCredentials => "wrong credentials",
            AuthError::MissingCredentials => "missing credentials",
            AuthError::TokenCreationError => "token creation error",
            AuthError::InvalidToken => "invalid token",
            AuthError::RevokedTokensInactive => "use of revoked tokens is inactive",
            AuthError::Forbidden => "forbidden",
            AuthError::UserStore(UserStoreError::NotFound) => "user not found",
            AuthError::UserStore(UserStoreError::Backend) => "user store error",
        }
    }
}

/// Machine-readable error codes of the API error responses.
#[derive(Clone, Copy, Debug, PartialEq, Eq, Structural)]
pub enum APIErrorCode {
    AuthenticationWrongCredentials,
    AuthenticationMissingCredentials,
    AuthenticationTokenCreationError,
    AuthenticationInvalidToken,
    AuthenticationRevokedTokensInactive,
    AuthenticationForbidden,
    UserNotFound,
    TransactionNotFound,
    TransferInsufficientFunds,
    TransferSourceAccountNotFound,
    TransferDestinationAccountNotFound,
    TransferAccountsAreSame,
    ResourceNotFound,
    ApiVersionError,
    DatabaseError,
    RedisError,
}

impl APIErrorCode {
    /// The snake_case wire name of this code.
    pub fn as_str(&self) -> &'static str {
        match self {
            APIErrorCode::AuthenticationWrongCredentials => "authentication_wrong_credentials",
            APIErrorCode::AuthenticationMissingCredentials => "authentication_missing_credentials",
            APIErrorCode::AuthenticationTokenCreationError => "authentication_token_creation_error",
            APIErrorCode::AuthenticationInvalidToken => "authentication_invalid_token",
            APIErrorCode::AuthenticationRevokedTokensInactive => "authentication_revoked_tokens_inactive",
            APIErrorCode::AuthenticationForbidden => "authentication_forbidden",
            APIErrorCode::UserNotFound => "user_not_found",
            APIErrorCode::TransactionNotFound => "transaction_not_found",
            APIErrorCode::TransferInsufficientFunds => "transfer_insufficient_funds",
            APIErrorCode::TransferSourceAccountNotFound => "transfer_source_account_not_found",
            APIErrorCode::TransferDestinationAccountNotFound => "transfer_destination_account_not_found",
            APIErrorCode::TransferAccountsAreSame => "transfer_accounts_are_same",
            APIErrorCode::ResourceNotFound => "resource_not_found",
            APIErrorCode::ApiVersionError => "api_version_error",
            APIErrorCode::DatabaseError => "database_error",
            APIErrorCode::RedisError => "redis_error",
        }
    }
}

/// Coarse classification of API error responses.
#[derive(Clone, Copy, Debug, PartialEq, Eq, Structural)]
pub enum APIErrorKind {
    AuthenticationError,
    ResourceNotFound,
    ValidationError,
    DatabaseError,
    RedisError,
}

impl APIErrorKind {
    /// The snake_case wire name of this kind.
    pub fn as_str(&self) -> &'static str {
        match self {
            APIErrorKind::AuthenticationError => "authentication_error",
            APIErrorKind::ResourceNotFound => "resource_not_found",
            APIErrorKind::ValidationError => "validation_error",
            APIErrorKind::DatabaseError => "database_error",
            APIErrorKind::RedisError => "redis_error",
        }
    }
}

/// The HTTP status and error code an authentication failure maps to at the
/// request boundary; the kind is always `AuthenticationError`.
pub open spec fn spec_auth_error_response(e: AuthError) -> (u16, APIErrorCode) {
    match e {
        AuthError::WrongCredentials => (401u16, APIErrorCode::AuthenticationWrongCredentials),
        AuthError::MissingCredentials => (400u16, APIErrorCode::AuthenticationMissingCredentials),
        AuthError::TokenCreationError => (500u16, APIErrorCode::AuthenticationTokenCreationError),
        AuthError::InvalidToken => (400u16, APIErrorCode::AuthenticationInvalidToken),
        AuthError::RevokedTokensInactive => (
            400u16,
            APIErrorCode::AuthenticationRevokedTokensInactive,
        ),
        AuthError::Forbidden => (403u16, APIErrorCode::AuthenticationForbidden),
        AuthError::UserStore(_) => (500u16, APIErrorCode::DatabaseError),
    }
}

/// Maps an authentication failure to the HTTP status, error code and error
/// kind of the uniform API error response.
pub fn auth_error_response(e: &AuthError) -> (r: (u16, APIErrorCode, APIErrorKind))
    ensures
        (r.0, r.1) == spec_auth_error_response(*e),
        r.2 == APIErrorKind::AuthenticationError,
{
    let (status, code) = match e {
        AuthError::WrongCredentials => (401, APIErrorCode::AuthenticationWrongCredentials),
        AuthError::MissingCredentials => (400, APIErrorCode::AuthenticationMissingCredentials),
        AuthError::TokenCreationError => (500, APIErrorCode::AuthenticationTokenCreationError),
        AuthError::InvalidToken => (400, APIErrorCode::AuthenticationInvalidToken),
        AuthError::RevokedTokensInactive => (
            400,
            APIErrorCode::AuthenticationRevokedTokensInactive,
        ),
        AuthError::Forbidden => (403, APIErrorCode::AuthenticationForbidden),
        AuthError::UserStore(_) => (500, APIErrorCode::DatabaseError),
    };
    (status, code, APIErrorKind::AuthenticationError)
}

} // verus!
