//! Claim sets carried inside signed tokens.
//!
//! An access claims set is a short-lived authorization grant; a refresh
//! claims set is the right to mint a new access token and keeps a back
//! reference to the access token issued alongside it, so revoking the
//! refresh token also revokes its paired access token.

use vstd::prelude::*;

use crate::errors::AuthError;
use crate::roles::{is_role_admin, roles_contain_admin};

verus! {

/// Claims of a short-lived access token.
#[derive(Clone, Debug)]
pub struct AccessClaims {
    /// Subject: the user this grant is for.
    pub sub: String,
    /// Token id, unique per issued token.
    pub jti: String,
    /// Issued time, seconds since epoch.
    pub iat: u64,
    /// Expiration time, seconds since epoch.
    pub exp: u64,
    /// Token type tag.
    pub typ: u8,
    /// Comma-separated roles of the subject.
    pub roles: String,
}

/// Claims of a long-lived refresh token.
#[derive(Clone, Debug)]
pub struct RefreshClaims {
    /// Subject: the user this grant is for.
    pub sub: String,
    /// Token id, unique per issued token.
    pub jti: String,
    /// Issued time, seconds since epoch.
    pub iat: u64,
    /// Expiration time, seconds since epoch.
    pub exp: u64,
    /// Token id of the access token issued in the same call.
    pub prf: String,
    /// Expiration time of that paired access token.
    pub pex: u64,
    /// Token type tag.
    pub typ: u8,
    /// Comma-separated roles of the subject.
    pub roles: String,
}

/// Mathematical view of an access claims set.
pub struct AccessClaimsView {
    pub sub: Seq<char>,
    pub jti: Seq<char>,
    pub iat: u64,
    pub exp: u64,
    pub typ: u8,
    pub roles: Seq<char>,
}

/// Mathematical view of a refresh claims set.
pub struct RefreshClaimsView {
    pub sub: Seq<char>,
    pub jti: Seq<char>,
    pub iat: u64,
    pub exp: u64,
    pub prf: Seq<char>,
    pub pex: u64,
    pub typ: u8,
    pub roles: Seq<char>,
}

impl View for AccessClaims {
    type V = AccessClaimsView;

    open spec fn view(&self) -> AccessClaimsView {
        AccessClaimsView {
            sub: self.sub@,
            jti: self.jti@,
            iat: self.iat,
            exp: self.exp,
            typ: self.typ,
            roles: self.roles@,
        }
    }
}

impl View for RefreshClaims {
    type V = RefreshClaimsView;

    open spec fn view(&self) -> RefreshClaimsView {
        RefreshClaimsView {
            sub: self.sub@,
            jti: self.jti@,
            iat: self.iat,
            exp: self.exp,
            prf: self.prf@,
            pex: self.pex,
            typ: self.typ,
            roles: self.roles@,
        }
    }
}

/// The kind of token a claims set belongs to. Unrecognized tags map to
/// `UnknownToken` rather than silently aliasing a known kind.
#[derive(Debug, Clone, Copy, PartialEq, Eq, Structural)]
pub enum JwtTokenType {
    AccessToken,
    RefreshToken,
    UnknownToken,
}

impl JwtTokenType {
    /// The wire tag of this token type.
    pub open spec fn spec_code(self) -> u8 {
        match self {
            JwtTokenType::AccessToken => 0,
            JwtTokenType::RefreshToken => 1,
            JwtTokenType::UnknownToken => 2,
        }
    }

    /// The wire tag of this token type.
    pub fn code(self) -> (r: u8)
        ensures
            r == self.spec_code(),
    {
        match self {
            JwtTokenType::AccessToken => 0,
            JwtTokenType::RefreshToken => 1,
            JwtTokenType::UnknownToken => 2,
        }
    }

    /// The token type a wire tag stands for.
    pub open spec fn spec_from_u8(value: u8) -> JwtTokenType {
        if value == 0 {
            JwtTokenType::AccessToken
        } else if value == 1 {
            JwtTokenType::RefreshToken
        } else {
            JwtTokenType::UnknownToken
        }
    }

    /// The token type a wire tag stands for.
    pub fn from_u8(value: u8) -> (r: JwtTokenType)
        ensures
            r == JwtTokenType::spec_from_u8(value),
    {
        match value {
            0 => JwtTokenType::AccessToken,
            1 => JwtTokenType::RefreshToken,
            _ => JwtTokenType::UnknownToken,
        }
    }
}

impl From<u8> for JwtTokenType {
    fn from(value: u8) -> (r: JwtTokenType)
        ensures
            r == JwtTokenType::spec_from_u8(value),
    {
        JwtTokenType::from_u8(value)
    }
}

impl vstd::std_specs::convert::FromSpecImpl<u8> for JwtTokenType {
    open spec fn obeys_from_spec() -> bool {
        true
    }

    open spec fn from_spec(value: u8) -> JwtTokenType {
        JwtTokenType::spec_from_u8(value)
    }
}

/// A freshly issued pair of wire-format tokens.
#[derive(Clone, Debug)]
pub struct JwtTokens {
    pub access_token: String,
    pub refresh_token: String,
}

/// Shared read access to the claim fields that validation and revocation
/// checks need, implemented by both claim shapes.
pub trait ClaimsMethods: Sized {
    spec fn spec_sub(&self) -> Seq<char>;

    spec fn spec_iat(&self) -> u64;

    spec fn spec_exp(&self) -> u64;

    spec fn spec_jti(&self) -> Seq<char>;

    spec fn spec_roles(&self) -> Seq<char>;

    fn get_sub(&self) -> (r: &str)
        ensures
            r@ == self.spec_sub(),
    ;

    fn get_iat(&self) -> (r: u64)
        ensures
            r == self.spec_iat(),
    ;

    fn get_exp(&self) -> (r: u64)
        ensures
            r == self.spec_exp(),
    ;

    fn get_jti(&self) -> (r: &str)
        ensures
            r@ == self.spec_jti(),
    ;

    /// Fails with `Forbidden` unless the subject's roles contain the
    /// administrator role.
    fn validate_role_admin(&self) -> (r: Result<(), AuthError>)
        ensures
            r is Ok <==> roles_contain_admin(self.spec_roles()),
            r is Err ==> r == Err::<(), AuthError>(AuthError::Forbidden),
    ;
}

impl ClaimsMethods for AccessClaims {
    open spec fn spec_sub(&self) -> Seq<char> {
        self.sub@
    }

    open spec fn spec_iat(&self) -> u64 {
        self.iat
    }

    open spec fn spec_exp(&self) -> u64 {
        self.exp
    }

    open spec fn spec_jti(&self) -> Seq<char> {
        self.jti@
    }

    open spec fn spec_roles(&self) -> Seq<char> {
        self.roles@
    }

    fn get_sub(&self) -> (r: &str) {
        self.sub.as_str()
    }

    fn get_iat(&self) -> (r: u64) {
        self.iat
    }

    fn get_exp(&self) -> (r: u64) {
        self.exp
    }

    fn get_jti(&self) -> (r: &str) {
        self.jti.as_str()
    }

    fn validate_role_admin(&self) -> (r: Result<(), AuthError>) {
        is_role_admin(self.roles.as_str())
    }
}

impl ClaimsMethods for RefreshClaims {
    open spec fn spec_sub(&self) -> Seq<char> {
        self.sub@
    }

    open spec fn spec_iat(&self) -> u64 {
        self.iat
    }

    open spec fn spec_exp(&self) -> u64 {
        self.exp
    }

    open spec fn spec_jti(&self) -> Seq<char> {
        self.jti@
    }

    open spec fn spec_roles(&self) -> Seq<char> {
        self.roles@
    }

    fn get_sub(&self) -> (r: &str) {
        self.sub.as_str()
    }

    fn get_iat(&self) -> (r: u64) {
        self.iat
    }

    fn get_exp(&self) -> (r: u64) {
        self.exp
    }

    fn get_jti(&self) -> (r: &str) {
        self.jti.as_str()
    }

    fn validate_role_admin(&self) -> (r: Result<(), AuthError>) {
        is_role_admin(self.roles.as_str())
    }
}

/// Whether the claims carry the expected token type tag. Defends against
/// passing an access token where a refresh token is expected.
pub fn validate_token_type(claims: &RefreshClaims, expected_type: JwtTokenType) -> (r: bool)
    ensures
        r == (claims.typ == expected_type.spec_code()),
{
    claims.typ == expected_type.code()
}

} // verus!
