//! The library's guarantees that span several operations, stated and
//! proved once over the spec-level models that the functions' own
//! contracts use.

use vstd::prelude::*;

use crate::claims::{AccessClaimsView, RefreshClaims, RefreshClaimsView};
use crate::config::Config;
use crate::jwt::{decode_jwt_spec, jwt_of, lemma_decode_jwt_of};
use crate::service::issued_pair;
use crate::store::RevocationStore;
use crate::wire::{access_json, lemma_parse_access_of_json, parse_access_json};
use crate::within_leeway;

verus! {

/// Law: decoding the access token of an issued pair with the issuing
/// secret finds exactly the issued claims — in particular the subject and
/// roles given at issuance. Together with the decoder's contract, decoding
/// immediately after issuance (while within leeway of expiry) succeeds and
/// yields those claims.
pub proof fn lemma_decode_after_issue(
    tokens: crate::claims::JwtTokens,
    av: AccessClaimsView,
    rv: RefreshClaimsView,
    sub: Seq<char>,
    roles: Seq<char>,
    now: u64,
    config: Config,
)
    requires
        issued_pair(tokens, av, rv, sub, roles, now, config),
    ensures
        decode_jwt_spec(config.jwt_secret@, tokens.access_token@) == Some(access_json(av)),
        parse_access_json(access_json(av)) == Some(av),
        av.sub == sub,
        av.roles == roles,
{
    lemma_decode_jwt_of(config.jwt_secret@, access_json(av));
    lemma_parse_access_of_json(av);
}

/// Law: in every issued pair, the refresh claims' paired-access-token id is
/// the token id of the access claims issued in the same call, and the
/// recorded paired expiry is that access token's expiry.
pub proof fn lemma_refresh_pairs_access(
    tokens: crate::claims::JwtTokens,
    av: AccessClaimsView,
    rv: RefreshClaimsView,
    sub: Seq<char>,
    roles: Seq<char>,
    now: u64,
    config: Config,
)
    requires
        issued_pair(tokens, av, rv, sub, roles, now, config),
    ensures
        rv.prf == av.jti,
        rv.pex == av.exp,
        rv.sub == av.sub,
        rv.iat == av.iat,
{
}

/// Law: logout is idempotent. After one logout has denylisted a refresh
/// token's pair, the store revokes that refresh token, so a second logout
/// with the same claims takes the already-revoked path of `logout`'s
/// contract: it succeeds and leaves the store unchanged.
pub proof fn lemma_logout_idempotent(s0: RevocationStore, s1: RevocationStore, c: RefreshClaims)
    requires
        s1.tokens() == s0.tokens().insert(c.jti@, c.exp).insert(c.prf@, c.exp),
    ensures
        s1.spec_is_revoked(c.sub@, c.iat, c.jti@),
{
}

/// Law: a global revocation at cutoff `t` revokes exactly the claims issued
/// at or before `t`; claims issued later are untouched by this cutoff and
/// remain revoked only if the per-user cutoff or the denylist says so.
pub proof fn lemma_revoke_global_cutoff(
    s1: RevocationStore,
    t: u64,
    sub: Seq<char>,
    iat: u64,
    jti: Seq<char>,
)
    requires
        s1.global() == Some(t),
    ensures
        iat <= t ==> s1.spec_is_revoked(sub, iat, jti),
        iat > t ==> s1.spec_is_revoked(sub, iat, jti) == ((s1.users().contains_key(sub)
            && s1.users()[sub] >= iat) || s1.tokens().contains_key(jti)),
{
}

/// Law: a per-user revocation at cutoff `t` revokes exactly the claims of
/// that subject issued at or before `t`. Claims of other subjects see the
/// same store as before, and later-issued claims of the same subject are
/// untouched by this cutoff.
pub proof fn lemma_revoke_user_cutoff(
    s0: RevocationStore,
    s1: RevocationStore,
    u: Seq<char>,
    t: u64,
    sub: Seq<char>,
    iat: u64,
    jti: Seq<char>,
)
    requires
        s1.users() == s0.users().insert(u, t),
        s1.global() == s0.global(),
        s1.tokens() == s0.tokens(),
    ensures
        sub == u && iat <= t ==> s1.spec_is_revoked(sub, iat, jti),
        sub != u ==> s1.spec_is_revoked(sub, iat, jti) == s0.spec_is_revoked(sub, iat, jti),
        sub == u && iat > t ==> s1.spec_is_revoked(sub, iat, jti) == ((s1.global() matches Some(g)
            && g >= iat) || s1.tokens().contains_key(jti)),
{
}

/// Law: cleanup removes only already-expired denylist entries, so running
/// it again at the same clock reading removes nothing: a store that
/// satisfies the cleanup contract's output shape over `s1` at `now`, where
/// `s1` itself came out of a cleanup at `now`, equals `s1`, and the
/// reported count is zero.
pub proof fn lemma_second_cleanup_removes_nothing(
    s1: RevocationStore,
    s2: RevocationStore,
    now: u64,
)
    requires
        forall|k: Seq<char>| #[trigger]
            s1.tokens().contains_key(k) ==> s1.tokens()[k] >= now,
        forall|k: Seq<char>|
            s2.tokens().contains_key(k) <==> (s1.tokens().contains_key(k) && s1.tokens()[k] >= now),
        forall|k: Seq<char>| #[trigger] s2.tokens().contains_key(k) ==> s2.tokens()[k]
            == s1.tokens()[k],
        s1.tokens().dom().finite(),
        s2.tokens().dom().finite(),
    ensures
        s2.tokens() == s1.tokens(),
        s1.tokens().dom().len() - s2.tokens().dom().len() == 0,
{
    assert(s2.tokens() =~= s1.tokens());
}

/// Law: the expiry check admits a token exactly up to `expires_at` plus the
/// leeway: at `now == expires_at + leeway` it still passes, one second
/// later it fails.
pub proof fn lemma_leeway_boundary(exp: u64, leeway: u64)
    requires
        exp + leeway + 1 <= u64::MAX,
    ensures
        within_leeway((exp + leeway) as u64, exp, leeway),
        !within_leeway((exp + leeway + 1) as u64, exp, leeway),
{
}

/// Law: a decoded claims set always names a token signed with the decoding
/// secret: whatever the token decoder accepts is, character for character,
/// `jwt_of` of its payload under that secret.
pub proof fn lemma_decode_only_signed(secret: Seq<char>, token: Seq<char>)
    requires
        decode_jwt_spec(secret, token) is Some,
    ensures
        token == jwt_of(secret, decode_jwt_spec(secret, token)->Some_0),
{
    crate::jwt::lemma_jwt_of_decode(secret, token);
}

} // verus!
