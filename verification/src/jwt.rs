//! The signed wire token: `base64url(header) . base64url(claims JSON) .
//! signature`, HMAC-SHA256 signed with the configured symmetric secret.
//!
//! Framing, claims serialization and expiry checking are verified; only the
//! HMAC itself is trusted, named by `hs256_tag`. Decoding accepts exactly
//! the tokens this module issues: a decoded claims set always names a token
//! that `jwt_of` describes, and issuing then decoding is the identity.

use vstd::prelude::*;

use vstd::string::{StrSliceExecFns, StringExecFns};
use vstd::utf8::{
    decode_utf8, decode_utf8_encode_utf8, encode_utf8, encode_utf8_decode_utf8,
    encode_utf8_valid_utf8, valid_utf8,
};

use crate::b64::{
    b64_append, b64_decode_range, b64_of, b64_parse, is_b64_char, lemma_b64_of_chars,
    lemma_b64_of_parse, lemma_b64_parse_of,
};
use crate::claims::{AccessClaims, AccessClaimsView, RefreshClaims, RefreshClaimsView};
use crate::config::Config;
use crate::errors::AuthError;
use crate::strings::{string_from_utf8, string_push};
use crate::wire::{
    access_json, append_access_json, append_refresh_json, lemma_access_json_of_parse,
    lemma_parse_access_of_json, lemma_parse_refresh_of_json, lemma_refresh_json_of_parse,
    parse_access, parse_access_json, parse_refresh, parse_refresh_json, refresh_json,
};
use crate::within_leeway;

verus! {

/// The signature that HMAC-SHA256 under `key` puts on `msg` (both taken as
/// UTF-8), already base64url-encoded. Named, not written out: the digest is
/// a function of the arguments alone and is computed by the outside crate.
pub uninterp spec fn hs256_tag(key: Seq<char>, msg: Seq<char>) -> Seq<char>;

/// Relies on `jsonwebtoken::crypto::sign` with `Algorithm::HS256` and an
/// `EncodingKey::from_secret` key: returns the base64url-encoded
/// HMAC-SHA256 of the message, a function of key and message alone; its
/// source shows HMAC signing itself cannot fail.
#[verifier::external_body]
fn hs256_sign(secret: &str, msg: &str) -> (r: String)
    ensures
        r@ == hs256_tag(secret@, msg@),
{
    let key = jsonwebtoken::EncodingKey::from_secret(secret.as_bytes());
    match jsonwebtoken::crypto::sign(msg.as_bytes(), &key, jsonwebtoken::Algorithm::HS256) {
        Ok(sig) => sig,
        Err(_) => String::new(),
    }
}

/// The fixed JOSE header of every token this library signs.
pub open spec fn header_chars() -> Seq<char> {
    "{\"typ\":\"JWT\",\"alg\":\"HS256\"}"@
}

/// The part of the token that is signed.
pub open spec fn signing_input(payload: Seq<char>) -> Seq<char> {
    b64_of(encode_utf8(header_chars())) + seq!['.'] + b64_of(encode_utf8(payload))
}

/// The complete wire token carrying `payload` signed under `secret`.
pub open spec fn jwt_of(secret: Seq<char>, payload: Seq<char>) -> Seq<char> {
    signing_input(payload) + seq!['.'] + hs256_tag(secret, signing_input(payload))
}

/// Index of the first `.` at or after `i`, or the length of `s`.
pub open spec fn find_dot(s: Seq<char>, i: int) -> int
    decreases s.len() - i,
{
    if i < 0 || i >= s.len() {
        s.len() as int
    } else if s[i] == '.' {
        i
    } else {
        find_dot(s, i + 1)
    }
}

proof fn lemma_find_dot_at(s: Seq<char>, i: int, k: int)
    requires
        0 <= i <= k <= s.len(),
        forall|m: int| i <= m < k ==> s[m] != '.',
        k < s.len() ==> s[k] == '.',
    ensures
        find_dot(s, i) == k,
    decreases k - i,
{
    if i < s.len() && s[i] != '.' {
        lemma_find_dot_at(s, i + 1, k);
    }
}

proof fn lemma_find_dot_bounds(s: Seq<char>, i: int)
    requires
        0 <= i <= s.len(),
    ensures
        i <= find_dot(s, i) <= s.len(),
        find_dot(s, i) < s.len() ==> s[find_dot(s, i)] == '.',
        forall|m: int| i <= m < find_dot(s, i) ==> s[m] != '.',
    decreases s.len() - i,
{
    if i < s.len() && s[i] != '.' {
        lemma_find_dot_bounds(s, i + 1);
    }
}

/// Verifies the framing and the signature of a wire token and extracts its
/// payload: `Some` exactly when the token is `jwt_of(secret, payload)` for
/// some payload.
pub open spec fn decode_jwt_spec(secret: Seq<char>, token: Seq<char>) -> Option<Seq<char>> {
    let hb = b64_of(encode_utf8(header_chars()));
    let d1 = find_dot(token, 0);
    if d1 == token.len() {
        None::<Seq<char>>
    } else {
        let d2 = find_dot(token, d1 + 1);
        if d2 == token.len() {
            None::<Seq<char>>
        } else if token.take(d1) != hb {
            None::<Seq<char>>
        } else {
            match b64_parse(token.subrange(d1 + 1, d2)) {
                None => None::<Seq<char>>,
                Some(bytes) => if !valid_utf8(bytes) {
                    None::<Seq<char>>
                } else {
                    if token.skip(d2 + 1) == hs256_tag(secret, token.take(d2)) {
                        Some(decode_utf8(bytes))
                    } else {
                        None::<Seq<char>>
                    }
                },
            }
        }
    }
}

/// Round trip: a token built by `jwt_of` decodes to its payload.
#[verifier::rlimit(100)]
#[verifier::spinoff_prover]
pub proof fn lemma_decode_jwt_of(secret: Seq<char>, payload: Seq<char>)
    ensures
        decode_jwt_spec(secret, jwt_of(secret, payload)) == Some(payload),
{
    let hb = b64_of(encode_utf8(header_chars()));
    let pb = b64_of(encode_utf8(payload));
    let si = signing_input(payload);
    let tag = hs256_tag(secret, si);
    let token = jwt_of(secret, payload);
    assert(token =~= hb + seq!['.'] + pb + seq!['.'] + tag);
    lemma_b64_of_chars(encode_utf8(header_chars()));
    lemma_b64_of_chars(encode_utf8(payload));
    assert(forall|m: int| 0 <= m < hb.len() ==> token[m] == hb[m]);
    assert(forall|m: int| 0 <= m < hb.len() ==> token[m] != '.') by {
        assert(forall|c: char| is_b64_char(c) ==> c != '.');
    }
    assert(token[hb.len() as int] == '.');
    lemma_find_dot_at(token, 0, hb.len() as int);
    let d1 = hb.len() as int;
    let d2 = d1 + 1 + pb.len() as int;
    assert(forall|m: int| d1 + 1 <= m < d2 ==> token[m] == pb[m - d1 - 1]);
    assert(forall|m: int| d1 + 1 <= m < d2 ==> token[m] != '.') by {
        assert(forall|c: char| is_b64_char(c) ==> c != '.');
    }
    assert(token[d2] == '.');
    lemma_find_dot_at(token, d1 + 1, d2);
    assert(token.take(d1) =~= hb);
    assert(token.subrange(d1 + 1, d2) =~= pb);
    lemma_b64_parse_of(encode_utf8(payload));
    encode_utf8_valid_utf8(payload);
    encode_utf8_decode_utf8(payload);
    assert(token.take(d2) =~= si);
    assert(token.skip(d2 + 1) =~= tag);
}

/// Canonicity: whatever decodes was built by `jwt_of` on its payload.
#[verifier::rlimit(100)]
#[verifier::spinoff_prover]
pub proof fn lemma_jwt_of_decode(secret: Seq<char>, token: Seq<char>)
    requires
        decode_jwt_spec(secret, token) is Some,
    ensures
        token == jwt_of(secret, decode_jwt_spec(secret, token)->Some_0),
{
    let hb = b64_of(encode_utf8(header_chars()));
    let d1 = find_dot(token, 0);
    lemma_find_dot_bounds(token, 0);
    let d2 = find_dot(token, d1 + 1);
    lemma_find_dot_bounds(token, d1 + 1);
    let pb = token.subrange(d1 + 1, d2);
    let bytes = b64_parse(pb)->Some_0;
    lemma_b64_of_parse(pb);
    let payload = decode_utf8(bytes);
    decode_utf8_encode_utf8(bytes);
    assert(b64_of(encode_utf8(payload)) == pb);
    assert(token.take(d2) =~= token.take(d1) + seq!['.'] + pb);
    assert(token.take(d2) == signing_input(payload));
    assert(token =~= token.take(d2) + seq!['.'] + token.skip(d2 + 1));
    assert(token =~= jwt_of(secret, payload));
}

/// Index of the first `.` at or after `i`, as executable code.
fn find_dot_exec(s: &str, i: usize) -> (r: usize)
    requires
        i <= s@.len(),
        s@.len() <= usize::MAX,
    ensures
        r == find_dot(s@, i as int),
        i <= r <= s@.len(),
{
    let n = s.unicode_len();
    let mut j = i;
    while j < n && s.get_char(j) != '.'
        invariant
            i <= j <= n,
            n == s@.len(),
            forall|m: int| i <= m < j ==> s@[m] != '.',
        decreases n - j,
    {
        j += 1;
    }
    proof {
        lemma_find_dot_at(s@, i as int, j as int);
    }
    j
}

/// Whether the characters of `s` between `from` and `to` equal `t`.
fn eq_range(s: &str, from: usize, to: usize, t: &str) -> (r: bool)
    requires
        from <= to <= s@.len(),
        s@.len() <= usize::MAX,
    ensures
        r == (s@.subrange(from as int, to as int) == t@),
{
    let m = t.unicode_len();
    if to - from != m {
        proof {
            assert(s@.subrange(from as int, to as int).len() != t@.len());
        }
        return false;
    }
    let mut k: usize = 0;
    while k < m
        invariant
            k <= m,
            m == t@.len(),
            from + m <= to <= s@.len(),
            to - from == m,
            forall|i: int| 0 <= i < k ==> s@[from + i] == t@[i],
        decreases m - k,
    {
        if s.get_char(from + k) != t.get_char(k) {
            proof {
                assert(s@.subrange(from as int, to as int)[k as int] != t@[k as int]);
            }
            return false;
        }
        k += 1;
    }
    proof {
        assert(s@.subrange(from as int, to as int) =~= t@);
    }
    true
}

/// Copies the characters of `s` between `from` and `to` into a new string.
fn range_to_string(s: &str, from: usize, to: usize) -> (r: String)
    requires
        from <= to <= s@.len(),
        s@.len() <= usize::MAX,
    ensures
        r@ == s@.subrange(from as int, to as int),
{
    let mut out = String::new();
    let mut k = from;
    while k < to
        invariant
            from <= k <= to <= s@.len(),
            out@ == s@.subrange(from as int, k as int),
        decreases to - k,
    {
        string_push(&mut out, s.get_char(k));
        proof {
            assert(s@.subrange(from as int, k as int) + seq![s@[k as int]] =~= s@.subrange(
                from as int,
                k as int + 1,
            ));
        }
        k += 1;
    }
    proof {
        assert(out@ =~= s@.subrange(from as int, to as int));
    }
    out
}

/// Builds `base64url(header) . base64url(payload) . signature` for the
/// given payload under `secret`.
fn encode_jwt(secret: &str, payload: &String) -> (r: String)
    ensures
        r@ == jwt_of(secret@, payload@),
{
    let header = "{\"typ\":\"JWT\",\"alg\":\"HS256\"}";
    let mut si = String::new();
    let hb = header.as_bytes_vec();
    proof {
        assert(hb@ == encode_utf8(header_chars()));
    }
    b64_append(&hb, &mut si);
    string_push(&mut si, '.');
    let pb = payload.as_str().as_bytes_vec();
    proof {
        assert(pb@ == encode_utf8(payload@));
    }
    b64_append(&pb, &mut si);
    proof {
        assert(si@ =~= signing_input(payload@));
    }
    let tag = hs256_sign(secret, si.as_str());
    let mut token = si;
    string_push(&mut token, '.');
    token.append(tag.as_str());
    proof {
        assert(token@ =~= jwt_of(secret@, payload@));
    }
    token
}

/// Checks framing and signature of a wire token and returns its payload;
/// mirrors `decode_jwt_spec`.
#[verifier::rlimit(100)]
#[verifier::spinoff_prover]
fn decode_jwt(secret: &str, token: &str) -> (r: Option<String>)
    ensures
        r is Some <==> decode_jwt_spec(secret@, token@) is Some,
        r matches Some(p) ==> decode_jwt_spec(secret@, token@) == Some(p@),
{
    let n = token.unicode_len();
    let d1 = find_dot_exec(token, 0);
    if d1 == n {
        return None;
    }
    let d2 = find_dot_exec(token, d1 + 1);
    if d2 == n {
        return None;
    }
    let header = "{\"typ\":\"JWT\",\"alg\":\"HS256\"}";
    let mut hb64 = String::new();
    let hb = header.as_bytes_vec();
    proof {
        assert(hb@ == encode_utf8(header_chars()));
    }
    b64_append(&hb, &mut hb64);
    if !eq_range(token, 0, d1, hb64.as_str()) {
        return None;
    }
    let bytes = match b64_decode_range(token, d1 + 1, d2) {
        Some(b) => b,
        None => {
            return None;
        },
    };
    let payload = match string_from_utf8(bytes) {
        Some(p) => p,
        None => {
            return None;
        },
    };
    let si = range_to_string(token, 0, d2);
    proof {
        assert(si@ == token@.take(d2 as int));
    }
    let tag = hs256_sign(secret, si.as_str());
    if !eq_range(token, d2 + 1, n, tag.as_str()) {
        proof {
            assert(token@.skip(d2 as int + 1) =~= token@.subrange(
                d2 as int + 1,
                token@.len() as int,
            ));
        }
        return None;
    }
    proof {
        assert(token@.skip(d2 as int + 1) =~= token@.subrange(d2 as int + 1, token@.len() as int));
    }
    Some(payload)
}

/// What decoding an access token at clock reading `now` settles, in both
/// directions: a success names a token signed with the decoding secret
/// whose expiry (plus leeway) has not passed, every such token is accepted
/// with exactly its embedded claims, and every failure is
/// `WrongCredentials`.
pub open spec fn access_decode_post(
    r: Result<AccessClaims, AuthError>,
    token: Seq<char>,
    secret: Seq<char>,
    now: u64,
    leeway: u64,
) -> bool {
    &&& (r matches Ok(c) ==> token == jwt_of(secret, access_json(c@)) && within_leeway(
        now,
        c.exp,
        leeway,
    ))
    &&& (forall|v: AccessClaimsView|
        token == jwt_of(secret, #[trigger] access_json(v)) && within_leeway(now, v.exp, leeway)
            ==> (r matches Ok(c) && c@ == v))
    &&& (r matches Err(e) ==> e == AuthError::WrongCredentials)
}

/// The same, over the refresh claims form.
pub open spec fn refresh_decode_post(
    r: Result<RefreshClaims, AuthError>,
    token: Seq<char>,
    secret: Seq<char>,
    now: u64,
    leeway: u64,
) -> bool {
    &&& (r matches Ok(c) ==> token == jwt_of(secret, refresh_json(c@)) && within_leeway(
        now,
        c.exp,
        leeway,
    ))
    &&& (forall|v: RefreshClaimsView|
        token == jwt_of(secret, #[trigger] refresh_json(v)) && within_leeway(now, v.exp, leeway)
            ==> (r matches Ok(c) && c@ == v))
    &&& (r matches Err(e) ==> e == AuthError::WrongCredentials)
}

/// Decodes an access token against `secret` at the given clock reading:
/// succeeds exactly on tokens this library issued under the same secret
/// whose expiry, with `leeway` added, has not passed. Every failure is
/// reported as `WrongCredentials`; the reason is deliberately not
/// distinguished to the caller.
#[verifier::rlimit(100)]
#[verifier::spinoff_prover]
pub fn decode_access_at(token: &str, secret: &str, now: u64, leeway: u64) -> (r: Result<
    AccessClaims,
    AuthError,
>)
    ensures
        access_decode_post(r, token@, secret@, now, leeway),
{
    let payload = match decode_jwt(secret, token) {
        Some(p) => p,
        None => {
            proof {
                assert forall|v: AccessClaimsView|
                    token@ == jwt_of(secret@, access_json(v)) implies false by {
                    lemma_decode_jwt_of(secret@, access_json(v));
                }
            }
            return Err(AuthError::WrongCredentials);
        },
    };
    let claims = match parse_access(payload.as_str()) {
        Some(c) => c,
        None => {
            proof {
                assert forall|v: AccessClaimsView|
                    token@ == jwt_of(secret@, access_json(v)) implies false by {
                    lemma_decode_jwt_of(secret@, access_json(v));
                    lemma_parse_access_of_json(v);
                }
            }
            return Err(AuthError::WrongCredentials);
        },
    };
    proof {
        lemma_access_json_of_parse(payload@);
        lemma_jwt_of_decode(secret@, token@);
    }
    if !crate::check_within_leeway(now, claims.exp, leeway) {
        proof {
            assert forall|v: AccessClaimsView|
                token@ == jwt_of(secret@, access_json(v)) && within_leeway(now, v.exp, leeway)
                implies false by {
                lemma_decode_jwt_of(secret@, access_json(v));
                lemma_parse_access_of_json(v);
            }
        }
        return Err(AuthError::WrongCredentials);
    }
    proof {
        assert forall|v: AccessClaimsView|
            token@ == jwt_of(secret@, access_json(v)) && within_leeway(now, v.exp, leeway)
            implies claims@ == v by {
            lemma_decode_jwt_of(secret@, access_json(v));
            lemma_parse_access_of_json(v);
        }
    }
    Ok(claims)
}

/// Decodes a refresh token; the same contract as `decode_access_at`, over
/// the refresh claims form.
#[verifier::rlimit(100)]
#[verifier::spinoff_prover]
pub fn decode_refresh_at(token: &str, secret: &str, now: u64, leeway: u64) -> (r: Result<
    RefreshClaims,
    AuthError,
>)
    ensures
        refresh_decode_post(r, token@, secret@, now, leeway),
{
    let payload = match decode_jwt(secret, token) {
        Some(p) => p,
        None => {
            proof {
                assert forall|v: RefreshClaimsView|
                    token@ == jwt_of(secret@, refresh_json(v)) implies false by {
                    lemma_decode_jwt_of(secret@, refresh_json(v));
                }
            }
            return Err(AuthError::WrongCredentials);
        },
    };
    let claims = match parse_refresh(payload.as_str()) {
        Some(c) => c,
        None => {
            proof {
                assert forall|v: RefreshClaimsView|
                    token@ == jwt_of(secret@, refresh_json(v)) implies false by {
                    lemma_decode_jwt_of(secret@, refresh_json(v));
                    lemma_parse_refresh_of_json(v);
                }
            }
            return Err(AuthError::WrongCredentials);
        },
    };
    proof {
        lemma_refresh_json_of_parse(payload@);
        lemma_jwt_of_decode(secret@, token@);
    }
    if !crate::check_within_leeway(now, claims.exp, leeway) {
        proof {
            assert forall|v: RefreshClaimsView|
                token@ == jwt_of(secret@, refresh_json(v)) && within_leeway(now, v.exp, leeway)
                implies false by {
                lemma_decode_jwt_of(secret@, refresh_json(v));
                lemma_parse_refresh_of_json(v);
            }
        }
        return Err(AuthError::WrongCredentials);
    }
    proof {
        assert forall|v: RefreshClaimsView|
            token@ == jwt_of(secret@, refresh_json(v)) && within_leeway(now, v.exp, leeway)
            implies claims@ == v by {
            lemma_decode_jwt_of(secret@, refresh_json(v));
            lemma_parse_refresh_of_json(v);
        }
    }
    Ok(claims)
}

/// Signs an access claims set into its wire token.
pub fn encode_access_claims(c: &AccessClaims, secret: &str) -> (r: String)
    ensures
        r@ == jwt_of(secret@, access_json(c@)),
{
    let mut payload = String::new();
    append_access_json(c, &mut payload);
    proof {
        assert(payload@ =~= access_json(c@));
    }
    encode_jwt(secret, &payload)
}

/// Signs a refresh claims set into its wire token.
pub fn encode_refresh_claims(c: &RefreshClaims, secret: &str) -> (r: String)
    ensures
        r@ == jwt_of(secret@, refresh_json(c@)),
{
    let mut payload = String::new();
    append_refresh_json(c, &mut payload);
    proof {
        assert(payload@ =~= refresh_json(c@));
    }
    encode_jwt(secret, &payload)
}

/// Decodes an access token with the configured secret and leeway, against
/// the current clock: at the clock reading the call took, the full
/// decoding contract holds, success direction included.
pub fn decode_access_token(token: &str, config: &Config) -> (r: Result<AccessClaims, AuthError>)
    ensures
        exists|now: u64|
            now <= 0x7fff_ffff_ffff_ffff && #[trigger] access_decode_post(
                r,
                token@,
                config.jwt_secret@,
                now,
                config.jwt_validation_leeway_seconds,
            ),
        r matches Ok(c) ==> token@ == jwt_of(config.jwt_secret@, access_json(c@)),
        r matches Err(e) ==> e == AuthError::WrongCredentials,
{
    let now = crate::service::now_seconds();
    let r = decode_access_at(
        token,
        config.jwt_secret.as_str(),
        now,
        config.jwt_validation_leeway_seconds,
    );
    proof {
        assert(access_decode_post(
            r,
            token@,
            config.jwt_secret@,
            now,
            config.jwt_validation_leeway_seconds,
        ));
    }
    r
}

/// Decodes a refresh token with the configured secret and leeway, against
/// the current clock: at the clock reading the call took, the full
/// decoding contract holds, success direction included.
pub fn decode_refresh_token(token: &str, config: &Config) -> (r: Result<RefreshClaims, AuthError>)
    ensures
        exists|now: u64|
            now <= 0x7fff_ffff_ffff_ffff && #[trigger] refresh_decode_post(
                r,
                token@,
                config.jwt_secret@,
                now,
                config.jwt_validation_leeway_seconds,
            ),
        r matches Ok(c) ==> token@ == jwt_of(config.jwt_secret@, refresh_json(c@)),
        r matches Err(e) ==> e == AuthError::WrongCredentials,
{
    let now = crate::service::now_seconds();
    let r = decode_refresh_at(
        token,
        config.jwt_secret.as_str(),
        now,
        config.jwt_validation_leeway_seconds,
    );
    proof {
        assert(refresh_decode_post(
            r,
            token@,
            config.jwt_secret@,
            now,
            config.jwt_validation_leeway_seconds,
        ));
    }
    r
}

} // verus!
