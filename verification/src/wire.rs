//! Canonical claims JSON: the exact byte-for-byte form the token codec
//! writes claim sets in, and a strict parser that accepts that form alone.
//! Serializer and parser are proved mutually inverse, which the token
//! round-trip guarantees rest on.

use vstd::prelude::*;

use crate::claims::{AccessClaims, AccessClaimsView, RefreshClaims, RefreshClaimsView};
use crate::jsonstr::{
    append_escaped, esc, lemma_esc_unesc, lemma_unesc_esc, parse_string_body, unesc,
};
use vstd::string::StringExecFns;

use crate::strings::{
    dec_of, dec_val, digit_val, is_digit, lemma_dec_of_form, push_dec, string_push,
};

verus! {

broadcast use vstd::string::group_string_axioms;

/// Strips `lit` off the front of `p`, or fails.
pub open spec fn strip_lit(p: Seq<char>, lit: Seq<char>) -> Option<Seq<char>> {
    if lit.len() <= p.len() && p.take(lit.len() as int) == lit {
        Some(p.skip(lit.len() as int))
    } else {
        None::<Seq<char>>
    }
}

pub proof fn lemma_strip_lit_prepend(lit: Seq<char>, rest: Seq<char>)
    ensures
        strip_lit(lit + rest, lit) == Some(rest),
{
    let p = lit + rest;
    assert(p.take(lit.len() as int) =~= lit);
    assert(p.skip(lit.len() as int) =~= rest);
}

pub proof fn lemma_strip_lit_undo(p: Seq<char>, lit: Seq<char>)
    requires
        strip_lit(p, lit) is Some,
    ensures
        p == lit + strip_lit(p, lit)->Some_0,
{
    assert(p =~= lit + p.skip(lit.len() as int));
}

/// Length of the run of decimal digits at the front of `p`.
pub open spec fn digit_run(p: Seq<char>) -> int
    decreases p.len(),
{
    if p.len() == 0 || !is_digit(p[0]) {
        0
    } else {
        1 + digit_run(p.drop_first())
    }
}

proof fn lemma_digit_run_at(p: Seq<char>, k: int)
    requires
        0 <= k <= p.len(),
        forall|m: int| 0 <= m < k ==> is_digit(p[m]),
        k < p.len() ==> !is_digit(p[k]),
    ensures
        digit_run(p) == k,
    decreases p.len(),
{
    if p.len() == 0 || !is_digit(p[0]) {
        assert(k == 0);
    } else {
        assert(k >= 1);
        let d = p.drop_first();
        assert(forall|m: int| 0 <= m < k - 1 ==> d[m] == p[m + 1] && is_digit(d[m]));
        assert(k - 1 < d.len() ==> d[k - 1] == p[k]);
        lemma_digit_run_at(d, k - 1);
    }
}

pub proof fn lemma_digit_run_bounds(p: Seq<char>)
    ensures
        0 <= digit_run(p) <= p.len(),
        forall|m: int| 0 <= m < digit_run(p) ==> is_digit(p[m]),
        digit_run(p) < p.len() ==> !is_digit(p[digit_run(p)]),
    decreases p.len(),
{
    if p.len() == 0 || !is_digit(p[0]) {
    } else {
        let d = p.drop_first();
        lemma_digit_run_bounds(d);
        assert(forall|m: int| 1 <= m < p.len() ==> p[m] == d[m - 1]);
    }
}

/// Strict parse of a canonical decimal number at the front of `p`: at least
/// one digit, no redundant leading zero, value fits in `u64`.
pub open spec fn num_strip(p: Seq<char>) -> Option<(u64, Seq<char>)> {
    let k = digit_run(p);
    if k == 0 {
        None::<(u64, Seq<char>)>
    } else if p[0] == crate::strings::digit_char(0) && k > 1 {
        None::<(u64, Seq<char>)>
    } else if dec_val(p.take(k)) > u64::MAX {
        None::<(u64, Seq<char>)>
    } else {
        Some((dec_val(p.take(k)) as u64, p.skip(k)))
    }
}

/// Appending more digits can only grow the value.
pub proof fn lemma_dec_val_grow(a: Seq<char>, b: Seq<char>)
    ensures
        dec_val(a) <= dec_val(a + b),
    decreases b.len(),
{
    if b.len() == 0 {
        assert(a + b =~= a);
    } else {
        lemma_dec_val_grow(a, b.drop_last());
        assert((a + b).drop_last() =~= a + b.drop_last());
        assert(dec_val(a + b) == dec_val(a + b.drop_last()) * 10 + digit_val((a + b).last()) as nat);
        assert(dec_val(a + b.drop_last()) * 10 >= dec_val(a + b.drop_last()));
    }
}

/// Round trip: a canonical number followed by a non-digit parses back.
pub proof fn lemma_num_strip_dec(n: u64, rest: Seq<char>)
    requires
        rest.len() == 0 || !is_digit(rest[0]),
    ensures
        num_strip(dec_of(n as nat) + rest) == Some((n, rest)),
{
    let d = dec_of(n as nat);
    let p = d + rest;
    lemma_dec_of_form(n as nat);
    assert(forall|m: int| 0 <= m < d.len() ==> p[m] == d[m]);
    assert(d.len() < p.len() ==> !is_digit(p[d.len() as int]));
    lemma_digit_run_at(p, d.len() as int);
    assert(p.take(d.len() as int) =~= d);
    assert(p.skip(d.len() as int) =~= rest);
    if n == 0 {
        assert(d == seq![crate::strings::digit_char(0)]);
        assert(digit_run(p) == 1);
    } else {
        assert(p[0] != crate::strings::digit_char(0));
    }
}

/// A canonical digit string is recovered from its value.
proof fn lemma_dec_of_val(s: Seq<char>)
    requires
        s.len() >= 1,
        forall|m: int| 0 <= m < s.len() ==> is_digit(#[trigger] s[m]),
        s[0] == crate::strings::digit_char(0) ==> s.len() == 1,
    ensures
        dec_of(dec_val(s)) == s,
        s[0] != crate::strings::digit_char(0) ==> dec_val(s) >= 1,
    decreases s.len(),
{
    let v = dec_val(s);
    if s.len() == 1 {
        let c = s[0];
        assert(s.last() == c);
        assert(s.drop_last() =~= Seq::<char>::empty());
        assert(dec_val(s.drop_last()) == 0);
        assert(dec_val(s) == dec_val(s.drop_last()) * 10 + digit_val(s.last()) as nat);
        assert(is_digit(c));
        assert(v == digit_val(c) as nat);
        assert(v < 10);
        assert(crate::strings::digit_char(v as int) == c) by {
            vstd::utf8::char_u32_cast(c, c as u32);
        }
        assert(dec_of(v) =~= s);
        if c != crate::strings::digit_char(0) {
            assert(digit_val(c) >= 1) by {
                vstd::utf8::char_u32_cast(c, c as u32);
            }
        }
    } else {
        let s0 = s.drop_last();
        let c = s.last();
        assert(forall|m: int| 0 <= m < s0.len() ==> s0[m] == s[m]);
        assert(s0[0] != crate::strings::digit_char(0));
        lemma_dec_of_val(s0);
        let a = dec_val(s0);
        let dv = digit_val(c);
        assert(v == a * 10 + dv as nat);
        assert(a >= 1);
        assert(v >= 10 && v / 10 == a && v % 10 == dv) by (nonlinear_arith)
            requires
                a >= 1,
                0 <= dv <= 9,
                v == a * 10 + dv as nat,
        ;
        assert(dec_of(v) == dec_of(a) + seq![crate::strings::digit_char(dv)]);
        assert(crate::strings::digit_char(digit_val(c)) == c) by {
            vstd::utf8::char_u32_cast(c, c as u32);
        }
        assert(dec_of(v) =~= s);
    }
}

/// Canonicity: anything `num_strip` accepts is a canonical number.
pub proof fn lemma_num_strip_undo(p: Seq<char>)
    requires
        num_strip(p) is Some,
    ensures
        p == dec_of(num_strip(p)->Some_0.0 as nat) + num_strip(p)->Some_0.1,
{
    let k = digit_run(p);
    lemma_digit_run_bounds(p);
    let s = p.take(k);
    assert(s.len() == k);
    assert(forall|m: int| 0 <= m < k ==> s[m] == p[m]);
    lemma_dec_of_val(s);
    assert(p =~= s + p.skip(k));
}

/// Once an accumulated prefix would overflow `u64`, the whole run does.
proof fn lemma_num_too_big(p: Seq<char>, k: int, m: int, acc: u64, d: u64)
    requires
        0 <= m < k <= p.len(),
        acc as nat == dec_val(p.take(m)),
        d as int == digit_val(p[m]),
        d <= 9,
        acc > (u64::MAX - d) / 10,
    ensures
        dec_val(p.take(k)) > u64::MAX,
{
    let pref = p.take(m + 1);
    assert(pref.drop_last() =~= p.take(m));
    assert(pref.last() == p[m]);
    assert(dec_val(pref) == acc as nat * 10 + d as nat);
    assert(acc as nat * 10 + d as nat > u64::MAX) by (nonlinear_arith)
        requires
            acc > (u64::MAX - d) / 10,
            d <= 9,
    ;
    lemma_dec_val_grow(pref, p.subrange(m + 1, k));
    assert(pref + p.subrange(m + 1, k) =~= p.take(k));
}

/// The next accumulation step stays inside `u64`.
proof fn lemma_acc_step_ok(acc: u64, d: u64)
    requires
        d <= 9,
        acc <= (u64::MAX - d) / 10,
    ensures
        acc as nat * 10 + d as nat <= u64::MAX,
{
    assert(acc as nat * 10 + d as nat <= u64::MAX) by (nonlinear_arith)
        requires
            acc <= (u64::MAX - d) / 10,
            d <= 9,
    ;
}

/// Whether `c` is a decimal digit, as executable code.
fn is_digit_exec(c: char) -> (r: bool)
    ensures
        r == is_digit(c),
{
    let u = c as u32;
    48 <= u && u <= 57
}

/// Expects the literal `lit` at position `i` of `s`; returns the position
/// after it.
fn expect_lit(s: &str, i: usize, lit: &str) -> (r: Option<usize>)
    requires
        i <= s@.len(),
        s@.len() <= usize::MAX,
    ensures
        r is Some <==> strip_lit(s@.skip(i as int), lit@) is Some,
        r matches Some(j) ==> i <= j <= s@.len() && j == i + lit@.len() && strip_lit(
            s@.skip(i as int),
            lit@,
        ) == Some(s@.skip(j as int)),
{
    let ghost p = s@.skip(i as int);
    let n = s.unicode_len();
    let m = lit.unicode_len();
    if n - i < m {
        proof {
            assert(p.len() < lit@.len());
        }
        return None;
    }
    let mut k: usize = 0;
    while k < m
        invariant
            k <= m,
            m == lit@.len(),
            n == s@.len(),
            i + m <= n,
            p == s@.skip(i as int),
            forall|t: int| 0 <= t < k ==> p[t] == lit@[t],
        decreases m - k,
    {
        let a = s.get_char(i + k);
        let b = lit.get_char(k);
        proof {
            assert(p[k as int] == s@[i + k]);
        }
        if a != b {
            proof {
                assert(p.take(m as int)[k as int] != lit@[k as int]);
            }
            return None;
        }
        k += 1;
    }
    proof {
        assert(p.take(m as int) =~= lit@);
        assert(p.skip(m as int) =~= s@.skip(i as int + m as int));
    }
    Some(i + m)
}

/// Parses a canonical decimal number at position `i` of `s`; mirrors
/// `num_strip`.
#[verifier::rlimit(100)]
#[verifier::spinoff_prover]
fn parse_number(s: &str, i: usize) -> (r: Option<(u64, usize)>)
    requires
        i <= s@.len(),
        s@.len() <= usize::MAX,
    ensures
        r is Some <==> num_strip(s@.skip(i as int)) is Some,
        r matches Some((v, j)) ==> i <= j <= s@.len() && num_strip(s@.skip(i as int)) == Some(
            (v, s@.skip(j as int)),
        ),
{
    let ghost p = s@.skip(i as int);
    let n = s.unicode_len();
    let mut j: usize = i;
    while j < n && is_digit_exec(s.get_char(j))
        invariant
            i <= j <= n,
            n == s@.len(),
            forall|m: int| i <= m < j ==> is_digit(s@[m]),
        decreases n - j,
    {
        j += 1;
    }
    proof {
        assert(forall|m: int| 0 <= m < j - i ==> p[m] == s@[i + m] && is_digit(p[m]));
        if j < n {
            assert(p[j - i] == s@[j as int] && !is_digit(p[j - i]));
        }
        lemma_digit_run_at(p, j - i);
    }
    if j == i {
        return None;
    }
    if s.get_char(i) == '0' && j > i + 1 {
        proof {
            assert(p[0] == s@[i as int]);
            assert(crate::strings::digit_char(0) == '0') by {
                vstd::utf8::char_u32_cast('0', '0' as u32);
            }
        }
        return None;
    }
    proof {
        assert(p[0] == s@[i as int]);
        if s@[i as int] != '0' {
            assert(p[0] != crate::strings::digit_char(0)) by {
                vstd::utf8::char_u32_cast('0', '0' as u32);
            }
        }
    }
    let ghost run = p.take(j - i);
    let mut acc: u64 = 0;
    let mut m: usize = i;
    while m < j
        invariant
            i <= m <= j <= n,
            n == s@.len(),
            p == s@.skip(i as int),
            run == p.take(j - i),
            digit_run(p) == j - i,
            j > i,
            !(p[0] == crate::strings::digit_char(0) && j - i > 1),
            forall|t: int| i <= t < j ==> is_digit(s@[t]) && s@[t] == p[t - i],
            acc as nat == dec_val(p.take(m - i)),
        decreases j - m,
    {
        let c = s.get_char(m);
        let d = (c as u32 - 48) as u64;
        proof {
            assert(is_digit(c) && d as int == digit_val(c));
        }
        if acc > (u64::MAX - d) / 10 {
            proof {
                lemma_num_too_big(p, j - i, m - i, acc, d);
            }
            return None;
        }
        proof {
            lemma_acc_step_ok(acc, d);
            let pref = p.take(m - i + 1);
            assert(pref.drop_last() =~= p.take(m - i));
            assert(pref.last() == p[m - i]);
        }
        acc = acc * 10 + d;
        m += 1;
    }
    proof {
        assert(p.take(m - i) =~= run);
        assert(p.skip(j - i) =~= s@.skip(j as int));
    }
    Some((acc, j))
}


/// Literal fragments of the canonical claims JSON.
pub open spec fn l_sub() -> Seq<char> {
    seq!['{', '"', 's', 'u', 'b', '"', ':', '"']
}

pub open spec fn l_jti() -> Seq<char> {
    seq![',', '"', 'j', 't', 'i', '"', ':', '"']
}

pub open spec fn l_iat() -> Seq<char> {
    seq![',', '"', 'i', 'a', 't', '"', ':']
}

pub open spec fn l_exp() -> Seq<char> {
    seq![',', '"', 'e', 'x', 'p', '"', ':']
}

pub open spec fn l_prf() -> Seq<char> {
    seq![',', '"', 'p', 'r', 'f', '"', ':', '"']
}

pub open spec fn l_pex() -> Seq<char> {
    seq![',', '"', 'p', 'e', 'x', '"', ':']
}

pub open spec fn l_typ() -> Seq<char> {
    seq![',', '"', 't', 'y', 'p', '"', ':']
}

pub open spec fn l_roles() -> Seq<char> {
    seq![',', '"', 'r', 'o', 'l', 'e', 's', '"', ':', '"']
}

pub open spec fn l_end() -> Seq<char> {
    seq!['}']
}

/// A string body with its closing quote.
pub open spec fn sb(s: Seq<char>) -> Seq<char> {
    esc(s) + seq!['"']
}

/// The canonical JSON form of an access claims set.
pub open spec fn access_json(v: AccessClaimsView) -> Seq<char> {
    l_sub() + sb(v.sub) + l_jti() + sb(v.jti) + l_iat() + dec_of(v.iat as nat) + l_exp() + dec_of(
        v.exp as nat,
    ) + l_typ() + dec_of(v.typ as nat) + l_roles() + sb(v.roles) + l_end()
}

/// The canonical JSON form of a refresh claims set.
pub open spec fn refresh_json(v: RefreshClaimsView) -> Seq<char> {
    l_sub() + sb(v.sub) + l_jti() + sb(v.jti) + l_iat() + dec_of(v.iat as nat) + l_exp() + dec_of(
        v.exp as nat,
    ) + l_prf() + sb(v.prf) + l_pex() + dec_of(v.pex as nat) + l_typ() + dec_of(v.typ as nat)
        + l_roles() + sb(v.roles) + l_end()
}

/// Strict parse of the canonical access claims JSON; `Some` exactly on
/// strings `access_json` produces.
pub open spec fn parse_access_json(p: Seq<char>) -> Option<AccessClaimsView> {
    match strip_lit(p, l_sub()) {
        None => None::<AccessClaimsView>,
        Some(p1) => match unesc(p1) {
            None => None::<AccessClaimsView>,
            Some(sub_r) => match strip_lit(sub_r.1, l_jti()) {
                None => None::<AccessClaimsView>,
                Some(p2) => match unesc(p2) {
                    None => None::<AccessClaimsView>,
                    Some(jti_r) => match strip_lit(jti_r.1, l_iat()) {
                        None => None::<AccessClaimsView>,
                        Some(p3) => match num_strip(p3) {
                            None => None::<AccessClaimsView>,
                            Some(iat_r) => match strip_lit(iat_r.1, l_exp()) {
                                None => None::<AccessClaimsView>,
                                Some(p4) => match num_strip(p4) {
                                    None => None::<AccessClaimsView>,
                                    Some(exp_r) => match strip_lit(exp_r.1, l_typ()) {
                                        None => None::<AccessClaimsView>,
                                        Some(p5) => match num_strip(p5) {
                                            None => None::<AccessClaimsView>,
                                            Some(typ_r) => if typ_r.0 > 255 {
                                                None::<AccessClaimsView>
                                            } else {
                                                match strip_lit(typ_r.1, l_roles()) {
                                                    None => None::<AccessClaimsView>,
                                                    Some(p6) => match unesc(p6) {
                                                        None => None::<AccessClaimsView>,
                                                        Some(roles_r) => match strip_lit(
                                                            roles_r.1,
                                                            l_end(),
                                                        ) {
                                                            None => None::<AccessClaimsView>,
                                                            Some(p7) => if p7.len() == 0 {
                                                                Some(
                                                                    AccessClaimsView {
                                                                        sub: sub_r.0,
                                                                        jti: jti_r.0,
                                                                        iat: iat_r.0,
                                                                        exp: exp_r.0,
                                                                        typ: typ_r.0 as u8,
                                                                        roles: roles_r.0,
                                                                    },
                                                                )
                                                            } else {
                                                                None::<AccessClaimsView>
                                                            },
                                                        },
                                                    },
                                                }
                                            },
                                        },
                                    },
                                },
                            },
                        },
                    },
                },
            },
        },
    }
}

/// Strict parse of the canonical refresh claims JSON.
pub open spec fn parse_refresh_json(p: Seq<char>) -> Option<RefreshClaimsView> {
    match strip_lit(p, l_sub()) {
        None => None::<RefreshClaimsView>,
        Some(p1) => match unesc(p1) {
            None => None::<RefreshClaimsView>,
            Some(sub_r) => match strip_lit(sub_r.1, l_jti()) {
                None => None::<RefreshClaimsView>,
                Some(p2) => match unesc(p2) {
                    None => None::<RefreshClaimsView>,
                    Some(jti_r) => match strip_lit(jti_r.1, l_iat()) {
                        None => None::<RefreshClaimsView>,
                        Some(p3) => match num_strip(p3) {
                            None => None::<RefreshClaimsView>,
                            Some(iat_r) => match strip_lit(iat_r.1, l_exp()) {
                                None => None::<RefreshClaimsView>,
                                Some(p4) => match num_strip(p4) {
                                    None => None::<RefreshClaimsView>,
                                    Some(exp_r) => match strip_lit(exp_r.1, l_prf()) {
                                        None => None::<RefreshClaimsView>,
                                        Some(p5) => match unesc(p5) {
                                            None => None::<RefreshClaimsView>,
                                            Some(prf_r) => match strip_lit(prf_r.1, l_pex()) {
                                                None => None::<RefreshClaimsView>,
                                                Some(p6) => match num_strip(p6) {
                                                    None => None::<RefreshClaimsView>,
                                                    Some(pex_r) => match strip_lit(
                                                        pex_r.1,
                                                        l_typ(),
                                                    ) {
                                                        None => None::<RefreshClaimsView>,
                                                        Some(p7) => match num_strip(p7) {
                                                            None => None::<RefreshClaimsView>,
                                                            Some(typ_r) => if typ_r.0 > 255 {
                                                                None::<RefreshClaimsView>
                                                            } else {
                                                                match strip_lit(
                                                                    typ_r.1,
                                                                    l_roles(),
                                                                ) {
                                                                    None => None::<
                                                                        RefreshClaimsView,
                                                                    >,
                                                                    Some(p8) => match unesc(p8) {
                                                                        None => None::<
                                                                            RefreshClaimsView,
                                                                        >,
                                                                        Some(roles_r) => match strip_lit(
                                                                            roles_r.1,
                                                                            l_end(),
                                                                        ) {
                                                                            None => None::<
                                                                                RefreshClaimsView,
                                                                            >,
                                                                            Some(p9) => if p9.len()
                                                                                == 0 {
                                                                                Some(
                                                                                    RefreshClaimsView {
                                                                                        sub: sub_r.0,
                                                                                        jti: jti_r.0,
                                                                                        iat: iat_r.0,
                                                                                        exp: exp_r.0,
                                                                                        prf: prf_r.0,
                                                                                        pex: pex_r.0,
                                                                                        typ: typ_r.0 as u8,
                                                                                        roles: roles_r.0,
                                                                                    },
                                                                                )
                                                                            } else {
                                                                                None::<
                                                                                    RefreshClaimsView,
                                                                                >
                                                                            },
                                                                        },
                                                                    },
                                                                }
                                                            },
                                                        },
                                                    },
                                                },
                                            },
                                        },
                                    },
                                },
                            },
                        },
                    },
                },
            },
        },
    }
}

/// Round trip: the canonical access JSON parses back to its claims view.
#[verifier::rlimit(100)]
#[verifier::spinoff_prover]
pub proof fn lemma_parse_access_of_json(v: AccessClaimsView)
    ensures
        parse_access_json(access_json(v)) == Some(v),
{
    let r7: Seq<char> = Seq::<char>::empty();
    let r6 = l_end() + r7;
    let r5 = sb(v.roles) + r6;
    let r4 = l_roles() + r5;
    let r3b = dec_of(v.typ as nat) + r4;
    let r3a = l_typ() + r3b;
    let r3 = dec_of(v.exp as nat) + r3a;
    let r2b = l_exp() + r3;
    let r2a = dec_of(v.iat as nat) + r2b;
    let r2 = l_iat() + r2a;
    let r1b = sb(v.jti) + r2;
    let r1a = l_jti() + r1b;
    let r1 = sb(v.sub) + r1a;
    let p = access_json(v);
    assert(p =~= l_sub() + r1);
    lemma_strip_lit_prepend(l_sub(), r1);
    assert(r1 =~= esc(v.sub) + seq!['"'] + r1a);
    lemma_unesc_esc(v.sub, r1a);
    lemma_strip_lit_prepend(l_jti(), r1b);
    assert(r1b =~= esc(v.jti) + seq!['"'] + r2);
    lemma_unesc_esc(v.jti, r2);
    lemma_strip_lit_prepend(l_iat(), r2a);
    assert(!is_digit(r2b[0]));
    lemma_num_strip_dec(v.iat, r2b);
    lemma_strip_lit_prepend(l_exp(), r3);
    assert(!is_digit(r3a[0]));
    lemma_num_strip_dec(v.exp, r3a);
    lemma_strip_lit_prepend(l_typ(), r3b);
    assert(!is_digit(r4[0]));
    lemma_num_strip_dec(v.typ as u64, r4);
    lemma_strip_lit_prepend(l_roles(), r5);
    assert(r5 =~= esc(v.roles) + seq!['"'] + r6);
    lemma_unesc_esc(v.roles, r6);
    lemma_strip_lit_prepend(l_end(), r7);
    assert(parse_access_json(p) == Some(
        AccessClaimsView {
            sub: v.sub,
            jti: v.jti,
            iat: v.iat,
            exp: v.exp,
            typ: (v.typ as u64) as u8,
            roles: v.roles,
        },
    ));
    assert(AccessClaimsView {
        sub: v.sub,
        jti: v.jti,
        iat: v.iat,
        exp: v.exp,
        typ: (v.typ as u64) as u8,
        roles: v.roles,
    } == v);
}

/// Round trip: the canonical refresh JSON parses back to its claims view.
#[verifier::rlimit(100)]
#[verifier::spinoff_prover]
pub proof fn lemma_parse_refresh_of_json(v: RefreshClaimsView)
    ensures
        parse_refresh_json(refresh_json(v)) == Some(v),
{
    let r9: Seq<char> = Seq::<char>::empty();
    let r8 = l_end() + r9;
    let r7 = sb(v.roles) + r8;
    let r6 = l_roles() + r7;
    let r5b = dec_of(v.typ as nat) + r6;
    let r5a = l_typ() + r5b;
    let r5 = dec_of(v.pex as nat) + r5a;
    let r4b = l_pex() + r5;
    let r4a = sb(v.prf) + r4b;
    let r4 = l_prf() + r4a;
    let r3 = dec_of(v.exp as nat) + r4;
    let r2b = l_exp() + r3;
    let r2a = dec_of(v.iat as nat) + r2b;
    let r2 = l_iat() + r2a;
    let r1b = sb(v.jti) + r2;
    let r1a = l_jti() + r1b;
    let r1 = sb(v.sub) + r1a;
    let p = refresh_json(v);
    assert(p =~= l_sub() + r1);
    lemma_strip_lit_prepend(l_sub(), r1);
    assert(r1 =~= esc(v.sub) + seq!['"'] + r1a);
    lemma_unesc_esc(v.sub, r1a);
    lemma_strip_lit_prepend(l_jti(), r1b);
    assert(r1b =~= esc(v.jti) + seq!['"'] + r2);
    lemma_unesc_esc(v.jti, r2);
    lemma_strip_lit_prepend(l_iat(), r2a);
    assert(!is_digit(r2b[0]));
    lemma_num_strip_dec(v.iat, r2b);
    lemma_strip_lit_prepend(l_exp(), r3);
    assert(!is_digit(r4[0]));
    lemma_num_strip_dec(v.exp, r4);
    lemma_strip_lit_prepend(l_prf(), r4a);
    assert(r4a =~= esc(v.prf) + seq!['"'] + r4b);
    lemma_unesc_esc(v.prf, r4b);
    lemma_strip_lit_prepend(l_pex(), r5);
    assert(!is_digit(r5a[0]));
    lemma_num_strip_dec(v.pex, r5a);
    lemma_strip_lit_prepend(l_typ(), r5b);
    assert(!is_digit(r6[0]));
    lemma_num_strip_dec(v.typ as u64, r6);
    lemma_strip_lit_prepend(l_roles(), r7);
    assert(r7 =~= esc(v.roles) + seq!['"'] + r8);
    lemma_unesc_esc(v.roles, r8);
    lemma_strip_lit_prepend(l_end(), r9);
    assert(parse_refresh_json(p) == Some(
        RefreshClaimsView {
            sub: v.sub,
            jti: v.jti,
            iat: v.iat,
            exp: v.exp,
            prf: v.prf,
            pex: v.pex,
            typ: (v.typ as u64) as u8,
            roles: v.roles,
        },
    ));
    assert(RefreshClaimsView {
        sub: v.sub,
        jti: v.jti,
        iat: v.iat,
        exp: v.exp,
        prf: v.prf,
        pex: v.pex,
        typ: (v.typ as u64) as u8,
        roles: v.roles,
    } == v);
}

/// Canonicity: whatever the access parser accepts is the canonical JSON of
/// its result.
#[verifier::rlimit(100)]
#[verifier::spinoff_prover]
pub proof fn lemma_access_json_of_parse(p: Seq<char>)
    requires
        parse_access_json(p) is Some,
    ensures
        p == access_json(parse_access_json(p)->Some_0),
{
    let p1 = strip_lit(p, l_sub())->Some_0;
    lemma_strip_lit_undo(p, l_sub());
    let sub_r = unesc(p1)->Some_0;
    lemma_esc_unesc(p1);
    let p2 = strip_lit(sub_r.1, l_jti())->Some_0;
    lemma_strip_lit_undo(sub_r.1, l_jti());
    let jti_r = unesc(p2)->Some_0;
    lemma_esc_unesc(p2);
    let p3 = strip_lit(jti_r.1, l_iat())->Some_0;
    lemma_strip_lit_undo(jti_r.1, l_iat());
    let iat_r = num_strip(p3)->Some_0;
    lemma_num_strip_undo(p3);
    let p4 = strip_lit(iat_r.1, l_exp())->Some_0;
    lemma_strip_lit_undo(iat_r.1, l_exp());
    let exp_r = num_strip(p4)->Some_0;
    lemma_num_strip_undo(p4);
    let p5 = strip_lit(exp_r.1, l_typ())->Some_0;
    lemma_strip_lit_undo(exp_r.1, l_typ());
    let typ_r = num_strip(p5)->Some_0;
    lemma_num_strip_undo(p5);
    let p6 = strip_lit(typ_r.1, l_roles())->Some_0;
    lemma_strip_lit_undo(typ_r.1, l_roles());
    let roles_r = unesc(p6)->Some_0;
    lemma_esc_unesc(p6);
    let p7 = strip_lit(roles_r.1, l_end())->Some_0;
    lemma_strip_lit_undo(roles_r.1, l_end());
    let v = parse_access_json(p)->Some_0;
    assert(dec_of(v.iat as nat) == dec_of(iat_r.0 as nat));
    assert(dec_of(v.typ as nat) == dec_of(typ_r.0 as nat));
    assert(p =~= access_json(v));
}

/// Canonicity: whatever the refresh parser accepts is the canonical JSON of
/// its result.
#[verifier::rlimit(100)]
#[verifier::spinoff_prover]
pub proof fn lemma_refresh_json_of_parse(p: Seq<char>)
    requires
        parse_refresh_json(p) is Some,
    ensures
        p == refresh_json(parse_refresh_json(p)->Some_0),
{
    let p1 = strip_lit(p, l_sub())->Some_0;
    lemma_strip_lit_undo(p, l_sub());
    let sub_r = unesc(p1)->Some_0;
    lemma_esc_unesc(p1);
    let p2 = strip_lit(sub_r.1, l_jti())->Some_0;
    lemma_strip_lit_undo(sub_r.1, l_jti());
    let jti_r = unesc(p2)->Some_0;
    lemma_esc_unesc(p2);
    let p3 = strip_lit(jti_r.1, l_iat())->Some_0;
    lemma_strip_lit_undo(jti_r.1, l_iat());
    let iat_r = num_strip(p3)->Some_0;
    lemma_num_strip_undo(p3);
    let p4 = strip_lit(iat_r.1, l_exp())->Some_0;
    lemma_strip_lit_undo(iat_r.1, l_exp());
    let exp_r = num_strip(p4)->Some_0;
    lemma_num_strip_undo(p4);
    let p5 = strip_lit(exp_r.1, l_prf())->Some_0;
    lemma_strip_lit_undo(exp_r.1, l_prf());
    let prf_r = unesc(p5)->Some_0;
    lemma_esc_unesc(p5);
    let p6 = strip_lit(prf_r.1, l_pex())->Some_0;
    lemma_strip_lit_undo(prf_r.1, l_pex());
    let pex_r = num_strip(p6)->Some_0;
    lemma_num_strip_undo(p6);
    let p7 = strip_lit(pex_r.1, l_typ())->Some_0;
    lemma_strip_lit_undo(pex_r.1, l_typ());
    let typ_r = num_strip(p7)->Some_0;
    lemma_num_strip_undo(p7);
    let p8 = strip_lit(typ_r.1, l_roles())->Some_0;
    lemma_strip_lit_undo(typ_r.1, l_roles());
    let roles_r = unesc(p8)->Some_0;
    lemma_esc_unesc(p8);
    let p9 = strip_lit(roles_r.1, l_end())->Some_0;
    lemma_strip_lit_undo(roles_r.1, l_end());
    let v = parse_refresh_json(p)->Some_0;
    assert(dec_of(v.iat as nat) == dec_of(iat_r.0 as nat));
    assert(dec_of(v.typ as nat) == dec_of(typ_r.0 as nat));
    assert(p =~= refresh_json(v));
}


/// Writes the canonical JSON form of an access claims set.
#[verifier::rlimit(100)]
pub fn append_access_json(c: &AccessClaims, out: &mut String)
    ensures
        final(out)@ == old(out)@ + access_json(c@),
{
    proof {
        reveal_strlit("{\"sub\":\"");
        reveal_strlit(",\"jti\":\"");
        reveal_strlit(",\"iat\":");
        reveal_strlit(",\"exp\":");
        reveal_strlit(",\"typ\":");
        reveal_strlit(",\"roles\":\"");
        assert("{\"sub\":\""@ =~= l_sub());
        assert(",\"jti\":\""@ =~= l_jti());
        assert(",\"iat\":"@ =~= l_iat());
        assert(",\"exp\":"@ =~= l_exp());
        assert(",\"typ\":"@ =~= l_typ());
        assert(",\"roles\":\""@ =~= l_roles());
    }
    out.append("{\"sub\":\"");
    append_escaped(c.sub.as_str(), out);
    string_push(out, '"');
    out.append(",\"jti\":\"");
    append_escaped(c.jti.as_str(), out);
    string_push(out, '"');
    out.append(",\"iat\":");
    push_dec(c.iat, out);
    out.append(",\"exp\":");
    push_dec(c.exp, out);
    out.append(",\"typ\":");
    push_dec(c.typ as u64, out);
    out.append(",\"roles\":\"");
    append_escaped(c.roles.as_str(), out);
    string_push(out, '"');
    string_push(out, '}');
    proof {
        assert(dec_of((c.typ as u64) as nat) == dec_of(c@.typ as nat));
        assert(out@ =~= old(out)@ + access_json(c@));
    }
}

/// Writes the canonical JSON form of a refresh claims set.
#[verifier::rlimit(100)]
pub fn append_refresh_json(c: &RefreshClaims, out: &mut String)
    ensures
        final(out)@ == old(out)@ + refresh_json(c@),
{
    proof {
        reveal_strlit("{\"sub\":\"");
        reveal_strlit(",\"jti\":\"");
        reveal_strlit(",\"iat\":");
        reveal_strlit(",\"exp\":");
        reveal_strlit(",\"prf\":\"");
        reveal_strlit(",\"pex\":");
        reveal_strlit(",\"typ\":");
        reveal_strlit(",\"roles\":\"");
        assert("{\"sub\":\""@ =~= l_sub());
        assert(",\"jti\":\""@ =~= l_jti());
        assert(",\"iat\":"@ =~= l_iat());
        assert(",\"exp\":"@ =~= l_exp());
        assert(",\"prf\":\""@ =~= l_prf());
        assert(",\"pex\":"@ =~= l_pex());
        assert(",\"typ\":"@ =~= l_typ());
        assert(",\"roles\":\""@ =~= l_roles());
    }
    out.append("{\"sub\":\"");
    append_escaped(c.sub.as_str(), out);
    string_push(out, '"');
    out.append(",\"jti\":\"");
    append_escaped(c.jti.as_str(), out);
    string_push(out, '"');
    out.append(",\"iat\":");
    push_dec(c.iat, out);
    out.append(",\"exp\":");
    push_dec(c.exp, out);
    out.append(",\"prf\":\"");
    append_escaped(c.prf.as_str(), out);
    string_push(out, '"');
    out.append(",\"pex\":");
    push_dec(c.pex, out);
    out.append(",\"typ\":");
    push_dec(c.typ as u64, out);
    out.append(",\"roles\":\"");
    append_escaped(c.roles.as_str(), out);
    string_push(out, '"');
    string_push(out, '}');
    proof {
        assert(dec_of((c.typ as u64) as nat) == dec_of(c@.typ as nat));
        assert(out@ =~= old(out)@ + refresh_json(c@));
    }
}

/// Parses the canonical JSON form of an access claims set; mirrors
/// `parse_access_json`.
#[verifier::rlimit(100)]
#[verifier::spinoff_prover]
pub fn parse_access(payload: &str) -> (r: Option<AccessClaims>)
    ensures
        r is Some <==> parse_access_json(payload@) is Some,
        r matches Some(c) ==> parse_access_json(payload@) == Some(c@),
{
    let n = payload.unicode_len();
    proof {
        reveal_strlit("{\"sub\":\"");
        reveal_strlit(",\"jti\":\"");
        reveal_strlit(",\"iat\":");
        reveal_strlit(",\"exp\":");
        reveal_strlit(",\"typ\":");
        reveal_strlit(",\"roles\":\"");
        reveal_strlit("}");
        assert("{\"sub\":\""@ =~= l_sub());
        assert(",\"jti\":\""@ =~= l_jti());
        assert(",\"iat\":"@ =~= l_iat());
        assert(",\"exp\":"@ =~= l_exp());
        assert(",\"typ\":"@ =~= l_typ());
        assert(",\"roles\":\""@ =~= l_roles());
        assert("}"@ =~= l_end());
        assert(payload@.skip(0) =~= payload@);
    }
    let i1 = match expect_lit(payload, 0, "{\"sub\":\"") {
        Some(j) => j,
        None => {
            return None;
        },
    };
    let (sub, i2) = match parse_string_body(payload, i1) {
        Some(t) => t,
        None => {
            return None;
        },
    };
    let i3 = match expect_lit(payload, i2, ",\"jti\":\"") {
        Some(j) => j,
        None => {
            return None;
        },
    };
    let (jti, i4) = match parse_string_body(payload, i3) {
        Some(t) => t,
        None => {
            return None;
        },
    };
    let i5 = match expect_lit(payload, i4, ",\"iat\":") {
        Some(j) => j,
        None => {
            return None;
        },
    };
    let (iat, i6) = match parse_number(payload, i5) {
        Some(t) => t,
        None => {
            return None;
        },
    };
    let i7 = match expect_lit(payload, i6, ",\"exp\":") {
        Some(j) => j,
        None => {
            return None;
        },
    };
    let (exp, i8) = match parse_number(payload, i7) {
        Some(t) => t,
        None => {
            return None;
        },
    };
    let i9 = match expect_lit(payload, i8, ",\"typ\":") {
        Some(j) => j,
        None => {
            return None;
        },
    };
    let (typ64, i10) = match parse_number(payload, i9) {
        Some(t) => t,
        None => {
            return None;
        },
    };
    if typ64 > 255 {
        return None;
    }
    let i11 = match expect_lit(payload, i10, ",\"roles\":\"") {
        Some(j) => j,
        None => {
            return None;
        },
    };
    let (roles, i12) = match parse_string_body(payload, i11) {
        Some(t) => t,
        None => {
            return None;
        },
    };
    let i13 = match expect_lit(payload, i12, "}") {
        Some(j) => j,
        None => {
            return None;
        },
    };
    if i13 != n {
        proof {
            assert(payload@.skip(i13 as int).len() != 0);
        }
        return None;
    }
    proof {
        assert(payload@.skip(i13 as int).len() == 0);
    }
    Some(
        AccessClaims {
            sub,
            jti,
            iat,
            exp,
            typ: typ64 as u8,
            roles,
        },
    )
}

/// Parses the canonical JSON form of a refresh claims set; mirrors
/// `parse_refresh_json`.
#[verifier::rlimit(100)]
#[verifier::spinoff_prover]
pub fn parse_refresh(payload: &str) -> (r: Option<RefreshClaims>)
    ensures
        r is Some <==> parse_refresh_json(payload@) is Some,
        r matches Some(c) ==> parse_refresh_json(payload@) == Some(c@),
{
    let n = payload.unicode_len();
    proof {
        reveal_strlit("{\"sub\":\"");
        reveal_strlit(",\"jti\":\"");
        reveal_strlit(",\"iat\":");
        reveal_strlit(",\"exp\":");
        reveal_strlit(",\"prf\":\"");
        reveal_strlit(",\"pex\":");
        reveal_strlit(",\"typ\":");
        reveal_strlit(",\"roles\":\"");
        reveal_strlit("}");
        assert("{\"sub\":\""@ =~= l_sub());
        assert(",\"jti\":\""@ =~= l_jti());
        assert(",\"iat\":"@ =~= l_iat());
        assert(",\"exp\":"@ =~= l_exp());
        assert(",\"prf\":\""@ =~= l_prf());
        assert(",\"pex\":"@ =~= l_pex());
        assert(",\"typ\":"@ =~= l_typ());
        assert(",\"roles\":\""@ =~= l_roles());
        assert("}"@ =~= l_end());
        assert(payload@.skip(0) =~= payload@);
    }
    let i1 = match expect_lit(payload, 0, "{\"sub\":\"") {
        Some(j) => j,
        None => {
            return None;
        },
    };
    let (sub, i2) = match parse_string_body(payload, i1) {
        Some(t) => t,
        None => {
            return None;
        },
    };
    let i3 = match expect_lit(payload, i2, ",\"jti\":\"") {
        Some(j) => j,
        None => {
            return None;
        },
    };
    let (jti, i4) = match parse_string_body(payload, i3) {
        Some(t) => t,
        None => {
            return None;
        },
    };
    let i5 = match expect_lit(payload, i4, ",\"iat\":") {
        Some(j) => j,
        None => {
            return None;
        },
    };
    let (iat, i6) = match parse_number(payload, i5) {
        Some(t) => t,
        None => {
            return None;
        },
    };
    let i7 = match expect_lit(payload, i6, ",\"exp\":") {
        Some(j) => j,
        None => {
            return None;
        },
    };
    let (exp, i8) = match parse_number(payload, i7) {
        Some(t) => t,
        None => {
            return None;
        },
    };
    let i9 = match expect_lit(payload, i8, ",\"prf\":\"") {
        Some(j) => j,
        None => {
            return None;
        },
    };
    let (prf, i10) = match parse_string_body(payload, i9) {
        Some(t) => t,
        None => {
            return None;
        },
    };
    let i11 = match expect_lit(payload, i10, ",\"pex\":") {
        Some(j) => j,
        None => {
            return None;
        },
    };
    let (pex, i12) = match parse_number(payload, i11) {
        Some(t) => t,
        None => {
            return None;
        },
    };
    let i13 = match expect_lit(payload, i12, ",\"typ\":") {
        Some(j) => j,
        None => {
            return None;
        },
    };
    let (typ64, i14) = match parse_number(payload, i13) {
        Some(t) => t,
        None => {
            return None;
        },
    };
    if typ64 > 255 {
        return None;
    }
    let i15 = match expect_lit(payload, i14, ",\"roles\":\"") {
        Some(j) => j,
        None => {
            return None;
        },
    };
    let (roles, i16) = match parse_string_body(payload, i15) {
        Some(t) => t,
        None => {
            return None;
        },
    };
    let i17 = match expect_lit(payload, i16, "}") {
        Some(j) => j,
        None => {
            return None;
        },
    };
    if i17 != n {
        proof {
            assert(payload@.skip(i17 as int).len() != 0);
        }
        return None;
    }
    proof {
        assert(payload@.skip(i17 as int).len() == 0);
    }
    Some(
        RefreshClaims {
            sub,
            jti,
            iat,
            exp,
            prf,
            pex,
            typ: typ64 as u8,
            roles,
        },
    )
}

} // verus!


