//! Base64url without padding, the alphabet and framing used by JWT parts.
//!
//! `b64_of` is the canonical encoding; `b64_parse` accepts exactly the
//! strings that `b64_of` produces (non-zero trailing bits are rejected), so
//! the two are mutually inverse.

use vstd::prelude::*;

use crate::strings::{char_from_code, string_push};

verus! {

/// The base64url digit for a 6-bit value.
pub open spec fn b64_char(v: int) -> char {
    if v < 26 {
        ((65 + v) as u32) as char
    } else if v < 52 {
        ((97 + (v - 26)) as u32) as char
    } else if v < 62 {
        ((48 + (v - 52)) as u32) as char
    } else if v == 62 {
        45u32 as char
    } else {
        95u32 as char
    }
}

/// Whether `c` is a base64url digit.
pub open spec fn is_b64_char(c: char) -> bool {
    let u = c as u32;
    (65 <= u <= 90) || (97 <= u <= 122) || (48 <= u <= 57) || u == 45 || u == 95
}

/// The 6-bit value of a base64url digit.
pub open spec fn b64_val(c: char) -> int {
    let u = c as u32;
    if 65 <= u <= 90 {
        u - 65
    } else if 97 <= u <= 122 {
        u - 97 + 26
    } else if 48 <= u <= 57 {
        u - 48 + 52
    } else if u == 45 {
        62
    } else {
        63
    }
}

pub proof fn lemma_b64_char_val(v: int)
    requires
        0 <= v < 64,
    ensures
        is_b64_char(b64_char(v)),
        b64_val(b64_char(v)) == v,
{
}

/// Canonical base64url encoding, no padding.
pub open spec fn b64_of(bytes: Seq<u8>) -> Seq<char>
    decreases bytes.len(),
{
    if bytes.len() == 0 {
        Seq::<char>::empty()
    } else if bytes.len() == 1 {
        let a = bytes[0] as int;
        seq![b64_char(a / 4), b64_char((a % 4) * 16)]
    } else if bytes.len() == 2 {
        let v = bytes[0] as int * 256 + bytes[1] as int;
        seq![b64_char(v / 1024), b64_char((v / 16) % 64), b64_char((v % 16) * 4)]
    } else {
        let v = bytes[0] as int * 65536 + bytes[1] as int * 256 + bytes[2] as int;
        seq![
            b64_char(v / 262144),
            b64_char((v / 4096) % 64),
            b64_char((v / 64) % 64),
            b64_char(v % 64),
        ] + b64_of(bytes.skip(3))
    }
}

/// Strict base64url decoding: `Some` exactly on canonical encodings.
pub open spec fn b64_parse(s: Seq<char>) -> Option<Seq<u8>>
    decreases s.len(),
{
    if s.len() == 0 {
        Some(Seq::<u8>::empty())
    } else if s.len() == 1 {
        None::<Seq<u8>>
    } else if s.len() == 2 {
        if is_b64_char(s[0]) && is_b64_char(s[1]) && b64_val(s[1]) % 16 == 0 {
            Some(seq![(b64_val(s[0]) * 4 + b64_val(s[1]) / 16) as u8])
        } else {
            None::<Seq<u8>>
        }
    } else if s.len() == 3 {
        if is_b64_char(s[0]) && is_b64_char(s[1]) && is_b64_char(s[2]) && b64_val(s[2]) % 4 == 0 {
            let v = b64_val(s[0]) * 1024 + b64_val(s[1]) * 16 + b64_val(s[2]) / 4;
            Some(seq![(v / 256) as u8, (v % 256) as u8])
        } else {
            None::<Seq<u8>>
        }
    } else {
        if is_b64_char(s[0]) && is_b64_char(s[1]) && is_b64_char(s[2]) && is_b64_char(s[3]) {
            let v = b64_val(s[0]) * 262144 + b64_val(s[1]) * 4096 + b64_val(s[2]) * 64 + b64_val(
                s[3],
            );
            match b64_parse(s.skip(4)) {
                Some(rest) => Some(
                    seq![(v / 65536) as u8, ((v / 256) % 256) as u8, (v % 256) as u8] + rest,
                ),
                None => None::<Seq<u8>>,
            }
        } else {
            None::<Seq<u8>>
        }
    }
}

/// Digit extraction undoes 24-bit packing.
proof fn lemma_pack24(d0: int, d1: int, d2: int, d3: int)
    requires
        0 <= d0 < 64,
        0 <= d1 < 64,
        0 <= d2 < 64,
        0 <= d3 < 64,
    ensures
        ({
            let v = d0 * 262144 + d1 * 4096 + d2 * 64 + d3;
            0 <= v < 16777216 && v / 262144 == d0 && (v / 4096) % 64 == d1 && (v / 64) % 64 == d2
                && v % 64 == d3
        }),
{
    let v = d0 * 262144 + d1 * 4096 + d2 * 64 + d3;
    assert(0 <= v < 16777216) by (nonlinear_arith)
        requires
            0 <= d0 < 64,
            0 <= d1 < 64,
            0 <= d2 < 64,
            0 <= d3 < 64,
            v == d0 * 262144 + d1 * 4096 + d2 * 64 + d3,
    ;
    assert(v / 262144 == d0 && (v / 4096) % 64 == d1 && (v / 64) % 64 == d2 && v % 64 == d3)
        by (nonlinear_arith)
        requires
            0 <= d0 < 64,
            0 <= d1 < 64,
            0 <= d2 < 64,
            0 <= d3 < 64,
            v == d0 * 262144 + d1 * 4096 + d2 * 64 + d3,
    ;
}

/// Byte extraction undoes 24-bit packing.
proof fn lemma_bytes24(a: int, b: int, c: int)
    requires
        0 <= a < 256,
        0 <= b < 256,
        0 <= c < 256,
    ensures
        ({
            let v = a * 65536 + b * 256 + c;
            0 <= v < 16777216 && v / 65536 == a && (v / 256) % 256 == b && v % 256 == c
        }),
{
    let v = a * 65536 + b * 256 + c;
    assert(0 <= v < 16777216 && v / 65536 == a && (v / 256) % 256 == b && v % 256 == c)
        by (nonlinear_arith)
        requires
            0 <= a < 256,
            0 <= b < 256,
            0 <= c < 256,
            v == a * 65536 + b * 256 + c,
    ;
}

/// A 24-bit value equals the repacking of its four 6-bit digits.
proof fn lemma_unpack24(v: int)
    requires
        0 <= v < 16777216,
    ensures
        (v / 262144) * 262144 + ((v / 4096) % 64) * 4096 + ((v / 64) % 64) * 64 + v % 64 == v,
        0 <= v / 262144 < 64,
        0 <= (v / 4096) % 64 < 64,
        0 <= (v / 64) % 64 < 64,
        0 <= v % 64 < 64,
        (v / 65536) * 65536 + ((v / 256) % 256) * 256 + v % 256 == v,
        0 <= v / 65536 < 256,
        0 <= (v / 256) % 256 < 256,
        0 <= v % 256 < 256,
{
    assert((v / 262144) * 262144 + ((v / 4096) % 64) * 4096 + ((v / 64) % 64) * 64 + v % 64 == v
        && 0 <= v / 262144 < 64 && 0 <= (v / 4096) % 64 < 64 && 0 <= (v / 64) % 64 < 64 && 0 <= v
        % 64 < 64) by (nonlinear_arith)
        requires
            0 <= v < 16777216,
    ;
    assert((v / 65536) * 65536 + ((v / 256) % 256) * 256 + v % 256 == v && 0 <= v / 65536 < 256 && 0
        <= (v / 256) % 256 < 256 && 0 <= v % 256 < 256) by (nonlinear_arith)
        requires
            0 <= v < 16777216,
    ;
}

/// 12-bit packing for the two-character tail (one byte).
proof fn lemma_tail8(a: int)
    requires
        0 <= a < 256,
    ensures
        0 <= a / 4 < 64,
        0 <= (a % 4) * 16 < 64,
        ((a % 4) * 16) % 16 == 0,
        (a / 4) * 4 + ((a % 4) * 16) / 16 == a,
{
    assert(0 <= a / 4 < 64 && 0 <= (a % 4) * 16 < 64 && ((a % 4) * 16) % 16 == 0 && (a / 4) * 4 + ((
    a % 4) * 16) / 16 == a) by (nonlinear_arith)
        requires
            0 <= a < 256,
    ;
}

/// 18-bit packing for the three-character tail (two bytes).
proof fn lemma_tail16(a: int, b: int)
    requires
        0 <= a < 256,
        0 <= b < 256,
    ensures
        ({
            let v = a * 256 + b;
            0 <= v / 1024 < 64 && 0 <= (v / 16) % 64 < 64 && 0 <= (v % 16) * 4 < 64 && ((v % 16)
                * 4) % 4 == 0 && (v / 1024) * 1024 + ((v / 16) % 64) * 16 + ((v % 16) * 4) / 4 == v
                && v / 256 == a && v % 256 == b && 0 <= v < 65536
        }),
{
    let v = a * 256 + b;
    assert(0 <= v / 1024 < 64 && 0 <= (v / 16) % 64 < 64 && 0 <= (v % 16) * 4 < 64 && ((v % 16) * 4)
        % 4 == 0 && (v / 1024) * 1024 + ((v / 16) % 64) * 16 + ((v % 16) * 4) / 4 == v && v / 256
        == a && v % 256 == b && 0 <= v < 65536) by (nonlinear_arith)
        requires
            0 <= a < 256,
            0 <= b < 256,
            v == a * 256 + b,
    ;
}

/// A value built from three 6-bit digits and a low part below 16.
proof fn lemma_unpack12(d0: int, d1: int)
    requires
        0 <= d0 < 64,
        0 <= d1 < 64,
        d1 % 16 == 0,
    ensures
        ({
            let a = d0 * 4 + d1 / 16;
            0 <= a < 256 && a / 4 == d0 && (a % 4) * 16 == d1
        }),
{
    let a = d0 * 4 + d1 / 16;
    assert(0 <= a < 256 && a / 4 == d0 && (a % 4) * 16 == d1) by (nonlinear_arith)
        requires
            0 <= d0 < 64,
            0 <= d1 < 64,
            d1 % 16 == 0,
            a == d0 * 4 + d1 / 16,
    ;
}

proof fn lemma_unpack18(d0: int, d1: int, d2: int)
    requires
        0 <= d0 < 64,
        0 <= d1 < 64,
        0 <= d2 < 64,
        d2 % 4 == 0,
    ensures
        ({
            let v = d0 * 1024 + d1 * 16 + d2 / 4;
            0 <= v < 65536 && v / 1024 == d0 && (v / 16) % 64 == d1 && (v % 16) * 4 == d2 && (v
                / 256) < 256 && ((v / 256) as int) * 256 + v % 256 == v && 0 <= v % 256 < 256
        }),
{
    let v = d0 * 1024 + d1 * 16 + d2 / 4;
    assert(0 <= v < 65536 && v / 1024 == d0 && (v / 16) % 64 == d1 && (v % 16) * 4 == d2 && (v
        / 256) < 256 && ((v / 256) as int) * 256 + v % 256 == v && 0 <= v % 256 < 256)
        by (nonlinear_arith)
        requires
            0 <= d0 < 64,
            0 <= d1 < 64,
            0 <= d2 < 64,
            d2 % 4 == 0,
            v == d0 * 1024 + d1 * 16 + d2 / 4,
    ;
}

/// Encoding distributes over concatenation at 3-byte boundaries.
pub proof fn lemma_b64_of_append(a: Seq<u8>, b: Seq<u8>)
    requires
        a.len() % 3 == 0,
    ensures
        b64_of(a + b) == b64_of(a) + b64_of(b),
    decreases a.len(),
{
    if a.len() == 0 {
        assert(a + b =~= b);
        assert(b64_of(a) + b64_of(b) =~= b64_of(b));
    } else {
        let s = a + b;
        assert(s.len() >= 3);
        lemma_b64_of_append(a.skip(3), b);
        assert(s.skip(3) =~= a.skip(3) + b);
        assert(s[0] == a[0] && s[1] == a[1] && s[2] == a[2]);
        if a.len() == 3 {
            assert(a.skip(3) =~= Seq::<u8>::empty());
            if b.len() == 0 {
                assert(s =~= a);
            }
        }
        assert(b64_of(a) == seq![
            b64_char((a[0] as int * 65536 + a[1] as int * 256 + a[2] as int) / 262144),
            b64_char(((a[0] as int * 65536 + a[1] as int * 256 + a[2] as int) / 4096) % 64),
            b64_char(((a[0] as int * 65536 + a[1] as int * 256 + a[2] as int) / 64) % 64),
            b64_char((a[0] as int * 65536 + a[1] as int * 256 + a[2] as int) % 64),
        ] + b64_of(a.skip(3)));
        assert(b64_of(a + b) =~= b64_of(a) + b64_of(b));
    }
}

/// Round trip: parsing a canonical encoding returns the original bytes.
pub proof fn lemma_b64_parse_of(bytes: Seq<u8>)
    ensures
        b64_parse(b64_of(bytes)) == Some(bytes),
    decreases bytes.len(),
{
    let s = b64_of(bytes);
    if bytes.len() == 0 {
        assert(s =~= Seq::<char>::empty());
        assert(b64_parse(s) == Some(bytes)) by {
            assert(Seq::<u8>::empty() =~= bytes);
        }
    } else if bytes.len() == 1 {
        let a = bytes[0] as int;
        lemma_tail8(a);
        lemma_b64_char_val(a / 4);
        lemma_b64_char_val((a % 4) * 16);
        assert(b64_parse(s) == Some(seq![((a / 4) * 4 + ((a % 4) * 16) / 16) as u8]));
        assert(seq![((a / 4) * 4 + ((a % 4) * 16) / 16) as u8] =~= bytes);
    } else if bytes.len() == 2 {
        let a = bytes[0] as int;
        let b = bytes[1] as int;
        let v = a * 256 + b;
        lemma_tail16(a, b);
        lemma_b64_char_val(v / 1024);
        lemma_b64_char_val((v / 16) % 64);
        lemma_b64_char_val((v % 16) * 4);
        let w = (v / 1024) * 1024 + ((v / 16) % 64) * 16 + ((v % 16) * 4) / 4;
        assert(w == v);
        assert(b64_parse(s) == Some(seq![(v / 256) as u8, (v % 256) as u8]));
        assert(seq![(v / 256) as u8, (v % 256) as u8] =~= bytes);
    } else {
        let a = bytes[0] as int;
        let b = bytes[1] as int;
        let c = bytes[2] as int;
        let v = a * 65536 + b * 256 + c;
        lemma_bytes24(a, b, c);
        lemma_unpack24(v);
        lemma_b64_char_val(v / 262144);
        lemma_b64_char_val((v / 4096) % 64);
        lemma_b64_char_val((v / 64) % 64);
        lemma_b64_char_val(v % 64);
        lemma_b64_parse_of(bytes.skip(3));
        assert(s.skip(4) =~= b64_of(bytes.skip(3)));
        let w = (v / 262144) * 262144 + ((v / 4096) % 64) * 4096 + ((v / 64) % 64) * 64 + v % 64;
        assert(w == v);
        assert(b64_parse(s) == Some(
            seq![(v / 65536) as u8, ((v / 256) % 256) as u8, (v % 256) as u8] + bytes.skip(3),
        ));
        assert(seq![(v / 65536) as u8, ((v / 256) % 256) as u8, (v % 256) as u8] + bytes.skip(3)
            =~= bytes);
    }
}

/// A base64url digit is recovered from its 6-bit value.
pub proof fn lemma_b64_val_char(c: char)
    requires
        is_b64_char(c),
    ensures
        0 <= b64_val(c) < 64,
        b64_char(b64_val(c)) == c,
{
    vstd::utf8::char_u32_cast(c, c as u32);
}

/// Canonicity: anything the parser accepts is the encoding of its result.
#[verifier::rlimit(100)]
#[verifier::spinoff_prover]
pub proof fn lemma_b64_of_parse(s: Seq<char>)
    requires
        b64_parse(s) is Some,
    ensures
        b64_of(b64_parse(s)->Some_0) == s,
    decreases s.len(),
{
    let bytes = b64_parse(s)->Some_0;
    if s.len() == 0 {
        assert(b64_of(bytes) =~= s);
    } else if s.len() == 2 {
        let d0 = b64_val(s[0]);
        let d1 = b64_val(s[1]);
        lemma_b64_val_char(s[0]);
        lemma_b64_val_char(s[1]);
        lemma_unpack12(d0, d1);
        let a = d0 * 4 + d1 / 16;
        assert(bytes =~= seq![a as u8]);
        assert(b64_of(bytes) =~= seq![b64_char(a / 4), b64_char((a % 4) * 16)]);
        assert(s =~= seq![s[0], s[1]]);
    } else if s.len() == 3 {
        let d0 = b64_val(s[0]);
        let d1 = b64_val(s[1]);
        let d2 = b64_val(s[2]);
        lemma_b64_val_char(s[0]);
        lemma_b64_val_char(s[1]);
        lemma_b64_val_char(s[2]);
        lemma_unpack18(d0, d1, d2);
        let v = d0 * 1024 + d1 * 16 + d2 / 4;
        assert(bytes =~= seq![(v / 256) as u8, (v % 256) as u8]);
        assert(bytes[0] as int * 256 + bytes[1] as int == v);
        assert(b64_of(bytes) =~= seq![
            b64_char(v / 1024),
            b64_char((v / 16) % 64),
            b64_char((v % 16) * 4),
        ]);
        assert(s =~= seq![s[0], s[1], s[2]]);
    } else {
        let d0 = b64_val(s[0]);
        let d1 = b64_val(s[1]);
        let d2 = b64_val(s[2]);
        let d3 = b64_val(s[3]);
        lemma_b64_val_char(s[0]);
        lemma_b64_val_char(s[1]);
        lemma_b64_val_char(s[2]);
        lemma_b64_val_char(s[3]);
        lemma_pack24(d0, d1, d2, d3);
        let v = d0 * 262144 + d1 * 4096 + d2 * 64 + d3;
        lemma_unpack24(v);
        lemma_b64_of_parse(s.skip(4));
        let rest = b64_parse(s.skip(4))->Some_0;
        assert(bytes =~= seq![(v / 65536) as u8, ((v / 256) % 256) as u8, (v % 256) as u8] + rest);
        assert(bytes[0] as int * 65536 + bytes[1] as int * 256 + bytes[2] as int == v);
        assert(bytes.skip(3) =~= rest);
        assert(b64_of(bytes) =~= seq![
            b64_char(v / 262144),
            b64_char((v / 4096) % 64),
            b64_char((v / 64) % 64),
            b64_char(v % 64),
        ] + b64_of(rest));
        assert(b64_of(bytes) =~= s);
    }
}

/// The base64url digit for a 6-bit value, as executable code.
fn b64_char_exec(v: u8) -> (r: char)
    requires
        v < 64,
    ensures
        r == b64_char(v as int),
{
    let code: u32 = if v < 26 {
        65 + v as u32
    } else if v < 52 {
        97 + (v as u32 - 26)
    } else if v < 62 {
        48 + (v as u32 - 52)
    } else if v == 62 {
        45
    } else {
        95
    };
    match char_from_code(code) {
        Some(c) => c,
        None => {
            proof {
                assert(false);
            }
            ' '
        },
    }
}

/// The 6-bit value of a base64url digit, or `None` for other characters.
fn b64_val_exec(c: char) -> (r: Option<u8>)
    ensures
        r is Some <==> is_b64_char(c),
        r matches Some(v) ==> v as int == b64_val(c) && v < 64,
{
    let u = c as u32;
    if 65 <= u && u <= 90 {
        Some((u - 65) as u8)
    } else if 97 <= u && u <= 122 {
        Some((u - 97 + 26) as u8)
    } else if 48 <= u && u <= 57 {
        Some((u - 48 + 52) as u8)
    } else if u == 45 {
        Some(62)
    } else if u == 95 {
        Some(63)
    } else {
        None
    }
}

/// Appends the four base64url digits of one 3-byte group.
fn b64_push3(a: u8, b: u8, c: u8, out: &mut String)
    ensures
        final(out)@ == old(out)@ + b64_of(seq![a, b, c]),
{
    let v: u32 = a as u32 * 65536 + b as u32 * 256 + c as u32;
    string_push(out, b64_char_exec((v / 262144) as u8));
    string_push(out, b64_char_exec(((v / 4096) % 64) as u8));
    string_push(out, b64_char_exec(((v / 64) % 64) as u8));
    string_push(out, b64_char_exec((v % 64) as u8));
    proof {
        let chunk = seq![a, b, c];
        assert(chunk.skip(3) =~= Seq::<u8>::empty());
        assert(b64_of(chunk.skip(3)) =~= Seq::<char>::empty());
        assert(v as int == chunk[0] as int * 65536 + chunk[1] as int * 256 + chunk[2] as int);
        assert(b64_of(chunk) =~= seq![
            b64_char(v as int / 262144),
            b64_char((v as int / 4096) % 64),
            b64_char((v as int / 64) % 64),
            b64_char(v as int % 64),
        ]);
        assert(out@ =~= old(out)@ + b64_of(chunk));
    }
}

/// Appends the two base64url digits of a final single byte.
fn b64_push1(a: u8, out: &mut String)
    ensures
        final(out)@ == old(out)@ + b64_of(seq![a]),
{
    proof {
        lemma_tail8(a as int);
    }
    string_push(out, b64_char_exec(a / 4));
    string_push(out, b64_char_exec((a % 4) * 16));
    proof {
        let chunk = seq![a];
        assert(b64_of(chunk) =~= seq![b64_char(a as int / 4), b64_char((a as int % 4) * 16)]);
        assert(out@ =~= old(out)@ + b64_of(chunk));
    }
}

/// Appends the three base64url digits of a final 2-byte group.
fn b64_push2(a: u8, b: u8, out: &mut String)
    ensures
        final(out)@ == old(out)@ + b64_of(seq![a, b]),
{
    let v: u32 = a as u32 * 256 + b as u32;
    proof {
        lemma_tail16(a as int, b as int);
    }
    string_push(out, b64_char_exec((v / 1024) as u8));
    string_push(out, b64_char_exec(((v / 16) % 64) as u8));
    string_push(out, b64_char_exec(((v % 16) * 4) as u8));
    proof {
        let chunk = seq![a, b];
        assert(v as int == chunk[0] as int * 256 + chunk[1] as int);
        assert(b64_of(chunk) =~= seq![
            b64_char(v as int / 1024),
            b64_char((v as int / 16) % 64),
            b64_char((v as int % 16) * 4),
        ]);
        assert(out@ =~= old(out)@ + b64_of(chunk));
    }
}

/// Appends the canonical base64url encoding of `bytes` to `out`.
#[verifier::rlimit(100)]
pub fn b64_append(bytes: &Vec<u8>, out: &mut String)
    ensures
        final(out)@ == old(out)@ + b64_of(bytes@),
{
    let n = bytes.len();
    let mut i: usize = 0;
    while n - i >= 3
        invariant
            i <= n,
            n == bytes@.len(),
            i % 3 == 0,
            out@ == old(out)@ + b64_of(bytes@.take(i as int)),
        decreases n - i,
    {
        b64_push3(bytes[i], bytes[i + 1], bytes[i + 2], out);
        proof {
            let chunk = seq![bytes@[i as int], bytes@[i as int + 1], bytes@[i as int + 2]];
            lemma_b64_of_append(bytes@.take(i as int), chunk);
            assert(bytes@.take(i as int) + chunk =~= bytes@.take(i as int + 3));
            assert(out@ =~= old(out)@ + b64_of(bytes@.take(i as int + 3)));
        }
        i += 3;
    }
    proof {
        lemma_b64_of_append(bytes@.take(i as int), bytes@.skip(i as int));
        assert(bytes@.take(i as int) + bytes@.skip(i as int) =~= bytes@);
    }
    let rem = n - i;
    if rem == 1 {
        b64_push1(bytes[i], out);
        proof {
            assert(bytes@.skip(i as int) =~= seq![bytes@[i as int]]);
            assert(out@ =~= old(out)@ + b64_of(bytes@));
        }
    } else if rem == 2 {
        b64_push2(bytes[i], bytes[i + 1], out);
        proof {
            assert(bytes@.skip(i as int) =~= seq![bytes@[i as int], bytes@[i as int + 1]]);
            assert(out@ =~= old(out)@ + b64_of(bytes@));
        }
    } else {
        proof {
            assert(bytes@.skip(i as int) =~= Seq::<u8>::empty());
            assert(b64_of(bytes@.skip(i as int)) =~= Seq::<char>::empty());
            assert(out@ =~= old(out)@ + b64_of(bytes@));
        }
    }
}

/// Every character of an encoding is a base64url digit.
pub proof fn lemma_b64_of_chars(bytes: Seq<u8>)
    ensures
        forall|i: int| 0 <= i < b64_of(bytes).len() ==> is_b64_char(#[trigger] b64_of(bytes)[i]),
    decreases bytes.len(),
{
    let s = b64_of(bytes);
    if bytes.len() == 0 {
    } else if bytes.len() == 1 {
        let a = bytes[0] as int;
        lemma_tail8(a);
        lemma_b64_char_val(a / 4);
        lemma_b64_char_val((a % 4) * 16);
    } else if bytes.len() == 2 {
        let v = bytes[0] as int * 256 + bytes[1] as int;
        lemma_tail16(bytes[0] as int, bytes[1] as int);
        lemma_b64_char_val(v / 1024);
        lemma_b64_char_val((v / 16) % 64);
        lemma_b64_char_val((v % 16) * 4);
    } else {
        let v = bytes[0] as int * 65536 + bytes[1] as int * 256 + bytes[2] as int;
        lemma_bytes24(bytes[0] as int, bytes[1] as int, bytes[2] as int);
        lemma_unpack24(v);
        lemma_b64_char_val(v / 262144);
        lemma_b64_char_val((v / 4096) % 64);
        lemma_b64_char_val((v / 64) % 64);
        lemma_b64_char_val(v % 64);
        lemma_b64_of_chars(bytes.skip(3));
        assert(forall|i: int| 4 <= i < s.len() ==> s[i] == b64_of(bytes.skip(3))[i - 4]);
    }
}

/// Parsing splits at a 4-character boundary.
proof fn lemma_b64_parse_split4(s: Seq<char>)
    requires
        s.len() >= 4,
    ensures
        ({
            let head = b64_parse(s.take(4));
            match b64_parse(s.skip(4)) {
                Some(rest) => (head is Some <==> b64_parse(s) is Some) && (head matches Some(three)
                    ==> b64_parse(s) == Some(three + rest)),
                None => b64_parse(s) is None,
            }
        }),
{
    let h = s.take(4);
    assert(h.len() == 4);
    assert(h[0] == s[0] && h[1] == s[1] && h[2] == s[2] && h[3] == s[3]);
    assert(h.skip(4) =~= Seq::<char>::empty());
    assert(b64_parse(h.skip(4)) == Some(Seq::<u8>::empty()));
    if is_b64_char(s[0]) && is_b64_char(s[1]) && is_b64_char(s[2]) && is_b64_char(s[3]) {
        let v = b64_val(s[0]) * 262144 + b64_val(s[1]) * 4096 + b64_val(s[2]) * 64 + b64_val(s[3]);
        let hv = b64_val(h[0]) * 262144 + b64_val(h[1]) * 4096 + b64_val(h[2]) * 64 + b64_val(h[3]);
        assert(hv == v);
        let three = seq![(v / 65536) as u8, ((v / 256) % 256) as u8, (v % 256) as u8];
        assert(b64_parse(h) == Some(three + Seq::<u8>::empty()));
        assert(three + Seq::<u8>::empty() =~= three);
        match b64_parse(s.skip(4)) {
            Some(rest) => {
                assert(b64_parse(s) == Some(three + rest));
            },
            None => {
                assert(b64_parse(s) is None);
            },
        }
    }
}

/// Decodes the four base64url digits starting at `i` into three bytes.
fn b64_group4(s: &str, i: usize) -> (r: Option<(u8, u8, u8)>)
    requires
        i + 4 <= s@.len(),
        i + 4 <= usize::MAX,
    ensures
        r is Some <==> b64_parse(s@.subrange(i as int, i as int + 4)) is Some,
        r matches Some((a, b, c)) ==> b64_parse(s@.subrange(i as int, i as int + 4)) == Some(
            seq![a, b, c],
        ),
{
    let ghost pre = s@.subrange(i as int, i as int + 4);
    let c0 = s.get_char(i);
    let c1 = s.get_char(i + 1);
    let c2 = s.get_char(i + 2);
    let c3 = s.get_char(i + 3);
    proof {
        assert(pre[0] == c0 && pre[1] == c1 && pre[2] == c2 && pre[3] == c3);
        assert(pre.skip(4) =~= Seq::<char>::empty());
    }
    match (b64_val_exec(c0), b64_val_exec(c1), b64_val_exec(c2), b64_val_exec(c3)) {
        (Some(d0), Some(d1), Some(d2), Some(d3)) => {
            let v: u32 = d0 as u32 * 262144 + d1 as u32 * 4096 + d2 as u32 * 64 + d3 as u32;
            proof {
                lemma_pack24(d0 as int, d1 as int, d2 as int, d3 as int);
                assert(b64_parse(pre.skip(4)) == Some(Seq::<u8>::empty()));
                assert(v as int == b64_val(pre[0]) * 262144 + b64_val(pre[1]) * 4096 + b64_val(
                    pre[2],
                ) * 64 + b64_val(pre[3]));
                let three = seq![(v as int / 65536) as u8, ((v as int / 256) % 256) as u8, (v as int % 256) as u8];
                assert(b64_parse(pre) == Some(three + Seq::<u8>::empty()));
                assert(three + Seq::<u8>::empty() =~= three);
            }
            Some(((v / 65536) as u8, ((v / 256) % 256) as u8, (v % 256) as u8))
        },
        _ => None,
    }
}

/// Strict base64url decoding of the characters of `s` between `from` and
/// `to`; mirrors `b64_parse`.
pub fn b64_decode_range(s: &str, from: usize, to: usize) -> (r: Option<Vec<u8>>)
    requires
        from <= to <= s@.len(),
    ensures
        r is Some <==> b64_parse(s@.subrange(from as int, to as int)) is Some,
        r matches Some(v) ==> b64_parse(s@.subrange(from as int, to as int)) == Some(v@),
{
    let ghost whole = s@.subrange(from as int, to as int);
    let mut out: Vec<u8> = Vec::new();
    let mut i: usize = from;
    while to - i >= 4
        invariant
            from <= i <= to <= s@.len(),
            whole == s@.subrange(from as int, to as int),
            match b64_parse(s@.subrange(i as int, to as int)) {
                Some(rest) => b64_parse(whole) == Some(out@ + rest),
                None => b64_parse(whole) is None,
            },
        decreases to - i,
    {
        let ghost pre = s@.subrange(i as int, to as int);
        proof {
            lemma_b64_parse_split4(pre);
            assert(pre.take(4) =~= s@.subrange(i as int, i as int + 4));
            assert(pre.skip(4) =~= s@.subrange(i as int + 4, to as int));
        }
        match b64_group4(s, i) {
            Some((a, b, c)) => {
                let ghost before = out@;
                out.push(a);
                out.push(b);
                out.push(c);
                proof {
                    assert(out@ =~= before + seq![a, b, c]);
                    match b64_parse(s@.subrange(i as int + 4, to as int)) {
                        Some(rest) => {
                            assert(before + (seq![a, b, c] + rest) =~= out@ + rest);
                        },
                        None => {},
                    }
                }
                i += 4;
            },
            _ => {
                return None;
            },
        }
    }
    let m = to - i;
    if m == 0 {
        proof {
            assert(s@.subrange(i as int, to as int) =~= Seq::<char>::empty());
            assert(out@ + Seq::<u8>::empty() =~= out@);
        }
        Some(out)
    } else if m == 1 {
        None
    } else if m == 2 {
        let ghost pre = s@.subrange(i as int, to as int);
        let c0 = s.get_char(i);
        let c1 = s.get_char(i + 1);
        proof {
            assert(pre[0] == c0 && pre[1] == c1 && pre.len() == 2);
        }
        match (b64_val_exec(c0), b64_val_exec(c1)) {
            (Some(d0), Some(d1)) => {
                if d1 % 16 == 0 {
                    let ghost before = out@;
                    out.push(d0 * 4 + d1 / 16);
                    proof {
                        lemma_unpack12(d0 as int, d1 as int);
                        assert(b64_parse(pre) == Some(
                            seq![(b64_val(pre[0]) * 4 + b64_val(pre[1]) / 16) as u8],
                        ));
                        assert(out@ =~= before + seq![
                            (b64_val(pre[0]) * 4 + b64_val(pre[1]) / 16) as u8,
                        ]);
                    }
                    Some(out)
                } else {
                    None
                }
            },
            _ => None,
        }
    } else {
        let ghost pre = s@.subrange(i as int, to as int);
        let c0 = s.get_char(i);
        let c1 = s.get_char(i + 1);
        let c2 = s.get_char(i + 2);
        proof {
            assert(pre[0] == c0 && pre[1] == c1 && pre[2] == c2 && pre.len() == 3);
        }
        match (b64_val_exec(c0), b64_val_exec(c1), b64_val_exec(c2)) {
            (Some(d0), Some(d1), Some(d2)) => {
                if d2 % 4 == 0 {
                    let v: u32 = d0 as u32 * 1024 + d1 as u32 * 16 + d2 as u32 / 4;
                    let ghost before = out@;
                    proof {
                        lemma_unpack18(d0 as int, d1 as int, d2 as int);
                    }
                    out.push((v / 256) as u8);
                    out.push((v % 256) as u8);
                    proof {
                        assert(b64_parse(pre) == Some(
                            seq![(v as int / 256) as u8, (v as int % 256) as u8],
                        ));
                        assert(out@ =~= before + seq![
                            (v as int / 256) as u8,
                            (v as int % 256) as u8,
                        ]);
                    }
                    Some(out)
                } else {
                    None
                }
            },
            _ => None,
        }
    }
}

} // verus!
