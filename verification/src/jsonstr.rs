//! JSON string escaping as the claims serializer emits it: `"` and `\` get
//! a backslash escape, the five control characters with short forms use
//! them, the remaining control characters become `\u00xx`, and everything
//! else is written as itself.
//!
//! `unesc` consumes an escaped string body up to its closing quote and
//! accepts exactly what `esc` produces, so the two are mutually inverse.

use vstd::prelude::*;

use crate::strings::{char_from_code, string_push};

verus! {

/// The lowercase hex digit character for `d` (0 through 15).
pub open spec fn hex_char(d: int) -> char {
    if d < 10 {
        ((48 + d) as u32) as char
    } else {
        ((97 + (d - 10)) as u32) as char
    }
}

/// Whether `c` is a lowercase hex digit.
pub open spec fn is_hex_lc(c: char) -> bool {
    let u = c as u32;
    (48 <= u <= 57) || (97 <= u <= 102)
}

/// The value of a lowercase hex digit.
pub open spec fn hex_val(c: char) -> int {
    let u = c as u32;
    if 48 <= u <= 57 {
        u - 48
    } else {
        u - 97 + 10
    }
}

pub proof fn lemma_hex_char_val(d: int)
    requires
        0 <= d < 16,
    ensures
        is_hex_lc(hex_char(d)),
        hex_val(hex_char(d)) == d,
{
}

/// Control characters with a short escape form, keyed by code point.
pub open spec fn short_esc_letter(u: u32) -> char {
    if u == 8 {
        'b'
    } else if u == 9 {
        't'
    } else if u == 10 {
        'n'
    } else if u == 12 {
        'f'
    } else {
        'r'
    }
}

pub open spec fn has_short_esc(u: u32) -> bool {
    u == 8 || u == 9 || u == 10 || u == 12 || u == 13
}

/// The code point a short escape letter stands for.
pub open spec fn short_esc_code(e: char) -> u32 {
    if e == 'b' {
        8
    } else if e == 't' {
        9
    } else if e == 'n' {
        10
    } else if e == 'f' {
        12
    } else {
        13
    }
}

pub open spec fn is_short_esc_letter(e: char) -> bool {
    e == 'b' || e == 't' || e == 'n' || e == 'f' || e == 'r'
}

/// How one character is written inside a JSON string literal.
pub open spec fn esc_char(c: char) -> Seq<char> {
    let u = c as u32;
    if c == '"' {
        seq!['\\', '"']
    } else if c == '\\' {
        seq!['\\', '\\']
    } else if has_short_esc(u) {
        seq!['\\', short_esc_letter(u)]
    } else if u < 32 {
        seq!['\\', 'u', '0', '0', hex_char(u as int / 16), hex_char(u as int % 16)]
    } else {
        seq![c]
    }
}

/// How a whole string is written inside a JSON string literal.
pub open spec fn esc(s: Seq<char>) -> Seq<char>
    decreases s.len(),
{
    if s.len() == 0 {
        Seq::<char>::empty()
    } else {
        esc_char(s[0]) + esc(s.drop_first())
    }
}

/// Parses an escaped string body up to and including its closing quote;
/// returns the unescaped content and what follows the quote. Accepts only
/// the canonical form `esc` emits.
pub open spec fn unesc(p: Seq<char>) -> Option<(Seq<char>, Seq<char>)>
    decreases p.len(),
{
    if p.len() == 0 {
        None::<(Seq<char>, Seq<char>)>
    } else if p[0] == '"' {
        Some((Seq::<char>::empty(), p.skip(1)))
    } else if p[0] == '\\' {
        if p.len() < 2 {
            None::<(Seq<char>, Seq<char>)>
        } else {
            let e = p[1];
            if e == '"' || e == '\\' || is_short_esc_letter(e) {
                let c = if e == '"' {
                    '"'
                } else if e == '\\' {
                    '\\'
                } else {
                    short_esc_code(e) as char
                };
                match unesc(p.skip(2)) {
                    Some(tr) => Some((seq![c] + tr.0, tr.1)),
                    None => None::<(Seq<char>, Seq<char>)>,
                }
            } else if e == 'u' {
                if p.len() < 6 || p[2] != '0' || p[3] != '0' || !is_hex_lc(p[4]) || !is_hex_lc(
                    p[5],
                ) {
                    None::<(Seq<char>, Seq<char>)>
                } else {
                    let v = (hex_val(p[4]) * 16 + hex_val(p[5])) as u32;
                    if v < 32 && !has_short_esc(v) {
                        match unesc(p.skip(6)) {
                            Some(tr) => Some((seq![v as char] + tr.0, tr.1)),
                            None => None::<(Seq<char>, Seq<char>)>,
                        }
                    } else {
                        None::<(Seq<char>, Seq<char>)>
                    }
                }
            } else {
                None::<(Seq<char>, Seq<char>)>
            }
        }
    } else if (p[0] as u32) < 32 {
        None::<(Seq<char>, Seq<char>)>
    } else {
        match unesc(p.skip(1)) {
            Some(tr) => Some((seq![p[0]] + tr.0, tr.1)),
            None => None::<(Seq<char>, Seq<char>)>,
        }
    }
}

/// Escaping distributes over appending one character.
pub proof fn lemma_esc_snoc(t: Seq<char>, c: char)
    ensures
        esc(t + seq![c]) == esc(t) + esc_char(c),
    decreases t.len(),
{
    if t.len() == 0 {
        assert(t + seq![c] =~= seq![c]);
        assert(esc(seq![c]) == esc_char(c) + esc(seq![c].drop_first()));
        assert(seq![c].drop_first() =~= Seq::<char>::empty());
        assert(esc_char(c) + Seq::<char>::empty() =~= esc_char(c));
        assert(esc(t) + esc_char(c) =~= esc_char(c));
    } else {
        lemma_esc_snoc(t.drop_first(), c);
        let s = t + seq![c];
        assert(s[0] == t[0]);
        assert(s.drop_first() =~= t.drop_first() + seq![c]);
        assert(esc(s) == esc_char(t[0]) + (esc(t.drop_first()) + esc_char(c)));
        assert(esc_char(t[0]) + (esc(t.drop_first()) + esc_char(c)) =~= (esc_char(t[0]) + esc(
            t.drop_first(),
        )) + esc_char(c));
    }
}

/// Round trip: parsing an escaped body finds the original content and rest.
pub proof fn lemma_unesc_esc(t: Seq<char>, rest: Seq<char>)
    ensures
        unesc(esc(t) + seq!['"'] + rest) == Some((t, rest)),
    decreases t.len(),
{
    let p = esc(t) + seq!['"'] + rest;
    if t.len() == 0 {
        assert(esc(t) =~= Seq::<char>::empty());
        assert(p =~= seq!['"'] + rest);
        assert(p[0] == '"');
        assert(p.skip(1) =~= rest);
        assert(unesc(p) == Some((Seq::<char>::empty(), rest)));
        assert(Seq::<char>::empty() =~= t);
    } else {
        let c = t[0];
        let u = c as u32;
        lemma_unesc_esc(t.drop_first(), rest);
        let p1 = esc(t.drop_first()) + seq!['"'] + rest;
        assert(p =~= esc_char(c) + p1);
        vstd::utf8::char_u32_cast(c, c as u32);
        if c == '"' {
            assert(p[0] == '\\' && p[1] == '"');
            assert(p.skip(2) =~= p1);
            assert(unesc(p) == Some((seq!['"'] + t.drop_first(), rest)));
            assert(seq!['"'] + t.drop_first() =~= t);
        } else if c == '\\' {
            assert(p[0] == '\\' && p[1] == '\\');
            assert(p.skip(2) =~= p1);
            assert(seq!['\\'] + t.drop_first() =~= t);
        } else if has_short_esc(u) {
            assert(p[0] == '\\' && p[1] == short_esc_letter(u));
            assert(is_short_esc_letter(short_esc_letter(u)));
            assert(short_esc_code(short_esc_letter(u)) == u);
            assert(u as char == c);
            assert(p.skip(2) =~= p1);
            assert(seq![c] + t.drop_first() =~= t);
        } else if u < 32 {
            assert(p[0] == '\\' && p[1] == 'u' && p[2] == '0' && p[3] == '0');
            assert(p[4] == hex_char(u as int / 16) && p[5] == hex_char(u as int % 16));
            lemma_hex_char_val(u as int / 16);
            lemma_hex_char_val(u as int % 16);
            assert((hex_val(p[4]) * 16 + hex_val(p[5])) as u32 == u) by {
                assert((u as int / 16) * 16 + u as int % 16 == u as int) by (nonlinear_arith);
            }
            assert(u as char == c);
            assert(p.skip(6) =~= p1);
            assert(seq![c] + t.drop_first() =~= t);
        } else {
            assert(p[0] == c);
            assert(p.skip(1) =~= p1);
            assert(seq![c] + t.drop_first() =~= t);
        }
    }
}

/// Canonicity: anything the parser accepts is an escaped body.
#[verifier::rlimit(100)]
#[verifier::spinoff_prover]
pub proof fn lemma_esc_unesc(p: Seq<char>)
    requires
        unesc(p) is Some,
    ensures
        p == esc(unesc(p)->Some_0.0) + seq!['"'] + unesc(p)->Some_0.1,
    decreases p.len(),
{
    let t = unesc(p)->Some_0.0;
    let r = unesc(p)->Some_0.1;
    if p[0] == '"' {
        assert(t =~= Seq::<char>::empty());
        assert(esc(t) =~= Seq::<char>::empty());
        assert(p =~= seq!['"'] + p.skip(1));
        assert(esc(t) + seq!['"'] + r =~= seq!['"'] + p.skip(1));
    } else if p[0] == '\\' {
        let e = p[1];
        if e == '"' || e == '\\' || is_short_esc_letter(e) {
            let c = if e == '"' {
                '"'
            } else if e == '\\' {
                '\\'
            } else {
                short_esc_code(e) as char
            };
            lemma_esc_unesc(p.skip(2));
            let t1 = unesc(p.skip(2))->Some_0.0;
            assert(t == seq![c] + t1);
            assert(t.drop_first() =~= t1);
            assert(t[0] == c);
            if is_short_esc_letter(e) {
                assert(has_short_esc(short_esc_code(e)));
                assert((short_esc_code(e) as char) as u32 == short_esc_code(e));
                assert(short_esc_letter(c as u32) == e);
            }
            assert(esc_char(c) =~= seq!['\\', e]);
            assert(esc(t) == esc_char(c) + esc(t1));
            assert(p =~= seq![p[0], p[1]] + p.skip(2));
            assert(esc(t) + seq!['"'] + r =~= p);
        } else {
            let v = (hex_val(p[4]) * 16 + hex_val(p[5])) as u32;
            let c = v as char;
            lemma_esc_unesc(p.skip(6));
            let t1 = unesc(p.skip(6))->Some_0.0;
            assert(t == seq![c] + t1);
            assert(t.drop_first() =~= t1);
            assert(t[0] == c);
            assert(c as u32 == v);
            let a = hex_val(p[4]);
            let b = hex_val(p[5]);
            assert(0 <= a < 16 && 0 <= b < 16);
            assert(v as int == a * 16 + b);
            assert((a * 16 + b) / 16 == a && (a * 16 + b) % 16 == b) by (nonlinear_arith)
                requires
                    0 <= a < 16,
                    0 <= b < 16,
            ;
            assert(hex_char(v as int / 16) == p[4] && hex_char(v as int % 16) == p[5]) by {
                lemma_hex_val_char(p[4]);
                lemma_hex_val_char(p[5]);
            }
            assert(esc_char(c) =~= seq!['\\', 'u', '0', '0', p[4], p[5]]);
            assert(esc(t) == esc_char(c) + esc(t1));
            assert(p =~= seq![p[0], p[1], p[2], p[3], p[4], p[5]] + p.skip(6));
            assert(esc(t) + seq!['"'] + r =~= p);
        }
    } else {
        let c = p[0];
        lemma_esc_unesc(p.skip(1));
        let t1 = unesc(p.skip(1))->Some_0.0;
        assert(t == seq![c] + t1);
        assert(t.drop_first() =~= t1);
        assert(t[0] == c);
        assert(esc_char(c) =~= seq![c]);
        assert(esc(t) == esc_char(c) + esc(t1));
        assert(p =~= seq![c] + p.skip(1));
        assert(esc(t) + seq!['"'] + r =~= p);
    }
}

/// A lowercase hex digit is recovered from its value.
pub proof fn lemma_hex_val_char(c: char)
    requires
        is_hex_lc(c),
    ensures
        0 <= hex_val(c) < 16,
        hex_char(hex_val(c)) == c,
{
    vstd::utf8::char_u32_cast(c, c as u32);
}

/// Appends `esc_char(c)` to `out`.
fn push_esc_char(c: char, out: &mut String)
    ensures
        final(out)@ == old(out)@ + esc_char(c),
{
    let u = c as u32;
    if c == '"' {
        string_push(out, '\\');
        string_push(out, '"');
        proof {
            assert(old(out)@ + seq!['\\'] + seq!['"'] =~= old(out)@ + esc_char(c));
        }
    } else if c == '\\' {
        string_push(out, '\\');
        string_push(out, '\\');
        proof {
            assert(old(out)@ + seq!['\\'] + seq!['\\'] =~= old(out)@ + esc_char(c));
        }
    } else if u == 8 || u == 9 || u == 10 || u == 12 || u == 13 {
        let e = if u == 8 {
            'b'
        } else if u == 9 {
            't'
        } else if u == 10 {
            'n'
        } else if u == 12 {
            'f'
        } else {
            'r'
        };
        string_push(out, '\\');
        string_push(out, e);
        proof {
            assert(e == short_esc_letter(u));
            assert(old(out)@ + seq!['\\'] + seq![e] =~= old(out)@ + esc_char(c));
        }
    } else if u < 32 {
        string_push(out, '\\');
        string_push(out, 'u');
        string_push(out, '0');
        string_push(out, '0');
        string_push(out, hex_char_exec((u / 16) as u8));
        string_push(out, hex_char_exec((u % 16) as u8));
        proof {
            assert(old(out)@ + seq!['\\'] + seq!['u'] + seq!['0'] + seq!['0'] + seq![
                hex_char(u as int / 16),
            ] + seq![hex_char(u as int % 16)] =~= old(out)@ + esc_char(c));
        }
    } else {
        string_push(out, c);
        proof {
            assert(old(out)@ + seq![c] =~= old(out)@ + esc_char(c));
        }
    }
}

/// The lowercase hex digit for `d`, as executable code.
fn hex_char_exec(d: u8) -> (r: char)
    requires
        d < 16,
    ensures
        r == hex_char(d as int),
{
    let code: u32 = if d < 10 {
        48 + d as u32
    } else {
        97 + (d as u32 - 10)
    };
    match char_from_code(code) {
        Some(c) => c,
        None => {
            proof {
                assert(false);
            }
            ' '
        },
    }
}

/// The value of a lowercase hex digit, as executable code.
fn hex_val_exec(c: char) -> (r: Option<u8>)
    ensures
        r is Some <==> is_hex_lc(c),
        r matches Some(v) ==> v as int == hex_val(c) && v < 16,
{
    let u = c as u32;
    if 48 <= u && u <= 57 {
        Some((u - 48) as u8)
    } else if 97 <= u && u <= 102 {
        Some((u - 97 + 10) as u8)
    } else {
        None
    }
}

/// Appends the escaped form of `s` to `out`.
pub fn append_escaped(s: &str, out: &mut String)
    ensures
        final(out)@ == old(out)@ + esc(s@),
{
    let n = s.unicode_len();
    let mut i: usize = 0;
    while i < n
        invariant
            i <= n,
            n == s@.len(),
            out@ == old(out)@ + esc(s@.take(i as int)),
        decreases n - i,
    {
        let c = s.get_char(i);
        push_esc_char(c, out);
        proof {
            lemma_esc_snoc(s@.take(i as int), c);
            assert(s@.take(i as int) + seq![c] =~= s@.take(i as int + 1));
            assert(out@ =~= old(out)@ + esc(s@.take(i as int + 1)));
        }
        i += 1;
    }
    proof {
        assert(s@.take(n as int) =~= s@);
    }
}

/// Parses an escaped string body of `s` starting at `i`, up to and
/// including the closing quote; mirrors `unesc`.
pub fn parse_string_body(s: &str, i: usize) -> (r: Option<(String, usize)>)
    requires
        i <= s@.len(),
        s@.len() <= usize::MAX,
    ensures
        r is Some <==> unesc(s@.skip(i as int)) is Some,
        r matches Some((t, j)) ==> i <= j <= s@.len() && unesc(s@.skip(i as int)) == Some(
            (t@, s@.skip(j as int)),
        ),
{
    let n = s.unicode_len();
    let mut out = String::new();
    let mut k: usize = i;
    loop
        invariant
            i <= k <= n,
            n == s@.len(),
            n <= usize::MAX,
            match unesc(s@.skip(k as int)) {
                Some(tr) => unesc(s@.skip(i as int)) == Some((out@ + tr.0, tr.1)),
                None => unesc(s@.skip(i as int)) is None,
            },
        decreases n - k,
    {
        let ghost p = s@.skip(k as int);
        if k >= n {
            proof {
                assert(p.len() == 0);
            }
            return None;
        }
        let c = s.get_char(k);
        proof {
            assert(p[0] == c);
        }
        if c == '"' {
            proof {
                assert(p.skip(1) =~= s@.skip(k as int + 1));
                assert(unesc(p) == Some((Seq::<char>::empty(), s@.skip(k as int + 1))));
                assert(out@ + Seq::<char>::empty() =~= out@);
            }
            return Some((out, k + 1));
        } else if c == '\\' {
            if k + 1 >= n {
                proof {
                    assert(p.len() < 2);
                }
                return None;
            }
            let e = s.get_char(k + 1);
            proof {
                assert(p[1] == e);
            }
            if e == '"' || e == '\\' || e == 'b' || e == 't' || e == 'n' || e == 'f' || e == 'r' {
                let u: u32 = if e == '"' {
                    34
                } else if e == '\\' {
                    92
                } else if e == 'b' {
                    8
                } else if e == 't' {
                    9
                } else if e == 'n' {
                    10
                } else if e == 'f' {
                    12
                } else {
                    13
                };
                let c2 = match char_from_code(u) {
                    Some(c2) => c2,
                    None => {
                        proof {
                            assert(false);
                        }
                        ' '
                    },
                };
                let ghost before = out@;
                string_push(&mut out, c2);
                proof {
                    assert(p.skip(2) =~= s@.skip(k as int + 2));
                    let cc = if e == '"' {
                        '"'
                    } else if e == '\\' {
                        '\\'
                    } else {
                        short_esc_code(e) as char
                    };
                    assert(c2 == cc);
                    match unesc(s@.skip(k as int + 2)) {
                        Some(tr) => {
                            assert(unesc(p) == Some((seq![cc] + tr.0, tr.1)));
                            assert(before + (seq![cc] + tr.0) =~= out@ + tr.0);
                        },
                        None => {
                            assert(unesc(p) is None);
                        },
                    }
                }
                k += 2;
            } else if e == 'u' {
                if n - k < 6 {
                    proof {
                        assert(p.len() < 6);
                    }
                    return None;
                }
                let z0 = s.get_char(k + 2);
                let z1 = s.get_char(k + 3);
                let h0 = s.get_char(k + 4);
                let h1 = s.get_char(k + 5);
                proof {
                    assert(p[2] == z0 && p[3] == z1 && p[4] == h0 && p[5] == h1);
                }
                if z0 != '0' || z1 != '0' {
                    return None;
                }
                match (hex_val_exec(h0), hex_val_exec(h1)) {
                    (Some(v0), Some(v1)) => {
                        let v: u32 = v0 as u32 * 16 + v1 as u32;
                        if v < 32 && !(v == 8 || v == 9 || v == 10 || v == 12 || v == 13) {
                            let c2 = match char_from_code(v) {
                                Some(c2) => c2,
                                None => {
                                    proof {
                                        assert(false);
                                    }
                                    ' '
                                },
                            };
                            let ghost before = out@;
                            string_push(&mut out, c2);
                            proof {
                                assert(p.skip(6) =~= s@.skip(k as int + 6));
                                assert(v as int == hex_val(p[4]) * 16 + hex_val(p[5]));
                                match unesc(s@.skip(k as int + 6)) {
                                    Some(tr) => {
                                        assert(unesc(p) == Some((seq![c2] + tr.0, tr.1)));
                                        assert(before + (seq![c2] + tr.0) =~= out@ + tr.0);
                                    },
                                    None => {
                                        assert(unesc(p) is None);
                                    },
                                }
                            }
                            k += 6;
                        } else {
                            return None;
                        }
                    },
                    _ => {
                        return None;
                    },
                }
            } else {
                return None;
            }
        } else if (c as u32) < 32 {
            return None;
        } else {
            let ghost before = out@;
            string_push(&mut out, c);
            proof {
                assert(p.skip(1) =~= s@.skip(k as int + 1));
                match unesc(s@.skip(k as int + 1)) {
                    Some(tr) => {
                        assert(unesc(p) == Some((seq![c] + tr.0, tr.1)));
                        assert(before + (seq![c] + tr.0) =~= out@ + tr.0);
                    },
                    None => {
                        assert(unesc(p) is None);
                    },
                }
            }
            k += 1;
        }
    }
}

} // verus!
