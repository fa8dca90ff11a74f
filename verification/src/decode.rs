//! The response decoder: parses the device's JSON response envelope into an
//! error code and payload fields, or reports a malformed body.
//!
//! The accepted grammar is a flat JSON object of string keys and integer,
//! boolean or string values, with whitespace tolerated between tokens.
//! Numbers follow JSON's integer rule (a leading zero ends the number;
//! fractions and exponents are outside the closed value variant). Strings
//! undo the JSON escapes, `\uXXXX` and surrogate pairs included, and reject
//! raw bytes below 0x20 and malformed escapes; their contents are byte
//! sequences, so raw bytes at or above 0x20 pass through without UTF-8
//! validation. The spec-level parser defines the grammar; every executable
//! parser is proved to agree with it exactly, so a malformed body can never
//! decode and a well-formed one can never be rejected.

use vstd::prelude::*;
use crate::value::{ParamValue, ValueModel};
use crate::command::{EnvelopeModel, ResponseEnvelope};
use crate::encode::{
    PairModel, pairs_model, error_code_key, QUOTE, BACKSLASH, LBRACE, RBRACE, COLON, COMMA, MINUS,
};

verus! {

/// JSON whitespace.
pub open spec fn is_ws(b: u8) -> bool {
    b == 32 || b == 9 || b == 10 || b == 13
}

/// An ASCII decimal digit.
pub open spec fn is_digit(b: u8) -> bool {
    48 <= b <= 57
}

/// Drops leading whitespace.
pub open spec fn spec_skip_ws(s: Seq<u8>) -> Seq<u8>
    decreases s.len(),
{
    if s.len() > 0 && is_ws(s[0]) {
        spec_skip_ws(s.drop_first())
    } else {
        s
    }
}

/// An ASCII hexadecimal digit, either case.
pub open spec fn is_hex(b: u8) -> bool {
    is_digit(b) || (97 <= b <= 102) || (65 <= b <= 70)
}

/// The value of one hexadecimal digit.
pub open spec fn hex_val(b: u8) -> int
    recommends
        is_hex(b),
{
    if is_digit(b) {
        b - 48
    } else if 97 <= b <= 102 {
        b - 87
    } else {
        b - 55
    }
}

/// The value of four leading hexadecimal digits.
pub open spec fn hex4_val(s: Seq<u8>) -> int
    recommends
        s.len() >= 4,
{
    hex_val(s[0]) * 4096 + hex_val(s[1]) * 256 + hex_val(s[2]) * 16 + hex_val(s[3])
}

/// A UTF-16 high-surrogate code unit.
pub open spec fn is_high_surrogate(n: int) -> bool {
    0xD800 <= n <= 0xDBFF
}

/// A UTF-16 low-surrogate code unit.
pub open spec fn is_low_surrogate(n: int) -> bool {
    0xDC00 <= n <= 0xDFFF
}

/// The UTF-8 bytes of one code point.
pub open spec fn utf8_bytes(c: int) -> Seq<u8>
    recommends
        0 <= c < 0x110000,
{
    if c < 0x80 {
        seq![c as u8]
    } else if c < 0x800 {
        seq![(192 + c / 64) as u8, (128 + c % 64) as u8]
    } else if c < 0x10000 {
        seq![(224 + c / 4096) as u8, (128 + (c / 64) % 64) as u8, (128 + c % 64) as u8]
    } else {
        seq![
            (240 + c / 262144) as u8,
            (128 + (c / 4096) % 64) as u8,
            (128 + (c / 64) % 64) as u8,
            (128 + c % 64) as u8,
        ]
    }
}

/// The byte a short letter escape stands for.
pub open spec fn unescape_letter(e: u8) -> u8 {
    if e == 98 {
        8
    } else if e == 102 {
        12
    } else if e == 110 {
        10
    } else if e == 114 {
        13
    } else {
        9
    }
}

/// Parses a string body up to and over the closing quote, undoing the JSON
/// escapes: the two self-escapes, `\/`, the five short control escapes, and
/// `\uXXXX` with surrogate pairs decoded to the UTF-8 bytes of their code
/// point. A raw byte below 0x20 or a malformed escape is rejected.
pub open spec fn spec_parse_string_body(s: Seq<u8>) -> Option<(Seq<u8>, Seq<u8>)>
    decreases s.len(),
{
    if s.len() == 0 {
        None
    } else if s[0] == QUOTE {
        Some((Seq::empty(), s.drop_first()))
    } else if s[0] == BACKSLASH {
        if s.len() < 2 {
            None
        } else {
            let e = s[1];
            if e == QUOTE || e == BACKSLASH || e == 47 {
                match spec_parse_string_body(s.skip(2)) {
                    None => None,
                    Some((c, r)) => Some((seq![e] + c, r)),
                }
            } else if e == 98 || e == 102 || e == 110 || e == 114 || e == 116 {
                match spec_parse_string_body(s.skip(2)) {
                    None => None,
                    Some((c, r)) => Some((seq![unescape_letter(e)] + c, r)),
                }
            } else if e == 117 {
                if s.len() >= 6 && is_hex(s[2]) && is_hex(s[3]) && is_hex(s[4]) && is_hex(s[5]) {
                    let n = hex4_val(s.skip(2));
                    if is_low_surrogate(n) {
                        None
                    } else if is_high_surrogate(n) {
                        if s.len() >= 12 && s[6] == BACKSLASH && s[7] == 117 && is_hex(s[8])
                            && is_hex(s[9]) && is_hex(s[10]) && is_hex(s[11]) {
                            let m = hex4_val(s.skip(8));
                            if is_low_surrogate(m) {
                                let cp = 0x10000 + (n - 0xD800) * 0x400 + (m - 0xDC00);
                                match spec_parse_string_body(s.skip(12)) {
                                    None => None,
                                    Some((c, r)) => Some((utf8_bytes(cp) + c, r)),
                                }
                            } else {
                                None
                            }
                        } else {
                            None
                        }
                    } else {
                        match spec_parse_string_body(s.skip(6)) {
                            None => None,
                            Some((c, r)) => Some((utf8_bytes(n) + c, r)),
                        }
                    }
                } else {
                    None
                }
            } else {
                None
            }
        }
    } else if s[0] < 32 {
        None
    } else {
        match spec_parse_string_body(s.drop_first()) {
            None => None,
            Some((c, r)) => Some((seq![s[0]] + c, r)),
        }
    }
}

/// Parses a quoted JSON string.
pub open spec fn spec_parse_string(s: Seq<u8>) -> Option<(Seq<u8>, Seq<u8>)> {
    if s.len() > 0 && s[0] == QUOTE {
        spec_parse_string_body(s.drop_first())
    } else {
        None
    }
}

/// Folds leading decimal digits into `acc`, most significant first.
pub open spec fn spec_parse_digits(s: Seq<u8>, acc: nat) -> (nat, Seq<u8>)
    decreases s.len(),
{
    if s.len() > 0 && is_digit(s[0]) {
        spec_parse_digits(s.drop_first(), acc * 10 + (s[0] - 48) as nat)
    } else {
        (acc, s)
    }
}

/// Parses a JSON integer. As JSON requires, a leading zero ends the
/// number: any digit after it is left in the input, where the surrounding
/// grammar rejects it. A value outside the signed 64-bit range is rejected
/// rather than wrapped.
pub open spec fn spec_parse_int(s: Seq<u8>) -> Option<(int, Seq<u8>)> {
    if s.len() >= 2 && s[0] == MINUS && is_digit(s[1]) {
        if s[1] == 48 {
            Some((0, s.skip(2)))
        } else {
            let (v, r) = spec_parse_digits(s.drop_first(), 0);
            if -(v as int) >= i64::MIN {
                Some((-(v as int), r))
            } else {
                None
            }
        }
    } else if s.len() >= 1 && is_digit(s[0]) {
        if s[0] == 48 {
            Some((0, s.drop_first()))
        } else {
            let (v, r) = spec_parse_digits(s, 0);
            if v <= i64::MAX {
                Some((v as int, r))
            } else {
                None
            }
        }
    } else {
        None
    }
}

/// Parses a JSON boolean literal.
pub open spec fn spec_parse_bool(s: Seq<u8>) -> Option<(bool, Seq<u8>)> {
    if s.len() >= 4 && s[0] == 116 && s[1] == 114 && s[2] == 117 && s[3] == 101 {
        Some((true, s.skip(4)))
    } else if s.len() >= 5 && s[0] == 102 && s[1] == 97 && s[2] == 108 && s[3] == 115 && s[4]
        == 101 {
        Some((false, s.skip(5)))
    } else {
        None
    }
}

/// Parses one JSON value of the closed parameter-value variant.
pub open spec fn spec_parse_value(s: Seq<u8>) -> Option<(ValueModel, Seq<u8>)> {
    if s.len() == 0 {
        None
    } else if s[0] == QUOTE {
        match spec_parse_string(s) {
            None => None,
            Some((t, r)) => Some((ValueModel::Text(t), r)),
        }
    } else if s[0] == MINUS || is_digit(s[0]) {
        match spec_parse_int(s) {
            None => None,
            Some((i, r)) => Some((ValueModel::Int(i), r)),
        }
    } else if s[0] == 116 || s[0] == 102 {
        match spec_parse_bool(s) {
            None => None,
            Some((b, r)) => Some((ValueModel::Bool(b), r)),
        }
    } else {
        None
    }
}

/// Parses one `"key": value` member.
pub open spec fn spec_parse_pair(s: Seq<u8>) -> Option<(PairModel, Seq<u8>)> {
    match spec_parse_string(s) {
        None => None,
        Some((k, r1)) => {
            let r2 = spec_skip_ws(r1);
            if r2.len() > 0 && r2[0] == COLON {
                let r3 = spec_skip_ws(r2.drop_first());
                match spec_parse_value(r3) {
                    None => None,
                    Some((v, r4)) => Some(((k, v), r4)),
                }
            } else {
                None
            }
        },
    }
}

/// Skipping whitespace never lengthens the input.
pub proof fn lemma_skip_ws_len(s: Seq<u8>)
    ensures
        spec_skip_ws(s).len() <= s.len(),
    decreases s.len(),
{
    if s.len() > 0 && is_ws(s[0]) {
        lemma_skip_ws_len(s.drop_first());
    }
}

/// A parsed string body consumes at least its closing quote.
pub proof fn lemma_parse_string_body_consumes(s: Seq<u8>)
    ensures
        spec_parse_string_body(s) matches Some(p) ==> p.1.len() < s.len(),
    decreases s.len(),
{
    if s.len() == 0 {
    } else if s[0] == QUOTE {
    } else if s[0] == BACKSLASH {
        if s.len() >= 2 {
            let e = s[1];
            if e == QUOTE || e == BACKSLASH || e == 47 || e == 98 || e == 102 || e == 110 || e
                == 114 || e == 116 {
                lemma_parse_string_body_consumes(s.skip(2));
            } else if e == 117 && s.len() >= 6 {
                lemma_parse_string_body_consumes(s.skip(6));
                if s.len() >= 12 {
                    lemma_parse_string_body_consumes(s.skip(12));
                }
            }
        }
    } else if s[0] < 32 {
    } else {
        lemma_parse_string_body_consumes(s.drop_first());
    }
}

/// Leading digits only shrink the input.
pub proof fn lemma_parse_digits_consumes(s: Seq<u8>, acc: nat)
    ensures
        spec_parse_digits(s, acc).1.len() <= s.len(),
    decreases s.len(),
{
    if s.len() > 0 && is_digit(s[0]) {
        lemma_parse_digits_consumes(s.drop_first(), acc * 10 + (s[0] - 48) as nat);
    }
}

/// A parsed value consumes at least one byte.
pub proof fn lemma_parse_value_consumes(s: Seq<u8>)
    ensures
        spec_parse_value(s) matches Some(p) ==> p.1.len() < s.len(),
{
    if s.len() > 0 {
        if s[0] == QUOTE {
            lemma_parse_string_body_consumes(s.drop_first());
        } else if s[0] == MINUS || is_digit(s[0]) {
            if s.len() >= 2 && s[0] == MINUS && is_digit(s[1]) {
                lemma_parse_digits_consumes(s.drop_first(), 0);
            } else if is_digit(s[0]) {
                assert(spec_parse_digits(s, 0) == spec_parse_digits(
                    s.drop_first(),
                    (s[0] - 48) as nat,
                ));
                lemma_parse_digits_consumes(s.drop_first(), (s[0] - 48) as nat);
            }
        }
    }
}

/// A parsed member consumes at least one byte.
pub proof fn lemma_parse_pair_consumes(s: Seq<u8>)
    ensures
        spec_parse_pair(s) matches Some(p) ==> p.1.len() < s.len(),
{
    if s.len() > 0 && s[0] == QUOTE {
        lemma_parse_string_body_consumes(s.drop_first());
        match spec_parse_string(s) {
            None => {},
            Some((k, r1)) => {
                lemma_skip_ws_len(r1);
                let r2 = spec_skip_ws(r1);
                if r2.len() > 0 && r2[0] == COLON {
                    lemma_skip_ws_len(r2.drop_first());
                    let r3 = spec_skip_ws(r2.drop_first());
                    lemma_parse_value_consumes(r3);
                }
            },
        }
    }
}

/// Parses one or more comma-separated members, consuming trailing
/// whitespace after the last one.
pub open spec fn spec_parse_pairs(s: Seq<u8>) -> Option<(Seq<PairModel>, Seq<u8>)>
    decreases s.len(),
    via spec_parse_pairs_dec
{
    match spec_parse_pair(s) {
        None => None,
        Some((p, r1)) => {
            let r2 = spec_skip_ws(r1);
            if r2.len() > 0 && r2[0] == COMMA {
                match spec_parse_pairs(spec_skip_ws(r2.drop_first())) {
                    None => None,
                    Some((ps, r3)) => Some((seq![p] + ps, r3)),
                }
            } else {
                Some((seq![p], r2))
            }
        },
    }
}

#[via_fn]
proof fn spec_parse_pairs_dec(s: Seq<u8>) {
    lemma_parse_pair_consumes(s);
    match spec_parse_pair(s) {
        None => {},
        Some((p, r1)) => {
            lemma_skip_ws_len(r1);
            let r2 = spec_skip_ws(r1);
            if r2.len() > 0 && r2[0] == COMMA {
                lemma_skip_ws_len(r2.drop_first());
            }
        },
    }
}

/// Parses a flat JSON object.
pub open spec fn spec_parse_object(s: Seq<u8>) -> Option<(Seq<PairModel>, Seq<u8>)> {
    if s.len() > 0 && s[0] == LBRACE {
        let r1 = spec_skip_ws(s.drop_first());
        if r1.len() > 0 && r1[0] == RBRACE {
            Some((Seq::empty(), r1.drop_first()))
        } else {
            match spec_parse_pairs(r1) {
                None => None,
                Some((ps, r2)) => {
                    if r2.len() > 0 && r2[0] == RBRACE {
                        Some((ps, r2.drop_first()))
                    } else {
                        None
                    }
                },
            }
        }
    } else {
        None
    }
}

/// Splits the error code out of the parsed members: the first member keyed
/// `error_code` must hold an integer; the rest are the payload, in order.
pub open spec fn spec_find_error_code(ps: Seq<PairModel>) -> Option<(int, Seq<PairModel>)>
    decreases ps.len(),
{
    if ps.len() == 0 {
        None
    } else if ps[0].0 == error_code_key() {
        match ps[0].1 {
            ValueModel::Int(i) => Some((i, ps.drop_first())),
            _ => None,
        }
    } else {
        match spec_find_error_code(ps.drop_first()) {
            None => None,
            Some((c, rest)) => Some((c, seq![ps[0]] + rest)),
        }
    }
}

/// The decoding rule for a raw response body: one flat JSON object holding
/// an integer `error_code`, surrounded by nothing but whitespace. Anything
/// else is malformed.
pub open spec fn spec_decode(s: Seq<u8>) -> Option<EnvelopeModel> {
    match spec_parse_object(spec_skip_ws(s)) {
        None => None,
        Some((ps, r)) => {
            if spec_skip_ws(r).len() == 0 {
                match spec_find_error_code(ps) {
                    None => None,
                    Some((c, payload)) => Some(EnvelopeModel { error_code: c, payload }),
                }
            } else {
                None
            }
        },
    }
}

/// Byte-for-byte slice equality.
fn bytes_eq(a: &[u8], b: &[u8]) -> (r: bool)
    ensures
        r == (a@ == b@),
{
    if a.len() != b.len() {
        return false;
    }
    let mut i: usize = 0;
    while i < a.len()
        invariant
            i <= a@.len(),
            a@.len() == b@.len(),
            forall|j: int| 0 <= j < i ==> a@[j] == b@[j],
        decreases a@.len() - i,
    {
        if a[i] != b[i] {
            return false;
        }
        i = i + 1;
    }
    proof {
        assert(a@ =~= b@);
    }
    true
}

/// Returns the input after its leading whitespace.
fn skip_ws<'a>(s: &'a [u8]) -> (r: &'a [u8])
    ensures
        r@ == spec_skip_ws(s@),
{
    let mut i: usize = 0;
    proof {
        assert(s@.skip(0) =~= s@);
    }
    while i < s.len() && (s[i] == 32 || s[i] == 9 || s[i] == 10 || s[i] == 13)
        invariant
            i <= s@.len(),
            spec_skip_ws(s@) == spec_skip_ws(s@.skip(i as int)),
        decreases s@.len() - i,
    {
        proof {
            assert(s@.skip(i as int).drop_first() =~= s@.skip(i + 1));
        }
        i = i + 1;
    }
    let r = &s[i..s.len()];
    proof {
        assert(r@ =~= s@.skip(i as int));
    }
    r
}

/// The value of one hexadecimal digit, or nothing if the byte is not one.
fn hex_val_u32(b: u8) -> (r: Option<u32>)
    ensures
        match r {
            Some(v) => is_hex(b) && v as int == hex_val(b) && v < 16,
            None => !is_hex(b),
        },
{
    if 48 <= b && b <= 57 {
        Some((b - 48) as u32)
    } else if 97 <= b && b <= 102 {
        Some((b - 87) as u32)
    } else if 65 <= b && b <= 70 {
        Some((b - 55) as u32)
    } else {
        None
    }
}

/// The value of the four hexadecimal digits at `s[i..i+4]`, or nothing if
/// any byte is not one.
fn hex4_val_u32(s: &[u8], i: usize) -> (r: Option<u32>)
    requires
        i + 4 <= s@.len(),
    ensures
        match r {
            Some(v) => is_hex(s@[i as int]) && is_hex(s@[i + 1]) && is_hex(s@[i + 2]) && is_hex(
                s@[i + 3],
            ) && v as int == hex4_val(s@.skip(i as int)) && v <= 0xFFFF,
            None => !(is_hex(s@[i as int]) && is_hex(s@[i + 1]) && is_hex(s@[i + 2]) && is_hex(
                s@[i + 3],
            )),
        },
{
    let h0 = hex_val_u32(s[i]);
    let h1 = hex_val_u32(s[i + 1]);
    let h2 = hex_val_u32(s[i + 2]);
    let h3 = hex_val_u32(s[i + 3]);
    match (h0, h1, h2, h3) {
        (Some(a), Some(b), Some(c), Some(d)) => {
            proof {
                assert(s@.skip(i as int)[0] == s@[i as int]);
                assert(s@.skip(i as int)[1] == s@[i + 1]);
                assert(s@.skip(i as int)[2] == s@[i + 2]);
                assert(s@.skip(i as int)[3] == s@[i + 3]);
            }
            Some(a * 4096 + b * 256 + c * 16 + d)
        },
        _ => None,
    }
}

/// The UTF-8 bytes of one code point.
fn utf8_bytes_vec(c: u32) -> (r: Vec<u8>)
    requires
        c < 0x110000,
    ensures
        r@ == utf8_bytes(c as int),
{
    let mut r: Vec<u8> = Vec::new();
    if c < 0x80 {
        r.push(c as u8);
    } else if c < 0x800 {
        r.push((192 + c / 64) as u8);
        r.push((128 + c % 64) as u8);
    } else if c < 0x10000 {
        r.push((224 + c / 4096) as u8);
        r.push((128 + (c / 64) % 64) as u8);
        r.push((128 + c % 64) as u8);
    } else {
        r.push((240 + c / 262144) as u8);
        r.push((128 + (c / 4096) % 64) as u8);
        r.push((128 + (c / 64) % 64) as u8);
        r.push((128 + c % 64) as u8);
    }
    proof {
        assert(r@ =~= utf8_bytes(c as int));
    }
    r
}

/// Parses a string body after the opening quote.
fn parse_string_body<'a>(s: &'a [u8]) -> (r: Option<(Vec<u8>, &'a [u8])>)
    ensures
        match spec_parse_string_body(s@) {
            Some((c, rest)) => r matches Some(p) && p.0@ == c && p.1@ == rest,
            None => r is None,
        },
    decreases s@.len(),
{
    if s.len() == 0 {
        return None;
    }
    let b = s[0];
    if b == QUOTE {
        let rest = &s[1..s.len()];
        proof {
            assert(rest@ =~= s@.drop_first());
        }
        return Some((Vec::new(), rest));
    }
    if b == BACKSLASH {
        if s.len() < 2 {
            return None;
        }
        let e = s[1];
        if e == QUOTE || e == BACKSLASH || e == 47 {
            let tail = &s[2..s.len()];
            proof {
                assert(tail@ =~= s@.skip(2));
            }
            match parse_string_body(tail) {
                None => None,
                Some((c, rest)) => {
                    let mut c = c;
                    c.insert(0, e);
                    proof {
                        assert(c@ =~= seq![s@[1]] + c@.drop_first());
                    }
                    Some((c, rest))
                },
            }
        } else if e == 98 || e == 102 || e == 110 || e == 114 || e == 116 {
            let raw: u8 = if e == 98 {
                8
            } else if e == 102 {
                12
            } else if e == 110 {
                10
            } else if e == 114 {
                13
            } else {
                9
            };
            let tail = &s[2..s.len()];
            proof {
                assert(tail@ =~= s@.skip(2));
                assert(raw == unescape_letter(e));
            }
            match parse_string_body(tail) {
                None => None,
                Some((c, rest)) => {
                    let mut c = c;
                    c.insert(0, raw);
                    proof {
                        assert(c@ =~= seq![unescape_letter(s@[1])] + c@.drop_first());
                    }
                    Some((c, rest))
                },
            }
        } else if e == 117 {
            if s.len() < 6 {
                return None;
            }
            let n = match hex4_val_u32(s, 2) {
                Some(n) => n,
                None => {
                    return None;
                },
            };
            if 0xDC00 <= n && n <= 0xDFFF {
                return None;
            }
            if 0xD800 <= n && n <= 0xDBFF {
                if s.len() < 12 || s[6] != BACKSLASH || s[7] != 117 {
                    return None;
                }
                let m = match hex4_val_u32(s, 8) {
                    Some(m) => m,
                    None => {
                        return None;
                    },
                };
                if !(0xDC00 <= m && m <= 0xDFFF) {
                    return None;
                }
                let cp: u32 = 0x10000 + (n - 0xD800) * 0x400 + (m - 0xDC00);
                let tail = &s[12..s.len()];
                proof {
                    assert(tail@ =~= s@.skip(12));
                }
                match parse_string_body(tail) {
                    None => None,
                    Some((c, rest)) => {
                        let mut c = c;
                        let mut w = utf8_bytes_vec(cp);
                        let ghost tail_bytes = c@;
                        w.append(&mut c);
                        proof {
                            assert(w@ =~= utf8_bytes(cp as int) + tail_bytes);
                        }
                        Some((w, rest))
                    },
                }
            } else {
                let tail = &s[6..s.len()];
                proof {
                    assert(tail@ =~= s@.skip(6));
                }
                match parse_string_body(tail) {
                    None => None,
                    Some((c, rest)) => {
                        let mut c = c;
                        let mut w = utf8_bytes_vec(n);
                        let ghost tail_bytes = c@;
                        w.append(&mut c);
                        proof {
                            assert(w@ =~= utf8_bytes(n as int) + tail_bytes);
                        }
                        Some((w, rest))
                    },
                }
            }
        } else {
            None
        }
    } else if b < 32 {
        None
    } else {
        let tail = &s[1..s.len()];
        proof {
            assert(tail@ =~= s@.drop_first());
        }
        match parse_string_body(tail) {
            None => None,
            Some((c, rest)) => {
                let mut c = c;
                c.insert(0, b);
                proof {
                    assert(c@ =~= seq![s@[0]] + c@.drop_first());
                }
                Some((c, rest))
            },
        }
    }
}

/// Parses a quoted JSON string.
fn parse_string<'a>(s: &'a [u8]) -> (r: Option<(Vec<u8>, &'a [u8])>)
    ensures
        match spec_parse_string(s@) {
            Some((c, rest)) => r matches Some(p) && p.0@ == c && p.1@ == rest,
            None => r is None,
        },
{
    if s.len() > 0 && s[0] == QUOTE {
        let tail = &s[1..s.len()];
        proof {
            assert(tail@ =~= s@.drop_first());
        }
        parse_string_body(tail)
    } else {
        None
    }
}

/// Folds leading digits into a 64-bit accumulator, reporting overflow of
/// the unsigned range instead of wrapping.
fn parse_digits<'a>(s: &'a [u8]) -> (r: (bool, u64, &'a [u8]))
    ensures
        r.2@ == spec_parse_digits(s@, 0).1,
        r.0 ==> spec_parse_digits(s@, 0).0 > u64::MAX,
        !r.0 ==> spec_parse_digits(s@, 0).0 == r.1 as nat,
{
    let mut i: usize = 0;
    let mut acc: u64 = 0;
    let mut over = false;
    let ghost mut v: nat = 0nat;
    proof {
        assert(s@.skip(0) =~= s@);
    }
    while i < s.len() && 48 <= s[i] && s[i] <= 57
        invariant
            i <= s@.len(),
            spec_parse_digits(s@, 0) == spec_parse_digits(s@.skip(i as int), v),
            !over ==> v == acc as nat,
            over ==> v > u64::MAX,
        decreases s@.len() - i,
    {
        let d = s[i] - 48;
        proof {
            assert(s@.skip(i as int).drop_first() =~= s@.skip(i + 1));
            assert(spec_parse_digits(s@.skip(i as int), v) == spec_parse_digits(
                s@.skip(i + 1),
                v * 10 + d as nat,
            ));
        }
        if !over {
            let stepped = match acc.checked_mul(10) {
                Some(m) => m.checked_add(d as u64),
                None => None,
            };
            match stepped {
                Some(a) => {
                    acc = a;
                },
                None => {
                    over = true;
                },
            }
        } else {
            proof {
                assert(v * 10 >= v) by (nonlinear_arith)
                    requires
                        v >= 0,
                ;
            }
        }
        proof {
            v = v * 10 + d as nat;
        }
        i = i + 1;
    }
    let rest = &s[i..s.len()];
    proof {
        assert(rest@ =~= s@.skip(i as int));
    }
    (over, acc, rest)
}

/// Parses a JSON integer within the signed 64-bit range.
fn parse_int<'a>(s: &'a [u8]) -> (r: Option<(i64, &'a [u8])>)
    ensures
        match spec_parse_int(s@) {
            Some((v, rest)) => r matches Some(p) && p.0 as int == v && p.1@ == rest,
            None => r is None,
        },
{
    if s.len() >= 2 && s[0] == MINUS && 48 <= s[1] && s[1] <= 57 {
        if s[1] == 48 {
            let rest = &s[2..s.len()];
            proof {
                assert(rest@ =~= s@.skip(2));
            }
            return Some((0, rest));
        }
        let tail = &s[1..s.len()];
        proof {
            assert(tail@ =~= s@.drop_first());
        }
        let (over, acc, rest) = parse_digits(tail);
        if over || acc > 9223372036854775808u64 {
            None
        } else if acc == 9223372036854775808u64 {
            Some((i64::MIN, rest))
        } else {
            Some((-(acc as i64), rest))
        }
    } else if s.len() >= 1 && 48 <= s[0] && s[0] <= 57 {
        if s[0] == 48 {
            let rest = &s[1..s.len()];
            proof {
                assert(rest@ =~= s@.drop_first());
            }
            return Some((0, rest));
        }
        let (over, acc, rest) = parse_digits(s);
        if over || acc > i64::MAX as u64 {
            None
        } else {
            Some((acc as i64, rest))
        }
    } else {
        None
    }
}

/// Parses a JSON boolean literal.
fn parse_bool<'a>(s: &'a [u8]) -> (r: Option<(bool, &'a [u8])>)
    ensures
        match spec_parse_bool(s@) {
            Some((b, rest)) => r matches Some(p) && p.0 == b && p.1@ == rest,
            None => r is None,
        },
{
    if s.len() >= 4 && s[0] == 116 && s[1] == 114 && s[2] == 117 && s[3] == 101 {
        let rest = &s[4..s.len()];
        proof {
            assert(rest@ =~= s@.skip(4));
        }
        Some((true, rest))
    } else if s.len() >= 5 && s[0] == 102 && s[1] == 97 && s[2] == 108 && s[3] == 115 && s[4]
        == 101 {
        let rest = &s[5..s.len()];
        proof {
            assert(rest@ =~= s@.skip(5));
        }
        Some((false, rest))
    } else {
        None
    }
}

/// Parses one JSON value of the closed parameter-value variant.
fn parse_value<'a>(s: &'a [u8]) -> (r: Option<(ParamValue, &'a [u8])>)
    ensures
        match spec_parse_value(s@) {
            Some((v, rest)) => r matches Some(p) && p.0@ == v && p.1@ == rest,
            None => r is None,
        },
{
    if s.len() == 0 {
        None
    } else if s[0] == QUOTE {
        match parse_string(s) {
            None => None,
            Some((t, rest)) => Some((ParamValue::Text(t), rest)),
        }
    } else if s[0] == MINUS || (48 <= s[0] && s[0] <= 57) {
        match parse_int(s) {
            None => None,
            Some((i, rest)) => Some((ParamValue::Int(i), rest)),
        }
    } else if s[0] == 116 || s[0] == 102 {
        match parse_bool(s) {
            None => None,
            Some((b, rest)) => Some((ParamValue::Bool(b), rest)),
        }
    } else {
        None
    }
}

/// Parses one `"key": value` member.
fn parse_pair<'a>(s: &'a [u8]) -> (r: Option<((Vec<u8>, ParamValue), &'a [u8])>)
    ensures
        match spec_parse_pair(s@) {
            Some((pm, rest)) => r matches Some(p) && p.0.0@ == pm.0 && p.0.1@ == pm.1 && p.1@
                == rest,
            None => r is None,
        },
{
    match parse_string(s) {
        None => None,
        Some((k, r1)) => {
            let r2 = skip_ws(r1);
            if r2.len() > 0 && r2[0] == COLON {
                let after = &r2[1..r2.len()];
                proof {
                    assert(after@ =~= r2@.drop_first());
                }
                let r3 = skip_ws(after);
                match parse_value(r3) {
                    None => None,
                    Some((v, r4)) => Some(((k, v), r4)),
                }
            } else {
                None
            }
        },
    }
}

/// Parses one or more comma-separated members.
fn parse_pairs<'a>(s: &'a [u8]) -> (r: Option<(Vec<(Vec<u8>, ParamValue)>, &'a [u8])>)
    ensures
        match spec_parse_pairs(s@) {
            Some((ps, rest)) => r matches Some(p) && pairs_model(p.0@) == ps && p.1@ == rest,
            None => r is None,
        },
    decreases s@.len(),
{
    match parse_pair(s) {
        None => None,
        Some((p, r1)) => {
            let r2 = skip_ws(r1);
            if r2.len() > 0 && r2[0] == COMMA {
                let after = &r2[1..r2.len()];
                proof {
                    assert(after@ =~= r2@.drop_first());
                    lemma_parse_pair_consumes(s@);
                    lemma_skip_ws_len(r1@);
                    lemma_skip_ws_len(r2@.drop_first());
                }
                let r3 = skip_ws(after);
                match parse_pairs(r3) {
                    None => None,
                    Some((ps, r4)) => {
                        let mut ps = ps;
                        let ghost tail_model = pairs_model(ps@);
                        ps.insert(0, p);
                        proof {
                            assert(pairs_model(ps@) =~= seq![
                                (ps@[0].0@, ps@[0].1@),
                            ] + tail_model);
                        }
                        Some((ps, r4))
                    },
                }
            } else {
                let mut ps: Vec<(Vec<u8>, ParamValue)> = Vec::new();
                ps.push(p);
                proof {
                    assert(pairs_model(ps@) =~= seq![(ps@[0].0@, ps@[0].1@)]);
                }
                Some((ps, r2))
            }
        },
    }
}

/// Parses a flat JSON object.
fn parse_object<'a>(s: &'a [u8]) -> (r: Option<(Vec<(Vec<u8>, ParamValue)>, &'a [u8])>)
    ensures
        match spec_parse_object(s@) {
            Some((ps, rest)) => r matches Some(p) && pairs_model(p.0@) == ps && p.1@ == rest,
            None => r is None,
        },
{
    if s.len() > 0 && s[0] == LBRACE {
        let after = &s[1..s.len()];
        proof {
            assert(after@ =~= s@.drop_first());
        }
        let r1 = skip_ws(after);
        if r1.len() > 0 && r1[0] == RBRACE {
            let rest = &r1[1..r1.len()];
            proof {
                assert(rest@ =~= r1@.drop_first());
                assert(pairs_model(Seq::<(Vec<u8>, ParamValue)>::empty()) =~= Seq::<
                    PairModel,
                >::empty());
            }
            Some((Vec::new(), rest))
        } else {
            match parse_pairs(r1) {
                None => None,
                Some((ps, r2)) => {
                    if r2.len() > 0 && r2[0] == RBRACE {
                        let rest = &r2[1..r2.len()];
                        proof {
                            assert(rest@ =~= r2@.drop_first());
                        }
                        Some((ps, rest))
                    } else {
                        None
                    }
                },
            }
        }
    } else {
        None
    }
}

/// Splits the error code out of the parsed members.
fn take_error_code(ps: Vec<(Vec<u8>, ParamValue)>) -> (r: Option<
    (i64, Vec<(Vec<u8>, ParamValue)>),
>)
    ensures
        match spec_find_error_code(pairs_model(ps@)) {
            Some((c, rest)) => r matches Some(p) && p.0 as int == c && pairs_model(p.1@) == rest,
            None => r is None,
        },
    decreases ps@.len(),
{
    let mut ps = ps;
    if ps.len() == 0 {
        return None;
    }
    let ghost m = pairs_model(ps@);
    let (k, v) = ps.remove(0);
    proof {
        assert(pairs_model(ps@) =~= m.drop_first());
        assert(m[0] == (k@, v@));
    }
    if bytes_eq(k.as_slice(), "error_code".as_bytes()) {
        match v {
            ParamValue::Int(i) => Some((i, ps)),
            _ => None,
        }
    } else {
        match take_error_code(ps) {
            None => None,
            Some((c, rest)) => {
                let mut rest = rest;
                let ghost rm = pairs_model(rest@);
                rest.insert(0, (k, v));
                proof {
                    assert(pairs_model(rest@) =~= seq![m[0]] + rm);
                }
                Some((c, rest))
            },
        }
    }
}

/// Decodes a raw response body into the envelope it holds, or reports that
/// the body is malformed. The result agrees exactly with the decoding rule
/// [`spec_decode`]: no malformed body decodes, and no well-formed body is
/// rejected.
pub fn decode_response(body: &[u8]) -> (r: Option<ResponseEnvelope>)
    ensures
        match spec_decode(body@) {
            Some(e) => r matches Some(env) && env@ == e,
            None => r is None,
        },
{
    let start = skip_ws(body);
    match parse_object(start) {
        None => None,
        Some((ps, rest)) => {
            let tail = skip_ws(rest);
            if tail.len() != 0 {
                None
            } else {
                match take_error_code(ps) {
                    None => None,
                    Some((code, payload)) => Some(ResponseEnvelope { error_code: code, payload }),
                }
            }
        },
    }
}

} // verus!
