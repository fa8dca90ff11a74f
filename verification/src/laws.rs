//! The laws relating the encoder and the decoder: a response envelope the
//! encoder produces is decoded back to exactly the same envelope, and a
//! batch body carries the encodings of its commands in append order.

use vstd::prelude::*;
use crate::value::ValueModel;
use crate::command::{CommandModel, EnvelopeModel};
use crate::encode::{
    PairModel, hex_digit, spec_escape, spec_escape_byte, spec_encode_string, spec_digits,
    spec_encode_int, spec_encode_bool, spec_encode_value, spec_encode_pair, spec_encode_pairs,
    spec_encode_object, spec_encode_envelope, spec_encode_command, spec_encode_command_list,
    error_code_key, QUOTE, BACKSLASH, LBRACE, RBRACE, COLON, COMMA, MINUS,
};
use crate::decode::{
    is_ws, is_digit, is_hex, hex_val, hex4_val, is_high_surrogate, is_low_surrogate, utf8_bytes,
    unescape_letter, spec_skip_ws, spec_parse_string_body, spec_parse_string, spec_parse_digits,
    spec_parse_int, spec_parse_bool, spec_parse_value, spec_parse_pair, spec_parse_pairs,
    spec_parse_object, spec_find_error_code, spec_decode,
};

verus! {

/// Skipping whitespace over an input that starts with none is the identity.
proof fn lemma_skip_ws_id(s: Seq<u8>)
    requires
        s.len() == 0 || !is_ws(s[0]),
    ensures
        spec_skip_ws(s) == s,
{
}

/// Parsing the escaped body plus its closing quote recovers the body.
proof fn lemma_parse_string_body_round(c: Seq<u8>, rest: Seq<u8>)
    ensures
        spec_parse_string_body(spec_escape(c) + seq![QUOTE] + rest) == Some((c, rest)),
    decreases c.len(),
{
    let s = spec_escape(c) + seq![QUOTE] + rest;
    if c.len() == 0 {
        assert(s =~= seq![QUOTE] + rest);
        assert(s[0] == QUOTE);
        assert(s.drop_first() =~= rest);
        assert(c =~= Seq::<u8>::empty());
    } else {
        let b = c[0];
        let tail = spec_escape(c.drop_first()) + seq![QUOTE] + rest;
        lemma_parse_string_body_round(c.drop_first(), rest);
        if b == QUOTE || b == BACKSLASH {
            assert(s =~= seq![BACKSLASH, b] + tail);
            assert(s[0] == BACKSLASH);
            assert(s[1] == b);
            assert(s.len() >= 2);
            assert(s.skip(2) =~= tail);
            assert(seq![b] + c.drop_first() =~= c);
        } else if b == 8 || b == 9 || b == 10 || b == 12 || b == 13 {
            let e: u8 = if b == 8 {
                98
            } else if b == 9 {
                116
            } else if b == 10 {
                110
            } else if b == 12 {
                102
            } else {
                114
            };
            assert(spec_escape_byte(b) =~= seq![BACKSLASH, e]);
            assert(s =~= seq![BACKSLASH, e] + tail);
            assert(s[0] == BACKSLASH);
            assert(s[1] == e);
            assert(s.len() >= 2);
            assert(e != QUOTE && e != BACKSLASH && e != 47 && e != 117);
            assert(unescape_letter(e) == b);
            assert(s.skip(2) =~= tail);
            assert(seq![b] + c.drop_first() =~= c);
        } else if b < 32 {
            let h1 = hex_digit(b as int / 16);
            let h2 = hex_digit(b as int % 16);
            assert(spec_escape_byte(b) =~= seq![BACKSLASH, 117u8, 48u8, 48u8, h1, h2]);
            assert(s =~= seq![BACKSLASH, 117u8, 48u8, 48u8, h1, h2] + tail);
            assert(s[0] == BACKSLASH && s[1] == 117 && s[2] == 48 && s[3] == 48 && s[4] == h1
                && s[5] == h2);
            assert(s.len() >= 6);
            assert(is_hex(48u8) && hex_val(48u8) == 0);
            assert(b as int / 16 < 2);
            assert(is_hex(h1) && hex_val(h1) == b as int / 16);
            assert(is_hex(h2) && hex_val(h2) == b as int % 16);
            assert(s.skip(2)[0] == 48 && s.skip(2)[1] == 48 && s.skip(2)[2] == h1 && s.skip(2)[3]
                == h2);
            let n = hex4_val(s.skip(2));
            assert(n == (b as int / 16) * 16 + b as int % 16);
            assert(n == b as int);
            assert(!is_low_surrogate(n) && !is_high_surrogate(n));
            assert(utf8_bytes(n) =~= seq![b]);
            assert(s.skip(6) =~= tail);
            assert(seq![b] + c.drop_first() =~= c);
        } else {
            assert(s =~= seq![b] + tail);
            assert(s[0] == b);
            assert(s[0] != QUOTE && s[0] != BACKSLASH && !(s[0] < 32));
            assert(s.drop_first() =~= tail);
            assert(seq![b] + c.drop_first() =~= c);
        }
    }
}

/// Parsing an encoded JSON string recovers the original bytes.
proof fn lemma_parse_string_round(k: Seq<u8>, rest: Seq<u8>)
    ensures
        spec_parse_string(spec_encode_string(k) + rest) == Some((k, rest)),
{
    let s = spec_encode_string(k) + rest;
    assert(s[0] == QUOTE);
    assert(s.drop_first() =~= spec_escape(k) + seq![QUOTE] + rest);
    lemma_parse_string_body_round(k, rest);
}

/// Powers of ten.
pub open spec fn pow10(k: nat) -> nat
    decreases k,
{
    if k == 0 {
        1
    } else {
        10 * pow10((k - 1) as nat)
    }
}

/// Every byte of a decimal encoding is a digit, and only zero itself
/// starts with the zero digit.
proof fn lemma_digits_all_digits(n: nat)
    ensures
        spec_digits(n).len() >= 1,
        forall|i: int| 0 <= i < spec_digits(n).len() ==> is_digit(#[trigger] spec_digits(n)[i]),
        n >= 1 ==> spec_digits(n)[0] != 48,
    decreases n,
{
    if n < 10 {
    } else {
        lemma_digits_all_digits(n / 10);
        assert(spec_digits(n)[0] == spec_digits(n / 10)[0]);
    }
}

/// Digit folding processes a concatenation left to right.
proof fn lemma_parse_digits_split(a: Seq<u8>, b: Seq<u8>, acc: nat)
    requires
        forall|i: int| 0 <= i < a.len() ==> is_digit(#[trigger] a[i]),
    ensures
        spec_parse_digits(a + b, acc) == spec_parse_digits(b, spec_parse_digits(a, acc).0),
    decreases a.len(),
{
    if a.len() == 0 {
        assert(a + b =~= b);
    } else {
        let acc2 = acc * 10 + (a[0] - 48) as nat;
        assert((a + b)[0] == a[0]);
        assert((a + b).drop_first() =~= a.drop_first() + b);
        lemma_parse_digits_split(a.drop_first(), b, acc2);
    }
}

/// Folding the digits of `n` over `acc` scales `acc` past them and adds `n`.
proof fn lemma_digits_fold(n: nat, acc: nat)
    ensures
        spec_parse_digits(spec_digits(n), acc) == ((acc * pow10(spec_digits(n).len() as nat)
            + n) as nat, Seq::<u8>::empty()),
    decreases n,
{
    lemma_digits_all_digits(n);
    assert(pow10(0) == 1);
    if n < 10 {
        let d = (48 + n) as u8;
        let y: nat = (acc * 10 + n) as nat;
        assert(spec_digits(n) =~= seq![d]);
        assert(seq![d].drop_first() =~= Seq::<u8>::empty());
        assert((d - 48) as nat == n);
        assert(pow10(1) == 10);
        assert(spec_parse_digits(Seq::<u8>::empty(), y) == (y, Seq::<u8>::empty()));
        assert(spec_parse_digits(seq![d], acc) == (y, Seq::<u8>::empty()));
        assert(y == acc * pow10(1) + n);
    } else {
        let hi = spec_digits(n / 10);
        let d = (48 + n % 10) as u8;
        let l = hi.len() as nat;
        let q = n / 10;
        let r = n % 10;
        lemma_digits_all_digits(q);
        assert(spec_digits(n) =~= hi + seq![d]);
        lemma_parse_digits_split(hi, seq![d], acc);
        lemma_digits_fold(q, acc);
        let x: nat = (acc * pow10(l) + q) as nat;
        assert(spec_parse_digits(hi, acc).0 == x);
        let y: nat = (x * 10 + r) as nat;
        assert((d - 48) as nat == r);
        assert(seq![d].drop_first() =~= Seq::<u8>::empty());
        assert(spec_parse_digits(Seq::<u8>::empty(), y) == (y, Seq::<u8>::empty()));
        assert(spec_parse_digits(seq![d], x) == (y, Seq::<u8>::empty()));
        assert(pow10(l + 1) == 10 * pow10(l));
        assert(y == acc * pow10(l + 1) + n) by (nonlinear_arith)
            requires
                y == (acc * pow10(l) + q) * 10 + r,
                n == q * 10 + r,
                pow10(l + 1) == 10 * pow10(l),
        ;
        assert(spec_digits(n).len() == l + 1);
    }
}

/// Parsing a decimal encoding followed by a non-digit recovers the value.
proof fn lemma_parse_uint_round(n: nat, rest: Seq<u8>)
    requires
        rest.len() == 0 || !is_digit(rest[0]),
    ensures
        spec_parse_digits(spec_digits(n) + rest, 0) == (n, rest),
{
    lemma_digits_all_digits(n);
    lemma_parse_digits_split(spec_digits(n), rest, 0);
    lemma_digits_fold(n, 0);
    assert((0 * pow10(spec_digits(n).len() as nat) + n) as nat == n);
}

/// Parsing an encoded integer followed by a non-digit recovers the value.
proof fn lemma_parse_int_round(i: int, rest: Seq<u8>)
    requires
        i64::MIN <= i <= i64::MAX,
        rest.len() == 0 || !is_digit(rest[0]),
    ensures
        spec_parse_int(spec_encode_int(i) + rest) == Some((i, rest)),
{
    if i == 0 {
        let s = spec_digits(0) + rest;
        assert(spec_digits(0) =~= seq![48u8]);
        assert(s[0] == 48);
        assert(is_digit(s[0]) && s[0] != MINUS);
        assert(s.drop_first() =~= rest);
    } else if i > 0 {
        let s = spec_digits(i as nat) + rest;
        lemma_digits_all_digits(i as nat);
        assert(s[0] == spec_digits(i as nat)[0]);
        assert(is_digit(s[0]));
        assert(s[0] != MINUS && s[0] != 48);
        lemma_parse_uint_round(i as nat, rest);
    } else {
        let m = (-i) as nat;
        let s = spec_encode_int(i) + rest;
        lemma_digits_all_digits(m);
        assert(s =~= seq![MINUS] + (spec_digits(m) + rest));
        assert(s[0] == MINUS);
        assert(s[1] == spec_digits(m)[0]);
        assert(is_digit(s[1]) && s[1] != 48);
        assert(s.drop_first() =~= spec_digits(m) + rest);
        lemma_parse_uint_round(m, rest);
    }
}

/// Parsing an encoded boolean recovers the value.
proof fn lemma_parse_bool_round(b: bool, rest: Seq<u8>)
    ensures
        spec_parse_bool(spec_encode_bool(b) + rest) == Some((b, rest)),
{
    let s = spec_encode_bool(b) + rest;
    if b {
        assert(s =~= seq![116u8, 114u8, 117u8, 101u8] + rest);
        assert(s[0] == 116 && s[1] == 114 && s[2] == 117 && s[3] == 101);
        assert(s.skip(4) =~= rest);
    } else {
        assert(s =~= seq![102u8, 97u8, 108u8, 115u8, 101u8] + rest);
        assert(s[0] == 102 && s[1] == 97 && s[2] == 108 && s[3] == 115 && s[4] == 101);
        assert(s.skip(5) =~= rest);
    }
}

/// An encoded value is non-empty and never starts with whitespace.
proof fn lemma_enc_value_head(v: ValueModel)
    ensures
        spec_encode_value(v).len() > 0,
        !is_ws(spec_encode_value(v)[0]),
    decreases v,
{
    match v {
        ValueModel::Int(i) => {
            if i >= 0 {
                lemma_digits_all_digits(i as nat);
                assert(is_digit(spec_encode_value(v)[0]));
            } else {
                lemma_digits_all_digits((-i) as nat);
                assert(spec_encode_value(v)[0] == MINUS);
            }
        },
        ValueModel::Bool(b) => {},
        ValueModel::Text(t) => {
            assert(spec_encode_value(v)[0] == QUOTE);
        },
    }
}

/// Parsing an encoded value followed by a non-digit recovers the value.
proof fn lemma_parse_value_round(v: ValueModel, rest: Seq<u8>)
    requires
        crate::value::value_wf(v),
        rest.len() == 0 || !is_digit(rest[0]),
    ensures
        spec_parse_value(spec_encode_value(v) + rest) == Some((v, rest)),
{
    let s = spec_encode_value(v) + rest;
    match v {
        ValueModel::Text(t) => {
            assert(s[0] == QUOTE);
            assert(s =~= spec_encode_string(t) + rest);
            lemma_parse_string_round(t, rest);
        },
        ValueModel::Int(i) => {
            if i >= 0 {
                lemma_digits_all_digits(i as nat);
                assert(s[0] == spec_digits(i as nat)[0]);
                assert(is_digit(s[0]));
            } else {
                assert(s[0] == MINUS);
            }
            assert(s[0] != QUOTE);
            assert(s =~= spec_encode_int(i) + rest);
            lemma_parse_int_round(i, rest);
        },
        ValueModel::Bool(b) => {
            assert(s[0] == (if b {
                116u8
            } else {
                102u8
            }));
            assert(s[0] != QUOTE && s[0] != MINUS && !is_digit(s[0]));
            assert(s =~= spec_encode_bool(b) + rest);
            lemma_parse_bool_round(b, rest);
        },
    }
}

/// Parsing an encoded member followed by a comma or a closing brace
/// recovers the member.
proof fn lemma_parse_pair_round(p: PairModel, rest: Seq<u8>)
    requires
        crate::value::value_wf(p.1),
        rest.len() > 0,
        rest[0] == COMMA || rest[0] == RBRACE,
    ensures
        spec_parse_pair(spec_encode_pair(p) + rest) == Some((p, rest)),
{
    let s = spec_encode_pair(p) + rest;
    let mid = seq![COLON] + spec_encode_value(p.1) + rest;
    assert(s =~= spec_encode_string(p.0) + mid);
    lemma_parse_string_round(p.0, mid);
    assert(mid[0] == COLON);
    lemma_skip_ws_id(mid);
    let after = spec_encode_value(p.1) + rest;
    assert(mid.drop_first() =~= after);
    lemma_enc_value_head(p.1);
    assert(after[0] == spec_encode_value(p.1)[0]);
    lemma_skip_ws_id(after);
    lemma_parse_value_round(p.1, rest);
    assert(spec_parse_pair(s) == Some(((p.0, p.1), rest)));
    assert((p.0, p.1) == p);
}

/// Every member's value fits the wire's signed 64-bit range.
pub open spec fn pairs_wf(ps: Seq<PairModel>) -> bool {
    forall|i: int| 0 <= i < ps.len() ==> crate::value::value_wf((#[trigger] ps[i]).1)
}

/// An encoded non-empty member list starts with the opening quote of its
/// first key.
proof fn lemma_enc_pairs_head(ps: Seq<PairModel>)
    requires
        ps.len() >= 1,
    ensures
        spec_encode_pairs(ps).len() > 0,
        spec_encode_pairs(ps)[0] == QUOTE,
{
    assert(spec_encode_pair(ps[0])[0] == QUOTE);
}

/// Parsing an encoded member list followed by a closing brace recovers the
/// members, in order.
proof fn lemma_parse_pairs_round(ps: Seq<PairModel>, rest: Seq<u8>)
    requires
        ps.len() >= 1,
        pairs_wf(ps),
        rest.len() > 0,
        rest[0] == RBRACE,
    ensures
        spec_parse_pairs(spec_encode_pairs(ps) + rest) == Some((ps, rest)),
    decreases ps.len(),
{
    let s = spec_encode_pairs(ps) + rest;
    if ps.len() == 1 {
        assert(s =~= spec_encode_pair(ps[0]) + rest);
        lemma_parse_pair_round(ps[0], rest);
        lemma_skip_ws_id(rest);
        assert(seq![ps[0]] =~= ps);
    } else {
        let tail = ps.drop_first();
        let rest1 = seq![COMMA] + spec_encode_pairs(tail) + rest;
        assert(s =~= spec_encode_pair(ps[0]) + rest1);
        assert(rest1[0] == COMMA);
        lemma_parse_pair_round(ps[0], rest1);
        lemma_skip_ws_id(rest1);
        let after = spec_encode_pairs(tail) + rest;
        assert(rest1.drop_first() =~= after);
        lemma_enc_pairs_head(tail);
        assert(after[0] == QUOTE);
        lemma_skip_ws_id(after);
        lemma_parse_pairs_round(tail, rest);
        assert(seq![ps[0]] + tail =~= ps);
    }
}

/// Parsing an encoded object recovers its members, in order.
proof fn lemma_parse_object_round(ps: Seq<PairModel>, rest: Seq<u8>)
    requires
        pairs_wf(ps),
    ensures
        spec_parse_object(spec_encode_object(ps) + rest) == Some((ps, rest)),
{
    let s = spec_encode_object(ps) + rest;
    assert(s[0] == LBRACE);
    let inner = spec_encode_pairs(ps) + seq![RBRACE] + rest;
    assert(s.drop_first() =~= inner);
    if ps.len() == 0 {
        assert(inner =~= seq![RBRACE] + rest);
        lemma_skip_ws_id(inner);
        assert(inner[0] == RBRACE);
        assert(inner.drop_first() =~= rest);
        assert(Seq::<PairModel>::empty() =~= ps);
    } else {
        lemma_enc_pairs_head(ps);
        assert(inner[0] == QUOTE);
        lemma_skip_ws_id(inner);
        let close = seq![RBRACE] + rest;
        assert(inner =~= spec_encode_pairs(ps) + close);
        lemma_parse_pairs_round(ps, close);
        assert(close.drop_first() =~= rest);
    }
}

/// Decoding inverts encoding: a well-formed response envelope, encoded and
/// then decoded, comes back exactly as it was — the error code and every
/// payload field, in order.
pub proof fn lemma_envelope_round_trip(e: EnvelopeModel)
    requires
        crate::command::wf_envelope(e),
    ensures
        spec_decode(spec_encode_envelope(e)) == Some(e),
{
    let all = seq![(error_code_key(), ValueModel::Int(e.error_code))] + e.payload;
    let body = spec_encode_object(all);
    assert(pairs_wf(all)) by {
        assert forall|i: int| 0 <= i < all.len() implies crate::value::value_wf(
            (#[trigger] all[i]).1,
        ) by {
            if i >= 1 {
                assert(all[i] == e.payload[i - 1]);
            }
        }
    }
    assert(body[0] == LBRACE);
    lemma_skip_ws_id(body);
    assert(body =~= spec_encode_object(all) + Seq::<u8>::empty());
    lemma_parse_object_round(all, Seq::<u8>::empty());
    assert(spec_parse_object(body) == Some((all, Seq::<u8>::empty())));
    assert(spec_skip_ws(Seq::<u8>::empty()).len() == 0);
    assert(all[0].0 == error_code_key());
    assert(all.drop_first() =~= e.payload);
    assert(spec_find_error_code(all) == Some((e.error_code, e.payload)));
}

/// Envelope encoding is unambiguous: two well-formed envelopes with the
/// same wire bytes are the same envelope.
pub proof fn lemma_envelope_encoding_injective(e1: EnvelopeModel, e2: EnvelopeModel)
    requires
        crate::command::wf_envelope(e1),
        crate::command::wf_envelope(e2),
        spec_encode_envelope(e1) == spec_encode_envelope(e2),
    ensures
        e1 == e2,
{
    lemma_envelope_round_trip(e1);
    lemma_envelope_round_trip(e2);
}

/// The encoded entries of a batch: one per command, in append order.
pub open spec fn command_entries(cs: Seq<CommandModel>) -> Seq<Seq<u8>> {
    cs.map(|i: int, c: CommandModel| spec_encode_command(c))
}

/// The comma-separated join of encoded entries.
pub open spec fn join_entries(es: Seq<Seq<u8>>) -> Seq<u8>
    decreases es.len(),
{
    if es.len() == 0 {
        seq![]
    } else if es.len() == 1 {
        es[0]
    } else {
        es[0] + seq![COMMA] + join_entries(es.drop_first())
    }
}

/// For every batch of `n` commands, the `CommandList` field of the encoded
/// body is the comma-separated join of exactly `n` entries, the `i`-th
/// entry being the encoding of the `i`-th appended command: the list's
/// length is the batch's length and append order is preserved exactly.
pub proof fn lemma_command_list_entries(cs: Seq<CommandModel>)
    ensures
        command_entries(cs).len() == cs.len(),
        forall|i: int|
            0 <= i < cs.len() ==> command_entries(cs)[i] == spec_encode_command(cs[i]),
        spec_encode_command_list(cs) == join_entries(command_entries(cs)),
    decreases cs.len(),
{
    if cs.len() == 0 {
    } else {
        lemma_command_list_entries(cs.drop_first());
        assert(command_entries(cs).drop_first() =~= command_entries(cs.drop_first()));
        if cs.len() == 1 {
            assert(join_entries(command_entries(cs)) == command_entries(cs)[0]);
        }
    }
}

/// Appending a command to a batch appends exactly that command's encoding
/// at the end of the `CommandList` field, after a separating comma once the
/// list is non-empty: the encoded list holds one entry per command, in
/// append order.
pub proof fn lemma_command_list_snoc(cs: Seq<CommandModel>, c: CommandModel)
    ensures
        spec_encode_command_list(cs.push(c)) == if cs.len() == 0 {
            spec_encode_command(c)
        } else {
            (spec_encode_command_list(cs) + seq![COMMA] + spec_encode_command(c))
        },
    decreases cs.len(),
{
    if cs.len() == 0 {
        assert(spec_encode_command_list(cs.push(c)) =~= spec_encode_command(c));
    } else {
        assert(cs.push(c).drop_first() =~= cs.drop_first().push(c));
        lemma_command_list_snoc(cs.drop_first(), c);
        assert(spec_encode_command_list(cs.push(c)) =~= spec_encode_command_list(cs)
            + seq![COMMA] + spec_encode_command(c));
    }
}

} // verus!
