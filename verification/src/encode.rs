//! The command encoder: JSON serialization of parameter values, command
//! objects, batch envelopes and response envelopes, over byte sequences.
//!
//! Every executable encoder is proved equal to its spec-level counterpart, so
//! contracts elsewhere in the library can speak of the exact bytes on the wire.

use vstd::prelude::*;
use vstd::utf8::encode_utf8;
use crate::value::{ParamValue, ValueModel};
use crate::command::{Command, CommandModel, EnvelopeModel, ResponseEnvelope};

verus! {

pub const QUOTE: u8 = 34;
pub const BACKSLASH: u8 = 92;
pub const LBRACE: u8 = 123;
pub const RBRACE: u8 = 125;
pub const LBRACKET: u8 = 91;
pub const RBRACKET: u8 = 93;
pub const COLON: u8 = 58;
pub const COMMA: u8 = 44;
pub const MINUS: u8 = 45;
pub const DIGIT_ZERO: u8 = 48;

/// One named parameter as the spec model sees it.
pub type PairModel = (Seq<u8>, ValueModel);

/// The model of a parameter list of an exec pair vector.
pub open spec fn pairs_model(s: Seq<(Vec<u8>, ParamValue)>) -> Seq<PairModel> {
    s.map(|i: int, p: (Vec<u8>, ParamValue)| (p.0@, p.1@))
}

/// The lower-case hexadecimal digit for a value below sixteen.
pub open spec fn hex_digit(n: int) -> u8
    recommends
        0 <= n < 16,
{
    if n < 10 {
        (48 + n) as u8
    } else {
        (87 + n) as u8
    }
}

/// JSON escaping of one string byte: quotes and backslashes are preceded by
/// a backslash, the named control characters use their short escapes, every
/// other control byte becomes a `\u00XX` escape, and every remaining byte
/// stands for itself.
pub open spec fn spec_escape_byte(b: u8) -> Seq<u8> {
    if b == QUOTE || b == BACKSLASH {
        seq![BACKSLASH, b]
    } else if b == 8 {
        seq![BACKSLASH, 98u8]
    } else if b == 9 {
        seq![BACKSLASH, 116u8]
    } else if b == 10 {
        seq![BACKSLASH, 110u8]
    } else if b == 12 {
        seq![BACKSLASH, 102u8]
    } else if b == 13 {
        seq![BACKSLASH, 114u8]
    } else if b < 32 {
        seq![BACKSLASH, 117u8, 48u8, 48u8, hex_digit(b as int / 16), hex_digit(b as int % 16)]
    } else {
        seq![b]
    }
}

/// JSON escaping of a string body.
pub open spec fn spec_escape(s: Seq<u8>) -> Seq<u8>
    decreases s.len(),
{
    if s.len() == 0 {
        seq![]
    } else {
        spec_escape_byte(s[0]) + spec_escape(s.drop_first())
    }
}

/// A JSON string: the escaped body between double quotes.
pub open spec fn spec_encode_string(s: Seq<u8>) -> Seq<u8> {
    seq![QUOTE] + spec_escape(s) + seq![QUOTE]
}

/// The decimal digits of a non-negative integer, most significant first.
pub open spec fn spec_digits(n: nat) -> Seq<u8>
    decreases n,
{
    if n < 10 {
        seq![(DIGIT_ZERO + n) as u8]
    } else {
        spec_digits(n / 10) + seq![(DIGIT_ZERO + n % 10) as u8]
    }
}

/// A JSON integer: an optional minus sign and the decimal digits.
pub open spec fn spec_encode_int(i: int) -> Seq<u8> {
    if i < 0 {
        seq![MINUS] + spec_digits((-i) as nat)
    } else {
        spec_digits(i as nat)
    }
}

/// A JSON boolean.
pub open spec fn spec_encode_bool(b: bool) -> Seq<u8> {
    if b {
        seq![116u8, 114u8, 117u8, 101u8]
    } else {
        seq![102u8, 97u8, 108u8, 115u8, 101u8]
    }
}

/// A JSON value of the closed parameter-value variant.
pub open spec fn spec_encode_value(v: ValueModel) -> Seq<u8> {
    match v {
        ValueModel::Int(i) => spec_encode_int(i),
        ValueModel::Bool(b) => spec_encode_bool(b),
        ValueModel::Text(t) => spec_encode_string(t),
    }
}

/// One `"key":value` member of a JSON object.
pub open spec fn spec_encode_pair(p: PairModel) -> Seq<u8> {
    spec_encode_string(p.0) + seq![COLON] + spec_encode_value(p.1)
}

/// The comma-separated members of a JSON object, in order.
pub open spec fn spec_encode_pairs(ps: Seq<PairModel>) -> Seq<u8>
    decreases ps.len(),
{
    if ps.len() == 0 {
        seq![]
    } else if ps.len() == 1 {
        spec_encode_pair(ps[0])
    } else {
        spec_encode_pair(ps[0]) + seq![COMMA] + spec_encode_pairs(ps.drop_first())
    }
}

/// A flat JSON object over the given members, in order.
pub open spec fn spec_encode_object(ps: Seq<PairModel>) -> Seq<u8> {
    seq![LBRACE] + spec_encode_pairs(ps) + seq![RBRACE]
}

/// Escaping a string one byte longer appends the escape of that byte.
pub proof fn lemma_escape_snoc(u: Seq<u8>, b: u8)
    ensures
        spec_escape(u.push(b)) == spec_escape(u) + spec_escape_byte(b),
    decreases u.len(),
{
    if u.len() == 0 {
        assert(u.push(b).drop_first() =~= Seq::<u8>::empty());
        assert(spec_escape(Seq::<u8>::empty()) == Seq::<u8>::empty());
        assert(u.push(b)[0] == b);
        assert(spec_escape(u.push(b)) == spec_escape_byte(b) + Seq::<u8>::empty());
        assert(spec_escape(u.push(b)) =~= spec_escape(u) + spec_escape_byte(b));
    } else {
        assert(u.push(b).drop_first() =~= u.drop_first().push(b));
        lemma_escape_snoc(u.drop_first(), b);
        assert(spec_escape(u.push(b)) =~= spec_escape(u) + spec_escape_byte(b));
    }
}

/// Encoding one more member appends a comma (once the list is non-empty) and
/// the member's encoding: append order is preserved on the wire.
pub proof fn lemma_encode_pairs_snoc(ps: Seq<PairModel>, p: PairModel)
    ensures
        spec_encode_pairs(ps.push(p)) == if ps.len() == 0 {
            spec_encode_pair(p)
        } else {
            (spec_encode_pairs(ps) + seq![COMMA] + spec_encode_pair(p))
        },
    decreases ps.len(),
{
    if ps.len() == 0 {
        assert(spec_encode_pairs(ps.push(p)) =~= spec_encode_pair(p));
    } else {
        assert(ps.push(p).drop_first() =~= ps.drop_first().push(p));
        lemma_encode_pairs_snoc(ps.drop_first(), p);
        if ps.len() == 1 {
            assert(spec_encode_pairs(ps.push(p)) =~= spec_encode_pairs(ps) + seq![COMMA]
                + spec_encode_pair(p));
        } else {
            assert(spec_encode_pairs(ps.push(p)) =~= spec_encode_pairs(ps) + seq![COMMA]
                + spec_encode_pair(p));
        }
    }
}

/// Appends the JSON escape of `s` to `out`.
fn emit_escaped(s: &[u8], out: &mut Vec<u8>)
    ensures
        final(out)@ == old(out)@ + spec_escape(s@),
{
    let mut i: usize = 0;
    while i < s.len()
        invariant
            i <= s@.len(),
            out@ == old(out)@ + spec_escape(s@.take(i as int)),
        decreases s@.len() - i,
    {
        let b = s[i];
        if b == QUOTE || b == BACKSLASH {
            out.push(BACKSLASH);
            out.push(b);
        } else if b == 8 {
            out.push(BACKSLASH);
            out.push(98);
        } else if b == 9 {
            out.push(BACKSLASH);
            out.push(116);
        } else if b == 10 {
            out.push(BACKSLASH);
            out.push(110);
        } else if b == 12 {
            out.push(BACKSLASH);
            out.push(102);
        } else if b == 13 {
            out.push(BACKSLASH);
            out.push(114);
        } else if b < 32 {
            out.push(BACKSLASH);
            out.push(117);
            out.push(48);
            out.push(48);
            let hi = b / 16;
            let lo = b % 16;
            out.push(
                if hi < 10 {
                    48 + hi
                } else {
                    87 + hi
                },
            );
            out.push(
                if lo < 10 {
                    48 + lo
                } else {
                    87 + lo
                },
            );
        } else {
            out.push(b);
        }
        proof {
            lemma_escape_snoc(s@.take(i as int), b);
            assert(s@.take(i + 1) =~= s@.take(i as int).push(b));
            assert(out@ =~= old(out)@ + spec_escape(s@.take(i + 1)));
        }
        i = i + 1;
    }
    proof {
        assert(s@.take(s@.len() as int) =~= s@);
    }
}

/// Appends the JSON string encoding of `s` to `out`.
fn emit_string(s: &[u8], out: &mut Vec<u8>)
    ensures
        final(out)@ == old(out)@ + spec_encode_string(s@),
{
    out.push(QUOTE);
    emit_escaped(s, out);
    out.push(QUOTE);
    proof {
        assert(out@ =~= old(out)@ + spec_encode_string(s@));
    }
}

/// Appends the decimal digits of `n` to `out`, most significant first.
fn emit_uint(n: u64, out: &mut Vec<u8>)
    ensures
        final(out)@ == old(out)@ + spec_digits(n as nat),
    decreases n,
{
    if n < 10 {
        out.push(DIGIT_ZERO + (n as u8));
        proof {
            assert(out@ =~= old(out)@ + spec_digits(n as nat));
        }
    } else {
        emit_uint(n / 10, out);
        out.push(DIGIT_ZERO + ((n % 10) as u8));
        proof {
            assert(out@ =~= old(out)@ + spec_digits(n as nat));
        }
    }
}

/// Appends the JSON integer encoding of `i` to `out`.
fn emit_int(i: i64, out: &mut Vec<u8>)
    ensures
        final(out)@ == old(out)@ + spec_encode_int(i as int),
{
    if i >= 0 {
        emit_uint(i as u64, out);
    } else {
        out.push(MINUS);
        let m: u64 = (-(i as i128)) as u64;
        assert(m as nat == (-(i as int)) as nat);
        emit_uint(m, out);
        proof {
            assert(out@ =~= old(out)@ + spec_encode_int(i as int));
        }
    }
}

/// Appends the JSON encoding of one parameter value to `out`.
fn emit_value(v: &ParamValue, out: &mut Vec<u8>)
    ensures
        final(out)@ == old(out)@ + spec_encode_value(v@),
{
    match v {
        ParamValue::Int(i) => {
            emit_int(*i, out);
        },
        ParamValue::Bool(b) => {
            if *b {
                out.push(116);
                out.push(114);
                out.push(117);
                out.push(101);
            } else {
                out.push(102);
                out.push(97);
                out.push(108);
                out.push(115);
                out.push(101);
            }
            proof {
                assert(out@ =~= old(out)@ + spec_encode_value(v@));
            }
        },
        ParamValue::Text(t) => {
            emit_string(t.as_slice(), out);
        },
    }
}

/// Appends one `"key":value` member to `out`.
fn emit_pair(k: &Vec<u8>, v: &ParamValue, out: &mut Vec<u8>)
    ensures
        final(out)@ == old(out)@ + spec_encode_pair((k@, v@)),
{
    emit_string(k.as_slice(), out);
    out.push(COLON);
    emit_value(v, out);
    proof {
        assert(out@ =~= old(out)@ + spec_encode_pair((k@, v@)));
    }
}

/// Appends the comma-separated members of `ps` to `out`, in order.
fn emit_pairs(ps: &Vec<(Vec<u8>, ParamValue)>, out: &mut Vec<u8>)
    ensures
        final(out)@ == old(out)@ + spec_encode_pairs(pairs_model(ps@)),
{
    let mut i: usize = 0;
    while i < ps.len()
        invariant
            i <= ps@.len(),
            out@ == old(out)@ + spec_encode_pairs(pairs_model(ps@).take(i as int)),
        decreases ps@.len() - i,
    {
        if i > 0 {
            out.push(COMMA);
        }
        let p = &ps[i];
        emit_pair(&p.0, &p.1, out);
        proof {
            let m = pairs_model(ps@);
            lemma_encode_pairs_snoc(m.take(i as int), m[i as int]);
            assert(m.take(i + 1) =~= m.take(i as int).push(m[i as int]));
            assert(out@ =~= old(out)@ + spec_encode_pairs(m.take(i + 1)));
        }
        i = i + 1;
    }
    proof {
        assert(pairs_model(ps@).take(ps@.len() as int) =~= pairs_model(ps@));
    }
}

/// Appends a flat JSON object over `ps` to `out`.
fn emit_object(ps: &Vec<(Vec<u8>, ParamValue)>, out: &mut Vec<u8>)
    ensures
        final(out)@ == old(out)@ + spec_encode_object(pairs_model(ps@)),
{
    out.push(LBRACE);
    emit_pairs(ps, out);
    out.push(RBRACE);
    proof {
        assert(out@ =~= old(out)@ + spec_encode_object(pairs_model(ps@)));
    }
}

/// Encodes a flat JSON object over `ps` as the full request or response body.
pub fn encode_object(ps: &Vec<(Vec<u8>, ParamValue)>) -> (r: Vec<u8>)
    ensures
        r@ == spec_encode_object(pairs_model(ps@)),
{
    let mut out: Vec<u8> = Vec::new();
    emit_object(ps, &mut out);
    out
}

/// The wire key that names the command in every command object.
pub open spec fn command_key() -> Seq<u8> {
    encode_utf8("Command"@)
}

/// The fixed command name of the batch wrapper object.
pub open spec fn batch_command_name() -> Seq<u8> {
    encode_utf8("Draw/CommandList"@)
}

/// The wire key under which a batch carries its command list.
pub open spec fn command_list_key() -> Seq<u8> {
    encode_utf8("CommandList"@)
}

/// The wire key of the device's error code in every response envelope.
pub open spec fn error_code_key() -> Seq<u8> {
    encode_utf8("error_code"@)
}

/// A single-command request body: the command object
/// `{"Command": name, ...params}`.
pub open spec fn spec_encode_command(c: CommandModel) -> Seq<u8> {
    spec_encode_object(
        seq![(command_key(), ValueModel::Text(c.name))] + c.params,
    )
}

/// The comma-separated encodings of a command sequence, in order.
pub open spec fn spec_encode_command_list(cs: Seq<CommandModel>) -> Seq<u8>
    decreases cs.len(),
{
    if cs.len() == 0 {
        seq![]
    } else if cs.len() == 1 {
        spec_encode_command(cs[0])
    } else {
        spec_encode_command(cs[0]) + seq![COMMA] + spec_encode_command_list(cs.drop_first())
    }
}

/// A batch request body:
/// `{"Command":"Draw/CommandList","CommandList":[cmd1, ...]}` with the
/// individually encoded commands in append order.
pub open spec fn spec_encode_batch(cs: Seq<CommandModel>) -> Seq<u8> {
    seq![LBRACE] + spec_encode_string(command_key()) + seq![COLON]
        + spec_encode_string(batch_command_name()) + seq![COMMA]
        + spec_encode_string(command_list_key()) + seq![COLON] + seq![LBRACKET]
        + spec_encode_command_list(cs) + seq![RBRACKET] + seq![RBRACE]
}

/// A response envelope body: the object
/// `{"error_code": code, ...payload}`.
pub open spec fn spec_encode_envelope(e: EnvelopeModel) -> Seq<u8> {
    spec_encode_object(
        seq![(error_code_key(), ValueModel::Int(e.error_code))] + e.payload,
    )
}

/// The model of a command vector.
pub open spec fn commands_model(s: Seq<Command>) -> Seq<CommandModel> {
    s.map(|i: int, c: Command| c@)
}

/// Appends the command object for `c` to `out`.
fn emit_command(c: Command, out: &mut Vec<u8>)
    ensures
        final(out)@ == old(out)@ + spec_encode_command(c@),
{
    let ghost all: Seq<PairModel> = seq![(command_key(), ValueModel::Text(c@.name))] + c@.params;
    out.push(LBRACE);
    emit_string("Command".as_bytes(), out);
    out.push(COLON);
    emit_string(c.name.as_slice(), out);
    if c.params.len() > 0 {
        out.push(COMMA);
        emit_pairs(&c.params, out);
    }
    out.push(RBRACE);
    proof {
        assert(all[0] == (command_key(), ValueModel::Text(c@.name)));
        if c@.params.len() == 0 {
            assert(all.len() == 1);
            assert(out@ =~= old(out)@ + spec_encode_command(c@));
        } else {
            assert(all.drop_first() =~= c@.params);
            assert(out@ =~= old(out)@ + spec_encode_command(c@));
        }
    }
}

/// Appends the comma-separated command objects of `cs` to `out`, in order.
fn emit_command_list(cs: Vec<Command>, out: &mut Vec<u8>)
    ensures
        final(out)@ == old(out)@ + spec_encode_command_list(commands_model(cs@)),
    decreases cs@.len(),
{
    let mut cs = cs;
    if cs.len() == 0 {
        return ;
    }
    let ghost m = commands_model(cs@);
    let c = cs.remove(0);
    proof {
        assert(commands_model(cs@) =~= m.drop_first());
    }
    emit_command(c, out);
    if cs.len() > 0 {
        out.push(COMMA);
    }
    emit_command_list(cs, out);
    proof {
        if m.len() == 1 {
            assert(out@ =~= old(out)@ + spec_encode_command_list(m));
        } else {
            assert(out@ =~= old(out)@ + spec_encode_command_list(m));
        }
    }
}

/// Encodes one command as the single-shot request body.
pub fn encode_command(c: Command) -> (r: Vec<u8>)
    ensures
        r@ == spec_encode_command(c@),
{
    let mut out: Vec<u8> = Vec::new();
    emit_command(c, &mut out);
    out
}

/// Encodes a command sequence as the batch request body, preserving order.
pub fn encode_batch(cs: Vec<Command>) -> (r: Vec<u8>)
    ensures
        r@ == spec_encode_batch(commands_model(cs@)),
{
    let mut out: Vec<u8> = Vec::new();
    out.push(LBRACE);
    emit_string("Command".as_bytes(), &mut out);
    out.push(COLON);
    emit_string("Draw/CommandList".as_bytes(), &mut out);
    out.push(COMMA);
    emit_string("CommandList".as_bytes(), &mut out);
    out.push(COLON);
    out.push(LBRACKET);
    emit_command_list(cs, &mut out);
    out.push(RBRACKET);
    out.push(RBRACE);
    proof {
        assert(out@ =~= spec_encode_batch(commands_model(cs@)));
    }
    out
}

/// Encodes a response envelope body; what a well-behaved device returns.
pub fn encode_envelope(e: ResponseEnvelope) -> (r: Vec<u8>)
    ensures
        r@ == spec_encode_envelope(e@),
{
    let ghost all: Seq<PairModel> = seq![(error_code_key(), ValueModel::Int(e@.error_code))]
        + e@.payload;
    let mut out: Vec<u8> = Vec::new();
    out.push(LBRACE);
    emit_string("error_code".as_bytes(), &mut out);
    out.push(COLON);
    emit_int(e.error_code, &mut out);
    if e.payload.len() > 0 {
        out.push(COMMA);
        emit_pairs(&e.payload, &mut out);
    }
    out.push(RBRACE);
    proof {
        assert(all[0] == (error_code_key(), ValueModel::Int(e@.error_code)));
        if e@.payload.len() == 0 {
            assert(all.len() == 1);
            assert(out@ =~= spec_encode_envelope(e@));
        } else {
            assert(all.drop_first() =~= e@.payload);
            assert(out@ =~= spec_encode_envelope(e@));
        }
    }
    out
}

} // verus!
