//! Typed device commands: a protocol command name plus an ordered list of
//! named parameters. A command is immutable once built; the fluent
//! constructors consume and return it.

use vstd::prelude::*;
use vstd::string::StrSliceExecFns;
use vstd::utf8::encode_utf8;
use crate::value::{ParamValue, ValueModel};
use crate::encode::PairModel;

verus! {

/// Mathematical model of one command.
pub struct CommandModel {
    pub name: Seq<u8>,
    pub params: Seq<PairModel>,
}

/// Whether a key occurs among the parameters.
pub open spec fn key_in(params: Seq<PairModel>, k: Seq<u8>) -> bool {
    exists|i: int| 0 <= i < params.len() && params[i].0 == k
}

/// A command is well formed when its name is non-empty and its parameter
/// keys are unique.
pub open spec fn wf_command(c: CommandModel) -> bool {
    &&& c.name.len() > 0
    &&& forall|i: int, j: int|
        0 <= i < j < c.params.len() ==> c.params[i].0 != c.params[j].0
}

/// One device operation: a protocol name and ordered named parameters.
pub struct Command {
    pub name: Vec<u8>,
    pub params: Vec<(Vec<u8>, ParamValue)>,
}

impl View for Command {
    type V = CommandModel;

    open spec fn view(&self) -> CommandModel {
        CommandModel { name: self.name@, params: crate::encode::pairs_model(self.params@) }
    }
}

/// The UTF-8 encoding of a non-empty character sequence is non-empty.
pub proof fn lemma_encode_utf8_nonempty(chars: Seq<char>)
    requires
        chars.len() > 0,
    ensures
        encode_utf8(chars).len() > 0,
{
    assert(encode_utf8(chars).len() >= vstd::utf8::encode_scalar(chars[0] as u32).len());
}

impl Command {
    /// Builds a command with the given protocol name and no parameters.
    pub fn new(name: &str) -> (r: Command)
        requires
            name@.len() > 0,
        ensures
            r@.name == encode_utf8(name@),
            r@.params == Seq::<PairModel>::empty(),
            wf_command(r@),
    {
        proof {
            lemma_encode_utf8_nonempty(name@);
        }
        let r = Command { name: name.as_bytes_vec(), params: Vec::new() };
        proof {
            assert(r@.params =~= Seq::<PairModel>::empty());
        }
        r
    }

    /// Appends one named parameter, preserving order; the key must be new.
    pub fn param(self, key: &str, value: ParamValue) -> (r: Command)
        requires
            !key_in(self@.params, encode_utf8(key@)),
        ensures
            r@.name == self@.name,
            r@.params == self@.params.push((encode_utf8(key@), value@)),
            wf_command(self@) ==> wf_command(r@),
    {
        let mut params = self.params;
        params.push((key.as_bytes_vec(), value));
        let r = Command { name: self.name, params };
        proof {
            assert(r@.params =~= self@.params.push((encode_utf8(key@), value@)));
        }
        r
    }
}

/// Mathematical model of the device's response envelope.
pub struct EnvelopeModel {
    pub error_code: int,
    pub payload: Seq<PairModel>,
}

/// An envelope is well formed when its error code fits the wire's signed
/// 64-bit range, no payload key collides with the error-code key, and every
/// payload integer fits that range. A synthesized envelope must satisfy
/// this for its encoding to round-trip; a decoded one need not, since a
/// body may repeat the error-code key and the repeat stays in the payload.
pub open spec fn wf_envelope(e: EnvelopeModel) -> bool {
    &&& i64::MIN <= e.error_code <= i64::MAX
    &&& forall|i: int|
        0 <= i < e.payload.len() ==> (#[trigger] e.payload[i]).0 != crate::encode::error_code_key()
    &&& forall|i: int| 0 <= i < e.payload.len() ==> crate::value::value_wf((#[trigger] e.payload[i]).1)
}

/// The decoded response envelope: the device's error code and the remaining
/// payload fields in response order. Error code zero means success.
#[derive(Debug, PartialEq)]
pub struct ResponseEnvelope {
    pub error_code: i64,
    pub payload: Vec<(Vec<u8>, ParamValue)>,
}

impl View for ResponseEnvelope {
    type V = EnvelopeModel;

    open spec fn view(&self) -> EnvelopeModel {
        EnvelopeModel {
            error_code: self.error_code as int,
            payload: crate::encode::pairs_model(self.payload@),
        }
    }
}

impl ResponseEnvelope {
    /// Whether the device reported success.
    pub fn is_success(&self) -> (r: bool)
        ensures
            r == (self@.error_code == 0),
    {
        self.error_code == 0
    }
}

} // verus!
