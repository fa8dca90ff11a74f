//! Parameter values and their mathematical models.
//!
//! A command parameter is a closed variant over integers, booleans and
//! strings; enum-valued device settings are carried as their wire string or
//! wire integer. Strings travel as UTF-8 bytes, which is what the wire holds.

use vstd::prelude::*;

verus! {

/// Mathematical model of one parameter value.
pub enum ValueModel {
    Int(int),
    Bool(bool),
    Text(Seq<u8>),
}

/// A model value is well formed when any integer it holds fits the wire's
/// signed 64-bit range, as every executable value does.
pub open spec fn value_wf(v: ValueModel) -> bool {
    match v {
        ValueModel::Int(i) => i64::MIN <= i <= i64::MAX,
        _ => true,
    }
}

/// One parameter value as it is built and sent.
///
/// `Text` holds the UTF-8 bytes of the string; enum-valued device settings
/// are carried as `Int` or `Text` of their wire representation.
#[derive(Debug, PartialEq)]
pub enum ParamValue {
    Int(i64),
    Bool(bool),
    Text(Vec<u8>),
}

impl View for ParamValue {
    type V = ValueModel;

    open spec fn view(&self) -> ValueModel {
        match self {
            ParamValue::Int(i) => ValueModel::Int(*i as int),
            ParamValue::Bool(b) => ValueModel::Bool(*b),
            ParamValue::Text(t) => ValueModel::Text(t@),
        }
    }
}

impl ParamValue {
    /// Turns a string into the `Text` value holding its UTF-8 bytes.
    pub fn text_of_str(s: &str) -> (r: ParamValue)
        ensures
            r@ == ValueModel::Text(vstd::string::StringSliceAdditionalSpecFns::spec_bytes(s)),
    {
        ParamValue::Text(vstd::string::StrSliceExecFns::as_bytes_vec(s))
    }
}

} // verus!
