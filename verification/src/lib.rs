//! Client-side core of the Divoom Pixoo HTTP/JSON control protocol.
//!
//! The library models the device's wire format over byte sequences: typed
//! commands are encoded into the single-command or batch JSON body, and the
//! device's response envelope is decoded back into a typed result or a typed
//! error. The stateful command builder accumulates commands and produces the
//! request body; the HTTP transport itself lives outside the library.

pub mod builder;
pub mod client;
pub mod command;
pub mod decode;
pub mod encode;
pub mod error;
pub mod laws;
pub mod value;
