//! The Pixoo device client: holds the device's base URL and hands out
//! command builders. The HTTP round trip itself is performed by the
//! caller's transport against [`PixooClient::base_url`]; the library
//! produces the request body and evaluates the outcome.

use vstd::prelude::*;
use vstd::string::StringExecFns;
use crate::builder::PixooCommandBuilder;
use crate::builder::BuilderMode;
use crate::command::CommandModel;

verus! {

/// A client for one Pixoo device, bound to its base URL.
pub struct PixooClient {
    base_url: String,
}

impl View for PixooClient {
    type V = Seq<char>;

    closed spec fn view(&self) -> Seq<char> {
        self.base_url@
    }
}

impl PixooClient {
    /// Creates a client for the device at the given IP address or host
    /// name: its base URL is `http://` followed by the address.
    pub fn new(device_ip: &str) -> (r: PixooClient)
        ensures
            r@ == "http://"@ + device_ip@,
    {
        let mut base_url = String::from_str("http://");
        base_url.append(device_ip);
        PixooClient { base_url }
    }

    /// The base URL a transport should POST request bodies to, under the
    /// device's fixed `/post` endpoint.
    pub fn base_url(&self) -> (r: &str)
        ensures
            r@ == self@,
    {
        self.base_url.as_str()
    }

    /// Starts a single-shot command builder.
    pub fn start(&self) -> (r: PixooCommandBuilder)
        ensures
            r@.mode == BuilderMode::SingleShot,
            r@.commands == Seq::<CommandModel>::empty(),
            crate::builder::wf_builder(r@),
    {
        PixooCommandBuilder::start()
    }

    /// Starts a batch command builder: several commands are accumulated
    /// and executed as one atomic device request.
    pub fn start_batch(&self) -> (r: PixooCommandBuilder)
        ensures
            r@.mode == BuilderMode::Batch,
            r@.commands == Seq::<CommandModel>::empty(),
            crate::builder::wf_builder(r@),
    {
        PixooCommandBuilder::start_batch()
    }
}

} // verus!
