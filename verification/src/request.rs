//! An inbound hook request, immutable once built, and its classification.

use vstd::prelude::*;

use crate::kvmap::KvMap;

verus! {

/// What a provider decided about a request.
#[derive(Clone, Copy, PartialEq, Eq, Structural, Debug)]
pub enum RequestType {
    /// The request asks for the hook's script to run.
    ExecuteHook,
    /// A liveness probe from the remote provider; acknowledged, never run.
    Ping,
    /// The request does not belong to this provider.
    Invalid,
}

/// An HTTP request as the front-end hands it to the core: plain values only.
pub struct Request {
    /// Header names and values, already folded by the front-end.
    pub headers: KvMap,
    /// Query and body parameters.
    pub params: KvMap,
    /// The source address the validators should trust, as text.
    pub source: String,
    /// The raw request body.
    pub body: String,
}

impl Request {
    /// A fresh copy with the same headers, parameters, source and body.
    pub fn duplicate(&self) -> (r: Request)
        ensures
            r.headers@ == self.headers@,
            r.params@ == self.params@,
            r.source@ == self.source@,
            r.body@ == self.body@,
    {
        Request {
            headers: self.headers.duplicate(),
            params: self.params.duplicate(),
            source: self.source.clone(),
            body: self.body.clone(),
        }
    }
}

} // verus!
