//! The shape of a fetch result handed back by whatever transport the
//! surrounding program uses. The transport itself (sockets, TLS,
//! redirects) is outside work: the engine only consumes the status code
//! and the body text.

use vstd::prelude::*;

verus! {

/// What a completed fetch returns: the response code and the body text.
#[derive(Debug)]
pub struct Response {
    pub code: u32,
    pub body: String,
}

impl Response {
    /// Bundle a status code and a body.
    pub fn new(code: u32, body: String) -> (r: Response)
        ensures
            r.code == code,
            r.body@ == body@,
    {
        Response { code, body }
    }
}

} // verus!
