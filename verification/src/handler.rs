//! What a listener knows about the queries it hands on.

use crate::recursor::reply::{build_refused, refusal};
use vstd::prelude::*;

verus! {

/// The policy of the listener on which a query came in.
#[derive(Debug)]
pub struct ListenerContext {
    pub name: String,
    pub dns64: bool,
    /// Where this is set, DNS over HTTPS asks for it in the path.
    pub doh_auth_token: Option<String>,
}

impl ListenerContext {
    /// A listener's policy.
    pub fn new(name: String, dns64: bool, doh_auth_token: Option<String>) -> (r: ListenerContext)
        ensures
            r.name == name,
            r.dns64 == dns64,
            r.doh_auth_token == doh_auth_token,
    {
        ListenerContext { name, dns64, doh_auth_token }
    }
}

impl Default for ListenerContext {
    fn default() -> (r: ListenerContext)
        ensures
            r.name@.len() == 0,
            !r.dns64,
            r.doh_auth_token is None,
    {
        let name = String::new();
        assert(name@.len() == 0) by {
            reveal_strlit("");
        }
        ListenerContext { name, dns64: false, doh_auth_token: None }
    }
}

/// The handler for when resolution is turned off: it refuses every query.
#[derive(Debug, Clone, Copy)]
pub struct RefusedHandler;

impl RefusedHandler {
    /// The reply to a query: REFUSED, or nothing for what is no query.
    pub fn handle_bytes(&self, query: &[u8]) -> (r: Option<Vec<u8>>)
        ensures
            refusal(query@) == (match r {
                Some(b) => Some(b@),
                None => None,
            }),
    {
        build_refused(query)
    }
}

} // verus!
