//! The proxy handler: validate the inbound chat request, build the outbound
//! generation request, and turn what came back from the provider into the
//! response for the caller. Every failure becomes a structured error
//! response; nothing here panics.

use vstd::prelude::*;
use crate::scan::{skip_ws, scan_obj, LBRACE};
use crate::wire::{
    message_of, valid_message, reply_urls, generation_body, response_body, bad_request_body,
    upstream_error_body, message_key_vec, build_generation_body, build_response_body,
    bad_request_body_vec, upstream_error_body_vec, scan_reply,
};

verus! {

/// The HTTP response the proxy hands back: a status code and a JSON body.
#[derive(Debug)]
pub struct Reply {
    pub status: u16,
    pub body: Vec<u8>,
}

/// What the outbound call to the provider came to: no reply at all
/// (connection failure or timeout), or a reply with its status and body.
pub enum Outcome {
    Transport,
    Got(u16, Vec<u8>),
}

/// A status is a success exactly when it lies in the 2xx range.
pub open spec fn is_success(status: u16) -> bool {
    200 <= status < 300
}

/// Validate the inbound request body. A body holding one object with a
/// non-empty string `message` member yields the outbound generation request
/// for that message; anything else yields the client-error response, and no
/// outbound request is to be made.
pub fn chat_request(body: &[u8]) -> (r: Result<Vec<u8>, Reply>)
    ensures
        match r {
            Ok(out) => valid_message(body@) && out@ == generation_body(
                message_of(body@).unwrap(),
            ),
            Err(rep) => !valid_message(body@) && rep.status == 400 && rep.body@
                == bad_request_body(),
        },
{
    match extract_message(body) {
        Some((a, b)) => if a < b {
            Ok(build_generation_body(&body[a..b]))
        } else {
            Err(bad_request_reply())
        },
        None => Err(bad_request_reply()),
    }
}

/// The client-error response: status 400 with the client-error body.
fn bad_request_reply() -> (r: Reply)
    ensures
        r.status == 400,
        r.body@ == bad_request_body(),
{
    Reply { status: 400, body: bad_request_body_vec() }
}

/// The upstream-error response: status 502 with the upstream-error body.
fn upstream_error_reply() -> (r: Reply)
    ensures
        r.status == 502,
        r.body@ == upstream_error_body(),
{
    Reply { status: 502, body: upstream_error_body_vec() }
}

/// The raw content of the `message` member of the request body, as indices
/// into it, if the body is one well-formed request object.
fn extract_message(body: &[u8]) -> (r: Option<(usize, usize)>)
    ensures
        match r {
            Some((a, b)) => a <= b <= body@.len() && message_of(body@) == Some(
                body@.subrange(a as int, b as int),
            ),
            None => message_of(body@) is None,
        },
{
    let n: usize = body.len();
    let i = skip_ws(body, 0);
    if i >= n || body[i] != LBRACE {
        return None;
    }
    let mkey = message_key_vec();
    match scan_obj(body, i + 1, mkey.as_slice()) {
        None => None,
        Some((cap, e)) => {
            let t = skip_ws(body, e);
            if t < n {
                return None;
            }
            cap
        },
    }
}

/// Turn the outcome of the outbound call into the response for the caller.
/// A success status with a reply carrying a well-shaped `data` array yields
/// status 200 and the reshaped body, the entries in the reply's order; a
/// transport failure, an error status, and a malformed or ill-shaped reply
/// body all yield the upstream-error response.
pub fn chat_reply(outcome: Outcome) -> (r: Reply)
    ensures
        match outcome {
            Outcome::Got(status, b) => if is_success(status) {
                match reply_urls(b@) {
                    Some(urls) => r.status == 200 && r.body@ == response_body(urls),
                    None => r.status == 502 && r.body@ == upstream_error_body(),
                }
            } else {
                r.status == 502 && r.body@ == upstream_error_body()
            },
            Outcome::Transport => r.status == 502 && r.body@ == upstream_error_body(),
        },
{
    match outcome {
        Outcome::Transport => upstream_error_reply(),
        Outcome::Got(status, b) => {
            if !(200 <= status && status < 300) {
                return upstream_error_reply();
            }
            match extract_urls(b.as_slice()) {
                Some(urls) => Reply { status: 200, body: build_response_body(&urls) },
                None => upstream_error_reply(),
            }
        },
    }
}

/// The url contents of the reply's `data` entries, in order, if the reply
/// body is one well-shaped reply object.
fn extract_urls(body: &[u8]) -> (r: Option<Vec<Vec<u8>>>)
    ensures
        match r {
            Some(us) => reply_urls(body@) == Some(us@.map_values(|u: Vec<u8>| u@)),
            None => reply_urls(body@) is None,
        },
{
    let n: usize = body.len();
    let i = skip_ws(body, 0);
    if i >= n || body[i] != LBRACE {
        return None;
    }
    match scan_reply(body, i + 1) {
        None => None,
        Some((cap, e)) => {
            let t = skip_ws(body, e);
            if t < n {
                return None;
            }
            cap
        },
    }
}

} // verus!
