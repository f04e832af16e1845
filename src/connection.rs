//! The per-connection decisions: from the request's first line to a
//! handler, from a refused request to a client error, and from a handler
//! that failed to the not-found page.

use vstd::prelude::*;
use vstd::string::StringSliceAdditionalSpecFns;
use crate::request::{ParseError, get_uri, uri_spec};
use crate::response::{Handler, HandlerError, HandlerNotFound, loaded};
use crate::router::Router;

verus! {

/// The answer to a request that is not a `GET`.
pub const METHOD_NOT_ALLOWED: &'static str = "HTTP/1.1 405 METHOD NOT ALLOWED\r\n\r\n";

/// The answer to any other malformed request.
pub const BAD_REQUEST: &'static str = "HTTP/1.1 400 BAD REQUEST\r\n\r\n";

/// The status line sent back for a request refused with `e`.
pub open spec fn client_error_spec(e: ParseError) -> Seq<u8> {
    match e {
        ParseError::MethodNotSupported => METHOD_NOT_ALLOWED.spec_bytes(),
        _ => BAD_REQUEST.spec_bytes(),
    }
}

/// Parses the first line of `request` and picks its handler from `router`.
pub fn route_request<'a, H>(router: &'a Router<H>, request: &[u8]) -> (r: Result<&'a H, ParseError>)
    ensures
        match r {
            Ok(h) => uri_spec(request@) is Ok && *h == router.spec_resolve(uri_spec(request@)->Ok_0),
            Err(e) => uri_spec(request@) == Err::<Seq<u8>, ParseError>(e),
        },
{
    match get_uri(request) {
        Ok(target) => Ok(router.resolve(target.as_slice())),
        Err(e) => Err(e),
    }
}

/// The response to a request refused with `e`: `405` for a method other
/// than `GET`, `400` otherwise, each a bare status line.
pub fn client_error(e: ParseError) -> (r: Vec<u8>)
    ensures
        r@ == client_error_spec(e),
{
    let text = match e {
        ParseError::MethodNotSupported => METHOD_NOT_ALLOWED,
        _ => BAD_REQUEST,
    };
    let bytes = text.as_bytes();
    let mut out: Vec<u8> = Vec::new();
    let mut i: usize = 0;
    while i < bytes.len()
        invariant
            0 <= i <= bytes@.len(),
            bytes@ == text.spec_bytes(),
            out@ == bytes@.subrange(0, i as int),
        decreases bytes@.len() - i,
    {
        out.push(bytes[i]);
        i = i + 1;
        assert(out@ =~= bytes@.subrange(0, i as int));
    }
    assert(bytes@.subrange(0, bytes@.len() as int) =~= bytes@);
    out
}

/// The response that goes out: the handler's own, or, when the handler
/// failed, the not-found handler's answer for `not_found_page` (the bytes of
/// its resource, or `None` when they could not be read).
pub fn complete_response(outcome: Result<Vec<u8>, HandlerError>, not_found_page: Option<&[u8]>) -> (r: Vec<u8>)
    ensures
        match outcome {
            Ok(v) => r@ == v@,
            Err(_) => HandlerNotFound.spec_handle(loaded(not_found_page)) == Ok::<Seq<u8>, HandlerError>(r@),
        },
{
    match outcome {
        Ok(v) => v,
        Err(_) => match HandlerNotFound.handle(not_found_page) {
            Ok(v) => v,
            Err(_) => Vec::new(),
        },
    }
}

} // verus!
