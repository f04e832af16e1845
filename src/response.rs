//! Response framing and the page handlers.
//!
//! A handler names the resource it serves and, given that resource's bytes
//! (or `None` when it could not be loaded), produces the full response. The
//! loading itself is left to the caller.

use vstd::prelude::*;
use vstd::string::StringSliceAdditionalSpecFns;

verus! {

pub const STATUS_OK: &'static str = "HTTP/1.1 200 OK\r\n";

pub const STATUS_NOT_FOUND: &'static str = "HTTP/1.1 404 NOT FOUND\r\n";

pub const TYPE_HTML: &'static str = "Content-Type: text/html\r\n";

pub const TYPE_ICON: &'static str = "Content-Type: image/x-icon\r\n";

pub const LENGTH_FIELD: &'static str = "Content-Length: ";

pub const HEAD_END: &'static str = "\r\n\r\n";

/// The whole response sent when even the not-found page is missing.
pub const PLAIN_NOT_FOUND: &'static str = "HTTP/1.1 404 NOT FOUND\r\nContent-Type: text/plain\r\n\r\n404 Not Found";

/// ASCII decimal digits of `n`, most significant first, without leading
/// zeros.
pub open spec fn decimal(n: nat) -> Seq<u8>
    decreases n,
{
    if n < 10 {
        seq![(48 + n) as u8]
    } else {
        decimal(n / 10).push((48 + n % 10) as u8)
    }
}

/// A response of status line `status`, content type header `content_type`,
/// a `Content-Length` header and `body`.
pub open spec fn framed(status: Seq<u8>, content_type: Seq<u8>, body: Seq<u8>) -> Seq<u8> {
    status + content_type + LENGTH_FIELD.spec_bytes() + decimal(body.len()) + HEAD_END.spec_bytes()
        + body
}

/// `200 OK` with an HTML body.
pub open spec fn html_ok(body: Seq<u8>) -> Seq<u8> {
    framed(STATUS_OK.spec_bytes(), TYPE_HTML.spec_bytes(), body)
}

/// `404 NOT FOUND` with an HTML body.
pub open spec fn html_not_found(body: Seq<u8>) -> Seq<u8> {
    framed(STATUS_NOT_FOUND.spec_bytes(), TYPE_HTML.spec_bytes(), body)
}

/// `200 OK` with an icon body.
pub open spec fn icon_ok(body: Seq<u8>) -> Seq<u8> {
    framed(STATUS_OK.spec_bytes(), TYPE_ICON.spec_bytes(), body)
}

/// The view of a loaded resource.
pub open spec fn loaded(body: Option<&[u8]>) -> Option<Seq<u8>> {
    match body {
        Some(b) => Some(b@),
        None => None,
    }
}

fn push_bytes(out: &mut Vec<u8>, s: &[u8])
    ensures
        final(out)@ == old(out)@ + s@,
{
    let ghost start = out@;
    let mut i: usize = 0;
    while i < s.len()
        invariant
            0 <= i <= s@.len(),
            out@ == start + s@.subrange(0, i as int),
        decreases s@.len() - i,
    {
        out.push(s[i]);
        i = i + 1;
        assert(out@ =~= start + s@.subrange(0, i as int));
    }
    assert(s@.subrange(0, s@.len() as int) =~= s@);
}

fn push_decimal(out: &mut Vec<u8>, n: usize)
    ensures
        final(out)@ == old(out)@ + decimal(n as nat),
    decreases n,
{
    let ghost start = out@;
    if n >= 10 {
        push_decimal(out, n / 10);
    }
    let digit: u8 = (n % 10) as u8;
    out.push(48u8 + digit);
    proof {
        if n >= 10 {
            assert(out@ =~= start + decimal(n as nat));
        } else {
            assert(out@ =~= start + decimal(n as nat));
        }
    }
}

fn frame(status: &str, content_type: &str, body: &[u8]) -> (r: Vec<u8>)
    ensures
        r@ == framed(status.spec_bytes(), content_type.spec_bytes(), body@),
{
    let mut out: Vec<u8> = Vec::new();
    push_bytes(&mut out, status.as_bytes());
    push_bytes(&mut out, content_type.as_bytes());
    push_bytes(&mut out, LENGTH_FIELD.as_bytes());
    push_decimal(&mut out, body.len());
    push_bytes(&mut out, HEAD_END.as_bytes());
    push_bytes(&mut out, body);
    assert(out@ =~= framed(status.spec_bytes(), content_type.spec_bytes(), body@));
    out
}

/// `200 OK` with `body` as HTML.
pub fn ok_html(body: &[u8]) -> (r: Vec<u8>)
    ensures
        r@ == html_ok(body@),
{
    frame(STATUS_OK, TYPE_HTML, body)
}

/// `404 NOT FOUND` with `body` as HTML.
pub fn not_found_html(body: &[u8]) -> (r: Vec<u8>)
    ensures
        r@ == html_not_found(body@),
{
    frame(STATUS_NOT_FOUND, TYPE_HTML, body)
}

/// `200 OK` with `body` as an icon.
pub fn ok_icon(body: &[u8]) -> (r: Vec<u8>)
    ensures
        r@ == icon_ok(body@),
{
    frame(STATUS_OK, TYPE_ICON, body)
}

/// Why a handler produced no response.
#[derive(Clone, Copy, Debug, PartialEq, Eq, Structural)]
pub enum HandlerError {
    /// The resource the handler serves could not be loaded; the caller
    /// answers with the not-found handler instead.
    ResourceMissing,
}

/// Produces the response for one request from the resource it serves.
pub trait Handler {
    /// The response for the loaded resource `body`.
    spec fn spec_handle(&self, body: Option<Seq<u8>>) -> Result<Seq<u8>, HandlerError>;

    /// Path, relative to the site root, of the resource this handler serves.
    fn resource(&self) -> &'static str;

    /// Seconds to wait before answering.
    fn delay_secs(&self) -> u32;

    /// The response for `body`, the bytes of [`Handler::resource`], or
    /// `None` when they could not be read.
    fn handle(&self, body: Option<&[u8]>) -> (r: Result<Vec<u8>, HandlerError>)
        ensures
            match r {
                Ok(v) => self.spec_handle(loaded(body)) == Ok::<Seq<u8>, HandlerError>(v@),
                Err(e) => self.spec_handle(loaded(body)) == Err::<Seq<u8>, HandlerError>(e),
            },
    ;
}

/// The not-found page: HTML when its resource is there, plain text
/// otherwise. It never fails.
pub struct HandlerNotFound;

/// The main page.
pub struct HandlerHome;

/// The site icon.
pub struct HandlerFavicon;

/// A page that is answered only after a delay, to exercise long requests.
pub struct HandlerDbgLong {
    delay: u32,
}

impl HandlerDbgLong {
    pub closed spec fn spec_delay(&self) -> u32 {
        self.delay
    }

    /// A handler that waits `delay` seconds.
    pub fn new(delay: u32) -> (r: Self)
        ensures
            r.spec_delay() == delay,
    {
        HandlerDbgLong { delay }
    }
}

impl Handler for HandlerNotFound {
    open spec fn spec_handle(&self, body: Option<Seq<u8>>) -> Result<Seq<u8>, HandlerError> {
        match body {
            Some(b) => Ok(html_not_found(b)),
            None => Ok(PLAIN_NOT_FOUND.spec_bytes()),
        }
    }

    fn resource(&self) -> (r: &'static str)
        ensures
            r@ == "resources/404.html"@,
    {
        "resources/404.html"
    }

    fn delay_secs(&self) -> (r: u32)
        ensures
            r == 0,
    {
        0
    }

    fn handle(&self, body: Option<&[u8]>) -> (r: Result<Vec<u8>, HandlerError>) {
        match body {
            Some(b) => Ok(not_found_html(b)),
            None => {
                let mut out: Vec<u8> = Vec::new();
                push_bytes(&mut out, PLAIN_NOT_FOUND.as_bytes());
                assert(out@ =~= PLAIN_NOT_FOUND.spec_bytes());
                Ok(out)
            },
        }
    }
}

impl Handler for HandlerHome {
    open spec fn spec_handle(&self, body: Option<Seq<u8>>) -> Result<Seq<u8>, HandlerError> {
        match body {
            Some(b) => Ok(html_ok(b)),
            None => Err(HandlerError::ResourceMissing),
        }
    }

    fn resource(&self) -> (r: &'static str)
        ensures
            r@ == "resources/hello.html"@,
    {
        "resources/hello.html"
    }

    fn delay_secs(&self) -> (r: u32)
        ensures
            r == 0,
    {
        0
    }

    fn handle(&self, body: Option<&[u8]>) -> (r: Result<Vec<u8>, HandlerError>) {
        match body {
            Some(b) => Ok(ok_html(b)),
            None => Err(HandlerError::ResourceMissing),
        }
    }
}

impl Handler for HandlerFavicon {
    open spec fn spec_handle(&self, body: Option<Seq<u8>>) -> Result<Seq<u8>, HandlerError> {
        match body {
            Some(b) => Ok(icon_ok(b)),
            None => Err(HandlerError::ResourceMissing),
        }
    }

    fn resource(&self) -> (r: &'static str)
        ensures
            r@ == "resources/favicon.ico"@,
    {
        "resources/favicon.ico"
    }

    fn delay_secs(&self) -> (r: u32)
        ensures
            r == 0,
    {
        0
    }

    fn handle(&self, body: Option<&[u8]>) -> (r: Result<Vec<u8>, HandlerError>) {
        match body {
            Some(b) => Ok(ok_icon(b)),
            None => Err(HandlerError::ResourceMissing),
        }
    }
}

impl Handler for HandlerDbgLong {
    open spec fn spec_handle(&self, body: Option<Seq<u8>>) -> Result<Seq<u8>, HandlerError> {
        match body {
            Some(b) => Ok(html_ok(b)),
            None => Err(HandlerError::ResourceMissing),
        }
    }

    fn resource(&self) -> (r: &'static str)
        ensures
            r@ == "resources/debug.html"@,
    {
        "resources/debug.html"
    }

    fn delay_secs(&self) -> (r: u32)
        ensures
            r == self.spec_delay(),
    {
        self.delay
    }

    fn handle(&self, body: Option<&[u8]>) -> (r: Result<Vec<u8>, HandlerError>) {
        match body {
            Some(b) => Ok(ok_html(b)),
            None => Err(HandlerError::ResourceMissing),
        }
    }
}

} // verus!
