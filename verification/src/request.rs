//! The request encoder: a request line, one line per header field, a blank
//! line and the body, as the bytes that go on the wire.

use crate::consts::GET;
use crate::decimal::{decimal, decimal_string};
use crate::headers::{insert_field, Field, Headers};
use crate::url::{https, is_https, Url, UrlView};
use vstd::prelude::*;
use vstd::slice::slice_to_vec;
use vstd::string::*;
use vstd::utf8::encode_utf8;

verus! {

/// The parameters of a request, spelled out by the caller: nothing is added
/// to them and nothing is checked.
#[derive(Debug, Clone, PartialEq, Eq)]
pub struct DIYRequest<'a> {
    pub ssl: bool,
    pub host: &'a str,
    pub port: u16,
    pub method: &'a str,
    pub path: &'a str,
    pub http_version: &'a str,
    pub headers: &'a Headers,
    pub body: Option<&'a [u8]>,
}

/// The line break of the wire format.
pub open spec fn crlf() -> Seq<u8> {
    seq![13u8, 10u8]
}

/// The request line: `METHOD`, a space, `PATH`, a space, `HTTP/VERSION` and
/// a line break.
pub open spec fn request_line(method: Seq<char>, path: Seq<char>, version: Seq<char>) -> Seq<u8> {
    encode_utf8(method) + encode_utf8(" "@) + encode_utf8(path) + encode_utf8(" HTTP/"@)
        + encode_utf8(version) + crlf()
}

/// One header line: the name, `:`, the raw value and a line break, with
/// nothing added around the colon and nothing escaped.
pub open spec fn field_line(f: Field) -> Seq<u8> {
    encode_utf8(f.0) + encode_utf8(":"@) + f.1 + crlf()
}

/// The header lines of the fields, in their order.
pub open spec fn field_lines(fields: Seq<Field>) -> Seq<u8>
    decreases fields.len(),
{
    if fields.len() == 0 {
        Seq::empty()
    } else {
        field_lines(fields.drop_last()) + field_line(fields.last())
    }
}

/// What follows the blank line: the raw body and a line break, or nothing.
pub open spec fn body_part(body: Option<Seq<u8>>) -> Seq<u8> {
    match body {
        Some(b) => b + crlf(),
        None => Seq::empty(),
    }
}

/// A request on the wire: the request line, the header lines, a blank line,
/// and the body with a trailing line break where there is a body.
pub open spec fn wire(
    method: Seq<char>,
    path: Seq<char>,
    version: Seq<char>,
    fields: Seq<Field>,
    body: Option<Seq<u8>>,
) -> Seq<u8> {
    request_line(method, path, version) + field_lines(fields) + crlf() + body_part(body)
}

/// The value of an optional slice of bytes.
pub open spec fn slice_view(o: Option<&[u8]>) -> Option<Seq<u8>> {
    match o {
        Some(b) => Some(b@),
        None => None,
    }
}

/// The value of an optional vector of bytes.
pub open spec fn bytes_view(o: Option<Vec<u8>>) -> Option<Seq<u8>> {
    match o {
        Some(b) => Some(b@),
        None => None,
    }
}

/// Appends a line break.
fn push_crlf(out: &mut Vec<u8>)
    ensures
        final(out)@ == old(out)@ + crlf(),
{
    out.push(13u8);
    out.push(10u8);
    assert(out@ =~= old(out)@ + crlf());
}

impl<'a> DIYRequest<'a> {
    /// The bytes of this request on the wire. Host, port and `ssl` say where
    /// the bytes go and are no part of them; no header is added.
    pub fn encode(&self) -> (out: Vec<u8>)
        ensures
            out@ == wire(
                self.method@,
                self.path@,
                self.http_version@,
                self.headers@,
                slice_view(self.body),
            ),
    {
        let mut out: Vec<u8> = Vec::new();
        out.extend_from_slice(self.method.as_bytes());
        out.extend_from_slice(" ".as_bytes());
        out.extend_from_slice(self.path.as_bytes());
        out.extend_from_slice(" HTTP/".as_bytes());
        out.extend_from_slice(self.http_version.as_bytes());
        push_crlf(&mut out);
        assert(out@ =~= request_line(self.method@, self.path@, self.http_version@));
        let ghost line = out@;
        let n = self.headers.len();
        let mut i: usize = 0;
        assert(self.headers@.take(0) =~= Seq::<Field>::empty());
        while i < n
            invariant
                n == self.headers@.len(),
                i <= n,
                out@ == line + field_lines(self.headers@.take(i as int)),
            decreases n - i,
        {
            let ghost before = out@;
            out.extend_from_slice(self.headers.name(i).as_bytes());
            out.extend_from_slice(":".as_bytes());
            out.extend_from_slice(self.headers.value(i));
            push_crlf(&mut out);
            proof {
                let next = self.headers@.take(i + 1);
                assert(next.drop_last() =~= self.headers@.take(i as int));
                assert(next.last() == self.headers@[i as int]);
                assert(out@ =~= before + field_line(self.headers@[i as int]));
                assert(out@ =~= line + field_lines(next));
            }
            i += 1;
        }
        assert(self.headers@.take(n as int) =~= self.headers@);
        push_crlf(&mut out);
        let ghost head = out@;
        match self.body {
            Some(body) => {
                out.extend_from_slice(body);
                push_crlf(&mut out);
                assert(out@ =~= head + body_part(slice_view(self.body)));
            },
            None => {
                assert(out@ =~= head + body_part(slice_view(self.body)));
            },
        }
        out
    }
}

/// A request by URL: the target, the method, the caller's header fields and
/// an optional body.
#[derive(Debug, PartialEq, Eq)]
pub struct Request {
    pub url: Url,
    pub method: &'static str,
    pub headers: Headers,
    pub body: Option<Vec<u8>>,
}

/// The mathematical value of a [`Request`].
pub struct RequestView {
    pub url: UrlView,
    pub method: Seq<char>,
    pub headers: Seq<Field>,
    pub body: Option<Seq<u8>>,
}

impl View for Request {
    type V = RequestView;

    open spec fn view(&self) -> RequestView {
        RequestView {
            url: self.url@,
            method: self.method@,
            headers: self.headers@,
            body: bytes_view(self.body),
        }
    }
}

impl Clone for Request {
    /// The same request.
    fn clone(&self) -> (r: Self)
        ensures
            r@ == self@,
    {
        Request {
            url: self.url.clone(),
            method: self.method,
            headers: self.headers.clone(),
            body: match &self.body {
                Some(b) => Some(slice_to_vec(b.as_slice())),
                None => None,
            },
        }
    }
}

/// The length of an optional body.
pub open spec fn length_of(body: Option<Seq<u8>>) -> Option<nat> {
    match body {
        Some(b) => Some(b.len()),
        None => None,
    }
}

/// The header fields that go on the wire for a request to `host`: those of
/// the caller, then `Host` set to the host, `Connection` set to `close` and,
/// where there is a body, `Content-Length` set to its length in decimal.
/// Each of the three replaces a field that the caller gave under that name.
pub open spec fn with_defaults(fields: Seq<Field>, host: Seq<char>, length: Option<nat>) -> Seq<
    Field,
> {
    let named = insert_field(
        insert_field(fields, "Host"@, encode_utf8(host)),
        "Connection"@,
        encode_utf8("close"@),
    );
    match length {
        Some(n) => insert_field(named, "Content-Length"@, encode_utf8(decimal(n))),
        None => named,
    }
}

/// The header fields that go on the wire for a request to `host` with a
/// body of `length` bytes, or without a body: the given fields and the
/// defaults `Host`, `Connection` and, with a body, `Content-Length`.
pub fn default_headers(fields: &Headers, host: &str, length: Option<usize>) -> (r: Headers)
    ensures
        r@ == with_defaults(
            fields@,
            host@,
            match length {
                Some(n) => Some(n as nat),
                None => None,
            },
        ),
{
    let mut r = fields.clone();
    r.insert(String::from_str("Host"), host.as_bytes_vec());
    r.insert(String::from_str("Connection"), "close".as_bytes_vec());
    match length {
        Some(n) => {
            let digits = decimal_string(n as u64);
            r.insert(String::from_str("Content-Length"), digits.as_str().as_bytes_vec());
        },
        None => {},
    }
    r
}

/// The bytes on the wire of the request `r`: its method, the full path of
/// its URL, version 1.1, its header fields with the defaults, and its body.
pub open spec fn request_wire(r: RequestView) -> Seq<u8> {
    wire(
        r.method,
        r.url.fullpath,
        "1.1"@,
        with_defaults(r.headers, r.url.host, length_of(r.body)),
        r.body,
    )
}

impl Request {
    /// A `GET` request to `url` without header fields and without a body.
    pub fn new(url: Url) -> (r: Request)
        ensures
            r@ == (RequestView {
                url: url@,
                method: "GET"@,
                headers: Seq::empty(),
                body: None,
            }),
    {
        Request { url, method: GET, headers: Headers::new(), body: None }
    }

    /// Sets the URL.
    pub fn url(self, url: Url) -> (r: Request)
        ensures
            r@ == (RequestView { url: url@, ..self@ }),
    {
        let mut r = self;
        r.url = url;
        r
    }

    /// Sets the method.
    pub fn method(self, method: &'static str) -> (r: Request)
        ensures
            r@ == (RequestView { method: method@, ..self@ }),
    {
        let mut r = self;
        r.method = method;
        r
    }

    /// Sets the header field `key` to `val`; an earlier value under that
    /// name is replaced.
    pub fn header(self, key: &str, val: &[u8]) -> (r: Request)
        ensures
            r@ == (RequestView { headers: insert_field(self@.headers, key@, val@), ..self@ }),
    {
        let mut r = self;
        r.headers.insert(String::from_str(key), slice_to_vec(val));
        r
    }

    /// Sets the body.
    pub fn body(self, body: Vec<u8>) -> (r: Request)
        ensures
            r@ == (RequestView { body: Some(body@), ..self@ }),
    {
        let mut r = self;
        r.body = Some(body);
        r
    }

    /// The header fields that go on the wire: those of the request and the
    /// defaults `Host`, `Connection` and, with a body, `Content-Length`.
    pub fn wire_headers(&self) -> (r: Headers)
        ensures
            r@ == with_defaults(self@.headers, self@.url.host, length_of(self@.body)),
    {
        let length = match &self.body {
            Some(body) => Some(body.len()),
            None => None,
        };
        default_headers(&self.headers, self.url.host.as_str(), length)
    }

    /// Whether the request goes over an encrypted connection: its scheme is
    /// `https`.
    pub fn is_secure(&self) -> (b: bool)
        ensures
            b == (self@.url.protocol == https()),
    {
        is_https(self.url.protocol.as_str())
    }

    /// The bytes of the request on the wire, default header fields included.
    pub fn encode(&self) -> (out: Vec<u8>)
        ensures
            out@ == request_wire(self@),
    {
        let headers = self.wire_headers();
        let diy = DIYRequest {
            ssl: self.is_secure(),
            host: self.url.host.as_str(),
            port: self.url.port,
            method: self.method,
            path: self.url.fullpath.as_str(),
            http_version: "1.1",
            headers: &headers,
            body: match &self.body {
                Some(b) => Some(b.as_slice()),
                None => None,
            },
        };
        diy.encode()
    }
}

} // verus!
