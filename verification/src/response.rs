//! The response decoder: a status line, header lines up to a blank line, and
//! the rest of the stream as the body.

use crate::decimal::{parse_u16, parse_u16_chars};
use crate::error::Error;
use crate::headers::{insert_field, Field, Headers};
use crate::text::{
    chars_of, decode_text, find, find_in, next_token, substring, token_from, trim, trim_bounds,
    Pattern,
};
use vstd::prelude::*;
use vstd::slice::{slice_subrange, slice_to_vec};
use vstd::string::*;
use vstd::utf8::{decode_utf8, encode_utf8, valid_utf8};

verus! {

/// A decoded response.
///
/// `body` is what the stream holds behind the blank line that ends the head,
/// byte for byte: no length is checked and no framing is undone.
#[derive(Debug)]
pub struct Response {
    pub http_version: String,
    pub status: u16,
    pub description: String,
    pub headers: Headers,
    pub body: Vec<u8>,
}

/// The mathematical value of a [`Response`].
pub struct ResponseView {
    pub http_version: Seq<char>,
    pub status: u16,
    pub description: Seq<char>,
    pub headers: Seq<Field>,
    pub body: Seq<u8>,
}

impl View for Response {
    type V = ResponseView;

    open spec fn view(&self) -> ResponseView {
        ResponseView {
            http_version: self.http_version@,
            status: self.status,
            description: self.description@,
            headers: self.headers@,
            body: self.body@,
        }
    }
}

/// What a header line holds.
pub enum HeaderLine {
    /// Nothing but white space: the head ends here.
    Blank,
    /// No `:` in it.
    Invalid,
    /// A name and a value.
    Field(Seq<char>, Seq<u8>),
}

/// What a status line denotes: its first three white-space-delimited tokens
/// are the version, the status code and the reason phrase, and what follows
/// the third is dropped. A line with fewer than three tokens is invalid; a
/// second token that is no 16-bit decimal number is an integer error, which
/// comes before the test for the third.
pub open spec fn parse_status_line(line: Seq<char>) -> Result<ResponseView, Error> {
    match next_token(line, 0) {
        None => Err(Error::InvalidStatusLine),
        Some(version) => match next_token(line, version.1) {
            None => Err(Error::InvalidStatusLine),
            Some(code) => match parse_u16(line.subrange(code.0, code.1)) {
                Err(kind) => Err(Error::ParseIntError(kind)),
                Ok(status) => match next_token(line, code.1) {
                    None => Err(Error::InvalidStatusLine),
                    Some(reason) => Ok(
                        ResponseView {
                            http_version: line.subrange(version.0, version.1),
                            status,
                            description: line.subrange(reason.0, reason.1),
                            headers: Seq::empty(),
                            body: Seq::empty(),
                        },
                    ),
                },
            },
        },
    }
}

/// What a header line denotes. The line is trimmed; an empty rest is the
/// blank line. Otherwise it is split at its first `:` into a name and a
/// value, both trimmed; the value is kept as the bytes of its UTF-8 form.
pub open spec fn parse_header_line(line: Seq<char>) -> HeaderLine {
    let t = trim(line);
    let colon = find(t, Pattern::Char(':'), 0);
    if t.len() == 0 {
        HeaderLine::Blank
    } else if colon >= t.len() {
        HeaderLine::Invalid
    } else {
        HeaderLine::Field(trim(t.take(colon)), encode_utf8(trim(t.skip(colon + 1))))
    }
}

/// The response `r` after one more header line: a field is set in its
/// headers, a blank line changes nothing, a line without `:` is an error.
pub open spec fn after_header_line(r: ResponseView, line: Seq<char>) -> Result<
    ResponseView,
    Error,
> {
    match parse_header_line(line) {
        HeaderLine::Blank => Ok(r),
        HeaderLine::Invalid => Err(Error::InvalidHeader),
        HeaderLine::Field(name, value) => Ok(
            ResponseView { headers: insert_field(r.headers, name, value), ..r },
        ),
    }
}

/// One past the first line feed of `stream` at or after `from`, or
/// `stream.len()` when there is none: the end of the line that begins at
/// `from`.
pub open spec fn line_end(stream: Seq<u8>, from: int) -> int
    decreases stream.len() - from,
{
    if from < 0 || from >= stream.len() {
        stream.len() as int
    } else if stream[from] == 10 {
        from + 1
    } else {
        line_end(stream, from + 1)
    }
}

/// A line that begins inside the stream ends behind its beginning, with a
/// line feed as its last byte or at the end of the stream.
pub proof fn lemma_line_end(stream: Seq<u8>, from: int)
    requires
        0 <= from <= stream.len(),
    ensures
        from <= line_end(stream, from) <= stream.len(),
        from < stream.len() ==> from < line_end(stream, from),
        forall|j: int| from <= j < line_end(stream, from) - 1 ==> stream[j] != 10,
        line_end(stream, from) < stream.len() ==> stream[line_end(stream, from) - 1] == 10,
    decreases stream.len() - from,
{
    if from < stream.len() && stream[from] != 10 {
        lemma_line_end(stream, from + 1);
    }
}

/// An index behind `from` that follows the first line feed, or the length
/// with no line feed before it, is the one that `line_end` returns.
pub proof fn lemma_line_end_is(stream: Seq<u8>, from: int, end: int)
    requires
        0 <= from <= end <= stream.len(),
        forall|j: int| from <= j < end - 1 ==> stream[j] != 10,
        from < end ==> stream[end - 1] == 10 || end == stream.len(),
        from == end ==> end == stream.len(),
    ensures
        line_end(stream, from) == end,
    decreases end - from,
{
    if from < end && stream[from] != 10 {
        lemma_line_end_is(stream, from + 1, end);
    }
}

/// The header lines of `stream` from index `from` on, added to the response
/// `head`, and the body behind them.
///
/// Each line is read up to its line feed and must be valid UTF-8. The head
/// ends with the first blank line, or with the stream.
pub open spec fn decode_headers(stream: Seq<u8>, from: int, head: ResponseView) -> Result<
    ResponseView,
    Error,
>
    decreases stream.len() - from,
{
    if from < 0 || from >= stream.len() {
        Ok(ResponseView { body: Seq::empty(), ..head })
    } else {
        let end = line_end(stream, from);
        let raw = stream.subrange(from, end);
        if !valid_utf8(raw) {
            Err(Error::IoError)
        } else {
            match parse_header_line(decode_utf8(raw)) {
                HeaderLine::Blank => Ok(ResponseView { body: stream.skip(end), ..head }),
                HeaderLine::Invalid => Err(Error::InvalidHeader),
                HeaderLine::Field(name, value) => {
                    proof {
                        lemma_line_end(stream, from);
                    }
                    decode_headers(
                        stream,
                        end,
                        ResponseView { headers: insert_field(head.headers, name, value), ..head },
                    )
                },
            }
        }
    }
}

/// What a stream of bytes denotes as a response: a status line, then
/// header lines, then the body.
pub open spec fn decode(stream: Seq<u8>) -> Result<ResponseView, Error> {
    let end = line_end(stream, 0);
    let raw = stream.subrange(0, end);
    if !valid_utf8(raw) {
        Err(Error::IoError)
    } else {
        match parse_status_line(decode_utf8(raw)) {
            Err(e) => Err(e),
            Ok(head) => decode_headers(stream, end, head),
        }
    }
}

/// The end of the line of `stream` that begins at `from`.
fn line_end_in(stream: &[u8], from: usize) -> (end: usize)
    requires
        from <= stream@.len(),
    ensures
        end == line_end(stream@, from as int),
        from <= end <= stream@.len(),
        from < stream@.len() ==> from < end,
{
    let n = stream.len();
    let mut i: usize = from;
    while i < n && stream[i] != 10
        invariant
            n == stream@.len(),
            from <= i <= n,
            forall|j: int| from <= j < i ==> stream@[j] != 10,
        decreases n - i,
    {
        i += 1;
    }
    let end: usize = if i < n { i + 1 } else { n };
    proof {
        lemma_line_end_is(stream@, from as int, end as int);
    }
    end
}

impl Response {
    /// Begins a response with its status line: the version, the status code
    /// and the reason phrase, no headers and an empty body.
    pub fn begin(line: &str) -> (r: Result<Response, Error>)
        ensures
            match r {
                Ok(x) => parse_status_line(line@) == Ok::<ResponseView, Error>(x@),
                Err(e) => parse_status_line(line@) == Err::<ResponseView, Error>(e),
            },
    {
        let chars = chars_of(line);
        let all = chars.as_slice();
        let version = match token_from(all, 0) {
            None => { return Err(Error::InvalidStatusLine); },
            Some(t) => t,
        };
        let code = match token_from(all, version.1) {
            None => { return Err(Error::InvalidStatusLine); },
            Some(t) => t,
        };
        let status = match parse_u16_chars(slice_subrange(all, code.0, code.1)) {
            Err(kind) => { return Err(Error::ParseIntError(kind)); },
            Ok(n) => n,
        };
        let reason = match token_from(all, code.1) {
            None => { return Err(Error::InvalidStatusLine); },
            Some(t) => t,
        };
        Ok(
            Response {
                http_version: substring(line, version.0, version.1),
                status,
                description: substring(line, reason.0, reason.1),
                headers: Headers::new(),
                body: Vec::new(),
            },
        )
    }

    /// Takes one more line of the head. `Ok(true)` says that the line was
    /// blank, so that the head is complete and the body begins; `Ok(false)`
    /// that the line was a header field, which is now set. A line without
    /// `:` is an error and changes nothing.
    pub fn header_line(&mut self, line: &str) -> (r: Result<bool, Error>)
        ensures
            match r {
                Ok(done) => after_header_line(old(self)@, line@) == Ok::<ResponseView, Error>(
                    final(self)@,
                ) && done == (parse_header_line(line@) is Blank),
                Err(e) => after_header_line(old(self)@, line@) == Err::<ResponseView, Error>(e)
                    && *final(self) == *old(self),
            },
    {
        let chars = chars_of(line);
        let all = chars.as_slice();
        let (a, b) = trim_bounds(all);
        if a == b {
            assert(all@.subrange(a as int, b as int) =~= Seq::<char>::empty());
            return Ok(true);
        }
        let t = slice_subrange(all, a, b);
        let colon = find_in(t, &Pattern::Char(':'), 0);
        if colon >= t.len() {
            return Err(Error::InvalidHeader);
        }
        let (na, nb) = trim_bounds(slice_subrange(t, 0, colon));
        let (va, vb) = trim_bounds(slice_subrange(t, colon + 1, t.len()));
        let name = substring(line, a + na, a + nb);
        let at: usize = a + colon + 1;
        let value = line.substring_char(at + va, at + vb).as_bytes_vec();
        proof {
            let tv = trim(line@);
            assert(t@ == tv);
            assert(t@.take(colon as int) == t@.subrange(0, colon as int));
            assert(t@.skip(colon + 1) == t@.subrange(colon + 1, t@.len() as int));
            assert(name@ =~= trim(tv.take(colon as int)));
            assert(line@.subrange(at + va, at + vb) =~= trim(tv.skip(colon + 1)));
        }
        self.headers.insert(name, value);
        Ok(false)
    }

    /// Decodes a response from the bytes of a stream: the status line, the
    /// header lines up to the first blank line, and whatever follows as the
    /// body.
    pub fn new(stream: &[u8]) -> (r: Result<Response, Error>)
        ensures
            match r {
                Ok(x) => decode(stream@) == Ok::<ResponseView, Error>(x@),
                Err(e) => decode(stream@) == Err::<ResponseView, Error>(e),
            },
    {
        let n = stream.len();
        let first = line_end_in(stream, 0);
        let line = match decode_text(slice_subrange(stream, 0, first)) {
            None => { return Err(Error::IoError); },
            Some(l) => l,
        };
        let mut response = match Response::begin(line) {
            Err(e) => { return Err(e); },
            Ok(x) => x,
        };
        let mut from: usize = first;
        while from < n
            invariant
                n == stream@.len(),
                from <= n,
                response@.body == Seq::<u8>::empty(),
                decode(stream@) == decode_headers(stream@, from as int, response@),
            decreases n - from,
        {
            let end = line_end_in(stream, from);
            let line = match decode_text(slice_subrange(stream, from, end)) {
                None => { return Err(Error::IoError); },
                Some(l) => l,
            };
            match response.header_line(line) {
                Err(e) => { return Err(e); },
                Ok(true) => {
                    response.body = slice_to_vec(slice_subrange(stream, end, n));
                    return Ok(response);
                },
                Ok(false) => {
                    from = end;
                },
            }
        }
        assert(response@ == ResponseView { body: Seq::empty(), ..response@ });
        Ok(response)
    }

    /// Whether the status code is one of 200 to 299.
    pub fn is_success(&self) -> (b: bool)
        ensures
            b <==> 200 <= self.status <= 299,
    {
        self.status / 100 == 2
    }
}

} // verus!
