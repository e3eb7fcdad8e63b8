//! Handing a decoded response on as a response of the `http` crate.

use crate::error::ConvertError;
use crate::headers::Field;
use crate::response::{Response, ResponseView};
use vstd::multiset::Multiset;
use vstd::prelude::*;
use vstd::string::*;
use vstd::utf8::encode_utf8;

verus! {

/// The protocol versions that the conversion tells apart.
#[derive(Clone, Copy, Debug, PartialEq, Eq, Structural)]
pub enum Version {
    Http09,
    Http10,
    Http11,
    H2,
}

/// The version that a version text names; a text that names none of the
/// four stands for HTTP/1.0.
pub open spec fn version_of(text: Seq<char>) -> Version {
    if text == "HTTP/2.0"@ {
        Version::H2
    } else if text == "HTTP/0.9"@ {
        Version::Http09
    } else if text == "HTTP/1.1"@ {
        Version::Http11
    } else {
        Version::Http10
    }
}

/// A status code that the `http` crate accepts.
pub open spec fn valid_status(status: u16) -> bool {
    100 <= status <= 999
}

/// A byte of a header name: a letter, a digit or one of
/// ``! # $ % & ' * + - . ^ _ ` | ~``.
pub open spec fn is_name_byte(b: u8) -> bool {
    ||| b == 33
    ||| 35 <= b <= 39
    ||| b == 42
    ||| b == 43
    ||| b == 45
    ||| b == 46
    ||| 48 <= b <= 57
    ||| 65 <= b <= 90
    ||| 94 <= b <= 122
    ||| b == 124
    ||| b == 126
}

/// A header name that the `http` crate accepts: 1 to 65535 name bytes.
pub open spec fn valid_header_name(name: Seq<u8>) -> bool {
    &&& 1 <= name.len() <= 65535
    &&& forall|i: int| 0 <= i < name.len() ==> is_name_byte(#[trigger] name[i])
}

/// A byte of a header value: the tab, or any byte from 32 on but 127.
pub open spec fn is_value_byte(b: u8) -> bool {
    (b >= 32 && b != 127) || b == 9
}

/// A header value that the `http` crate accepts.
pub open spec fn valid_header_value(value: Seq<u8>) -> bool {
    forall|i: int| 0 <= i < value.len() ==> is_value_byte(#[trigger] value[i])
}

/// What stands in the way of handing the field on, if anything: its name
/// is judged before its value.
pub open spec fn field_obstacle(f: Field) -> Option<ConvertError> {
    if !valid_header_name(encode_utf8(f.0)) {
        Some(ConvertError::HeaderName)
    } else if !valid_header_value(f.1) {
        Some(ConvertError::HeaderValue)
    } else {
        None
    }
}

/// The obstacle of the first field at or after `from` that has one.
pub open spec fn fields_obstacle(fields: Seq<Field>, from: int) -> Option<ConvertError>
    decreases fields.len() - from,
{
    if from < 0 || from >= fields.len() {
        None
    } else if field_obstacle(fields[from]) is Some {
        field_obstacle(fields[from])
    } else {
        fields_obstacle(fields, from + 1)
    }
}

/// None of the first `upto` fields has an obstacle.
pub open spec fn fields_in_order(fields: Seq<Field>, upto: int) -> bool {
    forall|j: int| 0 <= j < upto ==> field_obstacle(#[trigger] fields[j]) is None
}

/// So many header fields the header map of the `http` crate takes in any
/// case: a map that holds fewer takes one more.
///
/// The map refuses a field only when its table of 32768 slots would have
/// to grow, which it tries at the earliest when names take a fifth of the
/// slots.
pub const SURE_FIELDS: usize = 6554;

/// What stands in the way of handing the response on, if anything: the
/// status code is judged first, then the fields in their order.
pub open spec fn obstacle(r: ResponseView) -> Option<ConvertError> {
    if !valid_status(r.status) {
        Some(ConvertError::StatusCode)
    } else {
        fields_obstacle(r.headers, 0)
    }
}

/// The byte `b` in lower case: an upper-case letter becomes its lower-case
/// letter, every other byte stays.
pub open spec fn lower(b: u8) -> u8 {
    if 65 <= b <= 90 {
        (b + 32) as u8
    } else {
        b
    }
}

/// The bytes of a name in lower case.
pub open spec fn lowered(name: Seq<u8>) -> Seq<u8> {
    name.map_values(|b: u8| lower(b))
}

/// A field as the `http` crate holds it: the UTF-8 form of its name in
/// lower case, and its value.
pub open spec fn handed_field(f: Field) -> (Seq<u8>, Seq<u8>) {
    (lowered(encode_utf8(f.0)), f.1)
}

/// The fields as the `http` crate holds them, each as often as it occurs.
pub open spec fn handed_fields(fields: Seq<Field>) -> Multiset<(Seq<u8>, Seq<u8>)>
    decreases fields.len(),
{
    if fields.len() == 0 {
        Multiset::empty()
    } else {
        handed_fields(fields.drop_last()).insert(handed_field(fields.last()))
    }
}

/// The number of a status code of the `http` crate: what
/// `http::StatusCode::as_u16` returns.
pub uninterp spec fn code_of(status: http::StatusCode) -> u16;

/// The bytes of a header name of the `http` crate: what
/// `http::header::HeaderName::as_str` returns, as bytes.
pub uninterp spec fn name_bytes(name: http::header::HeaderName) -> Seq<u8>;

/// The bytes of a header value of the `http` crate: what
/// `http::header::HeaderValue::as_bytes` returns.
pub uninterp spec fn value_bytes(value: http::header::HeaderValue) -> Seq<u8>;

/// The number of the status code that a head holds in its field `status`.
pub uninterp spec fn head_status(head: http::response::Parts) -> u16;

/// The version that a head holds in its field `version`; `None` for a
/// version of the `http` crate that is none of the library's four.
pub uninterp spec fn head_version(head: http::response::Parts) -> Option<Version>;

/// The text that a head holds among its extensions, if it holds one.
pub uninterp spec fn head_reason(head: http::response::Parts) -> Option<Seq<char>>;

/// The header fields that a head holds in its field `headers`, as pairs of
/// the bytes of a name and the bytes of a value, each pair as often as the
/// map holds it.
pub uninterp spec fn head_fields(head: http::response::Parts) -> Multiset<(Seq<u8>, Seq<u8>)>;

/// `http::StatusCode::from_u16`: the status code of that number.
///
/// Trusted: the crate accepts exactly the numbers 100 to 999, and the
/// status code that it returns has the number given.
#[verifier::external_body]
fn status_code(status: u16) -> (r: Option<http::StatusCode>)
    ensures
        r is Some <==> valid_status(status),
        r matches Some(code) ==> code_of(code) == status,
{
    http::StatusCode::from_u16(status).ok()
}

/// `http::header::HeaderName::from_bytes`: the header name of those bytes.
///
/// Trusted: the crate accepts exactly the names of 1 to 65535 bytes that
/// are all letters, digits or one of ``! # $ % & ' * + - . ^ _ ` | ~``, and
/// the name that it returns is the name given, in lower case.
#[verifier::external_body]
fn header_name(name: &[u8]) -> (r: Option<http::header::HeaderName>)
    ensures
        r is Some <==> valid_header_name(name@),
        r matches Some(n) ==> name_bytes(n) == lowered(name@),
{
    http::header::HeaderName::from_bytes(name).ok()
}

/// `http::header::HeaderValue::from_bytes`: the header value of those bytes.
///
/// Trusted: the crate accepts exactly the values without a byte below 32
/// other than the tab, and without the byte 127, and the value that it
/// returns has the bytes given.
#[verifier::external_body]
fn header_value(value: &[u8]) -> (r: Option<http::header::HeaderValue>)
    ensures
        r is Some <==> valid_header_value(value@),
        r matches Some(v) ==> value_bytes(v) == value@,
{
    http::header::HeaderValue::from_bytes(value).ok()
}

/// `http::Response::into_parts`, on a new response: the head of a new
/// response.
///
/// Trusted: a new head has the status 200 and the version HTTP/1.1, and
/// holds no extension and no header field.
#[verifier::external_body]
fn new_parts() -> (head: http::response::Parts)
    ensures
        head_status(head) == 200,
        head_version(head) == Some(Version::Http11),
        head_reason(head) is None,
        head_fields(head) == Multiset::<(Seq<u8>, Seq<u8>)>::empty(),
{
    http::Response::new(()).into_parts().0
}

/// The field `status` of `http::response::Parts`: sets the status code.
///
/// Trusted: the head then holds that status code, and all else as before.
#[verifier::external_body]
fn set_status(head: &mut http::response::Parts, status: http::StatusCode)
    ensures
        head_status(*final(head)) == code_of(status),
        head_version(*final(head)) == head_version(*old(head)),
        head_reason(*final(head)) == head_reason(*old(head)),
        head_fields(*final(head)) == head_fields(*old(head)),
{
    head.status = status;
}

/// The field `version` of `http::response::Parts`: sets the version, each
/// version of the library as the crate's version of that name.
///
/// Trusted: the head then holds that version, and all else as before.
#[verifier::external_body]
fn set_version(head: &mut http::response::Parts, version: Version)
    ensures
        head_version(*final(head)) == Some(version),
        head_status(*final(head)) == head_status(*old(head)),
        head_reason(*final(head)) == head_reason(*old(head)),
        head_fields(*final(head)) == head_fields(*old(head)),
{
    head.version = match version {
        Version::Http09 => http::Version::HTTP_09,
        Version::Http10 => http::Version::HTTP_10,
        Version::Http11 => http::Version::HTTP_11,
        Version::H2 => http::Version::HTTP_2,
    };
}

/// `http::Extensions::insert`: stores the reason phrase among the
/// extensions of the head.
///
/// Trusted: the head then holds that text among its extensions, in place
/// of an earlier one, and all else as before.
#[verifier::external_body]
fn set_reason(head: &mut http::response::Parts, reason: String)
    ensures
        head_reason(*final(head)) == Some(reason@),
        head_status(*final(head)) == head_status(*old(head)),
        head_version(*final(head)) == head_version(*old(head)),
        head_fields(*final(head)) == head_fields(*old(head)),
{
    head.extensions.insert(reason);
}

/// `http::HeaderMap::try_append`: adds the field to the headers of the
/// head and says whether the map took it.
///
/// Trusted: where the map took the field, the head holds it once more than
/// before, beside all fields that it held, those of the same name
/// included. A map that holds fewer than `SURE_FIELDS` fields takes the
/// field; of a fuller one nothing is claimed. Status code, version and
/// extensions stay as they were either way.
#[verifier::external_body]
fn append_header(
    head: &mut http::response::Parts,
    name: http::header::HeaderName,
    value: http::header::HeaderValue,
) -> (taken: bool)
    ensures
        taken ==> head_fields(*final(head)) == head_fields(*old(head)).insert(
            (name_bytes(name), value_bytes(value)),
        ),
        head_fields(*old(head)).len() < SURE_FIELDS ==> taken,
        head_status(*final(head)) == head_status(*old(head)),
        head_version(*final(head)) == head_version(*old(head)),
        head_reason(*final(head)) == head_reason(*old(head)),
{
    head.headers.try_append(name, value).is_ok()
}

/// Whether the text `s` is the text `t`.
fn text_is(s: &String, t: &str) -> (b: bool)
    ensures
        b == (s@ == t@),
{
    let other = String::from_str(t);
    *s == other
}

impl Response {
    /// The protocol version that the version text names, HTTP/1.0 where it
    /// names none.
    pub fn version(&self) -> (v: Version)
        ensures
            v == version_of(self.http_version@),
    {
        if text_is(&self.http_version, "HTTP/2.0") {
            Version::H2
        } else if text_is(&self.http_version, "HTTP/0.9") {
            Version::Http09
        } else if text_is(&self.http_version, "HTTP/1.1") {
            Version::Http11
        } else {
            Version::Http10
        }
    }

    /// Hands the response on as the head of a response of the `http` crate
    /// and its body. The head holds the status code, the version that the
    /// version text names, the reason phrase among its extensions, and each
    /// header field once, its name in lower case; the body is the body,
    /// untouched.
    ///
    /// It fails with the first obstacle, where there is one. A response
    /// without an obstacle and with at most `SURE_FIELDS` header fields is
    /// always handed on. Beyond that number the header map of the crate
    /// may refuse a field: the failure is then `MaxSizeReached`, and no
    /// field up to the refused one has an obstacle.
    pub fn try_into(self) -> (r: Result<(http::response::Parts, Vec<u8>), ConvertError>)
        ensures
            r matches Ok(parts) ==> obstacle(self@) is None && parts.1@ == self.body@,
            r matches Ok(parts) ==> head_status(parts.0) == self.status && head_version(parts.0)
                == Some(version_of(self.http_version@)) && head_reason(parts.0) == Some(
                self.description@,
            ) && head_fields(parts.0) == handed_fields(self@.headers),
            obstacle(self@) is Some ==> r is Err,
            obstacle(self@) is None && self@.headers.len() <= SURE_FIELDS ==> r is Ok,
            r matches Err(e) ==> obstacle(self@) == Some(e) || (e == ConvertError::MaxSizeReached
                && valid_status(self.status) && exists|k: int|
                SURE_FIELDS < k <= self@.headers.len() && #[trigger] fields_in_order(
                    self@.headers,
                    k,
                )),
    {
        let version = self.version();
        let status = match status_code(self.status) {
            None => { return Err(ConvertError::StatusCode); },
            Some(s) => s,
        };
        let mut head = new_parts();
        set_status(&mut head, status);
        set_version(&mut head, version);
        let n = self.headers.len();
        let mut i: usize = 0;
        assert(self.headers@.take(0) =~= Seq::<Field>::empty());
        while i < n
            invariant
                n == self.headers@.len(),
                i <= n,
                valid_status(self.status),
                fields_obstacle(self.headers@, 0) == fields_obstacle(self.headers@, i as int),
                fields_in_order(self.headers@, i as int),
                head_status(head) == self.status,
                head_version(head) == Some(version_of(self.http_version@)),
                head_fields(head) == handed_fields(self.headers@.take(i as int)),
                head_fields(head).len() == i,
            decreases n - i,
        {
            let name = match header_name(self.headers.name(i).as_bytes()) {
                None => { return Err(ConvertError::HeaderName); },
                Some(x) => x,
            };
            let value = match header_value(self.headers.value(i)) {
                None => { return Err(ConvertError::HeaderValue); },
                Some(x) => x,
            };
            assert(field_obstacle(self.headers@[i as int]) is None);
            if !append_header(&mut head, name, value) {
                assert(fields_in_order(self.headers@, i + 1));
                return Err(ConvertError::MaxSizeReached);
            }
            proof {
                let next = self.headers@.take(i + 1);
                assert(next.drop_last() =~= self.headers@.take(i as int));
                assert(next.last() == self.headers@[i as int]);
            }
            i += 1;
        }
        assert(self.headers@.take(n as int) =~= self.headers@);
        set_reason(&mut head, self.description);
        Ok((head, self.body))
    }
}

} // verus!
