//! The failures that parsing can end in.

use crate::decimal::IntErrorKind;
use vstd::prelude::*;
use vstd::string::*;

verus! {

/// Why a URL or a response could not be parsed.
#[derive(Clone, Copy, Debug, PartialEq, Eq, Structural)]
pub enum Error {
    /// A header line without a `:`.
    InvalidHeader,
    /// A status line without a status code or without a reason phrase.
    InvalidStatusLine,
    /// The stream could not be read as text: a line of the head is not
    /// valid UTF-8.
    IoError,
    /// A status code or a port that is not a 16-bit decimal number.
    ParseIntError(IntErrorKind),
}

impl Error {
    /// The failure in words.
    pub open spec fn text(self) -> Seq<char> {
        match self {
            Error::InvalidHeader => "Response parsing error: Invalid header"@,
            Error::InvalidStatusLine => "Response parsing error: Invalid status line"@,
            Error::IoError => "stream did not contain valid UTF-8"@,
            Error::ParseIntError(kind) => kind.text(),
        }
    }

    /// The failure in words.
    pub fn description(&self) -> (r: &'static str)
        ensures
            r@ == self.text(),
    {
        match self {
            Error::InvalidHeader => "Response parsing error: Invalid header",
            Error::InvalidStatusLine => "Response parsing error: Invalid status line",
            Error::IoError => "stream did not contain valid UTF-8",
            Error::ParseIntError(kind) => kind.description(),
        }
    }

    /// The failure in words, as a new text.
    pub fn to_string(&self) -> (r: String)
        ensures
            r@ == self.text(),
    {
        String::from_str(self.description())
    }
}

/// Why a response cannot be handed on as a response of the `http` crate.
#[derive(Clone, Copy, Debug, PartialEq, Eq, Structural)]
pub enum ConvertError {
    /// The status code is not one of 100 to 999.
    StatusCode,
    /// A header name that is no token of 1 to 65535 bytes.
    HeaderName,
    /// A header value with a control character other than the tab.
    HeaderValue,
    /// The header map took no further field.
    MaxSizeReached,
}

} // verus!
