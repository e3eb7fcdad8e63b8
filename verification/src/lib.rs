//! A minimal HTTP/1.1 client core: a URL parser, a request encoder and a
//! response decoder, each with a contract that Verus proves.
//!
//! The library computes on values and does no I/O. A request is encoded
//! into the bytes that go on the wire; a response is decoded from the bytes
//! that came, at once or line by line. Which transport carries the bytes is
//! the caller's business.

pub mod consts;
pub mod decimal;
pub mod error;
pub mod headers;
pub mod interop;
pub mod outside;
pub mod request;
pub mod response;
pub mod text;
pub mod url;

pub use crate::request::{DIYRequest, Request};
