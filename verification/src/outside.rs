//! The types of the `http` crate that the library hands through.

use vstd::prelude::*;

verus! {

/// The `http` crate's response head, opaque here.
#[verifier::external_type_specification]
#[verifier::external_body]
pub struct ExParts(http::response::Parts);

/// The `http` crate's status code, opaque here.
#[verifier::external_type_specification]
#[verifier::external_body]
pub struct ExStatusCode(http::StatusCode);

/// The `http` crate's header name, opaque here.
#[verifier::external_type_specification]
#[verifier::external_body]
pub struct ExHeaderName(http::header::HeaderName);

/// The `http` crate's header value, opaque here.
#[verifier::external_type_specification]
#[verifier::external_body]
pub struct ExHeaderValue(http::header::HeaderValue);

} // verus!
