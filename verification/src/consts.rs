//! The names of the request methods.

use vstd::prelude::*;

verus! {

/// The method `GET`.
pub const GET: &'static str = "GET";

/// The method `HEAD`.
pub const HEAD: &'static str = "HEAD";

/// The method `POST`.
pub const POST: &'static str = "POST";

/// The method `PUT`.
pub const PUT: &'static str = "PUT";

/// The method `DELETE`.
pub const DELETE: &'static str = "DELETE";

/// The method `CONNECT`.
pub const CONNECT: &'static str = "CONNECT";

/// The method `TRACE`.
pub const TRACE: &'static str = "TRACE";

/// The method `PATCH`.
pub const PATCH: &'static str = "PATCH";

} // verus!
