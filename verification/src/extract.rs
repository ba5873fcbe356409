//! How the arguments of an endpoint are made from a request.

use vstd::prelude::*;
use crate::params::RouteMatch;
use crate::request::Request;
use crate::response::Response;

verus! {

/// A value that can be made from the application's data, the request and
/// what the route captured, or else answers the request itself.
///
/// An extractor that reads the body takes it out of the request, so an
/// endpoint should have at most one such argument: a second one finds an
/// empty body.
pub trait Extract<S>: Sized {
    /// Makes the value, or the response that says why it could not be made.
    fn extract(data: &mut S, req: &mut Request, params: &RouteMatch) -> (out: Result<
        Self,
        Response,
    >);
}

} // verus!
