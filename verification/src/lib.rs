//! Request-handling core of an HTTP server toolkit: routing, middleware
//! sequencing, argument extraction and response construction, with the
//! transport kept outside.
//!
//! A request comes in as plain values. The router finds the route for its
//! path and method, which gives an endpoint, what the path captured and the
//! middleware to run; the chain says in which order they run; extractors
//! make the endpoint's arguments from the request; and what the endpoint
//! returns is turned into a response.

pub mod body;
pub mod codec;
pub mod extract;
pub mod forms;
pub mod head;
pub mod middleware;
pub mod params;
pub mod pattern;
pub mod request;
pub mod response;
pub mod router;
pub mod server;
pub mod table;
pub mod text;

pub use crate::extract::Extract;
pub use crate::params::RouteMatch;
pub use crate::request::Request;
pub use crate::response::{IntoResponse, Response};
pub use crate::router::{Resource, Router};
pub use crate::server::{AppData, Server, ServerBuilder};
