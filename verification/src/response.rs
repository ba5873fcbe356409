//! An outbound response, and what turns into one.

use vstd::prelude::*;
use crate::body::{empty_body, Body, BodyView};
use vstd::utf8::encode_utf8;
use crate::request::Headers;

verus! {

/// The status of a response, by its number.
#[derive(Clone, Copy, PartialEq, Eq, Structural, Debug)]
pub struct StatusCode(pub u16);

/// 200: the request was served.
pub const OK: u16 = 200;

/// 400: the request could not be understood.
pub const BAD_REQUEST: u16 = 400;

/// 404: nothing is registered for the path and method.
pub const NOT_FOUND: u16 = 404;

/// 500: the response could not be built.
pub const INTERNAL_SERVER_ERROR: u16 = 500;

impl StatusCode {
    /// The status 200.
    pub fn ok() -> (status: StatusCode)
        ensures
            status.0 == OK,
    {
        StatusCode(OK)
    }

    /// The status 400.
    pub fn bad_request() -> (status: StatusCode)
        ensures
            status.0 == BAD_REQUEST,
    {
        StatusCode(BAD_REQUEST)
    }

    /// The status 404.
    pub fn not_found() -> (status: StatusCode)
        ensures
            status.0 == NOT_FOUND,
    {
        StatusCode(NOT_FOUND)
    }

    /// The status 500.
    pub fn internal_server_error() -> (status: StatusCode)
        ensures
            status.0 == INTERNAL_SERVER_ERROR,
    {
        StatusCode(INTERNAL_SERVER_ERROR)
    }

    /// The number of the status.
    pub fn as_u16(&self) -> (code: u16)
        ensures
            code == self.0,
    {
        self.0
    }
}

/// A response as mathematics.
pub struct ResponseView {
    pub status: u16,
    pub headers: Seq<(Seq<char>, Seq<u8>)>,
    pub body: BodyView,
}

/// An outbound response.
pub struct Response {
    pub status: StatusCode,
    pub headers: Headers,
    pub body: Body,
}

impl View for Response {
    type V = ResponseView;

    open spec fn view(&self) -> ResponseView {
        ResponseView { status: self.status.0, headers: self.headers@, body: self.body@ }
    }
}

/// The response that carries a status and nothing else.
pub open spec fn bare(status: u16) -> ResponseView {
    ResponseView { status, headers: Seq::empty(), body: empty_body() }
}

impl Response {
    /// A response made of the given parts.
    pub fn new(status: StatusCode, headers: Headers, body: Body) -> (res: Response)
        ensures
            res@ == (ResponseView { status: status.0, headers: headers@, body: body@ }),
    {
        Response { status, headers, body }
    }

    /// A response with `status`, no header and an empty body.
    pub fn empty(status: StatusCode) -> (res: Response)
        ensures
            res@ == bare(status.0),
    {
        Response { status, headers: Headers::new(), body: Body::empty() }
    }
}

/// The response that carries `bytes` with status 200 and says what kind of
/// content they are.
pub open spec fn content(kind: Seq<char>, bytes: Seq<u8>) -> ResponseView {
    ResponseView {
        status: OK,
        headers: seq![("Content-Type"@, encode_utf8(kind))],
        body: BodyView::Fixed(bytes),
    }
}

impl Response {
    /// The response to a request that could not be understood: status 400
    /// and nothing else.
    pub fn bad_request() -> (res: Response)
        ensures
            res@ == bare(BAD_REQUEST),
    {
        Response::empty(StatusCode::bad_request())
    }

    /// The response to a request that no route answers: status 404 and
    /// nothing else.
    pub fn not_found() -> (res: Response)
        ensures
            res@ == bare(NOT_FOUND),
    {
        Response::empty(StatusCode::not_found())
    }

    /// A response with status 200 that carries `bytes` as content of the
    /// given kind.
    pub fn with_content(kind: &str, bytes: Vec<u8>) -> (res: Response)
        ensures
            res@ == content(kind@, bytes@),
    {
        let mut headers = Headers::new();
        headers.append("Content-Type".to_owned(), kind.as_bytes_vec());
        let res = Response { status: StatusCode::ok(), headers, body: Body::from(bytes) };
        res
    }
}

/// What can be sent as a response.
pub trait IntoResponse: Sized {
    /// The response that the value turns into.
    spec fn response(self) -> ResponseView;

    /// Turns the value into a response.
    fn into_response(self) -> (res: Response)
        ensures
            res@ == self.response(),
    ;
}

impl IntoResponse for Response {
    open spec fn response(self) -> ResponseView {
        self@
    }

    fn into_response(self) -> (res: Response) {
        self
    }
}

impl IntoResponse for StatusCode {
    open spec fn response(self) -> ResponseView {
        bare(self.0)
    }

    fn into_response(self) -> (res: Response) {
        Response::empty(self)
    }
}

impl IntoResponse for () {
    open spec fn response(self) -> ResponseView {
        bare(OK)
    }

    fn into_response(self) -> (res: Response) {
        Response::empty(StatusCode::ok())
    }
}

impl IntoResponse for String {
    open spec fn response(self) -> ResponseView {
        content("text/plain; charset=utf-8"@, encode_utf8(self@))
    }

    fn into_response(self) -> (res: Response) {
        Response::with_content("text/plain; charset=utf-8", self.as_str().as_bytes_vec())
    }
}

impl IntoResponse for &str {
    open spec fn response(self) -> ResponseView {
        content("text/plain; charset=utf-8"@, encode_utf8(self@))
    }

    fn into_response(self) -> (res: Response) {
        Response::with_content("text/plain; charset=utf-8", self.as_bytes_vec())
    }
}

impl IntoResponse for Vec<u8> {
    open spec fn response(self) -> ResponseView {
        content("application/octet-stream"@, self@)
    }

    fn into_response(self) -> (res: Response) {
        Response::with_content("application/octet-stream", self)
    }
}

impl<T: IntoResponse> IntoResponse for Result<T, StatusCode> {
    open spec fn response(self) -> ResponseView {
        match self {
            Ok(value) => value.response(),
            Err(status) => bare(status.0),
        }
    }

    fn into_response(self) -> (res: Response) {
        match self {
            Ok(value) => value.into_response(),
            Err(status) => Response::empty(status),
        }
    }
}

impl<T: IntoResponse> IntoResponse for Result<T, Response> {
    open spec fn response(self) -> ResponseView {
        match self {
            Ok(value) => value.response(),
            Err(res) => res@,
        }
    }

    fn into_response(self) -> (res: Response) {
        match self {
            Ok(value) => value.into_response(),
            Err(res) => res,
        }
    }
}

} // verus!
