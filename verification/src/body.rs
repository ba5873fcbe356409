//! The payload of a request or a response.
//!
//! A body is either a buffer that is already complete or a stream of chunks
//! as the transport delivered them, each of which may have failed. Reading a
//! body collects it into one byte vector.

use vstd::prelude::*;
use vstd::utf8::{decode_utf8, encode_utf8, valid_utf8};
use multipart::server::Multipart;
use std::collections::VecDeque;
use std::io::Cursor;
use crate::codec::{
    form_decoded, form_encoded, form_from_bytes, form_to_string, json_decoded, json_encoded,
    json_from_slice, json_to_vec, lossy_text, multipart_over, multipart_with_body, utf8_lossy,
};
use crate::extract::Extract;
use crate::forms::{boundary, boundary_of};
use crate::params::RouteMatch;
use crate::request::{Request, RequestView};
use crate::response::{
    bare, content, IntoResponse, Response, ResponseView, StatusCode, BAD_REQUEST,
    INTERNAL_SERVER_ERROR,
};

verus! {

/// One piece of a streamed body.
pub struct BodyChunk(Vec<u8>);

impl View for BodyChunk {
    type V = Seq<u8>;

    closed spec fn view(&self) -> Seq<u8> {
        self.0@
    }
}

impl BodyChunk {
    /// The bytes of the chunk.
    pub fn as_bytes(&self) -> (bytes: &[u8])
        ensures
            bytes@ == self@,
    {
        self.0.as_slice()
    }

    /// The bytes of the chunk, owned.
    pub fn into_bytes(self) -> (bytes: Vec<u8>)
        ensures
            bytes@ == self@,
    {
        self.0
    }
}

/// The vector that holds the UTF-8 bytes of `text`.
pub closed spec fn text_bytes(text: String) -> Vec<u8> {
    choose|bytes: Vec<u8>| bytes@ == encode_utf8(text@)
}

/// Why a chunk could not be read, as the transport put it.
pub struct BodyError {
    pub message: String,
}

/// What a body holds, as mathematics: the bytes of a buffer, or what is left
/// of a stream, chunk by chunk in delivery order.
pub enum BodyView {
    Fixed(Seq<u8>),
    Streaming(Seq<Result<Seq<u8>, BodyError>>),
}

/// A delivered item with its chunk seen as a sequence of bytes.
pub open spec fn item_view(item: Result<BodyChunk, BodyError>) -> Result<Seq<u8>, BodyError> {
    match item {
        Ok(chunk) => Ok(chunk@),
        Err(e) => Err(e),
    }
}

/// Delivered items with their chunks seen as sequences of bytes.
pub open spec fn items_view(items: Seq<Result<BodyChunk, BodyError>>) -> Seq<
    Result<Seq<u8>, BodyError>,
> {
    items.map_values(|item: Result<BodyChunk, BodyError>| item_view(item))
}

/// The chunks of `items` joined in order, or the first failure among them.
pub open spec fn collect(items: Seq<Result<Seq<u8>, BodyError>>) -> Result<Seq<u8>, BodyError>
    decreases items.len(),
{
    if items.len() == 0 {
        Ok(Seq::empty())
    } else {
        match items[0] {
            Err(e) => Err(e),
            Ok(chunk) => match collect(items.drop_first()) {
                Ok(rest) => Ok(chunk + rest),
                Err(e) => Err(e),
            },
        }
    }
}

/// What is left of a stream once it has been collected: nothing, or what
/// followed the first failure.
pub open spec fn left_over(items: Seq<Result<Seq<u8>, BodyError>>) -> Seq<
    Result<Seq<u8>, BodyError>,
>
    decreases items.len(),
{
    if items.len() == 0 {
        items
    } else {
        match items[0] {
            Err(_) => items.drop_first(),
            Ok(_) => left_over(items.drop_first()),
        }
    }
}

/// What reading a body returns.
pub open spec fn read_outcome(body: BodyView) -> Result<Seq<u8>, BodyError> {
    match body {
        BodyView::Fixed(bytes) => Ok(bytes),
        BodyView::Streaming(items) => collect(items),
    }
}

/// What a body holds after it has been read: a buffer stays as it is, a
/// stream is used up as far as it was read.
pub open spec fn after_read(body: BodyView) -> BodyView {
    match body {
        BodyView::Fixed(bytes) => BodyView::Fixed(bytes),
        BodyView::Streaming(items) => BodyView::Streaming(left_over(items)),
    }
}

/// `bytes` put in front of what the rest of a stream collects to.
pub open spec fn preceded(bytes: Seq<u8>, rest: Result<Seq<u8>, BodyError>) -> Result<
    Seq<u8>,
    BodyError,
> {
    match rest {
        Ok(more) => Ok(bytes + more),
        Err(e) => Err(e),
    }
}

/// The bytes of `source`, copied.
pub fn copy_bytes(source: &Vec<u8>) -> (copy: Vec<u8>)
    ensures
        copy@ == source@,
{
    let mut copy: Vec<u8> = Vec::new();
    let mut i: usize = 0;
    while i < source.len()
        invariant
            i <= source.len(),
            copy@ == source@.take(i as int),
        decreases source.len() - i,
    {
        copy.push(source[i]);
        i = i + 1;
    }
    copy
}

enum BodyInner {
    Streaming(VecDeque<Result<BodyChunk, BodyError>>),
    Fixed(Vec<u8>),
}

/// The contents of a request or a response.
pub struct Body {
    inner: BodyInner,
}

impl View for Body {
    type V = BodyView;

    closed spec fn view(&self) -> BodyView {
        match self.inner {
            BodyInner::Fixed(bytes) => BodyView::Fixed(bytes@),
            BodyInner::Streaming(items) => BodyView::Streaming(items_view(items@)),
        }
    }
}

impl vstd::std_specs::convert::FromSpecImpl<Vec<u8>> for Body {
    open spec fn obeys_from_spec() -> bool {
        true
    }

    closed spec fn from_spec(bytes: Vec<u8>) -> Body {
        Body { inner: BodyInner::Fixed(bytes) }
    }
}

impl From<Vec<u8>> for Body {
    /// A buffered body of `bytes`.
    fn from(bytes: Vec<u8>) -> (body: Body)
        ensures
            body@ == BodyView::Fixed(bytes@),
    {
        Body { inner: BodyInner::Fixed(bytes) }
    }
}

impl vstd::std_specs::convert::FromSpecImpl<Vec<u8>> for BodyChunk {
    open spec fn obeys_from_spec() -> bool {
        true
    }

    closed spec fn from_spec(bytes: Vec<u8>) -> BodyChunk {
        BodyChunk(bytes)
    }
}

impl From<Vec<u8>> for BodyChunk {
    /// A chunk that holds `bytes`.
    fn from(bytes: Vec<u8>) -> (chunk: BodyChunk)
        ensures
            chunk@ == bytes@,
    {
        BodyChunk(bytes)
    }
}

impl vstd::std_specs::convert::FromSpecImpl<String> for BodyChunk {
    /// The chunk is fixed only as far as its view goes.
    open spec fn obeys_from_spec() -> bool {
        false
    }

    closed spec fn from_spec(text: String) -> BodyChunk {
        BodyChunk(text_bytes(text))
    }
}

impl From<String> for BodyChunk {
    /// A chunk that holds the UTF-8 bytes of `text`.
    fn from(text: String) -> (chunk: BodyChunk)
        ensures
            chunk@ == encode_utf8(text@),
    {
        BodyChunk(text.as_str().as_bytes_vec())
    }
}

/// The view of the body that stands in for one that was taken away.
pub open spec fn empty_body() -> BodyView {
    BodyView::Fixed(Seq::empty())
}

impl Body {
    /// A buffered body of no bytes.
    pub fn empty() -> (body: Body)
        ensures
            body@ == empty_body(),
    {
        Body { inner: BodyInner::Fixed(Vec::new()) }
    }

    /// A body that streams `items`, front first.
    pub fn streaming(items: Vec<Result<BodyChunk, BodyError>>) -> (body: Body)
        ensures
            body@ == BodyView::Streaming(items_view(items@)),
    {
        let ghost all = items@;
        let mut queue: VecDeque<Result<BodyChunk, BodyError>> = VecDeque::new();
        for item in it: items
            invariant
                it.seq() == all,
                queue@ == all.take(it.index() as int),
        {
            queue.push_back(item);
        }
        assert(queue@ =~= all);
        Body { inner: BodyInner::Streaming(queue) }
    }

    /// Whether the body is a stream.
    pub fn is_streaming(&self) -> (streaming: bool)
        ensures
            streaming == (self@ is Streaming),
    {
        match &self.inner {
            BodyInner::Streaming(_) => true,
            BodyInner::Fixed(_) => false,
        }
    }

    /// Collects the whole body into one vector.
    ///
    /// A buffer is copied and stays. A stream is walked front to back: its
    /// chunks are joined in the order in which they were delivered, and the
    /// first failed item ends the walk with that failure. What was walked is
    /// gone from the body afterwards.
    pub fn read_to_vec(&mut self) -> (read: Result<Vec<u8>, BodyError>)
        ensures
            match read {
                Ok(bytes) => read_outcome(old(self)@) == Ok::<Seq<u8>, BodyError>(bytes@),
                Err(e) => read_outcome(old(self)@) == Err::<Seq<u8>, BodyError>(e),
            },
            final(self)@ == after_read(old(self)@),
    {
        match &mut self.inner {
            BodyInner::Fixed(bytes) => Ok(copy_bytes(bytes)),
            BodyInner::Streaming(items) => drain(items),
        }
    }

    /// What the body is made of, for whoever sends it on: the bytes of a
    /// buffer, or the items that a stream still holds, front first.
    pub fn into_parts(self) -> (parts: Result<Vec<u8>, Vec<Result<BodyChunk, BodyError>>>)
        ensures
            match parts {
                Ok(bytes) => self@ == BodyView::Fixed(bytes@),
                Err(items) => self@ == BodyView::Streaming(items_view(items@)),
            },
    {
        match self.inner {
            BodyInner::Fixed(bytes) => Ok(bytes),
            BodyInner::Streaming(queue) => {
                let mut queue = queue;
                let ghost all = queue@;
                let mut items: Vec<Result<BodyChunk, BodyError>> = Vec::new();
                while queue.len() > 0
                    invariant
                        all == items@ + queue@,
                    decreases queue@.len(),
                {
                    let item = queue.pop_front().unwrap();
                    items.push(item);
                }
                Err(items)
            },
        }
    }
}

/// Walks a stream front to back and joins its chunks, up to the first
/// failure.
fn drain(items: &mut VecDeque<Result<BodyChunk, BodyError>>) -> (read: Result<Vec<u8>, BodyError>)
    ensures
        match read {
            Ok(bytes) => collect(items_view(old(items)@)) == Ok::<Seq<u8>, BodyError>(bytes@),
            Err(e) => collect(items_view(old(items)@)) == Err::<Seq<u8>, BodyError>(e),
        },
        items_view(final(items)@) == left_over(items_view(old(items)@)),
{
    let mut bytes: Vec<u8> = Vec::new();
    let mut failure: Option<BodyError> = None;
    while failure.is_none() && items.len() > 0
        invariant
            failure is None ==> preceded(bytes@, collect(items_view(items@))) == collect(
                items_view(old(items)@),
            ),
            failure is None ==> left_over(items_view(items@)) == left_over(
                items_view(old(items)@),
            ),
            failure matches Some(e) ==> collect(items_view(old(items)@)) == Err::<
                Seq<u8>,
                BodyError,
            >(e) && items_view(items@) == left_over(items_view(old(items)@)),
        decreases items@.len() + (if failure is None { 1nat } else { 0nat }),
    {
        let ghost before = items_view(items@);
        let item = items.pop_front().unwrap();
        assert(items_view(items@) =~= before.drop_first());
        match item {
            Err(e) => {
                failure = Some(e);
            },
            Ok(chunk) => {
                let ghost head = bytes@;
                let mut piece = chunk.into_bytes();
                bytes.append(&mut piece);
                assert(forall|rest: Seq<u8>|
                    (head + chunk@) + rest =~= head + (#[trigger] (chunk@ + rest)));
            },
        }
    }
    match failure {
        Some(e) => Err(e),
        None => {
            Ok(bytes)
        },
    }
}

/// The bytes that a body gives to whoever reads it, or nothing where the
/// reading fails.
pub open spec fn body_bytes(body: BodyView) -> Option<Seq<u8>> {
    match read_outcome(body) {
        Ok(bytes) => Some(bytes),
        Err(_) => None,
    }
}

/// A request once its body has been taken: an empty body in its place, all
/// else as it was.
pub open spec fn drained(req: RequestView) -> RequestView {
    RequestView { body: empty_body(), ..req }
}

/// The response of an extractor that could not make its value: status 400
/// and nothing else.
fn mk_err<T>(_cause: T) -> (res: Response)
    ensures
        res@ == bare(BAD_REQUEST),
{
    StatusCode::bad_request().into_response()
}

/// Takes the body out of the request and reads it whole.
pub fn take_bytes(req: &mut Request) -> (out: Result<Vec<u8>, Response>)
    ensures
        final(req)@ == drained(old(req)@),
        match out {
            Ok(bytes) => body_bytes(old(req)@.body) == Some(bytes@),
            Err(res) => body_bytes(old(req)@.body) is None && res@ == bare(BAD_REQUEST),
        },
{
    let mut body = req.take_body();
    match body.read_to_vec() {
        Ok(bytes) => Ok(bytes),
        Err(e) => Err(mk_err(e)),
    }
}

/// The body as it is, byte for byte.
pub struct Bytes(pub Vec<u8>);

impl<S> Extract<S> for Bytes {
    fn extract(data: &mut S, req: &mut Request, params: &RouteMatch) -> (out: Result<
        Self,
        Response,
    >)
        ensures
            *final(data) == *old(data),
            final(req)@ == drained(old(req)@),
            match out {
                Ok(bytes) => body_bytes(old(req)@.body) == Some(bytes.0@),
                Err(res) => body_bytes(old(req)@.body) is None && res@ == bare(BAD_REQUEST),
            },
    {
        match take_bytes(req) {
            Ok(bytes) => Ok(Bytes(bytes)),
            Err(res) => Err(res),
        }
    }
}

/// The text that the bytes of a body encode, where they are UTF-8.
pub open spec fn body_text(body: BodyView) -> Option<Seq<char>> {
    match body_bytes(body) {
        Some(bytes) => if valid_utf8(bytes) {
            Some(decode_utf8(bytes))
        } else {
            None
        },
        None => None,
    }
}

/// The body as text; a body that is not UTF-8 is refused.
pub struct Str(pub String);

impl<S> Extract<S> for Str {
    fn extract(data: &mut S, req: &mut Request, params: &RouteMatch) -> (out: Result<
        Self,
        Response,
    >)
        ensures
            *final(data) == *old(data),
            final(req)@ == drained(old(req)@),
            match out {
                Ok(text) => body_text(old(req)@.body) == Some(text.0@),
                Err(res) => body_text(old(req)@.body) is None && res@ == bare(BAD_REQUEST),
            },
    {
        match take_bytes(req) {
            Err(res) => Err(res),
            Ok(bytes) => match String::from_utf8(bytes) {
                Ok(text) => Ok(Str(text)),
                Err(e) => Err(mk_err(e)),
            },
        }
    }
}

/// The body as text, with whatever is not UTF-8 in it replaced.
pub struct StrLossy(pub String);

impl<S> Extract<S> for StrLossy {
    fn extract(data: &mut S, req: &mut Request, params: &RouteMatch) -> (out: Result<
        Self,
        Response,
    >)
        ensures
            *final(data) == *old(data),
            final(req)@ == drained(old(req)@),
            match out {
                Ok(text) => body_bytes(old(req)@.body) matches Some(bytes) && text.0@
                    == lossy_text(bytes) && (valid_utf8(bytes) ==> text.0@ == decode_utf8(bytes)),
                Err(res) => body_bytes(old(req)@.body) is None && res@ == bare(BAD_REQUEST),
            },
    {
        match take_bytes(req) {
            Err(res) => Err(res),
            Ok(bytes) => Ok(StrLossy(utf8_lossy(bytes.as_slice()))),
        }
    }
}

/// The value that the bytes of a body are the JSON text of.
pub open spec fn body_json(body: BodyView) -> Option<serde_json::Value> {
    match body_bytes(body) {
        Some(bytes) => json_decoded(bytes),
        None => None,
    }
}

/// The response that carries the JSON text `bytes`.
pub open spec fn json_content(bytes: Seq<u8>) -> ResponseView {
    content("application/json"@, bytes)
}

/// A value that travels as JSON: read from the body of a request, or sent
/// as the body of a response.
pub struct Json<T>(pub T);

impl<T> Json<T> {
    /// What extraction makes of the outcome of decoding: the value where there
    /// is one, and else the response with status 400.
    pub fn from_decoded<E>(decoded: Result<T, E>) -> (out: Result<Json<T>, Response>)
        ensures
            match out {
                Ok(json) => decoded matches Ok(value) && json.0 == value,
                Err(res) => decoded is Err && res@ == bare(BAD_REQUEST),
            },
    {
        match decoded {
            Ok(value) => Ok(Json(value)),
            Err(e) => Err(mk_err(e)),
        }
    }

    /// The response for the outcome of encoding: status 200 with the text as
    /// JSON content where there is one, and else status 500 and nothing
    /// else.
    pub fn respond<E>(encoded: Result<Vec<u8>, E>) -> (res: Response)
        ensures
            res@ == match encoded {
                Ok(bytes) => json_content(bytes@),
                Err(_) => bare(INTERNAL_SERVER_ERROR),
            },
    {
        match encoded {
            Ok(bytes) => Response::with_content("application/json", bytes),
            Err(_) => Response::empty(StatusCode::internal_server_error()),
        }
    }
}

impl<S> Extract<S> for Json<serde_json::Value> {
    fn extract(data: &mut S, req: &mut Request, params: &RouteMatch) -> (out: Result<
        Self,
        Response,
    >)
        ensures
            *final(data) == *old(data),
            final(req)@ == drained(old(req)@),
            match out {
                Ok(json) => body_json(old(req)@.body) == Some(json.0),
                Err(res) => body_json(old(req)@.body) is None && res@ == bare(BAD_REQUEST),
            },
    {
        match take_bytes(req) {
            Err(res) => Err(res),
            Ok(bytes) => Json::from_decoded(json_from_slice(bytes.as_slice())),
        }
    }
}

impl IntoResponse for Json<serde_json::Value> {
    open spec fn response(self) -> ResponseView {
        match json_encoded(self.0) {
            Some(bytes) => json_content(bytes),
            None => bare(INTERNAL_SERVER_ERROR),
        }
    }

    fn into_response(self) -> (res: Response) {
        Json::<serde_json::Value>::respond(json_to_vec(&self.0))
    }
}

/// The value that the bytes of a body are the query string of.
pub open spec fn body_form(body: BodyView) -> Option<serde_json::Value> {
    match body_bytes(body) {
        Some(bytes) => form_decoded(bytes),
        None => None,
    }
}

/// The response that carries the query string `text`.
pub open spec fn form_content(text: Seq<char>) -> ResponseView {
    content("application/x-www-form-urlencoded"@, encode_utf8(text))
}

/// A value that travels as a form, that is, as a query string: read from
/// the body of a request, or sent as the body of a response.
pub struct Form<T>(pub T);

impl<T> Form<T> {
    /// What extraction makes of the outcome of decoding: the value where there
    /// is one, and else the response with status 400.
    pub fn from_decoded<E>(decoded: Result<T, E>) -> (out: Result<Form<T>, Response>)
        ensures
            match out {
                Ok(form) => decoded matches Ok(value) && form.0 == value,
                Err(res) => decoded is Err && res@ == bare(BAD_REQUEST),
            },
    {
        match decoded {
            Ok(value) => Ok(Form(value)),
            Err(e) => Err(mk_err(e)),
        }
    }

    /// The response for the outcome of encoding: status 200 with the query
    /// string as form content where there is one, and else status 500 and
    /// nothing else.
    pub fn respond<E>(encoded: Result<String, E>) -> (res: Response)
        ensures
            res@ == match encoded {
                Ok(text) => form_content(text@),
                Err(_) => bare(INTERNAL_SERVER_ERROR),
            },
    {
        match encoded {
            Ok(text) => Response::with_content(
                "application/x-www-form-urlencoded",
                text.as_str().as_bytes_vec(),
            ),
            Err(_) => Response::empty(StatusCode::internal_server_error()),
        }
    }
}

impl<S> Extract<S> for Form<serde_json::Value> {
    fn extract(data: &mut S, req: &mut Request, params: &RouteMatch) -> (out: Result<
        Self,
        Response,
    >)
        ensures
            *final(data) == *old(data),
            final(req)@ == drained(old(req)@),
            match out {
                Ok(form) => body_form(old(req)@.body) == Some(form.0),
                Err(res) => body_form(old(req)@.body) is None && res@ == bare(BAD_REQUEST),
            },
    {
        match take_bytes(req) {
            Err(res) => Err(res),
            Ok(bytes) => Form::from_decoded(form_from_bytes(bytes.as_slice())),
        }
    }
}

impl IntoResponse for Form<serde_json::Value> {
    open spec fn response(self) -> ResponseView {
        match form_encoded(self.0) {
            Some(text) => form_content(text),
            None => bare(INTERNAL_SERVER_ERROR),
        }
    }

    fn into_response(self) -> (res: Response) {
        Form::<serde_json::Value>::respond(form_to_string(&self.0))
    }
}

/// The multipart reader that a request gives: over the bytes of its body,
/// with the boundary from its headers.
pub open spec fn request_multipart(req: RequestView) -> Option<Multipart<Cursor<Vec<u8>>>> {
    match (boundary_of(req.headers), body_bytes(req.body)) {
        (Some(mark), Some(bytes)) => Some(multipart_over(bytes, mark)),
        _ => None,
    }
}

/// A multipart form, ready to be read part by part.
pub struct MultipartForm(pub Multipart<Cursor<Vec<u8>>>);

impl<S> Extract<S> for MultipartForm {
    /// The body is taken in any case. Where the headers give no boundary
    /// the request is refused without the body being read.
    fn extract(data: &mut S, req: &mut Request, params: &RouteMatch) -> (out: Result<
        Self,
        Response,
    >)
        ensures
            *final(data) == *old(data),
            final(req)@ == drained(old(req)@),
            match out {
                Ok(form) => request_multipart(old(req)@) == Some(form.0),
                Err(res) => request_multipart(old(req)@) is None && res@ == bare(BAD_REQUEST),
            },
    {
        let mark = boundary(&req.headers);
        let mut body = req.take_body();
        match mark {
            None => Err(mk_err(())),
            Some(mark) => match body.read_to_vec() {
                Err(e) => Err(mk_err(e)),
                Ok(bytes) => Ok(MultipartForm(multipart_with_body(bytes, mark))),
            },
        }
    }
}

/// Whoever looks at the body after an extractor has taken it finds a body
/// that reads as no bytes, with no failure.
pub proof fn lemma_taken_body_reads_empty(req: RequestView)
    ensures
        read_outcome(drained(req).body) == Ok::<Seq<u8>, BodyError>(Seq::empty()),
        after_read(drained(req).body) == drained(req).body,
        body_bytes(drained(req).body) == Some(Seq::<u8>::empty()),
        drained(drained(req)) == drained(req),
{
}

/// A JSON response carries in its body exactly the text that the encoder
/// made of the value, so that reading that body as JSON comes to decoding
/// that text.
pub proof fn lemma_json_body_round(value: serde_json::Value)
    requires
        json_encoded(value) is Some,
    ensures
        Json(value).response().status == crate::response::OK,
        Json(value).response().body == BodyView::Fixed(json_encoded(value)->0),
        body_json(Json(value).response().body) == json_decoded(json_encoded(value)->0),
{
}

} // verus!
