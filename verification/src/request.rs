//! An inbound request, as plain values: method, path, headers and body.

use vstd::prelude::*;
use crate::body::{empty_body, Body, BodyView};
use crate::text::{lower, same_text_ignoring_case};

verus! {

/// One header line: a name and the bytes of its value.
pub struct Header {
    pub name: String,
    pub value: Vec<u8>,
}

impl View for Header {
    type V = (Seq<char>, Seq<u8>);

    open spec fn view(&self) -> (Seq<char>, Seq<u8>) {
        (self.name@, self.value@)
    }
}

/// The header lines of a message, in the order in which they were added.
pub struct Headers {
    pub entries: Vec<Header>,
}

/// Header lines as pairs of name and value.
pub open spec fn lines_view(entries: Seq<Header>) -> Seq<(Seq<char>, Seq<u8>)> {
    entries.map_values(|h: Header| h@)
}

impl View for Headers {
    type V = Seq<(Seq<char>, Seq<u8>)>;

    open spec fn view(&self) -> Seq<(Seq<char>, Seq<u8>)> {
        lines_view(self.entries@)
    }
}

/// The value of the first of `lines` whose name is `name`, capitals ignored.
pub open spec fn first_value(lines: Seq<(Seq<char>, Seq<u8>)>, name: Seq<char>) -> Option<
    Seq<u8>,
>
    decreases lines.len(),
{
    if lines.len() == 0 {
        None
    } else if lower(lines[0].0) == lower(name) {
        Some(lines[0].1)
    } else {
        first_value(lines.drop_first(), name)
    }
}

impl Headers {
    /// No header lines.
    pub fn new() -> (headers: Headers)
        ensures
            headers@ == Seq::<(Seq<char>, Seq<u8>)>::empty(),
    {
        let headers = Headers { entries: Vec::new() };
        headers
    }

    /// Adds a line after those already there.
    pub fn append(&mut self, name: String, value: Vec<u8>)
        ensures
            final(self)@ == old(self)@.push((name@, value@)),
    {
        self.entries.push(Header { name, value });
    }

    /// The value of the first line named `name`, whatever the case of
    /// either name.
    pub fn get(&self, name: &str) -> (value: Option<&Vec<u8>>)
        ensures
            match value {
                Some(bytes) => first_value(self@, name@) == Some(bytes@),
                None => first_value(self@, name@) is None,
            },
    {
        let mut i: usize = 0;
        assert(self@.skip(0) =~= self@);
        while i < self.entries.len()
            invariant
                i <= self.entries.len(),
                first_value(self@, name@) == first_value(self@.skip(i as int), name@),
            decreases self.entries.len() - i,
        {
            let ghost rest = self@.skip(i as int);
            assert(rest.drop_first() =~= self@.skip(i + 1));
            if same_text_ignoring_case(self.entries[i].name.as_str(), name) {
                return Some(&self.entries[i].value);
            }
            i = i + 1;
        }
        None
    }
}

/// A request as mathematics.
pub struct RequestView {
    pub method: Seq<char>,
    pub path: Seq<char>,
    pub headers: Seq<(Seq<char>, Seq<u8>)>,
    pub body: BodyView,
}

/// An inbound request.
pub struct Request {
    pub method: String,
    pub path: String,
    pub headers: Headers,
    pub body: Body,
}

impl View for Request {
    type V = RequestView;

    open spec fn view(&self) -> RequestView {
        RequestView {
            method: self.method@,
            path: self.path@,
            headers: self.headers@,
            body: self.body@,
        }
    }
}

impl Request {
    /// A request made of the given parts.
    pub fn new(method: String, path: String, headers: Headers, body: Body) -> (req: Request)
        ensures
            req@ == (RequestView {
                method: method@,
                path: path@,
                headers: headers@,
                body: body@,
            }),
    {
        Request { method, path, headers, body }
    }

    /// Moves the body out and leaves an empty one in its place, so that
    /// whoever looks next finds no bytes.
    pub fn take_body(&mut self) -> (body: Body)
        ensures
            body@ == old(self)@.body,
            final(self)@ == (RequestView { body: empty_body(), ..old(self)@ }),
    {
        let mut body = Body::empty();
        std::mem::swap(&mut self.body, &mut body);
        body
    }
}

} // verus!
