//! Finding the boundary of a multipart body in a `content-type` header.

use vstd::prelude::*;
use vstd::utf8::encode_utf8;
use crate::request::{first_value, Headers};
use crate::text::string_of;

verus! {

/// A byte that may stand in a header value that is text: a visible ASCII
/// character, a space or a tab.
pub open spec fn is_visible(b: u8) -> bool {
    (32 <= b && b < 127) || b == 9
}

/// Every byte of `value` may stand in text.
pub open spec fn is_text(value: Seq<u8>) -> bool {
    forall|i: int| 0 <= i < value.len() ==> is_visible(#[trigger] value[i])
}

/// `needle` stands in `hay` at `at`.
pub open spec fn occurs_at(hay: Seq<u8>, needle: Seq<u8>, at: int) -> bool {
    0 <= at && at + needle.len() <= hay.len() && hay.subrange(at, at + needle.len()) == needle
}

/// `at` is the first place at which `needle` stands in `hay`.
pub open spec fn first_at(hay: Seq<u8>, needle: Seq<u8>, at: int) -> bool {
    occurs_at(hay, needle, at) && forall|k: int| 0 <= k < at ==> !occurs_at(hay, needle, k)
}

/// The first place at which `needle` stands in `hay`, if it does.
pub open spec fn first_occurrence(hay: Seq<u8>, needle: Seq<u8>) -> Option<int> {
    if exists|at: int| first_at(hay, needle, at) {
        Some(choose|at: int| first_at(hay, needle, at))
    } else {
        None
    }
}

/// The bytes as characters, one for one.
pub open spec fn as_text(bytes: Seq<u8>) -> Seq<char> {
    bytes.map_values(|b: u8| b as char)
}

/// What announces the boundary in a header value.
pub open spec fn boundary_key() -> Seq<u8> {
    encode_utf8("boundary="@)
}

/// The boundary that a header value gives: what follows the first
/// `boundary=` in it, provided the value is text.
pub open spec fn boundary_in(value: Seq<u8>) -> Option<Seq<char>> {
    if is_text(value) {
        match first_occurrence(value, boundary_key()) {
            Some(at) => Some(as_text(value.skip(at + boundary_key().len()))),
            None => None,
        }
    } else {
        None
    }
}

/// The boundary that the headers give in their first `content-type` line.
pub open spec fn boundary_of(headers: Seq<(Seq<char>, Seq<u8>)>) -> Option<Seq<char>> {
    match first_value(headers, "content-type"@) {
        Some(value) => boundary_in(value),
        None => None,
    }
}

/// Whether `needle` stands in `hay` at `at`.
pub fn stands_at(hay: &Vec<u8>, needle: &Vec<u8>, at: usize) -> (stands: bool)
    ensures
        stands == occurs_at(hay@, needle@, at as int),
{
    if needle.len() > hay.len() || at > hay.len() - needle.len() {
        return false;
    }
    let mut k: usize = 0;
    while k < needle.len()
        invariant
            k <= needle.len(),
            at + needle.len() <= hay.len(),
            forall|j: int| 0 <= j < k ==> hay@[at + j] == needle@[j],
        decreases needle.len() - k,
    {
        if hay[at + k] != needle[k] {
            assert(hay@.subrange(at as int, at + needle.len())[k as int] != needle@[k as int]);
            return false;
        }
        k = k + 1;
    }
    assert(hay@.subrange(at as int, at + needle.len()) =~= needle@);
    true
}

/// The first place at which `needle` stands in `hay`.
pub fn find_bytes(hay: &Vec<u8>, needle: &Vec<u8>) -> (found: Option<usize>)
    ensures
        match found {
            Some(at) => first_occurrence(hay@, needle@) == Some(at as int) && at + needle.len()
                <= hay.len(),
            None => first_occurrence(hay@, needle@) is None,
        },
{
    if needle.len() > hay.len() {
        assert forall|c: int| !first_at(hay@, needle@, c) by {}
        return None;
    }
    let last: usize = hay.len() - needle.len();
    let mut at: usize = 0;
    while at < last && !stands_at(hay, needle, at)
        invariant
            at <= last,
            last + needle.len() == hay.len(),
            forall|k: int| 0 <= k < at ==> !occurs_at(hay@, needle@, k),
        decreases last - at,
    {
        at = at + 1;
    }
    if stands_at(hay, needle, at) {
        assert(first_at(hay@, needle@, at as int));
        let ghost chosen = choose|c: int| first_at(hay@, needle@, c);
        assert(chosen == at) by {
            if chosen < at {
                assert(!occurs_at(hay@, needle@, chosen));
            }
            if at < chosen {
                assert(occurs_at(hay@, needle@, at as int));
            }
        }
        Some(at)
    } else {
        assert forall|c: int| !first_at(hay@, needle@, c) by {
            if occurs_at(hay@, needle@, c) {
                assert(c <= last);
            }
        }
        None
    }
}

/// Whether every byte of `value` may stand in text.
pub fn all_visible(value: &Vec<u8>) -> (ok: bool)
    ensures
        ok == is_text(value@),
{
    let mut i: usize = 0;
    while i < value.len()
        invariant
            i <= value.len(),
            forall|k: int| 0 <= k < i ==> is_visible(#[trigger] value@[k]),
        decreases value.len() - i,
    {
        let b = value[i];
        if !((32 <= b && b < 127) || b == 9) {
            assert(!is_visible(value@[i as int]));
            return false;
        }
        i = i + 1;
    }
    true
}

/// The boundary that a header value gives.
pub fn boundary_from(value: &Vec<u8>) -> (boundary: Option<String>)
    ensures
        match boundary {
            Some(text) => boundary_in(value@) == Some(text@),
            None => boundary_in(value@) is None,
        },
{
    if !all_visible(value) {
        return None;
    }
    let key = "boundary=".as_bytes_vec();
    match find_bytes(value, &key) {
        None => None,
        Some(at) => {
            let mut chars: Vec<char> = Vec::new();
            let mut i: usize = at + key.len();
            let ghost rest = value@.skip(at + key.len());
            while i < value.len()
                invariant
                    at + key.len() <= i <= value.len(),
                    rest == value@.skip(at + key.len()),
                    chars@ == as_text(rest.take(i - (at + key.len()))),
                decreases value.len() - i,
            {
                chars.push(value[i] as char);
                assert(chars@ =~= as_text(rest.take(i + 1 - (at + key.len()))));
                i = i + 1;
            }
            assert(rest.take(rest.len() as int) =~= rest);
            Some(string_of(&chars))
        },
    }
}

/// The boundary that the headers give in their first `content-type` line.
pub fn boundary(headers: &Headers) -> (boundary: Option<String>)
    ensures
        match boundary {
            Some(text) => boundary_of(headers@) == Some(text@),
            None => boundary_of(headers@) is None,
        },
{
    match headers.get("content-type") {
        Some(value) => boundary_from(value),
        None => None,
    }
}

} // verus!
