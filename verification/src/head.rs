//! Arguments that come from the head of a request: what its path captured.

use vstd::prelude::*;
use crate::extract::Extract;
use crate::params::{last_value, RouteMatch};
use crate::request::Request;
use crate::response::{bare, Response, BAD_REQUEST};
use crate::text::chars_of;

verus! {

/// Whether `c` is a decimal digit.
pub open spec fn is_digit(c: char) -> bool {
    '0' <= c && c <= '9'
}

/// The number that the digits `s` write in base ten.
pub open spec fn digits_value(s: Seq<char>) -> nat
    decreases s.len(),
{
    if s.len() == 0 {
        0
    } else {
        (10 * digits_value(s.drop_last()) + (s.last() as u8 - '0' as u8)) as nat
    }
}

/// `s` without the `+` that it may start with.
pub open spec fn unsigned_part(s: Seq<char>) -> Seq<char> {
    if s.len() > 0 && s[0] == '+' {
        s.drop_first()
    } else {
        s
    }
}

/// The number that `s` writes: digits, at least one, after at most one
/// `+`, that do not go beyond what a `usize` holds.
pub open spec fn number_of(s: Seq<char>) -> Option<usize> {
    let digits = unsigned_part(s);
    if digits.len() > 0 && (forall|i: int| 0 <= i < digits.len() ==> is_digit(#[trigger] digits[i]))
        && digits_value(digits) <= usize::MAX {
        Some(digits_value(digits) as usize)
    } else {
        None
    }
}

/// The more digits, the larger the number they write.
pub proof fn lemma_digits_grow(s: Seq<char>, n: int)
    requires
        0 <= n <= s.len(),
        forall|i: int| 0 <= i < s.len() ==> is_digit(#[trigger] s[i]),
    ensures
        digits_value(s.take(n)) <= digits_value(s),
    decreases s.len() - n,
{
    if n < s.len() {
        lemma_digits_grow(s, n + 1);
        assert(s.take(n + 1).drop_last() =~= s.take(n));
        assert(is_digit(s.take(n + 1).last()));
    } else {
        assert(s.take(n) =~= s);
    }
}

/// Reads a number written in base ten.
pub fn parse_number(text: &str) -> (number: Option<usize>)
    ensures
        number == number_of(text@),
{
    let chars = chars_of(text);
    let start: usize = if chars.len() > 0 && chars[0] == '+' {
        1
    } else {
        0
    };
    let ghost digits = unsigned_part(chars@);
    assert(digits =~= chars@.skip(start as int));
    if start >= chars.len() {
        return None;
    }
    let mut value: usize = 0;
    let mut i: usize = start;
    while i < chars.len()
        invariant
            start <= i <= chars.len(),
            chars@ == text@,
            digits == unsigned_part(text@),
            digits == chars@.skip(start as int),
            value == digits_value(digits.take(i - start)),
            forall|k: int| 0 <= k < i - start ==> is_digit(#[trigger] digits[k]),
        decreases chars.len() - i,
    {
        let c = chars[i];
        assert(digits[i - start] == c);
        if !('0' <= c && c <= '9') {
            return None;
        }
        let d: usize = ((c as u8) - ('0' as u8)) as usize;
        assert(digits.take(i - start + 1).drop_last() =~= digits.take(i - start));
        if value > (usize::MAX - d) / 10 {
            proof {
                if forall|k: int| 0 <= k < digits.len() ==> is_digit(#[trigger] digits[k]) {
                    lemma_digits_grow(digits, i - start + 1);
                }
            }
            return None;
        }
        value = value * 10 + d;
        i = i + 1;
    }
    assert(digits.take(digits.len() as int) =~= digits);
    Some(value)
}

/// A number taken from the path.
pub struct Path<T>(pub T);

impl Path<usize> {
    /// The number from what `text` holds, if anything, or the response that
    /// refuses the request: status 400 where there is no text or it is no
    /// number.
    pub fn from_text(text: Option<&String>) -> (out: Result<Path<usize>, Response>)
        ensures
            match out {
                Ok(path) => text matches Some(t) && number_of(t@) == Some(path.0),
                Err(res) => res@ == bare(BAD_REQUEST) && (text matches Some(t) ==> number_of(t@)
                    is None),
            },
    {
        match text {
            None => Err(Response::bad_request()),
            Some(t) => match parse_number(t.as_str()) {
                Some(number) => Ok(Path(number)),
                None => Err(Response::bad_request()),
            },
        }
    }

    /// The number that the capture named `name` writes.
    pub fn named(params: &RouteMatch, name: &str) -> (out: Result<Path<usize>, Response>)
        ensures
            match out {
                Ok(path) => last_value(params@.map, name@) matches Some(t) && number_of(t)
                    == Some(path.0),
                Err(res) => res@ == bare(BAD_REQUEST) && (last_value(params@.map, name@) matches Some(
                    t,
                ) ==> number_of(t) is None),
            },
    {
        Path::from_text(params.get(name))
    }

    /// The number that the capture at place `at` writes.
    pub fn placed(params: &RouteMatch, at: usize) -> (out: Result<Path<usize>, Response>)
        ensures
            match out {
                Ok(path) => at < params@.vec.len() && number_of(params@.vec[at as int]) == Some(
                    path.0,
                ),
                Err(res) => res@ == bare(BAD_REQUEST) && (at < params@.vec.len() ==> number_of(
                    params@.vec[at as int],
                ) is None),
            },
    {
        Path::from_text(params.at(at))
    }
}

impl<S> Extract<S> for Path<usize> {
    /// The number that the first capture writes.
    fn extract(data: &mut S, req: &mut Request, params: &RouteMatch) -> (out: Result<
        Self,
        Response,
    >)
        ensures
            *final(data) == *old(data),
            *final(req) == *old(req),
            match out {
                Ok(path) => 0 < params@.vec.len() && number_of(params@.vec[0]) == Some(path.0),
                Err(res) => res@ == bare(BAD_REQUEST) && (0 < params@.vec.len() ==> number_of(
                    params@.vec[0],
                ) is None),
            },
    {
        Path::placed(params, 0)
    }
}

} // verus!
