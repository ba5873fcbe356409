//! What a successful route lookup captured from the path.

use vstd::prelude::*;
use crate::pattern::segment_is_capture;
use crate::table::is_capture;
use crate::text::{rows_view, same_text, string_of, texts_view};

verus! {

/// The name that a capturing segment gives: what stands between its braces.
pub open spec fn capture_name(seg: Seq<char>) -> Seq<char> {
    seg.subrange(1, seg.len() - 1)
}

/// The names of the capturing segments among the first `n` of `key`, in
/// order.
pub open spec fn names_upto(key: Seq<Seq<char>>, n: int) -> Seq<Seq<char>>
    decreases n,
{
    if n <= 0 {
        Seq::empty()
    } else if is_capture(key[n - 1]) {
        names_upto(key, n - 1).push(capture_name(key[n - 1]))
    } else {
        names_upto(key, n - 1)
    }
}

/// The names of the capturing segments of `key`, in order; an unnamed
/// capture gives the empty name.
pub open spec fn capture_names(key: Seq<Seq<char>>) -> Seq<Seq<char>> {
    names_upto(key, key.len() as int)
}

/// The first `n` of `names` paired with the first `n` of `caps`, the
/// unnamed ones left out.
pub open spec fn pairs_upto(names: Seq<Seq<char>>, caps: Seq<Seq<char>>, n: int) -> Seq<
    (Seq<char>, Seq<char>),
>
    decreases n,
{
    if n <= 0 {
        Seq::empty()
    } else if names[n - 1].len() > 0 {
        pairs_upto(names, caps, n - 1).push((names[n - 1], caps[n - 1]))
    } else {
        pairs_upto(names, caps, n - 1)
    }
}

/// Each name paired with the capture at the same place, as far as both go,
/// the unnamed ones left out.
pub open spec fn named(names: Seq<Seq<char>>, caps: Seq<Seq<char>>) -> Seq<
    (Seq<char>, Seq<char>),
> {
    pairs_upto(
        names,
        caps,
        if names.len() <= caps.len() {
            names.len() as int
        } else {
            caps.len() as int
        },
    )
}

/// The value of the last of `pairs` whose name is `name`.
pub open spec fn last_value(pairs: Seq<(Seq<char>, Seq<char>)>, name: Seq<char>) -> Option<
    Seq<char>,
>
    decreases pairs.len(),
{
    if pairs.len() == 0 {
        None
    } else if pairs.last().0 == name {
        Some(pairs.last().1)
    } else {
        last_value(pairs.drop_last(), name)
    }
}

/// Captures as mathematics.
pub struct RouteMatchView {
    pub vec: Seq<Seq<char>>,
    pub map: Seq<(Seq<char>, Seq<char>)>,
}

/// What the pattern `key` makes of the captures `caps`.
pub open spec fn bound(key: Seq<Seq<char>>, caps: Seq<Seq<char>>) -> RouteMatchView {
    RouteMatchView { vec: caps, map: named(capture_names(key), caps) }
}

/// Pairs of strings, each as a pair of sequences of characters.
pub open spec fn pairs_view(pairs: Seq<(String, String)>) -> Seq<(Seq<char>, Seq<char>)> {
    pairs.map_values(|p: (String, String)| (p.0@, p.1@))
}

/// The path segments that a pattern captured.
pub struct RouteMatch {
    /// The captures in the order in which they stand in the path.
    pub vec: Vec<String>,
    /// The named captures with their names, in the same order.
    pub map: Vec<(String, String)>,
}

impl View for RouteMatch {
    type V = RouteMatchView;

    open spec fn view(&self) -> RouteMatchView {
        RouteMatchView { vec: texts_view(self.vec@), map: pairs_view(self.map@) }
    }
}

/// The names of the capturing segments of `key`, in order.
pub fn names_of(key: &Vec<Vec<char>>) -> (names: Vec<String>)
    ensures
        texts_view(names@) == capture_names(rows_view(key@)),
{
    let mut names: Vec<String> = Vec::new();
    let mut i: usize = 0;
    while i < key.len()
        invariant
            i <= key.len(),
            texts_view(names@) == names_upto(rows_view(key@), i as int),
        decreases key.len() - i,
    {
        let ghost before = texts_view(names@);
        if segment_is_capture(&key[i]) {
            let seg = &key[i];
            let mut inner: Vec<char> = Vec::new();
            let mut k: usize = 1;
            while k < seg.len() - 1
                invariant
                    seg.len() >= 2,
                    1 <= k <= seg.len() - 1,
                    inner@ == seg@.subrange(1, k as int),
                decreases seg.len() - k,
            {
                inner.push(seg[k]);
                assert(seg@.subrange(1, k + 1) =~= seg@.subrange(1, k as int).push(seg@[k as int]));
                k = k + 1;
            }
            let name = string_of(&inner);
            names.push(name);
            assert(texts_view(names@) =~= before.push(capture_name(rows_view(key@)[i as int])));
        }
        i = i + 1;
    }
    names
}

impl RouteMatch {
    /// The captures `caps` as the pattern `key` names them.
    pub fn bind(key: &Vec<Vec<char>>, caps: Vec<String>) -> (found: RouteMatch)
        ensures
            found@ == bound(rows_view(key@), texts_view(caps@)),
    {
        let names = names_of(key);
        let mut map: Vec<(String, String)> = Vec::new();
        let mut i: usize = 0;
        while i < names.len() && i < caps.len()
            invariant
                i <= names.len(),
                i <= caps.len(),
                pairs_view(map@) == pairs_upto(texts_view(names@), texts_view(caps@), i as int),
            decreases names.len() - i,
        {
            let ghost before = pairs_view(map@);
            if names[i].as_str().unicode_len() > 0 {
                map.push((names[i].clone(), caps[i].clone()));
                assert(pairs_view(map@) =~= before.push(
                    (texts_view(names@)[i as int], texts_view(caps@)[i as int]),
                ));
            }
            i = i + 1;
        }
        RouteMatch { vec: caps, map }
    }

    /// The capture that goes by `name`: the last one, where several share
    /// the name.
    pub fn get(&self, name: &str) -> (value: Option<&String>)
        ensures
            match value {
                Some(text) => last_value(self@.map, name@) == Some(text@),
                None => last_value(self@.map, name@) is None,
            },
    {
        let mut i: usize = self.map.len();
        assert(self@.map.take(i as int) =~= self@.map);
        while i > 0
            invariant
                i <= self.map.len(),
                last_value(self@.map, name@) == last_value(self@.map.take(i as int), name@),
            decreases i,
        {
            let ghost front = self@.map.take(i as int);
            assert(front.last() == self@.map[i - 1]);
            assert(front.drop_last() =~= self@.map.take(i - 1));
            if same_text(self.map[i - 1].0.as_str(), name) {
                return Some(&self.map[i - 1].1);
            }
            i = i - 1;
        }
        None
    }

    /// The capture at place `at`, counted from 0.
    pub fn at(&self, at: usize) -> (value: Option<&String>)
        ensures
            match value {
                Some(text) => at < self@.vec.len() && self@.vec[at as int] == text@,
                None => at >= self@.vec.len(),
            },
    {
        if at < self.vec.len() {
            Some(&self.vec[at])
        } else {
            None
        }
    }
}

} // verus!
