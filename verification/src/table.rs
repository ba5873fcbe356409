//! The routing table that the router keeps its patterns in.
//!
//! The table itself is `path_table::PathTable`; this module states what the
//! router relies on when it fills and consults one.

use vstd::prelude::*;
use path_table::PathTable;
use crate::text::{split_segments, texts_view};

verus! {

/// `path_table::PathTable`: a tree of path segments with a resource at
/// some of its nodes.
#[verifier::external_type_specification]
#[verifier::external_body]
#[verifier::reject_recursive_types(R)]
pub struct ExPathTable<R>(PathTable<R>);

/// A pattern segment that captures one path segment: `{name}`, the name
/// possibly empty.
pub open spec fn is_capture(seg: Seq<char>) -> bool {
    seg.len() >= 2 && seg.first() == '{' && seg.last() == '}'
}

/// A pattern segment that swallows the rest of a path: `*` or `{name}*`.
pub open spec fn is_catch_all(seg: Seq<char>) -> bool {
    ||| seg =~= seq!['*']
    ||| (seg.len() >= 3 && seg.first() == '{' && seg[seg.len() - 2] == '}' && seg.last() == '*')
}

/// A pattern segment that stands for itself.
pub open spec fn is_literal(seg: Seq<char>) -> bool {
    !is_capture(seg) && !is_catch_all(seg)
}

/// No segment of `key` is a catch-all.
pub open spec fn plain_key(key: Seq<Seq<char>>) -> bool {
    forall|i: int| 0 <= i < key.len() ==> !is_catch_all(#[trigger] key[i])
}

/// Every node of a table, each under the pattern segments that lead to it
/// from the root, with the resource number stored at it, if any. A capturing
/// child is keyed by `{name}`, a catch-all child by `{name}*`.
pub uninterp spec fn table_nodes(table: PathTable<usize>) -> Map<Seq<Seq<char>>, Option<usize>>;

/// What a lookup of `path` yields on a table with the given nodes: the
/// resource number at the node reached and the path segments captured on the
/// way, in order.
pub uninterp spec fn table_walk(
    nodes: Map<Seq<Seq<char>>, Option<usize>>,
    path: Seq<char>,
) -> Option<(usize, Seq<Seq<char>>)>;

/// The nodes of an empty table: the root alone, with nothing stored.
pub open spec fn root_only() -> Map<Seq<Seq<char>>, Option<usize>> {
    Map::empty().insert(Seq::empty(), None)
}

/// The nodes after `value` has been stored under `key`: every prefix of
/// `key` has a node, and the one at `key` holds `value`.
pub open spec fn with_path(
    nodes: Map<Seq<Seq<char>>, Option<usize>>,
    key: Seq<Seq<char>>,
    value: usize,
) -> Map<Seq<Seq<char>>, Option<usize>> {
    Map::new(
        |n: Seq<Seq<char>>| nodes.contains_key(n) || n.is_prefix_of(key),
        |n: Seq<Seq<char>>|
            if n == key {
                Some(value)
            } else if nodes.contains_key(n) {
                nodes[n]
            } else {
                None
            },
    )
}

/// `key` can be entered next to what the table holds: wherever `key`
/// captures, the node above has no other capturing or catch-all child.
pub open spec fn admits(nodes: Map<Seq<Seq<char>>, Option<usize>>, key: Seq<Seq<char>>) -> bool {
    forall|i: int, seg: Seq<char>|
        0 <= i < key.len() && is_capture(key[i]) && !is_literal(seg)
            && #[trigger] nodes.contains_key(key.take(i).push(seg)) ==> seg == key[i]
}

/// No node of the table lies on or under a catch-all.
pub open spec fn plain_nodes(nodes: Map<Seq<Seq<char>>, Option<usize>>) -> bool {
    forall|n: Seq<Seq<char>>| #[trigger] nodes.contains_key(n) ==> plain_key(n)
}

/// The pattern `key` fits the path segments `segs`: as many segments, and
/// each one of `key` either captures or equals the path's.
pub open spec fn spells(key: Seq<Seq<char>>, segs: Seq<Seq<char>>) -> bool {
    &&& key.len() == segs.len()
    &&& forall|i: int| 0 <= i < key.len() ==> is_capture(#[trigger] key[i]) || key[i] == segs[i]
}

/// The segments of `segs` that stand where `key` captures, in order.
pub open spec fn captured(key: Seq<Seq<char>>, segs: Seq<Seq<char>>) -> Seq<Seq<char>>
    decreases key.len(),
{
    if key.len() == 0 || segs.len() == 0 {
        Seq::empty()
    } else if is_capture(key.last()) {
        captured(key.drop_last(), segs.drop_last()).push(segs.last())
    } else {
        captured(key.drop_last(), segs.drop_last())
    }
}

/// Nothing draws a lookup of `segs` away from `key`: where `key` captures,
/// the node above has no literal child named like the path's segment.
pub open spec fn unshadowed(
    nodes: Map<Seq<Seq<char>>, Option<usize>>,
    key: Seq<Seq<char>>,
    segs: Seq<Seq<char>>,
) -> bool {
    forall|i: int|
        0 <= i < key.len() && i < segs.len() && is_capture(key[i]) && is_literal(segs[i]) ==> !(
        #[trigger] nodes.contains_key(key.take(i).push(segs[i])))
}

/// What is relied on of a lookup beyond its being a function of nodes and
/// path: a hit spells out a stored pattern and hands back what that pattern
/// captures, and a stored pattern that fits and is not shadowed is hit.
pub open spec fn walk_facts(
    nodes: Map<Seq<Seq<char>>, Option<usize>>,
    segs: Seq<Seq<char>>,
    found: Option<(usize, Seq<Seq<char>>)>,
) -> bool {
    &&& found matches Some((value, caps)) ==> exists|key: Seq<Seq<char>>|
        #![trigger nodes.contains_key(key)]
        nodes.contains_key(key) && nodes[key] == Some(value) && spells(key, segs) && caps
            == captured(key, segs)
    &&& forall|key: Seq<Seq<char>>|
        #![trigger nodes.contains_key(key)]
        nodes.contains_key(key) && nodes[key] is Some && spells(key, segs) && unshadowed(
            nodes,
            key,
            segs,
        ) ==> found == Some((nodes[key]->0, captured(key, segs)))
}

/// `PathTable::new`: a table with a root and nothing else.
#[verifier::external_body]
pub(crate) fn table_new() -> (table: PathTable<usize>)
    ensures
        table_nodes(table) == root_only(),
{
    PathTable::new()
}

/// `PathTable::setup`, followed by a store through the reference it
/// returns: the nodes along `pattern` exist afterwards and the last of them
/// holds `value`; all else is as before. `setup` splits the pattern at `/`
/// and skips empty pieces. It panics on a segment after a catch-all and on a
/// capture that meets a different capture or catch-all under the same node,
/// which the precondition rules out.
#[verifier::external_body]
pub(crate) fn table_put(table: &mut PathTable<usize>, pattern: &str, value: usize)
    requires
        plain_key(split_segments(pattern@)),
        admits(table_nodes(*old(table)), split_segments(pattern@)),
    ensures
        table_nodes(*final(table)) == with_path(
            table_nodes(*old(table)),
            split_segments(pattern@),
            value,
        ),
{
    *table.setup(pattern) = value;
}

/// A lookup's outcome with its captures seen as sequences of characters.
pub open spec fn hit_view(found: Option<(usize, Vec<String>)>) -> Option<(usize, Seq<Seq<char>>)> {
    match found {
        Some((value, caps)) => Some((value, texts_view(caps@))),
        None => None,
    }
}

/// `PathTable::route` on a table without catch-alls, with the captures
/// copied out as owned strings. The walk goes segment by segment, takes the
/// literal child where there is one and the capturing child otherwise, and
/// ends at the node whose resource it returns; `walk_facts` says what
/// follows from that.
#[verifier::external_body]
pub(crate) fn table_route(table: &PathTable<usize>, path: &str) -> (found: Option<
    (usize, Vec<String>),
>)
    requires
        plain_nodes(table_nodes(*table)),
    ensures
        hit_view(found) == table_walk(table_nodes(*table), path@),
        walk_facts(table_nodes(*table), split_segments(path@), hit_view(found)),
{
    table.route(path).map(|(value, m)| (*value, m.vec.iter().map(|s| s.to_string()).collect()))
}

} // verus!
