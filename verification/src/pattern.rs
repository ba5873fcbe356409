//! Route patterns: what a pattern's segments mean and how patterns sit
//! together in one table.

use vstd::prelude::*;
use crate::table::{
    admits, is_capture, is_catch_all, is_literal, plain_key, plain_nodes, root_only, unshadowed,
    with_path,
};
use crate::text::{rows_view, same_chars};

verus! {

/// Whether `seg` captures one path segment.
pub fn segment_is_capture(seg: &Vec<char>) -> (captures: bool)
    ensures
        captures == is_capture(seg@),
{
    seg.len() >= 2 && seg[0] == '{' && seg[seg.len() - 1] == '}'
}

/// Whether `seg` swallows the rest of a path.
pub fn segment_is_catch_all(seg: &Vec<char>) -> (swallows: bool)
    ensures
        swallows == is_catch_all(seg@),
{
    if seg.len() == 1 {
        assert(seg@ =~= seq!['*'] <==> seg@[0] == '*');
        seg[0] == '*'
    } else {
        assert(!(seg@ =~= seq!['*']));
        seg.len() >= 3 && seg[0] == '{' && seg[seg.len() - 2] == '}' && seg[seg.len() - 1] == '*'
    }
}

/// Whether no segment of `key` is a catch-all.
pub fn key_is_plain(key: &Vec<Vec<char>>) -> (plain: bool)
    ensures
        plain == plain_key(rows_view(key@)),
{
    let mut i: usize = 0;
    while i < key.len()
        invariant
            i <= key.len(),
            forall|k: int| 0 <= k < i ==> !is_catch_all(#[trigger] rows_view(key@)[k]),
        decreases key.len() - i,
    {
        if segment_is_catch_all(&key[i]) {
            assert(is_catch_all(rows_view(key@)[i as int]));
            return false;
        }
        i = i + 1;
    }
    true
}

/// Whether `a` and `b` are the same pattern.
pub fn same_key(a: &Vec<Vec<char>>, b: &Vec<Vec<char>>) -> (same: bool)
    ensures
        same == (rows_view(a@) == rows_view(b@)),
{
    if a.len() != b.len() {
        return false;
    }
    let mut i: usize = 0;
    while i < a.len()
        invariant
            a.len() == b.len(),
            i <= a.len(),
            forall|k: int| 0 <= k < i ==> rows_view(a@)[k] == rows_view(b@)[k],
        decreases a.len() - i,
    {
        if !same_chars(&a[i], &b[i]) {
            assert(rows_view(a@)[i as int] != rows_view(b@)[i as int]);
            return false;
        }
        i = i + 1;
    }
    assert(rows_view(a@) =~= rows_view(b@));
    true
}

/// Whether `a` and `b` can stand in one table.
pub fn keys_compatible(a: &Vec<Vec<char>>, b: &Vec<Vec<char>>) -> (fit: bool)
    ensures
        fit == compatible(rows_view(a@), rows_view(b@)),
{
    let ghost x = rows_view(a@);
    let ghost y = rows_view(b@);
    let mut i: usize = 0;
    while i < a.len() && i < b.len()
        invariant
            x == rows_view(a@),
            y == rows_view(b@),
            i <= a.len(),
            i <= b.len(),
            x.take(i as int) == y.take(i as int),
            forall|k: int|
                #![trigger x[k], y[k]]
                0 <= k < i && x.take(k) == y.take(k) && is_capture(x[k]) && is_capture(y[k])
                    ==> x[k] == y[k],
        decreases a.len() - i,
    {
        if !same_chars(&a[i], &b[i]) {
            if segment_is_capture(&a[i]) && segment_is_capture(&b[i]) {
                assert(x[i as int] != y[i as int]);
                return false;
            }
            assert forall|k: int|
                #![trigger x[k], y[k]]
                0 <= k < x.len() && k < y.len() && x.take(k) == y.take(k) && is_capture(x[k])
                    && is_capture(y[k]) implies x[k] == y[k] by {
                if k > i {
                    assert(x.take(k)[i as int] == y.take(k)[i as int]);
                }
            }
            return true;
        }
        assert(x.take(i + 1) =~= x.take(i as int).push(x[i as int]));
        assert(y.take(i + 1) =~= y.take(i as int).push(y[i as int]));
        i = i + 1;
    }
    true
}

/// Compatibility does not depend on the order of the two patterns.
pub proof fn lemma_compatible_symmetric(a: Seq<Seq<char>>, b: Seq<Seq<char>>)
    requires
        compatible(a, b),
    ensures
        compatible(b, a),
{
    assert forall|i: int|
        #![trigger b[i], a[i]]
        0 <= i < b.len() && i < a.len() && b.take(i) == a.take(i) && is_capture(b[i])
            && is_capture(a[i]) implies b[i] == a[i] by {
        assert(a[i] == b[i]);
    }
}

/// Patterns that can stand in one table still can when both are put under
/// the same beginning.
pub proof fn lemma_compatible_under(p: Seq<Seq<char>>, a: Seq<Seq<char>>, b: Seq<Seq<char>>)
    requires
        compatible(a, b),
    ensures
        compatible(p + a, p + b),
{
    let x = p + a;
    let y = p + b;
    assert forall|i: int|
        #![trigger x[i], y[i]]
        0 <= i < x.len() && i < y.len() && x.take(i) == y.take(i) && is_capture(x[i])
            && is_capture(y[i]) implies x[i] == y[i] by {
        if i >= p.len() {
            let k = i - p.len();
            assert(a.take(k) =~= b.take(k)) by {
                assert forall|m: int| 0 <= m < k implies a[m] == b[m] by {
                    assert(x.take(i)[p.len() + m] == y.take(i)[p.len() + m]);
                }
            }
            assert(x[i] == a[k] && y[i] == b[k]);
        }
    }
}

/// Two patterns can stand in one table: where they part ways after a common
/// beginning, they do not both capture.
pub open spec fn compatible(a: Seq<Seq<char>>, b: Seq<Seq<char>>) -> bool {
    forall|i: int|
        #![trigger a[i], b[i]]
        0 <= i < a.len() && i < b.len() && a.take(i) == b.take(i) && is_capture(a[i])
            && is_capture(b[i]) ==> a[i] == b[i]
}

/// Patterns that one table can hold next to each other: none with a
/// catch-all, no two the same, any two compatible.
pub open spec fn coherent(keys: Seq<Seq<Seq<char>>>) -> bool {
    &&& forall|i: int| 0 <= i < keys.len() ==> plain_key(#[trigger] keys[i])
    &&& forall|i: int, j: int|
        0 <= i < keys.len() && 0 <= j < keys.len() && i != j ==> #[trigger] keys[i]
            != #[trigger] keys[j]
    &&& forall|i: int, j: int|
        0 <= i < keys.len() && 0 <= j < keys.len() ==> compatible(
            #[trigger] keys[i],
            #[trigger] keys[j],
        )
}

/// `key` can join `keys`: it has no catch-all and is compatible with each.
pub open spec fn joins(keys: Seq<Seq<Seq<char>>>, key: Seq<Seq<char>>) -> bool {
    &&& plain_key(key)
    &&& forall|i: int| 0 <= i < keys.len() ==> compatible(#[trigger] keys[i], key)
}

/// Where `key` stands among `keys`, if it does.
pub open spec fn position(keys: Seq<Seq<Seq<char>>>, key: Seq<Seq<char>>) -> Option<int> {
    if exists|i: int| 0 <= i < keys.len() && keys[i] == key {
        Some(choose|i: int| 0 <= i < keys.len() && keys[i] == key)
    } else {
        None
    }
}

/// The nodes of the table that holds `keys`, each with its index.
pub open spec fn trie_of(keys: Seq<Seq<Seq<char>>>) -> Map<Seq<Seq<char>>, Option<usize>>
    decreases keys.len(),
{
    if keys.len() == 0 {
        root_only()
    } else {
        with_path(trie_of(keys.drop_last()), keys.last(), (keys.len() - 1) as usize)
    }
}

/// A literal segment of some other pattern would draw a lookup of `segs`
/// away from `keys[at]`.
pub open spec fn overshadowed(keys: Seq<Seq<Seq<char>>>, at: int, segs: Seq<Seq<char>>) -> bool {
    exists|i: int, j: int|
        #![trigger keys[j], segs[i]]
        0 <= i < keys[at].len() && i < segs.len() && is_capture(keys[at][i]) && is_literal(
            segs[i],
        ) && 0 <= j < keys.len() && i < keys[j].len() && keys[j].take(i) == keys[at].take(i)
            && keys[j][i] == segs[i]
}

/// The nodes of a table are the root and the beginnings of its patterns.
pub proof fn lemma_trie_nodes(keys: Seq<Seq<Seq<char>>>, n: Seq<Seq<char>>)
    ensures
        trie_of(keys).contains_key(n) <==> (n =~= Seq::empty() || exists|i: int|
            0 <= i < keys.len() && n.is_prefix_of(#[trigger] keys[i])),
    decreases keys.len(),
{
    if keys.len() == 0 {
        assert(root_only().contains_key(n) <==> n == Seq::<Seq<char>>::empty());
    } else {
        let front = keys.drop_last();
        lemma_trie_nodes(front, n);
        if trie_of(keys).contains_key(n) {
            if trie_of(front).contains_key(n) {
                if !(n =~= Seq::empty()) {
                    let i = choose|i: int| 0 <= i < front.len() && n.is_prefix_of(#[trigger] front[i]);
                    assert(n.is_prefix_of(keys[i]));
                }
            } else {
                assert(n.is_prefix_of(keys[keys.len() - 1]));
            }
        }
        if n =~= Seq::empty() {
            assert(n.is_prefix_of(keys.last()));
        }
        if exists|i: int| 0 <= i < keys.len() && n.is_prefix_of(#[trigger] keys[i]) {
            let i = choose|i: int| 0 <= i < keys.len() && n.is_prefix_of(#[trigger] keys[i]);
            if i < front.len() {
                assert(n.is_prefix_of(front[i]));
            }
        }
    }
}

/// In a table of distinct patterns a node holds an index exactly where a
/// pattern ends, and the index is that pattern's.
pub proof fn lemma_trie_values(keys: Seq<Seq<Seq<char>>>, n: Seq<Seq<char>>)
    requires
        keys.len() <= usize::MAX,
        forall|i: int, j: int|
            0 <= i < keys.len() && 0 <= j < keys.len() && i != j ==> #[trigger] keys[i]
                != #[trigger] keys[j],
        trie_of(keys).contains_key(n),
    ensures
        match trie_of(keys)[n] {
            Some(v) => v < keys.len() && keys[v as int] == n,
            None => forall|i: int| 0 <= i < keys.len() ==> #[trigger] keys[i] != n,
        },
    decreases keys.len(),
{
    if keys.len() == 0 {
    } else {
        let front = keys.drop_last();
        assert forall|i: int, j: int|
            0 <= i < front.len() && 0 <= j < front.len() && i != j implies #[trigger] front[i]
            != #[trigger] front[j] by {
            assert(front[i] == keys[i] && front[j] == keys[j]);
        }
        if n == keys.last() {
        } else if trie_of(front).contains_key(n) {
            lemma_trie_values(front, n);
            match trie_of(front)[n] {
                Some(v) => {
                    assert(keys[v as int] == front[v as int]);
                },
                None => {
                    assert forall|i: int| 0 <= i < keys.len() implies #[trigger] keys[i] != n by {
                        if i < front.len() {
                            assert(front[i] == keys[i]);
                        }
                    }
                },
            }
        } else {
            lemma_trie_nodes(front, n);
            assert forall|i: int| 0 <= i < keys.len() implies #[trigger] keys[i] != n by {
                if i < front.len() {
                    assert(front[i] == keys[i]);
                    if keys[i] == n {
                        assert(n.is_prefix_of(front[i]));
                    }
                }
            }
        }
    }
}

/// A beginning of a pattern without catch-all has none either.
pub proof fn lemma_prefix_plain(key: Seq<Seq<char>>, n: Seq<Seq<char>>)
    requires
        plain_key(key),
        n.is_prefix_of(key),
    ensures
        plain_key(n),
{
    assert forall|i: int| 0 <= i < n.len() implies !is_catch_all(#[trigger] n[i]) by {
        assert(n[i] == key[i]);
    }
}

/// A table of patterns without catch-all has no catch-all node.
pub proof fn lemma_trie_plain(keys: Seq<Seq<Seq<char>>>)
    requires
        forall|i: int| 0 <= i < keys.len() ==> plain_key(#[trigger] keys[i]),
    ensures
        plain_nodes(trie_of(keys)),
{
    assert forall|n: Seq<Seq<char>>| #[trigger] trie_of(keys).contains_key(n) implies plain_key(
        n,
    ) by {
        lemma_trie_nodes(keys, n);
        if !(n =~= Seq::empty()) {
            let i = choose|i: int| 0 <= i < keys.len() && n.is_prefix_of(#[trigger] keys[i]);
            lemma_prefix_plain(keys[i], n);
        }
    }
}

/// A pattern that joins the patterns of a table is admitted by the table.
pub proof fn lemma_joins_admits(keys: Seq<Seq<Seq<char>>>, key: Seq<Seq<char>>)
    requires
        forall|i: int| 0 <= i < keys.len() ==> plain_key(#[trigger] keys[i]),
        joins(keys, key),
    ensures
        admits(trie_of(keys), key),
{
    assert forall|i: int, seg: Seq<char>|
        0 <= i < key.len() && is_capture(key[i]) && !is_literal(seg)
            && #[trigger] trie_of(keys).contains_key(key.take(i).push(seg)) implies seg
        == key[i] by {
        let n = key.take(i).push(seg);
        lemma_trie_nodes(keys, n);
        assert(n.len() == i + 1);
        assert(!(n =~= Seq::empty()));
        let j = choose|j: int| 0 <= j < keys.len() && n.is_prefix_of(#[trigger] keys[j]);
        assert(keys[j].take(i) =~= key.take(i)) by {
            assert forall|k: int| 0 <= k < i implies keys[j][k] == key[k] by {
                assert(n[k] == keys[j][k]);
                assert(n[k] == key.take(i)[k]);
            }
        }
        assert(keys[j][i] == n[i]);
        assert(n[i] == seg);
        assert(!is_catch_all(keys[j][i]));
        assert(is_capture(seg));
        assert(compatible(keys[j], key));
    }
}

/// In a table, a pattern is shadowed for a lookup exactly if another
/// pattern's literal segment overshadows it.
pub proof fn lemma_unshadowed(keys: Seq<Seq<Seq<char>>>, at: int, segs: Seq<Seq<char>>)
    requires
        0 <= at < keys.len(),
        !overshadowed(keys, at, segs),
    ensures
        unshadowed(trie_of(keys), keys[at], segs),
{
    let key = keys[at];
    assert forall|i: int|
        0 <= i < key.len() && i < segs.len() && is_capture(key[i]) && is_literal(
            segs[i],
        ) implies !(#[trigger] trie_of(keys).contains_key(key.take(i).push(segs[i]))) by {
        let n = key.take(i).push(segs[i]);
        lemma_trie_nodes(keys, n);
        if trie_of(keys).contains_key(n) {
            assert(n.len() == i + 1);
            assert(!(n =~= Seq::empty()));
            let j = choose|j: int| 0 <= j < keys.len() && n.is_prefix_of(#[trigger] keys[j]);
            assert(keys[j].take(i) =~= key.take(i)) by {
                assert forall|k: int| 0 <= k < i implies keys[j][k] == key[k] by {
                    assert(n[k] == keys[j][k]);
                    assert(n[k] == key.take(i)[k]);
                }
            }
            assert(keys[j][i] == n[i]);
            assert(overshadowed(keys, at, segs));
        }
    }
}

} // verus!
