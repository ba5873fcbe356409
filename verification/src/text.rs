//! Text helpers shared by the router and the extractors.

use vstd::prelude::*;

verus! {

/// State of a left-to-right scan of `s` for `/`-separated segments: the
/// non-empty segments already closed by a `/`, and the segment under way.
pub open spec fn scan_segments(s: Seq<char>) -> (Seq<Seq<char>>, Seq<char>)
    decreases s.len(),
{
    if s.len() == 0 {
        (Seq::empty(), Seq::empty())
    } else {
        let (done, cur) = scan_segments(s.drop_last());
        if s.last() == '/' {
            if cur.len() > 0 {
                (done.push(cur), Seq::empty())
            } else {
                (done, Seq::empty())
            }
        } else {
            (done, cur.push(s.last()))
        }
    }
}

/// The non-empty pieces of `s` between `/` characters, in order.
pub open spec fn split_segments(s: Seq<char>) -> Seq<Seq<char>> {
    let (done, cur) = scan_segments(s);
    if cur.len() > 0 {
        done.push(cur)
    } else {
        done
    }
}

/// The characters of `s`, in order.
pub fn chars_of(s: &str) -> (out: Vec<char>)
    ensures
        out@ == s@,
{
    let mut out: Vec<char> = Vec::new();
    for c in it: s.chars()
        invariant
            out@ == it.seq().take(it.index() as int),
            it.seq() == s@,
    {
        out.push(c);
    }
    out
}

/// Scanning on after a `/` adds to the segments closed before it.
pub proof fn lemma_scan_join(a: Seq<char>, b: Seq<char>)
    ensures
        scan_segments(a + seq!['/'] + b) == (
            split_segments(a) + scan_segments(b).0,
            scan_segments(b).1,
        ),
    decreases b.len(),
{
    let whole = a + seq!['/'] + b;
    if b.len() == 0 {
        assert(whole.drop_last() =~= a);
        assert(whole.last() == '/');
        assert(split_segments(a) + Seq::<Seq<char>>::empty() =~= split_segments(a));
    } else {
        lemma_scan_join(a, b.drop_last());
        assert(whole.drop_last() =~= a + seq!['/'] + b.drop_last());
        assert(whole.last() == b.last());
        let (done, cur) = scan_segments(b.drop_last());
        assert(split_segments(a) + done.push(cur) =~= (split_segments(a) + done).push(cur));
    }
}

/// The segments of two texts joined by a `/` are the segments of the first
/// followed by those of the second.
pub proof fn lemma_split_join(a: Seq<char>, b: Seq<char>)
    ensures
        split_segments(a + seq!['/'] + b) == split_segments(a) + split_segments(b),
{
    lemma_scan_join(a, b);
    let (done, cur) = scan_segments(b);
    assert(split_segments(a) + done.push(cur) =~= (split_segments(a) + done).push(cur));
}

/// The rows of `rows`, each as a sequence of characters.
pub open spec fn rows_view(rows: Seq<Vec<char>>) -> Seq<Seq<char>> {
    rows.map_values(|row: Vec<char>| row@)
}

/// The strings of `texts`, each as a sequence of characters.
pub open spec fn texts_view(texts: Seq<String>) -> Seq<Seq<char>> {
    texts.map_values(|text: String| text@)
}

/// The non-empty pieces of `s` between `/` characters, in order.
pub fn segments_of(s: &str) -> (out: Vec<Vec<char>>)
    ensures
        rows_view(out@) == split_segments(s@),
{
    let mut done: Vec<Vec<char>> = Vec::new();
    let mut cur: Vec<char> = Vec::new();
    for c in it: s.chars()
        invariant
            it.seq() == s@,
            (rows_view(done@), cur@) == scan_segments(s@.take(it.index() as int)),
    {
        let ghost before = s@.take(it.index() as int);
        let ghost done_before = rows_view(done@);
        assert(s@.take(it.index() + 1).drop_last() =~= before);
        if c == '/' {
            if cur.len() > 0 {
                let ghost closed = cur@;
                done.push(cur);
                cur = Vec::new();
                assert(rows_view(done@) =~= done_before.push(closed));
            }
        } else {
            cur.push(c);
        }
    }
    assert(s@.take(s@.len() as int) =~= s@);
    if cur.len() > 0 {
        let ghost done_before = rows_view(done@);
        let ghost closed = cur@;
        done.push(cur);
        assert(rows_view(done@) =~= done_before.push(closed));
    }
    done
}

/// `String::push`: the character goes to the end of the string.
pub assume_specification[ String::push ](s: &mut String, ch: char)
    ensures
        final(s)@ == old(s)@.push(ch),
;

/// The string made of `chars`, in order.
pub fn string_of(chars: &Vec<char>) -> (text: String)
    ensures
        text@ == chars@,
{
    let mut text = String::new();
    let mut i: usize = 0;
    while i < chars.len()
        invariant
            i <= chars.len(),
            text@ == chars@.take(i as int),
        decreases chars.len() - i,
    {
        text.push(chars[i]);
        assert(chars@.take(i + 1) =~= chars@.take(i as int).push(chars@[i as int]));
        i = i + 1;
    }
    assert(chars@.take(chars@.len() as int) =~= chars@);
    text
}

/// `c` with an ASCII capital turned into its small letter.
pub open spec fn ascii_lower(c: char) -> char {
    if 'A' <= c && c <= 'Z' {
        ((c as u8) + 32) as char
    } else {
        c
    }
}

/// `s` with its ASCII capitals turned into small letters.
pub open spec fn lower(s: Seq<char>) -> Seq<char> {
    s.map_values(|c: char| ascii_lower(c))
}

/// `c` with an ASCII capital turned into its small letter.
pub fn to_ascii_lower(c: char) -> (out: char)
    ensures
        out == ascii_lower(c),
{
    if 'A' <= c && c <= 'Z' {
        ((c as u8) + 32) as char
    } else {
        c
    }
}

/// Whether `a` and `b` hold the same characters.
pub fn same_chars(a: &Vec<char>, b: &Vec<char>) -> (same: bool)
    ensures
        same == (a@ == b@),
{
    if a.len() != b.len() {
        return false;
    }
    let mut i: usize = 0;
    while i < a.len()
        invariant
            a.len() == b.len(),
            i <= a.len(),
            a@.take(i as int) == b@.take(i as int),
        decreases a.len() - i,
    {
        if a[i] != b[i] {
            return false;
        }
        assert(a@.take(i + 1) =~= a@.take(i as int).push(a@[i as int]));
        assert(b@.take(i + 1) =~= b@.take(i as int).push(b@[i as int]));
        i = i + 1;
    }
    assert(a@.take(a@.len() as int) =~= a@);
    assert(b@.take(b@.len() as int) =~= b@);
    true
}

/// Whether `a` and `b` are the same text.
pub fn same_text(a: &str, b: &str) -> (same: bool)
    ensures
        same == (a@ == b@),
{
    let x = chars_of(a);
    let y = chars_of(b);
    same_chars(&x, &y)
}

/// Whether `a` and `b` are the same text once ASCII capitals are ignored.
pub fn same_text_ignoring_case(a: &str, b: &str) -> (same: bool)
    ensures
        same == (lower(a@) == lower(b@)),
{
    let x = chars_of(a);
    let y = chars_of(b);
    if x.len() != y.len() {
        return false;
    }
    let mut i: usize = 0;
    while i < x.len()
        invariant
            x@ == a@,
            y@ == b@,
            x.len() == y.len(),
            i <= x.len(),
            lower(x@).take(i as int) == lower(y@).take(i as int),
        decreases x.len() - i,
    {
        if to_ascii_lower(x[i]) != to_ascii_lower(y[i]) {
            assert(lower(x@)[i as int] != lower(y@)[i as int]);
            return false;
        }
        assert(lower(x@).take(i + 1) =~= lower(x@).take(i as int).push(lower(x@)[i as int]));
        assert(lower(y@).take(i + 1) =~= lower(y@).take(i as int).push(lower(y@)[i as int]));
        i = i + 1;
    }
    assert(lower(x@).take(x@.len() as int) =~= lower(x@));
    assert(lower(y@).take(y@.len() as int) =~= lower(y@));
    true
}

} // verus!
