//! Paths in the Unix form: names between slashes, with a slash in front where the
//! path starts at the root.
//!
//! A path is kept as the text that was given. Its components are the root, where the
//! text begins with a slash, and then the names between the slashes. Empty names do
//! not count, and a single dot counts only at the very beginning.

use vstd::prelude::*;
use vstd::string::*;
use crate::text::{
    chars_of, find_from, index_from, lemma_index_from, opt_text, same_text, text_of, texts,
};

verus! {

/// The path starts at the root.
pub open spec fn rooted(p: Seq<char>) -> bool {
    p.len() > 0 && p[0] == '/'
}

/// Where the components that begin at `i` or later stand in `p`: pairs of the first
/// position and the one behind the last.
pub open spec fn spans_from(p: Seq<char>, i: int) -> Seq<(int, int)>
    decreases p.len() + 1 - i,
{
    if i < 0 || i >= p.len() {
        Seq::empty()
    } else {
        proof {
            lemma_index_from(p, '/', i);
        }
        let e = index_from(p, '/', i);
        let rest = spans_from(p, e + 1);
        if e == i || (i > 0 && e == i + 1 && p[i] == '.') {
            rest
        } else {
            seq![(i, e)] + rest
        }
    }
}

/// Where the components of `p` stand in it.
pub open spec fn spans(p: Seq<char>) -> Seq<(int, int)> {
    if rooted(p) {
        seq![(0int, 1int)] + spans_from(p, 1)
    } else {
        spans_from(p, 0)
    }
}

/// The components of `p`.
pub open spec fn components(p: Seq<char>) -> Seq<Seq<char>> {
    spans(p).map_values(|s: (int, int)| p.subrange(s.0, s.1))
}

/// A component that names an entry of a directory, and is neither the root nor one
/// of the two dot components.
pub open spec fn is_name(c: Seq<char>) -> bool {
    c != seq!['/'] && c != seq!['.'] && c != seq!['.', '.']
}

/// The last component, where it is a name.
pub open spec fn name_of(p: Seq<char>) -> Option<Seq<char>> {
    let c = components(p);
    if c.len() > 0 && is_name(c.last()) {
        Some(c.last())
    } else {
        None
    }
}

/// The last position of `c` in `s`; -1 where there is none.
pub open spec fn last_index(s: Seq<char>, c: char) -> int
    decreases s.len(),
{
    if s.len() == 0 {
        -1
    } else if s.last() == c {
        s.len() - 1
    } else {
        last_index(s.drop_last(), c)
    }
}

/// What follows the last dot of the file name. A dot at its beginning does not count.
pub open spec fn extension_of(p: Seq<char>) -> Option<Seq<char>> {
    match name_of(p) {
        None => None,
        Some(name) => {
            let d = last_index(name, '.');
            if d <= 0 {
                None
            } else {
                Some(name.skip(d + 1))
            }
        },
    }
}

/// `rel` seen from `base`: `rel` itself where it starts at the root.
pub open spec fn path_join(base: Seq<char>, rel: Seq<char>) -> Seq<char> {
    if rooted(rel) {
        rel
    } else if base.len() == 0 || base.last() == '/' {
        base + rel
    } else {
        base.push('/') + rel
    }
}

/// The components of `base` are the first components of `p`.
pub open spec fn path_starts_with(p: Seq<char>, base: Seq<char>) -> bool {
    components(base).is_prefix_of(components(p))
}

/// The text of `p` from its component `from` up to, and without, its component `to`.
pub open spec fn cut(p: Seq<char>, from: int, to: int) -> Seq<char> {
    if from < to {
        p.subrange(spans(p)[from].0, spans(p)[to - 1].1)
    } else {
        Seq::empty()
    }
}

/// What is left of `p` behind the components of `base`, where it begins with them.
pub open spec fn path_strip_prefix(p: Seq<char>, base: Seq<char>) -> Option<Seq<char>> {
    if path_starts_with(p, base) {
        Some(cut(p, components(base).len() as int, components(p).len() as int))
    } else {
        None
    }
}

/// The path seen from the root: without the root where it starts there.
pub open spec fn without_root(p: Seq<char>) -> Seq<char> {
    if rooted(p) {
        cut(p, 1, components(p).len() as int)
    } else {
        p
    }
}

/// The path without its last component; a path that is empty or the root stays.
pub open spec fn path_pop(p: Seq<char>) -> Seq<char> {
    let c = components(p);
    if c.len() == 0 || c.last() == seq!['/'] {
        p
    } else {
        cut(p, 0, c.len() - 1)
    }
}

/// The path of the given components, put together from the left.
pub open spec fn path_collect(parts: Seq<Seq<char>>) -> Seq<char>
    decreases parts.len(),
{
    if parts.len() == 0 {
        Seq::empty()
    } else {
        path_join(path_collect(parts.drop_last()), parts.last())
    }
}

/// Components stand inside the path, in order, and hold no slash but for the root.
pub proof fn lemma_spans_from(p: Seq<char>, i: int)
    requires
        0 <= i <= p.len() + 1,
    ensures
        forall|k: int|
            0 <= k < spans_from(p, i).len() ==> {
                let s = #[trigger] spans_from(p, i)[k];
                &&& i <= s.0 < s.1 <= p.len()
                &&& forall|j: int| s.0 <= j < s.1 ==> p[j] != '/'
            },
        forall|k: int, l: int|
            0 <= k < l < spans_from(p, i).len() ==> (#[trigger] spans_from(p, i)[k]).1 < (
            #[trigger] spans_from(p, i)[l]).0,
    decreases p.len() + 1 - i,
{
    if i < p.len() {
        lemma_index_from(p, '/', i);
        let e = index_from(p, '/', i);
        lemma_spans_from(p, e + 1);
        let rest = spans_from(p, e + 1);
        if !(e == i || (i > 0 && e == i + 1 && p[i] == '.')) {
            assert(spans_from(p, i) =~= seq![(i, e)] + rest);
            assert forall|k: int| 0 <= k < spans_from(p, i).len() implies ({
                let s = #[trigger] spans_from(p, i)[k];
                &&& i <= s.0 < s.1 <= p.len()
                &&& forall|j: int| s.0 <= j < s.1 ==> p[j] != '/'
            }) by {
                if k > 0 {
                    assert(spans_from(p, i)[k] == rest[k - 1]);
                }
            }
            assert forall|k: int, l: int| 0 <= k < l < spans_from(p, i).len() implies (
            #[trigger] spans_from(p, i)[k]).1 < (#[trigger] spans_from(p, i)[l]).0 by {
                assert(spans_from(p, i)[l] == rest[l - 1]);
                if k > 0 {
                    assert(spans_from(p, i)[k] == rest[k - 1]);
                }
            }
        }
    }
}

/// Components stand inside the path, in order; behind the root none holds a slash.
pub proof fn lemma_spans(p: Seq<char>)
    ensures
        forall|k: int|
            0 <= k < spans(p).len() ==> {
                let s = #[trigger] spans(p)[k];
                &&& 0 <= s.0 < s.1 <= p.len()
                &&& (k > 0 || !rooted(p)) ==> forall|j: int| s.0 <= j < s.1 ==> p[j] != '/'
            },
        forall|k: int, l: int|
            0 <= k < l < spans(p).len() ==> (#[trigger] spans(p)[k]).1 <= (
            #[trigger] spans(p)[l]).0,
        components(p).len() == spans(p).len(),
        rooted(p) ==> components(p).len() > 0 && components(p)[0] == seq!['/'],
        !rooted(p) ==> forall|k: int|
            0 <= k < components(p).len() ==> #[trigger] components(p)[k] != seq!['/'],
        forall|k: int|
            0 < k < components(p).len() ==> #[trigger] components(p)[k] != seq!['/'],
{
    if rooted(p) {
        lemma_spans_from(p, 1);
        let rest = spans_from(p, 1);
        assert forall|k: int| 0 < k < spans(p).len() implies #[trigger] spans(p)[k] == rest[k
            - 1] by {}
        assert(components(p)[0] =~= seq!['/']);
    } else {
        lemma_spans_from(p, 0);
    }
    assert forall|k: int| (k > 0 || !rooted(p)) && 0 <= k < components(p).len() implies
        #[trigger] components(p)[k] != seq!['/'] by {
        let s = spans(p)[k];
        assert(components(p)[k][0] == p[s.0]);
    }
}

/// A path seen from the root does not start at the root, and ends in no slash unless it
/// was left as it was.
pub proof fn lemma_without_root(p: Seq<char>)
    ensures
        !rooted(without_root(p)),
        rooted(p) && without_root(p).len() > 0 ==> without_root(p).last() != '/',
{
    lemma_spans(p);
    if rooted(p) && spans(p).len() > 1 {
        let n = spans(p).len() as int;
        let a = spans(p)[1];
        let b = spans(p)[n - 1];
        assert(n > 2 ==> a.1 <= b.0);
        assert(without_root(p)[0] == p[a.0]);
        assert(without_root(p).last() == p[b.1 - 1]);
    }
}

/// A file name is not empty and holds no slash.
pub proof fn lemma_name_of(p: Seq<char>)
    ensures
        name_of(p) matches Some(name) ==> {
            &&& name.len() > 0
            &&& forall|j: int| 0 <= j < name.len() ==> name[j] != '/'
        },
{
    lemma_spans(p);
    let n = spans(p).len() as int;
    if n > 0 && is_name(components(p).last()) {
        let s = spans(p)[n - 1];
        assert(components(p)[n - 1] == p.subrange(s.0, s.1));
    }
}

/// To strip the root off a path is to look at it from the root.
pub proof fn law_strip_root(p: Seq<char>)
    ensures
        path_strip_prefix(p, seq!['/']) == (if rooted(p) {
            Some(without_root(p))
        } else {
            None::<Seq<char>>
        }),
{
    let root = seq!['/'];
    lemma_spans(p);
    lemma_spans(root);
    assert(spans_from(root, 1) =~= Seq::empty());
    assert(components(root) =~= seq![root]);
    if rooted(p) {
        assert(components(root) =~= components(p).subrange(0, 1));
    } else if components(p).len() > 0 {
        assert(components(p).subrange(0, 1)[0] != root);
    }
}

/// A place in a path.
pub struct Span {
    pub start: usize,
    pub end: usize,
}

/// The places as pairs of numbers.
pub open spec fn span_pairs(list: Seq<Span>) -> Seq<(int, int)> {
    list.map_values(|s: Span| (s.start as int, s.end as int))
}

/// Finds the components of a path.
fn find_spans(v: &[char]) -> (r: Vec<Span>)
    ensures
        span_pairs(r@) == spans(v@),
{
    let mut r: Vec<Span> = Vec::new();
    let mut i: usize = 0;
    if v.len() > 0 && v[0] == '/' {
        r.push(Span { start: 0, end: 1 });
        i = 1;
        assert(span_pairs(r@) =~= seq![(0int, 1int)]);
    } else {
        assert(span_pairs(r@) =~= Seq::empty());
        assert(spans(v@) =~= Seq::empty() + spans_from(v@, 0));
    }
    while i < v.len()
        invariant
            v@.len() == v.len(),
            spans(v@) == span_pairs(r@) + spans_from(v@, i as int),
        decreases v@.len() - i,
    {
        let e: usize = find_from(v, '/', i);
        let ghost before = span_pairs(r@);
        if e == i || (i > 0 && e == i + 1 && v[i] == '.') {
        } else {
            r.push(Span { start: i, end: e });
            assert(span_pairs(r@) =~= before.push((i as int, e as int)));
            assert(spans(v@) =~= span_pairs(r@) + spans_from(v@, e + 1));
        }
        if e == v.len() {
            assert(spans_from(v@, e + 1) =~= Seq::empty());
            assert(spans(v@) =~= span_pairs(r@));
            return r;
        }
        i = e + 1;
    }
    assert(spans(v@) =~= span_pairs(r@));
    r
}

/// Whether the path starts at the root.
pub fn is_absolute(p: &str) -> (r: bool)
    ensures
        r == rooted(p@),
{
    let v = chars_of(p);
    v.len() > 0 && v[0] == '/'
}

/// The components of the path.
pub fn components_of(p: &str) -> (r: Vec<String>)
    ensures
        texts(r@) == components(p@),
{
    let v = chars_of(p);
    let s = find_spans(v.as_slice());
    let mut r: Vec<String> = Vec::new();
    let mut k: usize = 0;
    proof {
        lemma_spans(p@);
    }
    while k < s.len()
        invariant
            v@ == p@,
            k <= s@.len(),
            span_pairs(s@) == spans(p@),
            forall|l: int|
                0 <= l < spans(p@).len() ==> 0 <= (#[trigger] spans(p@)[l]).0 < spans(p@)[l].1
                    <= p@.len(),
            texts(r@) == components(p@).take(k as int),
        decreases s@.len() - k,
    {
        assert(span_pairs(s@)[k as int] == spans(p@)[k as int]);
        let ghost before = texts(r@);
        let c = text_of(v.as_slice(), s[k].start, s[k].end);
        r.push(c);
        k += 1;
        assert(texts(r@) =~= before.push(c@));
        assert(components(p@).take(k as int) =~= before.push(c@));
    }
    assert(s@.len() == span_pairs(s@).len());
    assert(components(p@).take(k as int) =~= components(p@));
    r
}

/// Whether two lists hold the same texts over the length of the second.
fn begins_with_texts(a: &Vec<String>, b: &Vec<String>) -> (r: bool)
    ensures
        r == texts(b@).is_prefix_of(texts(a@)),
{
    if b.len() > a.len() {
        return false;
    }
    let mut k: usize = 0;
    while k < b.len()
        invariant
            b@.len() <= a@.len(),
            k <= b@.len(),
            forall|j: int| 0 <= j < k ==> (#[trigger] a@[j])@ == b@[j]@,
        decreases b@.len() - k,
    {
        if !same_text(a[k].as_str(), b[k].as_str()) {
            assert(texts(a@).subrange(0, b@.len() as int)[k as int] != texts(b@)[k as int]);
            return false;
        }
        k += 1;
    }
    assert(texts(b@) =~= texts(a@).subrange(0, b@.len() as int));
    true
}

/// Whether the path begins with the components of `base`.
pub fn starts_with_path(p: &str, base: &str) -> (r: bool)
    ensures
        r == path_starts_with(p@, base@),
{
    begins_with_texts(&components_of(p), &components_of(base))
}

/// Whether two paths have the same components.
pub fn same_path(a: &str, b: &str) -> (r: bool)
    ensures
        r == (components(a@) == components(b@)),
{
    let x = components_of(a);
    let y = components_of(b);
    assert(x@.len() == texts(x@).len() && y@.len() == texts(y@).len());
    if x.len() != y.len() {
        return false;
    }
    assert(texts(x@).subrange(0, y@.len() as int) =~= texts(x@));
    begins_with_texts(&x, &y)
}

/// The part of a path from one component up to another.
fn cut_text(p: &str, from: usize, to: usize) -> (r: String)
    requires
        to <= spans(p@).len(),
    ensures
        r@ == cut(p@, from as int, to as int),
{
    if from >= to {
        return String::new();
    }
    let v = chars_of(p);
    let s = find_spans(v.as_slice());
    assert(s@.len() == span_pairs(s@).len());
    proof {
        lemma_spans(p@);
        assert(span_pairs(s@)[from as int] == spans(p@)[from as int]);
        assert(span_pairs(s@)[to - 1] == spans(p@)[to - 1]);
    }
    text_of(v.as_slice(), s[from].start, s[to - 1].end)
}

/// What is left of the path behind the components of `base`.
pub fn strip_prefix(p: &str, base: &str) -> (r: Option<String>)
    ensures
        opt_text(r) == path_strip_prefix(p@, base@),
{
    let x = components_of(p);
    let y = components_of(base);
    assert(x@.len() == texts(x@).len() && y@.len() == texts(y@).len());
    if begins_with_texts(&x, &y) {
        Some(cut_text(p, y.len(), x.len()))
    } else {
        None
    }
}

/// The path seen from the root.
pub fn strip_root(p: &str) -> (r: String)
    ensures
        r@ == without_root(p@),
{
    if is_absolute(p) {
        let c = components_of(p);
        assert(c@.len() == texts(c@).len());
        cut_text(p, 1, c.len())
    } else {
        p.to_owned()
    }
}

/// Whether the text is the single given character.
fn is_char(s: &str, c: char) -> (r: bool)
    ensures
        r == (s@ == seq![c]),
{
    let v = chars_of(s);
    if v.len() == 1 && v[0] == c {
        assert(s@ =~= seq![c]);
        true
    } else {
        assert(s@ == seq![c] ==> s@[0] == c && s@.len() == 1);
        false
    }
}

/// The path without its last component.
pub fn pop(p: &str) -> (r: String)
    ensures
        r@ == path_pop(p@),
{
    let c = components_of(p);
    assert(c@.len() == texts(c@).len());
    if c.len() == 0 {
        return p.to_owned();
    }
    assert(texts(c@).last() == c@.last()@);
    if is_char(c[c.len() - 1].as_str(), '/') {
        p.to_owned()
    } else {
        cut_text(p, 0, c.len() - 1)
    }
}

/// The last component, where it is a name.
pub fn file_name(p: &str) -> (r: Option<String>)
    ensures
        opt_text(r) == name_of(p@),
{
    let c = components_of(p);
    assert(c@.len() == texts(c@).len());
    if c.len() == 0 {
        return None;
    }
    assert(texts(c@).last() == c@.last()@);
    let last = c[c.len() - 1].as_str();
    proof {
        reveal_strlit("..");
        assert(".."@ =~= seq!['.', '.']);
    }
    if is_char(last, '/') || is_char(last, '.') || same_text(last, "..") {
        None
    } else {
        Some(last.to_owned())
    }
}

/// What follows the last dot of the file name.
pub fn extension(p: &str) -> (r: Option<String>)
    ensures
        opt_text(r) == extension_of(p@),
{
    match file_name(p) {
        None => None,
        Some(name) => {
            let v = chars_of(name.as_str());
            let mut n: usize = v.len();
            assert(name@.take(n as int) =~= name@);
            while n > 0 && v[n - 1] != '.'
                invariant
                    v@ == name@,
                    n <= v@.len(),
                    last_index(name@.take(n as int), '.') == last_index(name@, '.'),
                decreases n,
            {
                assert(name@.take(n as int).drop_last() =~= name@.take(n - 1));
                n -= 1;
            }
            assert(last_index(name@, '.') == n - 1);
            if n <= 1 {
                None
            } else {
                let r = text_of(v.as_slice(), n, v.len());
                assert(r@ =~= name@.skip(n as int));
                Some(r)
            }
        },
    }
}

/// `rel` seen from `base`.
pub fn join(base: &str, rel: &str) -> (r: String)
    ensures
        r@ == path_join(base@, rel@),
{
    if is_absolute(rel) {
        return rel.to_owned();
    }
    let v = chars_of(base);
    let mut r = base.to_owned();
    if v.len() > 0 && v[v.len() - 1] != '/' {
        r.push('/');
    }
    r.append(rel);
    r
}

} // verus!
