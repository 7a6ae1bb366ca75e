//! How joining paths, taking them apart and putting them together again belong together.

use vstd::prelude::*;
use crate::path::{
    components, cut, lemma_spans, lemma_spans_from, path_collect, path_join, path_starts_with,
    path_strip_prefix, pop, rooted, spans, spans_from,
};
use crate::text::{index_from, lemma_index_from, lemma_index_from_is};

verus! {

/// The places moved by `n`.
pub open spec fn shifted(list: Seq<(int, int)>, n: int) -> Seq<(int, int)> {
    list.map_values(|s: (int, int)| (s.0 + n, s.1 + n))
}

/// The path is one to go on from a directory with: it does not start at the root, it has
/// components, of which the first is not a dot, and it ends where the last of them ends.
pub open spec fn goes_on(rel: Seq<char>) -> bool {
    &&& !rooted(rel)
    &&& components(rel).len() > 0
    &&& components(rel)[0] != seq!['.']
    &&& spans(rel).last().1 == rel.len()
}

/// Behind a slash at the end of `a`, the components of `a + b` from `i` on are those of `a`
/// and then those behind `a`.
proof fn lemma_spans_of_front(a: Seq<char>, b: Seq<char>, i: int)
    requires
        0 <= i <= a.len(),
        a.len() > 0,
        a.last() == '/',
    ensures
        spans_from(a + b, i) == spans_from(a, i) + spans_from(a + b, a.len() as int),
    decreases a.len() - i,
{
    let t = a + b;
    if i == a.len() {
        assert(spans_from(a, i) + spans_from(t, i) =~= spans_from(t, i));
    } else {
        lemma_index_from(a, '/', i);
        let e = index_from(a, '/', i);
        if e == a.len() {
            assert(a[a.len() - 1] == '/');
        }
        lemma_index_from_is(t, '/', i, e);
        lemma_spans_of_front(a, b, e + 1);
        let rest = spans_from(a, e + 1);
        let tail = spans_from(t, a.len() as int);
        assert(seq![(i, e)] + (rest + tail) =~= (seq![(i, e)] + rest) + tail);
    }
}

/// The components behind `a` stand as they do in `b`. A dot at the beginning of `b` counts
/// there, but not behind `a`.
proof fn lemma_spans_of_back(a: Seq<char>, b: Seq<char>, i: int)
    requires
        0 <= i <= b.len() + 1,
        a.len() > 0,
        i == 0 ==> b.len() > 0 && !(b[0] == '.' && index_from(b, '/', 0) == 1),
    ensures
        spans_from(a + b, a.len() + i) == shifted(spans_from(b, i), a.len() as int),
    decreases b.len() + 1 - i,
{
    let t = a + b;
    let n = a.len() as int;
    if i < b.len() {
        lemma_index_from(b, '/', i);
        let e = index_from(b, '/', i);
        assert forall|k: int| n + i <= k < n + e implies t[k] != '/' by {
            assert(t[k] == b[k - n]);
        }
        lemma_index_from_is(t, '/', n + i, n + e);
        lemma_spans_of_back(a, b, e + 1);
        let rest = spans_from(b, e + 1);
        assert(t[n + i] == b[i]);
        assert(shifted(seq![(i, e)] + rest, n) =~= seq![(n + i, n + e)] + shifted(rest, n));
    } else {
        assert(shifted(spans_from(b, i), n) =~= Seq::empty());
    }
}

/// A slash at the end of a path adds no component.
proof fn lemma_spans_of_slash(a: Seq<char>, i: int)
    requires
        0 <= i <= a.len() + 1,
    ensures
        spans_from(a.push('/'), i) == spans_from(a, i),
    decreases a.len() + 1 - i,
{
    let t = a.push('/');
    if i < a.len() {
        lemma_index_from(a, '/', i);
        let e = index_from(a, '/', i);
        lemma_index_from_is(t, '/', i, e);
        lemma_spans_of_slash(a, e + 1);
        assert(t[i] == a[i]);
    } else if i == a.len() {
        lemma_index_from_is(t, '/', i, i);
        assert(spans_from(t, i + 1) =~= Seq::empty());
    }
}

/// Where the components of a path stand that goes on from a directory.
proof fn lemma_spans_of_join(base: Seq<char>, rel: Seq<char>)
    requires
        base.len() > 0,
        !rooted(rel),
        rel.len() > 0,
        !(rel[0] == '.' && index_from(rel, '/', 0) == 1),
    ensures
        spans(path_join(base, rel)) == spans(base) + shifted(
            spans(rel),
            path_join(base, rel).len() - rel.len(),
        ),
        path_join(base, rel).skip(path_join(base, rel).len() - rel.len()) == rel,
        path_join(base, rel).take(base.len() as int) == base,
{
    let a = if base.last() == '/' {
        base
    } else {
        base.push('/')
    };
    let t = a + rel;
    let i = if rooted(base) {
        1int
    } else {
        0int
    };
    assert(path_join(base, rel) == t);
    lemma_spans_of_front(a, rel, i);
    lemma_spans_of_back(a, rel, 0);
    lemma_spans_of_slash(base, i);
    assert(spans_from(a, i) == spans_from(base, i));
    assert(t.skip(a.len() as int) =~= rel);
    assert(t.take(base.len() as int) =~= base);
    assert(t[0] == base[0]);
    let tail = shifted(spans(rel), a.len() as int);
    if rooted(base) {
        assert(seq![(0int, 1int)] + (spans_from(base, 1) + tail) =~= (seq![(0int, 1int)]
            + spans_from(base, 1)) + tail);
    }
}

/// The first component of a path that is not rooted is a dot just where the path begins with
/// one, alone.
proof fn lemma_first_component(p: Seq<char>)
    requires
        p.len() > 0,
        !rooted(p),
    ensures
        components(p).len() > 0,
        components(p)[0] == p.subrange(0, index_from(p, '/', 0)),
        components(p)[0] == seq!['.'] <==> p[0] == '.' && index_from(p, '/', 0) == 1,
{
    lemma_index_from(p, '/', 0);
    let e = index_from(p, '/', 0);
    assert(spans(p)[0] == (0int, e));
    let c = components(p)[0];
    assert(c == p.subrange(0, e));
    assert(e > 0 && c[0] == p[0]);
    if c == seq!['.'] {
        assert(c.len() == 1);
    }
    if p[0] == '.' && e == 1 {
        assert(c =~= seq!['.']);
    }
}

/// The components of a path that goes on from a directory are those of the directory, and then
/// its own. A dot at its beginning is left out by the law.
pub proof fn law_join_components(base: Seq<char>, rel: Seq<char>)
    requires
        !rooted(rel),
        rel.len() > 0,
        components(rel)[0] != seq!['.'],
    ensures
        components(path_join(base, rel)) == components(base) + components(rel),
{
    lemma_first_component(rel);
    if base.len() == 0 {
        assert(path_join(base, rel) =~= rel);
        assert(components(base) =~= Seq::empty());
        assert(components(base) + components(rel) =~= components(rel));
    } else {
        lemma_spans_of_join(base, rel);
        let t = path_join(base, rel);
        let n = t.len() - rel.len();
        lemma_spans(base);
        lemma_spans(rel);
        let m = spans(base).len();
        assert forall|k: int| 0 <= k < components(t).len() implies components(t)[k] == (components(
            base,
        ) + components(rel))[k] by {
            if k < m {
                let s = spans(base)[k];
                assert(spans(t)[k] == s);
                assert(t.subrange(s.0, s.1) =~= t.take(base.len() as int).subrange(s.0, s.1));
            } else {
                let s = spans(rel)[k - m];
                assert(spans(t)[k] == (s.0 + n, s.1 + n));
                assert(t.subrange(s.0 + n, s.1 + n) =~= t.skip(n).subrange(s.0, s.1));
            }
        }
        assert(components(t) =~= components(base) + components(rel));
    }
}

/// What was joined to a directory is what is left when the directory is taken off again.
pub proof fn law_strip_joined(base: Seq<char>, rel: Seq<char>)
    requires
        goes_on(rel),
    ensures
        path_strip_prefix(path_join(base, rel), base) == Some(rel),
{
    let t = path_join(base, rel);
    lemma_spans(rel);
    law_join_components(base, rel);
    assert(components(base) =~= components(t).subrange(0, components(base).len() as int));
    lemma_first_component(rel);
    let m = spans(base).len() as int;
    let k = spans(rel).len() as int;
    lemma_index_from(rel, '/', 0);
    assert(spans(rel)[0].0 == 0);
    if base.len() == 0 {
        assert(t =~= rel);
        assert(m == 0);
        assert(cut(t, 0, k) =~= rel);
    } else {
        lemma_spans_of_join(base, rel);
        let n = t.len() - rel.len();
        assert(spans(t)[m] == (spans(rel)[0].0 + n, spans(rel)[0].1 + n));
        assert(spans(t)[m + k - 1] == (spans(rel)[k - 1].0 + n, spans(rel)[k - 1].1 + n));
        assert(cut(t, m, m + k) =~= t.skip(n));
    }
}

/// A text without slashes is a single component.
proof fn lemma_single_component(c: Seq<char>)
    requires
        c.len() > 0,
        forall|k: int| 0 <= k < c.len() ==> c[k] != '/',
    ensures
        components(c) == seq![c],
{
    lemma_index_from_is(c, '/', 0, c.len() as int);
    assert(spans_from(c, (c.len() + 1) as int) =~= Seq::empty());
    assert(spans(c) =~= seq![(0int, c.len() as int)]);
    assert(c.subrange(0, c.len() as int) =~= c);
    assert(components(c) =~= seq![c]);
}

/// A dot is a component only at the beginning of a path.
proof fn lemma_no_later_dot(p: Seq<char>, i: int)
    requires
        0 < i <= p.len() + 1,
    ensures
        forall|k: int|
            0 <= k < spans_from(p, i).len() ==> p.subrange(
                (#[trigger] spans_from(p, i)[k]).0,
                spans_from(p, i)[k].1,
            ) != seq!['.'],
    decreases p.len() + 1 - i,
{
    if i < p.len() {
        lemma_index_from(p, '/', i);
        let e = index_from(p, '/', i);
        lemma_no_later_dot(p, e + 1);
        lemma_spans_from(p, i);
        let rest = spans_from(p, e + 1);
        assert forall|k: int| 0 <= k < spans_from(p, i).len() implies p.subrange(
            (#[trigger] spans_from(p, i)[k]).0,
            spans_from(p, i)[k].1,
        ) != seq!['.'] by {
            if e == i || (e == i + 1 && p[i] == '.') {
                assert(spans_from(p, i)[k] == rest[k]);
            } else if k == 0 {
                let c = p.subrange(i, e);
                assert(c.len() == e - i && c[0] == p[i]);
                assert(seq!['.'].len() == 1 && seq!['.'][0] == '.');
            } else {
                assert(spans_from(p, i)[k] == rest[k - 1]);
            }
        }
    }
}

/// A path that is put together from the first components of another has just these.
pub proof fn law_collect_components(p: Seq<char>, n: int)
    requires
        0 <= n <= components(p).len(),
    ensures
        components(path_collect(components(p).take(n))) == components(p).take(n),
    decreases n,
{
    let parts = components(p).take(n);
    if n == 0 {
        assert(parts =~= Seq::empty());
        assert(components(path_collect(parts)) =~= Seq::empty());
    } else {
        law_collect_components(p, n - 1);
        assert(parts.drop_last() =~= components(p).take(n - 1));
        let front = path_collect(parts.drop_last());
        let c = parts.last();
        lemma_spans(p);
        let s = spans(p)[n - 1];
        assert(c == p.subrange(s.0, s.1));
        if n == 1 {
            assert(parts.drop_last() =~= Seq::empty());
            if rooted(p) {
                assert(c == seq!['/']);
                assert(path_join(front, c) == c);
                assert(spans_from(c, 1) =~= Seq::empty());
                assert(c.subrange(0, 1) =~= c);
                assert(components(c) =~= seq![c]);
            } else {
                lemma_single_component(c);
                assert(path_join(front, c) =~= c);
            }
            assert(parts =~= seq![c]);
        } else {
            lemma_single_component(c);
            if rooted(p) {
                lemma_no_later_dot(p, 1);
                assert(spans(p)[n - 1] == spans_from(p, 1)[n - 2]);
            } else {
                lemma_index_from(p, '/', 0);
                let e = index_from(p, '/', 0);
                lemma_no_later_dot(p, e + 1);
                assert(spans(p)[n - 1] == spans_from(p, e + 1)[n - 2]);
            }
            law_join_components(front, c);
            assert(parts =~= parts.drop_last() + seq![c]);
        }
    }
}

/// A path that is put together from the first components of another is one that it starts
/// with.
pub proof fn law_starts_with_collected(p: Seq<char>, n: int)
    requires
        0 <= n <= components(p).len(),
    ensures
        path_starts_with(p, path_collect(components(p).take(n))),
{
    law_collect_components(p, n);
    assert(components(p).take(n) =~= components(p).subrange(0, n));
}

/// A slash at the end makes no difference to the components.
proof fn lemma_slash_at_end(x: Seq<char>, i: int)
    requires
        0 <= i <= x.len(),
    ensures
        spans_from(x.push('/'), i) == spans_from(x, i),
    decreases x.len() - i,
{
    let y = x.push('/');
    lemma_index_from(x, '/', i);
    let e = index_from(x, '/', i);
    assert forall|k: int| i <= k < e implies y[k] != '/' by {
        assert(y[k] == x[k]);
    }
    if e < x.len() {
        assert(y[e] == x[e]);
    }
    lemma_index_from_is(y, '/', i, e);
    if i < x.len() {
        if e < x.len() {
            lemma_slash_at_end(x, e + 1);
        } else {
            assert(spans_from(y, e + 1) =~= spans_from(x, e + 1));
        }
    } else {
        assert(spans_from(y, e + 1) =~= Seq::empty());
    }
}

/// A component ends at a slash, or where the path does.
proof fn lemma_span_ends(p: Seq<char>, i: int)
    requires
        0 <= i <= p.len() + 1,
    ensures
        forall|k: int|
            0 <= k < spans_from(p, i).len() ==> (#[trigger] spans_from(p, i)[k]).1 == p.len()
                || p[spans_from(p, i)[k].1] == '/',
    decreases p.len() + 1 - i,
{
    if i < p.len() {
        lemma_index_from(p, '/', i);
        let e = index_from(p, '/', i);
        lemma_span_ends(p, e + 1);
        let rest = spans_from(p, e + 1);
        assert forall|k: int| 0 <= k < spans_from(p, i).len() implies (
        #[trigger] spans_from(p, i)[k]).1 == p.len() || p[spans_from(p, i)[k].1] == '/' by {
            if !(e == i || (i > 0 && e == i + 1 && p[i] == '.')) {
                assert(spans_from(p, i) =~= seq![(i, e)] + rest);
                if k > 0 {
                    assert(spans_from(p, i)[k] == rest[k - 1]);
                }
            }
        }
    }
}

/// A path that is cut behind a component has the components up to that one.
proof fn lemma_cut_behind(p: Seq<char>, k: int)
    requires
        0 < k <= spans(p).len(),
    ensures
        spans(p.take(spans(p)[k - 1].1)) == spans(p).take(k),
{
    lemma_spans(p);
    let e = spans(p)[k - 1].1;
    let q = p.take(e);
    let all = spans(p);
    if e == p.len() {
        assert(q =~= p);
        if k < all.len() {
            assert(all[k - 1].1 <= all[k].0);
        }
        assert(all.take(k) =~= all);
    } else if rooted(p) && k == 1 {
        assert(spans_from(q, 1) =~= Seq::empty());
        assert(spans(q) =~= all.take(1));
    } else {
        let i: int = if rooted(p) {
            1
        } else {
            0
        };
        lemma_span_ends(p, i);
        assert(all[k - 1] == spans_from(p, i)[k - 1 - i]);
        assert(p[e] == '/');
        let a = p.take(e + 1);
        assert(a =~= q.push('/'));
        assert(a + p.skip(e + 1) =~= p);
        lemma_spans_from(p, i);
        lemma_spans_of_front(a, p.skip(e + 1), i);
        lemma_slash_at_end(q, i);
        assert(rooted(q) == rooted(p));
        let rest = spans_from(p, e + 1);
        assert(all =~= spans(q) + rest);
        lemma_spans(q);
        lemma_spans_from(p, e + 1);
        let m = spans(q).len() as int;
        if m < k {
            assert(all[k - 1] == rest[k - 1 - m]);
        }
        if k < m {
            assert(all[k] == spans(q)[k]);
            assert(all[k - 1].1 <= all[k].0);
        }
        assert(all.take(k) =~= spans(q));
    }
}

/// To pop a path is to leave out its last component, and all that stands behind the one before
/// it; the root, and a path without components, stay.
pub proof fn law_pop(p: &str, r: String)
    requires
        call_ensures(pop, (p,), r),
    ensures
        r@.is_prefix_of(p@),
        components(p@).len() == 0 || components(p@).last() == seq!['/'] ==> r@ == p@,
        components(p@).len() > 0 && components(p@).last() != seq!['/'] ==> components(r@)
            == components(p@).drop_last(),
{
    let t = p@;
    let n = components(t).len() as int;
    lemma_spans(t);
    if n == 0 || components(t).last() == seq!['/'] {
        assert(t.subrange(0, t.len() as int) =~= t);
    } else if n == 1 {
        assert(r@ =~= Seq::empty());
        assert(components(r@) =~= components(t).drop_last());
    } else {
        let k = n - 1;
        let e = spans(t)[k - 1].1;
        lemma_first_span(t);
        assert(r@ =~= t.take(e));
        lemma_cut_behind(t, k);
        assert forall|j: int| 0 <= j < k implies components(r@)[j] == components(t)[j] by {
            let s = spans(t)[j];
            assert(spans(r@)[j] == s);
            if j < k - 1 {
                assert(spans(t)[j].1 <= spans(t)[k - 1].0);
            }
            assert(r@.subrange(s.0, s.1) =~= t.subrange(s.0, s.1));
        }
        assert(components(r@) =~= components(t).drop_last());
    }
}

/// The first component stands at the beginning of the path.
proof fn lemma_first_span(p: Seq<char>)
    requires
        spans(p).len() > 0,
    ensures
        spans(p)[0].0 == 0,
{
    if !rooted(p) {
        lemma_index_from(p, '/', 0);
        let e = index_from(p, '/', 0);
        assert(p.len() > 0);
        assert(e > 0);
        assert(spans(p) =~= seq![(0int, e)] + spans_from(p, e + 1));
    }
}

/// A component starts behind a slash, or where the search for it does, and one behind the
/// beginning of the path is no dot.
proof fn lemma_span_starts(p: Seq<char>, i: int)
    requires
        0 <= i <= p.len() + 1,
    ensures
        forall|k: int|
            0 <= k < spans_from(p, i).len() ==> {
                let s = #[trigger] spans_from(p, i)[k];
                &&& s.0 == i || p[s.0 - 1] == '/'
                &&& s.0 > 0 ==> !(s.1 == s.0 + 1 && p[s.0] == '.')
            },
    decreases p.len() + 1 - i,
{
    if i < p.len() {
        lemma_index_from(p, '/', i);
        let e = index_from(p, '/', i);
        lemma_span_starts(p, e + 1);
        let rest = spans_from(p, e + 1);
        lemma_spans_from(p, e + 1);
        assert forall|k: int| 0 <= k < spans_from(p, i).len() implies ({
            let s = #[trigger] spans_from(p, i)[k];
            &&& s.0 == i || p[s.0 - 1] == '/'
            &&& s.0 > 0 ==> !(s.1 == s.0 + 1 && p[s.0] == '.')
        }) by {
            let skips = e == i || (i > 0 && e == i + 1 && p[i] == '.');
            if !skips && k == 0 {
                assert(spans_from(p, i)[k] == (i, e));
            } else {
                let l = if skips {
                    k
                } else {
                    k - 1
                };
                assert(spans_from(p, i)[k] == rest[l]);
                assert(e + 1 <= rest[l].0 < p.len());
                assert(p[e] == '/');
            }
        }
    }
}

/// What is left of a path behind another has the components that the path has behind those of
/// the other. There is something left just where the path begins with the other.
pub proof fn law_strip_components(p: Seq<char>, base: Seq<char>)
    ensures
        path_strip_prefix(p, base) is Some <==> components(base).is_prefix_of(components(p)),
        path_strip_prefix(p, base) matches Some(rel) ==> components(base) + components(rel)
            == components(p),
{
    lemma_spans(p);
    if components(base).is_prefix_of(components(p)) {
        let all = spans(p);
        let n = components(base).len() as int;
        let rel = path_strip_prefix(p, base)->0;
        if n == all.len() {
            assert(rel =~= Seq::empty());
            assert(components(rel) =~= Seq::empty());
            assert(components(base) =~= components(p));
            assert(components(base) + components(rel) =~= components(p));
        } else {
            let e = all.last().1;
            let q = p.take(e);
            lemma_cut_behind(p, all.len() as int);
            assert(all.take(all.len() as int) =~= all);
            assert(components(q) =~= components(p)) by {
                assert forall|j: int| 0 <= j < all.len() implies components(q)[j] == components(
                    p,
                )[j] by {
                    let s = all[j];
                    if j < all.len() - 1 {
                        assert(all[j].1 <= all[all.len() - 1].0);
                    }
                    assert(q.subrange(s.0, s.1) =~= p.subrange(s.0, s.1));
                }
            }
            if n == 0 {
                lemma_first_span(p);
                assert(rel =~= q);
                assert(components(base) + components(rel) =~= components(p));
            } else {
                lemma_strip_inner(q, n);
                let start = all[n].0;
                assert(rel =~= q.skip(start));
                assert(components(base) =~= components(p).take(n));
                assert(components(base) + components(rel) =~= components(p));
            }
        }
    }
}

/// A path that is cut in front of a component behind the first has the components from that one
/// on.
proof fn lemma_strip_inner(q: Seq<char>, n: int)
    requires
        0 < n < spans(q).len(),
    ensures
        components(q) == components(q).take(n) + components(q.skip(spans(q)[n].0)),
{
    lemma_spans(q);
    let all = spans(q);
    let start = all[n].0;
    let i: int = if rooted(q) {
        1
    } else {
        0
    };
    assert(all[n] == spans_from(q, i)[n - i]);
    assert(all[n - 1].1 <= start);
    lemma_span_starts(q, i);
    lemma_span_ends(q, i);
    let a = q.take(start);
    let b = q.skip(start);
    assert(a.last() == '/') by {
        if rooted(q) && start == 1 {
            assert(a.last() == q[0]);
        } else {
            assert(q[start - 1] == '/');
        }
    }
    assert(a + b =~= q);
    let len = all[n].1 - start;
    assert forall|k: int| 0 <= k < len implies b[k] != '/' by {
        assert(b[k] == q[start + k]);
    }
    if len < b.len() {
        assert(b[len] == q[start + len]);
    }
    lemma_index_from_is(b, '/', 0, len);
    assert(b[0] == q[start]);
    assert(!rooted(b));
    assert(spans(b) =~= seq![(0int, len)] + spans_from(b, len + 1));
    lemma_spans(b);
    assert(components(b)[0] == b.subrange(0, len));
    assert(components(b)[0] != seq!['.']) by {
        if b.subrange(0, len) == seq!['.'] {
            assert(len == seq!['.'].len());
            assert(b.subrange(0, len)[0] == seq!['.'][0]);
        }
    }
    law_join_components(a, b);
    assert(path_join(a, b) == q);
    lemma_spans_of_front(a, b, i);
    assert(rooted(a) == rooted(q));
    let rest = spans_from(q, start);
    assert(all =~= spans(a) + rest);
    lemma_spans(a);
    lemma_spans_from(q, start);
    let m = spans(a).len() as int;
    if n < m {
        assert(all[n] == spans(a)[n]);
    }
    if m < n {
        assert(all[n - 1] == rest[n - 1 - m]);
    }
    assert(components(q).take(n) =~= components(a));
}

} // verus!
