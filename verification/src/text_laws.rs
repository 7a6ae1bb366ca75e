//! What texts are cut into, and how numbers and paths are written and read.

use vstd::prelude::*;
use crate::dependency_laws::law_joined;
use crate::path::{
    components, extension, extension_of, file_name, join, last_index, name_of, path_join, rooted,
    spans_from,
};
use crate::text::{
    decimal, hex, hex_digit, index_from, joined, lemma_index_from, lemma_index_from_is, lines, pieces,
    split, strip_suffix, texts, trim, trim_end, trim_start, trimmed, white_space,
};

verus! {

/// The pieces of a text hold none of the characters that part it, and put together with them
/// they are the text.
pub proof fn law_pieces(s: Seq<char>, c: char)
    ensures
        pieces(s, c).len() > 0,
        joined(pieces(s, c), seq![c]) == s,
        forall|i: int, k: int|
            0 <= i < pieces(s, c).len() && 0 <= k < pieces(s, c)[i].len() ==> #[trigger] pieces(
                s,
                c,
            )[i][k] != c,
    decreases s.len(),
{
    let n = index_from(s, c, 0);
    lemma_index_from(s, c, 0);
    if n < s.len() {
        let first = s.subrange(0, n);
        let rest = s.skip(n + 1);
        law_pieces(rest, c);
        law_joined(seq![first], pieces(rest, c), seq![c]);
        assert(s =~= first + seq![c] + rest);
        assert forall|i: int, k: int|
            0 <= i < pieces(s, c).len() && 0 <= k < pieces(s, c)[i].len() implies #[trigger] pieces(
            s,
            c,
        )[i][k] != c by {
            if i > 0 {
                assert(pieces(s, c)[i] == pieces(rest, c)[i - 1]);
                assert(pieces(rest, c)[i - 1][k] != c);
            } else {
                assert(pieces(s, c)[0] == first);
            }
        }
    } else {
        assert(pieces(s, c) =~= seq![s]);
        law_joined(seq![s], Seq::empty(), seq![c]);
    }
}

/// What a text is split into.
pub proof fn law_split(s: &str, c: char, r: Vec<String>)
    requires
        call_ensures(split, (s, c), r),
    ensures
        r@.len() > 0,
        joined(texts(r@), seq![c]) == s@,
        forall|i: int, k: int|
            0 <= i < r@.len() && 0 <= k < texts(r@)[i].len() ==> #[trigger] texts(r@)[i][k] != c,
{
    law_pieces(s@, c);
    assert(texts(r@).len() == r@.len());
}

/// All of the text is white space.
pub open spec fn all_white(s: Seq<char>) -> bool {
    forall|k: int| 0 <= k < s.len() ==> white_space(#[trigger] s[k])
}

/// A text is trimmed if white space is all that is taken away around it, and none is left at its
/// ends.
pub proof fn law_trimmed(s: Seq<char>)
    ensures
        trimmed(s).len() > 0 ==> !white_space(trimmed(s)[0]) && !white_space(trimmed(s).last()),
        exists|a: Seq<char>, b: Seq<char>|
            s == #[trigger] (a + trimmed(s) + b) && all_white(a) && all_white(b),
{
    let t = trim_start(s);
    lemma_trim_start(s);
    lemma_trim_end(t);
    let a = choose|a: Seq<char>| s == #[trigger] (a + t) && all_white(a);
    let b = choose|b: Seq<char>| t == #[trigger] (trim_end(t) + b) && all_white(b);
    assert(s =~= a + trimmed(s) + b);
    if trimmed(s).len() > 0 {
        assert(trimmed(s)[0] == t[0]);
    }
}

/// White space is all that is taken away in front.
proof fn lemma_trim_start(s: Seq<char>)
    ensures
        trim_start(s).len() > 0 ==> !white_space(trim_start(s)[0]),
        exists|a: Seq<char>| s == #[trigger] (a + trim_start(s)) && all_white(a),
    decreases s.len(),
{
    if s.len() > 0 && white_space(s[0]) {
        let rest = s.skip(1);
        lemma_trim_start(rest);
        let a = choose|a: Seq<char>| rest == #[trigger] (a + trim_start(rest)) && all_white(a);
        let more = seq![s[0]] + a;
        assert(all_white(more)) by {
            assert forall|k: int| 0 <= k < more.len() implies white_space(#[trigger] more[k]) by {
                if k > 0 {
                    assert(more[k] == a[k - 1]);
                }
            }
        }
        assert(rest == a + trim_start(s));
        assert(s =~= seq![s[0]] + rest);
        assert(more + trim_start(s) =~= seq![s[0]] + (a + trim_start(s)));
    } else {
        let none = Seq::<char>::empty();
        assert(all_white(none));
        assert(s =~= none + trim_start(s));
    }
}

/// White space is all that is taken away behind.
proof fn lemma_trim_end(s: Seq<char>)
    ensures
        trim_end(s).len() > 0 ==> !white_space(trim_end(s).last()),
        exists|b: Seq<char>| s == #[trigger] (trim_end(s) + b) && all_white(b),
    decreases s.len(),
{
    if s.len() > 0 && white_space(s.last()) {
        let rest = s.drop_last();
        lemma_trim_end(rest);
        let b = choose|b: Seq<char>| rest == #[trigger] (trim_end(rest) + b) && all_white(b);
        let more = b.push(s.last());
        assert(all_white(more)) by {
            assert forall|k: int| 0 <= k < more.len() implies white_space(#[trigger] more[k]) by {
                if k < b.len() {
                    assert(more[k] == b[k]);
                }
            }
        }
        assert(rest == trim_end(s) + b);
        assert(s =~= rest.push(s.last()));
        assert(trim_end(s) + more =~= (trim_end(s) + b).push(s.last()));
    } else {
        let none = Seq::<char>::empty();
        assert(all_white(none));
        assert(s =~= trim_end(s) + none);
    }
}

/// What is left of a text that is trimmed.
pub proof fn law_trim(s: &str, r: String)
    requires
        call_ensures(trim, (s,), r),
    ensures
        r@.len() > 0 ==> !white_space(r@[0]) && !white_space(r@.last()),
        exists|a: Seq<char>, b: Seq<char>|
            s@ == #[trigger] (a + r@ + b) && all_white(a) && all_white(b),
{
    law_trimmed(s@);
}

/// A line ends at a line feed, which is left out along with a carriage return right before it;
/// what stands behind the last one is a line unless it is empty.
pub proof fn law_lines(line: Seq<char>, rest: Seq<char>)
    requires
        forall|k: int| 0 <= k < line.len() ==> #[trigger] line[k] != '\n',
    ensures
        lines(Seq::empty()) == Seq::<Seq<char>>::empty(),
        line.len() > 0 ==> lines(line) == seq![line],
        line.len() == 0 || line.last() != '\r' ==> lines(line + seq!['\n'] + rest) == seq![line]
            + lines(rest),
        lines(line + seq!['\r', '\n'] + rest) == seq![line] + lines(rest),
{
    lemma_index_from_is(line, '\n', 0, line.len() as int);
    let a = line + seq!['\n'] + rest;
    let n = line.len() as int;
    assert forall|k: int| 0 <= k < n implies a[k] != '\n' by {
        assert(a[k] == line[k]);
    }
    lemma_index_from_is(a, '\n', 0, n);
    assert(a.subrange(0, n) =~= line);
    assert(a.skip(n + 1) =~= rest);
    let b = line + seq!['\r', '\n'] + rest;
    assert forall|k: int| 0 <= k < n + 1 implies b[k] != '\n' by {
        if k < n {
            assert(b[k] == line[k]);
        }
    }
    lemma_index_from_is(b, '\n', 0, n + 1);
    assert(b.subrange(0, n + 1) =~= line.push('\r'));
    assert(line.push('\r').drop_last() =~= line);
    assert(b.skip(n + 2) =~= rest);
}

/// One more byte is two more digits, that of its upper half first.
pub proof fn law_hex(bytes: Seq<u8>, b: u8)
    ensures
        hex(Seq::empty()) == Seq::<char>::empty(),
        ({
            let digits = seq![
                '0',
                '1',
                '2',
                '3',
                '4',
                '5',
                '6',
                '7',
                '8',
                '9',
                'a',
                'b',
                'c',
                'd',
                'e',
                'f',
            ];
            hex(bytes.push(b)) == hex(bytes) + seq![digits[b as int / 16], digits[b as int % 16]]
        }),
{
    assert(bytes.push(b).drop_last() =~= bytes);
    let digits = seq![
        '0',
        '1',
        '2',
        '3',
        '4',
        '5',
        '6',
        '7',
        '8',
        '9',
        'a',
        'b',
        'c',
        'd',
        'e',
        'f',
    ];
    assert(hex_digit(b as nat / 16) == digits[b as int / 16]);
    assert(hex_digit(b as nat % 16) == digits[b as int % 16]);
}

/// A number below ten is one digit, and a digit behind a number makes ten times the number and
/// the digit. No number starts with a zero but zero.
pub proof fn law_decimal(n: nat, d: nat)
    requires
        d < 10,
    ensures
        ({
            let digits = seq!['0', '1', '2', '3', '4', '5', '6', '7', '8', '9'];
            &&& decimal(d) == seq![digits[d as int]]
            &&& n > 0 ==> decimal(10 * n + d) == decimal(n).push(digits[d as int])
        }),
{
}

/// A suffix is taken off a text that ends in it, and no other text changes.
pub proof fn law_strip_suffix(s: &str, suffix: &str, r: String)
    requires
        call_ensures(strip_suffix, (s, suffix), r),
    ensures
        suffix@.is_suffix_of(s@) ==> r@ + suffix@ == s@,
        !suffix@.is_suffix_of(s@) ==> r@ == s@,
{
    if suffix@.is_suffix_of(s@) {
        assert(r@ + suffix@ =~= s@);
    }
}

/// The piece is a component: it is not empty, and no dot.
pub open spec fn is_part(piece: Seq<char>) -> bool {
    piece.len() > 0 && piece != seq!['.']
}

/// The components of a path are the pieces between its slashes that are neither empty nor a dot.
/// In front of them stands the root, if the path starts with a slash, or a dot, if that is its
/// first piece.
pub proof fn law_components(p: Seq<char>)
    ensures
        components(p) == (if p.len() > 0 && p[0] == '/' {
            seq![seq!['/']]
        } else if pieces(p, '/')[0] == seq!['.'] {
            seq![seq!['.']]
        } else {
            Seq::empty()
        }) + pieces(p, '/').filter(|x: Seq<char>| is_part(x)),
{
    let part = |x: Seq<char>| is_part(x);
    let cut = |s: (int, int)| p.subrange(s.0, s.1);
    reveal(Seq::filter);
    lemma_index_from(p, '/', 0);
    if p.len() == 0 {
        assert(pieces(p, '/') =~= seq![p]);
        lemma_filter_one(p);
        assert(components(p) =~= Seq::empty());
    } else {
        let e = index_from(p, '/', 0);
        let first = p.subrange(0, e);
        if e < p.len() {
            let rest = p.skip(e + 1);
            lemma_components_from(p, e + 1);
            Seq::filter_distributes_over_add(seq![first], pieces(rest, '/'), part);
            lemma_filter_one(first);
            let from = spans_from(p, e + 1);
            if rooted(p) {
                assert(e == 0);
                assert(p.subrange(0, 1) =~= seq!['/']);
                assert(components(p) =~= seq![seq!['/']] + from.map_values(cut));
                assert(seq![first].filter(part) =~= Seq::empty());
                assert(seq![first].filter(part) + pieces(rest, '/').filter(part) =~= pieces(
                    rest,
                    '/',
                ).filter(part));
            } else {
                assert(e > 0);
                assert(components(p) =~= seq![first] + from.map_values(cut));
                if first == seq!['.'] {
                    assert(seq![first].filter(part) + pieces(rest, '/').filter(part) =~= pieces(
                        rest,
                        '/',
                    ).filter(part));
                } else {
                    assert(Seq::empty() + (seq![first] + pieces(rest, '/').filter(part)) =~= seq![
                        first,
                    ] + pieces(rest, '/').filter(part));
                }
            }
        } else {
            assert(first =~= p);
            assert(pieces(p, '/') =~= seq![p]);
            lemma_filter_one(p);
            assert(spans_from(p, e + 1) =~= Seq::empty());
            assert(components(p) =~= seq![p]);
        }
    }
}

/// What is picked of one piece.
proof fn lemma_filter_one(x: Seq<char>)
    ensures
        seq![x].filter(|y: Seq<char>| is_part(y)) == (if is_part(x) {
            seq![x]
        } else {
            Seq::empty()
        }),
{
    reveal(Seq::filter);
    let part = |y: Seq<char>| is_part(y);
    assert(seq![x].drop_last() =~= Seq::empty());
    assert(Seq::<Seq<char>>::empty().filter(part) =~= Seq::empty());
    assert(seq![x].filter(part) =~= (if is_part(x) {
        seq![x]
    } else {
        Seq::empty()
    }));
}

/// The components behind the first slash are pieces.
proof fn lemma_components_from(p: Seq<char>, i: int)
    requires
        0 < i <= p.len(),
    ensures
        spans_from(p, i).map_values(|s: (int, int)| p.subrange(s.0, s.1)) == pieces(
            p.skip(i),
            '/',
        ).filter(|x: Seq<char>| is_part(x)),
    decreases p.len() - i,
{
    let part = |x: Seq<char>| is_part(x);
    let cut = |s: (int, int)| p.subrange(s.0, s.1);
    let t = p.skip(i);
    lemma_index_from(p, '/', i);
    lemma_index_from(t, '/', 0);
    if i == p.len() {
        assert(t =~= Seq::empty());
        assert(pieces(t, '/') =~= seq![t]);
        lemma_filter_one(t);
        assert(spans_from(p, i).map_values(cut) =~= Seq::empty());
    } else {
        let e = index_from(p, '/', i);
        assert forall|k: int| 0 <= k < e - i implies t[k] != '/' by {
            assert(t[k] == p[i + k]);
        }
        if e < p.len() {
            assert(t[e - i] == p[e]);
        }
        lemma_index_from_is(t, '/', 0, e - i);
        let first = p.subrange(i, e);
        assert(t.subrange(0, e - i) =~= first);
        lemma_filter_one(first);
        assert(is_part(first) == !(e == i || (e == i + 1 && p[i] == '.'))) by {
            if e == i + 1 {
                assert(first =~= seq![p[i]]);
                assert(seq![p[i]][0] == p[i]);
                if p[i] != '.' {
                    assert(first[0] != seq!['.'][0]);
                }
            } else if e > i + 1 {
                assert(first.len() != seq!['.'].len());
            }
        }
        if e < p.len() {
            lemma_components_from(p, e + 1);
            let rest = p.skip(e + 1);
            assert(t.skip(e - i + 1) =~= rest);
            Seq::filter_distributes_over_add(seq![first], pieces(rest, '/'), part);
            let from = spans_from(p, e + 1);
            assert((seq![(i, e)] + from).map_values(cut) =~= seq![first] + from.map_values(cut));
            assert(Seq::empty() + from.map_values(cut) =~= from.map_values(cut));
        } else {
            assert(first =~= t);
            assert(pieces(t, '/') =~= seq![t]);
            assert(spans_from(p, e + 1) =~= Seq::empty());
            assert((seq![(i, e)] + spans_from(p, e + 1)).map_values(cut) =~= seq![first]);
        }
    }
}

/// The file name is the last component, unless there is none, or it is the root or two dots.
pub proof fn law_file_name(p: &str, r: Option<String>)
    requires
        call_ensures(file_name, (p,), r),
    ensures
        ({
            let c = components(p@);
            let named = c.len() > 0 && c.last() != seq!['/'] && c.last() != seq!['.'] && c.last()
                != seq!['.', '.'];
            &&& r is Some <==> named
            &&& named ==> r->0@ == c.last() && name_of(p@) == Some(c.last())
        }),
{
}

/// The extension is what stands behind the last dot of the file name, if something stands before
/// that dot.
pub proof fn law_extension(p: &str, r: Option<String>)
    requires
        call_ensures(extension, (p,), r),
    ensures
        name_of(p@) is None ==> r is None,
        name_of(p@) matches Some(name) ==> {
            &&& r is None <==> forall|k: int| 0 < k < name.len() ==> #[trigger] name[k] != '.'
            &&& r matches Some(e) ==> exists|stem: Seq<char>|
                name == #[trigger] (stem + seq!['.'] + e@) && stem.len() > 0
            &&& r matches Some(e) ==> forall|k: int| 0 <= k < e@.len() ==> #[trigger] e@[k] != '.'
        },
        r is Some <==> extension_of(p@) is Some,
        r is Some ==> extension_of(p@) == Some(r->0@),
{
    if let Some(name) = name_of(p@) {
        let d = last_index(name, '.');
        lemma_last_dot(name);
        if let Some(e) = r {
            let stem = name.subrange(0, d);
            assert(name =~= stem + seq!['.'] + e@);
            assert forall|k: int| 0 <= k < e@.len() implies #[trigger] e@[k] != '.' by {
                assert(e@[k] == name[d + 1 + k]);
            }
            assert(name[d] == '.');
        } else {
            assert forall|k: int| 0 < k < name.len() implies #[trigger] name[k] != '.' by {}
        }
    }
}

/// Behind the last dot there is none.
proof fn lemma_last_dot(s: Seq<char>)
    ensures
        -1 <= last_index(s, '.') < s.len(),
        last_index(s, '.') >= 0 ==> s[last_index(s, '.')] == '.',
        forall|k: int| last_index(s, '.') < k < s.len() ==> #[trigger] s[k] != '.',
    decreases s.len(),
{
    if s.len() > 0 && s.last() != '.' {
        lemma_last_dot(s.drop_last());
        assert forall|k: int| last_index(s, '.') < k < s.len() implies #[trigger] s[k] != '.' by {
            if k < s.len() - 1 {
                assert(s[k] == s.drop_last()[k]);
            }
        }
        if last_index(s, '.') >= 0 {
            assert(s[last_index(s, '.')] == s.drop_last()[last_index(s, '.')]);
        }
    }
}

/// A path that starts at the root stands for itself wherever it is seen from; another goes on
/// from the base, with one slash between them.
pub proof fn law_join(base: &str, rel: &str, r: String)
    requires
        call_ensures(join, (base, rel), r),
    ensures
        r@ == path_join(base@, rel@),
        rel@.len() > 0 && rel@[0] == '/' ==> r@ == rel@,
        rel@.len() == 0 || rel@[0] != '/' ==> {
            let slash = if base@.len() == 0 || base@[base@.len() - 1] == '/' {
                Seq::empty()
            } else {
                seq!['/']
            };
            r@ == base@ + slash + rel@
        },
{
    if rel@.len() == 0 || rel@[0] != '/' {
        if base@.len() == 0 || base@.last() == '/' {
            assert(r@ =~= base@ + Seq::empty() + rel@);
        } else {
            assert(r@ =~= base@ + seq!['/'] + rel@);
        }
    }
}

} // verus!
