//! What the dependencies of a package are, told from the list in the manifest and from what was
//! found out for its entries.

use vstd::prelude::*;
use vstd::string::*;
use crate::dependency::{
    all_chosen, all_warnings, answer_fits, answers_fit, bracketed, chosen, distinct,
    failure_warnings, law_architecture_read_back, law_distinct, law_no_architecture,
    needed, request_of, requests_of, AnswerView, ArchView, BinaryView, RequestView,
};
use crate::error::ErrorView;
use crate::manifest::NoticeView;
use crate::text::{joined, occurs, pieces, trimmed};

verus! {

/// The text holds the character.
pub open spec fn holds_char(t: Seq<char>, c: char) -> bool {
    exists|i: int| 0 <= i < t.len() && #[trigger] t[i] == c
}

/// There is one request for each piece of the list between commas. An entry that lacks one of
/// the two brackets is a dependency as it stands, with its version and all, but for the white
/// space around it; `$auto` alone asks for the packages that the binaries need; and what has
/// both brackets on one line depends on the architecture.
pub proof fn law_requests(depends: Seq<char>, i: int)
    requires
        0 <= i < pieces(depends, ',').len(),
    ensures
        requests_of(depends).len() == pieces(depends, ',').len(),
        ({
            let word = trimmed(pieces(depends, ',')[i]);
            let request = requests_of(depends)[i];
            &&& request is Auto <==> word == "$auto"@
            &&& word != "$auto"@ && (!holds_char(word, '[') || !holds_char(word, ']')) ==> request
                == RequestView::Plain(word)
            &&& request matches RequestView::Plain(d) ==> d == word
            &&& word != "$auto"@ ==> (request is Conditional <==> exists|s: int, o: int, c: int|
                #[trigger] bracketed(word, s, o, c))
        }),
{
    let word = trimmed(pieces(depends, ',')[i]);
    assert(requests_of(depends)[i] == request_of(pieces(depends, ',')[i]));
    if !holds_char(word, '[') {
        assert forall|k: int| 0 <= k < word.len() implies (#[trigger] word[k]) != '[' by {}
        law_no_architecture(word);
    }
    if !holds_char(word, ']') {
        assert forall|k: int| 0 <= k < word.len() implies (#[trigger] word[k]) != ']' by {}
        law_no_architecture(word);
    }
}

/// An entry with an architecture in brackets behind it brings the dependency in front of them,
/// where the architecture is one that is named, or, with an exclamation mark, one that is not.
pub proof fn law_conditional_request(
    depends: Seq<char>,
    i: int,
    dep: Seq<char>,
    arch: Seq<char>,
    neg: bool,
    success: bool,
)
    requires
        0 <= i < pieces(depends, ',').len(),
        forall|k: int|
            0 <= k < dep.len() ==> (#[trigger] dep[k]) != '[' && dep[k] != ']' && dep[k] != '\n',
        forall|k: int|
            0 <= k < arch.len() ==> (#[trigger] arch[k]) != '[' && arch[k] != ']' && arch[k]
                != '\n',
        arch.len() > 0 ==> arch[0] != '!',
        trimmed(pieces(depends, ',')[i]) == dep + seq!['['] + (if neg {
            seq!['!']
        } else {
            Seq::empty()
        }) + arch + seq![']'],
    ensures
        requests_of(depends)[i] == RequestView::Conditional(
            trimmed(dep),
            if neg {
                ArchView::NegRequire(arch)
            } else {
                ArchView::Require(arch)
            },
        ),
        chosen(requests_of(depends)[i], AnswerView::Command(Ok(success))) == (if success != neg {
            Ok::<Seq<Seq<char>>, ErrorView>(seq![trimmed(dep)])
        } else {
            Ok::<Seq<Seq<char>>, ErrorView>(Seq::empty())
        }),
{
    let word = trimmed(pieces(depends, ',')[i]);
    law_architecture_read_back(dep, arch, neg);
    assert(requests_of(depends)[i] == request_of(pieces(depends, ',')[i]));
    reveal_strlit("$auto");
    assert(word != "$auto"@) by {
        assert(word.last() == ']');
        assert("$auto"@.last() == 'o');
    }
}

/// The entry brings the dependency, by the answer to it.
pub open spec fn brings(q: RequestView, a: AnswerView, x: Seq<char>) -> bool {
    match q {
        RequestView::Plain(d) => x == d,
        RequestView::Auto => a matches AnswerView::Binaries(list) && some_binary_needs(list, x),
        RequestView::Conditional(d, ArchView::Require(_)) => x == d && a == AnswerView::Command(
            Ok(true),
        ),
        RequestView::Conditional(d, ArchView::NegRequire(_)) => x == d && a
            == AnswerView::Command(Ok(false)),
    }
}

/// Some binary needs the package.
pub open spec fn some_binary_needs(list: Seq<BinaryView>, x: Seq<char>) -> bool {
    exists|b: int|
        0 <= b < list.len() && (#[trigger] list[b] matches BinaryView::Packages(p) && p.contains(x))
}

/// What is needed is what some binary needs.
proof fn lemma_needed(list: Seq<BinaryView>, x: Seq<char>)
    ensures
        needed(list).contains(x) <==> some_binary_needs(list, x),
    decreases list.len(),
{
    if list.len() > 0 {
        let front = list.drop_last();
        lemma_needed(front, x);
        let more = match list.last() {
            BinaryView::Packages(p) => p,
            BinaryView::Failed(_) => Seq::empty(),
        };
        lemma_contains_concat(needed(front), more, x);
        if some_binary_needs(front, x) {
            let b = choose|b: int|
                0 <= b < front.len() && (#[trigger] front[b] matches BinaryView::Packages(p)
                    && p.contains(x));
            assert(list[b] == front[b]);
        }
        if some_binary_needs(list, x) {
            let b = choose|b: int|
                0 <= b < list.len() && (#[trigger] list[b] matches BinaryView::Packages(p)
                    && p.contains(x));
            if b < front.len() {
                assert(front[b] == list[b]);
            }
        }
        if more.contains(x) {
            assert(list[list.len() - 1] == list.last());
        }
    }
}

/// What two lists hold.
proof fn lemma_contains_concat(a: Seq<Seq<char>>, b: Seq<Seq<char>>, x: Seq<char>)
    ensures
        (a + b).contains(x) <==> a.contains(x) || b.contains(x),
{
    let all = a + b;
    if a.contains(x) {
        let i = choose|i: int| 0 <= i < a.len() && a[i] == x;
        assert(all[i] == x);
    }
    if b.contains(x) {
        let i = choose|i: int| 0 <= i < b.len() && b[i] == x;
        assert(all[a.len() + i] == x);
    }
    if all.contains(x) {
        let i = choose|i: int| 0 <= i < all.len() && all[i] == x;
        if i < a.len() {
            assert(a[i] == x);
        } else {
            assert(b[i - a.len()] == x);
        }
    }
}

/// The dependencies are just those that some entry brings.
pub proof fn law_dependencies(q: Seq<RequestView>, a: Seq<AnswerView>, n: nat, x: Seq<char>)
    requires
        answers_fit(q, a, n),
        all_chosen(q, a) is Ok,
    ensures
        distinct(all_chosen(q, a)->Ok_0).contains(x) <==> exists|i: int|
            0 <= i < q.len() && brings(#[trigger] q[i], a[i], x),
        distinct(all_chosen(q, a)->Ok_0).no_duplicates(),
{
    law_distinct(all_chosen(q, a)->Ok_0);
    lemma_all_chosen(q, a, n, x);
}

/// What is chosen is what some entry brings.
proof fn lemma_all_chosen(q: Seq<RequestView>, a: Seq<AnswerView>, n: nat, x: Seq<char>)
    requires
        answers_fit(q, a, n),
        all_chosen(q, a) is Ok,
    ensures
        all_chosen(q, a)->Ok_0.contains(x) <==> exists|i: int|
            0 <= i < q.len() && brings(#[trigger] q[i], a[i], x),
    decreases q.len(),
{
    if q.len() > 0 {
        let front = q.drop_last();
        let k = q.len() - 1;
        assert(q.take(k) =~= front);
        assert(answer_fits(q[k], a[k], n));
        assert(answers_fit(front, a, n)) by {
            assert forall|i: int|
                0 <= i < front.len() && all_chosen(#[trigger] front.take(i), a) is Ok implies i
                < a.len() && answer_fits(front[i], a[i], n) by {
                assert(front.take(i) =~= q.take(i));
            }
        }
        lemma_all_chosen(front, a, n, x);
        let more = chosen(q[k], a[k])->Ok_0;
        lemma_contains_concat(all_chosen(front, a)->Ok_0, more, x);
        assert(more.contains(x) <==> brings(q[k], a[k], x)) by {
            match q[k] {
                RequestView::Auto => {
                    lemma_needed(a[k]->Binaries_0, x);
                },
                RequestView::Plain(d) => {
                    assert(seq![d][0] == d);
                },
                RequestView::Conditional(d, _) => {
                    assert(seq![d][0] == d);
                },
            }
        }
        if exists|i: int| 0 <= i < front.len() && brings(#[trigger] front[i], a[i], x) {
            let i = choose|i: int| 0 <= i < front.len() && brings(#[trigger] front[i], a[i], x);
            assert(brings(q[i], a[i], x));
        }
        if exists|i: int| 0 <= i < q.len() && brings(#[trigger] q[i], a[i], x) {
            let i = choose|i: int| 0 <= i < q.len() && brings(#[trigger] q[i], a[i], x);
            if i < k {
                assert(front[i] == q[i]);
            }
        }
    }
}

/// It fails just where the command for an entry with an architecture could not be run, and then
/// with the reason of the first such entry.
pub proof fn law_dependencies_fail(q: Seq<RequestView>, a: Seq<AnswerView>, n: nat)
    requires
        answers_fit(q, a, n),
    ensures
        match all_chosen(q, a) {
            Err(e) => exists|i: int|
                {
                    &&& 0 <= i < q.len()
                    &&& (#[trigger] q[i]) is Conditional
                    &&& a[i] matches AnswerView::Command(Err(reason)) && e
                        == ErrorView::CommandFailed(reason, "dpkg-architecture"@)
                    &&& forall|j: int|
                        0 <= j < i && (#[trigger] q[j]) is Conditional ==> a[j]
                            matches AnswerView::Command(Ok(_))
                },
            Ok(_) => forall|j: int|
                0 <= j < q.len() && (#[trigger] q[j]) is Conditional ==> a[j]
                    matches AnswerView::Command(Ok(_)),
        },
    decreases q.len(),
{
    if q.len() > 0 {
        let front = q.drop_last();
        let k = q.len() - 1;
        assert(q.take(k) =~= front);
        assert(answers_fit(front, a, n)) by {
            assert forall|i: int|
                0 <= i < front.len() && all_chosen(#[trigger] front.take(i), a) is Ok implies i
                < a.len() && answer_fits(front[i], a[i], n) by {
                assert(front.take(i) =~= q.take(i));
            }
        }
        law_dependencies_fail(front, a, n);
        match all_chosen(front, a) {
            Err(e) => {
                let i = choose|i: int|
                    {
                        &&& 0 <= i < front.len()
                        &&& (#[trigger] front[i]) is Conditional
                        &&& a[i] matches AnswerView::Command(Err(reason)) && e
                            == ErrorView::CommandFailed(reason, "dpkg-architecture"@)
                        &&& forall|j: int|
                            0 <= j < i && (#[trigger] front[j]) is Conditional ==> a[j]
                                matches AnswerView::Command(Ok(_))
                    };
                assert(q[i] == front[i]);
                assert forall|j: int| 0 <= j < i && (#[trigger] q[j]) is Conditional implies a[j]
                    matches AnswerView::Command(Ok(_)) by {
                    assert(front[j] == q[j]);
                }
            },
            Ok(_) => {
                assert(answer_fits(q[k], a[k], n));
                assert forall|j: int| 0 <= j < k && (#[trigger] q[j]) is Conditional implies a[j]
                    matches AnswerView::Command(Ok(_)) by {
                    assert(front[j] == q[j]);
                }
                assert(q[k] == q.last());
            },
        }
    }
}

/// Two lists of texts, put together, are the one text behind the other, with the separator
/// between them; a list of one is that text.
pub proof fn law_joined(a: Seq<Seq<char>>, b: Seq<Seq<char>>, sep: Seq<char>)
    ensures
        a.len() == 1 ==> joined(a, sep) == a[0],
        a.len() > 0 && b.len() > 0 ==> joined(a + b, sep) == joined(a, sep) + sep + joined(b, sep),
    decreases b.len(),
{
    if a.len() > 0 && b.len() > 0 {
        assert((a + b).drop_last() =~= a + b.drop_last());
        if b.len() == 1 {
            assert(a + b.drop_last() =~= a);
            assert((a + b).last() == b[0]);
        } else {
            law_joined(a, b.drop_last(), sep);
            assert(joined(a + b, sep) =~= joined(a, sep) + sep + joined(b, sep));
        }
    }
}

/// A member of a list stands in the text of the list.
proof fn lemma_joined_holds(list: Seq<Seq<char>>, sep: Seq<char>, k: int)
    requires
        0 <= k < list.len(),
    ensures
        occurs(joined(list, sep), list[k]),
{
    let t = joined(list, sep);
    let x = list[k];
    let front = list.take(k);
    let back = list.skip(k + 1);
    let one = seq![x];
    law_joined(one, back, sep);
    law_joined(front, one + back, sep);
    law_joined(front, one, sep);
    let tail = joined(one + back, sep);
    assert(tail.subrange(0, x.len() as int) =~= x) by {
        if back.len() == 0 {
            assert(one + back =~= one);
        }
    }
    assert(front + (one + back) =~= list);
    if k == 0 {
        assert(one + back =~= list);
        assert(t.subrange(0int, 0int + x.len()) == x);
    } else {
        let at = joined(front, sep).len() as int + sep.len();
        assert(t.subrange(at, at + x.len()) =~= tail.subrange(0, x.len() as int));
    }
}

/// A dependency without brackets stands in the text of the dependencies as it stands in the
/// list, whatever else the list holds.
pub proof fn law_plain_dependency_is_kept(depends: Seq<char>, a: Seq<AnswerView>, n: nat, i: int)
    requires
        0 <= i < pieces(depends, ',').len(),
        trimmed(pieces(depends, ',')[i]) != "$auto"@,
        !holds_char(trimmed(pieces(depends, ',')[i]), '[') || !holds_char(
            trimmed(pieces(depends, ',')[i]),
            ']',
        ),
        answers_fit(requests_of(depends), a, n),
        all_chosen(requests_of(depends), a) is Ok,
    ensures
        occurs(
            joined(distinct(all_chosen(requests_of(depends), a)->Ok_0), ", "@),
            trimmed(pieces(depends, ',')[i]),
        ),
{
    let word = trimmed(pieces(depends, ',')[i]);
    let q = requests_of(depends);
    law_requests(depends, i);
    law_dependencies(q, a, n, word);
    assert(brings(q[i], a[i], word));
    let d = distinct(all_chosen(q, a)->Ok_0);
    assert(d.contains(word));
    let k = choose|k: int| 0 <= k < d.len() && d[k] == word;
    lemma_joined_holds(d, ", "@, k);
}

/// There is one warning for each binary of which it could not be found out what it needs: the
/// reason and the path of the binary. Nothing else is said.
pub proof fn law_failure_warnings(list: Seq<BinaryView>, b: BinaryView, paths: Seq<Seq<char>>)
    ensures
        failure_warnings(Seq::empty(), paths) == Seq::<NoticeView>::empty(),
        failure_warnings(list.push(b), paths) == (match b {
            BinaryView::Failed(reason) => failure_warnings(list, paths).push(
                NoticeView::Warning(
                    reason + " (no auto deps for "@ + paths[list.len() as int] + ")"@,
                ),
            ),
            BinaryView::Packages(_) => failure_warnings(list, paths),
        }),
{
    assert(list.push(b).drop_last() =~= list);
    assert(failure_warnings(list.push(b), paths) =~= (match b {
        BinaryView::Failed(reason) => failure_warnings(list, paths).push(
            NoticeView::Warning(reason + " (no auto deps for "@ + paths[list.len() as int] + ")"@),
        ),
        BinaryView::Packages(_) => failure_warnings(list, paths),
    }));
}

/// One more entry adds the warnings about its binaries, unless an earlier one failed.
pub proof fn law_warnings(
    q: Seq<RequestView>,
    r: RequestView,
    a: Seq<AnswerView>,
    paths: Seq<Seq<char>>,
)
    ensures
        all_warnings(Seq::empty(), a, paths) == Seq::<NoticeView>::empty(),
        all_warnings(q.push(r), a, paths) == all_warnings(q, a, paths) + (match a[q.len() as int] {
            AnswerView::Binaries(list) => if all_chosen(q, a) is Ok {
                failure_warnings(list, paths)
            } else {
                Seq::empty()
            },
            _ => Seq::empty(),
        }),
{
    assert(q.push(r).drop_last() =~= q);
}

} // verus!
