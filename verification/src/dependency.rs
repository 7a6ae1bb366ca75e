//! Dependencies of a package, with the architectures that they are meant for.

use vstd::prelude::*;
use vstd::string::*;
use crate::error::{fails_with, Attempt, CDResult, CargoDebError, ErrorView};
use crate::manifest::{notice_views, push_notice, Notice, NoticeView};
use crate::text::{
    join_texts, joined, lemma_trim_space, pieces, same_text, split, texts, trim, trimmed,
};

verus! {

#[derive(Debug, Clone, PartialEq, Eq, PartialOrd, Ord)]
pub enum ArchSpec {
    /// e.g. [armhf]
    Require(String),
    /// e.g. [!armhf]
    NegRequire(String),
}

/// An architecture specification with its name as a sequence.
pub enum ArchView {
    Require(Seq<char>),
    NegRequire(Seq<char>),
}

impl View for ArchSpec {
    type V = ArchView;

    open spec fn view(&self) -> ArchView {
        match self {
            ArchSpec::Require(a) => ArchView::Require(a@),
            ArchSpec::NegRequire(a) => ArchView::NegRequire(a@),
        }
    }
}

/// From `start` on, on one line of `t`, there are a bracket that opens at `open` and one
/// that closes at `close`.
pub open spec fn bracketed(t: Seq<char>, start: int, open: int, close: int) -> bool {
    &&& 0 <= start <= open < close < t.len()
    &&& t[open] == '['
    &&& t[close] == ']'
    &&& forall|k: int| start <= k <= close ==> t[k] != '\n'
}

/// The brackets that count: with the start as far left as can be, then the opening
/// bracket as far right as can be, then the closing one as far right as can be.
pub open spec fn first_bracketed(t: Seq<char>, start: int, open: int, close: int) -> bool {
    &&& bracketed(t, start, open, close)
    &&& forall|s: int, o: int, c: int| #[trigger] bracketed(t, s, o, c) ==> start <= s
    &&& forall|o: int, c: int| #[trigger] bracketed(t, start, o, c) ==> o <= open
    &&& forall|c: int| #[trigger] bracketed(t, start, open, c) ==> c <= close
}

/// There are no such brackets in `t`.
pub open spec fn no_brackets(t: Seq<char>) -> bool {
    forall|s: int, o: int, c: int| !#[trigger] bracketed(t, s, o, c)
}

/// Whether an exclamation mark follows at once upon the opening bracket.
pub open spec fn negated(t: Seq<char>, open: int) -> bool {
    t[open + 1] == '!'
}

/// `Regex::captures` of the `regex` crate, on a regular expression made by `Regex::new`,
/// looks for the leftmost match, in which each repetition takes as much as it can, the
/// first one first; a dot stands for any character but the line feed. For this pattern
/// the three groups are what stands before the opening bracket on its line, the
/// exclamation mark behind it, if any, and the rest up to the closing bracket.
#[verifier::external_body]
fn captures(pattern: &str, text: &str) -> (r: Option<(String, String, String)>)
    requires
        pattern@ == "(.*)\\[(!?)(.*)\\]"@,
    ensures
        r is None <==> no_brackets(text@),
        r matches Some(g) ==> exists|s: int, o: int, c: int| {
            &&& #[trigger] first_bracketed(text@, s, o, c)
            &&& g.0@ == text@.subrange(s, o)
            &&& g.1@ == (if negated(text@, o) { seq!['!'] } else { Seq::empty() })
            &&& g.2@ == text@.subrange(o + 1 + g.1@.len(), c)
        },
{
    match regex::Regex::new(pattern).unwrap().captures(text) {
        Some(c) => Some((c[1].to_string(), c[2].to_string(), c[3].to_string())),
        None => None,
    }
}

/// The dependency and the architecture specification that `t` holds, where the brackets
/// that count stand at the given places.
pub open spec fn specified(t: Seq<char>, start: int, open: int, close: int) -> (
    Seq<char>,
    Option<ArchView>,
) {
    (
        trimmed(t.subrange(start, open)),
        Some(
            if negated(t, open) {
                ArchView::NegRequire(t.subrange(open + 2, close))
            } else {
                ArchView::Require(t.subrange(open + 1, close))
            },
        ),
    )
}

/// The dependency and the architecture specification that `t` holds. Without brackets it
/// is all dependency.
pub open spec fn arch_specification(t: Seq<char>) -> (Seq<char>, Option<ArchView>) {
    if no_brackets(t) {
        (t, None)
    } else {
        let (s, o, c) = choose|s: int, o: int, c: int| first_bracketed(t, s, o, c);
        specified(t, s, o, c)
    }
}

/// There is only one pair of brackets that counts.
pub proof fn lemma_first_bracketed(t: Seq<char>, s: int, o: int, c: int)
    requires
        first_bracketed(t, s, o, c),
    ensures
        arch_specification(t) == specified(t, s, o, c),
{
    let (s2, o2, c2) = choose|s2: int, o2: int, c2: int| first_bracketed(t, s2, o2, c2);
    assert(first_bracketed(t, s2, o2, c2));
    assert(bracketed(t, s, o, c) && bracketed(t, s2, o2, c2));
    assert(s == s2);
    assert(o == o2);
    assert(c == c2);
}

/// Parts a dependency from the architecture specification behind it.
pub fn get_architecture_specification(depend: &str) -> (r: CDResult<(String, Option<ArchSpec>)>)
    ensures
        r matches Ok(p) && (p.0@, match p.1 {
            Some(a) => Some(a@),
            None => None,
        }) == arch_specification(depend@),
{
    match captures("(.*)\\[(!?)(.*)\\]", depend) {
        Some((before, mark, name)) => {
            let ghost (s, o, c) = choose|s: int, o: int, c: int| {
                &&& #[trigger] first_bracketed(depend@, s, o, c)
                &&& before@ == depend@.subrange(s, o)
                &&& mark@ == (if negated(depend@, o) { seq!['!'] } else { Seq::empty() })
                &&& name@ == depend@.subrange(o + 1 + mark@.len(), c)
            };
            proof {
                lemma_first_bracketed(depend@, s, o, c);
                assert(bracketed(depend@, s, o, c));
                reveal_strlit("!");
                assert("!"@ =~= seq!['!']);
                assert(seq!['!'].len() == 1);
            }
            let spec = if same_text(mark.as_str(), "!") {
                ArchSpec::NegRequire(name)
            } else {
                ArchSpec::Require(name)
            };
            Ok((trim(before.as_str()), Some(spec)))
        },
        None => Ok((depend.to_owned(), None)),
    }
}

/// A dependency written before an architecture in brackets is read back, without the white
/// space around it, and so is the architecture; an exclamation mark before the architecture
/// negates it. A space before the bracket makes no difference.
pub proof fn law_architecture_read_back(dep: Seq<char>, arch: Seq<char>, neg: bool)
    requires
        forall|k: int|
            0 <= k < dep.len() ==> (#[trigger] dep[k]) != '[' && dep[k] != ']' && dep[k] != '\n',
        forall|k: int|
            0 <= k < arch.len() ==> (#[trigger] arch[k]) != '[' && arch[k] != ']' && arch[k]
                != '\n',
        arch.len() > 0 ==> arch[0] != '!',
    ensures
        ({
            let mark = if neg {
                seq!['!']
            } else {
                Seq::empty()
            };
            let read = (
                trimmed(dep),
                Some(
                    if neg {
                        ArchView::NegRequire(arch)
                    } else {
                        ArchView::Require(arch)
                    },
                ),
            );
            &&& arch_specification(dep + seq!['['] + mark + arch + seq![']']) == read
            &&& arch_specification(dep + seq![' ', '['] + mark + arch + seq![']']) == read
        }),
{
    let mark = if neg {
        seq!['!']
    } else {
        Seq::<char>::empty()
    };
    lemma_architecture_read_back(dep, arch, neg);
    assert forall|k: int| 0 <= k < dep.push(' ').len() implies (#[trigger] dep.push(' ')[k]) != '['
        && dep.push(' ')[k] != ']' && dep.push(' ')[k] != '\n' by {
        if k < dep.len() {
            assert(dep.push(' ')[k] == dep[k]);
        }
    }
    lemma_architecture_read_back(dep.push(' '), arch, neg);
    lemma_trim_space(dep);
    assert(dep.push(' ') + seq!['['] + mark + arch + seq![']'] =~= dep + seq![' ', '['] + mark
        + arch + seq![']']);
}

/// A dependency written right before an architecture in brackets is read back.
proof fn lemma_architecture_read_back(dep: Seq<char>, arch: Seq<char>, neg: bool)
    requires
        forall|k: int|
            0 <= k < dep.len() ==> (#[trigger] dep[k]) != '[' && dep[k] != ']' && dep[k] != '\n',
        forall|k: int|
            0 <= k < arch.len() ==> (#[trigger] arch[k]) != '[' && arch[k] != ']' && arch[k]
                != '\n',
        arch.len() > 0 ==> arch[0] != '!',
    ensures
        arch_specification(
            dep + seq!['['] + (if neg { seq!['!'] } else { Seq::empty() }) + arch + seq![']'],
        ) == (
            trimmed(dep),
            Some(
                if neg {
                    ArchView::NegRequire(arch)
                } else {
                    ArchView::Require(arch)
                },
            ),
        ),
{
    let mark = if neg {
        seq!['!']
    } else {
        Seq::<char>::empty()
    };
    let t = dep + seq!['['] + mark + arch + seq![']'];
    let o: int = dep.len() as int;
    let a: int = o + 1 + mark.len();
    let c: int = a + arch.len();
    assert forall|k: int| 0 <= k < t.len() implies (#[trigger] t[k]) != '\n' && (t[k] == '['
        ==> k == o) && (t[k] == ']' ==> k == c) by {
        if k < dep.len() {
            assert(t[k] == dep[k]);
        } else if a <= k < c {
            assert(t[k] == arch[k - a]);
        }
    }
    assert(t[o] == '[');
    assert(t[c] == ']');
    assert(bracketed(t, 0, o, c));
    assert(first_bracketed(t, 0, o, c));
    lemma_first_bracketed(t, 0, o, c);
    assert(t.subrange(0, o) =~= dep);
    assert(negated(t, o) == neg) by {
        if !neg && arch.len() > 0 {
            assert(t[o + 1] == arch[0]);
        }
    }
    assert(t.subrange(a, c) =~= arch);
}

/// A dependency without both brackets is taken as it is, for all architectures.
pub proof fn law_no_architecture(t: Seq<char>)
    requires
        (forall|k: int| 0 <= k < t.len() ==> (#[trigger] t[k]) != '[') || (forall|k: int|
            0 <= k < t.len() ==> (#[trigger] t[k]) != ']'),
    ensures
        arch_specification(t) == (t, None::<ArchView>),
{
    assert forall|s: int, o: int, c: int| !#[trigger] bracketed(t, s, o, c) by {
        if bracketed(t, s, o, c) {
            assert(t[o] == '[' && t[c] == ']');
        }
    }
}

/// Whether a specification holds, where `success` tells whether the architecture in hand
/// is one of those that it names.
pub open spec fn arch_matches(spec: ArchView, success: bool) -> bool {
    match spec {
        ArchView::Require(_) => success,
        ArchView::NegRequire(_) => !success,
    }
}

/// A name with an exclamation mark holds for just the architectures for which it does not
/// hold without.
pub proof fn law_negation(name: Seq<char>, success: bool)
    ensures
        arch_matches(ArchView::NegRequire(name), success) == !arch_matches(
            ArchView::Require(name),
            success,
        ),
{
}

/// The name that a specification is about.
pub open spec fn arch_name(spec: ArchView) -> Seq<char> {
    match spec {
        ArchView::Require(a) => a,
        ArchView::NegRequire(a) => a,
    }
}

/// The arguments with which `dpkg-architecture` tells, by its exit status, whether the
/// target architecture is one of those that the specification names.
/// <https://www.debian.org/doc/debian-policy/ch-customized-programs.html#s-arch-spec>
pub fn architecture_query(spec: &ArchSpec, target_arch: &str) -> (r: Vec<String>)
    ensures
        texts(r@) == seq!["-a"@, target_arch@, "-i"@, arch_name(spec@)],
{
    let name = match spec {
        ArchSpec::NegRequire(name) => name,
        ArchSpec::Require(name) => name,
    };
    let mut r: Vec<String> = Vec::new();
    r.push("-a".to_owned());
    r.push(target_arch.to_owned());
    r.push("-i".to_owned());
    r.push(name.clone());
    assert(texts(r@) =~= seq!["-a"@, target_arch@, "-i"@, arch_name(spec@)]);
    r
}

/// Architecture specification strings: whether the specification holds, given what came of
/// asking `dpkg-architecture` for the target architecture among those that it names.
pub fn match_architecture(spec: &ArchSpec, output: &Attempt<bool>) -> (r: CDResult<bool>)
    ensures
        match *output {
            Ok(success) => r == Ok::<bool, CargoDebError>(arch_matches(spec@, success)),
            Err(e) => fails_with(r, ErrorView::CommandFailed(e@, "dpkg-architecture"@)),
        },
{
    match output {
        Ok(success) => match spec {
            ArchSpec::NegRequire(_) => Ok(!*success),
            ArchSpec::Require(_) => Ok(*success),
        },
        Err(e) => Err(CargoDebError::CommandFailed(e.clone(), "dpkg-architecture")),
    }
}

/// What is to be found out for one entry of a dependency list.
#[derive(Debug, Clone)]
pub enum DependencyRequest {
    /// The packages that the binaries need.
    Auto,
    /// Nothing: the entry is a dependency.
    Plain(String),
    /// Whether the specification holds: the entry is a dependency if it does.
    Conditional(String, ArchSpec),
}

/// A request with its texts as sequences.
pub enum RequestView {
    Auto,
    Plain(Seq<char>),
    Conditional(Seq<char>, ArchView),
}

impl View for DependencyRequest {
    type V = RequestView;

    open spec fn view(&self) -> RequestView {
        match self {
            DependencyRequest::Auto => RequestView::Auto,
            DependencyRequest::Plain(d) => RequestView::Plain(d@),
            DependencyRequest::Conditional(d, a) => RequestView::Conditional(d@, a@),
        }
    }
}

/// What was found out about the packages that one binary needs.
#[derive(Debug, Clone)]
pub enum BinaryAnswer {
    Packages(Vec<String>),
    /// They could not be found out, and why not.
    Failed(String),
}

/// What was found out about one binary, with its texts as sequences.
pub enum BinaryView {
    Packages(Seq<Seq<char>>),
    Failed(Seq<char>),
}

impl View for BinaryAnswer {
    type V = BinaryView;

    open spec fn view(&self) -> BinaryView {
        match self {
            BinaryAnswer::Packages(p) => BinaryView::Packages(texts(p@)),
            BinaryAnswer::Failed(e) => BinaryView::Failed(e@),
        }
    }
}

/// What was found out for one entry of a dependency list.
#[derive(Debug)]
pub enum DependencyAnswer {
    /// Nothing was to be found out.
    Nothing,
    /// The packages that the binaries need, for each of them.
    Binaries(Vec<BinaryAnswer>),
    /// Whether `dpkg-architecture` found the target architecture.
    Command(Attempt<bool>),
}

/// An answer with its texts as sequences.
pub enum AnswerView {
    Nothing,
    Binaries(Seq<BinaryView>),
    Command(Result<bool, Seq<char>>),
}

/// The views of what was found out about binaries.
pub open spec fn binary_views(list: Seq<BinaryAnswer>) -> Seq<BinaryView> {
    list.map_values(|b: BinaryAnswer| b@)
}

impl View for DependencyAnswer {
    type V = AnswerView;

    open spec fn view(&self) -> AnswerView {
        match self {
            DependencyAnswer::Nothing => AnswerView::Nothing,
            DependencyAnswer::Binaries(b) => AnswerView::Binaries(binary_views(b@)),
            DependencyAnswer::Command(Ok(b)) => AnswerView::Command(Ok(*b)),
            DependencyAnswer::Command(Err(e)) => AnswerView::Command(Err(e@)),
        }
    }
}

/// The views of a list of requests.
pub open spec fn request_views(list: Seq<DependencyRequest>) -> Seq<RequestView> {
    list.map_values(|q: DependencyRequest| q@)
}

/// The views of a list of answers.
pub open spec fn answer_views(list: Seq<DependencyAnswer>) -> Seq<AnswerView> {
    list.map_values(|a: DependencyAnswer| a@)
}

/// What is to be found out for one entry.
pub open spec fn request_of(entry: Seq<char>) -> RequestView {
    let word = trimmed(entry);
    if word == "$auto"@ {
        RequestView::Auto
    } else {
        match arch_specification(word) {
            (dep, Some(spec)) => RequestView::Conditional(dep, spec),
            (dep, None) => RequestView::Plain(dep),
        }
    }
}

/// What is to be found out for the entries of a dependency list, which commas part.
pub open spec fn requests_of(depends: Seq<char>) -> Seq<RequestView> {
    pieces(depends, ',').map_values(|entry: Seq<char>| request_of(entry))
}

/// The answer is one to the request, where there are `n` binaries.
pub open spec fn answer_fits(q: RequestView, a: AnswerView, n: nat) -> bool {
    match q {
        RequestView::Auto => a matches AnswerView::Binaries(b) && b.len() == n,
        RequestView::Plain(_) => a is Nothing,
        RequestView::Conditional(_, _) => a is Command,
    }
}

/// The packages that binaries need, as far as that was found out.
pub open spec fn needed(list: Seq<BinaryView>) -> Seq<Seq<char>>
    decreases list.len(),
{
    if list.len() == 0 {
        Seq::empty()
    } else {
        needed(list.drop_last()) + (match list.last() {
            BinaryView::Packages(p) => p,
            BinaryView::Failed(_) => Seq::empty(),
        })
    }
}

/// The warning that the packages that a binary needs could not be found out.
pub open spec fn failure_warning(error: Seq<char>, path: Seq<char>) -> NoticeView {
    NoticeView::Warning(error + " (no auto deps for "@ + path + ")"@)
}

/// The warnings for the binaries whose packages could not be found out.
pub open spec fn failure_warnings(list: Seq<BinaryView>, paths: Seq<Seq<char>>) -> Seq<NoticeView>
    decreases list.len(),
{
    if list.len() == 0 {
        Seq::empty()
    } else {
        failure_warnings(list.drop_last(), paths) + (match list.last() {
            BinaryView::Packages(_) => Seq::empty(),
            BinaryView::Failed(e) => seq![failure_warning(e, paths[list.len() - 1])],
        })
    }
}

/// The dependencies that one entry brings.
pub open spec fn chosen(q: RequestView, a: AnswerView) -> Result<Seq<Seq<char>>, ErrorView> {
    match (q, a) {
        (RequestView::Auto, AnswerView::Binaries(b)) => Ok(needed(b)),
        (RequestView::Plain(d), _) => Ok(seq![d]),
        (RequestView::Conditional(d, spec), AnswerView::Command(Ok(b))) => if arch_matches(
            spec,
            b,
        ) {
            Ok(seq![d])
        } else {
            Ok(Seq::empty())
        },
        (RequestView::Conditional(_, _), AnswerView::Command(Err(e))) => Err(
            ErrorView::CommandFailed(e, "dpkg-architecture"@),
        ),
        _ => Ok(Seq::empty()),
    }
}

/// The dependencies that the entries bring, in their order, or why the first that fails does.
pub open spec fn all_chosen(q: Seq<RequestView>, a: Seq<AnswerView>) -> Result<
    Seq<Seq<char>>,
    ErrorView,
>
    decreases q.len(),
{
    if q.len() == 0 {
        Ok(Seq::empty())
    } else {
        match (all_chosen(q.drop_last(), a), chosen(q.last(), a[q.len() - 1])) {
            (Err(e), _) => Err(e),
            (Ok(_), Err(e)) => Err(e),
            (Ok(front), Ok(more)) => Ok(front + more),
        }
    }
}

/// There is an answer to each request, up to the first entry that fails, where there are `n`
/// binaries.
pub open spec fn answers_fit(q: Seq<RequestView>, a: Seq<AnswerView>, n: nat) -> bool {
    forall|i: int|
        0 <= i < q.len() && all_chosen(#[trigger] q.take(i), a) is Ok ==> i < a.len()
            && answer_fits(q[i], a[i], n)
}

/// The warnings that come with an answer.
pub open spec fn warnings_of(a: AnswerView, paths: Seq<Seq<char>>) -> Seq<NoticeView> {
    match a {
        AnswerView::Binaries(b) => failure_warnings(b, paths),
        _ => Seq::empty(),
    }
}

/// The warnings that come with the answers, up to the first entry that fails.
pub open spec fn all_warnings(
    q: Seq<RequestView>,
    a: Seq<AnswerView>,
    paths: Seq<Seq<char>>,
) -> Seq<NoticeView>
    decreases q.len(),
{
    if q.len() == 0 {
        Seq::empty()
    } else {
        all_warnings(q.drop_last(), a, paths) + (if all_chosen(q.drop_last(), a) is Ok {
            warnings_of(a[q.len() - 1], paths)
        } else {
            Seq::empty()
        })
    }
}

/// Nothing counts behind an entry that fails.
proof fn lemma_failed_entry(q: Seq<RequestView>, a: Seq<AnswerView>, paths: Seq<Seq<char>>, n: int)
    requires
        0 <= n <= q.len(),
        all_chosen(q.take(n), a) is Err,
    ensures
        all_chosen(q, a) == all_chosen(q.take(n), a),
        all_warnings(q, a, paths) == all_warnings(q.take(n), a, paths),
    decreases q.len() - n,
{
    if n == q.len() {
        assert(q.take(n) =~= q);
    } else {
        assert(q.take(n + 1).drop_last() =~= q.take(n));
        let front = all_warnings(q.take(n), a, paths);
        assert(front + Seq::empty() =~= front);
        lemma_failed_entry(q, a, paths, n + 1);
    }
}

/// The members of `s`, each where it first occurs.
pub open spec fn distinct(s: Seq<Seq<char>>) -> Seq<Seq<char>>
    decreases s.len(),
{
    if s.len() == 0 {
        Seq::empty()
    } else {
        let d = distinct(s.drop_last());
        if d.contains(s.last()) {
            d
        } else {
            d.push(s.last())
        }
    }
}

/// `distinct` keeps all members and repeats none.
pub proof fn law_distinct(s: Seq<Seq<char>>)
    ensures
        distinct(s).no_duplicates(),
        forall|x: Seq<char>| #[trigger] distinct(s).contains(x) <==> s.contains(x),
    decreases s.len(),
{
    if s.len() > 0 {
        let front = s.drop_last();
        let d = distinct(front);
        law_distinct(front);
        assert forall|x: Seq<char>| #[trigger] distinct(s).contains(x) <==> s.contains(x) by {
            if s.contains(x) {
                let k = choose|k: int| 0 <= k < s.len() && s[k] == x;
                if k < s.len() - 1 {
                    assert(front[k] == x);
                    assert(d.contains(x));
                    let j = choose|j: int| 0 <= j < d.len() && d[j] == x;
                    assert(distinct(s)[j] == x);
                } else if !d.contains(x) {
                    assert(distinct(s)[d.len() as int] == x);
                }
            }
            if distinct(s).contains(x) {
                let k = choose|k: int| 0 <= k < distinct(s).len() && distinct(s)[k] == x;
                if k < d.len() {
                    assert(d[k] == x);
                    assert(d.contains(x));
                    let j = choose|j: int| 0 <= j < front.len() && front[j] == x;
                    assert(s[j] == x);
                } else {
                    assert(s[s.len() - 1] == x);
                }
            }
        }
    }
}

/// Tells what is to be found out for the entries of a dependency list.
pub fn dependency_requests(depends: &str) -> (r: Vec<DependencyRequest>)
    ensures
        request_views(r@) == requests_of(depends@),
{
    let words = split(depends, ',');
    let mut r: Vec<DependencyRequest> = Vec::new();
    let mut i: usize = 0;
    while i < words.len()
        invariant
            i <= words@.len(),
            texts(words@) == pieces(depends@, ','),
            request_views(r@) == requests_of(depends@).take(i as int),
        decreases words@.len() - i,
    {
        let ghost before = request_views(r@);
        assert(texts(words@)[i as int] == words@[i as int]@);
        let word = trim(words[i].as_str());
        let q = if same_text(word.as_str(), "$auto") {
            DependencyRequest::Auto
        } else {
            match get_architecture_specification(word.as_str()) {
                Ok((dep, Some(spec))) => DependencyRequest::Conditional(dep, spec),
                Ok((dep, None)) => DependencyRequest::Plain(dep),
                Err(_) => DependencyRequest::Plain(word),
            }
        };
        r.push(q);
        i += 1;
        assert(q@ == requests_of(depends@)[i - 1]);
        assert(request_views(r@) =~= before.push(q@));
        assert(requests_of(depends@).take(i as int) =~= before.push(q@));
    }
    assert(texts(words@).len() == words@.len());
    assert(requests_of(depends@).take(i as int) =~= requests_of(depends@));
    r
}

/// Adds a dependency, unless it is there already.
fn insert_distinct(deps: &mut Vec<String>, dep: &String, Ghost(seen): Ghost<Seq<Seq<char>>>)
    requires
        texts(old(deps)@) == distinct(seen),
    ensures
        texts(final(deps)@) == distinct(seen.push(dep@)),
{
    assert(seen.push(dep@).drop_last() =~= seen);
    let mut k: usize = 0;
    while k < deps.len()
        invariant
            k <= deps@.len(),
            texts(deps@) == distinct(seen),
            seen.push(dep@).drop_last() == seen,
            forall|j: int| 0 <= j < k ==> (#[trigger] deps@[j])@ != dep@,
        decreases deps@.len() - k,
    {
        if same_text(deps[k].as_str(), dep.as_str()) {
            assert(distinct(seen)[k as int] == dep@);
            return;
        }
        k += 1;
    }
    assert(!distinct(seen).contains(dep@)) by {
        if distinct(seen).contains(dep@) {
            let j = choose|j: int| 0 <= j < distinct(seen).len() && distinct(seen)[j] == dep@;
            assert(texts(deps@)[j] == deps@[j]@);
        }
    }
    let ghost before = texts(deps@);
    deps.push(dep.clone());
    assert(texts(deps@) =~= before.push(dep@));
}

/// Adds the packages that binaries need, and warns of those binaries of which it could not be
/// found out.
fn insert_needed(
    deps: &mut Vec<String>,
    list: &Vec<BinaryAnswer>,
    paths: &Vec<String>,
    listener: &mut Vec<Notice>,
    Ghost(seen): Ghost<Seq<Seq<char>>>,
)
    requires
        texts(old(deps)@) == distinct(seen),
        list@.len() == paths@.len(),
    ensures
        texts(final(deps)@) == distinct(seen + needed(binary_views(list@))),
        notice_views(final(listener)@) == notice_views(old(listener)@) + failure_warnings(
            binary_views(list@),
            texts(paths@),
        ),
{
    let ghost all = binary_views(list@);
    let ghost names = texts(paths@);
    let ghost said = notice_views(listener@);
    let mut i: usize = 0;
    assert(seen + needed(all.take(0)) =~= seen);
    assert(said + failure_warnings(all.take(0), names) =~= said);
    while i < list.len()
        invariant
            i <= list@.len(),
            list@.len() == paths@.len(),
            all == binary_views(list@),
            names == texts(paths@),
            texts(deps@) == distinct(seen + needed(all.take(i as int))),
            notice_views(listener@) == said + failure_warnings(all.take(i as int), names),
        decreases list@.len() - i,
    {
        let ghost sofar = seen + needed(all.take(i as int));
        let ghost warned = failure_warnings(all.take(i as int), names);
        assert(all[i as int] == list@[i as int]@);
        assert(all.take(i + 1).drop_last() =~= all.take(i as int));
        assert(all.take(i + 1).last() == all[i as int]);
        match &list[i] {
            BinaryAnswer::Packages(p) => {
                let mut k: usize = 0;
                assert(sofar + texts(p@).take(0) =~= sofar);
                while k < p.len()
                    invariant
                        k <= p@.len(),
                        texts(deps@) == distinct(sofar + texts(p@).take(k as int)),
                    decreases p@.len() - k,
                {
                    insert_distinct(deps, &p[k], Ghost(sofar + texts(p@).take(k as int)));
                    k += 1;
                    assert(sofar + texts(p@).take(k as int) =~= (sofar + texts(p@).take(
                        k - 1,
                    )).push(p@[k - 1]@));
                }
                assert(texts(p@).take(k as int) =~= texts(p@));
                assert(seen + needed(all.take(i + 1)) =~= sofar + texts(p@));
                assert(said + failure_warnings(all.take(i + 1), names) =~= said + warned);
            },
            BinaryAnswer::Failed(e) => {
                let mut m = e.clone();
                m.append(" (no auto deps for ");
                m.append(paths[i].as_str());
                m.append(")");
                push_notice(listener, Notice::Warning(m));
                assert(names[i as int] == paths@[i as int]@);
                assert(seen + needed(all.take(i + 1)) =~= sofar);
                assert(said + failure_warnings(all.take(i + 1), names) =~= said + warned + seq![
                    failure_warning(e@, names[i as int]),
                ]);
            },
        }
        i += 1;
    }
    assert(all.take(i as int) =~= all);
}

/// Puts the dependencies together from what was found out for the entries of the list.
/// Each stands where it first occurs. `binaries` holds the paths of the binaries, in the order
/// of the answers about them.
pub fn collect_dependencies(
    depends: &str,
    answers: &Vec<DependencyAnswer>,
    binaries: &Vec<String>,
    listener: &mut Vec<Notice>,
) -> (r: CDResult<String>)
    requires
        answers_fit(requests_of(depends@), answer_views(answers@), binaries@.len()),
    ensures
        match all_chosen(requests_of(depends@), answer_views(answers@)) {
            Ok(list) => r matches Ok(deps) && deps@ == joined(distinct(list), ", "@),
            Err(e) => fails_with(r, e),
        },
        notice_views(final(listener)@) == notice_views(old(listener)@) + all_warnings(
            requests_of(depends@),
            answer_views(answers@),
            texts(binaries@),
        ),
{
    let requests = dependency_requests(depends);
    let ghost q = requests_of(depends@);
    let ghost a = answer_views(answers@);
    let ghost paths = texts(binaries@);
    let ghost said = notice_views(listener@);
    let mut deps: Vec<String> = Vec::new();
    let mut i: usize = 0;
    assert(texts(deps@) =~= distinct(all_chosen(q.take(0), a)->Ok_0));
    assert(said + all_warnings(q.take(0), a, paths) =~= said);
    assert(request_views(requests@).len() == requests@.len());
    while i < requests.len()
        invariant
            i <= requests@.len(),
            requests@.len() == q.len(),
            request_views(requests@) == q,
            q == requests_of(depends@),
            said == notice_views(old(listener)@),
            a == answer_views(answers@),
            paths == texts(binaries@),
            answers_fit(q, a, binaries@.len()),
            all_chosen(q.take(i as int), a) is Ok,
            texts(deps@) == distinct(all_chosen(q.take(i as int), a)->Ok_0),
            notice_views(listener@) == said + all_warnings(q.take(i as int), a, paths),
        decreases requests@.len() - i,
    {
        let ghost sofar = all_chosen(q.take(i as int), a)->Ok_0;
        let ghost warned = all_warnings(q.take(i as int), a, paths);
        assert(q[i as int] == requests@[i as int]@);
        assert(i < a.len() && answer_fits(q[i as int], a[i as int], binaries@.len()));
        assert(a[i as int] == answers@[i as int]@);
        assert(q.take(i + 1).drop_last() =~= q.take(i as int));
        assert(q.take(i + 1).last() == q[i as int]);
        assert(all_warnings(q.take(i + 1), a, paths) == warned + warnings_of(a[i as int], paths));
        match (&requests[i], &answers[i]) {
            (DependencyRequest::Auto, DependencyAnswer::Binaries(b)) => {
                insert_needed(&mut deps, b, binaries, listener, Ghost(sofar));
                assert(said + (warned + failure_warnings(binary_views(b@), paths)) =~= said
                    + warned + failure_warnings(binary_views(b@), paths));
            },
            (DependencyRequest::Plain(dep), _) => {
                insert_distinct(&mut deps, dep, Ghost(sofar));
                assert(sofar + seq![dep@] =~= sofar.push(dep@));
                assert(warned + Seq::empty() =~= warned);
            },
            (DependencyRequest::Conditional(dep, spec), DependencyAnswer::Command(output)) => {
                assert(warned + Seq::empty() =~= warned);
                match match_architecture(spec, output) {
                    Ok(true) => {
                        insert_distinct(&mut deps, dep, Ghost(sofar));
                        assert(sofar + seq![dep@] =~= sofar.push(dep@));
                    },
                    Ok(false) => {
                        assert(sofar + Seq::empty() =~= sofar);
                    },
                    Err(e) => {
                        proof {
                            lemma_failed_entry(q, a, paths, i + 1);
                        }
                        return Err(e);
                    },
                }
            },
            _ => {},
        }
        i += 1;
    }
    assert(q.take(i as int) =~= q);
    Ok(join_texts(&deps, ", "))
}

} // verus!
