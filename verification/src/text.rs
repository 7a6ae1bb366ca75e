//! Text as sequences of characters: searching, trimming, cutting into lines and
//! pieces, and writing numbers.

use vstd::prelude::*;
use vstd::string::*;
use vstd::utf8::{encode_scalar, encode_utf8};

verus! {

/// `String::push` of the standard library appends the given character to the end
/// of the string.
pub assume_specification[ String::push ](s: &mut String, c: char)
    ensures
        final(s)@ == old(s)@.push(c),
;

/// The characters with the Unicode property `White_Space`.
pub open spec fn white_space(c: char) -> bool {
    let n = c as u32;
    ||| 0x09 <= n <= 0x0d
    ||| n == 0x20
    ||| n == 0x85
    ||| n == 0xa0
    ||| n == 0x1680
    ||| 0x2000 <= n <= 0x200a
    ||| n == 0x2028
    ||| n == 0x2029
    ||| n == 0x202f
    ||| n == 0x205f
    ||| n == 0x3000
}

/// `char::is_whitespace` of the standard library tells whether the character has
/// the Unicode property `White_Space`, whose members the claim lists.
pub assume_specification[ char::is_whitespace ](c: char) -> (r: bool)
    ensures
        r == white_space(c),
;

/// The texts that a list of strings holds.
pub open spec fn texts(list: Seq<String>) -> Seq<Seq<char>> {
    list.map_values(|s: String| s@)
}

/// The text of an optional string.
pub open spec fn opt_text(s: Option<String>) -> Option<Seq<char>> {
    match s {
        Some(t) => Some(t@),
        None => None,
    }
}

/// The first position of `c` in `s` at or after `i`; the length where there is none.
pub open spec fn index_from(s: Seq<char>, c: char, i: int) -> int
    decreases s.len() - i,
{
    if i >= s.len() {
        s.len() as int
    } else if s[i] == c {
        i
    } else {
        index_from(s, c, i + 1)
    }
}

/// `needle` stands somewhere in `s`.
pub open spec fn occurs(s: Seq<char>, needle: Seq<char>) -> bool {
    exists|i: int|
        0 <= i <= s.len() - needle.len() && #[trigger] s.subrange(i, i + needle.len()) == needle
}

/// `s` without the white space at its beginning.
pub open spec fn trim_start(s: Seq<char>) -> Seq<char>
    decreases s.len(),
{
    if s.len() > 0 && white_space(s[0]) {
        trim_start(s.skip(1))
    } else {
        s
    }
}

/// `s` without the white space at its end.
pub open spec fn trim_end(s: Seq<char>) -> Seq<char>
    decreases s.len(),
{
    if s.len() > 0 && white_space(s.last()) {
        trim_end(s.drop_last())
    } else {
        s
    }
}

/// `s` without the white space at both ends.
pub open spec fn trimmed(s: Seq<char>) -> Seq<char> {
    trim_end(trim_start(s))
}

/// The pieces of `s` between the occurrences of `c`; one more than there are of `c`.
pub open spec fn pieces(s: Seq<char>, c: char) -> Seq<Seq<char>>
    decreases s.len(),
{
    let n = index_from(s, c, 0);
    if n >= s.len() {
        seq![s]
    } else {
        proof {
            lemma_index_from(s, c, 0);
        }
        seq![s.subrange(0, n)] + pieces(s.skip(n + 1), c)
    }
}

/// A line without the carriage return at its end, where there is one.
pub open spec fn without_cr(s: Seq<char>) -> Seq<char> {
    if s.len() > 0 && s.last() == '\r' {
        s.drop_last()
    } else {
        s
    }
}

/// The lines of `s`. A line ends in a line feed, or in a carriage return and a line
/// feed; the last one may go without.
pub open spec fn lines(s: Seq<char>) -> Seq<Seq<char>>
    decreases s.len(),
{
    let n = index_from(s, '\n', 0);
    if s.len() == 0 {
        Seq::empty()
    } else if n >= s.len() {
        seq![s]
    } else {
        proof {
            lemma_index_from(s, '\n', 0);
        }
        seq![without_cr(s.subrange(0, n))] + lines(s.skip(n + 1))
    }
}

/// The texts of `parts`, each followed by the next with `sep` between them.
pub open spec fn joined(parts: Seq<Seq<char>>, sep: Seq<char>) -> Seq<char>
    decreases parts.len(),
{
    if parts.len() == 0 {
        Seq::empty()
    } else if parts.len() == 1 {
        parts[0]
    } else {
        joined(parts.drop_last(), sep) + sep + parts.last()
    }
}

/// The decimal digit of a number below ten.
pub open spec fn digit(d: nat) -> char {
    (48 + d) as char
}

/// `n` in decimal notation.
pub open spec fn decimal(n: nat) -> Seq<char>
    decreases n,
{
    if n < 10 {
        seq![digit(n)]
    } else {
        decimal(n / 10).push(digit(n % 10))
    }
}

/// The lower-case hexadecimal digit of a number below sixteen.
pub open spec fn hex_digit(d: nat) -> char {
    if d < 10 {
        (48 + d) as char
    } else {
        (87 + d) as char
    }
}

/// Each byte as two lower-case hexadecimal digits.
pub open spec fn hex(bytes: Seq<u8>) -> Seq<char>
    decreases bytes.len(),
{
    if bytes.len() == 0 {
        Seq::empty()
    } else {
        hex(bytes.drop_last()) + seq![
            hex_digit(bytes.last() as nat / 16),
            hex_digit(bytes.last() as nat % 16),
        ]
    }
}

/// Where `index_from` stands: nothing between the start and it is `c`.
pub proof fn lemma_index_from(s: Seq<char>, c: char, i: int)
    requires
        0 <= i <= s.len(),
    ensures
        i <= index_from(s, c, i) <= s.len(),
        index_from(s, c, i) < s.len() ==> s[index_from(s, c, i)] == c,
        forall|k: int| i <= k < index_from(s, c, i) ==> s[k] != c,
    decreases s.len() - i,
{
    if i < s.len() && s[i] != c {
        lemma_index_from(s, c, i + 1);
    }
}

/// What makes a position the one that `index_from` names.
pub proof fn lemma_index_from_is(s: Seq<char>, c: char, i: int, n: int)
    requires
        0 <= i <= n <= s.len(),
        n < s.len() ==> s[n] == c,
        forall|k: int| i <= k < n ==> s[k] != c,
    ensures
        index_from(s, c, i) == n,
    decreases n - i,
{
    if i < n {
        lemma_index_from_is(s, c, i + 1, n);
    }
}

/// The bytes of two texts behind one another are those of the one behind those of the
/// other.
pub proof fn lemma_encode_concat(a: Seq<char>, b: Seq<char>)
    ensures
        encode_utf8(a + b) == encode_utf8(a) + encode_utf8(b),
    decreases a.len(),
{
    if a.len() == 0 {
        assert(a + b =~= b);
        assert(encode_utf8(a) + encode_utf8(b) =~= encode_utf8(b));
    } else {
        assert((a + b).drop_first() =~= a.drop_first() + b);
        lemma_encode_concat(a.drop_first(), b);
        assert(encode_utf8(a + b) =~= encode_scalar(a[0] as u32) + (encode_utf8(a.drop_first())
            + encode_utf8(b)));
        assert(encode_utf8(a + b) =~= encode_utf8(a) + encode_utf8(b));
    }
}

/// Appends the bytes of a text.
pub fn push_bytes(out: &mut Vec<u8>, s: &str)
    ensures
        final(out)@ == old(out)@ + encode_utf8(s@),
{
    let ghost before = out@;
    out.extend_from_slice(s.as_bytes());
    assert(out@ =~= before + encode_utf8(s@));
}

/// The characters of a string.
pub fn chars_of(s: &str) -> (r: Vec<char>)
    ensures
        r@ == s@,
{
    let mut r: Vec<char> = Vec::new();
    for c in it: s.chars()
        invariant
            r@ == s@.take(it.index() as int),
            it.seq() == s@,
    {
        r.push(c);
    }
    r
}

/// The string of the characters from `from` up to `to`.
pub fn text_of(v: &[char], from: usize, to: usize) -> (r: String)
    requires
        from <= to <= v@.len(),
    ensures
        r@ == v@.subrange(from as int, to as int),
{
    let mut r = String::new();
    let mut i: usize = from;
    while i < to
        invariant
            from <= i <= to <= v@.len(),
            r@ == v@.subrange(from as int, i as int),
        decreases to - i,
    {
        r.push(v[i]);
        i += 1;
        assert(v@.subrange(from as int, i as int) =~= v@.subrange(from as int, i - 1).push(
            v@[i - 1],
        ));
    }
    r
}

/// Whether `p` stands in `v` at position `i`.
pub fn matches_at(v: &[char], i: usize, p: &[char]) -> (r: bool)
    ensures
        r == (i + p@.len() <= v@.len() && v@.subrange(i as int, i + p@.len()) == p@),
{
    if i > v.len() || p.len() > v.len() - i {
        return false;
    }
    let mut k: usize = 0;
    while k < p.len()
        invariant
            i + p@.len() <= v@.len() == v.len(),
            k <= p@.len(),
            forall|j: int| 0 <= j < k ==> v@[i + j] == p@[j],
        decreases p.len() - k,
    {
        if v[i + k] != p[k] {
            assert(v@.subrange(i as int, i + p@.len())[k as int] != p@[k as int]);
            return false;
        }
        k += 1;
    }
    assert(v@.subrange(i as int, i + p@.len()) =~= p@);
    true
}

/// Whether two strings hold the same text.
pub fn same_text(a: &str, b: &str) -> (r: bool)
    ensures
        r == (a@ == b@),
{
    let x = chars_of(a);
    let y = chars_of(b);
    if x.len() != y.len() {
        return false;
    }
    assert(x@.subrange(0, x@.len() as int) =~= x@);
    matches_at(x.as_slice(), 0, y.as_slice())
}

/// Whether `s` begins with `p`.
pub fn starts_with(s: &str, p: &str) -> (r: bool)
    ensures
        r == p@.is_prefix_of(s@),
{
    let v = chars_of(s);
    let w = chars_of(p);
    matches_at(v.as_slice(), 0, w.as_slice())
}

/// Whether `s` ends in `p`.
pub fn ends_with(s: &str, p: &str) -> (r: bool)
    ensures
        r == p@.is_suffix_of(s@),
{
    let v = chars_of(s);
    let w = chars_of(p);
    if w.len() > v.len() {
        return false;
    }
    matches_at(v.as_slice(), v.len() - w.len(), w.as_slice())
}

/// Whether the last character of `s` is `c`.
pub fn ends_with_char(s: &str, c: char) -> (r: bool)
    ensures
        r == (s@.len() > 0 && s@.last() == c),
{
    let v = chars_of(s);
    v.len() > 0 && v[v.len() - 1] == c
}

/// Whether `needle` stands somewhere in `s`.
pub fn contains(s: &str, needle: &str) -> (r: bool)
    ensures
        r == occurs(s@, needle@),
{
    let v = chars_of(s);
    let w = chars_of(needle);
    if w.len() > v.len() {
        return false;
    }
    let mut i: usize = 0;
    while i <= v.len() - w.len()
        invariant
            v@ == s@,
            w@ == needle@,
            w@.len() <= v@.len(),
            i <= v@.len() - w@.len() + 1,
            forall|k: int| 0 <= k < i ==> #[trigger] s@.subrange(k, k + w@.len()) != w@,
        decreases v@.len() + 1 - i,
    {
        if matches_at(v.as_slice(), i, w.as_slice()) {
            return true;
        }
        if i == v.len() - w.len() {
            return false;
        }
        i += 1;
    }
    false
}

/// `s` without `suffix`, where `s` ends in it; `s` itself elsewhere.
pub open spec fn without_suffix(s: Seq<char>, suffix: Seq<char>) -> Seq<char> {
    if suffix.is_suffix_of(s) {
        s.subrange(0, s.len() - suffix.len())
    } else {
        s
    }
}

/// `s` without `suffix`, where `s` ends in it; `s` itself elsewhere.
pub fn strip_suffix(s: &str, suffix: &str) -> (r: String)
    ensures
        r@ == without_suffix(s@, suffix@),
{
    let v = chars_of(s);
    let w = chars_of(suffix);
    if w.len() <= v.len() && matches_at(v.as_slice(), v.len() - w.len(), w.as_slice()) {
        text_of(v.as_slice(), 0, v.len() - w.len())
    } else {
        s.to_owned()
    }
}

/// `s` without the white space at both ends.
pub fn trim(s: &str) -> (r: String)
    ensures
        r@ == trimmed(s@),
{
    let v = chars_of(s);
    let mut a: usize = 0;
    assert(s@.skip(0) =~= s@);
    while a < v.len() && v[a].is_whitespace()
        invariant
            v@ == s@,
            a <= v@.len(),
            trim_start(s@.skip(a as int)) == trim_start(s@),
        decreases v@.len() - a,
    {
        assert(s@.skip(a as int).skip(1) =~= s@.skip(a + 1));
        a += 1;
    }
    assert(trim_start(s@) == s@.skip(a as int));
    let mut b: usize = v.len();
    assert(s@.subrange(a as int, b as int) =~= s@.skip(a as int));
    while a < b && v[b - 1].is_whitespace()
        invariant
            v@ == s@,
            a <= b <= v@.len(),
            trim_end(s@.subrange(a as int, b as int)) == trimmed(s@),
        decreases b,
    {
        assert(s@.subrange(a as int, b as int).drop_last() =~= s@.subrange(a as int, b - 1));
        b -= 1;
    }
    text_of(v.as_slice(), a, b)
}

/// A space at the end of a text is trimmed away.
pub proof fn lemma_trim_space(s: Seq<char>)
    ensures
        trimmed(s.push(' ')) == trimmed(s),
    decreases s.len(),
{
    let t = s.push(' ');
    assert(white_space(' '));
    if s.len() == 0 {
        assert(t.skip(1) =~= Seq::empty());
        assert(trim_start(t.skip(1)) =~= Seq::empty());
        assert(s =~= Seq::empty());
    } else if white_space(s[0]) {
        lemma_trim_space(s.skip(1));
        assert(t.skip(1) =~= s.skip(1).push(' '));
    } else {
        assert(t.drop_last() =~= s);
    }
}

/// The first position of `c` at or after `i`; the length where there is none.
pub fn find_from(v: &[char], c: char, i: usize) -> (r: usize)
    requires
        i <= v@.len(),
    ensures
        r == index_from(v@, c, i as int),
        i <= r <= v@.len(),
        r < v@.len() ==> v@[r as int] == c,
        forall|k: int| i <= k < r ==> v@[k] != c,
{
    let mut n: usize = i;
    while n < v.len() && v[n] != c
        invariant
            i <= n <= v@.len(),
            forall|k: int| i <= k < n ==> v@[k] != c,
        decreases v@.len() - n,
    {
        n += 1;
    }
    proof {
        lemma_index_from_is(v@, c, i as int, n as int);
    }
    n
}

/// A search in what is left of a sequence finds what a search in the whole finds.
pub proof fn lemma_index_from_skip(s: Seq<char>, c: char, i: int)
    requires
        0 <= i <= s.len(),
    ensures
        index_from(s.skip(i), c, 0) == index_from(s, c, i) - i,
{
    lemma_index_from(s, c, i);
    lemma_index_from_is(s.skip(i), c, 0, index_from(s, c, i) - i);
}

/// The pieces of `s` between the occurrences of `c`.
pub fn split(s: &str, c: char) -> (r: Vec<String>)
    ensures
        texts(r@) == pieces(s@, c),
{
    let v = chars_of(s);
    let mut r: Vec<String> = Vec::new();
    let mut i: usize = 0;
    assert(s@.skip(0) =~= s@);
    assert(texts(r@) + pieces(s@, c) =~= pieces(s@, c));
    loop
        invariant
            v@ == s@,
            i <= v@.len(),
            texts(r@) + pieces(s@.skip(i as int), c) == pieces(s@, c),
        decreases v@.len() - i,
    {
        let n: usize = find_from(v.as_slice(), c, i);
        let piece = text_of(v.as_slice(), i, n);
        let ghost before = texts(r@);
        proof {
            lemma_index_from_skip(s@, c, i as int);
            assert(s@.skip(i as int).subrange(0, n - i) =~= s@.subrange(i as int, n as int));
        }
        r.push(piece);
        assert(texts(r@) =~= before.push(piece@));
        if n == v.len() {
            assert(s@.skip(i as int) =~= s@.subrange(i as int, n as int));
            assert(texts(r@) =~= pieces(s@, c));
            return r;
        }
        assert(s@.skip(i as int).skip(n - i + 1) =~= s@.skip(n + 1));
        assert(texts(r@) + pieces(s@.skip(n + 1), c) =~= before + (seq![piece@] + pieces(
            s@.skip(n + 1),
            c,
        )));
        i = n + 1;
    }
}

/// The lines of `s`.
pub fn split_lines(s: &str) -> (r: Vec<String>)
    ensures
        texts(r@) == lines(s@),
{
    let v = chars_of(s);
    let mut r: Vec<String> = Vec::new();
    let mut i: usize = 0;
    assert(s@.skip(0) =~= s@);
    assert(texts(r@) + lines(s@) =~= lines(s@));
    while i < v.len()
        invariant
            v@ == s@,
            i <= v@.len(),
            texts(r@) + lines(s@.skip(i as int)) == lines(s@),
        decreases v@.len() - i,
    {
        let n: usize = find_from(v.as_slice(), '\n', i);
        let ghost before = texts(r@);
        proof {
            lemma_index_from_skip(s@, '\n', i as int);
            assert(s@.skip(i as int).subrange(0, n - i) =~= s@.subrange(i as int, n as int));
        }
        if n == v.len() {
            let last = text_of(v.as_slice(), i, n);
            assert(s@.skip(i as int) =~= last@);
            r.push(last);
            assert(texts(r@) =~= before.push(last@));
            assert(texts(r@) =~= lines(s@));
            return r;
        }
        let end: usize = if n > i && v[n - 1] == '\r' {
            n - 1
        } else {
            n
        };
        let line = text_of(v.as_slice(), i, end);
        assert(line@ =~= without_cr(s@.subrange(i as int, n as int)));
        r.push(line);
        assert(texts(r@) =~= before.push(line@));
        assert(s@.skip(i as int).skip(n - i + 1) =~= s@.skip(n + 1));
        assert(texts(r@) + lines(s@.skip(n + 1)) =~= before + (seq![line@] + lines(
            s@.skip(n + 1),
        )));
        i = n + 1;
    }
    assert(s@.skip(i as int) =~= Seq::empty());
    assert(texts(r@) =~= lines(s@));
    r
}

/// The strings of `parts` with `sep` between them.
pub fn join_texts(parts: &Vec<String>, sep: &str) -> (r: String)
    ensures
        r@ == joined(texts(parts@), sep@),
{
    let mut r = String::new();
    let mut i: usize = 0;
    while i < parts.len()
        invariant
            i <= parts@.len(),
            r@ == joined(texts(parts@).take(i as int), sep@),
        decreases parts@.len() - i,
    {
        let ghost all = texts(parts@);
        if i > 0 {
            r.append(sep);
        }
        r.append(parts[i].as_str());
        assert(all.take(i + 1).drop_last() =~= all.take(i as int));
        assert(i == 0 ==> r@ =~= all[0]);
        i += 1;
    }
    assert(texts(parts@).take(i as int) =~= texts(parts@));
    r
}

/// `n` in decimal notation.
pub fn decimal_text(n: u64) -> (r: String)
    ensures
        r@ == decimal(n as nat),
    decreases n,
{
    let d: u8 = (n % 10) as u8;
    let mut r = if n < 10 {
        String::new()
    } else {
        decimal_text(n / 10)
    };
    r.push((48 + d) as char);
    assert(n < 10 ==> r@ =~= seq![digit(n as nat)]);
    r
}

/// Writes each byte as two lower-case hexadecimal digits.
pub fn hex_text(bytes: &[u8]) -> (r: String)
    ensures
        r@ == hex(bytes@),
{
    let mut r = String::new();
    let mut i: usize = 0;
    while i < bytes.len()
        invariant
            i <= bytes@.len(),
            r@ == hex(bytes@.take(i as int)),
        decreases bytes@.len() - i,
    {
        let b: u8 = bytes[i];
        let ghost before = r@;
        r.push(hex_char(b / 16));
        r.push(hex_char(b % 16));
        i += 1;
        assert(bytes@.take(i as int).drop_last() =~= bytes@.take(i - 1));
        assert(r@ =~= before + seq![hex_digit(b as nat / 16), hex_digit(b as nat % 16)]);
    }
    assert(bytes@.take(i as int) =~= bytes@);
    r
}

/// The lower-case hexadecimal digit of a number below sixteen.
fn hex_char(d: u8) -> (r: char)
    requires
        d < 16,
    ensures
        r == hex_digit(d as nat),
{
    if d < 10 {
        (48 + d) as char
    } else {
        (87 + d) as char
    }
}

} // verus!
