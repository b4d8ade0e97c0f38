//! Character sequences: the few operations on text that the parsers and reports rest on.
//!
//! Specifications speak of `Seq<char>`. Executable parsers work on `&[char]`, so that an index is
//! a character position.

use vstd::prelude::*;
use vstd::slice::slice_subrange;

verus! {

/// `String::push` appends one character at the end of the string and changes nothing else.
pub assume_specification[ String::push ](s: &mut String, c: char)
    ensures
        final(s)@ == old(s)@.push(c),
;

/// The debug form of a text: what `{:?}` prints for it.
pub uninterp spec fn quoted(s: Seq<char>) -> Seq<char>;

/// `format!` with `{:?}` on a `str`. The escaping rules are not stated; the result depends on the
/// characters of `s` alone.
#[verifier::external_body]
pub(crate) fn quote(s: &str) -> (r: String)
    ensures
        r@ == quoted(s@),
{
    format!("{:?}", s)
}

/// The characters of `s`, in order.
pub fn chars_of(s: &str) -> (v: Vec<char>)
    ensures
        v@ == s@,
{
    let mut v: Vec<char> = Vec::new();
    for c in it: s.chars()
        invariant
            v@ == it.seq().take(it.index()),
            it.seq() == s@,
    {
        v.push(c);
    }
    v
}

/// The string whose characters are `s`.
pub fn string_of(s: &[char]) -> (r: String)
    ensures
        r@ == s@,
{
    let mut r = String::new();
    let mut i: usize = 0;
    while i < s.len()
        invariant
            i <= s.len(),
            r@ == s@.take(i as int),
        decreases s.len() - i,
    {
        r.push(s[i]);
        i += 1;
        assert(s@.take(i as int) =~= s@.take(i - 1).push(s@[i - 1]));
    }
    assert(s@.take(i as int) =~= s@);
    r
}

/// A fresh string with the characters of `s`.
pub fn owned(s: &str) -> (r: String)
    ensures
        r@ == s@,
{
    s.to_string()
}

/// Whether two character sequences are equal.
pub fn same(a: &[char], b: &[char]) -> (r: bool)
    ensures
        r == (a@ == b@),
{
    if a.len() != b.len() {
        return false;
    }
    let mut i: usize = 0;
    while i < a.len()
        invariant
            i <= a.len(),
            a.len() == b.len(),
            forall|j: int| 0 <= j < i ==> a@[j] == b@[j],
        decreases a.len() - i,
    {
        if a[i] != b[i] {
            return false;
        }
        i += 1;
    }
    assert(a@ =~= b@);
    true
}

/// Whether `a` spells the text `b`.
pub fn spells(a: &[char], b: &str) -> (r: bool)
    ensures
        r == (a@ == b@),
{
    let cs = chars_of(b);
    same(a, cs.as_slice())
}

/// Whether two strings hold the same text.
pub fn same_text(a: &str, b: &str) -> (r: bool)
    ensures
        r == (a@ == b@),
{
    let cs = chars_of(a);
    spells(cs.as_slice(), b)
}

// ---------------------------------------------------------------- prefixes

/// `s` starts with `p`.
pub open spec fn starts(s: Seq<char>, p: Seq<char>) -> bool {
    p.len() <= s.len() && s.take(p.len() as int) == p
}

/// What follows the prefix `p`, where `s` starts with it.
pub open spec fn after_prefix(s: Seq<char>, p: Seq<char>) -> Option<Seq<char>> {
    if starts(s, p) {
        Some(s.skip(p.len() as int))
    } else {
        None
    }
}

/// Removes the prefix `p`, where `s` starts with it.
pub fn strip_prefix<'a>(s: &'a [char], p: &str) -> (r: Option<&'a [char]>)
    ensures
        match r {
            Some(t) => after_prefix(s@, p@) == Some(t@),
            None => after_prefix(s@, p@) is None,
        },
{
    let cs = chars_of(p);
    if cs.len() > s.len() {
        return None;
    }
    let head = slice_subrange(s, 0, cs.len());
    assert(head@ =~= s@.take(p@.len() as int));
    if same(head, cs.as_slice()) {
        let t = slice_subrange(s, cs.len(), s.len());
        assert(t@ =~= s@.skip(p@.len() as int));
        Some(t)
    } else {
        None
    }
}

/// `s` without any number of leading `0x`.
pub open spec fn without_0x(s: Seq<char>) -> Seq<char>
    decreases s.len(),
{
    if s.len() >= 2 && s[0] == '0' && s[1] == 'x' {
        without_0x(s.skip(2))
    } else {
        s
    }
}

/// Removes every leading `0x`.
pub fn strip_0x(s: &[char]) -> (r: &[char])
    ensures
        r@ == without_0x(s@),
{
    let mut i: usize = 0;
    assert(s@.skip(0) =~= s@);
    while s.len() - i >= 2 && s[i] == '0' && s[i + 1] == 'x'
        invariant
            i <= s.len(),
            without_0x(s@) == without_0x(s@.skip(i as int)),
        decreases s.len() - i,
    {
        assert(s@.skip(i as int).skip(2) =~= s@.skip(i + 2));
        i += 2;
    }
    let r = slice_subrange(s, i, s.len());
    assert(r@ =~= s@.skip(i as int));
    r
}

// ---------------------------------------------------------------- searching and cutting

/// The position of the first `c` in `s`, or the length of `s` where there is none.
pub open spec fn find(s: Seq<char>, c: char) -> nat
    decreases s.len(),
{
    if s.len() == 0 || s[0] == c {
        0
    } else {
        1 + find(s.skip(1), c)
    }
}

/// `find` is the first position that holds `c`.
pub proof fn lemma_find(s: Seq<char>, c: char)
    ensures
        find(s, c) <= s.len(),
        find(s, c) < s.len() ==> s[find(s, c) as int] == c,
        forall|i: int| 0 <= i < find(s, c) ==> s[i] != c,
    decreases s.len(),
{
    if s.len() == 0 || s[0] == c {
    } else {
        lemma_find(s.skip(1), c);
        assert forall|i: int| 0 <= i < find(s, c) implies s[i] != c by {
            if i > 0 {
                assert(s.skip(1)[i - 1] == s[i]);
            }
        }
    }
}

/// A position that holds `c`, with no `c` before it, is the one that `find` gives.
pub proof fn lemma_find_is(s: Seq<char>, c: char, n: int)
    requires
        0 <= n <= s.len(),
        n < s.len() ==> s[n] == c,
        forall|i: int| 0 <= i < n ==> s[i] != c,
    ensures
        find(s, c) == n,
{
    lemma_find(s, c);
    let m = find(s, c) as int;
    if m < n {
        assert(s[m] == c);
    } else if n < m {
        assert(s[n] == c);
    }
}

/// The position of the first `c`, or the length.
pub fn position(s: &[char], c: char) -> (n: usize)
    ensures
        n == find(s@, c),
        n <= s.len(),
{
    let mut i: usize = 0;
    while i < s.len() && s[i] != c
        invariant
            i <= s.len(),
            forall|j: int| 0 <= j < i ==> s@[j] != c,
        decreases s.len() - i,
    {
        i += 1;
    }
    proof {
        lemma_find_is(s@, c, i as int);
    }
    i
}

/// The two sides of the first `c`, where there is one.
pub open spec fn cut_at(s: Seq<char>, c: char) -> Option<(Seq<char>, Seq<char>)> {
    let n = find(s, c) as int;
    if n < s.len() {
        Some((s.take(n), s.skip(n + 1)))
    } else {
        None
    }
}

/// Cutting at the `c` that follows a text without one gives the text and what follows.
pub proof fn lemma_cut_at(a: Seq<char>, c: char, b: Seq<char>)
    requires
        forall|i: int| 0 <= i < a.len() ==> a[i] != c,
    ensures
        cut_at(a + seq![c] + b, c) == Some((a, b)),
{
    let s = a + seq![c] + b;
    lemma_find_is(s, c, a.len() as int);
    assert(s.take(a.len() as int) =~= a);
    assert(s.skip(a.len() as int + 1) =~= b);
}

/// Splits at the first `c`.
pub fn split_once<'a>(s: &'a [char], c: char) -> (r: Option<(&'a [char], &'a [char])>)
    ensures
        match r {
            Some((a, b)) => cut_at(s@, c) == Some((a@, b@)),
            None => cut_at(s@, c) is None,
        },
{
    let n = position(s, c);
    if n < s.len() {
        let a = slice_subrange(s, 0, n);
        let b = slice_subrange(s, n + 1, s.len());
        assert(a@ =~= s@.take(n as int));
        assert(b@ =~= s@.skip(n + 1));
        Some((a, b))
    } else {
        None
    }
}

/// The contents of a list of character vectors.
pub open spec fn texts(v: Seq<Vec<char>>) -> Seq<Seq<char>> {
    Seq::new(v.len(), |i: int| v[i]@)
}

/// A copy of `s`.
pub fn copied(s: &[char]) -> (v: Vec<char>)
    ensures
        v@ == s@,
{
    let mut v: Vec<char> = Vec::new();
    let mut i: usize = 0;
    while i < s.len()
        invariant
            i <= s.len(),
            v@ == s@.take(i as int),
        decreases s.len() - i,
    {
        v.push(s[i]);
        i += 1;
        assert(s@.take(i as int) =~= s@.take(i - 1).push(s@[i - 1]));
    }
    assert(s@.take(i as int) =~= s@);
    v
}

/// The pieces of `s` between the occurrences of `c`: one more than there are occurrences.
pub open spec fn pieces(s: Seq<char>, c: char) -> Seq<Seq<char>>
    decreases s.len(),
{
    let n = find(s, c) as int;
    if n < s.len() {
        seq![s.take(n)] + pieces(s.skip(n + 1), c)
    } else {
        seq![s]
    }
}

/// The pieces of two texts with a `c` between them are those of both.
pub proof fn lemma_pieces_add(a: Seq<char>, b: Seq<char>, c: char)
    ensures
        pieces(a + seq![c] + b, c) == pieces(a, c) + pieces(b, c),
    decreases a.len(),
{
    lemma_find(a, c);
    let n = find(a, c) as int;
    let s = a + seq![c] + b;
    lemma_find_is(s, c, n);
    assert(s.take(n) =~= a.take(n));
    if n < a.len() {
        let rest = a.skip(n + 1);
        assert(s.skip(n + 1) =~= rest + seq![c] + b);
        lemma_pieces_add(rest, b, c);
        assert(seq![a.take(n)] + (pieces(rest, c) + pieces(b, c)) =~= pieces(a, c) + pieces(b, c));
    } else {
        assert(a.take(n) =~= a);
        assert(s.skip(n + 1) =~= b);
    }
}

/// Splits at every `c`.
pub fn split(s: &[char], c: char) -> (v: Vec<Vec<char>>)
    ensures
        texts(v@) == pieces(s@, c),
{
    let mut v: Vec<Vec<char>> = Vec::new();
    let mut rest = s;
    loop
        invariant
            pieces(s@, c) == texts(v@) + pieces(rest@, c),
        ensures
            pieces(s@, c) == texts(v@) + seq![rest@],
        decreases rest.len(),
    {
        let ghost before = v@;
        match split_once(rest, c) {
            Some((a, b)) => {
                let piece = copied(a);
                v.push(piece);
                assert(texts(v@) =~= texts(before).push(a@));
                assert(texts(before) + (seq![a@] + pieces(b@, c)) =~= texts(v@) + pieces(b@, c));
                proof {
                    lemma_find(rest@, c);
                }
                rest = b;
            },
            None => {
                proof {
                    lemma_find(rest@, c);
                }
                break;
            },
        }
    }
    let ghost before = v@;
    let last = copied(rest);
    v.push(last);
    assert(texts(v@) =~= texts(before) + seq![rest@]);
    v
}

// ---------------------------------------------------------------- white space

/// The characters that Unicode gives the property White_Space.
pub open spec fn white(c: char) -> bool {
    ||| '\u{9}' <= c <= '\u{d}'
    ||| c == '\u{20}'
    ||| c == '\u{85}'
    ||| c == '\u{a0}'
    ||| c == '\u{1680}'
    ||| '\u{2000}' <= c <= '\u{200a}'
    ||| c == '\u{2028}'
    ||| c == '\u{2029}'
    ||| c == '\u{202f}'
    ||| c == '\u{205f}'
    ||| c == '\u{3000}'
}

/// Whether `c` is white space.
pub fn is_white(c: char) -> (r: bool)
    ensures
        r == white(c),
{
    ('\u{9}' <= c && c <= '\u{d}') || c == '\u{20}' || c == '\u{85}' || c == '\u{a0}' || c
        == '\u{1680}' || ('\u{2000}' <= c && c <= '\u{200a}') || c == '\u{2028}' || c == '\u{2029}'
        || c == '\u{202f}' || c == '\u{205f}' || c == '\u{3000}'
}

/// `s` from its first character that is not white space.
pub open spec fn trimmed_start(s: Seq<char>) -> Seq<char>
    decreases s.len(),
{
    if s.len() > 0 && white(s[0]) {
        trimmed_start(s.skip(1))
    } else {
        s
    }
}

/// `s` up to its last character that is not white space.
pub open spec fn trimmed_end(s: Seq<char>) -> Seq<char>
    decreases s.len(),
{
    if s.len() > 0 && white(s.last()) {
        trimmed_end(s.drop_last())
    } else {
        s
    }
}

/// `s` without white space at either end.
pub open spec fn trimmed(s: Seq<char>) -> Seq<char> {
    trimmed_end(trimmed_start(s))
}

pub proof fn lemma_trimmed_start_len(s: Seq<char>)
    ensures
        trimmed_start(s).len() <= s.len(),
        trimmed_start(s).len() > 0 ==> !white(trimmed_start(s)[0]),
    decreases s.len(),
{
    if s.len() > 0 && white(s[0]) {
        lemma_trimmed_start_len(s.skip(1));
    }
}

/// A text with no white space at its ends is its own trimmed form.
pub proof fn lemma_trimmed_same(s: Seq<char>)
    requires
        s.len() > 0 ==> !white(s[0]) && !white(s.last()),
    ensures
        trimmed(s) == s,
{
}

proof fn lemma_trimmed_end_len(s: Seq<char>)
    ensures
        trimmed_end(s).len() <= s.len(),
        trimmed_end(s).len() > 0 ==> !white(trimmed_end(s).last()),
    decreases s.len(),
{
    if s.len() > 0 && white(s.last()) {
        lemma_trimmed_end_len(s.drop_last());
    }
}

/// A text that is its own trimmed form has no white space at its ends.
pub proof fn lemma_trimmed_ends(s: Seq<char>)
    requires
        trimmed(s) == s,
        s.len() > 0,
    ensures
        !white(s[0]),
        !white(s.last()),
{
    lemma_trimmed_start_len(s);
    lemma_trimmed_end_len(trimmed_start(s));
    if white(s[0]) {
        lemma_trimmed_start_len(s.skip(1));
    }
}

/// Skips white space at the start.
pub fn trim_start(s: &[char]) -> (r: &[char])
    ensures
        r@ == trimmed_start(s@),
        r.len() <= s.len(),
{
    let mut i: usize = 0;
    assert(s@.skip(0) =~= s@);
    while i < s.len() && is_white(s[i])
        invariant
            i <= s.len(),
            trimmed_start(s@) == trimmed_start(s@.skip(i as int)),
        decreases s.len() - i,
    {
        assert(s@.skip(i as int).skip(1) =~= s@.skip(i + 1));
        i += 1;
    }
    let r = slice_subrange(s, i, s.len());
    assert(r@ =~= s@.skip(i as int));
    r
}

/// Removes white space from both ends.
pub fn trim(s: &[char]) -> (r: &[char])
    ensures
        r@ == trimmed(s@),
{
    let t = trim_start(s);
    let mut n: usize = t.len();
    assert(t@.take(n as int) =~= t@);
    while n > 0 && is_white(t[n - 1])
        invariant
            n <= t.len(),
            trimmed_end(t@) == trimmed_end(t@.take(n as int)),
        decreases n,
    {
        assert(t@.take(n as int).drop_last() =~= t@.take(n - 1));
        n -= 1;
    }
    let r = slice_subrange(t, 0, n);
    assert(r@ =~= t@.take(n as int));
    r
}

/// `s` without white space at either end, as a string.
pub fn trim_text(s: &str) -> (r: String)
    ensures
        r@ == trimmed(s@),
{
    let cs = chars_of(s);
    string_of(trim(cs.as_slice()))
}

/// The number of characters before the first white space.
pub open spec fn word_len(s: Seq<char>) -> nat
    decreases s.len(),
{
    if s.len() == 0 || white(s[0]) {
        0
    } else {
        1 + word_len(s.skip(1))
    }
}

pub proof fn lemma_word_len(s: Seq<char>)
    ensures
        word_len(s) <= s.len(),
        word_len(s) < s.len() ==> white(s[word_len(s) as int]),
        forall|i: int| 0 <= i < word_len(s) ==> !white(s[i]),
    decreases s.len(),
{
    if s.len() == 0 || white(s[0]) {
    } else {
        lemma_word_len(s.skip(1));
        assert forall|i: int| 0 <= i < word_len(s) implies !white(s[i]) by {
            if i > 0 {
                assert(s.skip(1)[i - 1] == s[i]);
            }
        }
    }
}

/// The words of `s`: its longest runs without white space.
pub open spec fn words(s: Seq<char>) -> Seq<Seq<char>>
    decreases s.len(),
{
    let t = trimmed_start(s);
    if t.len() == 0 {
        seq![]
    } else {
        let n = word_len(t) as int;
        proof {
            lemma_trimmed_start_len(s);
            lemma_word_len(t);
        }
        seq![t.take(n)] + words(t.skip(n))
    }
}

/// Splits at white space.
pub fn split_words(s: &[char]) -> (v: Vec<Vec<char>>)
    ensures
        texts(v@) == words(s@),
{
    let mut v: Vec<Vec<char>> = Vec::new();
    let mut rest = trim_start(s);
    proof {
        lemma_trimmed_start_len(s@);
        assert(words(s@) =~= texts(v@) + words(rest@));
    }
    while rest.len() > 0
        invariant
            words(s@) == texts(v@) + words(rest@),
            trimmed_start(rest@) == rest@,
            rest@.len() > 0 ==> !white(rest@[0]),
        decreases rest.len(),
    {
        let mut n: usize = 1;
        assert(rest@.skip(1) =~= rest@.skip(n as int));
        while n < rest.len() && !is_white(rest[n])
            invariant
                1 <= n <= rest.len(),
                word_len(rest@) == n + word_len(rest@.skip(n as int)),
            decreases rest.len() - n,
        {
            assert(rest@.skip(n as int).skip(1) =~= rest@.skip(n + 1));
            n += 1;
        }
        assert(word_len(rest@) == n);
        let ghost before = v@;
        let word = copied(slice_subrange(rest, 0, n));
        assert(word@ =~= rest@.take(n as int));
        v.push(word);
        let tail = slice_subrange(rest, n, rest.len());
        assert(tail@ =~= rest@.skip(n as int));
        assert(texts(v@) =~= texts(before).push(word@));
        let next = trim_start(tail);
        proof {
            lemma_trimmed_start_len(tail@);
            assert(words(tail@) == words(next@));
            assert(texts(before) + (seq![word@] + words(tail@)) =~= texts(v@) + words(tail@));
        }
        rest = next;
    }
    assert(words(rest@) =~= seq![]);
    assert(texts(v@) + words(rest@) =~= texts(v@));
    v
}

// ---------------------------------------------------------------- lines

/// `s` without one carriage return at its end.
pub open spec fn without_cr(s: Seq<char>) -> Seq<char> {
    if s.len() > 0 && s.last() == '\r' {
        s.drop_last()
    } else {
        s
    }
}

/// The lines of `s`. A line ends in a line feed, or in a carriage return and a line feed; the
/// last one may lack its ending.
pub open spec fn lines(s: Seq<char>) -> Seq<Seq<char>>
    decreases s.len(),
{
    let n = find(s, '\n') as int;
    if s.len() == 0 {
        seq![]
    } else if n < s.len() {
        seq![without_cr(s.take(n))] + lines(s.skip(n + 1))
    } else {
        seq![s]
    }
}

/// The lines of two texts, the first of which ends in a line feed, are those of both.
pub proof fn lemma_lines_add(a: Seq<char>, b: Seq<char>)
    requires
        a.len() > 0 ==> a.last() == '\n',
    ensures
        lines(a + b) == lines(a) + lines(b),
    decreases a.len(),
{
    if a.len() == 0 {
        assert(a + b =~= b);
        assert(lines(a) + lines(b) =~= lines(b));
    } else {
        lemma_find(a, '\n');
        let n = find(a, '\n') as int;
        if n == a.len() {
            assert(a[n - 1] == '\n');
        }
        lemma_find_is(a + b, '\n', n);
        let rest = a.skip(n + 1);
        assert((a + b).take(n) =~= a.take(n));
        assert((a + b).skip(n + 1) =~= rest + b);
        if rest.len() > 0 {
            assert(rest.last() == a.last());
        }
        lemma_lines_add(rest, b);
        assert(seq![without_cr(a.take(n))] + (lines(rest) + lines(b)) =~= lines(a) + lines(b));
    }
}

/// A text without line feeds, followed by one, is one line.
pub proof fn lemma_one_line(l: Seq<char>)
    requires
        forall|i: int| 0 <= i < l.len() ==> l[i] != '\n',
    ensures
        lines(l.push('\n')) == seq![without_cr(l)],
{
    let s = l.push('\n');
    lemma_find_is(s, '\n', l.len() as int);
    assert(s.take(l.len() as int) =~= l);
    assert(s.skip(l.len() as int + 1) =~= seq![]);
    assert(lines(s.skip(l.len() as int + 1)) =~= seq![]);
    assert(lines(s) =~= seq![without_cr(l)]);
}

/// Splits into lines.
pub fn split_lines(s: &[char]) -> (v: Vec<Vec<char>>)
    ensures
        texts(v@) == lines(s@),
{
    let mut v: Vec<Vec<char>> = Vec::new();
    let mut rest = s;
    assert(texts(v@) + lines(s@) =~= lines(s@));
    while rest.len() > 0
        invariant
            lines(s@) == texts(v@) + lines(rest@),
        decreases rest.len(),
    {
        let ghost before = v@;
        let n = position(rest, '\n');
        if n < rest.len() {
            let mut m: usize = n;
            if n > 0 && rest[n - 1] == '\r' {
                m = n - 1;
            }
            let line = copied(slice_subrange(rest, 0, m));
            assert(line@ =~= without_cr(rest@.take(n as int)));
            v.push(line);
            let tail = slice_subrange(rest, n + 1, rest.len());
            assert(tail@ =~= rest@.skip(n + 1));
            assert(texts(v@) =~= texts(before).push(line@));
            assert(texts(before) + (seq![line@] + lines(tail@)) =~= texts(v@) + lines(tail@));
            rest = tail;
        } else {
            let line = copied(rest);
            v.push(line);
            assert(texts(v@) =~= texts(before) + seq![rest@]);
            let tail = slice_subrange(rest, n, rest.len());
            assert(texts(v@) + lines(tail@) =~= texts(v@));
            rest = tail;
        }
    }
    assert(texts(v@) + lines(rest@) =~= texts(v@));
    v
}

// ---------------------------------------------------------------- layout

/// `n` times the character `c`.
pub open spec fn repeated(c: char, n: nat) -> Seq<char> {
    Seq::new(n, |i: int| c)
}

/// `s` preceded by as many `c` as bring it to `width` characters.
pub open spec fn padded_left(s: Seq<char>, c: char, width: nat) -> Seq<char> {
    if s.len() < width {
        repeated(c, (width - s.len()) as nat) + s
    } else {
        s
    }
}

/// `s` followed by as many spaces as bring it to `width` characters.
pub open spec fn padded_right(s: Seq<char>, width: nat) -> Seq<char> {
    if s.len() < width {
        s + repeated(' ', (width - s.len()) as nat)
    } else {
        s
    }
}

/// `n` times the character `c`.
pub fn repeat(c: char, n: usize) -> (r: String)
    ensures
        r@ == repeated(c, n as nat),
{
    let mut r = String::new();
    let mut i: usize = 0;
    assert(r@ =~= repeated(c, 0));
    while i < n
        invariant
            i <= n,
            r@ == repeated(c, i as nat),
        decreases n - i,
    {
        r.push(c);
        i += 1;
        assert(repeated(c, i as nat) =~= repeated(c, (i - 1) as nat).push(c));
    }
    r
}

/// Right-aligns `s` in `width` characters, filling with `c`.
pub fn pad_left(s: &str, c: char, width: usize) -> (r: String)
    ensures
        r@ == padded_left(s@, c, width as nat),
{
    let n = s.unicode_len();
    if n < width {
        let mut r = repeat(c, width - n);
        r.append(s);
        r
    } else {
        owned(s)
    }
}

/// Left-aligns `s` in `width` characters, filling with spaces.
pub fn pad_right(s: &str, width: usize) -> (r: String)
    ensures
        r@ == padded_right(s@, width as nat),
{
    let n = s.unicode_len();
    let mut r = owned(s);
    if n < width {
        let fill = repeat(' ', width - n);
        r.append(fill.as_str());
    }
    r
}

/// The texts of `list`, with `sep` between each two neighbours.
pub open spec fn joined(list: Seq<Seq<char>>, sep: Seq<char>) -> Seq<char>
    decreases list.len(),
{
    if list.len() == 0 {
        seq![]
    } else if list.len() == 1 {
        list[0]
    } else {
        joined(list.drop_last(), sep) + sep + list.last()
    }
}

/// Splitting a joined list gives the list back, where no text in it holds the separator.
pub proof fn lemma_pieces_joined(list: Seq<Seq<char>>, c: char, sep: Seq<char>)
    requires
        list.len() > 0,
        sep == seq![c],
        forall|i: int, j: int|
            0 <= i < list.len() && 0 <= j < list[i].len() ==> #[trigger] list[i][j] != c,
    ensures
        pieces(joined(list, sep), c) == list,
    decreases list.len(),
{
    let last = list.last();
    assert(forall|j: int| 0 <= j < last.len() ==> #[trigger] list[list.len() - 1][j] != c);
    lemma_find_is(last, c, last.len() as int);
    assert(pieces(last, c) =~= seq![last]);
    if list.len() > 1 {
        let front = list.drop_last();
        assert forall|i: int, j: int|
            0 <= i < front.len() && 0 <= j < front[i].len() implies #[trigger] front[i][j] != c by {
            assert(front[i] == list[i]);
            assert(list[i][j] != c);
        }
        lemma_pieces_joined(front, c, sep);
        lemma_pieces_add(joined(front, sep), last, c);
        assert(front + seq![last] =~= list);
    } else {
        assert(list =~= seq![last]);
    }
}

/// The contents of a list of strings.
pub open spec fn strings(v: Seq<String>) -> Seq<Seq<char>> {
    Seq::new(v.len(), |i: int| v[i]@)
}

/// Joins `list` with `sep` between each two neighbours.
pub fn join(list: &Vec<String>, sep: &str) -> (r: String)
    ensures
        r@ == joined(strings(list@), sep@),
{
    let mut r = String::new();
    let mut i: usize = 0;
    let ghost all = strings(list@);
    assert(all.take(0) =~= seq![]);
    assert(r@ =~= seq![]);
    while i < list.len()
        invariant
            i <= list.len(),
            all == strings(list@),
            r@ == joined(all.take(i as int), sep@),
        decreases list.len() - i,
    {
        if i > 0 {
            r.append(sep);
        }
        r.append(list[i].as_str());
        i += 1;
        assert(all.take(i as int).drop_last() =~= all.take(i - 1));
        assert(all.take(i as int).last() == list@[i - 1]@);
        if i == 1 {
            assert(all.take(1)[0] == list@[0]@);
            assert(r@ =~= joined(all.take(1), sep@));
        }
    }
    assert(all.take(i as int) =~= all);
    r
}

/// The text inside an optional string.
pub open spec fn opt_text(o: Option<String>) -> Option<Seq<char>> {
    match o {
        Some(s) => Some(s@),
        None => None,
    }
}

/// A copy of an optional string.
pub fn copied_opt(o: &Option<String>) -> (r: Option<String>)
    ensures
        opt_text(r) == opt_text(*o),
{
    match o {
        Some(s) => Some(owned(s.as_str())),
        None => None,
    }
}

} // verus!
