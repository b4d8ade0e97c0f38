//! How texts are taken apart and put together.

use vstd::prelude::*;

use crate::text;

verus! {

/// A text starts with a prefix exactly where it is the prefix and something behind it, and taking
/// the prefix off leaves what stands behind it.
pub proof fn law_prefix(s: Seq<char>, p: Seq<char>, rest: Seq<char>)
    ensures
        text::starts(p + rest, p),
        text::after_prefix(p + rest, p) == Some(rest),
        text::starts(s, p) <==> text::after_prefix(s, p) is Some,
        text::after_prefix(s, p) matches Some(r) ==> s == p + r,
{
    assert((p + rest).take(p.len() as int) =~= p);
    assert((p + rest).skip(p.len() as int) =~= rest);
    if text::starts(s, p) {
        assert(s =~= p + s.skip(p.len() as int));
    }
}

/// Stripping takes off every leading `0x`, and nothing else.
pub proof fn law_hex_prefix(s: Seq<char>)
    ensures
        text::without_0x("0x"@ + s) == text::without_0x(s),
        !"0x"@.is_prefix_of(s) ==> text::without_0x(s) == s,
        !"0x"@.is_prefix_of(text::without_0x(s)),
    decreases s.len(),
{
    reveal_strlit("0x");
    let t = "0x"@ + s;
    assert(t[0] == '0' && t[1] == 'x');
    assert(t.skip(2) =~= s);
    if s.len() >= 2 && s[0] == '0' && s[1] == 'x' {
        assert("0x"@ =~= s.subrange(0, 2));
        law_hex_prefix(s.skip(2));
    } else if "0x"@.is_prefix_of(s) {
        assert(s.subrange(0, 2)[0] == '0');
        assert(s.subrange(0, 2)[1] == 'x');
    }
}

/// Cutting a text at a character gives what stands before its first occurrence and what stands
/// behind it; a text without the character is not cut.
pub proof fn law_cut(s: Seq<char>, c: char)
    ensures
        match text::cut_at(s, c) {
            Some((a, b)) => s == a + seq![c] + b && !a.contains(c),
            None => !s.contains(c),
        },
{
    text::lemma_find(s, c);
    let n = text::find(s, c) as int;
    if n < s.len() {
        assert(s =~= s.take(n) + seq![c] + s.skip(n + 1));
    }
}

/// A text that lacks the separator is one piece, and two texts with a separator between them have
/// the pieces of both.
pub proof fn law_pieces(a: Seq<char>, b: Seq<char>, c: char)
    ensures
        !a.contains(c) ==> text::pieces(a, c) == seq![a],
        text::pieces(a + seq![c] + b, c) == text::pieces(a, c) + text::pieces(b, c),
{
    text::lemma_pieces_add(a, b, c);
    text::lemma_find(a, c);
}

/// White space: the control characters 9 to 13, the space, the next line, the spaces of Unicode,
/// and its line and paragraph separators.
pub proof fn law_white_space(c: char)
    ensures
        ({
            let n = c as u32;
            text::white(c) <==> {
                ||| n == 9 || n == 10 || n == 11 || n == 12 || n == 13
                ||| n == 32 || n == 0x85 || n == 0xa0 || n == 0x1680
                ||| n == 0x2000 || n == 0x2001 || n == 0x2002 || n == 0x2003 || n == 0x2004
                ||| n == 0x2005 || n == 0x2006 || n == 0x2007 || n == 0x2008 || n == 0x2009
                ||| n == 0x200a || n == 0x2028 || n == 0x2029 || n == 0x202f || n == 0x205f
                ||| n == 0x3000
            }
        }),
{
}

/// Trimming takes white space off both ends, and as much of it as there is.
pub proof fn law_trimmed(s: Seq<char>)
    ensures
        text::trimmed(s).len() > 0 ==> !text::white(text::trimmed(s).first()) && !text::white(
            text::trimmed(s).last(),
        ),
        exists|a: Seq<char>, b: Seq<char>|
            #![trigger a + text::trimmed(s) + b]
            {
                &&& s == a + text::trimmed(s) + b
                &&& forall|i: int| 0 <= i < a.len() ==> text::white(a[i])
                &&& forall|i: int| 0 <= i < b.len() ==> text::white(b[i])
            },
{
    let t = text::trimmed_start(s);
    let r = text::trimmed(s);
    let a = lemma_cut_start(s);
    let b = lemma_cut_end(t);
    assert(s =~= a + r + b);
    text::lemma_trimmed_start_len(s);
    if r.len() > 0 {
        assert(r[0] == t[0]);
    }
}

proof fn lemma_cut_start(s: Seq<char>) -> (a: Seq<char>)
    ensures
        s == a + text::trimmed_start(s),
        forall|i: int| 0 <= i < a.len() ==> text::white(a[i]),
    decreases s.len(),
{
    if s.len() > 0 && text::white(s[0]) {
        let b = lemma_cut_start(s.skip(1));
        let a = seq![s[0]] + b;
        assert(s =~= seq![s[0]] + s.skip(1));
        assert(s =~= a + text::trimmed_start(s));
        a
    } else {
        assert(s =~= Seq::<char>::empty() + s);
        Seq::empty()
    }
}

proof fn lemma_cut_end(s: Seq<char>) -> (b: Seq<char>)
    ensures
        s == text::trimmed_end(s) + b,
        forall|i: int| 0 <= i < b.len() ==> text::white(b[i]),
        text::trimmed_end(s).len() > 0 ==> !text::white(text::trimmed_end(s).last()),
    decreases s.len(),
{
    if s.len() > 0 && text::white(s.last()) {
        let a = lemma_cut_end(s.drop_last());
        let b = a.push(s.last());
        assert(s =~= s.drop_last().push(s.last()));
        assert(s =~= text::trimmed_end(s) + b);
        b
    } else {
        assert(s =~= s + Seq::<char>::empty());
        Seq::empty()
    }
}

/// A text with no white space at its ends is what trimming leaves of it, whatever white space is
/// put around it.
pub proof fn law_trimmed_of_padded(a: Seq<char>, s: Seq<char>, b: Seq<char>)
    requires
        forall|i: int| 0 <= i < a.len() ==> text::white(a[i]),
        forall|i: int| 0 <= i < b.len() ==> text::white(b[i]),
        s.len() > 0 ==> !text::white(s.first()) && !text::white(s.last()),
    ensures
        text::trimmed(a + s + b) == s,
    decreases a.len() + b.len(),
{
    let all = a + s + b;
    if a.len() > 0 {
        assert(all[0] == a[0]);
        assert(all.skip(1) =~= a.skip(1) + s + b);
        law_trimmed_of_padded(a.skip(1), s, b);
    } else if s.len() == 0 {
        assert(all =~= b);
        lemma_all_white(b);
    } else {
        assert(all[0] == s[0]);
        assert(text::trimmed(all) == text::trimmed_end(all));
        if b.len() > 0 {
            assert(all.last() == b.last());
            assert(all.drop_last() =~= a + s + b.drop_last());
            law_trimmed_of_padded(a, s, b.drop_last());
            assert(all.drop_last()[0] == s[0]);
        } else {
            assert(all =~= s);
        }
    }
}

proof fn lemma_all_white(b: Seq<char>)
    requires
        forall|i: int| 0 <= i < b.len() ==> text::white(b[i]),
    ensures
        text::trimmed_start(b) == Seq::<char>::empty(),
        text::trimmed(b) == Seq::<char>::empty(),
    decreases b.len(),
{
    if b.len() > 0 {
        lemma_all_white(b.skip(1));
    } else {
        assert(b =~= Seq::<char>::empty());
    }
}

proof fn lemma_word_len_is(s: Seq<char>, n: int)
    requires
        0 <= n <= s.len(),
        n < s.len() ==> text::white(s[n]),
        forall|i: int| 0 <= i < n ==> !text::white(s[i]),
    ensures
        text::word_len(s) == n,
{
    text::lemma_word_len(s);
    let m = text::word_len(s) as int;
    if m < n {
        assert(text::white(s[m]));
    } else if n < m {
        assert(!text::white(s[n]));
    }
}

proof fn lemma_words_skip(s: Seq<char>)
    requires
        s.len() > 0,
        text::white(s[0]),
    ensures
        text::words(s) == text::words(s.skip(1)),
{
    assert(text::trimmed_start(s) == text::trimmed_start(s.skip(1)));
}

/// A text without white space is one word, unless it is empty; and two texts with white space
/// between them have the words of both.
pub proof fn law_words(a: Seq<char>, w: char, b: Seq<char>)
    ensures
        text::words(Seq::empty()) == Seq::<Seq<char>>::empty(),
        a.len() > 0 && (forall|i: int| 0 <= i < a.len() ==> !text::white(a[i])) ==> text::words(a)
            == seq![a],
        text::white(w) ==> text::words(a + seq![w] + b) == text::words(a) + text::words(b),
    decreases a.len(),
{
    let none = Seq::<char>::empty();
    assert(text::words(none) =~= Seq::<Seq<char>>::empty());
    if a.len() > 0 && (forall|i: int| 0 <= i < a.len() ==> !text::white(a[i])) {
        lemma_word_len_is(a, a.len() as int);
        assert(a.take(a.len() as int) =~= a);
        assert(a.skip(a.len() as int) =~= none);
        assert(text::words(a) =~= seq![a]);
    }
    if text::white(w) {
        let s = a + seq![w] + b;
        assert((seq![w] + b).skip(1) =~= b);
        lemma_words_skip(seq![w] + b);
        if a.len() == 0 {
            assert(s =~= seq![w] + b);
            assert(a =~= none);
            assert(text::words(a) + text::words(b) =~= text::words(b));
        } else if text::white(a[0]) {
            assert(s[0] == a[0]);
            lemma_words_skip(s);
            lemma_words_skip(a);
            assert(s.skip(1) =~= a.skip(1) + seq![w] + b);
            law_words(a.skip(1), w, b);
        } else {
            text::lemma_word_len(a);
            let n = text::word_len(a) as int;
            assert(s[0] == a[0]);
            assert(s[n] == if n < a.len() { a[n] } else { w });
            lemma_word_len_is(s, n);
            assert(s.take(n) =~= a.take(n));
            if n < a.len() {
                assert(s.skip(n) =~= a.skip(n) + seq![w] + b);
                law_words(a.skip(n), w, b);
                assert(text::words(s) =~= text::words(a) + text::words(b));
            } else {
                assert(s.skip(n) =~= seq![w] + b);
                assert(a.skip(n) =~= none);
                assert(text::words(s) =~= text::words(a) + text::words(b));
            }
        }
    }
}

/// A word that stands between white space or the ends of a text is one of its words.
pub proof fn law_word_between(a: Seq<char>, word: Seq<char>, b: Seq<char>)
    requires
        word.len() > 0,
        forall|i: int| 0 <= i < word.len() ==> !text::white(word[i]),
        a.len() > 0 ==> text::white(a.last()),
        b.len() > 0 ==> text::white(b.first()),
    ensures
        text::words(a + word + b) == text::words(a) + seq![word] + text::words(b),
{
    let none = Seq::<char>::empty();
    law_words(word, ' ', none);
    let right = word + b;
    if b.len() > 0 {
        assert(right =~= word + seq![b[0]] + b.skip(1));
        law_words(word, b[0], b.skip(1));
        lemma_words_skip(b);
    } else {
        assert(right =~= word);
        assert(b =~= none);
    }
    assert(text::words(right) =~= seq![word] + text::words(b));
    if a.len() > 0 {
        let front = a.drop_last();
        assert(a + word + b =~= front + seq![a.last()] + right);
        law_words(front, a.last(), right);
        assert(a =~= front + seq![a.last()] + none);
        law_words(front, a.last(), none);
        assert(text::words(front) + text::words(none) =~= text::words(front));
    } else {
        assert(a + word + b =~= right);
        assert(a =~= none);
    }
    assert(text::words(a + word + b) =~= text::words(a) + seq![word] + text::words(b));
}

/// Every word of a text stands in it, between white space or its ends, and holds no white space.
pub proof fn law_words_stand_in_text(s: Seq<char>, i: int)
    requires
        0 <= i < text::words(s).len(),
    ensures
        exists|a: Seq<char>, b: Seq<char>|
            #![trigger a + text::words(s)[i] + b]
            {
                &&& s == a + text::words(s)[i] + b
                &&& a.len() > 0 ==> text::white(a.last())
                &&& b.len() > 0 ==> text::white(b.first())
            },
        text::words(s)[i].len() > 0,
        forall|j: int| 0 <= j < text::words(s)[i].len() ==> !text::white(text::words(s)[i][j]),
    decreases s.len(),
{
    let t = text::trimmed_start(s);
    let n = text::word_len(t) as int;
    let lead = lemma_cut_start(s);
    text::lemma_trimmed_start_len(s);
    text::lemma_word_len(t);
    assert(n > 0);
    let w = text::words(s)[i];
    if i == 0 {
        let b = t.skip(n);
        assert(w == t.take(n));
        assert(s =~= lead + w + b);
    } else {
        let rest = t.skip(n);
        law_words_stand_in_text(rest, i - 1);
        assert(w == text::words(rest)[i - 1]);
        let (c, b) = choose|a: Seq<char>, b: Seq<char>|
            #![trigger a + text::words(rest)[i - 1] + b]
            {
                &&& rest == a + text::words(rest)[i - 1] + b
                &&& a.len() > 0 ==> text::white(a.last())
                &&& b.len() > 0 ==> text::white(b.first())
            };
        let a = lead + t.take(n) + c;
        assert(rest == c + w + b);
        assert(t =~= t.take(n) + rest);
        assert(s == lead + t);
        assert(s =~= a + w + b);
        assert(text::white(rest[0]));
        if c.len() == 0 {
            assert(rest[0] == w[0]);
        } else {
            assert(a.last() == c.last());
        }
    }
}

/// A text without line feeds is one line, unless it is empty. Behind a line feed the lines go on;
/// the carriage return of a line ending is not part of the line.
pub proof fn law_lines(l: Seq<char>, rest: Seq<char>)
    requires
        !l.contains('\n'),
    ensures
        text::lines(Seq::empty()) == Seq::<Seq<char>>::empty(),
        l.len() > 0 ==> text::lines(l) == seq![l],
        l.len() == 0 || l.last() != '\r' ==> text::lines(l + seq!['\n'] + rest) == seq![l]
            + text::lines(rest),
        text::lines(l + seq!['\r', '\n'] + rest) == seq![l] + text::lines(rest),
{
    let none = Seq::<char>::empty();
    assert(text::lines(none) =~= Seq::<Seq<char>>::empty());
    text::lemma_find(l, '\n');
    let a = l + seq!['\n'] + rest;
    text::lemma_find_is(a, '\n', l.len() as int);
    assert(a.take(l.len() as int) =~= l);
    assert(a.skip(l.len() as int + 1) =~= rest);
    let b = l + seq!['\r', '\n'] + rest;
    let m = l.push('\r');
    assert forall|i: int| 0 <= i < m.len() implies b[i] != '\n' by {
        if i < l.len() {
            assert(l.contains(l[i]));
        }
    }
    text::lemma_find_is(b, '\n', m.len() as int);
    assert(b.take(m.len() as int) =~= m);
    assert(m.drop_last() =~= l);
    assert(b.skip(m.len() as int + 1) =~= rest);
}

/// Padding brings a text to the width and adds nothing to a text that has it; the text stands at
/// the right or at the left end, and the rest is filled.
pub proof fn law_padding(s: Seq<char>, c: char, width: nat, i: int)
    ensures
        text::padded_left(s, c, width).len() == if s.len() < width { width } else { s.len() },
        text::padded_right(s, width).len() == if s.len() < width { width } else { s.len() },
        s.is_suffix_of(text::padded_left(s, c, width)),
        s.is_prefix_of(text::padded_right(s, width)),
        0 <= i < width - s.len() ==> text::padded_left(s, c, width)[i] == c,
        s.len() <= i < width ==> text::padded_right(s, width)[i] == ' ',
{
    let l = text::padded_left(s, c, width);
    let r = text::padded_right(s, width);
    assert(s =~= l.subrange(l.len() - s.len(), l.len() as int));
    assert(s =~= r.subrange(0, s.len() as int));
}

/// Joining: nothing gives nothing, one text gives itself, and two lists give what each gives, with
/// the separator between them.
pub proof fn law_joined(a: Seq<Seq<char>>, b: Seq<Seq<char>>, x: Seq<char>, sep: Seq<char>)
    ensures
        text::joined(Seq::empty(), sep) == Seq::<char>::empty(),
        text::joined(seq![x], sep) == x,
        a.len() > 0 && b.len() > 0 ==> text::joined(a + b, sep) == text::joined(a, sep) + sep
            + text::joined(b, sep),
    decreases b.len(),
{
    if a.len() > 0 && b.len() > 0 {
        assert((a + b).drop_last() =~= a + b.drop_last());
        assert((a + b).last() == b.last());
        if b.len() == 1 {
            assert(a + b.drop_last() =~= a);
        } else {
            law_joined(a, b.drop_last(), x, sep);
            assert(text::joined(a + b, sep) =~= text::joined(a, sep) + sep + text::joined(b, sep));
        }
    }
}

/// A text holds a piece somewhere.
#[verifier::opaque]
pub open spec fn shows(t: Seq<char>, piece: Seq<char>) -> bool {
    exists|i: int| 0 <= i <= t.len() && piece.is_prefix_of(#[trigger] t.skip(i))
}

/// What a part of a text holds the text holds.
pub proof fn lemma_shows(a: Seq<char>, b: Seq<char>, c: Seq<char>, piece: Seq<char>)
    requires
        shows(b, piece),
    ensures
        shows(a + b + c, piece),
{
    reveal(shows);
    let t = a + b + c;
    let i = choose|i: int| 0 <= i <= b.len() && piece.is_prefix_of(#[trigger] b.skip(i));
    let x = b.skip(i);
    let y = t.skip(a.len() + i);
    assert(piece == x.subrange(0, piece.len() as int));
    assert(y.subrange(0, piece.len() as int) =~= x.subrange(0, piece.len() as int));
    assert(piece.is_prefix_of(t.skip(a.len() + i)));
}

/// A text holds whatever stands in it.
pub proof fn lemma_shows_part(a: Seq<char>, piece: Seq<char>, c: Seq<char>)
    ensures
        shows(a + piece + c, piece),
{
    reveal(shows);
    let t = a + piece + c;
    assert(t.skip(a.len() as int).subrange(0, piece.len() as int) =~= piece);
}

} // verus!
