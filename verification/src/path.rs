//! Paths as texts: the parts that slashes separate.

use vstd::prelude::*;
use vstd::slice::slice_subrange;

use crate::text::{chars_of, owned, spells, string_of};

verus! {

/// A path without the slashes and the `.` parts that follow its last part.
pub open spec fn body(s: Seq<char>) -> Seq<char>
    decreases s.len(),
{
    if s.len() > 0 && (s.last() == '/' || (s.last() == '.' && s.len() > 1 && s[s.len() - 2]
        == '/')) {
        body(s.drop_last())
    } else {
        s
    }
}

/// The position behind the last slash, where the last part starts.
pub open spec fn part_start(s: Seq<char>) -> nat
    decreases s.len(),
{
    if s.len() == 0 || s.last() == '/' {
        s.len()
    } else {
        part_start(s.drop_last())
    }
}

/// What stands before the last part of a path, with the slash between them.
pub open spec fn before_last(s: Seq<char>) -> Seq<char> {
    body(s).take(part_start(body(s)) as int)
}

/// The last part of a path.
pub open spec fn last_part(s: Seq<char>) -> Seq<char> {
    body(s).skip(part_start(body(s)) as int)
}

/// The name of the file that a path leads to. A path that is empty, or that ends in the root, in
/// `.` alone or in `..`, names none.
pub open spec fn named_file(s: Seq<char>) -> Option<Seq<char>> {
    let n = last_part(s);
    if n.len() == 0 || n == "."@ || n == ".."@ {
        None
    } else {
        Some(n)
    }
}

/// The directory that holds what a path leads to: the path without its last part. The root and the
/// empty path have none.
pub open spec fn directory(s: Seq<char>) -> Option<Seq<char>> {
    let before = before_last(s);
    if body(s).len() == 0 {
        None
    } else if before.len() > 0 && body(before).len() == 0 {
        Some("/"@)
    } else {
        Some(body(before))
    }
}

/// What stands before the last dot, where there is one.
pub open spec fn before_dot(s: Seq<char>) -> Option<Seq<char>>
    decreases s.len(),
{
    if s.len() == 0 {
        None
    } else if s.last() == '.' {
        Some(s.drop_last())
    } else {
        before_dot(s.drop_last())
    }
}

/// The name of a file without its extension: a dot at the start of the name begins none.
pub open spec fn stem(name: Seq<char>) -> Seq<char> {
    match before_dot(name) {
        Some(s) => if s.len() > 0 {
            s
        } else {
            name
        },
        None => name,
    }
}

/// A path with another extension on the name of its file; a path that names no file is as it was.
pub open spec fn with_other_extension(s: Seq<char>, extension: Seq<char>) -> Seq<char> {
    match named_file(s) {
        Some(n) => before_last(s) + stem(n) + "."@ + extension,
        None => s,
    }
}

fn body_of(s: &[char]) -> (r: &[char])
    ensures
        r@ == body(s@),
        r.len() <= s.len(),
{
    let mut n: usize = s.len();
    assert(s@.take(n as int) =~= s@);
    while n > 0 && (s[n - 1] == '/' || (s[n - 1] == '.' && n > 1 && s[n - 2] == '/'))
        invariant
            n <= s.len(),
            body(s@) == body(s@.take(n as int)),
        decreases n,
    {
        assert(s@.take(n as int).drop_last() =~= s@.take(n - 1));
        n -= 1;
    }
    let r = slice_subrange(s, 0, n);
    assert(r@ =~= s@.take(n as int));
    r
}

/// The last part of a path, and what stands before it.
fn split_last(s: &[char]) -> (r: (&[char], &[char]))
    ensures
        r.0@ == before_last(s@),
        r.1@ == last_part(s@),
        r.0.len() + r.1.len() == body(s@).len(),
{
    let b = body_of(s);
    let mut n: usize = b.len();
    assert(b@.take(n as int) =~= b@);
    while n > 0 && b[n - 1] != '/'
        invariant
            n <= b.len(),
            part_start(b@) == part_start(b@.take(n as int)),
        decreases n,
    {
        assert(b@.take(n as int).drop_last() =~= b@.take(n - 1));
        n -= 1;
    }
    let before = slice_subrange(b, 0, n);
    let part = slice_subrange(b, n, b.len());
    assert(before@ =~= b@.take(n as int));
    assert(part@ =~= b@.skip(n as int));
    (before, part)
}

/// The name of the file that a path leads to.
pub fn file_name(path: &str) -> (r: Option<String>)
    ensures
        crate::text::opt_text(r) == named_file(path@),
{
    let cs = chars_of(path);
    let (before, part) = split_last(cs.as_slice());
    if part.len() == 0 || spells(part, ".") || spells(part, "..") {
        None
    } else {
        Some(string_of(part))
    }
}

/// The directory that holds what a path leads to.
pub fn parent(path: &str) -> (r: Option<String>)
    ensures
        crate::text::opt_text(r) == directory(path@),
{
    let cs = chars_of(path);
    let (before, part) = split_last(cs.as_slice());
    if before.len() == 0 && part.len() == 0 {
        return None;
    }
    let dir = body_of(before);
    if before.len() > 0 && dir.len() == 0 {
        Some(owned("/"))
    } else {
        Some(string_of(dir))
    }
}

/// A path with another extension on the name of its file.
pub fn with_extension(path: &str, extension: &str) -> (r: String)
    ensures
        r@ == with_other_extension(path@, extension@),
{
    let cs = chars_of(path);
    let (before, part) = split_last(cs.as_slice());
    if part.len() == 0 || spells(part, ".") || spells(part, "..") {
        return owned(path);
    }
    let mut n: usize = part.len();
    assert(part@.take(n as int) =~= part@);
    while n > 0 && part[n - 1] != '.'
        invariant
            n <= part.len(),
            before_dot(part@) == before_dot(part@.take(n as int)),
        decreases n,
    {
        assert(part@.take(n as int).drop_last() =~= part@.take(n - 1));
        n -= 1;
    }
    let kept: usize = if n > 1 {
        n - 1
    } else {
        part.len()
    };
    let name = slice_subrange(part, 0, kept);
    proof {
        assert(name@ =~= part@.take(kept as int));
        if n > 0 {
            assert(part@.take(n as int).drop_last() =~= part@.take(n - 1));
        }
        assert(part@.take(part@.len() as int) =~= part@);
        assert(name@ == stem(part@));
    }
    let mut r = string_of(before);
    r.append(string_of(name).as_str());
    r.append(".");
    r.append(extension);
    r
}

} // verus!
