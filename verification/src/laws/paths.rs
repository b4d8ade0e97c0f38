//! How paths are taken apart.

use vstd::prelude::*;

use crate::manifest;
use crate::path;

verus! {

/// A name that a path can end in: not empty, without slashes, and neither `.` nor `..`.
pub open spec fn is_name(s: Seq<char>) -> bool {
    s.len() > 0 && !s.contains('/') && s != "."@ && s != ".."@
}

proof fn lemma_part_start(before: Seq<char>, name: Seq<char>)
    requires
        before.len() > 0 ==> before.last() == '/',
        !name.contains('/'),
    ensures
        path::part_start(before + name) == before.len(),
    decreases name.len(),
{
    let s = before + name;
    if name.len() > 0 {
        assert(name.contains(name.last()));
        assert(s.last() == name.last());
        assert(s.drop_last() =~= before + name.drop_last());
        assert forall|c: char| name.drop_last().contains(c) implies name.contains(c) by {
            let i = choose|i: int| 0 <= i < name.len() - 1 && name.drop_last()[i] == c;
            assert(name[i] == c);
        }
        lemma_part_start(before, name.drop_last());
    } else {
        assert(s =~= before);
    }
}

proof fn lemma_taken_apart(before: Seq<char>, name: Seq<char>)
    requires
        before.len() > 0 ==> before.last() == '/',
        name.len() > 0,
        !name.contains('/'),
        name != "."@,
    ensures
        path::body(before + name) == before + name,
        path::before_last(before + name) == before,
        path::last_part(before + name) == name,
{
    reveal_strlit(".");
    let s = before + name;
    assert(name.contains(name.last()));
    assert(s.last() == name.last());
    if name.last() == '.' && s.len() > 1 && s[s.len() - 2] == '/' {
        if name.len() == 1 {
            assert(name =~= "."@);
        } else {
            assert(s[s.len() - 2] == name[name.len() - 2]);
            assert(name.contains('/'));
        }
    }
    lemma_part_start(before, name);
    assert(s.take(before.len() as int) =~= before);
    assert(s.skip(before.len() as int) =~= name);
}

/// A path leads to the file whose name stands behind its last slash. A slash behind the name
/// changes nothing, and `..` names no file.
pub proof fn law_file_names(dir: Seq<char>, name: Seq<char>)
    requires
        is_name(name),
    ensures
        path::named_file(name) == Some(name),
        path::named_file(dir.push('/') + name) == Some(name),
        path::named_file((dir.push('/') + name).push('/')) == Some(name),
        path::named_file(dir.push('/') + ".."@) is None,
        path::named_file(Seq::empty()) is None,
        path::named_file("."@) is None,
        path::named_file(seq!['/']) is None,
        path::named_file(dir.push('/')) == path::named_file(dir),
{
    reveal_strlit(".");
    reveal_strlit("..");
    let none = Seq::<char>::empty();
    lemma_taken_apart(none, name);
    assert(none + name =~= name);
    let s = dir.push('/') + name;
    lemma_taken_apart(dir.push('/'), name);
    assert(s.push('/').drop_last() =~= s);
    assert(!".."@.contains('/'));
    lemma_taken_apart(dir.push('/'), ".."@);
    assert(path::body(none) == none);
    assert(path::last_part(none).len() == 0);
    assert(seq!['/'].drop_last() =~= none);
    assert(path::body(seq!['/']) == path::body(none));
    lemma_part_start(none, "."@);
    assert(none + "."@ =~= "."@);
    assert("."@.skip(0) =~= "."@);
    assert(dir.push('/').drop_last() =~= dir);
}

/// What a path leads to lies in the directory before its last slash; that is the root where nothing
/// stands before the slash, and the current directory, written as nothing, where there is none.
/// The root and the empty path lie in no directory.
pub proof fn law_directories(dir: Seq<char>, name: Seq<char>)
    requires
        is_name(name),
    ensures
        path::body(dir).len() > 0 ==> path::directory(dir.push('/') + name) == Some(
            path::body(dir),
        ),
        path::directory(dir.push('/')) == path::directory(dir),
        path::directory(seq!['/'] + name) == Some("/"@),
        path::directory(name) == Some(Seq::<char>::empty()),
        path::directory(seq!['/']) is None,
        path::directory(Seq::empty()) is None,
{
    let none = Seq::<char>::empty();
    lemma_taken_apart(none, name);
    assert(none + name =~= name);
    lemma_taken_apart(dir.push('/'), name);
    assert(dir.push('/').drop_last() =~= dir);
    lemma_taken_apart(seq!['/'], name);
    assert(seq!['/'].drop_last() =~= none);
    assert(path::body(none) == none);
    assert(path::body(seq!['/']) == path::body(none));
}

/// Slashes and lone dots at the end of a path change nothing; a path that ends in neither has
/// nothing behind its last part.
pub proof fn law_plain_paths(s: Seq<char>)
    ensures
        path::body(s.push('/')) == path::body(s),
        path::body(s.push('/').push('.')) == path::body(s),
        (s.len() > 0 ==> s.last() != '/') && (s.len() > 1 && s.last() == '.' ==> s[s.len() - 2]
            != '/') ==> path::body(s) == s,
{
    assert(s.push('/').drop_last() =~= s);
    assert(s.push('/').push('.').drop_last() =~= s.push('/'));
}

proof fn lemma_before_dot(stem: Seq<char>, extension: Seq<char>)
    requires
        !extension.contains('.'),
    ensures
        path::before_dot(stem.push('.') + extension) == Some(stem),
        path::before_dot(extension) is None,
    decreases extension.len(),
{
    let s = stem.push('.') + extension;
    if extension.len() > 0 {
        let front = extension.drop_last();
        assert(extension.contains(extension.last()));
        assert(s.last() == extension.last());
        assert(s.drop_last() =~= stem.push('.') + front);
        assert forall|c: char| front.contains(c) implies extension.contains(c) by {
            let i = choose|i: int| 0 <= i < front.len() && front[i] == c;
            assert(extension[i] == c);
        }
        lemma_before_dot(stem, front);
    } else {
        assert(s =~= stem.push('.'));
        assert(s.drop_last() =~= stem);
    }
}

/// Another extension takes the place of what stands behind the last dot of the name; a name without
/// a dot gets the extension behind it, and so does one whose only dot is its first character. What
/// stands before the name stays.
pub proof fn law_extensions(
    before: Seq<char>,
    stem: Seq<char>,
    extension: Seq<char>,
    other: Seq<char>,
)
    requires
        before.len() > 0 ==> before.last() == '/',
        stem.len() > 0,
        !stem.contains('/'),
        !extension.contains('/'),
        !extension.contains('.'),
    ensures
        stem != "."@ || extension.len() > 0 ==> path::with_other_extension(
            before + (stem.push('.') + extension),
            other,
        ) == before + stem + "."@ + other,
        extension.len() > 0 ==> path::with_other_extension(before + extension, other) == before
            + extension + "."@ + other,
        extension.len() > 0 ==> path::with_other_extension(
            before + (seq!['.'] + extension),
            other,
        ) == before + (seq!['.'] + extension) + "."@ + other,
{
    reveal_strlit(".");
    reveal_strlit("..");
    let name = stem.push('.') + extension;
    assert forall|i: int| 0 <= i < name.len() implies name[i] != '/' by {
        if i < stem.len() {
            assert(stem.contains(stem[i]));
        } else if i > stem.len() {
            assert(name[i] == extension[i - stem.len() - 1]);
            assert(extension.contains(name[i]));
        }
    }
    assert(name != "."@) by {
        assert(name.len() >= 2);
    }
    lemma_before_dot(stem, extension);
    if stem != "."@ || extension.len() > 0 {
        assert(name != ".."@) by {
            if name == ".."@ {
                assert(name[0] == '.');
                assert(stem =~= "."@);
                assert(extension.len() == 0);
            }
        }
        lemma_taken_apart(before, name);
    }
    if extension.len() > 0 {
        assert(extension != "."@) by {
            assert(extension.contains(extension[0]));
        }
        assert(extension != ".."@) by {
            assert(extension.contains(extension[0]));
        }
        lemma_taken_apart(before, extension);
        let hidden = seq!['.'] + extension;
        assert forall|i: int| 0 <= i < hidden.len() implies hidden[i] != '/' by {
            if i > 0 {
                assert(hidden[i] == extension[i - 1]);
                assert(extension.contains(hidden[i]));
            }
        }
        assert(hidden[1] == extension[0]);
        assert(extension.contains(hidden[1]));
        assert(hidden.len() >= 2);
        assert(hidden != ".."@);
        lemma_taken_apart(before, hidden);
        let none = Seq::<char>::empty();
        lemma_before_dot(none, extension);
        assert(none.push('.') + extension =~= hidden);
    }
}

/// The temporary file of a manifest lies beside it and has the extension `tmp` in place of its own,
/// or behind its name where it has none.
pub proof fn law_temporary_file(before: Seq<char>, stem: Seq<char>, extension: Seq<char>)
    requires
        before.len() > 0 ==> before.last() == '/',
        stem.len() > 0,
        !stem.contains('/'),
        extension.len() > 0,
        !extension.contains('/'),
        !extension.contains('.'),
    ensures
        manifest::temporary(before + (stem.push('.') + extension)) == before + stem + "."@ + "tmp"@,
        manifest::temporary(before + extension) == before + extension + "."@ + "tmp"@,
{
    law_extensions(before, stem, extension, "tmp"@);
}

/// How a manifest is put in place: its directory is made, where it lies in one; then the text is
/// written to the temporary file, and the file renamed to the manifest. What failed is not
/// followed by anything.
pub proof fn law_saving_steps(manifest: Seq<char>, s: manifest::Saving)
    ensures
        ({
            let step = manifest::saving_step(manifest, s);
            let directory = path::directory(manifest);
            let made = (s.made matches Some(Ok(_))) || (s.made is None && directory is None);
            let written = s.written matches Some(Ok(_));
            &&& s.made is None && directory is Some ==> step
                == manifest::SaveStepView::MakeDirectory(directory->0)
            &&& s.made matches Some(Err(e)) ==> step == manifest::SaveStepView::Failed(e@)
            &&& made && s.written is None ==> step == manifest::SaveStepView::WriteTemporary(
                manifest::temporary(manifest),
            )
            &&& made ==> (s.written matches Some(Err(e)) ==> step
                == manifest::SaveStepView::Failed(e@))
            &&& made && written && s.renamed is None ==> step == manifest::SaveStepView::Rename(
                manifest::temporary(manifest),
                manifest,
            )
            &&& made && written ==> (s.renamed matches Some(Err(e)) ==> step
                == manifest::SaveStepView::Failed(e@))
            &&& made && written && (s.renamed matches Some(Ok(_))) ==> step is Done
        }),
{
}

/// A path that names no file stays as it is, and slashes behind a name do not matter.
pub proof fn law_extensions_need_names(s: Seq<char>, other: Seq<char>)
    ensures
        path::named_file(s) is None ==> path::with_other_extension(s, other) == s,
        path::named_file(s) is Some ==> path::with_other_extension(s.push('/'), other)
            == path::with_other_extension(s, other),
{
    assert(s.push('/').drop_last() =~= s);
}

} // verus!
