//! How devices get their names from a listing.

use vstd::prelude::*;

use crate::diagnose::labels;
use crate::pci::Bdf;
use crate::text;

verus! {

/// The fields of a line are the texts between pairs of quotation marks, in order. What stands
/// outside of them does not count, and neither does what follows a mark that is not closed.
pub proof fn law_quoted_fields(a: Seq<char>, b: Seq<char>, rest: Seq<char>)
    requires
        !a.contains('"'),
        !b.contains('"'),
    ensures
        labels::quoted_fields(a) == Seq::<Seq<char>>::empty(),
        labels::quoted_fields(a + seq!['"'] + b) == Seq::<Seq<char>>::empty(),
        labels::quoted_fields(a + seq!['"'] + (b + seq!['"'] + rest)) == seq![b]
            + labels::quoted_fields(rest),
{
    assert forall|i: int| 0 <= i < a.len() implies a[i] != '"' by {
        assert(a.contains(a[i]));
    }
    assert forall|i: int| 0 <= i < b.len() implies b[i] != '"' by {
        assert(b.contains(b[i]));
    }
    text::lemma_find_is(a, '"', a.len() as int);
    text::lemma_find_is(b, '"', b.len() as int);
    let s = a + seq!['"'] + b;
    text::lemma_find_is(s, '"', a.len() as int);
    assert(s.skip(a.len() as int + 1) =~= b);
    let inner = b + seq!['"'] + rest;
    let t = a + seq!['"'] + inner;
    text::lemma_find_is(t, '"', a.len() as int);
    assert(t.skip(a.len() as int + 1) =~= inner);
    text::lemma_find_is(inner, '"', b.len() as int);
    assert(inner.take(b.len() as int) =~= b);
    assert(inner.skip(b.len() as int + 1) =~= rest);
}

proof fn lemma_last_id(s: Seq<char>, n: nat, k: int)
    requires
        0 <= k < n <= s.len(),
        labels::id_at(s, k),
        forall|i: int| k < i < n ==> !labels::id_at(s, i),
    ensures
        labels::last_id(s, n) == Some(k as nat),
    decreases n,
{
    if k < n - 1 {
        assert(!labels::id_at(s, n - 1));
        lemma_last_id(s, (n - 1) as nat, k);
    }
}

proof fn lemma_no_id(s: Seq<char>, n: nat)
    requires
        n <= s.len(),
        forall|i: int| 0 <= i < n ==> !labels::id_at(s, i),
    ensures
        labels::last_id(s, n) is None,
    decreases n,
{
    if n > 0 {
        assert(!labels::id_at(s, n - 1));
        lemma_no_id(s, (n - 1) as nat);
    }
}

/// A name loses what follows its last space with an opening bracket behind it, and the white space
/// around the rest; a name without one only loses the white space.
pub proof fn law_names_without_numbers(name: Seq<char>, id: Seq<char>)
    requires
        forall|i: int| 0 <= i < id.len() - 1 ==> !(#[trigger] id[i] == ' ' && id[i + 1] == '['),
    ensures
        labels::without_id(name + seq![' ', '['] + id) == text::trimmed(name),
        labels::without_id(id) == text::trimmed(id),
{
    let s = name + seq![' ', '['] + id;
    let k = name.len() as int;
    assert(s[k] == ' ' && s[k + 1] == '[');
    assert forall|i: int| k < i < s.len() implies !labels::id_at(s, i) by {
        if i > k + 1 && i + 1 < s.len() {
            assert(s[i] == id[i - k - 2]);
            assert(s[i + 1] == id[i - k - 2 + 1]);
        }
    }
    lemma_last_id(s, s.len(), k);
    assert(s.take(k) =~= name);
    assert forall|i: int| 0 <= i < id.len() implies !labels::id_at(id, i) by {
        if i + 1 < id.len() {
            assert(!(id[i] == ' ' && id[i + 1] == '['));
        }
    }
    lemma_no_id(id, id.len());
}

/// The name of a device is made of the second and the third field of its line, without their
/// numbers; where both are empty or missing, the name is empty.
pub proof fn law_label_of_fields(fields: Seq<Seq<char>>)
    ensures
        ({
            let vendor = if fields.len() > 1 {
                labels::without_id(fields[1])
            } else {
                Seq::empty()
            };
            let device = if fields.len() > 2 {
                labels::without_id(fields[2])
            } else {
                Seq::empty()
            };
            if vendor.len() == 0 && device.len() == 0 {
                labels::label_text(fields).len() == 0
            } else {
                labels::label_text(fields) == "("@ + vendor + " — "@ + device + ")"@
            }
        }),
{
    reveal_strlit("");
    assert(""@ =~= Seq::<char>::empty());
}

/// A line names the device whose address stands before its first space; a line without a space or
/// without an address names none.
pub proof fn law_label_of_line(address: Seq<char>, rest: Seq<char>)
    requires
        !address.contains(' '),
    ensures
        labels::line_label(address) is None,
        labels::line_label(address + seq![' '] + rest) == match Bdf::parsed(address) {
            Some(b) => Some((b, labels::label_text(labels::quoted_fields(rest)))),
            None => None,
        },
{
    assert forall|i: int| 0 <= i < address.len() implies address[i] != ' ' by {
        assert(address.contains(address[i]));
    }
    text::lemma_find_is(address, ' ', address.len() as int);
    text::lemma_cut_at(address, ' ', rest);
}

/// Each line of a listing names its device, a later one over an earlier one, and leaves the other
/// names as they are. Without a listing nothing is named.
pub proof fn law_listing_names(ls: Seq<Seq<char>>, l: Seq<char>, b: Bdf)
    ensures
        labels::labels_in(None) == Map::<Bdf, Seq<char>>::empty(),
        labels::label_map(labels::listed_labels(Seq::empty())) == Map::<Bdf, Seq<char>>::empty(),
        ({
            let before = labels::label_map(labels::listed_labels(ls));
            let after = labels::label_map(labels::listed_labels(ls.push(l)));
            match labels::line_label(l) {
                Some((c, name)) => {
                    &&& labels::label_of(after, c) == name
                    &&& b != c ==> labels::label_of(after, b) == labels::label_of(before, b)
                },
                None => after == before,
            }
        }),
        forall|s: Seq<char>|
            text::lines(s) == ls ==> #[trigger] labels::labels_in(Some(s)) == labels::label_map(
                labels::listed_labels(ls),
            ),
{
    assert(ls.push(l).drop_last() =~= ls);
    assert(ls.push(l).last() == l);
    let all = labels::listed_labels(ls);
    match labels::line_label(l) {
        Some(p) => {
            let more = labels::listed_labels(ls.push(l));
            assert(more == all + seq![p]);
            assert(more.drop_last() =~= all);
            assert(more.last() == p);
        },
        None => {},
    }
    assert(labels::listed_labels(Seq::empty()) =~= Seq::<(Bdf, Seq<char>)>::empty());
}

/// The name of an address that has none is empty.
pub proof fn law_unnamed_address(m: Map<Bdf, Seq<char>>, b: Bdf)
    ensures
        !m.dom().contains(b) ==> labels::label_of(m, b).len() == 0,
        m.dom().contains(b) ==> labels::label_of(m, b) == m[b],
{
    reveal_strlit("");
}

} // verus!
