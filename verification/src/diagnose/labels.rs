//! Names of devices, from what `lspci -mm -D -nn` prints.

use vstd::prelude::*;
use vstd::slice::slice_subrange;

use crate::pci::Bdf;
use crate::text::{
    self, chars_of, copied, owned, position, split_lines, split_once, string_of, trim,
};

verus! {

/// The names of the devices.
#[derive(Debug)]
pub struct Labels {
    pub list: Vec<(Bdf, String)>,
}

/// The name of each address in a list; the last one given for an address counts.
pub open spec fn label_map(v: Seq<(Bdf, Seq<char>)>) -> Map<Bdf, Seq<char>>
    decreases v.len(),
{
    if v.len() == 0 {
        Map::empty()
    } else {
        label_map(v.drop_last()).insert(v.last().0, v.last().1)
    }
}

/// The contents of a list of named addresses.
pub open spec fn named(v: Seq<(Bdf, String)>) -> Seq<(Bdf, Seq<char>)> {
    Seq::new(v.len(), |i: int| (v[i].0, v[i].1@))
}

impl View for Labels {
    type V = Map<Bdf, Seq<char>>;

    open spec fn view(&self) -> Map<Bdf, Seq<char>> {
        label_map(named(self.list@))
    }
}

/// The name of an address, empty where it has none.
pub open spec fn label_of(m: Map<Bdf, Seq<char>>, bdf: Bdf) -> Seq<char> {
    if m.dom().contains(bdf) {
        m[bdf]
    } else {
        ""@
    }
}

impl Labels {
    /// The name of an address, empty where it has none.
    pub fn label(&self, bdf: Bdf) -> (r: String)
        ensures
            r@ == label_of(self@, bdf),
    {
        let ghost all = named(self.list@);
        let mut i: usize = self.list.len();
        assert(all.take(i as int) =~= all);
        while i > 0
            invariant
                i <= self.list.len(),
                all == named(self.list@),
                label_of(self@, bdf) == label_of(label_map(all.take(i as int)), bdf),
            decreases i,
        {
            assert(all.take(i as int).drop_last() =~= all.take(i - 1));
            assert(all.take(i as int).last() == (self.list@[i - 1].0, self.list@[i - 1].1@));
            if self.list[i - 1].0 == bdf {
                return owned(self.list[i - 1].1.as_str());
            }
            i -= 1;
        }
        assert(all.take(0) =~= seq![]);
        owned("")
    }
}

/// The texts between pairs of quotation marks.
pub open spec fn quoted_fields(s: Seq<char>) -> Seq<Seq<char>>
    decreases s.len(),
{
    let n = text::find(s, '"') as int;
    if n >= s.len() {
        seq![]
    } else {
        let rest = s.skip(n + 1);
        let m = text::find(rest, '"') as int;
        if m >= rest.len() {
            seq![]
        } else {
            seq![rest.take(m)] + quoted_fields(rest.skip(m + 1))
        }
    }
}

/// Gathers the texts between pairs of quotation marks.
pub fn split_quoted(s: &[char]) -> (v: Vec<Vec<char>>)
    ensures
        text::texts(v@) == quoted_fields(s@),
{
    let mut v: Vec<Vec<char>> = Vec::new();
    let mut rest = s;
    assert(text::texts(v@) + quoted_fields(s@) =~= quoted_fields(s@));
    loop
        invariant
            quoted_fields(s@) == text::texts(v@) + quoted_fields(rest@),
        ensures
            quoted_fields(s@) == text::texts(v@),
        decreases rest.len(),
    {
        let n = position(rest, '"');
        if n >= rest.len() {
            assert(text::texts(v@) + quoted_fields(rest@) =~= text::texts(v@));
            break;
        }
        let open = slice_subrange(rest, n + 1, rest.len());
        assert(open@ =~= rest@.skip(n + 1));
        let m = position(open, '"');
        if m >= open.len() {
            assert(text::texts(v@) + quoted_fields(rest@) =~= text::texts(v@));
            break;
        }
        let field = copied(slice_subrange(open, 0, m));
        assert(field@ =~= open@.take(m as int));
        let tail = slice_subrange(open, m + 1, open.len());
        assert(tail@ =~= open@.skip(m + 1));
        let ghost before = text::texts(v@);
        let ghost shown = field@;
        v.push(field);
        assert(text::texts(v@) =~= before.push(shown));
        assert(before + (seq![shown] + quoted_fields(tail@)) =~= text::texts(v@) + quoted_fields(
            tail@,
        ));
        rest = tail;
    }
    v
}

/// A space and an opening bracket stand at position `i`.
pub open spec fn id_at(s: Seq<char>, i: int) -> bool {
    0 <= i && i + 1 < s.len() && s[i] == ' ' && s[i + 1] == '['
}

/// The last position before `n` at which a space and an opening bracket stand.
pub open spec fn last_id(s: Seq<char>, n: nat) -> Option<nat>
    decreases n,
{
    if n == 0 {
        None
    } else if id_at(s, n - 1) {
        Some((n - 1) as nat)
    } else {
        last_id(s, (n - 1) as nat)
    }
}

/// A name without the bracketed number at its end.
pub open spec fn without_id(s: Seq<char>) -> Seq<char> {
    match last_id(s, s.len()) {
        Some(i) => text::trimmed(s.take(i as int)),
        None => text::trimmed(s),
    }
}

/// Removes the bracketed number at the end of a name.
pub fn strip_id(s: &[char]) -> (r: String)
    ensures
        r@ == without_id(s@),
{
    let mut i: usize = s.len();
    while i > 0
        invariant
            i <= s.len(),
            last_id(s@, s@.len()) == last_id(s@, i as nat),
        decreases i,
    {
        i -= 1;
        if i + 1 < s.len() && s[i] == ' ' && s[i + 1] == '[' {
            let head = slice_subrange(s, 0, i);
            assert(head@ =~= s@.take(i as int));
            return string_of(trim(head));
        }
    }
    string_of(trim(s))
}

/// Field `i` without its number, empty where there is no such field.
pub open spec fn field_name(fields: Seq<Seq<char>>, i: int) -> Seq<char> {
    if i < fields.len() {
        without_id(fields[i])
    } else {
        ""@
    }
}

/// The name made of the vendor and the device, the second and third of the quoted fields.
pub open spec fn label_text(fields: Seq<Seq<char>>) -> Seq<char> {
    let vendor = field_name(fields, 1);
    let device = field_name(fields, 2);
    if vendor.len() > 0 || device.len() > 0 {
        "("@ + vendor + " — "@ + device + ")"@
    } else {
        ""@
    }
}

/// The address and the name on one line.
pub open spec fn line_label(line: Seq<char>) -> Option<(Bdf, Seq<char>)> {
    match text::cut_at(line, ' ') {
        None => None,
        Some((address, rest)) => match Bdf::parsed(address) {
            None => None,
            Some(bdf) => Some((bdf, label_text(quoted_fields(rest)))),
        },
    }
}

/// The addresses and names in a list of lines; lines without an address are passed over.
pub open spec fn listed_labels(ls: Seq<Seq<char>>) -> Seq<(Bdf, Seq<char>)> {
    ls.filter_map(|l: Seq<char>| line_label(l))
}

/// The names that a listing holds; none where there is no listing.
pub open spec fn labels_in(listing: Option<Seq<char>>) -> Map<Bdf, Seq<char>> {
    match listing {
        Some(s) => label_map(listed_labels(text::lines(s))),
        None => Map::empty(),
    }
}

fn read_field(fields: &Vec<Vec<char>>, i: usize) -> (r: String)
    ensures
        r@ == field_name(text::texts(fields@), i as int),
{
    if i < fields.len() {
        strip_id(fields[i].as_slice())
    } else {
        owned("")
    }
}

fn read_label(line: &[char]) -> (r: Option<(Bdf, String)>)
    ensures
        match r {
            Some((b, s)) => line_label(line@) == Some((b, s@)),
            None => line_label(line@) is None,
        },
{
    let (address, rest) = match split_once(line, ' ') {
        Some(p) => p,
        None => return None,
    };
    let bdf = match Bdf::parse_chars(address) {
        Some(b) => b,
        None => return None,
    };
    let fields = split_quoted(rest);
    let vendor = read_field(&fields, 1);
    let device = read_field(&fields, 2);
    let label = if vendor.as_str().unicode_len() > 0 || device.as_str().unicode_len() > 0 {
        let mut l = owned("(");
        l.append(vendor.as_str());
        l.append(" — ");
        l.append(device.as_str());
        l.append(")");
        l
    } else {
        owned("")
    };
    Some((bdf, label))
}

/// Reads the names from a listing.
pub fn load_labels(listing: &Option<String>) -> (r: Labels)
    ensures
        r@ == labels_in(text::opt_text(*listing)),
{
    let mut list: Vec<(Bdf, String)> = Vec::new();
    let s = match listing {
        Some(s) => s,
        None => {
            assert(named(list@) =~= seq![]);
            return Labels { list };
        },
    };
    let cs = chars_of(s.as_str());
    let ls = split_lines(cs.as_slice());
    let ghost lines = text::lines(s@);
    let mut i: usize = 0;
    assert(listed_labels(lines.take(0)) =~= seq![]);
    assert(named(list@) =~= seq![]);
    while i < ls.len()
        invariant
            i <= ls.len(),
            lines == text::texts(ls@),
            named(list@) == listed_labels(lines.take(i as int)),
        decreases ls.len() - i,
    {
        assert(lines.take(i + 1).drop_last() =~= lines.take(i as int));
        assert(lines.take(i + 1).last() == ls@[i as int]@);
        match read_label(ls[i].as_slice()) {
            Some(p) => {
                let ghost before = named(list@);
                list.push(p);
                assert(named(list@) =~= before.push((p.0, p.1@)));
                assert(named(list@) =~= before + seq![(p.0, p.1@)]);
            },
            None => {},
        }
        i += 1;
    }
    assert(lines.take(i as int) =~= lines);
    Labels { list }
}

} // verus!
