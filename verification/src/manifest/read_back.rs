//! Reading a written manifest gives the plan back.

use vstd::prelude::*;

use crate::manifest;
use crate::number;
use crate::pci::device;
use crate::pci::{self, Bdf};
use crate::plan::{self, ActionView, PlanView};
use crate::text;

verus! {

/// The driver can be written to a manifest and read back: none, or a name on one line without
/// white space at its ends.
pub open spec fn driver_kept(d: Option<Seq<char>>) -> bool {
    match d {
        None => true,
        Some(d) => {
            &&& d.len() > 0
            &&& forall|i: int| 0 <= i < d.len() ==> d[i] != '\n'
            &&& text::trimmed(d) == d
        },
    }
}

/// A value that stays as it is on a line of a manifest.
spec fn plain_value(v: Seq<char>) -> bool {
    &&& forall|i: int| 0 <= i < v.len() ==> v[i] != '\n'
    &&& v.len() > 0 ==> !text::white(v[0]) && !text::white(v.last())
}

/// A name of a field: letters and underscores.
spec fn plain_name(s: Seq<char>) -> bool {
    &&& s.len() > 0
    &&& forall|i: int| 0 <= i < s.len() ==> ('a' <= s[i] <= 'z' || s[i] == '_')
}

spec fn whole_lines(x: Seq<char>) -> bool {
    x.len() > 0 ==> x.last() == '\n'
}

spec fn larger(a: nat, b: nat) -> nat {
    if a >= b {
        a
    } else {
        b
    }
}

proof fn lemma_key_index(i: nat, name: Seq<char>)
    requires
        i <= usize::MAX,
    ensures
        manifest::key_index(manifest::action_key(i, name)) == Some(i),
{
    reveal_strlit("action.");
    reveal_strlit(".");
    number::lemma_dec_reads_back(i, usize::MAX as nat);
    let d = number::dec(i);
    let key = manifest::action_key(i, name);
    let rest = d + "."@ + name;
    assert(key.take(7) =~= "action."@);
    assert(key.skip(7) =~= rest);
    text::lemma_find_is(rest, '.', d.len() as int);
    assert(rest.take(d.len() as int) =~= d);
}

proof fn lemma_key_names(i: nat, a: Seq<char>, b: Seq<char>)
    requires
        manifest::action_key(i, a) == manifest::action_key(i, b),
    ensures
        a == b,
{
    let p = "action."@ + number::dec(i) + "."@;
    assert((p + a).skip(p.len() as int) =~= a);
    assert((p + b).skip(p.len() as int) =~= b);
}

proof fn lemma_key_chars(i: nat, name: Seq<char>)
    requires
        plain_name(name),
    ensures
        manifest::action_key(i, name).len() > 0,
        manifest::action_key(i, name)[0] == 'a',
        !text::white(manifest::action_key(i, name).last()),
        forall|j: int|
            0 <= j < manifest::action_key(i, name).len() ==> {
                let c = #[trigger] manifest::action_key(i, name)[j];
                c != '\n' && c != '='
            },
{
    reveal_strlit("action.");
    reveal_strlit(".");
    number::lemma_dec_reads_back(i, i);
    let p = "action."@;
    let d = number::dec(i);
    let key = manifest::action_key(i, name);
    assert(key.last() == name.last());
    assert forall|j: int| 0 <= j < key.len() implies {
        let c = #[trigger] key[j];
        c != '\n' && c != '='
    } by {
        let n = p.len() + d.len();
        if j < p.len() {
            assert(key[j] == p[j]);
        } else if j < n {
            assert(key[j] == d[j - p.len()]);
        } else if j > n {
            assert(key[j] == name[j - n - 1]);
        }
    }
}

proof fn lemma_line_entry(key: Seq<char>, value: Seq<char>)
    requires
        key.len() > 0,
        key[0] != '#',
        !text::white(key[0]),
        !text::white(key.last()),
        forall|j: int| 0 <= j < key.len() ==> key[j] != '=',
        plain_value(value),
    ensures
        manifest::line_entry(key + "="@ + value) == Some((key, value)),
{
    reveal_strlit("=");
    let l = key + "="@ + value;
    if value.len() > 0 {
        assert(l.last() == value.last());
    } else {
        assert(l.last() == '=');
    }
    text::lemma_trimmed_same(l);
    text::lemma_find_is(l, '=', key.len() as int);
    assert(l.take(key.len() as int) =~= key);
    assert(l.skip(key.len() as int + 1) =~= value);
    text::lemma_trimmed_same(key);
    text::lemma_trimmed_same(value);
}

/// One more line.
proof fn lemma_put_line(x: Seq<char>, key: Seq<char>, value: Seq<char>)
    requires
        whole_lines(x),
        key.len() > 0,
        key[0] != '#',
        !text::white(key[0]),
        !text::white(key.last()),
        forall|j: int| 0 <= j < key.len() ==> #[trigger] key[j] != '=' && key[j] != '\n',
        plain_value(value),
    ensures
        ({
            let y = x + (key + "="@ + value + "\n"@);
            let before = text::lines(x);
            let after = text::lines(y);
            &&& whole_lines(y)
            &&& manifest::entries(after) == manifest::entries(before).insert(key, value)
            &&& manifest::action_count(after) == (match manifest::key_index(key) {
                Some(n) => larger(manifest::action_count(before), n + 1),
                None => manifest::action_count(before),
            })
        }),
{
    reveal_strlit("=");
    reveal_strlit("\n");
    let l = key + "="@ + value;
    assert(l + "\n"@ =~= l.push('\n'));
    assert forall|j: int| 0 <= j < l.len() implies l[j] != '\n' by {
        if j < key.len() {
            assert(l[j] == key[j]);
        } else if j > key.len() {
            assert(l[j] == value[j - key.len() - 1]);
        }
    }
    if value.len() > 0 {
        assert(l.last() == value.last());
    } else {
        assert(l.last() == '=');
    }
    assert(text::without_cr(l) == l);
    text::lemma_one_line(l);
    text::lemma_lines_add(x, l + "\n"@);
    lemma_line_entry(key, value);
    let y = x + (l + "\n"@);
    assert(y.last() == '\n');
    assert(text::lines(y) =~= text::lines(x).push(l));
    assert(text::lines(y).drop_last() =~= text::lines(x));
}

/// One more field of an action.
proof fn lemma_put_field(x: Seq<char>, i: nat, name: Seq<char>, value: Seq<char>)
    requires
        whole_lines(x),
        i <= usize::MAX,
        plain_name(name),
        plain_value(value),
    ensures
        ({
            let y = x + manifest::field_line(i, name, value);
            let before = text::lines(x);
            let after = text::lines(y);
            &&& whole_lines(y)
            &&& manifest::entries(after) == manifest::entries(before).insert(
                manifest::action_key(i, name),
                value,
            )
            &&& manifest::action_count(after) == larger(manifest::action_count(before), i + 1)
        }),
{
    lemma_key_chars(i, name);
    lemma_key_index(i, name);
    lemma_put_line(x, manifest::action_key(i, name), value);
}

/// An empty line changes nothing.
proof fn lemma_put_blank(x: Seq<char>)
    requires
        whole_lines(x),
    ensures
        ({
            let y = x + "\n"@;
            &&& whole_lines(y)
            &&& manifest::entries(text::lines(y)) == manifest::entries(text::lines(x))
            &&& manifest::action_count(text::lines(y)) == manifest::action_count(text::lines(x))
        }),
{
    reveal_strlit("\n");
    let empty = Seq::<char>::empty();
    assert("\n"@ =~= empty.push('\n'));
    text::lemma_one_line(empty);
    text::lemma_lines_add(x, "\n"@);
    let y = x + "\n"@;
    assert(text::lines(y) =~= text::lines(x).push(empty));
    assert(text::lines(y).drop_last() =~= text::lines(x));
    assert(manifest::line_entry(empty) is None);
}

spec fn has(m: Map<Seq<char>, Seq<char>>, i: nat, name: Seq<char>, value: Seq<char>) -> bool {
    m.dom().contains(manifest::action_key(i, name)) && m[manifest::action_key(i, name)] == value
}

spec fn same_at(
    before: Map<Seq<char>, Seq<char>>,
    after: Map<Seq<char>, Seq<char>>,
    k: Seq<char>,
) -> bool {
    &&& after.dom().contains(k) == before.dom().contains(k)
    &&& before.dom().contains(k) ==> after[k] == before[k]
}

/// The entries of all keys but those of action `i` are the same.
spec fn others_kept(
    before: Map<Seq<char>, Seq<char>>,
    after: Map<Seq<char>, Seq<char>>,
    i: nat,
) -> bool {
    forall|k: Seq<char>|
        manifest::key_index(k) != Some(i) ==> #[trigger] same_at(before, after, k)
}

/// The entries hold every field of action `i`.
#[verifier::opaque]
spec fn holds(m: Map<Seq<char>, Seq<char>>, i: nat, a: ActionView) -> bool {
    &&& has(m, i, "bdf"@, a.bdf.text())
    &&& has(m, i, "vendor"@, "0x"@ + number::hex_padded(a.vendor as nat, 4))
    &&& has(m, i, "device"@, "0x"@ + number::hex_padded(a.device_id as nat, 4))
    &&& has(m, i, "driver"@, manifest::driver_value(a.driver))
    &&& has(m, i, "rebar_cap_offset"@, "0x"@ + number::hex(a.rebar_cap_offset as nat))
    &&& has(m, i, "rebar_entry_index"@, number::dec(a.rebar_entry_index as nat))
    &&& has(m, i, "bar_index"@, number::dec(a.bar_index as nat))
    &&& has(m, i, "original_size_index"@, number::dec(a.original_size_index as nat))
    &&& has(m, i, "target_size_index"@, number::dec(a.target_size_index as nat))
    &&& has(m, i, "cut_point"@, a.cut_point.text())
    &&& has(m, i, "companions"@, text::joined(device::bdf_texts(a.companions), ","@))
}

proof fn lemma_plain_names()
    ensures
        plain_name("bdf"@),
        plain_name("vendor"@),
        plain_name("device"@),
        plain_name("driver"@),
        plain_name("rebar_cap_offset"@),
        plain_name("rebar_entry_index"@),
        plain_name("bar_index"@),
        plain_name("original_size_index"@),
        plain_name("target_size_index"@),
        plain_name("cut_point"@),
        plain_name("companions"@),
{
    reveal_strlit("bdf");
    reveal_strlit("vendor");
    reveal_strlit("device");
    reveal_strlit("driver");
    reveal_strlit("rebar_cap_offset");
    reveal_strlit("rebar_entry_index");
    reveal_strlit("bar_index");
    reveal_strlit("original_size_index");
    reveal_strlit("target_size_index");
    reveal_strlit("cut_point");
    reveal_strlit("companions");
}

/// The names of the fields differ in length, or in one of their first letters.
proof fn lemma_names_differ()
    ensures
        "bdf"@.len() == 3,
        "vendor"@.len() == 6,
        "vendor"@[0] == 'v',
        "device"@.len() == 6,
        "device"@[0] == 'd',
        "device"@[1] == 'e',
        "driver"@.len() == 6,
        "driver"@[0] == 'd',
        "driver"@[1] == 'r',
        "rebar_cap_offset"@.len() == 16,
        "rebar_entry_index"@.len() == 17,
        "rebar_entry_index"@[0] == 'r',
        "bar_index"@.len() == 9,
        "bar_index"@[0] == 'b',
        "original_size_index"@.len() == 19,
        "target_size_index"@.len() == 17,
        "target_size_index"@[0] == 't',
        "cut_point"@.len() == 9,
        "cut_point"@[0] == 'c',
        "companions"@.len() == 10,
{
    reveal_strlit("bdf");
    reveal_strlit("vendor");
    reveal_strlit("device");
    reveal_strlit("driver");
    reveal_strlit("rebar_cap_offset");
    reveal_strlit("rebar_entry_index");
    reveal_strlit("bar_index");
    reveal_strlit("original_size_index");
    reveal_strlit("target_size_index");
    reveal_strlit("cut_point");
    reveal_strlit("companions");
}

proof fn lemma_bdf_value(b: Bdf)
    ensures
        plain_value(b.text()),
        forall|i: int| 0 <= i < b.text().len() ==> b.text()[i] != ',',
{
    pci::lemma_bdf_text(b);
    let t = b.text();
    assert(forall|i: int| 0 <= i < t.len() ==> !text::white(#[trigger] t[i]) && t[i] != ',');
}

proof fn lemma_dec_value(n: nat)
    ensures
        plain_value(number::dec(n)),
{
    number::lemma_dec_reads_back(n, n);
}

proof fn lemma_hex_value(h: Seq<char>)
    requires
        forall|i: int| 0 <= i < h.len() ==> number::plain_digit(h[i]),
    ensures
        plain_value("0x"@ + h),
{
    reveal_strlit("0x");
    let v = "0x"@ + h;
    assert forall|i: int| 0 <= i < v.len() implies v[i] != '\n' && !text::white(v[i]) by {
        if i >= 2 {
            assert(v[i] == h[i - 2]);
        }
    }
}

proof fn lemma_list_value(list: Seq<Seq<char>>)
    requires
        forall|i: int| 0 <= i < list.len() ==> plain_value(#[trigger] list[i]) && list[i].len() > 0,
    ensures
        plain_value(text::joined(list, ","@)),
        list.len() > 0 ==> text::joined(list, ","@).len() > 0,
    decreases list.len(),
{
    reveal_strlit(",");
    if list.len() > 1 {
        let front = list.drop_last();
        assert forall|i: int| 0 <= i < front.len() implies plain_value(#[trigger] front[i])
            && front[i].len() > 0 by {
            assert(front[i] == list[i]);
        }
        lemma_list_value(front);
        let f = text::joined(front, ","@);
        let s = f + ","@ + list.last();
        let last = list[list.len() - 1];
        assert(s[0] == f[0]);
        assert(s.last() == last.last());
        assert forall|i: int| 0 <= i < s.len() implies s[i] != '\n' by {
            if i < f.len() {
                assert(s[i] == f[i]);
            } else if i > f.len() {
                assert(s[i] == last[i - f.len() - 1]);
            }
        }
    } else if list.len() == 1 {
        assert(plain_value(list[0]));
    }
}

/// The values that are written for an action stay as they are.
proof fn lemma_values(a: ActionView)
    requires
        driver_kept(a.driver),
    ensures
        plain_value(a.bdf.text()),
        plain_value("0x"@ + number::hex_padded(a.vendor as nat, 4)),
        plain_value("0x"@ + number::hex_padded(a.device_id as nat, 4)),
        plain_value(manifest::driver_value(a.driver)),
        plain_value("0x"@ + number::hex(a.rebar_cap_offset as nat)),
        plain_value(number::dec(a.rebar_entry_index as nat)),
        plain_value(number::dec(a.bar_index as nat)),
        plain_value(number::dec(a.original_size_index as nat)),
        plain_value(number::dec(a.target_size_index as nat)),
        plain_value(a.cut_point.text()),
        plain_value(text::joined(device::bdf_texts(a.companions), ","@)),
{
    reveal_strlit("");
    lemma_bdf_value(a.bdf);
    lemma_bdf_value(a.cut_point);
    number::lemma_hex_padded_reads_back(a.vendor as nat, 4, 0xffff);
    lemma_hex_value(number::hex_padded(a.vendor as nat, 4));
    number::lemma_hex_padded_reads_back(a.device_id as nat, 4, 0xffff);
    lemma_hex_value(number::hex_padded(a.device_id as nat, 4));
    number::lemma_hex_reads_back(a.rebar_cap_offset as nat, usize::MAX as nat);
    lemma_hex_value(number::hex(a.rebar_cap_offset as nat));
    lemma_dec_value(a.rebar_entry_index as nat);
    lemma_dec_value(a.bar_index as nat);
    lemma_dec_value(a.original_size_index as nat);
    lemma_dec_value(a.target_size_index as nat);
    match a.driver {
        Some(d) => text::lemma_trimmed_ends(d),
        None => {},
    }
    let list = device::bdf_texts(a.companions);
    assert forall|i: int| 0 <= i < list.len() implies plain_value(#[trigger] list[i])
        && list[i].len() > 0 by {
        lemma_bdf_value(a.companions[i]);
        pci::lemma_bdf_text(a.companions[i]);
    }
    lemma_list_value(list);
}

proof fn lemma_add_after(x: Seq<char>, a: Seq<char>, b: Seq<char>)
    ensures
        x + (a + b) == (x + a) + b,
{
    assert(x + (a + b) =~= (x + a) + b);
}

/// The entries of one action do not touch those of another.
proof fn lemma_holds_kept(
    before: Map<Seq<char>, Seq<char>>,
    after: Map<Seq<char>, Seq<char>>,
    j: nat,
    i: nat,
    a: ActionView,
)
    requires
        j != i,
        j <= usize::MAX,
        holds(before, j, a),
        others_kept(before, after, i),
    ensures
        holds(after, j, a),
{
    reveal(holds);
    lemma_key_index(j, "bdf"@);
    assert(same_at(before, after, manifest::action_key(j, "bdf"@)));
    lemma_key_index(j, "vendor"@);
    assert(same_at(before, after, manifest::action_key(j, "vendor"@)));
    lemma_key_index(j, "device"@);
    assert(same_at(before, after, manifest::action_key(j, "device"@)));
    lemma_key_index(j, "driver"@);
    assert(same_at(before, after, manifest::action_key(j, "driver"@)));
    lemma_key_index(j, "rebar_cap_offset"@);
    assert(same_at(before, after, manifest::action_key(j, "rebar_cap_offset"@)));
    lemma_key_index(j, "rebar_entry_index"@);
    assert(same_at(before, after, manifest::action_key(j, "rebar_entry_index"@)));
    lemma_key_index(j, "bar_index"@);
    assert(same_at(before, after, manifest::action_key(j, "bar_index"@)));
    lemma_key_index(j, "original_size_index"@);
    assert(same_at(before, after, manifest::action_key(j, "original_size_index"@)));
    lemma_key_index(j, "target_size_index"@);
    assert(same_at(before, after, manifest::action_key(j, "target_size_index"@)));
    lemma_key_index(j, "cut_point"@);
    assert(same_at(before, after, manifest::action_key(j, "cut_point"@)));
    lemma_key_index(j, "companions"@);
    assert(same_at(before, after, manifest::action_key(j, "companions"@)));
}

/// The lines of one more action.
#[verifier::rlimit(60)]
#[verifier::spinoff_prover]
proof fn lemma_put_action(x: Seq<char>, i: nat, a: ActionView)
    requires
        whole_lines(x),
        i <= usize::MAX,
        driver_kept(a.driver),
    ensures
        ({
            let y = x + manifest::action_text(i, a);
            let before = manifest::entries(text::lines(x));
            let after = manifest::entries(text::lines(y));
            &&& whole_lines(y)
            &&& holds(after, i, a)
            &&& others_kept(before, after, i)
            &&& manifest::action_count(text::lines(y)) == larger(
                manifest::action_count(text::lines(x)),
                i + 1,
            )
        }),
{
    lemma_plain_names();
    lemma_values(a);
    let f1 = manifest::field_line(i, "bdf"@, a.bdf.text());
    let f2 = manifest::field_line(i, "vendor"@, "0x"@ + number::hex_padded(a.vendor as nat, 4));
    let f3 = manifest::field_line(i, "device"@, "0x"@ + number::hex_padded(a.device_id as nat, 4));
    let f4 = manifest::field_line(i, "driver"@, manifest::driver_value(a.driver));
    let f5 = manifest::field_line(
        i,
        "rebar_cap_offset"@,
        "0x"@ + number::hex(a.rebar_cap_offset as nat),
    );
    let f6 = manifest::field_line(
        i,
        "rebar_entry_index"@,
        number::dec(a.rebar_entry_index as nat),
    );
    let f7 = manifest::field_line(i, "bar_index"@, number::dec(a.bar_index as nat));
    let f8 = manifest::field_line(
        i,
        "original_size_index"@,
        number::dec(a.original_size_index as nat),
    );
    let f9 = manifest::field_line(
        i,
        "target_size_index"@,
        number::dec(a.target_size_index as nat),
    );
    let f10 = manifest::field_line(i, "cut_point"@, a.cut_point.text());
    let f11 = manifest::field_line(
        i,
        "companions"@,
        text::joined(device::bdf_texts(a.companions), ","@),
    );
    lemma_put_field(x, i, "bdf"@, a.bdf.text());
    let x1 = x + f1;
    lemma_put_field(x1, i, "vendor"@, "0x"@ + number::hex_padded(a.vendor as nat, 4));
    let x2 = x1 + f2;
    lemma_put_field(x2, i, "device"@, "0x"@ + number::hex_padded(a.device_id as nat, 4));
    let x3 = x2 + f3;
    lemma_put_field(x3, i, "driver"@, manifest::driver_value(a.driver));
    let x4 = x3 + f4;
    lemma_put_field(x4, i, "rebar_cap_offset"@, "0x"@ + number::hex(a.rebar_cap_offset as nat));
    let x5 = x4 + f5;
    lemma_put_field(x5, i, "rebar_entry_index"@, number::dec(a.rebar_entry_index as nat));
    let x6 = x5 + f6;
    lemma_put_field(x6, i, "bar_index"@, number::dec(a.bar_index as nat));
    let x7 = x6 + f7;
    lemma_put_field(x7, i, "original_size_index"@, number::dec(a.original_size_index as nat));
    let x8 = x7 + f8;
    lemma_put_field(x8, i, "target_size_index"@, number::dec(a.target_size_index as nat));
    let x9 = x8 + f9;
    lemma_put_field(x9, i, "cut_point"@, a.cut_point.text());
    let x10 = x9 + f10;
    lemma_put_field(
        x10,
        i,
        "companions"@,
        text::joined(device::bdf_texts(a.companions), ","@),
    );
    let x11 = x10 + f11;
    lemma_put_blank(x11);
    let y = x11 + "\n"@;
    let t2 = f1 + f2;
    let t3 = t2 + f3;
    let t4 = t3 + f4;
    let t5 = t4 + f5;
    let t6 = t5 + f6;
    let t7 = t6 + f7;
    let t8 = t7 + f8;
    let t9 = t8 + f9;
    let t10 = t9 + f10;
    let t11 = t10 + f11;
    lemma_add_after(x, f1, f2);
    lemma_add_after(x, t2, f3);
    lemma_add_after(x, t3, f4);
    lemma_add_after(x, t4, f5);
    lemma_add_after(x, t5, f6);
    lemma_add_after(x, t6, f7);
    lemma_add_after(x, t7, f8);
    lemma_add_after(x, t8, f9);
    lemma_add_after(x, t9, f10);
    lemma_add_after(x, t10, f11);
    lemma_add_after(x, t11, "\n"@);
    assert(manifest::action_text(i, a) == t11 + "\n"@);
    assert(y == x + manifest::action_text(i, a));
    let before = manifest::entries(text::lines(x));
    let after = manifest::entries(text::lines(y));
    lemma_inserts(before, after, i, a);
}

/// Eleven insertions under different keys of one action.
#[verifier::rlimit(60)]
#[verifier::spinoff_prover]
proof fn lemma_inserts(
    before: Map<Seq<char>, Seq<char>>,
    after: Map<Seq<char>, Seq<char>>,
    i: nat,
    a: ActionView,
)
    requires
        i <= usize::MAX,
        after == before.insert(manifest::action_key(i, "bdf"@), a.bdf.text()).insert(
            manifest::action_key(i, "vendor"@),
            "0x"@ + number::hex_padded(a.vendor as nat, 4),
        ).insert(
            manifest::action_key(i, "device"@),
            "0x"@ + number::hex_padded(a.device_id as nat, 4),
        ).insert(manifest::action_key(i, "driver"@), manifest::driver_value(a.driver)).insert(
            manifest::action_key(i, "rebar_cap_offset"@),
            "0x"@ + number::hex(a.rebar_cap_offset as nat),
        ).insert(
            manifest::action_key(i, "rebar_entry_index"@),
            number::dec(a.rebar_entry_index as nat),
        ).insert(manifest::action_key(i, "bar_index"@), number::dec(a.bar_index as nat)).insert(
            manifest::action_key(i, "original_size_index"@),
            number::dec(a.original_size_index as nat),
        ).insert(
            manifest::action_key(i, "target_size_index"@),
            number::dec(a.target_size_index as nat),
        ).insert(manifest::action_key(i, "cut_point"@), a.cut_point.text()).insert(
            manifest::action_key(i, "companions"@),
            text::joined(device::bdf_texts(a.companions), ","@),
        ),
    ensures
        holds(after, i, a),
        others_kept(before, after, i),
{
    reveal(holds);
    lemma_names_differ();
    assert forall|n: Seq<char>, o: Seq<char>|
        #![trigger manifest::action_key(i, n), manifest::action_key(i, o)]
        manifest::action_key(i, n) == manifest::action_key(i, o) implies n == o by {
        lemma_key_names(i, n, o);
    }
    assert forall|n: Seq<char>|
        manifest::key_index(#[trigger] manifest::action_key(i, n)) == Some(i) by {
        lemma_key_index(i, n);
    }
}

proof fn lemma_hex_reads(digits: Seq<char>, n: nat, max: nat, what: Seq<char>)
    requires
        digits.len() > 0,
        forall|i: int| 0 <= i < digits.len() ==> number::plain_digit(digits[i]),
        number::numeral_value(digits, 16, max) == Ok::<nat, number::IntError>(n),
    ensures
        manifest::hex_number("0x"@ + digits, max, what) == Ok::<nat, Seq<char>>(n),
{
    reveal_strlit("0x");
    let v = "0x"@ + digits;
    assert(v.last() == digits.last());
    text::lemma_trimmed_same(v);
    assert(v.skip(2) =~= digits);
    assert(text::without_0x(digits) == digits);
    assert(text::without_0x(v) == digits);
}

proof fn lemma_dec_reads(n: nat)
    requires
        n <= 255,
    ensures
        manifest::dec_number(number::dec(n)) == Ok::<nat, Seq<char>>(n),
{
    number::lemma_dec_reads_back(n, 255);
    text::lemma_trimmed_same(number::dec(n));
}

proof fn lemma_named(v: Seq<Bdf>)
    ensures
        device::named_bdfs(device::bdf_texts(v)) == v,
    decreases v.len(),
{
    let t = device::bdf_texts(v);
    if v.len() > 0 {
        lemma_named(v.drop_last());
        assert(t.drop_last() =~= device::bdf_texts(v.drop_last()));
        pci::law_bdf_reads_back(v.last());
        assert(v.drop_last().push(v.last()) =~= v);
        assert(v.drop_last() + seq![v.last()] =~= v);
    } else {
        assert(t =~= seq![]);
        assert(device::named_bdfs(t) =~= v);
    }
}

proof fn lemma_list_reads(v: Seq<Bdf>)
    ensures
        manifest::listed_bdfs(text::joined(device::bdf_texts(v), ","@)) == v,
{
    reveal_strlit(",");
    let list = device::bdf_texts(v);
    if v.len() == 0 {
        let empty = Seq::<char>::empty();
        assert(text::joined(list, ","@) =~= empty);
        assert(text::pieces(empty, ',') =~= seq![empty]);
        assert(Bdf::parsed(empty) is None);
        assert(seq![empty].drop_last() =~= seq![]);
        reveal_with_fuel(Seq::filter_map, 2);
        assert(device::named_bdfs(seq![empty]) =~= v);
    } else {
        assert(","@ =~= seq![',']);
        assert forall|i: int, j: int|
            0 <= i < list.len() && 0 <= j < list[i].len() implies #[trigger] list[i][j] != ',' by {
            lemma_bdf_value(v[i]);
            assert(list[i] == v[i].text());
        }
        text::lemma_pieces_joined(list, ',', ","@);
        lemma_named(v);
    }
}

proof fn lemma_action_reads(m: Map<Seq<char>, Seq<char>>, i: nat, a: ActionView)
    requires
        holds(m, i, a),
        driver_kept(a.driver),
    ensures
        manifest::action_at(m, i) == Ok::<ActionView, Seq<char>>(a),
{
    reveal(holds);
    pci::law_bdf_reads_back(a.bdf);
    pci::law_bdf_reads_back(a.cut_point);
    number::lemma_hex_padded_reads_back(a.vendor as nat, 4, 0xffff);
    lemma_hex_reads(
        number::hex_padded(a.vendor as nat, 4),
        a.vendor as nat,
        0xffff,
        "parse hex16 "@,
    );
    number::lemma_hex_padded_reads_back(a.device_id as nat, 4, 0xffff);
    lemma_hex_reads(
        number::hex_padded(a.device_id as nat, 4),
        a.device_id as nat,
        0xffff,
        "parse hex16 "@,
    );
    number::lemma_hex_reads_back(a.rebar_cap_offset as nat, usize::MAX as nat);
    lemma_hex_reads(
        number::hex(a.rebar_cap_offset as nat),
        a.rebar_cap_offset as nat,
        usize::MAX as nat,
        "parse hex "@,
    );
    lemma_dec_reads(a.rebar_entry_index as nat);
    lemma_dec_reads(a.bar_index as nat);
    lemma_dec_reads(a.original_size_index as nat);
    lemma_dec_reads(a.target_size_index as nat);
    lemma_list_reads(a.companions);
    reveal_strlit("");
    assert(manifest::driver_named(manifest::driver_value(a.driver)) == a.driver);
    assert(manifest::numbers_at(m, i) is Ok);
}

proof fn lemma_actions_read(m: Map<Seq<char>, Seq<char>>, actions: Seq<ActionView>, n: nat)
    requires
        n <= actions.len(),
        forall|i: int| 0 <= i < n ==> holds(m, i as nat, #[trigger] actions[i]),
        forall|i: int| 0 <= i < n ==> driver_kept((#[trigger] actions[i]).driver),
    ensures
        manifest::actions_at(m, n) == Ok::<Seq<ActionView>, Seq<char>>(actions.take(n as int)),
    decreases n,
{
    if n > 0 {
        lemma_actions_read(m, actions, (n - 1) as nat);
        let last = actions[n - 1];
        assert(holds(m, (n - 1) as nat, last));
        lemma_action_reads(m, (n - 1) as nat, last);
        assert(actions.take(n as int) =~= actions.take(n - 1).push(last));
    } else {
        assert(actions.take(0) =~= seq![]);
    }
}

proof fn lemma_mode_line(x: Seq<char>, mode: plan::Mode)
    requires
        whole_lines(x),
    ensures
        ({
            let y = x + ("mode="@ + mode.text() + "\n"@);
            &&& whole_lines(y)
            &&& manifest::entries(text::lines(y)) == manifest::entries(text::lines(x)).insert(
                "mode"@,
                mode.text(),
            )
            &&& manifest::action_count(text::lines(y)) == manifest::action_count(text::lines(x))
            &&& manifest::key_index("mode"@) is None
        }),
{
    reveal_strlit("mode=");
    reveal_strlit("mode");
    reveal_strlit("=");
    reveal_strlit("action.");
    assert("mode="@ =~= "mode"@ + "="@);
    assert("mode"@.len() == 4);
    assert("action."@.len() == 7);
    let v = mode.text();
    match mode {
        plan::Mode::Planned => {
            reveal_strlit("planned");
        },
        plan::Mode::Current => {
            reveal_strlit("current");
        },
        plan::Mode::Explicit(n) => {
            reveal_strlit("explicit=");
            number::lemma_dec_reads_back(n as nat, 255);
            let d = number::dec(n as nat);
            assert(v.last() == d.last());
            assert forall|i: int| 0 <= i < v.len() implies v[i] != '\n' by {
                if i >= 9 {
                    assert(v[i] == d[i - 9]);
                }
            }
        },
    }
    assert(plain_value(v));
    lemma_put_line(x, "mode"@, v);
}

proof fn lemma_written(
    p: PlanView,
    n: nat,
    timestamp: u64,
    kernel: Seq<char>,
    hostname: Seq<char>,
)
    requires
        n <= p.actions.len() <= usize::MAX,
        forall|i: int| 0 <= i < n ==> driver_kept((#[trigger] p.actions[i]).driver),
    ensures
        ({
            let x = manifest::manifest_text(p, n, timestamp, kernel, hostname);
            let m = manifest::entries(text::lines(x));
            &&& whole_lines(x)
            &&& m.dom().contains("mode"@)
            &&& m["mode"@] == p.mode.text()
            &&& forall|i: int| 0 <= i < n ==> holds(m, i as nat, #[trigger] p.actions[i])
            &&& manifest::action_count(text::lines(x)) == larger(
                manifest::action_count(
                    text::lines(manifest::head_text(timestamp, kernel, hostname)),
                ),
                n,
            )
        }),
    decreases n,
{
    reveal_strlit("\n");
    let head = manifest::head_text(timestamp, kernel, hostname);
    assert(head.last() == '\n');
    lemma_mode_line(head, p.mode);
    if n == 0 {
        lemma_put_blank(head + ("mode="@ + p.mode.text() + "\n"@));
    } else {
        let k = (n - 1) as nat;
        lemma_written(p, k, timestamp, kernel, hostname);
        let x = manifest::manifest_text(p, k, timestamp, kernel, hostname);
        let a = p.actions[n - 1];
        lemma_put_action(x, k, a);
        let y = manifest::manifest_text(p, n, timestamp, kernel, hostname);
        assert(y == x + manifest::action_text(k, a));
        let before = manifest::entries(text::lines(x));
        let after = manifest::entries(text::lines(y));
        assert forall|i: int| 0 <= i < n implies holds(
            after,
            i as nat,
            #[trigger] p.actions[i],
        ) by {
            if i < k {
                lemma_holds_kept(before, after, i as nat, k, p.actions[i]);
            }
        }
        assert(manifest::key_index("mode"@) != Some(k));
        assert(same_at(before, after, "mode"@));
    }
}

/// Reading a written manifest gives the plan back. Each driver must fit on its line, and the lines
/// on the kernel and the host, which come first, must not number an action that the plan lacks.
pub proof fn law_manifest_reads_back(
    p: PlanView,
    timestamp: u64,
    kernel: Seq<char>,
    hostname: Seq<char>,
)
    requires
        p.actions.len() <= usize::MAX,
        forall|i: int| 0 <= i < p.actions.len() ==> driver_kept((#[trigger] p.actions[i]).driver),
        manifest::action_count(text::lines(manifest::head_text(timestamp, kernel, hostname)))
            <= p.actions.len(),
    ensures
        manifest::manifest_plan(
            manifest::manifest_text(p, p.actions.len(), timestamp, kernel, hostname),
        ) == Ok::<PlanView, Seq<char>>(p),
{
    let n = p.actions.len();
    lemma_written(p, n, timestamp, kernel, hostname);
    let x = manifest::manifest_text(p, n, timestamp, kernel, hostname);
    let m = manifest::entries(text::lines(x));
    plan::law_mode_reads_back(p.mode);
    lemma_actions_read(m, p.actions, n);
    assert(p.actions.take(n as int) =~= p.actions);
}

proof fn lemma_first_kept(s: Seq<char>)
    requires
        s.len() > 0,
        !text::white(s[0]),
    ensures
        text::trimmed_end(s).len() > 0,
        text::trimmed_end(s)[0] == s[0],
    decreases s.len(),
{
    if text::white(s.last()) {
        lemma_first_kept(s.drop_last());
    }
}

/// A line that does not start with an `a` numbers no action.
proof fn lemma_put_other(x: Seq<char>, l: Seq<char>)
    requires
        whole_lines(x),
        l.len() > 0,
        !text::white(l[0]),
        l[0] != 'a',
        forall|i: int| 0 <= i < l.len() ==> l[i] != '\n',
    ensures
        whole_lines(x + l.push('\n')),
        manifest::action_count(text::lines(x + l.push('\n'))) == manifest::action_count(
            text::lines(x),
        ),
{
    reveal_strlit("action.");
    text::lemma_one_line(l);
    text::lemma_lines_add(x, l.push('\n'));
    let y = x + l.push('\n');
    let line = text::without_cr(l);
    assert(y.last() == '\n');
    assert(text::lines(y) =~= text::lines(x).push(line));
    assert(text::lines(y).drop_last() =~= text::lines(x));
    assert(line[0] == l[0]);
    lemma_first_kept(line);
    let t = text::trimmed(line);
    match text::cut_at(t, '=') {
        None => {},
        Some((k, v)) => {
            let key = text::trimmed(k);
            if k.len() > 0 {
                assert(k[0] == t[0]);
                lemma_first_kept(k);
            }
            if text::starts(key, "action."@) {
                assert(key.take(7)[0] == 'a');
            }
        },
    }
}

/// A line on a name: what follows the line feed before it.
proof fn lemma_name_line(before: Seq<char>, label: Seq<char>, name: Seq<char>)
    requires
        label.len() > 1,
        label[0] == '\n',
        label[1] != 'a',
        !text::white(label[1]),
        forall|i: int| 1 <= i < label.len() ==> label[i] != '\n',
        forall|i: int| 0 <= i < name.len() ==> name[i] != '\n',
    ensures
        manifest::action_count(text::lines((before + label + name).push('\n')))
            == manifest::action_count(text::lines(before.push('\n'))),
{
    let l = label.skip(1) + name;
    assert forall|i: int| 0 <= i < l.len() implies l[i] != '\n' by {
        if i < label.len() - 1 {
            assert(l[i] == label[i + 1]);
        } else {
            assert(l[i] == name[i - (label.len() - 1)]);
        }
    }
    lemma_put_other(before.push('\n'), l);
    assert(before.push('\n') + l.push('\n') =~= (before + label + name).push('\n'));
}

proof fn lemma_first_lines(timestamp: u64)
    ensures
        manifest::action_count(
            text::lines(
                ("# t2rebar manifest\n"@ + "schema=1\n"@ + "timestamp_epoch="@ + number::dec(
                    timestamp as nat,
                )).push('\n'),
            ),
        ) == 0,
{
    reveal_strlit("# t2rebar manifest\n");
    reveal_strlit("schema=1\n");
    reveal_strlit("timestamp_epoch=");
    number::lemma_dec_reads_back(timestamp as nat, timestamp as nat);
    let d = number::dec(timestamp as nat);
    let l1 = "# t2rebar manifest\n"@.drop_last();
    let l2 = "schema=1\n"@.drop_last();
    let l3 = "timestamp_epoch="@ + d;
    assert forall|i: int| 0 <= i < l3.len() implies l3[i] != '\n' by {
        if i >= 16 {
            assert(l3[i] == d[i - 16]);
        }
    }
    let x0 = Seq::<char>::empty();
    let x1 = x0 + l1.push('\n');
    let x2 = x1 + l2.push('\n');
    assert(text::lines(x0) =~= seq![]);
    lemma_put_other(x0, l1);
    lemma_put_other(x1, l2);
    lemma_put_other(x2, l3);
    assert(x1 =~= "# t2rebar manifest\n"@);
    assert(x2 =~= "# t2rebar manifest\n"@ + "schema=1\n"@);
    assert(x2 + l3.push('\n') =~= (x2 + "timestamp_epoch="@ + d).push('\n'));
}

proof fn lemma_head_numbers_nothing(timestamp: u64, kernel: Seq<char>, hostname: Seq<char>)
    requires
        forall|i: int| 0 <= i < kernel.len() ==> kernel[i] != '\n',
        forall|i: int| 0 <= i < hostname.len() ==> hostname[i] != '\n',
    ensures
        manifest::action_count(text::lines(manifest::head_text(timestamp, kernel, hostname))) == 0,
{
    let y = "# t2rebar manifest\n"@ + "schema=1\n"@ + "timestamp_epoch="@ + number::dec(
        timestamp as nat,
    );
    let z = y + "\nkernel="@ + kernel;
    let w = z + "\nhostname="@ + hostname;
    lemma_first_lines(timestamp);
    assert(w + "\n"@ =~= w.push('\n')) by {
        reveal_strlit("\n");
    }
    reveal_strlit("\nkernel=");
    reveal_strlit("\nhostname=");
    lemma_name_line(y, "\nkernel="@, kernel);
    lemma_name_line(z, "\nhostname="@, hostname);
}

/// Reading a written manifest gives the plan back, where the kernel release and the host name hold
/// no line feed.
pub proof fn law_manifest_of_one_line_names_reads_back(
    p: PlanView,
    timestamp: u64,
    kernel: Seq<char>,
    hostname: Seq<char>,
)
    requires
        p.actions.len() <= usize::MAX,
        forall|i: int| 0 <= i < p.actions.len() ==> driver_kept((#[trigger] p.actions[i]).driver),
        forall|i: int| 0 <= i < kernel.len() ==> kernel[i] != '\n',
        forall|i: int| 0 <= i < hostname.len() ==> hostname[i] != '\n',
    ensures
        manifest::manifest_plan(
            manifest::manifest_text(p, p.actions.len(), timestamp, kernel, hostname),
        ) == Ok::<PlanView, Seq<char>>(p),
{
    lemma_head_numbers_nothing(timestamp, kernel, hostname);
    law_manifest_reads_back(p, timestamp, kernel, hostname);
}

} // verus!
