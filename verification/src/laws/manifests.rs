//! What a manifest says, and how it is read.

use vstd::prelude::*;

use crate::laws::{numbers, texts};
use crate::manifest;
use crate::number;
use crate::pci::device;
use crate::pci::Bdf;
use crate::plan::{ActionView, Mode, PlanView};
use crate::text;

verus! {

proof fn lemma_white_is_no_sign(c: char)
    ensures
        text::white(c) ==> c != '=' && c != '#',
{
}

/// A line with a key and a value gives both, without the white space around them.
#[verifier::rlimit(30)]
#[verifier::spinoff_prover]
pub proof fn law_line_with_value(
    a: Seq<char>,
    key: Seq<char>,
    b: Seq<char>,
    c: Seq<char>,
    value: Seq<char>,
    d: Seq<char>,
)
    requires
        forall|i: int| 0 <= i < a.len() ==> text::white(a[i]),
        forall|i: int| 0 <= i < b.len() ==> text::white(b[i]),
        forall|i: int| 0 <= i < c.len() ==> text::white(c[i]),
        forall|i: int| 0 <= i < d.len() ==> text::white(d[i]),
        key.len() > 0,
        !text::white(key.first()),
        !text::white(key.last()),
        key.first() != '#',
        !key.contains('='),
        value.len() > 0 ==> !text::white(value.first()) && !text::white(value.last()),
    ensures
        manifest::line_entry(a + key + b + seq!['='] + c + value + d) == Some((key, value)),
{
    let none = Seq::<char>::empty();
    let line = a + key + b + seq!['='] + c + value + d;
    let left = key + b;
    assert forall|i: int| 0 <= i < left.len() implies left[i] != '=' by {
        if i < key.len() {
            assert(key.contains(key[i]));
        } else {
            lemma_white_is_no_sign(b[i - key.len()]);
        }
    }
    texts::law_trimmed_of_padded(none, key, b);
    assert(none + key + b =~= left);
    if value.len() > 0 {
        let s = left + seq!['='] + (c + value);
        assert(line =~= a + s + d);
        assert(s[0] == key[0]);
        assert(s.last() == value.last());
        texts::law_trimmed_of_padded(a, s, d);
        text::lemma_cut_at(left, '=', c + value);
        texts::law_trimmed_of_padded(c, value, none);
        assert(c + value + none =~= c + value);
    } else {
        let s = left + seq!['='] + none;
        let tail = c + d;
        assert(value =~= none);
        assert(line =~= a + s + tail);
        assert(s[0] == key[0]);
        assert(s.last() == '=');
        texts::law_trimmed_of_padded(a, s, tail);
        text::lemma_cut_at(left, '=', none);
        texts::law_trimmed_of_padded(none, none, none);
        assert(none + none + none =~= none);
    }
}

/// A line is passed over where there is nothing on it but white space, where its first character
/// behind white space is a `#`, and where it holds no `=`.
pub proof fn law_lines_passed_over(a: Seq<char>, rest: Seq<char>, line: Seq<char>)
    requires
        forall|i: int| 0 <= i < a.len() ==> text::white(a[i]),
    ensures
        manifest::line_entry(a) is None,
        manifest::line_entry(a + seq!['#'] + rest) is None,
        !line.contains('=') ==> manifest::line_entry(line) is None,
{
    let none = Seq::<char>::empty();
    texts::law_trimmed_of_padded(a, none, none);
    assert(a + none + none =~= a);
    let s = a + seq!['#'] + rest;
    texts::law_trimmed(s);
    let t = text::trimmed(s);
    let (x, y) = choose|x: Seq<char>, y: Seq<char>|
        #![trigger x + text::trimmed(s) + y]
        {
            &&& s == x + text::trimmed(s) + y
            &&& forall|i: int| 0 <= i < x.len() ==> text::white(x[i])
            &&& forall|i: int| 0 <= i < y.len() ==> text::white(y[i])
        };
    assert(s[a.len() as int] == '#');
    lemma_white_is_no_sign('#');
    if t.len() > 0 {
        assert(s[x.len() as int] == t[0]);
        if x.len() > a.len() {
            assert(x[a.len() as int] == '#');
        } else if x.len() < a.len() {
            assert(a[x.len() as int] == t[0]);
        }
    }
    texts::law_trimmed(line);
    let u = text::trimmed(line);
    let (x, y) = choose|x: Seq<char>, y: Seq<char>|
        #![trigger x + text::trimmed(line) + y]
        {
            &&& line == x + text::trimmed(line) + y
            &&& forall|i: int| 0 <= i < x.len() ==> text::white(x[i])
            &&& forall|i: int| 0 <= i < y.len() ==> text::white(y[i])
        };
    texts::law_cut(u, '=');
    match text::cut_at(u, '=') {
        Some((k, v)) => {
            assert(u[k.len() as int] == '=');
            assert(line[x.len() + k.len() as int] == '=');
        },
        None => {},
    }
}

/// Each line with a key gives it a value; a later line overrides an earlier one of the same key,
/// and a line without a key changes nothing.
pub proof fn law_later_lines_count(ls: Seq<Seq<char>>, l: Seq<char>, key: Seq<char>)
    ensures
        manifest::entries(Seq::empty()) == Map::<Seq<char>, Seq<char>>::empty(),
        match manifest::line_entry(l) {
            Some((k, v)) => {
                let m = manifest::entries(ls.push(l));
                &&& m.dom().contains(k) && m[k] == v
                &&& key != k ==> m.dom().contains(key) == manifest::entries(ls).dom().contains(key)
                &&& key != k && m.dom().contains(key) ==> m[key] == manifest::entries(ls)[key]
            },
            None => manifest::entries(ls.push(l)) == manifest::entries(ls),
        },
{
    assert(ls.push(l).drop_last() =~= ls);
    assert(ls.push(l).last() == l);
}

/// The number of actions is one more than the largest number behind `action.` in a key.
pub proof fn law_number_of_actions(ls: Seq<Seq<char>>, l: Seq<char>)
    ensures
        manifest::action_count(Seq::empty()) == 0,
        ({
            let before = manifest::action_count(ls);
            let after = manifest::action_count(ls.push(l));
            match manifest::line_entry(l) {
                Some((k, _)) => match manifest::key_index(k) {
                    Some(n) => after > n && after >= before && (after == before || after == n + 1),
                    None => after == before,
                },
                None => after == before,
            }
        }),
{
    assert(ls.push(l).drop_last() =~= ls);
    assert(ls.push(l).last() == l);
}

/// A key belongs to an action where a number stands between `action.` and the next dot, or the end
/// of the key.
pub proof fn law_keys_of_actions(digits: Seq<char>, rest: Seq<char>, key: Seq<char>)
    requires
        !digits.contains('.'),
    ensures
        ({
            let n = number::numeral_value(digits, 10, usize::MAX as nat);
            &&& n is Ok ==> manifest::key_index("action."@ + (digits + seq!['.'] + rest)) == Some(
                n->Ok_0,
            )
            &&& n is Err ==> manifest::key_index("action."@ + (digits + seq!['.'] + rest)) is None
            &&& n is Ok ==> manifest::key_index("action."@ + digits) == Some(n->Ok_0)
        }),
        !"action."@.is_prefix_of(key) ==> manifest::key_index(key) is None,
{
    let p = "action."@;
    let r = digits + seq!['.'] + rest;
    assert forall|i: int| 0 <= i < digits.len() implies digits[i] != '.' by {
        assert(digits.contains(digits[i]));
    }
    texts::law_prefix(p + r, p, r);
    text::lemma_find_is(r, '.', digits.len() as int);
    assert(r.take(digits.len() as int) =~= digits);
    texts::law_prefix(p + digits, p, digits);
    text::lemma_find_is(digits, '.', digits.len() as int);
    assert(digits.take(digits.len() as int) =~= digits);
    assert(key.take(p.len() as int) == key.subrange(0, p.len() as int));
}

/// A field of an action is looked up under its key; where the key is missing, the message says so.
pub proof fn law_fields_of_actions(m: Map<Seq<char>, Seq<char>>, i: nat, name: Seq<char>)
    ensures
        ({
            let key = "action."@ + number::dec(i) + "."@ + name;
            manifest::field(m, i, name) == if m.dom().contains(key) {
                Ok::<Seq<char>, Seq<char>>(m[key])
            } else {
                Err("missing "@ + key)
            }
        }),
{
}

/// A hexadecimal value is a number within its limit, with or without `0x`, with white space around
/// it or not; one beyond the limit does not read.
pub proof fn law_hexadecimal_values(
    a: Seq<char>,
    n: nat,
    width: nat,
    b: Seq<char>,
    max: nat,
    what: Seq<char>,
)
    requires
        n <= max,
        forall|i: int| 0 <= i < a.len() ==> text::white(a[i]),
        forall|i: int| 0 <= i < b.len() ==> text::white(b[i]),
    ensures
        manifest::hex_number(a + ("0x"@ + number::hex_padded(n, width)) + b, max, what) == Ok::<
            nat,
            Seq<char>,
        >(n),
        manifest::hex_number(a + number::hex_padded(n, width) + b, max, what) == Ok::<
            nat,
            Seq<char>,
        >(n),
{
    number::lemma_hex_padded_reads_back(n, width, max);
    let h = number::hex_padded(n, width);
    reveal_strlit("0x");
    let x = "0x"@ + h;
    texts::law_hex_prefix(h);
    assert(number::plain_digit(h[h.len() - 1]));
    assert(number::plain_digit(h[0]));
    if "0x"@.is_prefix_of(h) {
        assert(h.subrange(0, 2)[1] == 'x');
        assert(number::plain_digit(h[1]));
    }
    assert(x.last() == h.last());
    assert(x[0] == '0');
    texts::law_trimmed_of_padded(a, x, b);
    texts::law_trimmed_of_padded(a, h, b);
}

/// A decimal value is a number below 256, with white space around it or not.
pub proof fn law_decimal_values(a: Seq<char>, n: nat, b: Seq<char>)
    requires
        n <= 255,
        forall|i: int| 0 <= i < a.len() ==> text::white(a[i]),
        forall|i: int| 0 <= i < b.len() ==> text::white(b[i]),
    ensures
        manifest::dec_number(a + number::dec(n) + b) == Ok::<nat, Seq<char>>(n),
{
    number::lemma_dec_reads_back(n, 255);
    let d = number::dec(n);
    assert('0' <= d[0] <= '9');
    assert('0' <= d[d.len() - 1] <= '9');
    texts::law_trimmed_of_padded(a, d, b);
}

/// A hexadecimal value is read without the white space around it and without every `0x` in front,
/// a decimal one without the white space; what is left must be a numeral, and the message on one
/// that is none shows it and says why.
pub proof fn law_value_texts(
    a: Seq<char>,
    x: Seq<char>,
    b: Seq<char>,
    max: nat,
    what: Seq<char>,
)
    requires
        forall|i: int| 0 <= i < a.len() ==> text::white(a[i]),
        forall|i: int| 0 <= i < b.len() ==> text::white(b[i]),
        x.len() > 0 ==> !text::white(x.first()) && !text::white(x.last()),
    ensures
        !"0x"@.is_prefix_of(x) ==> manifest::hex_number(a + x + b, max, what)
            == match number::numeral_value(x, 16, max) {
            Ok(n) => Ok::<nat, Seq<char>>(n),
            Err(e) => Err(what + text::quoted(x) + ": "@ + e.text()),
        },
        manifest::hex_number(a + ("0x"@ + x) + b, max, what) == manifest::hex_number(x, max, what),
        manifest::dec_number(a + x + b) == match number::numeral_value(x, 10, 255) {
            Ok(n) => Ok::<nat, Seq<char>>(n),
            Err(e) => Err("parse dec "@ + text::quoted(a + x + b) + ": "@ + e.text()),
        },
{
    reveal_strlit("0x");
    let none = Seq::<char>::empty();
    texts::law_hex_prefix(x);
    texts::law_trimmed_of_padded(a, x, b);
    let y = "0x"@ + x;
    assert(y[0] == '0');
    assert(y.last() == if x.len() > 0 {
        x.last()
    } else {
        'x'
    });
    texts::law_trimmed_of_padded(a, y, b);
    texts::law_trimmed_of_padded(none, x, none);
    assert(none + x + none =~= x);
}

/// No value reads as a number beyond its limit.
pub proof fn law_values_within_limits(v: Seq<char>, max: nat, what: Seq<char>)
    ensures
        manifest::hex_number(v, max, what) matches Ok(n) ==> n <= max,
        manifest::dec_number(v) matches Ok(n) ==> n <= 255,
{
    let h = text::without_0x(text::trimmed(v));
    if h.len() > 0 {
        numbers::lemma_digits(h, 16, max);
        numbers::lemma_digits(h.skip(1), 16, max);
    }
    let d = text::trimmed(v);
    if d.len() > 0 {
        numbers::lemma_digits(d, 10, 255);
        numbers::lemma_digits(d.skip(1), 10, 255);
    }
}

/// The field of an action that holds this value.
pub open spec fn value_of(m: Map<Seq<char>, Seq<char>>, i: nat, name: Seq<char>) -> Seq<char> {
    m["action."@ + number::dec(i) + "."@ + name]
}

/// The manifest has this field for an action.
pub open spec fn has_field(m: Map<Seq<char>, Seq<char>>, i: nat, name: Seq<char>) -> bool {
    m.dom().contains("action."@ + number::dec(i) + "."@ + name)
}

/// An action that was read is what its eleven fields say. An empty driver is none, and the
/// companions are the addresses in a list with commas.
pub proof fn law_read_action(m: Map<Seq<char>, Seq<char>>, i: nat)
    requires
        manifest::action_at(m, i) is Ok,
    ensures
        ({
            let a = manifest::action_at(m, i)->Ok_0;
            let driver = value_of(m, i, "driver"@);
            &&& has_field(m, i, "bdf"@) && Bdf::parsed(value_of(m, i, "bdf"@)) == Some(a.bdf)
            &&& has_field(m, i, "cut_point"@) && Bdf::parsed(value_of(m, i, "cut_point"@)) == Some(
                a.cut_point,
            )
            &&& has_field(m, i, "driver"@) && a.driver == if driver.len() == 0 {
                None::<Seq<char>>
            } else {
                Some(driver)
            }
            &&& has_field(m, i, "companions"@) && a.companions == device::named_bdfs(
                text::pieces(value_of(m, i, "companions"@), ','),
            )
            &&& has_field(m, i, "vendor"@) && manifest::hex_number(
                value_of(m, i, "vendor"@),
                0xffff,
                "parse hex16 "@,
            ) == Ok::<nat, Seq<char>>(a.vendor as nat)
            &&& has_field(m, i, "device"@) && manifest::hex_number(
                value_of(m, i, "device"@),
                0xffff,
                "parse hex16 "@,
            ) == Ok::<nat, Seq<char>>(a.device_id as nat)
            &&& has_field(m, i, "rebar_cap_offset"@) && manifest::hex_number(
                value_of(m, i, "rebar_cap_offset"@),
                usize::MAX as nat,
                "parse hex "@,
            ) == Ok::<nat, Seq<char>>(a.rebar_cap_offset as nat)
            &&& has_field(m, i, "rebar_entry_index"@) && manifest::dec_number(
                value_of(m, i, "rebar_entry_index"@),
            ) == Ok::<nat, Seq<char>>(a.rebar_entry_index as nat)
            &&& has_field(m, i, "bar_index"@) && manifest::dec_number(
                value_of(m, i, "bar_index"@),
            ) == Ok::<nat, Seq<char>>(a.bar_index as nat)
            &&& has_field(m, i, "original_size_index"@) && manifest::dec_number(
                value_of(m, i, "original_size_index"@),
            ) == Ok::<nat, Seq<char>>(a.original_size_index as nat)
            &&& has_field(m, i, "target_size_index"@) && manifest::dec_number(
                value_of(m, i, "target_size_index"@),
            ) == Ok::<nat, Seq<char>>(a.target_size_index as nat)
        }),
{
    law_values_within_limits(value_of(m, i, "vendor"@), 0xffff, "parse hex16 "@);
    law_values_within_limits(value_of(m, i, "device"@), 0xffff, "parse hex16 "@);
    law_values_within_limits(
        value_of(m, i, "rebar_cap_offset"@),
        usize::MAX as nat,
        "parse hex "@,
    );
    law_values_within_limits(value_of(m, i, "rebar_entry_index"@), 0, seq![]);
    law_values_within_limits(value_of(m, i, "bar_index"@), 0, seq![]);
    law_values_within_limits(value_of(m, i, "original_size_index"@), 0, seq![]);
    law_values_within_limits(value_of(m, i, "target_size_index"@), 0, seq![]);
}

/// An action reads where all its fields are there and read.
pub proof fn law_when_action_reads(m: Map<Seq<char>, Seq<char>>, i: nat)
    requires
        has_field(m, i, "bdf"@) && Bdf::parsed(value_of(m, i, "bdf"@)) is Some,
        has_field(m, i, "cut_point"@) && Bdf::parsed(value_of(m, i, "cut_point"@)) is Some,
        has_field(m, i, "driver"@),
        has_field(m, i, "companions"@),
        has_field(m, i, "vendor"@) && manifest::hex_number(
            value_of(m, i, "vendor"@),
            0xffff,
            "parse hex16 "@,
        ) is Ok,
        has_field(m, i, "device"@) && manifest::hex_number(
            value_of(m, i, "device"@),
            0xffff,
            "parse hex16 "@,
        ) is Ok,
        has_field(m, i, "rebar_cap_offset"@) && manifest::hex_number(
            value_of(m, i, "rebar_cap_offset"@),
            usize::MAX as nat,
            "parse hex "@,
        ) is Ok,
        has_field(m, i, "rebar_entry_index"@) && manifest::dec_number(
            value_of(m, i, "rebar_entry_index"@),
        ) is Ok,
        has_field(m, i, "bar_index"@) && manifest::dec_number(value_of(m, i, "bar_index"@)) is Ok,
        has_field(m, i, "original_size_index"@) && manifest::dec_number(
            value_of(m, i, "original_size_index"@),
        ) is Ok,
        has_field(m, i, "target_size_index"@) && manifest::dec_number(
            value_of(m, i, "target_size_index"@),
        ) is Ok,
    ensures
        manifest::action_at(m, i) is Ok,
{
}

/// Why an action does not read: the first of its fields, in this order, that is missing or does not
/// read decides the message.
pub proof fn law_why_action_does_not_read(m: Map<Seq<char>, Seq<char>>, i: nat)
    requires
        manifest::action_at(m, i) is Err,
    ensures
        ({
            let e = manifest::action_at(m, i)->Err_0;
            let key = |name: Seq<char>| "action."@ + number::dec(i) + "."@ + name;
            let missing = |name: Seq<char>| "missing "@ + key(name);
            if !has_field(m, i, "bdf"@) {
                e == missing("bdf"@)
            } else if Bdf::parsed(value_of(m, i, "bdf"@)) is None {
                e == "bad "@ + key("bdf"@)
            } else if !has_field(m, i, "cut_point"@) {
                e == missing("cut_point"@)
            } else if Bdf::parsed(value_of(m, i, "cut_point"@)) is None {
                e == "bad "@ + key("cut_point"@)
            } else if !has_field(m, i, "driver"@) {
                e == missing("driver"@)
            } else if !has_field(m, i, "companions"@) {
                e == missing("companions"@)
            } else if !has_field(m, i, "vendor"@) {
                e == missing("vendor"@)
            } else if manifest::hex_number(
                value_of(m, i, "vendor"@),
                0xffff,
                "parse hex16 "@,
            ) is Err {
                manifest::hex_number(value_of(m, i, "vendor"@), 0xffff, "parse hex16 "@) == Err::<
                    nat,
                    Seq<char>,
                >(e)
            } else if !has_field(m, i, "device"@) {
                e == missing("device"@)
            } else if manifest::hex_number(
                value_of(m, i, "device"@),
                0xffff,
                "parse hex16 "@,
            ) is Err {
                manifest::hex_number(value_of(m, i, "device"@), 0xffff, "parse hex16 "@) == Err::<
                    nat,
                    Seq<char>,
                >(e)
            } else if !has_field(m, i, "rebar_cap_offset"@) {
                e == missing("rebar_cap_offset"@)
            } else if manifest::hex_number(
                value_of(m, i, "rebar_cap_offset"@),
                usize::MAX as nat,
                "parse hex "@,
            ) is Err {
                manifest::hex_number(
                    value_of(m, i, "rebar_cap_offset"@),
                    usize::MAX as nat,
                    "parse hex "@,
                ) == Err::<nat, Seq<char>>(e)
            } else if !has_field(m, i, "rebar_entry_index"@) {
                e == missing("rebar_entry_index"@)
            } else if manifest::dec_number(value_of(m, i, "rebar_entry_index"@)) is Err {
                manifest::dec_number(value_of(m, i, "rebar_entry_index"@)) == Err::<
                    nat,
                    Seq<char>,
                >(e)
            } else if !has_field(m, i, "bar_index"@) {
                e == missing("bar_index"@)
            } else if manifest::dec_number(value_of(m, i, "bar_index"@)) is Err {
                manifest::dec_number(value_of(m, i, "bar_index"@)) == Err::<nat, Seq<char>>(e)
            } else if !has_field(m, i, "original_size_index"@) {
                e == missing("original_size_index"@)
            } else if manifest::dec_number(value_of(m, i, "original_size_index"@)) is Err {
                manifest::dec_number(value_of(m, i, "original_size_index"@)) == Err::<
                    nat,
                    Seq<char>,
                >(e)
            } else if !has_field(m, i, "target_size_index"@) {
                e == missing("target_size_index"@)
            } else {
                manifest::dec_number(value_of(m, i, "target_size_index"@)) == Err::<
                    nat,
                    Seq<char>,
                >(e)
            }
        }),
{
}

proof fn lemma_actions(m: Map<Seq<char>, Seq<char>>, n: nat, i: int)
    ensures
        match manifest::actions_at(m, n) {
            Ok(actions) => {
                &&& actions.len() == n
                &&& 0 <= i < n ==> manifest::action_at(m, i as nat) == Ok::<ActionView, Seq<char>>(
                    actions[i],
                )
            },
            Err(e) => exists|k: int|
                {
                    &&& 0 <= k < n
                    &&& #[trigger] manifest::action_at(m, k as nat) == Err::<
                        ActionView,
                        Seq<char>,
                    >(e)
                    &&& forall|j: int|
                        0 <= j < k ==> #[trigger] manifest::action_at(m, j as nat) is Ok
                },
        },
    decreases n,
{
    if n > 0 {
        let before = (n - 1) as nat;
        lemma_actions(m, before, i);
        if manifest::actions_at(m, before) is Ok {
            assert forall|j: int| 0 <= j < before implies #[trigger] manifest::action_at(
                m,
                j as nat,
            ) is Ok by {
                lemma_actions(m, before, j);
            }
            if manifest::action_at(m, before) is Err {
                assert(manifest::action_at(m, (n - 1) as nat) is Err);
            }
        }
    }
}

/// The plan of a manifest has the mode that its line names and all its actions, in order. There is
/// no plan where the mode is missing or wrong, or where an action does not read; then the first
/// such action decides the message.
pub proof fn law_read_plan(contents: Seq<char>, i: int)
    ensures
        ({
            let ls = text::lines(contents);
            let m = manifest::entries(ls);
            let n = manifest::action_count(ls);
            match manifest::manifest_plan(contents) {
                Ok(p) => {
                    &&& m.dom().contains("mode"@)
                    &&& Mode::parsed(m["mode"@]) == Some(p.mode)
                    &&& p.actions.len() == n
                    &&& 0 <= i < n ==> manifest::action_at(m, i as nat) == Ok::<
                        ActionView,
                        Seq<char>,
                    >(p.actions[i])
                },
                Err(e) => if !m.dom().contains("mode"@) {
                    e == "missing mode"@
                } else if Mode::parsed(m["mode"@]) is None {
                    e == "bad mode: "@ + m["mode"@]
                } else {
                    exists|k: int|
                        {
                            &&& 0 <= k < n
                            &&& #[trigger] manifest::action_at(m, k as nat) == Err::<
                                ActionView,
                                Seq<char>,
                            >(e)
                            &&& forall|j: int|
                                0 <= j < k ==> #[trigger] manifest::action_at(m, j as nat) is Ok
                        }
                },
            }
        }),
{
    let ls = text::lines(contents);
    lemma_actions(manifest::entries(ls), manifest::action_count(ls), i);
}

proof fn lemma_text_starts(
    p: PlanView,
    n: nat,
    timestamp: u64,
    kernel: Seq<char>,
    hostname: Seq<char>,
)
    ensures
        manifest::manifest_text(p, 0, timestamp, kernel, hostname).is_prefix_of(
            manifest::manifest_text(p, n, timestamp, kernel, hostname),
        ),
    decreases n,
{
    let head = manifest::manifest_text(p, 0, timestamp, kernel, hostname);
    if n == 0 {
        assert(head.subrange(0, head.len() as int) =~= head);
    } else {
        lemma_text_starts(p, (n - 1) as nat, timestamp, kernel, hostname);
        let before = manifest::manifest_text(p, (n - 1) as nat, timestamp, kernel, hostname);
        let t = manifest::manifest_text(p, n, timestamp, kernel, hostname);
        assert(t.subrange(0, head.len() as int) =~= before.subrange(0, head.len() as int));
    }
}

/// A manifest starts with a comment, its schema, the time, the kernel, the host and the mode, each
/// on a line.
pub proof fn law_manifest_starts(
    p: PlanView,
    timestamp: u64,
    kernel: Seq<char>,
    hostname: Seq<char>,
)
    ensures
        ("# t2rebar manifest\n"@ + "schema=1\n"@ + "timestamp_epoch="@ + number::dec(
            timestamp as nat,
        ) + "\nkernel="@ + kernel + "\nhostname="@ + hostname + "\n"@ + ("mode="@ + p.mode.text()
            + "\n"@) + "\n"@).is_prefix_of(
            manifest::manifest_text(p, p.actions.len(), timestamp, kernel, hostname),
        ),
{
    lemma_text_starts(p, p.actions.len(), timestamp, kernel, hostname);
}

/// The kernel and the host are named by what their files hold, without white space around it, and
/// are unknown where that cannot be read.
pub proof fn law_names_of_system(s: Seq<char>)
    ensures
        manifest::name_or_unknown(Some(s)) == text::trimmed(s),
        manifest::name_or_unknown(None) == "unknown"@,
{
}

/// A manifest grows by each action: one line for each of its eleven fields, and an empty line.
pub proof fn law_written_actions(
    p: PlanView,
    n: nat,
    timestamp: u64,
    kernel: Seq<char>,
    hostname: Seq<char>,
)
    ensures
        ({
            let a = p.actions[n as int];
            let line = |name: Seq<char>, value: Seq<char>|
                "action."@ + number::dec(n) + "."@ + name + "="@ + value + "\n"@;
            let driver = match a.driver {
                Some(d) => d,
                None => Seq::empty(),
            };
            manifest::manifest_text(p, n + 1, timestamp, kernel, hostname)
                == manifest::manifest_text(p, n, timestamp, kernel, hostname) + (line(
                "bdf"@,
                a.bdf.text(),
            ) + line("vendor"@, "0x"@ + number::hex_padded(a.vendor as nat, 4)) + line(
                "device"@,
                "0x"@ + number::hex_padded(a.device_id as nat, 4),
            ) + line("driver"@, driver) + line(
                "rebar_cap_offset"@,
                "0x"@ + number::hex(a.rebar_cap_offset as nat),
            ) + line("rebar_entry_index"@, number::dec(a.rebar_entry_index as nat)) + line(
                "bar_index"@,
                number::dec(a.bar_index as nat),
            ) + line("original_size_index"@, number::dec(a.original_size_index as nat)) + line(
                "target_size_index"@,
                number::dec(a.target_size_index as nat),
            ) + line("cut_point"@, a.cut_point.text()) + line(
                "companions"@,
                text::joined(device::bdf_texts(a.companions), ","@),
            ) + "\n"@)
        }),
{
    reveal_strlit("");
    assert(""@ =~= Seq::<char>::empty());
}

} // verus!
