//! How devices are read and listed.

use vstd::prelude::*;

use crate::config;
use crate::execute::cycle;
use crate::laws::{numbers, paths, texts};
use crate::number::{self, IntError};
use crate::pci::device::{self, DeviceFilesView, DeviceView};
use crate::pci::{Bdf, Resource};
use crate::text;

verus! {

/// An address is written with four digits for the domain, two for the bus, two for the device and
/// one for a function below sixteen, parted by `:`, `:` and `.`.
pub proof fn law_written_address(b: Bdf)
    ensures
        b.function < 16 ==> b.text().len() == 12,
        b.text()[4] == ':',
        b.text()[7] == ':',
        b.text()[10] == '.',
        number::numeral_value(b.text().subrange(0, 4), 16, 0xffff) == Ok::<nat, IntError>(
            b.domain as nat,
        ),
        number::numeral_value(b.text().subrange(5, 7), 16, 0xff) == Ok::<nat, IntError>(
            b.bus as nat,
        ),
        number::numeral_value(b.text().subrange(8, 10), 16, 0xff) == Ok::<nat, IntError>(
            b.device as nat,
        ),
        number::numeral_value(b.text().skip(11), 16, 0xff) == Ok::<nat, IntError>(
            b.function as nat,
        ),
        Bdf::parsed(b.text()) == Some(b),
{
    crate::pci::law_bdf_reads_back(b);
    reveal_strlit(":");
    reveal_strlit(".");
    numbers::law_padded_numbers(b.domain as nat, 4, 0xffff, 0);
    numbers::law_padded_numbers(b.bus as nat, 2, 0xff, 0);
    numbers::law_padded_numbers(b.device as nat, 2, 0xff, 0);
    numbers::law_written_numbers(b.function as nat, 0xff);
    lemma_hex_len(b.domain as nat);
    lemma_hex_len(b.bus as nat);
    lemma_hex_len(b.device as nat);
    lemma_hex_len(b.function as nat);
    let d = number::hex_padded(b.domain as nat, 4);
    let u = number::hex_padded(b.bus as nat, 2);
    let v = number::hex_padded(b.device as nat, 2);
    let f = number::hex(b.function as nat);
    let t = b.text();
    assert(t.subrange(0, 4) =~= d);
    assert(t.subrange(5, 7) =~= u);
    assert(t.subrange(8, 10) =~= v);
    assert(t.skip(11) =~= f);
}

proof fn lemma_hex_len(n: nat)
    ensures
        n < 16 ==> number::hex(n).len() == 1,
        n < 256 ==> number::hex(n).len() <= 2,
        n < 0x1_0000 ==> number::hex(n).len() <= 4,
{
    reveal_with_fuel(number::hex, 5);
}

/// A list of addresses is written address by address.
pub proof fn law_written_addresses(v: Seq<Bdf>, b: Bdf)
    ensures
        device::bdf_texts(v).len() == v.len(),
        device::bdf_texts(v.push(b)) == device::bdf_texts(v).push(b.text()),
{
    assert(device::bdf_texts(v.push(b)) =~= device::bdf_texts(v).push(b.text()));
}

/// A text is an address exactly where it consists of four hexadecimal numerals within their
/// limits, parted by the first two `:` and the first `.` behind them.
pub proof fn law_read_address(d: Seq<char>, u: Seq<char>, v: Seq<char>, f: Seq<char>)
    requires
        !d.contains(':'),
        !u.contains(':'),
        !v.contains('.'),
    ensures
        ({
            let s = d + seq![':'] + (u + seq![':'] + (v + seq!['.'] + f));
            match Bdf::parsed(s) {
                Some(b) => {
                    &&& number::numeral_value(d, 16, 0xffff) == Ok::<nat, IntError>(b.domain as nat)
                    &&& number::numeral_value(u, 16, 0xff) == Ok::<nat, IntError>(b.bus as nat)
                    &&& number::numeral_value(v, 16, 0xff) == Ok::<nat, IntError>(b.device as nat)
                    &&& number::numeral_value(f, 16, 0xff) == Ok::<nat, IntError>(b.function as nat)
                },
                None => {
                    ||| number::numeral_value(d, 16, 0xffff) is Err
                    ||| number::numeral_value(u, 16, 0xff) is Err
                    ||| number::numeral_value(v, 16, 0xff) is Err
                    ||| number::numeral_value(f, 16, 0xff) is Err
                },
            }
        }),
{
    lemma_lacks(d, ':');
    lemma_lacks(u, ':');
    lemma_lacks(v, '.');
    text::lemma_cut_at(d, ':', u + seq![':'] + (v + seq!['.'] + f));
    text::lemma_cut_at(u, ':', v + seq!['.'] + f);
    text::lemma_cut_at(v, '.', f);
    lemma_limit(d, 0xffff);
    lemma_limit(u, 0xff);
    lemma_limit(v, 0xff);
    lemma_limit(f, 0xff);
}

proof fn lemma_lacks(s: Seq<char>, c: char)
    requires
        !s.contains(c),
    ensures
        forall|i: int| 0 <= i < s.len() ==> s[i] != c,
{
    assert forall|i: int| 0 <= i < s.len() implies s[i] != c by {
        assert(s.contains(s[i]));
    }
}

/// A numeral that reads is within its limit.
pub proof fn lemma_limit(s: Seq<char>, max: nat)
    ensures
        number::numeral_value(s, 16, max) matches Ok(n) ==> n <= max,
{
    if s.len() > 0 {
        numbers::lemma_digits(s, 16, max);
        numbers::lemma_digits(s.skip(1), 16, max);
    }
}

/// A text without two `:` and a `.` behind them is no address.
pub proof fn law_no_address(s: Seq<char>)
    ensures
        !s.contains(':') ==> Bdf::parsed(s) is None,
        !s.contains('.') ==> Bdf::parsed(s) is None,
{
    texts::law_cut(s, ':');
    match text::cut_at(s, ':') {
        Some((a, r)) => {
            texts::law_cut(r, ':');
            match text::cut_at(r, ':') {
                Some((b, q)) => {
                    texts::law_cut(q, '.');
                    match text::cut_at(q, '.') {
                        Some((c, f)) => {
                            let k = a.len() + 1 + b.len() + 1 + c.len();
                            assert(q[c.len() as int] == '.');
                            assert(r[b.len() as int + 1 + c.len()] == '.');
                            assert(s[k as int] == '.');
                            assert(s[a.len() as int] == ':');
                        },
                        None => {},
                    }
                },
                None => {},
            }
        },
        None => {},
    }
}

/// Where things lie in sysfs.
pub proof fn law_sysfs_paths(b: Bdf, driver: Seq<char>)
    ensures
        b.dir() == "/sys/bus/pci/devices/"@ + b.text(),
        config::config_file(b) == "/sys/bus/pci/devices/"@ + b.text() + "/config"@,
        cycle::unbind_file(driver) == "/sys/bus/pci/drivers/"@ + driver + "/unbind"@,
        cycle::bind_file(driver) == "/sys/bus/pci/drivers/"@ + driver + "/bind"@,
{
    reveal_strlit("/sys/bus/pci/devices/");
    reveal_strlit("/sys/bus/pci/devices");
    reveal_strlit("/");
    assert("/sys/bus/pci/devices"@ + "/"@ =~= "/sys/bus/pci/devices/"@);
}

/// The four bytes of a dword, from the least significant one on.
pub proof fn law_dword_bytes(b: [u8; 4])
    ensures
        ({
            let v = config::dword(b@);
            &&& 0 <= v <= u32::MAX
            &&& v % 0x100 == b@[0]
            &&& v / 0x100 % 0x100 == b@[1]
            &&& v / 0x1_0000 % 0x100 == b@[2]
            &&& v / 0x100_0000 == b@[3]
        }),
{
}

/// The devices to resize are the display controllers of PCI class 3 that are VGA-compatible
/// (subclass 0) or 3D controllers (subclass 2), whatever their programming interface.
pub proof fn law_gpu_classes(d: DeviceView)
    ensures
        d.gpu() <==> (0x03_0000 <= d.class <= 0x03_00ff) || (0x03_0200 <= d.class <= 0x03_02ff),
{
}

/// A range in use has as many bytes as there are addresses from its start to its end. A range
/// without flags, one that ends before it starts, and the one from zero to zero are not in use and
/// have none.
pub proof fn law_range_sizes(r: Resource)
    ensures
        ({
            let used = r.flags != 0 && r.start <= r.end && r.end != 0;
            &&& r.assigned() <==> used
            &&& used ==> r.bytes() == r.end - r.start + 1
            &&& !used ==> r.bytes() == 0
            &&& r.sized() <==> !(r.flags != 0 && r.start == 0 && r.end == u64::MAX)
        }),
{
}

/// What the flags of a range say: bit 8 marks ports, bit 9 memory, bit 13 what may be prefetched,
/// and bit 20 memory of 64 bits.
pub proof fn law_range_kinds(r: Resource)
    ensures
        ({
            let ports = r.flags as int / 0x100 % 2 == 1;
            let memory = r.flags as int / 0x200 % 2 == 1;
            let prefetch = r.flags as int / 0x2000 % 2 == 1;
            let wide = r.flags as int / 0x10_0000 % 2 == 1;
            &&& r.framebuffer_like() <==> prefetch && wide
            &&& ports ==> r.kind() == "io"@
            &&& !ports && !memory ==> r.kind() == "?"@
            &&& !ports && memory && prefetch && wide ==> r.kind() == "mem64 pref"@
            &&& !ports && memory && prefetch && !wide ==> r.kind() == "mem32 pref"@
            &&& !ports && memory && !prefetch && wide ==> r.kind() == "mem64"@
            &&& !ports && memory && !prefetch && !wide ==> r.kind() == "mem32"@
        }),
{
    let f = r.flags;
    assert(f & 0x100 != 0 <==> f / 0x100 % 2 == 1) by (bit_vector);
    assert(f & 0x200 != 0 <==> f / 0x200 % 2 == 1) by (bit_vector);
    assert(f & 0x2000 != 0 <==> f / 0x2000 % 2 == 1) by (bit_vector);
    assert(f & 0x10_0000 != 0 <==> f / 0x10_0000 % 2 == 1) by (bit_vector);
}

proof fn lemma_no_prefix(h: Seq<char>)
    requires
        forall|i: int| 0 <= i < h.len() ==> number::plain_digit(#[trigger] h[i]),
    ensures
        text::without_0x(h) == h,
        text::without_0x("0x"@ + h) == h,
{
    texts::law_hex_prefix(h);
    reveal_strlit("0x");
    if "0x"@.is_prefix_of(h) {
        assert(h.subrange(0, 2)[1] == 'x');
        assert(number::plain_digit(h[1]));
    }
}

/// An attribute holds a hexadecimal number of 32 bits, with or without `0x`, with white space
/// around it or not.
pub proof fn law_attributes(a: Seq<char>, n: nat, width: nat, b: Seq<char>)
    requires
        n <= 0xffff_ffff,
        forall|i: int| 0 <= i < a.len() ==> text::white(a[i]),
        forall|i: int| 0 <= i < b.len() ==> text::white(b[i]),
    ensures
        device::attribute_value(a + ("0x"@ + number::hex_padded(n, width)) + b) == Ok::<
            nat,
            IntError,
        >(n),
        device::attribute_value(a + number::hex_padded(n, width) + b) == Ok::<nat, IntError>(n),
{
    number::lemma_hex_padded_reads_back(n, width, 0xffff_ffff);
    let h = number::hex_padded(n, width);
    reveal_strlit("0x");
    let x = "0x"@ + h;
    lemma_no_prefix(h);
    assert(number::plain_digit(h[h.len() - 1]));
    assert(number::plain_digit(h[0]));
    assert(x.last() == h.last());
    assert(x[0] == '0');
    texts::law_trimmed_of_padded(a, x, b);
    texts::law_trimmed_of_padded(a, h, b);
}

/// What an attribute holds is read without the white space around it and without every `0x` in
/// front; what is left must be a numeral.
pub proof fn law_attribute_texts(a: Seq<char>, x: Seq<char>, b: Seq<char>)
    requires
        forall|i: int| 0 <= i < a.len() ==> text::white(a[i]),
        forall|i: int| 0 <= i < b.len() ==> text::white(b[i]),
        x.len() > 0 ==> !text::white(x.first()) && !text::white(x.last()),
    ensures
        !"0x"@.is_prefix_of(x) ==> device::attribute_value(a + x + b) == number::numeral_value(
            x,
            16,
            0xffff_ffff,
        ),
        device::attribute_value(a + ("0x"@ + x) + b) == device::attribute_value(x),
{
    reveal_strlit("0x");
    let none = Seq::<char>::empty();
    texts::law_hex_prefix(x);
    texts::law_trimmed_of_padded(a, x, b);
    let y = "0x"@ + x;
    assert(y[0] == '0');
    assert(y.last() == if x.len() > 0 {
        x.last()
    } else {
        'x'
    });
    texts::law_trimmed_of_padded(a, y, b);
    texts::law_trimmed_of_padded(none, x, none);
    assert(none + x + none =~= x);
}

/// A field is read without every `0x` in front; what is left must be a numeral, and the message on
/// one that is none shows it and says why.
pub proof fn law_field_texts(x: Seq<char>)
    ensures
        device::field_value("0x"@ + x) == device::field_value(x),
        !"0x"@.is_prefix_of(x) ==> match number::numeral_value(x, 16, u64::MAX as nat) {
            Ok(n) => device::field_value(x) == Ok::<nat, Seq<char>>(n),
            Err(e) => device::field_value(x) == Err::<nat, Seq<char>>(
                "hex parse "@ + text::quoted(x) + ": "@ + e.text(),
            ),
        },
{
    texts::law_hex_prefix(x);
}

/// A field of a `resource` line holds a hexadecimal number of 64 bits, with or without `0x`.
pub proof fn law_fields(n: nat, width: nat)
    requires
        n <= u64::MAX,
    ensures
        device::field_value("0x"@ + number::hex_padded(n, width)) == Ok::<nat, Seq<char>>(n),
        device::field_value(number::hex_padded(n, width)) == Ok::<nat, Seq<char>>(n),
{
    number::lemma_hex_padded_reads_back(n, width, u64::MAX as nat);
    lemma_no_prefix(number::hex_padded(n, width));
}

/// The words of a line that starts with three words.
pub proof fn lemma_three_words(x: Seq<char>, y: Seq<char>, z: Seq<char>, rest: Seq<char>)
    requires
        x.len() > 0,
        y.len() > 0,
        z.len() > 0,
        forall|i: int| 0 <= i < x.len() ==> !text::white(x[i]),
        forall|i: int| 0 <= i < y.len() ==> !text::white(y[i]),
        forall|i: int| 0 <= i < z.len() ==> !text::white(z[i]),
        rest.len() > 0 ==> text::white(rest.first()),
    ensures
        text::words(x + seq![' '] + y + seq![' '] + z + rest) == seq![x, y, z] + text::words(rest),
{
    let none = Seq::<char>::empty();
    texts::law_words(x, ' ', y + seq![' '] + z + rest);
    texts::law_words(y, ' ', z + rest);
    texts::law_word_between(none, z, rest);
    assert(none + z + rest =~= z + rest);
    texts::law_words(none, ' ', none);
    let s = x + seq![' '] + y + seq![' '] + z + rest;
    assert(s =~= x + seq![' '] + (y + seq![' '] + z + rest));
    assert(y + seq![' '] + z + rest =~= y + seq![' '] + (z + rest));
    assert(text::words(s) =~= seq![x, y, z] + text::words(rest));
}

/// A number as the kernel writes it is one word, and reads as a field.
pub proof fn lemma_field_is_word(n: nat)
    requires
        n <= u64::MAX,
    ensures
        ({
            let w = "0x"@ + number::hex_padded(n, 16);
            &&& w.len() > 0
            &&& forall|i: int| 0 <= i < w.len() ==> !text::white(w[i])
            &&& device::field_value(w) == Ok::<nat, Seq<char>>(n)
        }),
{
    reveal_strlit("0x");
    number::lemma_hex_padded_reads_back(n, 16, u64::MAX as nat);
    let h = number::hex_padded(n, 16);
    let w = "0x"@ + h;
    law_fields(n, 16);
    assert forall|i: int| 0 <= i < w.len() implies !text::white(w[i]) by {
        if i >= 2 {
            assert(w[i] == h[i - 2]);
            assert(number::plain_digit(h[i - 2]));
        }
    }
}

/// A line as the kernel writes it, with the start, the end and the flags of a range, gives that
/// range; what follows behind white space is passed over.
pub proof fn law_kernel_lines(r: Resource, rest: Seq<char>, index: nat)
    requires
        rest.len() > 0 ==> text::white(rest.first()),
    ensures
        device::resource_line(
            "0x"@ + number::hex_padded(r.start as nat, 16) + seq![' '] + ("0x"@
                + number::hex_padded(r.end as nat, 16)) + seq![' '] + ("0x"@ + number::hex_padded(
                r.flags as nat,
                16,
            )) + rest,
            index,
        ) == Ok::<Resource, Seq<char>>(r),
{
    lemma_field_is_word(r.start as nat);
    lemma_field_is_word(r.end as nat);
    lemma_field_is_word(r.flags as nat);
    lemma_three_words(
        "0x"@ + number::hex_padded(r.start as nat, 16),
        "0x"@ + number::hex_padded(r.end as nat, 16),
        "0x"@ + number::hex_padded(r.flags as nat, 16),
        rest,
    );
}

/// A line with fewer than three words lacks a field; the message names the line and the first
/// field that is missing. Otherwise the first of the three that is no number decides the error.
pub proof fn law_bad_lines(line: Seq<char>, index: nat)
    ensures
        ({
            let n = text::words(line).len();
            let head = "resource["@ + number::dec(index) + "] missing "@;
            match device::resource_line(line, index) {
                Ok(r) => {
                    let w = text::words(line);
                    &&& n >= 3
                    &&& device::field_value(w[0]) == Ok::<nat, Seq<char>>(r.start as nat)
                    &&& device::field_value(w[1]) == Ok::<nat, Seq<char>>(r.end as nat)
                    &&& device::field_value(w[2]) == Ok::<nat, Seq<char>>(r.flags as nat)
                },
                Err(m) => {
                    let w = text::words(line);
                    &&& n == 0 ==> m == head + "start"@
                    &&& n == 1 ==> m == head + "end"@
                    &&& n == 2 ==> m == head + "flags"@
                    &&& n >= 3 ==> {
                        ||| device::field_value(w[0]) == Err::<nat, Seq<char>>(m)
                        ||| device::field_value(w[0]) is Ok && device::field_value(w[1]) == Err::<
                            nat,
                            Seq<char>,
                        >(m)
                        ||| device::field_value(w[0]) is Ok && device::field_value(w[1]) is Ok
                            && device::field_value(w[2]) == Err::<nat, Seq<char>>(m)
                    }
                },
            }
        }),
{
    let w = text::words(line);
    if w.len() >= 3 {
        lemma_limit(text::without_0x(w[0]), u64::MAX as nat);
        lemma_limit(text::without_0x(w[1]), u64::MAX as nat);
        lemma_limit(text::without_0x(w[2]), u64::MAX as nat);
    }
}

proof fn lemma_resources(ls: Seq<Seq<char>>, n: nat, i: int)
    ensures
        match device::resource_lines(ls, n) {
            Ok(rs) => {
                &&& rs.len() == n
                &&& 0 <= i < n ==> device::resource_line(ls[i], i as nat) == Ok::<
                    Resource,
                    Seq<char>,
                >(rs[i])
            },
            Err(m) => exists|k: int|
                {
                    &&& 0 <= k < n
                    &&& #[trigger] device::resource_line(ls[k], k as nat) == Err::<
                        Resource,
                        Seq<char>,
                    >(m)
                    &&& forall|j: int|
                        0 <= j < k ==> #[trigger] device::resource_line(ls[j], j as nat) is Ok
                },
        },
    decreases n,
{
    if n > 0 {
        let m = (n - 1) as nat;
        lemma_resources(ls, m, i);
        if device::resource_lines(ls, m) is Ok {
            assert forall|j: int| 0 <= j < m implies #[trigger] device::resource_line(
                ls[j],
                j as nat,
            ) is Ok by {
                lemma_resources(ls, m, j);
            }
        }
        if device::resource_lines(ls, m) is Ok && device::resource_line(ls[n - 1], m) is Err {
            assert(device::resource_line(ls[n - 1], (n - 1) as nat) is Err);
        }
    }
}

/// The resources of a device are those on the first seven lines of the file, in order, or on all
/// its lines where there are fewer. The first of these lines that does not read decides the error.
pub proof fn law_resources(contents: Seq<char>, i: int)
    ensures
        ({
            let ls = text::lines(contents);
            let n = if ls.len() < 7 {
                ls.len()
            } else {
                7
            };
            match device::resources_of(contents) {
                Ok(rs) => {
                    &&& rs.len() == n
                    &&& 0 <= i < n ==> device::resource_line(ls[i], i as nat) == Ok::<
                        Resource,
                        Seq<char>,
                    >(rs[i])
                },
                Err(m) => exists|k: int|
                    {
                        &&& 0 <= k < n
                        &&& #[trigger] device::resource_line(ls[k], k as nat) == Err::<
                            Resource,
                            Seq<char>,
                        >(m)
                        &&& forall|j: int|
                            0 <= j < k ==> #[trigger] device::resource_line(ls[j], j as nat) is Ok
                    },
            }
        }),
{
    let ls = text::lines(contents);
    lemma_resources(
        ls,
        if ls.len() < 7 {
            ls.len()
        } else {
            7
        },
        i,
    );
}

/// One more name adds the address that it spells, if it spells one.
pub proof fn law_named_addresses(names: Seq<Seq<char>>, n: Seq<char>)
    ensures
        device::named_bdfs(Seq::empty()) == Seq::<Bdf>::empty(),
        device::named_bdfs(names.push(n)) == match Bdf::parsed(n) {
            Some(b) => device::named_bdfs(names).push(b),
            None => device::named_bdfs(names),
        },
{
    assert(names.push(n).drop_last() =~= names);
    assert(names.push(n).last() == n);
    match Bdf::parsed(n) {
        Some(b) => {
            assert(device::named_bdfs(names).push(b) =~= device::named_bdfs(names) + seq![b]);
        },
        None => {},
    }
}

/// The bridges above a device are the addresses on its path, in the order of the path; the device
/// itself does not count.
pub proof fn law_bridges_above(bdf: Bdf, path: Seq<Seq<char>>, n: Seq<char>)
    ensures
        device::ancestors(bdf, Seq::empty()) == Seq::<Bdf>::empty(),
        device::ancestors(bdf, path.push(n)) == match Bdf::parsed(n) {
            Some(b) => if b == bdf {
                device::ancestors(bdf, path)
            } else {
                device::ancestors(bdf, path).push(b)
            },
            None => device::ancestors(bdf, path),
        },
{
    reveal(Seq::filter);
    law_named_addresses(path, n);
    match Bdf::parsed(n) {
        Some(b) => {
            let all = device::named_bdfs(path);
            assert(all.push(b).drop_last() =~= all);
            assert(all.push(b).last() == b);
        },
        None => {},
    }
}

/// The companions of a function are the other functions of the same device on the same bus of the
/// same domain, each as often as it is listed.
pub proof fn law_companions(s: Seq<Bdf>, bdf: Bdf, b: Bdf)
    ensures
        device::companions_among(Seq::empty(), bdf) == Seq::<Bdf>::empty(),
        ({
            let same = b.domain == bdf.domain && b.bus == bdf.bus && b.device == bdf.device;
            &&& same && b.function != bdf.function ==> device::companions_among(s.push(b), bdf)
                == device::companions_among(s, bdf).push(b)
            &&& !same || b.function == bdf.function ==> device::companions_among(s.push(b), bdf)
                == device::companions_among(s, bdf)
            &&& device::companions_among(s, bdf).contains(b) <==> s.contains(b) && same
                && b.function != bdf.function
        }),
{
    reveal(Seq::filter);
    assert(s.push(b).drop_last() =~= s);
    assert(s.push(b).last() == b);
    let pred = |c: Bdf| device::companion(bdf, c);
    if device::companions_among(s, bdf).contains(b) {
        s.lemma_filter_contains_rev(pred, b);
        let t = device::companions_among(s, bdf);
        let i = choose|i: int| 0 <= i < t.len() && t[i] == b;
        s.lemma_filter_pred(pred, i);
    }
    if s.contains(b) && pred(b) {
        let i = choose|i: int| 0 <= i < s.len() && s[i] == b;
        s.lemma_filter_contains(pred, i);
    }
}

/// Addresses in ascending order are ordered by domain, then bus, then device, then function.
pub proof fn law_ascending_addresses(s: Seq<Bdf>, i: int, j: int)
    requires
        device::ascending(s),
        0 <= i < j < s.len(),
    ensures
        ({
            let (a, b) = (s[i], s[j]);
            ||| a == b
            ||| a.domain < b.domain
            ||| a.domain == b.domain && a.bus < b.bus
            ||| a.domain == b.domain && a.bus == b.bus && a.device < b.device
            ||| a.domain == b.domain && a.bus == b.bus && a.device == b.device && a.function
                < b.function
        }),
{
    crate::pci::law_bdf_order(s[i], s[j]);
}

/// The driver of a device is named by the last part of where its link leads; without a link there
/// is none.
pub proof fn law_drivers(dir: Seq<char>, name: Seq<char>)
    ensures
        device::driver_of(None) is None,
        paths::is_name(name) ==> device::driver_of(Some(dir.push('/') + name)) == Some(name),
{
    if paths::is_name(name) {
        paths::law_file_names(dir, name);
    }
}

/// The number in an attribute of a device: what the file holds, or the reason why it could not be
/// read, or a message that names the file.
pub proof fn law_attribute_of_device(bdf: Bdf, name: Seq<char>, r: Result<Seq<char>, Seq<char>>)
    ensures
        match r {
            Err(m) => device::attribute(bdf, name, r) == Err::<nat, Seq<char>>(m),
            Ok(s) => match device::attribute_value(s) {
                Ok(n) => device::attribute(bdf, name, r) == Ok::<nat, Seq<char>>(n),
                Err(e) => device::attribute(bdf, name, r) == Err::<nat, Seq<char>>(
                    "parse \"/sys/bus/pci/devices/"@ + bdf.text() + "/"@ + name + "\": "@
                        + e.text(),
                ),
            },
        },
{
    law_sysfs_paths(bdf, name);
    reveal_strlit("parse \"/sys/bus/pci/devices/");
    reveal_strlit("/sys/bus/pci/devices/");
    reveal_strlit("parse \"");
    assert("parse \""@ + ("/sys/bus/pci/devices/"@ + bdf.text())
        =~= "parse \"/sys/bus/pci/devices/"@ + bdf.text());
}

/// A device is what its files say: its class, the low sixteen bits of its vendor and device
/// numbers, its driver, its resources and the bridges above it. It can be read exactly where all of
/// these files can.
pub proof fn law_devices(bdf: Bdf, f: DeviceFilesView)
    ensures
        match device::device_of(bdf, f) {
            Ok(d) => {
                &&& d.bdf == bdf
                &&& device::attribute(bdf, "class"@, f.class) == Ok::<nat, Seq<char>>(
                    d.class as nat,
                )
                &&& device::attribute(bdf, "vendor"@, f.vendor) matches Ok(v) && d.vendor == v
                    % 0x1_0000
                &&& device::attribute(bdf, "device"@, f.device) matches Ok(v) && d.device_id == v
                    % 0x1_0000
                &&& d.driver == device::driver_of(f.driver)
                &&& f.resource is Ok && device::resources_of(f.resource->Ok_0) == Ok::<
                    Seq<Resource>,
                    Seq<char>,
                >(d.resources)
                &&& f.path is Ok && d.parent_chain == device::ancestors(bdf, f.path->Ok_0)
            },
            Err(m) => {
                let class = device::attribute(bdf, "class"@, f.class);
                let vendor = device::attribute(bdf, "vendor"@, f.vendor);
                let number = device::attribute(bdf, "device"@, f.device);
                if class is Err {
                    class->Err_0 == m
                } else if vendor is Err {
                    vendor->Err_0 == m
                } else if number is Err {
                    number->Err_0 == m
                } else if f.resource is Err {
                    f.resource->Err_0 == m
                } else if device::resources_of(f.resource->Ok_0) is Err {
                    device::resources_of(f.resource->Ok_0)->Err_0 == m
                } else {
                    f.path == Err::<Seq<Seq<char>>, Seq<char>>(m)
                }
            },
        },
{
    match f.class {
        Ok(s) => lemma_limit(text::without_0x(text::trimmed(s)), 0xffff_ffff),
        Err(_) => {},
    }
}

/// Every device that can be read is listed, and every one that cannot is reported with its address
/// and the reason; nothing is left out or added.
pub proof fn law_listing(rs: Seq<(Bdf, DeviceFilesView)>, b: Bdf, f: DeviceFilesView)
    ensures
        device::readable(Seq::empty()) == Seq::<DeviceView>::empty(),
        device::unreadable(Seq::empty()) == Seq::<(Bdf, Seq<char>)>::empty(),
        match device::device_of(b, f) {
            Ok(d) => {
                &&& device::readable(rs.push((b, f))) == device::readable(rs).push(d)
                &&& device::unreadable(rs.push((b, f))) == device::unreadable(rs)
            },
            Err(m) => {
                &&& device::readable(rs.push((b, f))) == device::readable(rs)
                &&& device::unreadable(rs.push((b, f))) == device::unreadable(rs).push((b, m))
            },
        },
{
    assert(rs.push((b, f)).drop_last() =~= rs);
    assert(rs.push((b, f)).last() == (b, f));
    match device::device_of(b, f) {
        Ok(d) => {
            assert(device::readable(rs).push(d) =~= device::readable(rs) + seq![d]);
        },
        Err(m) => {
            assert(device::unreadable(rs).push((b, m)) =~= device::unreadable(rs) + seq![(b, m)]);
        },
    }
}

/// The devices at an address, of a list with one more device.
pub proof fn law_devices_at_address(s: Seq<DeviceView>, d: DeviceView, b: Bdf)
    ensures
        device::at_address(Seq::empty(), b) == Seq::<DeviceView>::empty(),
        device::at_address(s.push(d), b) == if d.bdf == b {
            device::at_address(s, b).push(d)
        } else {
            device::at_address(s, b)
        },
{
    reveal(Seq::filter);
    assert(s.push(d).drop_last() =~= s);
    assert(s.push(d).last() == d);
}

/// Devices that are listed in order stand by domain, then bus, then device, then function.
pub proof fn law_devices_in_order(s: Seq<DeviceView>, i: int, j: int)
    requires
        device::in_order(s),
        0 <= i < j < s.len(),
    ensures
        ({
            let (a, b) = (s[i].bdf, s[j].bdf);
            ||| a == b
            ||| a.domain < b.domain
            ||| a.domain == b.domain && a.bus < b.bus
            ||| a.domain == b.domain && a.bus == b.bus && a.device < b.device
            ||| a.domain == b.domain && a.bus == b.bus && a.device == b.device && a.function
                < b.function
        }),
{
    crate::pci::law_bdf_order(s[i].bdf, s[j].bdf);
}

} // verus!
