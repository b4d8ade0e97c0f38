//! Device descriptions: reading them from the texts that sysfs holds, and listing them in order.

use vstd::prelude::*;
use vstd::seq_lib::*;

use crate::number::{self, dec_text, parse_failure, parse_numeral, IntError};
use crate::path::{self, file_name};
use crate::pci::{Bdf, Resource};
use crate::text::{
    self, chars_of, copied_opt, join, owned, quote, split_lines, split_words, string_of,
    strip_0x, trim,
};

verus! {

/// A PCI device.
#[derive(Debug)]
pub struct Device {
    pub bdf: Bdf,
    pub class: u32,
    pub vendor: u16,
    pub device_id: u16,
    pub driver: Option<String>,
    pub resources: Vec<Resource>,
    /// The addresses of the bridges above the device, root-most first.
    pub parent_chain: Vec<Bdf>,
}

/// The contents of a [`Device`].
#[verifier::ext_equal]
pub struct DeviceView {
    pub bdf: Bdf,
    pub class: u32,
    pub vendor: u16,
    pub device_id: u16,
    pub driver: Option<Seq<char>>,
    pub resources: Seq<Resource>,
    pub parent_chain: Seq<Bdf>,
}

impl View for Device {
    type V = DeviceView;

    open spec fn view(&self) -> DeviceView {
        DeviceView {
            bdf: self.bdf,
            class: self.class,
            vendor: self.vendor,
            device_id: self.device_id,
            driver: text::opt_text(self.driver),
            resources: self.resources@,
            parent_chain: self.parent_chain@,
        }
    }
}

impl DeviceView {
    /// The device is a display controller: VGA-compatible or 3D.
    pub open spec fn gpu(self) -> bool {
        self.class / 256 == 0x0300 || self.class / 256 == 0x0302
    }
}

impl Device {
    /// Whether the device is a display controller: VGA-compatible or 3D.
    pub fn is_gpu(&self) -> (r: bool)
        ensures
            r == self@.gpu(),
    {
        let class = self.class;
        assert(class >> 8 == class / 256) by (bit_vector);
        let c = self.class >> 8;
        c == 0x0300 || c == 0x0302
    }
}

impl Clone for Device {
    fn clone(&self) -> (r: Self)
        ensures
            r@ == self@,
    {
        let resources = copy_resources(&self.resources);
        let parent_chain = copy_bdfs(&self.parent_chain);
        Device {
            bdf: self.bdf,
            class: self.class,
            vendor: self.vendor,
            device_id: self.device_id,
            driver: copied_opt(&self.driver),
            resources,
            parent_chain,
        }
    }
}

/// A copy of a list of addresses.
pub fn copy_bdfs(v: &Vec<Bdf>) -> (r: Vec<Bdf>)
    ensures
        r@ == v@,
{
    let mut r: Vec<Bdf> = Vec::new();
    let mut i: usize = 0;
    while i < v.len()
        invariant
            i <= v.len(),
            r@ == v@.take(i as int),
        decreases v.len() - i,
    {
        r.push(v[i]);
        i += 1;
        assert(v@.take(i as int) =~= v@.take(i - 1).push(v@[i - 1]));
    }
    assert(v@.take(i as int) =~= v@);
    r
}

/// The written forms of a list of addresses.
pub open spec fn bdf_texts(v: Seq<Bdf>) -> Seq<Seq<char>> {
    Seq::new(v.len(), |i: int| v[i].text())
}

/// Writes addresses with `sep` between each two neighbours.
pub fn join_bdfs(v: &Vec<Bdf>, sep: &str) -> (r: String)
    ensures
        r@ == text::joined(bdf_texts(v@), sep@),
{
    let mut parts: Vec<String> = Vec::new();
    let mut i: usize = 0;
    assert(text::strings(parts@) =~= bdf_texts(v@.take(0)));
    while i < v.len()
        invariant
            i <= v.len(),
            text::strings(parts@) == bdf_texts(v@.take(i as int)),
        decreases v.len() - i,
    {
        let ghost before = parts@;
        parts.push(v[i].to_string());
        i += 1;
        assert(text::strings(parts@) =~= text::strings(before).push(v@[i - 1].text()));
        assert(bdf_texts(v@.take(i as int)) =~= bdf_texts(v@.take(i - 1)).push(v@[i - 1].text()));
    }
    assert(v@.take(i as int) =~= v@);
    join(&parts, sep)
}

fn copy_resources(v: &Vec<Resource>) -> (r: Vec<Resource>)
    ensures
        r@ == v@,
{
    let mut r: Vec<Resource> = Vec::new();
    let mut i: usize = 0;
    while i < v.len()
        invariant
            i <= v.len(),
            r@ == v@.take(i as int),
        decreases v.len() - i,
    {
        r.push(v[i]);
        i += 1;
        assert(v@.take(i as int) =~= v@.take(i - 1).push(v@[i - 1]));
    }
    assert(v@.take(i as int) =~= v@);
    r
}

// ---------------------------------------------------------------- the texts of one device

/// What reading one text gave: its contents, or why it could not be read.
pub open spec fn reading(r: Result<String, String>) -> Result<Seq<char>, Seq<char>> {
    match r {
        Ok(s) => Ok(s@),
        Err(e) => Err(e@),
    }
}

/// The number in a sysfs attribute: hexadecimal, with or without `0x`, white space around it.
pub open spec fn attribute_value(s: Seq<char>) -> Result<nat, IntError> {
    number::numeral_value(text::without_0x(text::trimmed(s)), 16, 0xffff_ffff)
}

/// Reads the number in a sysfs attribute.
pub fn read_hex(s: &str) -> (r: Result<u32, IntError>)
    ensures
        match r {
            Ok(v) => attribute_value(s@) == Ok::<nat, IntError>(v as nat),
            Err(e) => attribute_value(s@) == Err::<nat, IntError>(e),
        },
{
    let cs = chars_of(s);
    match parse_numeral(strip_0x(trim(cs.as_slice())), 16, 0xffff_ffff) {
        Ok(v) => Ok(v as u32),
        Err(e) => Err(e),
    }
}

/// The 64-bit number in a field of a `resource` line.
pub open spec fn field_value(s: Seq<char>) -> Result<nat, Seq<char>> {
    match number::numeral_value(text::without_0x(s), 16, 0xffff_ffff_ffff_ffff) {
        Ok(v) => Ok(v),
        Err(e) => Err("hex parse "@ + text::quoted(text::without_0x(s)) + ": "@ + e.text()),
    }
}

/// Reads the 64-bit number in a field of a `resource` line.
pub fn hex64(s: &[char]) -> (r: Result<u64, String>)
    ensures
        match r {
            Ok(v) => field_value(s@) == Ok::<nat, Seq<char>>(v as nat),
            Err(m) => field_value(s@) == Err::<nat, Seq<char>>(m@),
        },
{
    let t = strip_0x(s);
    match parse_numeral(t, 16, 0xffff_ffff_ffff_ffff) {
        Ok(v) => Ok(v),
        Err(e) => {
            let shown = quote(string_of(t).as_str());
            Err(parse_failure("hex parse ", shown.as_str(), e))
        },
    }
}

/// The message for a `resource` line that lacks a field.
pub open spec fn missing_field(index: nat, field: Seq<char>) -> Seq<char> {
    "resource["@ + number::dec(index) + "] missing "@ + field
}

/// The resource on line `index`: start, end and flags, parted by white space.
pub open spec fn resource_line(line: Seq<char>, index: nat) -> Result<Resource, Seq<char>> {
    let w = text::words(line);
    if w.len() < 1 {
        Err(missing_field(index, "start"@))
    } else if w.len() < 2 {
        Err(missing_field(index, "end"@))
    } else if w.len() < 3 {
        Err(missing_field(index, "flags"@))
    } else {
        match (field_value(w[0]), field_value(w[1]), field_value(w[2])) {
            (Err(m), _, _) => Err(m),
            (_, Err(m), _) => Err(m),
            (_, _, Err(m)) => Err(m),
            (Ok(start), Ok(end), Ok(flags)) => Ok(
                Resource { start: start as u64, end: end as u64, flags: flags as u64 },
            ),
        }
    }
}

/// The resources on the first `n` lines; the first line that does not read decides the error.
pub open spec fn resource_lines(ls: Seq<Seq<char>>, n: nat) -> Result<Seq<Resource>, Seq<char>>
    decreases n,
{
    if n == 0 {
        Ok(seq![])
    } else {
        match resource_lines(ls, (n - 1) as nat) {
            Err(m) => Err(m),
            Ok(rs) => match resource_line(ls[n - 1], (n - 1) as nat) {
                Err(m) => Err(m),
                Ok(r) => Ok(rs.push(r)),
            },
        }
    }
}

/// The resources in a `resource` file: its first seven lines, the six BARs and the ROM.
pub open spec fn resources_of(contents: Seq<char>) -> Result<Seq<Resource>, Seq<char>> {
    let ls = text::lines(contents);
    resource_lines(ls, if ls.len() < 7 { ls.len() } else { 7 })
}

fn missing_field_text(index: usize, field: &str) -> (r: String)
    ensures
        r@ == missing_field(index as nat, field@),
{
    let mut r = owned("resource[");
    r.append(dec_text(index as u64).as_str());
    r.append("] missing ");
    r.append(field);
    r
}

fn read_resource_line(line: &Vec<char>, index: usize) -> (r: Result<Resource, String>)
    ensures
        match r {
            Ok(v) => resource_line(line@, index as nat) == Ok::<Resource, Seq<char>>(v),
            Err(m) => resource_line(line@, index as nat) == Err::<Resource, Seq<char>>(m@),
        },
{
    let w = split_words(line.as_slice());
    assert(text::texts(w@).len() == w@.len());
    if w.len() < 1 {
        return Err(missing_field_text(index, "start"));
    }
    if w.len() < 2 {
        return Err(missing_field_text(index, "end"));
    }
    if w.len() < 3 {
        return Err(missing_field_text(index, "flags"));
    }
    assert(text::texts(w@)[0] == w@[0]@);
    assert(text::texts(w@)[1] == w@[1]@);
    assert(text::texts(w@)[2] == w@[2]@);
    let start = match hex64(w[0].as_slice()) {
        Ok(v) => v,
        Err(m) => return Err(m),
    };
    let end = match hex64(w[1].as_slice()) {
        Ok(v) => v,
        Err(m) => return Err(m),
    };
    let flags = match hex64(w[2].as_slice()) {
        Ok(v) => v,
        Err(m) => return Err(m),
    };
    Ok(Resource { start, end, flags })
}

proof fn lemma_resource_error_stays(ls: Seq<Seq<char>>, k: nat, n: nat)
    requires
        k <= n,
        resource_lines(ls, k) is Err,
    ensures
        resource_lines(ls, n) == resource_lines(ls, k),
    decreases n,
{
    if k < n {
        lemma_resource_error_stays(ls, k, (n - 1) as nat);
    }
}

/// Reads a `resource` file.
pub fn read_resources(contents: &str) -> (r: Result<Vec<Resource>, String>)
    ensures
        match r {
            Ok(v) => resources_of(contents@) == Ok::<Seq<Resource>, Seq<char>>(v@),
            Err(m) => resources_of(contents@) == Err::<Seq<Resource>, Seq<char>>(m@),
        },
{
    let cs = chars_of(contents);
    let ls = split_lines(cs.as_slice());
    let ghost all = text::lines(contents@);
    assert(text::texts(ls@).len() == ls@.len());
    let n: usize = if ls.len() < 7 {
        ls.len()
    } else {
        7
    };
    let mut out: Vec<Resource> = Vec::new();
    let mut i: usize = 0;
    while i < n
        invariant
            i <= n <= ls.len(),
            text::texts(ls@) == all,
            resource_lines(all, i as nat) == Ok::<Seq<Resource>, Seq<char>>(out@),
            resources_of(contents@) == resource_lines(all, n as nat),
        decreases n - i,
    {
        assert(all[i as int] == ls@[i as int]@);
        match read_resource_line(&ls[i], i) {
            Ok(v) => {
                out.push(v);
            },
            Err(m) => {
                proof {
                    assert(resource_lines(all, (i + 1) as nat) is Err);
                    lemma_resource_error_stays(all, (i + 1) as nat, n as nat);
                }
                return Err(m);
            },
        }
        i += 1;
    }
    Ok(out)
}

// ---------------------------------------------------------------- names

/// The addresses among a list of names, in the order of the names.
pub open spec fn named_bdfs(names: Seq<Seq<char>>) -> Seq<Bdf> {
    names.filter_map(|n: Seq<char>| Bdf::parsed(n))
}

/// Reads the names that are addresses, and skips the others.
pub fn parse_names(names: &Vec<String>) -> (r: Vec<Bdf>)
    ensures
        r@ == named_bdfs(text::strings(names@)),
{
    let mut r: Vec<Bdf> = Vec::new();
    let ghost all = text::strings(names@);
    let mut i: usize = 0;
    while i < names.len()
        invariant
            i <= names.len(),
            all == text::strings(names@),
            r@ == named_bdfs(all.take(i as int)),
        decreases names.len() - i,
    {
        assert(all.take(i + 1).drop_last() =~= all.take(i as int));
        assert(all.take(i + 1).last() == names@[i as int]@);
        match Bdf::parse(names[i].as_str()) {
            Some(b) => {
                let ghost before = r@;
                r.push(b);
                assert(r@ =~= before + seq![b]);
            },
            None => {},
        }
        i += 1;
    }
    assert(all.take(i as int) =~= all);
    r
}

/// The addresses of the list other than `bdf`.
pub open spec fn others(s: Seq<Bdf>, bdf: Bdf) -> Seq<Bdf> {
    s.filter(|b: Bdf| b != bdf)
}

/// The addresses on a resolved path other than the device's own.
pub open spec fn ancestors(bdf: Bdf, path: Seq<Seq<char>>) -> Seq<Bdf> {
    others(named_bdfs(path), bdf)
}

/// The addresses on the resolved sysfs path of a device, in path order, root-most first; the
/// device itself is left out.
pub fn read_parent_chain(bdf: Bdf, path: &Vec<String>) -> (r: Vec<Bdf>)
    ensures
        r@ == ancestors(bdf, text::strings(path@)),
{
    let found = parse_names(path);
    let mut r: Vec<Bdf> = Vec::new();
    let mut i: usize = 0;
    proof {
        reveal(Seq::filter);
    }
    while i < found.len()
        invariant
            i <= found.len(),
            r@ == others(found@.take(i as int), bdf),
        decreases found.len() - i,
    {
        proof {
            reveal(Seq::filter);
        }
        assert(found@.take(i + 1).drop_last() =~= found@.take(i as int));
        let b = found[i];
        if b != bdf {
            r.push(b);
        }
        i += 1;
    }
    assert(found@.take(i as int) =~= found@);
    r
}

/// `b` is another function of the device that `bdf` belongs to.
pub open spec fn companion(bdf: Bdf, b: Bdf) -> bool {
    b != bdf && b.domain == bdf.domain && b.bus == bdf.bus && b.device == bdf.device
}

/// The other functions of the device that `bdf` belongs to, among the addresses of the list.
pub open spec fn companions_among(s: Seq<Bdf>, bdf: Bdf) -> Seq<Bdf> {
    s.filter(|b: Bdf| companion(bdf, b))
}

/// The list is in ascending order.
pub open spec fn ascending(s: Seq<Bdf>) -> bool {
    forall|i: int, j: int| 0 <= i < j < s.len() ==> s[i].rank() <= s[j].rank()
}

/// Sorts addresses into ascending order.
pub fn sort_bdfs(v: &Vec<Bdf>) -> (r: Vec<Bdf>)
    ensures
        ascending(r@),
        r@.to_multiset() == v@.to_multiset(),
{
    let mut r: Vec<Bdf> = Vec::new();
    let mut i: usize = 0;
    assert(v@.take(0) =~= r@);
    while i < v.len()
        invariant
            i <= v.len(),
            ascending(r@),
            r@.to_multiset() == v@.take(i as int).to_multiset(),
        decreases v.len() - i,
    {
        let b = v[i];
        let mut p: usize = r.len();
        while p > 0 && b.precedes(&r[p - 1])
            invariant
                p <= r.len(),
                forall|j: int| p <= j < r@.len() ==> b.rank() < r@[j].rank(),
            decreases p,
        {
            p -= 1;
        }
        let ghost before = r@;
        r.insert(p, b);
        assert(ascending(r@)) by {
            assert forall|x: int, y: int| 0 <= x < y < r@.len() implies r@[x].rank()
                <= r@[y].rank() by {
                if x < p && y == p {
                    assert(before[x].rank() <= before[p - 1].rank());
                }
            }
        }
        proof {
            to_multiset_insert(before, p as int, b);
            to_multiset_build(v@.take(i as int), b);
            assert(v@.take(i + 1) =~= v@.take(i as int).push(b));
        }
        i += 1;
    }
    assert(v@.take(i as int) =~= v@);
    r
}

/// Sorting leaves no choice: two ascending lists of the same addresses are the same list.
pub proof fn law_sorted_addresses_unique(a: Seq<Bdf>, b: Seq<Bdf>)
    requires
        ascending(a),
        ascending(b),
        a.to_multiset() == b.to_multiset(),
    ensures
        a == b,
    decreases a.len(),
{
    to_multiset_len(a);
    to_multiset_len(b);
    if a.len() == 0 {
        assert(a =~= b);
    } else {
        let n = a.len() - 1;
        let x = a[n];
        let y = b[n];
        to_multiset_contains(a, x);
        to_multiset_contains(b, x);
        to_multiset_contains(a, y);
        to_multiset_contains(b, y);
        assert(a.contains(x) && b.contains(y));
        let i = choose|i: int| 0 <= i < b.len() && b[i] == x;
        let j = choose|j: int| 0 <= j < a.len() && a[j] == y;
        assert(x.rank() <= y.rank());
        assert(y.rank() <= x.rank());
        crate::pci::law_bdf_order(x, y);
        to_multiset_remove(a, n);
        to_multiset_remove(b, n);
        assert(a.remove(n) =~= a.drop_last());
        assert(b.remove(n) =~= b.drop_last());
        law_sorted_addresses_unique(a.drop_last(), b.drop_last());
        assert(a =~= a.drop_last().push(x));
        assert(b =~= b.drop_last().push(y));
    }
}

/// The companion functions of `bdf` among the names of a directory listing, in ascending order.
///
/// They share the slot with `bdf`, and have to be unbound together with it before the bridge above
/// them can be removed.
pub fn companions(bdf: Bdf, names: &Vec<String>) -> (r: Vec<Bdf>)
    ensures
        ascending(r@),
        r@.to_multiset() == companions_among(
            named_bdfs(text::strings(names@)),
            bdf,
        ).to_multiset(),
{
    let found = parse_names(names);
    let mut r: Vec<Bdf> = Vec::new();
    let mut i: usize = 0;
    proof {
        reveal(Seq::filter);
    }
    while i < found.len()
        invariant
            i <= found.len(),
            r@ == companions_among(found@.take(i as int), bdf),
        decreases found.len() - i,
    {
        proof {
            reveal(Seq::filter);
        }
        assert(found@.take(i + 1).drop_last() =~= found@.take(i as int));
        let b = found[i];
        if b != bdf && b.domain == bdf.domain && b.bus == bdf.bus && b.device == bdf.device {
            r.push(b);
        }
        i += 1;
    }
    assert(found@.take(i as int) =~= found@);
    sort_bdfs(&r)
}

// ---------------------------------------------------------------- drivers

/// The driver that is bound to a device, given where its `driver` link leads, if there is one.
pub open spec fn driver_of(link: Option<Seq<char>>) -> Option<Seq<char>> {
    match link {
        Some(path) => path::named_file(path),
        None => None,
    }
}

/// The driver that is bound to a device, given where its `driver` link leads, if there is one.
pub fn current_driver(link: &Option<String>) -> (r: Option<String>)
    ensures
        text::opt_text(r) == driver_of(text::opt_text(*link)),
{
    match link {
        Some(path) => file_name(path.as_str()),
        None => None,
    }
}

// ---------------------------------------------------------------- one device

/// What reading the sysfs directory of one device gave.
#[derive(Debug)]
pub struct DeviceFiles {
    /// The attribute `class`.
    pub class: Result<String, String>,
    /// The attribute `vendor`.
    pub vendor: Result<String, String>,
    /// The attribute `device`.
    pub device: Result<String, String>,
    /// Where the link `driver` leads, if there is one.
    pub driver: Option<String>,
    /// The file `resource`.
    pub resource: Result<String, String>,
    /// The components of the resolved directory path.
    pub path: Result<Vec<String>, String>,
}

/// The contents of a [`DeviceFiles`].
#[verifier::ext_equal]
pub struct DeviceFilesView {
    pub class: Result<Seq<char>, Seq<char>>,
    pub vendor: Result<Seq<char>, Seq<char>>,
    pub device: Result<Seq<char>, Seq<char>>,
    pub driver: Option<Seq<char>>,
    pub resource: Result<Seq<char>, Seq<char>>,
    pub path: Result<Seq<Seq<char>>, Seq<char>>,
}

impl View for DeviceFiles {
    type V = DeviceFilesView;

    open spec fn view(&self) -> DeviceFilesView {
        DeviceFilesView {
            class: reading(self.class),
            vendor: reading(self.vendor),
            device: reading(self.device),
            driver: text::opt_text(self.driver),
            resource: reading(self.resource),
            path: match self.path {
                Ok(p) => Ok(text::strings(p@)),
                Err(m) => Err(m@),
            },
        }
    }
}

/// The number in the attribute `name` of a device, or the message that says why there is none.
pub open spec fn attribute(bdf: Bdf, name: Seq<char>, r: Result<Seq<char>, Seq<char>>) -> Result<
    nat,
    Seq<char>,
> {
    match r {
        Err(m) => Err(m),
        Ok(s) => match attribute_value(s) {
            Ok(v) => Ok(v),
            Err(e) => Err("parse \""@ + bdf.dir() + "/"@ + name + "\": "@ + e.text()),
        },
    }
}

fn read_attribute(bdf: Bdf, name: &str, r: &Result<String, String>) -> (v: Result<u32, String>)
    ensures
        match v {
            Ok(v) => attribute(bdf, name@, reading(*r)) == Ok::<nat, Seq<char>>(v as nat),
            Err(m) => attribute(bdf, name@, reading(*r)) == Err::<nat, Seq<char>>(m@),
        },
{
    match r {
        Err(m) => Err(owned(m.as_str())),
        Ok(s) => match read_hex(s.as_str()) {
            Ok(v) => Ok(v),
            Err(e) => {
                let mut m = owned("parse \"");
                m.append(bdf.sysfs_dir().as_str());
                m.append("/");
                m.append(name);
                m.append("\": ");
                m.append(e.message());
                Err(m)
            },
        },
    }
}

/// The device that the texts of a sysfs directory describe. The first text, in the order class,
/// vendor, device, resource, path, that is missing or does not read decides the error. Of the
/// vendor and device numbers the low sixteen bits count.
pub open spec fn device_of(bdf: Bdf, f: DeviceFilesView) -> Result<DeviceView, Seq<char>> {
    match attribute(bdf, "class"@, f.class) {
        Err(m) => Err(m),
        Ok(class) => match attribute(bdf, "vendor"@, f.vendor) {
            Err(m) => Err(m),
            Ok(vendor) => match attribute(bdf, "device"@, f.device) {
                Err(m) => Err(m),
                Ok(device) => match f.resource {
                    Err(m) => Err(m),
                    Ok(contents) => match resources_of(contents) {
                        Err(m) => Err(m),
                        Ok(resources) => match f.path {
                            Err(m) => Err(m),
                            Ok(path) => Ok(
                                DeviceView {
                                    bdf,
                                    class: class as u32,
                                    vendor: (vendor % 0x1_0000) as u16,
                                    device_id: (device % 0x1_0000) as u16,
                                    driver: driver_of(f.driver),
                                    resources,
                                    parent_chain: ancestors(bdf, path),
                                },
                            ),
                        },
                    },
                },
            },
        },
    }
}

/// A result, by the contents of what it holds.
pub open spec fn device_result(r: Result<Device, String>) -> Result<DeviceView, Seq<char>> {
    match r {
        Ok(d) => Ok(d@),
        Err(m) => Err(m@),
    }
}

fn low16(v: u32) -> (r: u16)
    ensures
        r == v as nat % 0x1_0000,
{
    assert(v as u16 == v % 0x1_0000) by (bit_vector);
    v as u16
}

/// Reads one device from the texts of its sysfs directory.
pub fn read_device(bdf: Bdf, files: &DeviceFiles) -> (r: Result<Device, String>)
    ensures
        device_result(r) == device_of(bdf, files@),
{
    let class = match read_attribute(bdf, "class", &files.class) {
        Ok(v) => v,
        Err(m) => return Err(m),
    };
    let vendor = match read_attribute(bdf, "vendor", &files.vendor) {
        Ok(v) => v,
        Err(m) => return Err(m),
    };
    let device_id = match read_attribute(bdf, "device", &files.device) {
        Ok(v) => v,
        Err(m) => return Err(m),
    };
    let contents = match &files.resource {
        Ok(s) => s,
        Err(m) => return Err(owned(m.as_str())),
    };
    let resources = match read_resources(contents.as_str()) {
        Ok(v) => v,
        Err(m) => return Err(m),
    };
    let path = match &files.path {
        Ok(p) => p,
        Err(m) => return Err(owned(m.as_str())),
    };
    let parent_chain = read_parent_chain(bdf, path);
    Ok(
        Device {
            bdf,
            class,
            vendor: low16(vendor),
            device_id: low16(device_id),
            driver: current_driver(&files.driver),
            resources,
            parent_chain,
        },
    )
}

// ---------------------------------------------------------------- all devices

/// The contents of a list of devices.
pub open spec fn device_views(v: Seq<Device>) -> Seq<DeviceView> {
    Seq::new(v.len(), |i: int| v[i]@)
}

/// The contents of a list of directory readings.
pub open spec fn readings(v: Seq<(Bdf, DeviceFiles)>) -> Seq<(Bdf, DeviceFilesView)> {
    Seq::new(v.len(), |i: int| (v[i].0, v[i].1@))
}

/// The devices that could be read, in the order of the readings.
pub open spec fn readable(rs: Seq<(Bdf, DeviceFilesView)>) -> Seq<DeviceView> {
    rs.filter_map(
        |r: (Bdf, DeviceFilesView)|
            match device_of(r.0, r.1) {
                Ok(d) => Some(d),
                Err(_) => None,
            },
    )
}

/// The addresses of the devices that could not be read, each with the reason.
pub open spec fn unreadable(rs: Seq<(Bdf, DeviceFilesView)>) -> Seq<(Bdf, Seq<char>)> {
    rs.filter_map(
        |r: (Bdf, DeviceFilesView)|
            match device_of(r.0, r.1) {
                Ok(_) => None,
                Err(m) => Some((r.0, m)),
            },
    )
}

/// The contents of a list of warnings.
pub open spec fn warnings(v: Seq<(Bdf, String)>) -> Seq<(Bdf, Seq<char>)> {
    Seq::new(v.len(), |i: int| (v[i].0, v[i].1@))
}

/// The devices are in ascending order of their addresses.
pub open spec fn in_order(s: Seq<DeviceView>) -> bool {
    forall|i: int, j: int| 0 <= i < j < s.len() ==> s[i].bdf.rank() <= s[j].bdf.rank()
}

/// The devices of one address, in the order in which they stand in the list.
pub open spec fn at_address(s: Seq<DeviceView>, bdf: Bdf) -> Seq<DeviceView> {
    s.filter(|d: DeviceView| d.bdf == bdf)
}

proof fn lemma_at_address_add(a: Seq<DeviceView>, b: Seq<DeviceView>, k: Bdf)
    ensures
        at_address(a + b, k) == at_address(a, k) + at_address(b, k),
{
    Seq::filter_distributes_over_add(a, b, |d: DeviceView| d.bdf == k);
}

proof fn lemma_at_address_last(s: Seq<DeviceView>, k: Bdf)
    requires
        s.len() > 0,
    ensures
        at_address(s, k) == (if s.last().bdf == k {
            at_address(s.drop_last(), k).push(s.last())
        } else {
            at_address(s.drop_last(), k)
        }),
{
    reveal(Seq::filter);
}

proof fn lemma_at_address_somewhere(s: Seq<DeviceView>, k: Bdf) -> (i: int)
    requires
        at_address(s, k).len() > 0,
    ensures
        0 <= i < s.len(),
        s[i].bdf == k,
    decreases s.len(),
{
    reveal(Seq::filter);
    if s.last().bdf == k {
        s.len() - 1
    } else {
        lemma_at_address_last(s, k);
        lemma_at_address_somewhere(s.drop_last(), k)
    }
}

/// Listing leaves no choice: two lists of devices that are in order, and that agree on the devices
/// of each address, are the same list.
pub proof fn law_listing_unique(a: Seq<DeviceView>, b: Seq<DeviceView>)
    requires
        in_order(a),
        in_order(b),
        forall|k: Bdf| #[trigger] at_address(a, k) == at_address(b, k),
    ensures
        a == b,
    decreases a.len(),
{
    if a.len() == 0 {
        if b.len() > 0 {
            let k = b.last().bdf;
            lemma_at_address_last(b, k);
            assert(at_address(a, k) == at_address(b, k));
            let i = lemma_at_address_somewhere(a, k);
        }
        assert(a =~= b);
    } else {
        let x = a.last();
        lemma_at_address_last(a, x.bdf);
        assert(at_address(a, x.bdf) == at_address(b, x.bdf));
        let i = lemma_at_address_somewhere(b, x.bdf);
        let y = b.last();
        lemma_at_address_last(b, y.bdf);
        assert(at_address(a, y.bdf) == at_address(b, y.bdf));
        let j = lemma_at_address_somewhere(a, y.bdf);
        assert(x.bdf.rank() <= y.bdf.rank());
        assert(y.bdf.rank() <= x.bdf.rank());
        crate::pci::law_bdf_order(x.bdf, y.bdf);
        let front = at_address(a.drop_last(), x.bdf);
        assert(front.push(x).last() == x);
        assert(at_address(b.drop_last(), x.bdf).push(y).last() == y);
        assert forall|k: Bdf| #[trigger]
            at_address(a.drop_last(), k) == at_address(b.drop_last(), k) by {
            lemma_at_address_last(a, k);
            lemma_at_address_last(b, k);
            assert(at_address(a, k) == at_address(b, k));
            if k == x.bdf {
                assert(at_address(a.drop_last(), k) =~= at_address(a, k).drop_last());
                assert(at_address(b.drop_last(), k) =~= at_address(b, k).drop_last());
            }
        }
        law_listing_unique(a.drop_last(), b.drop_last());
        assert(a =~= a.drop_last().push(x));
        assert(b =~= b.drop_last().push(y));
    }
}

/// Inserting a device behind all those that do not come after it puts it last among its equals.
proof fn lemma_insert_last(s: Seq<DeviceView>, p: int, d: DeviceView)
    requires
        0 <= p <= s.len(),
        forall|j: int| p <= j < s.len() ==> d.bdf.rank() < s[j].bdf.rank(),
    ensures
        forall|k: Bdf| at_address(s.insert(p, d), k) == #[trigger] at_address(s.push(d), k),
{
    assert forall|k: Bdf| at_address(s.insert(p, d), k) == #[trigger] at_address(s.push(d), k) by {
        let a = s.take(p);
        let b = s.skip(p);
        assert(s.insert(p, d) =~= a + (seq![d] + b));
        assert(s.push(d) =~= a + (b + seq![d]));
        lemma_at_address_add(a, seq![d] + b, k);
        lemma_at_address_add(a, b + seq![d], k);
        lemma_at_address_add(seq![d], b, k);
        lemma_at_address_add(b, seq![d], k);
        let pred = |e: DeviceView| e.bdf == k;
        if k == d.bdf {
            assert forall|j: int| 0 <= j < b.len() implies !pred(#[trigger] b[j]) by {
                assert(b[j] == s[p + j]);
            }
            b.lemma_all_neg_filter_empty(pred);
            assert(at_address(b, k) =~= seq![]);
        } else {
            seq![d].lemma_all_neg_filter_empty(pred);
            assert(at_address(seq![d], k) =~= seq![]);
        }
        assert(at_address(seq![d], k) + at_address(b, k) =~= at_address(b, k) + at_address(
            seq![d],
            k,
        ));
    }
}

/// Puts a device into an ordered list, behind those of the same address.
fn insert_in_order(v: &mut Vec<Device>, d: Device)
    requires
        in_order(device_views(old(v)@)),
    ensures
        in_order(device_views(final(v)@)),
        forall|k: Bdf|
            at_address(device_views(final(v)@), k) == #[trigger] at_address(
                device_views(old(v)@).push(d@),
                k,
            ),
{
    let ghost before = device_views(v@);
    let mut p: usize = v.len();
    while p > 0 && d.bdf.precedes(&v[p - 1].bdf)
        invariant
            p <= v.len(),
            before == device_views(v@),
            forall|j: int| p <= j < before.len() ==> d@.bdf.rank() < before[j].bdf.rank(),
        decreases p,
    {
        p -= 1;
    }
    let ghost dv = d@;
    v.insert(p, d);
    proof {
        assert(device_views(v@) =~= before.insert(p as int, dv));
        lemma_insert_last(before, p as int, dv);
        let after = device_views(v@);
        assert forall|x: int, y: int| 0 <= x < y < after.len() implies after[x].bdf.rank()
            <= after[y].bdf.rank() by {
            if x < p && y == p {
                assert(before[x].bdf.rank() <= before[p - 1].bdf.rank());
            }
        }
    }
}

/// Lists the devices that could be read, in ascending order of their addresses, and beside them
/// the address and the reason of each that could not.
pub fn enumerate(found: &Vec<(Bdf, DeviceFiles)>) -> (r: (Vec<Device>, Vec<(Bdf, String)>))
    ensures
        in_order(device_views(r.0@)),
        forall|k: Bdf|
            at_address(device_views(r.0@), k) == #[trigger] at_address(
                readable(readings(found@)),
                k,
            ),
        warnings(r.1@) == unreadable(readings(found@)),
{
    let mut devices: Vec<Device> = Vec::new();
    let mut failed: Vec<(Bdf, String)> = Vec::new();
    let ghost all = readings(found@);
    let mut i: usize = 0;
    assert(device_views(devices@) =~= readable(all.take(0)));
    assert(warnings(failed@) =~= unreadable(all.take(0)));
    while i < found.len()
        invariant
            i <= found.len(),
            all == readings(found@),
            in_order(device_views(devices@)),
            forall|k: Bdf|
                at_address(device_views(devices@), k) == #[trigger] at_address(
                    readable(all.take(i as int)),
                    k,
                ),
            warnings(failed@) == unreadable(all.take(i as int)),
        decreases found.len() - i,
    {
        assert(all.take(i + 1).drop_last() =~= all.take(i as int));
        assert(all.take(i + 1).last() == (found@[i as int].0, found@[i as int].1@));
        let ghost ok = readable(all.take(i as int));
        let ghost bad = unreadable(all.take(i as int));
        let bdf = found[i].0;
        match read_device(bdf, &found[i].1) {
            Ok(d) => {
                let ghost before = device_views(devices@);
                let ghost dv = d@;
                insert_in_order(&mut devices, d);
                proof {
                    assert(readable(all.take(i + 1)) =~= ok + seq![dv]);
                    assert forall|k: Bdf|
                        at_address(device_views(devices@), k) == #[trigger] at_address(
                            readable(all.take(i + 1)),
                            k,
                        ) by {
                        assert(before.push(dv) =~= before + seq![dv]);
                        assert(at_address(before.push(dv), k) == at_address(before, k)
                            + at_address(seq![dv], k)) by {
                            lemma_at_address_add(before, seq![dv], k);
                        }
                        lemma_at_address_add(ok, seq![dv], k);
                        assert(at_address(before, k) == at_address(ok, k));
                    }
                    assert(unreadable(all.take(i + 1)) == bad);
                }
            },
            Err(m) => {
                let ghost before = failed@;
                failed.push((bdf, m));
                assert(warnings(failed@) =~= warnings(before) + seq![(bdf, m@)]);
                assert(unreadable(all.take(i + 1)) == bad + seq![(bdf, m@)]);
                assert(readable(all.take(i + 1)) == ok);
            },
        }
        i += 1;
    }
    assert(all.take(i as int) =~= all);
    (devices, failed)
}

} // verus!
