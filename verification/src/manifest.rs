//! The manifest: the plan of a run, kept as lines of `key=value` so that the run can be undone.

use vstd::prelude::*;

use crate::number::{
    self, dec_text, hex_padded_text, hex_text, parse_failure, parse_numeral,
};
use crate::path::{self, parent, with_extension};
use crate::pci::device::{self, join_bdfs};
use crate::pci::Bdf;
use crate::plan::{self, Action, ActionView, Mode, Plan, PlanView};
use crate::text::{
    self, chars_of, owned, position, quote, same_text, split, split_lines, split_once,
    string_of, strip_0x, strip_prefix, trim, trim_text,
};

pub mod read_back;

verus! {

/// Where the manifest is kept.
pub const MANIFEST_PATH: &'static str = "/var/lib/t2rebar/state.txt";

/// Where the manifest is kept, unless another path is given.
pub fn default_path() -> (r: String)
    ensures
        r@ == MANIFEST_PATH@,
{
    owned(MANIFEST_PATH)
}

// ---------------------------------------------------------------- writing

/// The key of a field of action `i`.
pub open spec fn action_key(i: nat, field: Seq<char>) -> Seq<char> {
    "action."@ + number::dec(i) + "."@ + field
}

/// The line that holds a field of action `i`.
pub open spec fn field_line(i: nat, field: Seq<char>, value: Seq<char>) -> Seq<char> {
    action_key(i, field) + "="@ + value + "\n"@
}

/// The driver, as a manifest holds it: nothing where there is none.
pub open spec fn driver_value(d: Option<Seq<char>>) -> Seq<char> {
    match d {
        Some(d) => d,
        None => ""@,
    }
}

/// The lines of action `i`, and an empty line.
pub open spec fn action_text(i: nat, a: ActionView) -> Seq<char> {
    field_line(i, "bdf"@, a.bdf.text()) + field_line(
        i,
        "vendor"@,
        "0x"@ + number::hex_padded(a.vendor as nat, 4),
    ) + field_line(i, "device"@, "0x"@ + number::hex_padded(a.device_id as nat, 4)) + field_line(
        i,
        "driver"@,
        driver_value(a.driver),
    ) + field_line(i, "rebar_cap_offset"@, "0x"@ + number::hex(a.rebar_cap_offset as nat))
        + field_line(i, "rebar_entry_index"@, number::dec(a.rebar_entry_index as nat)) + field_line(
        i,
        "bar_index"@,
        number::dec(a.bar_index as nat),
    ) + field_line(i, "original_size_index"@, number::dec(a.original_size_index as nat))
        + field_line(i, "target_size_index"@, number::dec(a.target_size_index as nat)) + field_line(
        i,
        "cut_point"@,
        a.cut_point.text(),
    ) + field_line(i, "companions"@, text::joined(device::bdf_texts(a.companions), ","@)) + "\n"@
}

/// The lines that say where the manifest comes from.
pub open spec fn head_text(timestamp: u64, kernel: Seq<char>, hostname: Seq<char>) -> Seq<char> {
    "# t2rebar manifest\n"@ + "schema=1\n"@ + "timestamp_epoch="@ + number::dec(timestamp as nat)
        + "\nkernel="@ + kernel + "\nhostname="@ + hostname + "\n"@
}

/// The manifest up to and with the first `n` actions.
pub open spec fn manifest_text(
    p: PlanView,
    n: nat,
    timestamp: u64,
    kernel: Seq<char>,
    hostname: Seq<char>,
) -> Seq<char>
    decreases n,
{
    if n == 0 {
        head_text(timestamp, kernel, hostname) + ("mode="@ + p.mode.text() + "\n"@) + "\n"@
    } else {
        manifest_text(p, (n - 1) as nat, timestamp, kernel, hostname) + action_text(
            (n - 1) as nat,
            p.actions[n - 1],
        )
    }
}

fn put_field(out: &mut String, i: usize, field: &str, value: &str)
    ensures
        final(out)@ == old(out)@ + field_line(i as nat, field@, value@),
{
    let mut line = owned("action.");
    line.append(dec_text(i as u64).as_str());
    line.append(".");
    line.append(field);
    line.append("=");
    line.append(value);
    line.append("\n");
    out.append(line.as_str());
}

fn hex_value(digits: String) -> (r: String)
    ensures
        r@ == "0x"@ + digits@,
{
    let mut r = owned("0x");
    r.append(digits.as_str());
    r
}

fn put_action(i: usize, a: &Action) -> (out: String)
    ensures
        out@ == action_text(i as nat, a@),
{
    let driver = match &a.driver {
        Some(d) => owned(d.as_str()),
        None => owned(""),
    };
    let vendor = hex_value(hex_padded_text(a.vendor as u64, 4));
    let device = hex_value(hex_padded_text(a.device_id as u64, 4));
    let offset = hex_value(hex_text(a.rebar_cap_offset as u64));
    let mut out = owned("");
    proof {
        reveal_strlit("");
    }
    put_field(&mut out, i, "bdf", a.bdf.to_string().as_str());
    assert(out@ =~= field_line(i as nat, "bdf"@, a.bdf.text()));
    put_field(&mut out, i, "vendor", vendor.as_str());
    put_field(&mut out, i, "device", device.as_str());
    put_field(&mut out, i, "driver", driver.as_str());
    put_field(&mut out, i, "rebar_cap_offset", offset.as_str());
    put_field(&mut out, i, "rebar_entry_index", dec_text(a.rebar_entry_index as u64).as_str());
    put_field(&mut out, i, "bar_index", dec_text(a.bar_index as u64).as_str());
    put_field(&mut out, i, "original_size_index", dec_text(a.original_size_index as u64).as_str());
    put_field(&mut out, i, "target_size_index", dec_text(a.target_size_index as u64).as_str());
    put_field(&mut out, i, "cut_point", a.cut_point.to_string().as_str());
    put_field(&mut out, i, "companions", join_bdfs(&a.companions, ",").as_str());
    out.append("\n");
    out
}

/// What the manifest says of the kernel release or the host name: the contents of the file that
/// holds it, trimmed.
pub open spec fn name_or_unknown(contents: Option<Seq<char>>) -> Seq<char> {
    match contents {
        Some(s) => text::trimmed(s),
        None => "unknown"@,
    }
}

/// What the manifest says of the kernel release or the host name, given what reading the file
/// that holds it gave.
pub fn system_name(contents: &Option<String>) -> (r: String)
    ensures
        r@ == name_or_unknown(text::opt_text(*contents)),
{
    match contents {
        Some(s) => trim_text(s.as_str()),
        None => owned("unknown"),
    }
}

/// The text of the manifest for `plan`.
#[verifier::rlimit(30)]
#[verifier::spinoff_prover]
pub fn write(plan: &Plan, timestamp: u64, kernel: &str, hostname: &str) -> (r: String)
    ensures
        r@ == manifest_text(plan@, plan@.actions.len(), timestamp, kernel@, hostname@),
{
    let mut out = owned("# t2rebar manifest\n");
    out.append("schema=1\n");
    out.append("timestamp_epoch=");
    out.append(dec_text(timestamp).as_str());
    out.append("\nkernel=");
    out.append(kernel);
    out.append("\nhostname=");
    out.append(hostname);
    out.append("\n");
    let mut mode = owned("mode=");
    mode.append(plan.mode.as_str().as_str());
    mode.append("\n");
    out.append(mode.as_str());
    out.append("\n");
    let mut i: usize = 0;
    while i < plan.actions.len()
        invariant
            i <= plan.actions.len(),
            out@ == manifest_text(plan@, i as nat, timestamp, kernel@, hostname@),
        decreases plan.actions.len() - i,
    {
        assert(plan@.actions[i as int] == plan.actions@[i as int]@);
        out.append(put_action(i, &plan.actions[i]).as_str());
        i += 1;
    }
    out
}

// ---------------------------------------------------------------- reading

/// The key and the value on a line. Empty lines, comments and lines without `=` have none.
pub open spec fn line_entry(line: Seq<char>) -> Option<(Seq<char>, Seq<char>)> {
    let t = text::trimmed(line);
    if t.len() == 0 || t[0] == '#' {
        None
    } else {
        match text::cut_at(t, '=') {
            Some((k, v)) => Some((text::trimmed(k), text::trimmed(v))),
            None => None,
        }
    }
}

/// The value of each key; the last line that gives one counts.
pub open spec fn entries(ls: Seq<Seq<char>>) -> Map<Seq<char>, Seq<char>>
    decreases ls.len(),
{
    if ls.len() == 0 {
        Map::empty()
    } else {
        match line_entry(ls.last()) {
            Some((k, v)) => entries(ls.drop_last()).insert(k, v),
            None => entries(ls.drop_last()),
        }
    }
}

/// The number of the action that a key belongs to: `action.`, the number, and what follows a `.`.
pub open spec fn key_index(key: Seq<char>) -> Option<nat> {
    match text::after_prefix(key, "action."@) {
        None => None,
        Some(rest) => match number::numeral_value(
            rest.take(text::find(rest, '.') as int),
            10,
            usize::MAX as nat,
        ) {
            Ok(n) => Some(n),
            Err(_) => None,
        },
    }
}

/// The number of actions: one more than the largest number in a key.
pub open spec fn action_count(ls: Seq<Seq<char>>) -> nat
    decreases ls.len(),
{
    if ls.len() == 0 {
        0
    } else {
        let before = action_count(ls.drop_last());
        match line_entry(ls.last()) {
            Some((k, _)) => match key_index(k) {
                Some(n) => if n >= before {
                    n + 1
                } else {
                    before
                },
                None => before,
            },
            None => before,
        }
    }
}

/// The value of a field of action `i`.
pub open spec fn field(m: Map<Seq<char>, Seq<char>>, i: nat, name: Seq<char>) -> Result<
    Seq<char>,
    Seq<char>,
> {
    if m.dom().contains(action_key(i, name)) {
        Ok(m[action_key(i, name)])
    } else {
        Err("missing "@ + action_key(i, name))
    }
}

/// A field that holds an address.
pub open spec fn bdf_field(m: Map<Seq<char>, Seq<char>>, i: nat, name: Seq<char>) -> Result<
    Bdf,
    Seq<char>,
> {
    match field(m, i, name) {
        Err(e) => Err(e),
        Ok(v) => match Bdf::parsed(v) {
            Some(b) => Ok(b),
            None => Err("bad "@ + action_key(i, name)),
        },
    }
}

/// The number that a hexadecimal value spells, after any number of `0x`; `what` names the
/// attempt in the message.
pub open spec fn hex_number(v: Seq<char>, max: nat, what: Seq<char>) -> Result<nat, Seq<char>> {
    let digits = text::without_0x(text::trimmed(v));
    match number::numeral_value(digits, 16, max) {
        Ok(n) => Ok(n),
        Err(e) => Err(what + text::quoted(digits) + ": "@ + e.text()),
    }
}

/// The number below 256 that a decimal value spells.
pub open spec fn dec_number(v: Seq<char>) -> Result<nat, Seq<char>> {
    match number::numeral_value(text::trimmed(v), 10, 255) {
        Ok(n) => Ok(n),
        Err(e) => Err("parse dec "@ + text::quoted(v) + ": "@ + e.text()),
    }
}

/// A field that holds a number of 16 bits.
pub open spec fn hex16_field(m: Map<Seq<char>, Seq<char>>, i: nat, name: Seq<char>) -> Result<
    nat,
    Seq<char>,
> {
    match field(m, i, name) {
        Err(e) => Err(e),
        Ok(v) => hex_number(v, 0xffff, "parse hex16 "@),
    }
}

/// A field that holds an offset.
pub open spec fn offset_field(m: Map<Seq<char>, Seq<char>>, i: nat, name: Seq<char>) -> Result<
    nat,
    Seq<char>,
> {
    match field(m, i, name) {
        Err(e) => Err(e),
        Ok(v) => hex_number(v, usize::MAX as nat, "parse hex "@),
    }
}

/// A field that holds a number below 256.
pub open spec fn dec_field(m: Map<Seq<char>, Seq<char>>, i: nat, name: Seq<char>) -> Result<
    nat,
    Seq<char>,
> {
    match field(m, i, name) {
        Err(e) => Err(e),
        Ok(v) => dec_number(v),
    }
}

/// The addresses in a list that is parted by commas; what is no address is passed over.
pub open spec fn listed_bdfs(v: Seq<char>) -> Seq<Bdf> {
    device::named_bdfs(text::pieces(v, ','))
}

/// The driver that a value names, none where it is empty.
pub open spec fn driver_named(v: Seq<char>) -> Option<Seq<char>> {
    if v.len() == 0 {
        None
    } else {
        Some(v)
    }
}

/// Action `i`, or what is wrong with it: the first field that is missing or cannot be read, in the
/// order in which the fields are asked for.
pub open spec fn action_at(m: Map<Seq<char>, Seq<char>>, i: nat) -> Result<ActionView, Seq<char>> {
    match bdf_field(m, i, "bdf"@) {
        Err(e) => Err(e),
        Ok(bdf) => match bdf_field(m, i, "cut_point"@) {
            Err(e) => Err(e),
            Ok(cut) => match field(m, i, "driver"@) {
                Err(e) => Err(e),
                Ok(driver) => match field(m, i, "companions"@) {
                    Err(e) => Err(e),
                    Ok(companions) => match numbers_at(m, i) {
                        Err(e) => Err(e),
                        Ok(n) => Ok(
                            ActionView {
                                bdf,
                                vendor: n.vendor,
                                device_id: n.device_id,
                                driver: driver_named(driver),
                                rebar_cap_offset: n.rebar_cap_offset,
                                rebar_entry_index: n.rebar_entry_index,
                                bar_index: n.bar_index,
                                original_size_index: n.original_size_index,
                                target_size_index: n.target_size_index,
                                cut_point: cut,
                                companions: listed_bdfs(companions),
                            },
                        ),
                    },
                },
            },
        },
    }
}

/// The numbers of an action.
#[derive(Clone, Copy, Debug)]
pub struct Numbers {
    pub vendor: u16,
    pub device_id: u16,
    pub rebar_cap_offset: usize,
    pub rebar_entry_index: u8,
    pub bar_index: u8,
    pub original_size_index: u8,
    pub target_size_index: u8,
}

/// The numbers of action `i`, or the first of them that is missing or cannot be read.
pub open spec fn numbers_at(m: Map<Seq<char>, Seq<char>>, i: nat) -> Result<Numbers, Seq<char>> {
    match hex16_field(m, i, "vendor"@) {
        Err(e) => Err(e),
        Ok(vendor) => match hex16_field(m, i, "device"@) {
            Err(e) => Err(e),
            Ok(device) => match offset_field(m, i, "rebar_cap_offset"@) {
                Err(e) => Err(e),
                Ok(offset) => match dec_field(m, i, "rebar_entry_index"@) {
                    Err(e) => Err(e),
                    Ok(entry) => match dec_field(m, i, "bar_index"@) {
                        Err(e) => Err(e),
                        Ok(bar) => match dec_field(m, i, "original_size_index"@) {
                            Err(e) => Err(e),
                            Ok(original) => match dec_field(m, i, "target_size_index"@) {
                                Err(e) => Err(e),
                                Ok(target) => Ok(
                                    Numbers {
                                        vendor: vendor as u16,
                                        device_id: device as u16,
                                        rebar_cap_offset: offset as usize,
                                        rebar_entry_index: entry as u8,
                                        bar_index: bar as u8,
                                        original_size_index: original as u8,
                                        target_size_index: target as u8,
                                    },
                                ),
                            },
                        },
                    },
                },
            },
        },
    }
}

/// The first `n` actions; the first that cannot be read decides the error.
pub open spec fn actions_at(m: Map<Seq<char>, Seq<char>>, n: nat) -> Result<
    Seq<ActionView>,
    Seq<char>,
>
    decreases n,
{
    if n == 0 {
        Ok(seq![])
    } else {
        match actions_at(m, (n - 1) as nat) {
            Err(e) => Err(e),
            Ok(done) => match action_at(m, (n - 1) as nat) {
                Err(e) => Err(e),
                Ok(a) => Ok(done.push(a)),
            },
        }
    }
}

/// The plan that the lines of a manifest hold.
pub open spec fn plan_in(ls: Seq<Seq<char>>) -> Result<PlanView, Seq<char>> {
    let m = entries(ls);
    if !m.dom().contains("mode"@) {
        Err("missing mode"@)
    } else {
        match Mode::parsed(m["mode"@]) {
            None => Err("bad mode: "@ + m["mode"@]),
            Some(mode) => match actions_at(m, action_count(ls)) {
                Err(e) => Err(e),
                Ok(actions) => Ok(PlanView { mode, actions }),
            },
        }
    }
}

/// The plan that a manifest holds.
pub open spec fn manifest_plan(contents: Seq<char>) -> Result<PlanView, Seq<char>> {
    plan_in(text::lines(contents))
}

/// The keys and values of a manifest, in the order of its lines.
struct Entries {
    list: Vec<(String, String)>,
}

spec fn stored(v: Seq<(String, String)>) -> Map<Seq<char>, Seq<char>>
    decreases v.len(),
{
    if v.len() == 0 {
        Map::empty()
    } else {
        stored(v.drop_last()).insert(v.last().0@, v.last().1@)
    }
}

impl Entries {
    spec fn map(self) -> Map<Seq<char>, Seq<char>> {
        stored(self.list@)
    }

    fn get(&self, key: &str) -> (r: Option<&String>)
        ensures
            match r {
                Some(v) => self.map().dom().contains(key@) && self.map()[key@] == v@,
                None => !self.map().dom().contains(key@),
            },
    {
        let mut i: usize = self.list.len();
        assert(self.list@.take(i as int) =~= self.list@);
        while i > 0
            invariant
                i <= self.list.len(),
                self.map().dom().contains(key@) == stored(self.list@.take(i as int)).dom().contains(
                    key@,
                ),
                self.map().dom().contains(key@) ==> self.map()[key@] == stored(
                    self.list@.take(i as int),
                )[key@],
            decreases i,
        {
            assert(self.list@.take(i as int).drop_last() =~= self.list@.take(i - 1));
            if same_text(self.list[i - 1].0.as_str(), key) {
                return Some(&self.list[i - 1].1);
            }
            i -= 1;
        }
        assert(self.list@.take(0) =~= seq![]);
        None
    }

    fn field(&self, i: usize, name: &str) -> (r: Result<&String, String>)
        ensures
            match r {
                Ok(v) => field(self.map(), i as nat, name@) == Ok::<Seq<char>, Seq<char>>(v@),
                Err(e) => field(self.map(), i as nat, name@) == Err::<Seq<char>, Seq<char>>(e@),
            },
    {
        let key = key_text(i, name);
        match self.get(key.as_str()) {
            Some(v) => Ok(v),
            None => {
                let mut e = owned("missing ");
                e.append(key.as_str());
                Err(e)
            },
        }
    }

    fn bdf_field(&self, i: usize, name: &str) -> (r: Result<Bdf, String>)
        ensures
            match r {
                Ok(b) => bdf_field(self.map(), i as nat, name@) == Ok::<Bdf, Seq<char>>(b),
                Err(e) => bdf_field(self.map(), i as nat, name@) == Err::<Bdf, Seq<char>>(e@),
            },
    {
        let v = match self.field(i, name) {
            Ok(v) => v,
            Err(e) => return Err(e),
        };
        match Bdf::parse(v.as_str()) {
            Some(b) => Ok(b),
            None => {
                let mut e = owned("bad ");
                e.append(key_text(i, name).as_str());
                Err(e)
            },
        }
    }

    fn hex16_field(&self, i: usize, name: &str) -> (r: Result<u16, String>)
        ensures
            match r {
                Ok(n) => hex16_field(self.map(), i as nat, name@) == Ok::<nat, Seq<char>>(n as nat),
                Err(e) => hex16_field(self.map(), i as nat, name@) == Err::<nat, Seq<char>>(e@),
            },
    {
        match self.field(i, name) {
            Ok(v) => parse_hex16(v.as_str()),
            Err(e) => Err(e),
        }
    }

    fn offset_field(&self, i: usize, name: &str) -> (r: Result<usize, String>)
        ensures
            match r {
                Ok(n) => offset_field(self.map(), i as nat, name@) == Ok::<nat, Seq<char>>(
                    n as nat,
                ),
                Err(e) => offset_field(self.map(), i as nat, name@) == Err::<nat, Seq<char>>(e@),
            },
    {
        match self.field(i, name) {
            Ok(v) => parse_hex_usize(v.as_str()),
            Err(e) => Err(e),
        }
    }

    fn dec_field(&self, i: usize, name: &str) -> (r: Result<u8, String>)
        ensures
            match r {
                Ok(n) => dec_field(self.map(), i as nat, name@) == Ok::<nat, Seq<char>>(n as nat),
                Err(e) => dec_field(self.map(), i as nat, name@) == Err::<nat, Seq<char>>(e@),
            },
    {
        match self.field(i, name) {
            Ok(v) => parse_dec(v.as_str()),
            Err(e) => Err(e),
        }
    }

    fn numbers(&self, i: usize) -> (r: Result<Numbers, String>)
        ensures
            match r {
                Ok(n) => numbers_at(self.map(), i as nat) == Ok::<Numbers, Seq<char>>(n),
                Err(e) => numbers_at(self.map(), i as nat) == Err::<Numbers, Seq<char>>(e@),
            },
    {
        let vendor = match self.hex16_field(i, "vendor") {
            Ok(v) => v,
            Err(e) => return Err(e),
        };
        let device_id = match self.hex16_field(i, "device") {
            Ok(v) => v,
            Err(e) => return Err(e),
        };
        let rebar_cap_offset = match self.offset_field(i, "rebar_cap_offset") {
            Ok(v) => v,
            Err(e) => return Err(e),
        };
        let rebar_entry_index = match self.dec_field(i, "rebar_entry_index") {
            Ok(v) => v,
            Err(e) => return Err(e),
        };
        let bar_index = match self.dec_field(i, "bar_index") {
            Ok(v) => v,
            Err(e) => return Err(e),
        };
        let original_size_index = match self.dec_field(i, "original_size_index") {
            Ok(v) => v,
            Err(e) => return Err(e),
        };
        let target_size_index = match self.dec_field(i, "target_size_index") {
            Ok(v) => v,
            Err(e) => return Err(e),
        };
        Ok(
            Numbers {
                vendor,
                device_id,
                rebar_cap_offset,
                rebar_entry_index,
                bar_index,
                original_size_index,
                target_size_index,
            },
        )
    }

    fn action(&self, i: usize) -> (r: Result<Action, String>)
        ensures
            match r {
                Ok(a) => action_at(self.map(), i as nat) == Ok::<ActionView, Seq<char>>(a@),
                Err(e) => action_at(self.map(), i as nat) == Err::<ActionView, Seq<char>>(e@),
            },
    {
        let bdf = match self.bdf_field(i, "bdf") {
            Ok(b) => b,
            Err(e) => return Err(e),
        };
        let cut_point = match self.bdf_field(i, "cut_point") {
            Ok(b) => b,
            Err(e) => return Err(e),
        };
        let driver_text = match self.field(i, "driver") {
            Ok(v) => v,
            Err(e) => return Err(e),
        };
        let driver = if driver_text.as_str().unicode_len() == 0 {
            None
        } else {
            Some(owned(driver_text.as_str()))
        };
        let companions = match self.field(i, "companions") {
            Ok(v) => parse_list(v.as_str()),
            Err(e) => return Err(e),
        };
        match self.numbers(i) {
            Ok(n) => Ok(
                Action {
                    bdf,
                    vendor: n.vendor,
                    device_id: n.device_id,
                    driver,
                    rebar_cap_offset: n.rebar_cap_offset,
                    rebar_entry_index: n.rebar_entry_index,
                    bar_index: n.bar_index,
                    original_size_index: n.original_size_index,
                    target_size_index: n.target_size_index,
                    cut_point,
                    companions,
                },
            ),
            Err(e) => Err(e),
        }
    }
}

fn key_text(i: usize, name: &str) -> (r: String)
    ensures
        r@ == action_key(i as nat, name@),
{
    let mut r = owned("action.");
    r.append(dec_text(i as u64).as_str());
    r.append(".");
    r.append(name);
    r
}

fn parse_hex(s: &str, max: u64, what: &str) -> (r: Result<u64, String>)
    ensures
        match r {
            Ok(n) => n <= max && hex_number(s@, max as nat, what@) == Ok::<nat, Seq<char>>(
                n as nat,
            ),
            Err(e) => hex_number(s@, max as nat, what@) == Err::<nat, Seq<char>>(e@),
        },
{
    let cs = chars_of(s);
    let digits = strip_0x(trim(cs.as_slice()));
    match parse_numeral(digits, 16, max) {
        Ok(n) => Ok(n),
        Err(e) => {
            let shown = quote(string_of(digits).as_str());
            Err(parse_failure(what, shown.as_str(), e))
        },
    }
}

/// Reads a hexadecimal number of 16 bits.
pub fn parse_hex16(s: &str) -> (r: Result<u16, String>)
    ensures
        match r {
            Ok(n) => hex_number(s@, 0xffff, "parse hex16 "@) == Ok::<nat, Seq<char>>(n as nat),
            Err(e) => hex_number(s@, 0xffff, "parse hex16 "@) == Err::<nat, Seq<char>>(e@),
        },
{
    match parse_hex(s, 0xffff, "parse hex16 ") {
        Ok(n) => Ok(n as u16),
        Err(e) => Err(e),
    }
}

/// Reads a hexadecimal offset.
pub fn parse_hex_usize(s: &str) -> (r: Result<usize, String>)
    ensures
        match r {
            Ok(n) => hex_number(s@, usize::MAX as nat, "parse hex "@) == Ok::<nat, Seq<char>>(
                n as nat,
            ),
            Err(e) => hex_number(s@, usize::MAX as nat, "parse hex "@) == Err::<nat, Seq<char>>(e@),
        },
{
    match parse_hex(s, usize::MAX as u64, "parse hex ") {
        Ok(n) => Ok(n as usize),
        Err(e) => Err(e),
    }
}

/// Reads a decimal number below 256.
pub fn parse_dec(s: &str) -> (r: Result<u8, String>)
    ensures
        match r {
            Ok(n) => dec_number(s@) == Ok::<nat, Seq<char>>(n as nat),
            Err(e) => dec_number(s@) == Err::<nat, Seq<char>>(e@),
        },
{
    let cs = chars_of(s);
    match parse_numeral(trim(cs.as_slice()), 10, 255) {
        Ok(n) => Ok(n as u8),
        Err(e) => {
            let shown = quote(s);
            Err(parse_failure("parse dec ", shown.as_str(), e))
        },
    }
}

fn parse_list(s: &str) -> (r: Vec<Bdf>)
    ensures
        r@ == listed_bdfs(s@),
{
    let cs = chars_of(s);
    let parts = split(cs.as_slice(), ',');
    let ghost names = text::texts(parts@);
    let mut r: Vec<Bdf> = Vec::new();
    let mut i: usize = 0;
    assert(device::named_bdfs(names.take(0)) =~= seq![]);
    while i < parts.len()
        invariant
            i <= parts.len(),
            names == text::texts(parts@),
            r@ == device::named_bdfs(names.take(i as int)),
        decreases parts.len() - i,
    {
        assert(names.take(i + 1).drop_last() =~= names.take(i as int));
        assert(names.take(i + 1).last() == parts@[i as int]@);
        match Bdf::parse_chars(parts[i].as_slice()) {
            Some(b) => r.push(b),
            None => {},
        }
        i += 1;
    }
    assert(names.take(i as int) =~= names);
    r
}

fn read_line(line: &Vec<char>) -> (r: Option<(String, String)>)
    ensures
        match r {
            Some((k, v)) => line_entry(line@) == Some((k@, v@)),
            None => line_entry(line@) is None,
        },
{
    let t = trim(line.as_slice());
    if t.len() == 0 || t[0] == '#' {
        return None;
    }
    match split_once(t, '=') {
        Some((k, v)) => Some((string_of(trim(k)), string_of(trim(v)))),
        None => None,
    }
}

fn index_of_key(key: &str) -> (r: Option<usize>)
    ensures
        match r {
            Some(n) => key_index(key@) == Some(n as nat),
            None => key_index(key@) is None,
        },
{
    let cs = chars_of(key);
    let rest = match strip_prefix(cs.as_slice(), "action.") {
        Some(rest) => rest,
        None => return None,
    };
    let n = position(rest, '.');
    let digits = vstd::slice::slice_subrange(rest, 0, n);
    assert(digits@ =~= rest@.take(n as int));
    match parse_numeral(digits, 10, usize::MAX as u64) {
        Ok(n) => Some(n as usize),
        Err(_) => None,
    }
}

proof fn lemma_actions_error_stays(m: Map<Seq<char>, Seq<char>>, k: nat, n: nat)
    requires
        k <= n,
        actions_at(m, k) is Err,
    ensures
        actions_at(m, n) == actions_at(m, k),
    decreases n - k,
{
    if k < n {
        lemma_actions_error_stays(m, k + 1, n);
    }
}

/// Reads a manifest back.
pub fn read(contents: &str) -> (r: Result<Plan, String>)
    ensures
        match r {
            Ok(p) => manifest_plan(contents@) == Ok::<PlanView, Seq<char>>(p@),
            Err(e) => manifest_plan(contents@) == Err::<PlanView, Seq<char>>(e@),
        },
{
    let cs = chars_of(contents);
    let ls = split_lines(cs.as_slice());
    let ghost lines = text::lines(contents@);
    let mut kv = Entries { list: Vec::new() };
    let mut largest: Option<usize> = None;
    let mut i: usize = 0;
    assert(lines.take(0) =~= seq![]);
    while i < ls.len()
        invariant
            i <= ls.len(),
            lines == text::texts(ls@),
            kv.map() == entries(lines.take(i as int)),
            action_count(lines.take(i as int)) == match largest {
                Some(n) => n as nat + 1,
                None => 0,
            },
        decreases ls.len() - i,
    {
        assert(lines.take(i + 1).drop_last() =~= lines.take(i as int));
        assert(lines.take(i + 1).last() == ls@[i as int]@);
        match read_line(&ls[i]) {
            Some((k, v)) => {
                match index_of_key(k.as_str()) {
                    Some(n) => {
                        largest = match largest {
                            Some(m) => if n >= m {
                                Some(n)
                            } else {
                                Some(m)
                            },
                            None => Some(n),
                        };
                    },
                    None => {},
                }
                let ghost before = kv.list@;
                kv.list.push((k, v));
                assert(kv.list@.drop_last() =~= before);
            },
            None => {},
        }
        i += 1;
    }
    assert(lines.take(i as int) =~= lines);
    let mode = match kv.get("mode") {
        Some(v) => match Mode::parse(v.as_str()) {
            Some(m) => m,
            None => {
                let mut e = owned("bad mode: ");
                e.append(v.as_str());
                return Err(e);
            },
        },
        None => return Err(owned("missing mode")),
    };
    let mut actions: Vec<Action> = Vec::new();
    assert(plan::action_views(actions@) =~= seq![]);
    match largest {
        None => {},
        Some(last) => {
            let mut j: usize = 0;
            let mut more = true;
            while more
                invariant
                    j <= last,
                    action_count(lines) == last as nat + 1,
                    kv.map() == entries(lines),
                    actions_at(kv.map(), if more {
                        j as nat
                    } else {
                        last as nat + 1
                    }) == Ok::<Seq<ActionView>, Seq<char>>(plan::action_views(actions@)),
                    manifest_plan(contents@) == (match actions_at(kv.map(), last as nat + 1) {
                        Err(e) => Err::<PlanView, Seq<char>>(e),
                        Ok(actions) => Ok(PlanView { mode, actions }),
                    }),
                decreases last - j + (if more {
                    1int
                } else {
                    0
                }),
            {
                match kv.action(j) {
                    Ok(a) => {
                        let ghost before = plan::action_views(actions@);
                        actions.push(a);
                        assert(plan::action_views(actions@) =~= before.push(a@));
                    },
                    Err(e) => {
                        proof {
                            lemma_actions_error_stays(kv.map(), j as nat + 1, last as nat + 1);
                        }
                        return Err(e);
                    },
                }
                if j == last {
                    more = false;
                } else {
                    j += 1;
                }
            }
        },
    }
    Ok(Plan { mode, actions })
}

// ---------------------------------------------------------------- the file

/// What an attempt to change a file came to.
#[derive(Debug)]
pub enum FileOutcome {
    Done,
    /// The file does not exist.
    NotFound,
    /// It failed for another reason.
    Failed(String),
}

/// The result of an attempt for which a missing file is as good as success.
pub open spec fn missing_is_fine(outcome: FileOutcome) -> Result<(), Seq<char>> {
    match outcome {
        FileOutcome::Done => Ok(()),
        FileOutcome::NotFound => Ok(()),
        FileOutcome::Failed(e) => Err(e@),
    }
}

/// The contents of a result without a value.
pub open spec fn attempt(r: Result<(), String>) -> Result<(), Seq<char>> {
    match r {
        Ok(()) => Ok(()),
        Err(e) => Err(e@),
    }
}

/// The result of an attempt for which a missing file is as good as success.
pub fn ignore_missing(outcome: &FileOutcome) -> (r: Result<(), String>)
    ensures
        attempt(r) == missing_is_fine(*outcome),
{
    match outcome {
        FileOutcome::Done => Ok(()),
        FileOutcome::NotFound => Ok(()),
        FileOutcome::Failed(e) => Err(owned(e.as_str())),
    }
}

/// The result of deleting the manifest: it counts as deleted where it does not exist.
pub fn delete(outcome: &FileOutcome) -> (r: Result<(), String>)
    ensures
        attempt(r) == missing_is_fine(*outcome),
{
    ignore_missing(outcome)
}

/// What has been done so far to put a manifest in place, and what it came to.
#[derive(Debug)]
pub struct Saving {
    /// The directory of the manifest was made, with those above it.
    pub made: Option<Result<(), String>>,
    /// The text was written to a temporary file beside the manifest.
    pub written: Option<Result<(), String>>,
    /// The temporary file was renamed to the manifest.
    pub renamed: Option<Result<(), String>>,
}

/// The next step in putting a manifest in place.
#[derive(Debug)]
pub enum SaveStep {
    /// Make this directory, with those above it.
    MakeDirectory(String),
    /// Write the text to this file.
    WriteTemporary(String),
    /// Rename the first file to the second.
    Rename(String, String),
    Done,
    Failed(String),
}

/// The contents of a [`SaveStep`].
pub enum SaveStepView {
    MakeDirectory(Seq<char>),
    WriteTemporary(Seq<char>),
    Rename(Seq<char>, Seq<char>),
    Done,
    Failed(Seq<char>),
}

impl View for SaveStep {
    type V = SaveStepView;

    open spec fn view(&self) -> SaveStepView {
        match self {
            SaveStep::MakeDirectory(d) => SaveStepView::MakeDirectory(d@),
            SaveStep::WriteTemporary(f) => SaveStepView::WriteTemporary(f@),
            SaveStep::Rename(from, to) => SaveStepView::Rename(from@, to@),
            SaveStep::Done => SaveStepView::Done,
            SaveStep::Failed(e) => SaveStepView::Failed(e@),
        }
    }
}

/// The temporary file beside a manifest.
pub open spec fn temporary(manifest: Seq<char>) -> Seq<char> {
    path::with_other_extension(manifest, "tmp"@)
}

/// The next step in putting a manifest in place: the first that was not done, unless one before it
/// failed. A path without a directory needs none made.
pub open spec fn saving_step(manifest: Seq<char>, s: Saving) -> SaveStepView {
    match (s.made, path::directory(manifest)) {
        (Some(Err(e)), _) => SaveStepView::Failed(e@),
        (None, Some(dir)) => SaveStepView::MakeDirectory(dir),
        _ => match s.written {
            None => SaveStepView::WriteTemporary(temporary(manifest)),
            Some(Err(e)) => SaveStepView::Failed(e@),
            Some(Ok(())) => match s.renamed {
                None => SaveStepView::Rename(temporary(manifest), manifest),
                Some(Err(e)) => SaveStepView::Failed(e@),
                Some(Ok(())) => SaveStepView::Done,
            },
        },
    }
}

/// Decides the next step in putting a manifest at `manifest_path`.
pub fn save_step(manifest_path: &str, s: &Saving) -> (r: SaveStep)
    ensures
        r@ == saving_step(manifest_path@, *s),
{
    match &s.made {
        Some(Ok(())) => {},
        Some(Err(e)) => return SaveStep::Failed(owned(e.as_str())),
        None => match parent(manifest_path) {
            Some(dir) => return SaveStep::MakeDirectory(dir),
            None => {},
        },
    }
    match &s.written {
        Some(Ok(())) => {},
        Some(Err(e)) => return SaveStep::Failed(owned(e.as_str())),
        None => return SaveStep::WriteTemporary(with_extension(manifest_path, "tmp")),
    }
    match &s.renamed {
        Some(Ok(())) => SaveStep::Done,
        Some(Err(e)) => SaveStep::Failed(owned(e.as_str())),
        None => SaveStep::Rename(with_extension(manifest_path, "tmp"), owned(manifest_path)),
    }
}

/// The manifest is only replaced by the temporary file, and only once the whole text is in that
/// file; saving it only succeeds once it was replaced.
pub proof fn law_manifest_replaced_whole(manifest: Seq<char>, s: Saving)
    ensures
        saving_step(manifest, s) matches SaveStepView::WriteTemporary(file) ==> file == temporary(
            manifest,
        ),
        saving_step(manifest, s) matches SaveStepView::Rename(from, to) ==> {
            &&& s.written is Some && s.written->0 is Ok
            &&& from == temporary(manifest)
            &&& to == manifest
        },
        saving_step(manifest, s) is Done ==> {
            &&& s.written is Some && s.written->0 is Ok
            &&& s.renamed is Some && s.renamed->0 is Ok
        },
{
}

} // verus!
