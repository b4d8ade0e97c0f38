//! The report on GPUs, their BARs, and whether the host is ready for a resize.

use vstd::prelude::*;

use crate::number::{self, dec_text, hex_padded_text, hex_text, parse_numeral};
use crate::pci::device::{self, join_bdfs, DeviceView};
use crate::pci::{Bdf, Device, Resource};
use crate::plan::{self, pick_framebuffer_entry};
use crate::preflight::{self, Check, CheckView};
use crate::rebar::{
    self, format_size, format_size_index, size_bytes, Rebar, RebarEntry, RebarView,
};
use crate::text::{
    self, chars_of, join, owned, pad_left, pad_right, same_text, split_lines, split_words,
    strip_0x, strip_prefix,
};
use crate::topology::{self, cut_point, group_by_cut_point, CutGroup, CutGroupView};

pub mod labels;
pub mod style;

use labels::Labels;
use style::Style;

verus! {

// ---------------------------------------------------------------- preferred sizes

/// Why a size is preferred for a known device.
pub open spec fn reason(vendor: u16, device: u16) -> Seq<char> {
    if vendor == 0x10de && device == 0x2bb1 {
        "RTX PRO 6000 Blackwell → 128 GiB (covers 96 GiB VRAM)"@
    } else {
        "Radeon PRO W6600 → 8 GiB (matches VRAM)"@
    }
}

/// The preferred size index of a known device, and the reason for it.
pub fn preferred_size_index(vendor: u16, device: u16) -> (r: Option<(u8, &'static str)>)
    ensures
        match r {
            Some((i, why)) => plan::preferred(vendor, device) == Some(i) && why@ == reason(
                vendor,
                device,
            ),
            None => plan::preferred(vendor, device) is None,
        },
{
    if vendor == 0x10de && device == 0x2bb1 {
        Some((17, "RTX PRO 6000 Blackwell → 128 GiB (covers 96 GiB VRAM)"))
    } else if vendor == 0x1002 && device == 0x73e3 {
        Some((13, "Radeon PRO W6600 → 8 GiB (matches VRAM)"))
    } else {
        None
    }
}

// ---------------------------------------------------------------- the checks of the host

/// One check in the report.
pub open spec fn check_line(st: Style, c: CheckView) -> Seq<char> {
    "  "@ + (if c.ok {
        st.wrapped("32"@, "[ OK ]"@)
    } else {
        st.wrapped("33"@, "[WARN]"@)
    }) + " "@ + c.name + " — "@ + c.detail + "\n"@
}

/// The first `n` checks of the report, under their heading.
pub open spec fn preflight_text(st: Style, checks: Seq<CheckView>, n: nat) -> Seq<char>
    decreases n,
{
    if n == 0 {
        st.wrapped("1"@, "Host pre-flight:"@) + "\n"@
    } else {
        preflight_text(st, checks, (n - 1) as nat) + check_line(st, checks[n - 1])
    }
}

fn show_check(st: Style, c: &Check) -> (r: String)
    ensures
        r@ == check_line(st, c@),
{
    let marker = if c.ok {
        st.green("[ OK ]")
    } else {
        st.yellow("[WARN]")
    };
    let mut r = owned("  ");
    r.append(marker.as_str());
    r.append(" ");
    r.append(c.name);
    r.append(" — ");
    r.append(c.detail.as_str());
    r.append("\n");
    r
}

/// The section on the checks of the host.
pub fn print_preflight(st: Style, checks: &Vec<Check>) -> (r: String)
    ensures
        r@ == preflight_text(st, preflight::check_views(checks@), checks@.len()),
{
    let ghost all = preflight::check_views(checks@);
    let mut r = st.bold("Host pre-flight:");
    r.append("\n");
    let mut i: usize = 0;
    while i < checks.len()
        invariant
            i <= checks.len(),
            all == preflight::check_views(checks@),
            r@ == preflight_text(st, all, i as nat),
        decreases checks.len() - i,
    {
        assert(all[i as int] == checks@[i as int]@);
        r.append(show_check(st, &checks[i]).as_str());
        i += 1;
    }
    r
}

// ---------------------------------------------------------------- the capability

/// The sizes of a list of size indices, for people.
pub open spec fn size_texts(v: Seq<u8>) -> Seq<Seq<char>> {
    Seq::new(v.len(), |i: int| rebar::index_text(v[i]))
}

/// The largest size of an entry, for people.
pub open spec fn largest_text(e: RebarEntry) -> Seq<char> {
    match e.largest() {
        Some(i) => rebar::index_text(i),
        None => "?"@,
    }
}

/// One entry of the capability in the report.
pub open spec fn entry_line(e: RebarEntry) -> Seq<char> {
    "      BAR "@ + number::dec(e.bar_index as nat) + ": current idx "@ + number::dec(
        e.current_size_index as nat,
    ) + " ("@ + rebar::index_text(e.current_size_index) + "), supports up to "@ + largest_text(e)
        + " — ["@ + text::joined(size_texts(e.supported_below(28)), ", "@) + "]\n"@
}

/// The first `n` entries of the capability, under their heading.
pub open spec fn entries_text(reb: RebarView, n: nat) -> Seq<char>
    decreases n,
{
    if n == 0 {
        "    rebar          cap @ 0x"@ + number::hex(reb.cap_offset as nat) + ", "@ + number::dec(
            reb.entries.len(),
        ) + " entries\n"@
    } else {
        entries_text(reb, (n - 1) as nat) + entry_line(reb.entries[n - 1])
    }
}

/// What the report says of the BAR and the size that are wanted.
pub open spec fn wanted_text(e: RebarEntry, target: u8) -> Seq<char> {
    " BAR "@ + number::dec(e.bar_index as nat) + ": size idx "@ + number::dec(target as nat)
        + " ("@ + rebar::index_text(target) + ")"@
}

/// The line on the largest size of an entry that does not support the wanted one.
pub open spec fn ceiling_text(e: RebarEntry) -> Seq<char> {
    match e.largest() {
        Some(i) => "                   ceiling for this BAR: "@ + rebar::index_text(i) + " (idx "@
            + number::dec(i as nat) + ")\n"@,
        None => ""@,
    }
}

/// What the report says of the preferred size of a known device.
pub open spec fn target_text(st: Style, gpu: DeviceView, reb: RebarView) -> Seq<char> {
    match plan::preferred(gpu.vendor, gpu.device_id) {
        None => ""@,
        Some(target) => match plan::framebuffer(gpu, reb) {
            None => "    target         no suitable rebar entry found for framebuffer BAR\n"@,
            Some(i) => {
                let e = reb.entries[i];
                if e.has(target as int) {
                    "    target         "@ + st.wrapped("32"@, "[ OK ]"@) + wanted_text(e, target)
                        + " — "@ + reason(gpu.vendor, gpu.device_id) + "\n"@
                } else {
                    "    target         "@ + st.wrapped("31"@, "[FAIL]"@) + wanted_text(e, target)
                        + " not in supported set — "@ + reason(gpu.vendor, gpu.device_id) + "\n"@
                        + ceiling_text(e)
                }
            },
        },
    }
}

/// What the report says of the capability of a GPU.
pub open spec fn rebar_text(st: Style, gpu: DeviceView, reb: RebarView) -> Seq<char> {
    entries_text(reb, reb.entries.len()) + target_text(st, gpu, reb)
}

/// The current sizes have numbers of bytes that fit in 64 bits.
pub open spec fn entries_fit(reb: RebarView) -> bool {
    forall|i: int|
        0 <= i < reb.entries.len() ==> (#[trigger] reb.entries[i]).current_size_index < 44
}

fn list_sizes(v: &Vec<u8>) -> (r: Vec<String>)
    requires
        forall|i: int| 0 <= i < v@.len() ==> v@[i] < 44,
    ensures
        text::strings(r@) == size_texts(v@),
{
    let mut r: Vec<String> = Vec::new();
    let mut i: usize = 0;
    assert(text::strings(r@) =~= size_texts(v@.take(0)));
    while i < v.len()
        invariant
            i <= v.len(),
            forall|i: int| 0 <= i < v@.len() ==> v@[i] < 44,
            text::strings(r@) == size_texts(v@.take(i as int)),
        decreases v.len() - i,
    {
        let ghost before = text::strings(r@);
        let s = format_size_index(v[i]);
        let ghost shown = s@;
        r.push(s);
        i += 1;
        assert(text::strings(r@) =~= before.push(shown));
        assert(size_texts(v@.take(i as int)) =~= size_texts(v@.take(i - 1)).push(shown));
    }
    assert(v@.take(i as int) =~= v@);
    r
}

fn show_entry(e: &RebarEntry) -> (r: String)
    requires
        e.current_size_index < 44,
    ensures
        r@ == entry_line(*e),
{
    let supported = e.supported_indices();
    proof {
        rebar::lemma_supported_below(*e, 28);
        assert(forall|i: int| 0 <= i < supported@.len() ==> supported@[i] < 28);
    }
    let largest = match e.largest_supported() {
        Some(i) => format_size_index(i),
        None => owned("?"),
    };
    let sizes = list_sizes(&supported);
    let mut r = owned("      BAR ");
    r.append(dec_text(e.bar_index as u64).as_str());
    r.append(": current idx ");
    r.append(dec_text(e.current_size_index as u64).as_str());
    r.append(" (");
    r.append(format_size(size_bytes(e.current_size_index)).as_str());
    r.append("), supports up to ");
    r.append(largest.as_str());
    r.append(" — [");
    r.append(join(&sizes, ", ").as_str());
    r.append("]\n");
    r
}

fn show_wanted(e: &RebarEntry, target: u8) -> (r: String)
    requires
        target < 44,
    ensures
        r@ == wanted_text(*e, target),
{
    let mut r = owned(" BAR ");
    r.append(dec_text(e.bar_index as u64).as_str());
    r.append(": size idx ");
    r.append(dec_text(target as u64).as_str());
    r.append(" (");
    r.append(format_size_index(target).as_str());
    r.append(")");
    r
}

fn show_ceiling(e: &RebarEntry) -> (r: String)
    ensures
        r@ == ceiling_text(*e),
{
    match e.largest_supported() {
        Some(i) => {
            let mut r = owned("                   ceiling for this BAR: ");
            r.append(format_size_index(i).as_str());
            r.append(" (idx ");
            r.append(dec_text(i as u64).as_str());
            r.append(")\n");
            r
        },
        None => owned(""),
    }
}

fn show_target(st: Style, gpu: &Device, reb: &Rebar) -> (r: String)
    ensures
        r@ == target_text(st, gpu@, reb@),
{
    let (target, why) = match preferred_size_index(gpu.vendor, gpu.device_id) {
        Some(p) => p,
        None => return owned(""),
    };
    let e = match pick_framebuffer_entry(gpu, reb) {
        Some((_, e)) => e,
        None => {
            return owned("    target         no suitable rebar entry found for framebuffer BAR\n");
        },
    };
    let mut r = owned("    target         ");
    if e.supports(target) {
        r.append(st.green("[ OK ]").as_str());
        r.append(show_wanted(e, target).as_str());
        r.append(" — ");
        r.append(why);
        r.append("\n");
    } else {
        r.append(st.red("[FAIL]").as_str());
        r.append(show_wanted(e, target).as_str());
        r.append(" not in supported set — ");
        r.append(why);
        r.append("\n");
        r.append(show_ceiling(e).as_str());
    }
    r
}

/// The lines on the capability of a GPU.
pub fn print_rebar(st: Style, gpu: &Device, reb: &Rebar) -> (r: String)
    requires
        entries_fit(reb@),
    ensures
        r@ == rebar_text(st, gpu@, reb@),
{
    let mut r = owned("    rebar          cap @ 0x");
    r.append(hex_text(reb.cap_offset as u64).as_str());
    r.append(", ");
    r.append(dec_text(reb.entries.len() as u64).as_str());
    r.append(" entries\n");
    let mut i: usize = 0;
    while i < reb.entries.len()
        invariant
            i <= reb.entries.len(),
            entries_fit(reb@),
            r@ == entries_text(reb@, i as nat),
        decreases reb.entries.len() - i,
    {
        assert(reb@.entries[i as int] == reb.entries@[i as int]);
        r.append(show_entry(&reb.entries[i]).as_str());
        i += 1;
    }
    r.append(show_target(st, gpu, reb).as_str());
    r
}

// ---------------------------------------------------------------- the window of a bridge

/// The line of a bridge's `resource` file that describes its prefetchable window: three windows
/// follow thirteen other resources, and this is the last of them.
pub const PREF_WINDOW_LINE: usize = 15;

/// The number in a field of the file.
pub open spec fn window_field(words: Seq<Seq<char>>, i: int) -> Option<nat> {
    if i < words.len() {
        match number::numeral_value(text::without_0x(words[i]), 16, u64::MAX as nat) {
            Ok(n) => Some(n),
            Err(_) => None,
        }
    } else {
        None
    }
}

/// The prefetchable window of a bridge, where it is in use and can be read.
pub open spec fn window_of(contents: Seq<char>) -> Option<Resource> {
    let lines = text::lines(contents);
    if lines.len() <= PREF_WINDOW_LINE {
        None
    } else {
        let words = text::words(lines[PREF_WINDOW_LINE as int]);
        match (window_field(words, 0), window_field(words, 1), window_field(words, 2)) {
            (Some(start), Some(end), Some(flags)) => if flags == 0 || end < start {
                None
            } else {
                Some(Resource { start: start as u64, end: end as u64, flags: flags as u64 })
            },
            _ => None,
        }
    }
}

/// The number of bytes in a window.
pub open spec fn window_bytes(w: Resource) -> int {
    w.end - w.start + 1
}

fn read_window_field(words: &Vec<Vec<char>>, i: usize) -> (r: Option<u64>)
    ensures
        match r {
            Some(n) => window_field(text::texts(words@), i as int) == Some(n as nat),
            None => window_field(text::texts(words@), i as int) is None,
        },
{
    if i >= words.len() {
        return None;
    }
    assert(text::texts(words@)[i as int] == words@[i as int]@);
    match parse_numeral(strip_0x(words[i].as_slice()), 16, u64::MAX) {
        Ok(n) => Some(n),
        Err(_) => None,
    }
}

/// Reads the prefetchable window of a bridge from its `resource` file.
pub fn read_window(contents: &str) -> (r: Option<Resource>)
    ensures
        r == window_of(contents@),
{
    let cs = chars_of(contents);
    let lines = split_lines(cs.as_slice());
    assert(text::texts(lines@) == text::lines(contents@));
    if lines.len() <= PREF_WINDOW_LINE {
        return None;
    }
    assert(text::texts(lines@)[PREF_WINDOW_LINE as int] == lines@[PREF_WINDOW_LINE as int]@);
    let words = split_words(lines[PREF_WINDOW_LINE].as_slice());
    let start = match read_window_field(&words, 0) {
        Some(n) => n,
        None => return None,
    };
    let end = match read_window_field(&words, 1) {
        Some(n) => n,
        None => return None,
    };
    let flags = match read_window_field(&words, 2) {
        Some(n) => n,
        None => return None,
    };
    if flags == 0 || end < start {
        return None;
    }
    Some(Resource { start, end, flags })
}

/// The size of the window fits in 64 bits: it is not the whole address space.
pub open spec fn window_fits(contents: Seq<char>) -> bool {
    window_of(contents) matches Some(w) ==> window_bytes(w) <= u64::MAX
}

/// The size of the prefetchable window of a bridge, from its `resource` file.
pub fn bridge_prefetch_window(contents: &str) -> (r: Option<u64>)
    requires
        window_fits(contents@),
    ensures
        match r {
            Some(n) => window_of(contents@) matches Some(w) && n == window_bytes(w),
            None => window_of(contents@) is None,
        },
{
    match read_window(contents) {
        Some(w) => Some(w.end - w.start + 1),
        None => None,
    }
}

// ---------------------------------------------------------------- one GPU

/// What is read for the report on one GPU.
#[derive(Debug)]
pub struct GpuReadings {
    /// What reading its capability gave.
    pub rebar: Result<Option<Rebar>, String>,
    /// The `resource` file of the bridge at its cut point, where that is one of the devices found
    /// and the file can be read.
    pub window: Option<String>,
    /// What reading its capability gave again, for the section on readiness.
    pub rebar_again: Result<Option<Rebar>, String>,
}

/// The contents of a reading of a capability.
pub open spec fn rebar_reading(r: Result<Option<Rebar>, String>) -> Result<
    Option<RebarView>,
    Seq<char>,
> {
    match r {
        Ok(Some(reb)) => Ok(Some(reb@)),
        Ok(None) => Ok(None),
        Err(e) => Err(e@),
    }
}

/// The bridge whose window the report shows: the one at the cut point, where it is one of the
/// devices found.
pub open spec fn bridge_of(gpu: DeviceView, all: Seq<DeviceView>) -> Option<Bdf> {
    match topology::cut_of(gpu) {
        None => None,
        Some(c) => if exists|i: int| 0 <= i < all.len() && (#[trigger] all[i]).bdf == c {
            Some(c)
        } else {
            None
        },
    }
}

/// Finds the bridge whose window the report shows.
pub fn bridge_to_read(gpu: &Device, all: &Vec<Device>) -> (r: Option<Bdf>)
    ensures
        r == bridge_of(gpu@, device::device_views(all@)),
{
    let c = match cut_point(gpu) {
        Some(c) => c,
        None => return None,
    };
    let ghost views = device::device_views(all@);
    let mut i: usize = 0;
    while i < all.len()
        invariant
            i <= all.len(),
            views == device::device_views(all@),
            topology::cut_of(gpu@) == Some(c),
            forall|j: int| 0 <= j < i ==> (#[trigger] views[j]).bdf != c,
        decreases all.len() - i,
    {
        assert(views[i as int] == all@[i as int]@);
        if all[i].bdf == c {
            return Some(c);
        }
        i += 1;
    }
    None
}

/// The line on a BAR that is in use.
pub open spec fn bar_text(i: nat, r: Resource) -> Seq<char> {
    "      BAR "@ + number::dec(i) + " "@ + text::padded_right(r.kind(), 11) + "  "@
        + text::padded_left(rebar::size_text(r.bytes() as nat), ' ', 12) + "  @ 0x"@
        + number::hex_padded(r.start as nat, 12) + "\n"@
}

/// The lines on those of the first `n` BARs that are in use.
pub open spec fn bars_text(rs: Seq<Resource>, n: nat) -> Seq<char>
    decreases n,
{
    if n == 0 {
        ""@
    } else if rs[n - 1].assigned() {
        bars_text(rs, (n - 1) as nat) + bar_text((n - 1) as nat, rs[n - 1])
    } else {
        bars_text(rs, (n - 1) as nat)
    }
}

/// The number of BARs in the report: six, or as many as the device has resources.
pub open spec fn bar_count(rs: Seq<Resource>) -> nat {
    if rs.len() < 6 {
        rs.len()
    } else {
        6
    }
}

/// Some of the first BARs are in use.
pub open spec fn any_assigned(rs: Seq<Resource>) -> bool {
    exists|i: int| 0 <= i < bar_count(rs) && (#[trigger] rs[i]).assigned()
}

/// The sizes of the first BARs fit in 64 bits.
pub open spec fn bars_fit(rs: Seq<Resource>) -> bool {
    forall|i: int| 0 <= i < bar_count(rs) ==> (#[trigger] rs[i]).sized()
}

/// The section on the current BARs.
pub open spec fn current_bars_text(rs: Seq<Resource>) -> Seq<char> {
    "    current BARs:\n"@ + bars_text(rs, bar_count(rs)) + (if any_assigned(rs) {
        ""@
    } else {
        "      (none assigned)\n"@
    })
}

fn show_bar(i: usize, r: &Resource) -> (s: String)
    requires
        r.sized(),
    ensures
        s@ == bar_text(i as nat, *r),
{
    let mut s = owned("      BAR ");
    s.append(dec_text(i as u64).as_str());
    s.append(" ");
    s.append(pad_right(r.kind_label(), 11).as_str());
    s.append("  ");
    s.append(pad_left(format_size(r.size()).as_str(), ' ', 12).as_str());
    s.append("  @ 0x");
    s.append(hex_padded_text(r.start, 12).as_str());
    s.append("\n");
    s
}

fn show_bars(gpu: &Device) -> (s: String)
    requires
        bars_fit(gpu@.resources),
    ensures
        s@ == current_bars_text(gpu@.resources),
{
    let ghost rs = gpu@.resources;
    let mut bars = owned("");
    let mut any = false;
    let count: usize = if gpu.resources.len() < 6 {
        gpu.resources.len()
    } else {
        6
    };
    let mut i: usize = 0;
    while i < count
        invariant
            i <= count <= gpu.resources.len(),
            rs == gpu@.resources,
            count == bar_count(rs),
            bars_fit(rs),
            bars@ == bars_text(rs, i as nat),
            any == exists|j: int| 0 <= j < i && (#[trigger] rs[j]).assigned(),
        decreases count - i,
    {
        let r = &gpu.resources[i];
        assert(rs[i as int] == *r);
        if r.is_assigned() {
            any = true;
            bars.append(show_bar(i, r).as_str());
        }
        i += 1;
    }
    let note = if any {
        ""
    } else {
        "      (none assigned)\n"
    };
    let mut s = owned("    current BARs:\n");
    s.append(bars.as_str());
    s.append(note);
    s
}

/// What the report says of a capability, or of why it is not known.
pub open spec fn capability_text(
    st: Style,
    gpu: DeviceView,
    reading: Result<Option<RebarView>, Seq<char>>,
) -> Seq<char> {
    match reading {
        Ok(Some(reb)) => rebar_text(st, gpu, reb),
        Ok(None) => "    rebar          not advertised by device\n"@,
        Err(e) => "    rebar          could not read extended config space: "@ + e + " "@
            + st.wrapped("2"@, "(run as root)"@) + "\n"@,
    }
}

/// The line on the window of the bridge.
pub open spec fn window_text(gpu: DeviceView, window: Option<Seq<char>>) -> Seq<char> {
    match (topology::cut_of(gpu), window) {
        (Some(c), Some(contents)) => match window_of(contents) {
            Some(w) => "    parent pref window ("@ + c.text() + "):  "@ + rebar::size_text(
                window_bytes(w) as nat,
            ) + "\n"@,
            None => ""@,
        },
        _ => ""@,
    }
}

/// The line on the cut point.
pub open spec fn cut_text(gpu: DeviceView, names: Map<Bdf, Seq<char>>) -> Seq<char> {
    match topology::cut_of(gpu) {
        Some(c) => "    cut point      "@ + c.text() + "   "@ + labels::label_of(names, c) + "\n"@,
        None => "    cut point      (none — device attached directly to host bridge?)\n"@,
    }
}

/// The line on the bridges above the GPU.
pub open spec fn chain_text(gpu: DeviceView) -> Seq<char> {
    if gpu.parent_chain.len() > 0 {
        "    parent chain   "@ + text::joined(device::bdf_texts(gpu.parent_chain), " → "@) + "\n"@
    } else {
        ""@
    }
}

/// The driver of a GPU, in the report.
pub open spec fn bound_text(driver: Option<Seq<char>>) -> Seq<char> {
    match driver {
        Some(d) => d,
        None => "(none bound)"@,
    }
}

/// The heading of a GPU, and who made it.
pub open spec fn identity_text(
    st: Style,
    gpu: DeviceView,
    names: Map<Bdf, Seq<char>>,
) -> Seq<char> {
    "\n"@ + st.wrapped(
        "1"@,
        "── GPU "@ + gpu.bdf.text() + " "@ + labels::label_of(names, gpu.bdf),
    ) + "\n    vendor:device  "@ + number::hex_padded(gpu.vendor as nat, 4) + ":"@
        + number::hex_padded(gpu.device_id as nat, 4) + "   class 0x"@ + number::hex_padded(
        gpu.class as nat,
        6,
    ) + "\n    driver         "@ + bound_text(gpu.driver) + "\n"@
}

/// The section on one GPU.
pub open spec fn gpu_text(
    st: Style,
    gpu: DeviceView,
    names: Map<Bdf, Seq<char>>,
    reading: Result<Option<RebarView>, Seq<char>>,
    window: Option<Seq<char>>,
) -> Seq<char> {
    identity_text(st, gpu, names) + cut_text(gpu, names) + chain_text(gpu) + current_bars_text(
        gpu.resources,
    ) + capability_text(st, gpu, reading) + window_text(gpu, window)
}

/// The sizes in the section on one GPU fit in 64 bits.
pub open spec fn gpu_fits(
    gpu: DeviceView,
    reading: Result<Option<RebarView>, Seq<char>>,
    window: Option<Seq<char>>,
) -> bool {
    &&& bars_fit(gpu.resources)
    &&& reading matches Ok(Some(reb)) ==> entries_fit(reb)
    &&& topology::cut_of(gpu) is Some ==> (window matches Some(contents) ==> window_fits(contents))
}

fn show_identity(st: Style, gpu: &Device, names: &Labels) -> (r: String)
    ensures
        r@ == identity_text(st, gpu@, names@),
{
    let driver = match &gpu.driver {
        Some(d) => owned(d.as_str()),
        None => owned("(none bound)"),
    };
    let mut title = owned("── GPU ");
    title.append(gpu.bdf.to_string().as_str());
    title.append(" ");
    title.append(names.label(gpu.bdf).as_str());
    let mut r = owned("\n");
    r.append(st.bold(title.as_str()).as_str());
    r.append("\n    vendor:device  ");
    r.append(hex_padded_text(gpu.vendor as u64, 4).as_str());
    r.append(":");
    r.append(hex_padded_text(gpu.device_id as u64, 4).as_str());
    r.append("   class 0x");
    r.append(hex_padded_text(gpu.class as u64, 6).as_str());
    r.append("\n    driver         ");
    r.append(driver.as_str());
    r.append("\n");
    r
}

fn show_cut(gpu: &Device, names: &Labels) -> (r: String)
    ensures
        r@ == cut_text(gpu@, names@),
{
    match cut_point(gpu) {
        Some(c) => {
            let mut r = owned("    cut point      ");
            r.append(c.to_string().as_str());
            r.append("   ");
            r.append(names.label(c).as_str());
            r.append("\n");
            r
        },
        None => owned("    cut point      (none — device attached directly to host bridge?)\n"),
    }
}

fn show_chain(gpu: &Device) -> (r: String)
    ensures
        r@ == chain_text(gpu@),
{
    if gpu.parent_chain.len() > 0 {
        let mut r = owned("    parent chain   ");
        r.append(join_bdfs(&gpu.parent_chain, " → ").as_str());
        r.append("\n");
        r
    } else {
        owned("")
    }
}

fn show_capability(st: Style, gpu: &Device, reading: &Result<Option<Rebar>, String>) -> (r: String)
    requires
        rebar_reading(*reading) matches Ok(Some(reb)) ==> entries_fit(reb),
    ensures
        r@ == capability_text(st, gpu@, rebar_reading(*reading)),
{
    match reading {
        Ok(Some(reb)) => print_rebar(st, gpu, reb),
        Ok(None) => owned("    rebar          not advertised by device\n"),
        Err(e) => {
            let mut r = owned("    rebar          could not read extended config space: ");
            r.append(e.as_str());
            r.append(" ");
            r.append(st.dim("(run as root)").as_str());
            r.append("\n");
            r
        },
    }
}

fn show_window(gpu: &Device, window: &Option<String>) -> (r: String)
    requires
        topology::cut_of(gpu@) is Some ==> (text::opt_text(*window) matches Some(contents)
            ==> window_fits(contents)),
    ensures
        r@ == window_text(gpu@, text::opt_text(*window)),
{
    match (cut_point(gpu), window) {
        (Some(c), Some(contents)) => match bridge_prefetch_window(contents.as_str()) {
            Some(bytes) => {
                let mut r = owned("    parent pref window (");
                r.append(c.to_string().as_str());
                r.append("):  ");
                r.append(format_size(bytes).as_str());
                r.append("\n");
                r
            },
            None => owned(""),
        },
        _ => owned(""),
    }
}

/// The section on one GPU: `rebar` is what reading its capability gave, `window` the `resource`
/// file of the bridge that `bridge_to_read` names.
pub fn print_gpu(
    st: Style,
    gpu: &Device,
    names: &Labels,
    reading: &Result<Option<Rebar>, String>,
    window: &Option<String>,
) -> (r: String)
    requires
        gpu_fits(gpu@, rebar_reading(*reading), text::opt_text(*window)),
    ensures
        r@ == gpu_text(st, gpu@, names@, rebar_reading(*reading), text::opt_text(*window)),
{
    let mut r = show_identity(st, gpu, names);
    r.append(show_cut(gpu, names).as_str());
    r.append(show_chain(gpu).as_str());
    r.append(show_bars(gpu).as_str());
    r.append(show_capability(st, gpu, reading).as_str());
    r.append(show_window(gpu, window).as_str());
    r
}

// ---------------------------------------------------------------- the groups

/// The line on one group.
pub open spec fn group_line(g: CutGroupView, names: Map<Bdf, Seq<char>>) -> Seq<char> {
    "  cut "@ + g.cut.text() + " "@ + labels::label_of(names, g.cut) + " → ["@ + text::joined(
        device::bdf_texts(g.members),
        ", "@,
    ) + "]\n"@
}

/// The lines on the first `n` groups, under their heading.
pub open spec fn group_lines(
    st: Style,
    groups: Seq<CutGroupView>,
    names: Map<Bdf, Seq<char>>,
    n: nat,
) -> Seq<char>
    decreases n,
{
    if n == 0 {
        "\n"@ + st.wrapped(
            "1"@,
            "Cut-point groups (Phase 2 will remove/rescan each bridge once):"@,
        ) + "\n"@
    } else {
        group_lines(st, groups, names, (n - 1) as nat) + group_line(groups[n - 1], names)
    }
}

/// The groups of the GPUs by cut point.
pub open spec fn groups_of(gpus: Seq<DeviceView>) -> Seq<CutGroupView> {
    choose|g: Seq<CutGroupView>| topology::grouped(gpus, g)
}

/// The section on the groups.
pub open spec fn groups_text(
    st: Style,
    gpus: Seq<DeviceView>,
    names: Map<Bdf, Seq<char>>,
) -> Seq<char> {
    let groups = groups_of(gpus);
    if groups.len() == 0 {
        group_lines(st, groups, names, 0) + "  (no GPUs with an identifiable cut point)\n"@
    } else {
        group_lines(st, groups, names, groups.len())
    }
}

fn show_group(g: &CutGroup, names: &Labels) -> (r: String)
    ensures
        r@ == group_line(g@, names@),
{
    let mut r = owned("  cut ");
    r.append(g.cut.to_string().as_str());
    r.append(" ");
    r.append(names.label(g.cut).as_str());
    r.append(" → [");
    r.append(join_bdfs(&g.members, ", ").as_str());
    r.append("]\n");
    r
}

/// The section on the groups of the GPUs.
pub fn print_groups(st: Style, gpus: &[&Device], names: &Labels) -> (r: String)
    ensures
        r@ == groups_text(st, topology::borrowed_views(gpus@), names@),
{
    let groups = group_by_cut_point(gpus);
    let ghost views = topology::group_views(groups@);
    proof {
        let gs = topology::borrowed_views(gpus@);
        topology::law_grouping_unique(gs, views, groups_of(gs));
    }
    let mut r = owned("\n");
    r.append(
        st.bold("Cut-point groups (Phase 2 will remove/rescan each bridge once):").as_str(),
    );
    r.append("\n");
    let mut i: usize = 0;
    while i < groups.len()
        invariant
            i <= groups.len(),
            views == topology::group_views(groups@),
            r@ == group_lines(st, views, names@, i as nat),
        decreases groups.len() - i,
    {
        assert(views[i as int] == groups@[i as int]@);
        r.append(show_group(&groups[i], names).as_str());
        i += 1;
    }
    if groups.len() == 0 {
        r.append("  (no GPUs with an identifiable cut point)\n");
    }
    r
}

// ---------------------------------------------------------------- readiness

/// One line of the section on readiness.
pub open spec fn ready_line(st: Style, ok: bool, label: Seq<char>) -> Seq<char> {
    "  "@ + (if ok {
        st.wrapped("32"@, "[ OK ]"@)
    } else {
        st.wrapped("31"@, "[FAIL]"@)
    }) + " "@ + label + "\n"@
}

/// The outcome of the check for `pci=realloc`: the first check whose name starts with it.
pub open spec fn realloc_ok(checks: Seq<CheckView>) -> bool
    decreases checks.len(),
{
    if checks.len() == 0 {
        false
    } else if text::starts(checks[0].name, "pci=realloc"@) {
        checks[0].ok
    } else {
        realloc_ok(checks.skip(1))
    }
}

/// The outcome of the check for root: the first check of that name.
pub open spec fn root_ok(checks: Seq<CheckView>) -> bool
    decreases checks.len(),
{
    if checks.len() == 0 {
        false
    } else if checks[0].name == "running as root"@ {
        checks[0].ok
    } else {
        root_ok(checks.skip(1))
    }
}

/// The GPU can have its preferred size, if there is one.
pub open spec fn target_ok(
    gpu: DeviceView,
    reading: Result<Option<RebarView>, Seq<char>>,
) -> bool {
    match plan::preferred(gpu.vendor, gpu.device_id) {
        None => true,
        Some(target) => match reading {
            Ok(Some(reb)) => match plan::framebuffer(gpu, reb) {
                Some(i) => reb.entries[i].has(target as int),
                None => false,
            },
            _ => false,
        },
    }
}

/// The line on the preferred size of a GPU, if there is one.
pub open spec fn target_line(
    st: Style,
    gpu: DeviceView,
    reading: Result<Option<RebarView>, Seq<char>>,
) -> Seq<char> {
    match plan::preferred(gpu.vendor, gpu.device_id) {
        None => ""@,
        Some(target) => match reading {
            Ok(Some(_)) => ready_line(
                st,
                target_ok(gpu, reading),
                number::hex_padded(gpu.vendor as nat, 4) + ":"@ + number::hex_padded(
                    gpu.device_id as nat,
                    4,
                ) + " at "@ + gpu.bdf.text() + " supports target size idx "@ + number::dec(
                    target as nat,
                ),
            ),
            _ => ready_line(st, false, "could not read rebar for "@ + gpu.bdf.text()),
        },
    }
}

/// The lines on the first `n` GPUs.
pub open spec fn target_lines(
    st: Style,
    gpus: Seq<DeviceView>,
    readings: Seq<Result<Option<RebarView>, Seq<char>>>,
    n: nat,
) -> Seq<char>
    decreases n,
{
    if n == 0 {
        ""@
    } else {
        target_lines(st, gpus, readings, (n - 1) as nat) + target_line(
            st,
            gpus[n - 1],
            readings[n - 1],
        )
    }
}

/// Everything is ready for a resize.
pub open spec fn ready(
    checks: Seq<CheckView>,
    gpus: Seq<DeviceView>,
    readings: Seq<Result<Option<RebarView>, Seq<char>>>,
) -> bool {
    &&& realloc_ok(checks)
    &&& root_ok(checks)
    &&& forall|i: int| 0 <= i < gpus.len() ==> target_ok(#[trigger] gpus[i], readings[i])
}

/// The section on readiness.
pub open spec fn readiness_text(
    st: Style,
    checks: Seq<CheckView>,
    gpus: Seq<DeviceView>,
    readings: Seq<Result<Option<RebarView>, Seq<char>>>,
) -> Seq<char> {
    "\n"@ + st.wrapped("1"@, "Phase 2 readiness:"@) + "\n"@ + ready_line(
        st,
        realloc_ok(checks),
        "pci=realloc present"@,
    ) + (if root_ok(checks) {
        ""@
    } else {
        ready_line(st, false, "root privileges required to read full config space"@)
    }) + target_lines(st, gpus, readings, gpus.len()) + "\n"@ + (if ready(checks, gpus, readings) {
        "  "@ + st.wrapped("32"@, "✓"@)
            + " Ready to proceed to Phase 2 (execute mode — not yet implemented).\n"@
    } else {
        "  "@ + st.wrapped("33"@, "!"@)
            + " Not ready for Phase 2. Resolve the items above first.\n"@
    })
}

/// Writes one line of the section on readiness.
pub fn line(st: Style, ok: bool, label: &str) -> (r: String)
    ensures
        r@ == ready_line(st, ok, label@),
{
    let marker = if ok {
        st.green("[ OK ]")
    } else {
        st.red("[FAIL]")
    };
    let mut r = owned("  ");
    r.append(marker.as_str());
    r.append(" ");
    r.append(label);
    r.append("\n");
    r
}

fn find_realloc(checks: &Vec<Check>) -> (r: bool)
    ensures
        r == realloc_ok(preflight::check_views(checks@)),
{
    let ghost all = preflight::check_views(checks@);
    let mut i: usize = 0;
    assert(all.skip(0) =~= all);
    while i < checks.len()
        invariant
            i <= checks.len(),
            all == preflight::check_views(checks@),
            realloc_ok(all) == realloc_ok(all.skip(i as int)),
        decreases checks.len() - i,
    {
        assert(all.skip(i as int)[0] == checks@[i as int]@);
        assert(all.skip(i as int).skip(1) =~= all.skip(i + 1));
        let name = chars_of(checks[i].name);
        if strip_prefix(name.as_slice(), "pci=realloc").is_some() {
            return checks[i].ok;
        }
        i += 1;
    }
    false
}

fn find_root(checks: &Vec<Check>) -> (r: bool)
    ensures
        r == root_ok(preflight::check_views(checks@)),
{
    let ghost all = preflight::check_views(checks@);
    let mut i: usize = 0;
    assert(all.skip(0) =~= all);
    while i < checks.len()
        invariant
            i <= checks.len(),
            all == preflight::check_views(checks@),
            root_ok(all) == root_ok(all.skip(i as int)),
        decreases checks.len() - i,
    {
        assert(all.skip(i as int)[0] == checks@[i as int]@);
        assert(all.skip(i as int).skip(1) =~= all.skip(i + 1));
        if same_text(checks[i].name, "running as root") {
            return checks[i].ok;
        }
        i += 1;
    }
    false
}

fn show_readiness_of(
    st: Style,
    gpu: &Device,
    reading: &Result<Option<Rebar>, String>,
) -> (r: (String, bool))
    ensures
        r.0@ == target_line(st, gpu@, rebar_reading(*reading)),
        r.1 == target_ok(gpu@, rebar_reading(*reading)),
{
    let target = match preferred_size_index(gpu.vendor, gpu.device_id) {
        Some((t, _)) => t,
        None => return (owned(""), true),
    };
    match reading {
        Ok(Some(reb)) => {
            let ok = match pick_framebuffer_entry(gpu, reb) {
                Some((_, e)) => e.supports(target),
                None => false,
            };
            let mut label = hex_padded_text(gpu.vendor as u64, 4);
            label.append(":");
            label.append(hex_padded_text(gpu.device_id as u64, 4).as_str());
            label.append(" at ");
            label.append(gpu.bdf.to_string().as_str());
            label.append(" supports target size idx ");
            label.append(dec_text(target as u64).as_str());
            (line(st, ok, label.as_str()), ok)
        },
        _ => {
            let mut label = owned("could not read rebar for ");
            label.append(gpu.bdf.to_string().as_str());
            (line(st, false, label.as_str()), false)
        },
    }
}

/// The second readings of the capabilities.
pub open spec fn second_readings(v: Seq<GpuReadings>) -> Seq<
    Result<Option<RebarView>, Seq<char>>,
> {
    Seq::new(v.len(), |i: int| rebar_reading(v[i].rebar_again))
}

/// The section on readiness. `readings` holds what was read for each GPU, in the same order.
pub fn print_phase2_readiness(
    st: Style,
    checks: &Vec<Check>,
    gpus: &[&Device],
    readings: &Vec<GpuReadings>,
) -> (r: String)
    requires
        readings.len() == gpus.len(),
    ensures
        r@ == readiness_text(
            st,
            preflight::check_views(checks@),
            topology::borrowed_views(gpus@),
            second_readings(readings@),
        ),
{
    let ghost devs = topology::borrowed_views(gpus@);
    let ghost again = second_readings(readings@);
    let realloc = find_realloc(checks);
    let root = find_root(checks);
    let mut lines = owned("");
    let mut all_ok = true;
    let mut i: usize = 0;
    while i < gpus.len()
        invariant
            i <= gpus.len(),
            readings.len() == gpus.len(),
            devs == topology::borrowed_views(gpus@),
            again == second_readings(readings@),
            lines@ == target_lines(st, devs, again, i as nat),
            all_ok == forall|j: int| 0 <= j < i ==> target_ok(#[trigger] devs[j], again[j]),
        decreases gpus.len() - i,
    {
        assert(devs[i as int] == gpus@[i as int]@);
        assert(again[i as int] == rebar_reading(readings@[i as int].rebar_again));
        let (l, ok) = show_readiness_of(st, gpus[i], &readings[i].rebar_again);
        lines.append(l.as_str());
        if !ok {
            all_ok = false;
        }
        i += 1;
    }
    let note = if root {
        owned("")
    } else {
        line(st, false, "root privileges required to read full config space")
    };
    let mut r = owned("\n");
    r.append(st.bold("Phase 2 readiness:").as_str());
    r.append("\n");
    r.append(line(st, realloc, "pci=realloc present").as_str());
    r.append(note.as_str());
    r.append(lines.as_str());
    r.append("\n");
    let mut verdict = owned("  ");
    if realloc && root && all_ok {
        verdict.append(st.green("✓").as_str());
        verdict.append(" Ready to proceed to Phase 2 (execute mode — not yet implemented).\n");
    } else {
        verdict.append(st.yellow("!").as_str());
        verdict.append(" Not ready for Phase 2. Resolve the items above first.\n");
    }
    r.append(verdict.as_str());
    r
}

/// A GPU with a preferred size that is ready for it can be planned for, where it is below a bridge
/// and its companions are known.
pub proof fn law_ready_gpu_can_be_planned(p: plan::ProbeView)
    requires
        plan::preferred(p.device.vendor, p.device.device_id) is Some,
        target_ok(p.device, p.rebar),
        topology::cut_of(p.device) is Some,
        p.companions is Ok,
    ensures
        plan::action_of(plan::Mode::Planned, p) is Ok,
{
}

// ---------------------------------------------------------------- the whole report

/// The GPUs among the devices.
pub open spec fn gpus_of(all: Seq<DeviceView>) -> Seq<DeviceView> {
    all.filter(|d: DeviceView| d.gpu())
}

/// The sections on the first `n` GPUs.
pub open spec fn gpu_sections(
    st: Style,
    gpus: Seq<DeviceView>,
    names: Map<Bdf, Seq<char>>,
    readings: Seq<GpuReadings>,
    n: nat,
) -> Seq<char>
    decreases n,
{
    if n == 0 {
        ""@
    } else {
        gpu_sections(st, gpus, names, readings, (n - 1) as nat) + gpu_text(
            st,
            gpus[n - 1],
            names,
            rebar_reading(readings[n - 1].rebar),
            text::opt_text(readings[n - 1].window),
        )
    }
}

/// The whole report.
pub open spec fn report_text(
    st: Style,
    checks: Seq<CheckView>,
    all: Seq<DeviceView>,
    names: Map<Bdf, Seq<char>>,
    readings: Seq<GpuReadings>,
) -> Seq<char> {
    let gpus = gpus_of(all);
    "\n"@ + st.wrapped("1"@, "=== t2rebar diagnose ==="@) + "\n\n"@ + preflight_text(
        st,
        checks,
        checks.len(),
    ) + "\n"@ + number::dec(gpus.len()) + " GPU(s) detected.\n"@ + gpu_sections(
        st,
        gpus,
        names,
        readings,
        gpus.len(),
    ) + groups_text(st, gpus, names) + readiness_text(st, checks, gpus, second_readings(readings))
}

/// There are readings for each GPU, and the sizes in the report fit in 64 bits.
pub open spec fn reportable(all: Seq<DeviceView>, readings: Seq<GpuReadings>) -> bool {
    &&& readings.len() == gpus_of(all).len()
    &&& forall|i: int|
        0 <= i < readings.len() ==> gpu_fits(
            gpus_of(all)[i],
            rebar_reading((#[trigger] readings[i]).rebar),
            text::opt_text(readings[i].window),
        )
}

fn bars_do_fit(gpu: &Device) -> (r: bool)
    ensures
        r == bars_fit(gpu@.resources),
{
    let ghost rs = gpu@.resources;
    let mut i: usize = 0;
    while i < gpu.resources.len() && i < 6
        invariant
            i <= gpu.resources.len(),
            i <= 6,
            rs == gpu@.resources,
            forall|j: int| 0 <= j < i ==> (#[trigger] rs[j]).sized(),
        decreases gpu.resources.len() - i,
    {
        assert(rs[i as int] == gpu.resources@[i as int]);
        if !gpu.resources[i].is_sized() {
            return false;
        }
        i += 1;
    }
    true
}

fn entries_do_fit(reb: &Rebar) -> (r: bool)
    ensures
        r == entries_fit(reb@),
{
    let mut i: usize = 0;
    while i < reb.entries.len()
        invariant
            i <= reb.entries.len(),
            forall|j: int| 0 <= j < i ==> (#[trigger] reb@.entries[j]).current_size_index < 44,
        decreases reb.entries.len() - i,
    {
        assert(reb@.entries[i as int] == reb.entries@[i as int]);
        if reb.entries[i].current_size_index >= 44 {
            return false;
        }
        i += 1;
    }
    true
}

/// Whether the sizes in the section on one GPU fit in 64 bits, so that it can be printed.
pub fn is_gpu_reportable(
    gpu: &Device,
    reading: &Result<Option<Rebar>, String>,
    window: &Option<String>,
) -> (r: bool)
    ensures
        r == gpu_fits(gpu@, rebar_reading(*reading), text::opt_text(*window)),
{
    if !bars_do_fit(gpu) {
        return false;
    }
    match reading {
        Ok(Some(reb)) => {
            if !entries_do_fit(reb) {
                return false;
            }
        },
        _ => {},
    }
    match (cut_point(gpu), window) {
        (Some(_), Some(contents)) => match read_window(contents.as_str()) {
            Some(w) => !(w.start == 0 && w.end == u64::MAX),
            None => true,
        },
        _ => true,
    }
}

/// Whether the report can be printed from these readings.
pub fn is_reportable(all: &Vec<Device>, readings: &Vec<GpuReadings>) -> (r: bool)
    ensures
        r == reportable(device::device_views(all@), readings@),
{
    let gpus = find_gpus(all);
    let ghost devs = gpus_of(device::device_views(all@));
    assert(gpus@.len() == devs.len());
    if readings.len() != gpus.len() {
        return false;
    }
    let mut i: usize = 0;
    while i < readings.len()
        invariant
            i <= readings.len(),
            readings.len() == gpus.len(),
            devs == gpus_of(device::device_views(all@)),
            devs == topology::borrowed_views(gpus@),
            forall|j: int|
                0 <= j < i ==> gpu_fits(
                    devs[j],
                    rebar_reading((#[trigger] readings@[j]).rebar),
                    text::opt_text(readings@[j].window),
                ),
        decreases readings.len() - i,
    {
        assert(devs[i as int] == gpus@[i as int]@);
        let reading = &readings[i];
        assert(*reading == readings@[i as int]);
        if !is_gpu_reportable(gpus[i], &reading.rebar, &reading.window) {
            return false;
        }
        i += 1;
    }
    true
}

/// Picks out the GPUs among the devices.
pub fn find_gpus<'a>(all: &'a Vec<Device>) -> (r: Vec<&'a Device>)
    ensures
        topology::borrowed_views(r@) == gpus_of(device::device_views(all@)),
{
    let ghost views = device::device_views(all@);
    let mut r: Vec<&'a Device> = Vec::new();
    let mut i: usize = 0;
    proof {
        reveal(Seq::filter);
        assert(gpus_of(views.take(0)) =~= seq![]);
        assert(topology::borrowed_views(r@) =~= seq![]);
    }
    while i < all.len()
        invariant
            i <= all.len(),
            views == device::device_views(all@),
            topology::borrowed_views(r@) == gpus_of(views.take(i as int)),
        decreases all.len() - i,
    {
        proof {
            reveal(Seq::filter);
            assert(views.take(i + 1).drop_last() =~= views.take(i as int));
            assert(views.take(i + 1).last() == all@[i as int]@);
        }
        if all[i].is_gpu() {
            let ghost before = topology::borrowed_views(r@);
            r.push(&all[i]);
            assert(topology::borrowed_views(r@) =~= before.push(all@[i as int]@));
        }
        i += 1;
    }
    assert(views.take(i as int) =~= views);
    r
}

/// The whole report, from the checks of the host, the devices that were found, their names, and
/// what was read for each GPU.
#[verifier::rlimit(30)]
#[verifier::spinoff_prover]
pub fn run(
    st: Style,
    checks: &Vec<Check>,
    all: &Vec<Device>,
    names: &Labels,
    readings: &Vec<GpuReadings>,
) -> (r: String)
    requires
        reportable(device::device_views(all@), readings@),
    ensures
        r@ == report_text(
            st,
            preflight::check_views(checks@),
            device::device_views(all@),
            names@,
            readings@,
        ),
{
    let gpus = find_gpus(all);
    let ghost devs = gpus_of(device::device_views(all@));
    assert(gpus@.len() == devs.len());
    let mut sections = owned("");
    let mut i: usize = 0;
    while i < gpus.len()
        invariant
            i <= gpus.len(),
            gpus.len() == readings.len(),
            devs == gpus_of(device::device_views(all@)),
            devs == topology::borrowed_views(gpus@),
            reportable(device::device_views(all@), readings@),
            sections@ == gpu_sections(st, devs, names@, readings@, i as nat),
        decreases gpus.len() - i,
    {
        assert(devs[i as int] == gpus@[i as int]@);
        let reading = &readings[i];
        assert(*reading == readings@[i as int]);
        sections.append(
            print_gpu(st, gpus[i], names, &reading.rebar, &reading.window).as_str(),
        );
        i += 1;
    }
    let mut r = owned("\n");
    r.append(st.bold("=== t2rebar diagnose ===").as_str());
    r.append("\n\n");
    r.append(print_preflight(st, checks).as_str());
    r.append("\n");
    r.append(dec_text(gpus.len() as u64).as_str());
    r.append(" GPU(s) detected.\n");
    r.append(sections.as_str());
    r.append(print_groups(st, gpus.as_slice(), names).as_str());
    r.append(print_phase2_readiness(st, checks, gpus.as_slice(), readings).as_str());
    r
}

} // verus!
