//! What the report shows.

use vstd::prelude::*;

use crate::diagnose::labels;
use crate::diagnose::style::Style;
use crate::diagnose::{self, GpuReadings};
use crate::laws::{devices, texts};
use crate::number;
use crate::pci::device::{self, DeviceView};
use crate::pci::{Bdf, Resource};
use crate::plan;
use crate::preflight::CheckView;
use crate::rebar::{self, RebarEntry, RebarView};
use crate::text;
use crate::topology::{self, CutGroupView};

verus! {

/// Without colour a text is shown as it is; with colour it stands between the sequence that
/// switches the colour on and the one that switches it off.
pub proof fn law_styles(code: Seq<char>, s: Seq<char>)
    ensures
        (Style { color: false }).wrapped(code, s) == s,
        (Style { color: true }).wrapped(code, s) == "\x1b["@ + code + "m"@ + s + "\x1b[0m"@,
{
}

/// The line of a check says whether it passed, in green or in yellow, and then its name and its
/// details.
pub proof fn law_check_lines(st: Style, c: CheckView)
    ensures
        diagnose::check_line(st, c) == "  "@ + (if c.ok {
            st.wrapped("32"@, "[ OK ]"@)
        } else {
            st.wrapped("33"@, "[WARN]"@)
        }) + " "@ + c.name + " — "@ + c.detail + "\n"@,
{
}

proof fn lemma_preflight(st: Style, checks: Seq<CheckView>, c: CheckView, n: nat)
    requires
        n <= checks.len(),
    ensures
        diagnose::preflight_text(st, checks.push(c), n) == diagnose::preflight_text(st, checks, n),
    decreases n,
{
    if n > 0 {
        lemma_preflight(st, checks, c, (n - 1) as nat);
    }
}

/// Every check has its line, in order.
pub proof fn law_checks_are_shown(st: Style, checks: Seq<CheckView>, c: CheckView)
    ensures
        diagnose::preflight_text(st, checks.push(c), checks.len() + 1) == diagnose::preflight_text(
            st,
            checks,
            checks.len(),
        ) + diagnose::check_line(st, c),
{
    lemma_preflight(st, checks, c, checks.len());
    assert(checks.push(c)[checks.len() as int] == c);
}

/// The line of an entry: its BAR, its current size, the largest size it supports, and all of them.
pub proof fn law_entry_lines(e: RebarEntry)
    ensures
        ({
            let sizes = Seq::new(
                e.supported_below(28).len(),
                |i: int| rebar::index_text(e.supported_below(28)[i]),
            );
            let up_to = match e.largest() {
                Some(i) => rebar::index_text(i),
                None => "?"@,
            };
            diagnose::entry_line(e) == "      BAR "@ + number::dec(e.bar_index as nat)
                + ": current idx "@ + number::dec(e.current_size_index as nat) + " ("@
                + rebar::index_text(e.current_size_index) + "), supports up to "@ + up_to + " — ["@
                + text::joined(sizes, ", "@) + "]\n"@
        }),
{
    let sizes = Seq::new(
        e.supported_below(28).len(),
        |i: int| rebar::index_text(e.supported_below(28)[i]),
    );
    assert(sizes =~= diagnose::size_texts(e.supported_below(28)));
}

proof fn lemma_entries(cap_offset: usize, entries: Seq<RebarEntry>, n: nat, i: int)
    requires
        0 <= i < n,
    ensures
        texts::shows(
            diagnose::entries_text(RebarView { cap_offset, entries }, n),
            diagnose::entry_line(entries[i]),
        ),
    decreases n,
{
    let reb = RebarView { cap_offset, entries };
    let none = Seq::<char>::empty();
    let before = diagnose::entries_text(reb, (n - 1) as nat);
    let last = diagnose::entry_line(entries[n - 1]);
    if i == n - 1 {
        texts::lemma_shows_part(before, last, none);
        assert(before + last + none =~= diagnose::entries_text(reb, n));
    } else {
        lemma_entries(cap_offset, entries, (n - 1) as nat, i);
        texts::lemma_shows(none, before, last, diagnose::entry_line(entries[i]));
        assert(none + before + last =~= diagnose::entries_text(reb, n));
    }
}

proof fn lemma_entries_start(reb: RebarView, n: nat)
    ensures
        diagnose::entries_text(reb, 0).is_prefix_of(diagnose::entries_text(reb, n)),
    decreases n,
{
    let head = diagnose::entries_text(reb, 0);
    if n == 0 {
        assert(head.subrange(0, head.len() as int) =~= head);
    } else {
        lemma_entries_start(reb, (n - 1) as nat);
        let before = diagnose::entries_text(reb, (n - 1) as nat);
        let t = diagnose::entries_text(reb, n);
        assert(t.subrange(0, head.len() as int) =~= before.subrange(0, head.len() as int));
    }
}

/// The capability of a GPU is shown with its offset, the number of its entries, and every entry.
pub proof fn law_capability_is_shown(st: Style, gpu: DeviceView, reb: RebarView, i: int)
    ensures
        ("    rebar          cap @ 0x"@ + number::hex(reb.cap_offset as nat) + ", "@ + number::dec(
            reb.entries.len(),
        ) + " entries\n"@).is_prefix_of(diagnose::rebar_text(st, gpu, reb)),
        0 <= i < reb.entries.len() ==> texts::shows(
            diagnose::rebar_text(st, gpu, reb),
            diagnose::entry_line(reb.entries[i]),
        ),
        diagnose::target_text(st, gpu, reb).is_suffix_of(diagnose::rebar_text(st, gpu, reb)),
{
    let n = reb.entries.len();
    let head = diagnose::entries_text(reb, 0);
    let list = diagnose::entries_text(reb, n);
    let target = diagnose::target_text(st, gpu, reb);
    let t = diagnose::rebar_text(st, gpu, reb);
    lemma_entries_start(reb, n);
    assert(t.subrange(0, head.len() as int) =~= list.subrange(0, head.len() as int));
    assert(t.subrange(t.len() - target.len(), t.len() as int) =~= target);
    if 0 <= i < n {
        let none = Seq::<char>::empty();
        lemma_entries(reb.cap_offset, reb.entries, n, i);
        assert(RebarView { cap_offset: reb.cap_offset, entries: reb.entries } == reb);
        texts::lemma_shows(none, list, target, diagnose::entry_line(reb.entries[i]));
        assert(none + list + target =~= t);
    }
}

/// The preferred size of a known device is shown as fine where the entry of its framebuffer
/// supports it. Otherwise it is shown as a failure, with the largest size that the entry supports,
/// if there is one.
pub proof fn law_target_is_shown(st: Style, gpu: DeviceView, reb: RebarView)
    ensures
        ({
            let t = diagnose::target_text(st, gpu, reb);
            match plan::preferred(gpu.vendor, gpu.device_id) {
                None => t.len() == 0,
                Some(target) => match plan::framebuffer(gpu, reb) {
                    None => t
                        == "    target         no suitable rebar entry found for framebuffer BAR\n"@,
                    Some(k) => {
                        let e = reb.entries[k];
                        let wanted = " BAR "@ + number::dec(e.bar_index as nat) + ": size idx "@
                            + number::dec(target as nat) + " ("@ + rebar::index_text(target)
                            + ")"@;
                        let why = diagnose::reason(gpu.vendor, gpu.device_id);
                        if e.has(target as int) {
                            t == "    target         "@ + st.wrapped("32"@, "[ OK ]"@) + wanted
                                + " — "@ + why + "\n"@
                        } else {
                            let fails = "    target         "@ + st.wrapped("31"@, "[FAIL]"@)
                                + wanted + " not in supported set — "@ + why + "\n"@;
                            match e.largest() {
                                None => t =~= fails,
                                Some(i) => t == fails + (
                                "                   ceiling for this BAR: "@ + rebar::index_text(i)
                                    + " (idx "@ + number::dec(i as nat) + ")\n"@),
                            }
                        }
                    },
                },
            }
        }),
{
    reveal_strlit("");
}

/// The reason for a preferred size names the device that has it.
pub proof fn law_reasons(vendor: u16, device: u16)
    ensures
        plan::preferred(vendor, device) == Some(17u8) ==> diagnose::reason(vendor, device)
            == "RTX PRO 6000 Blackwell → 128 GiB (covers 96 GiB VRAM)"@,
        plan::preferred(vendor, device) == Some(13u8) ==> diagnose::reason(vendor, device)
            == "Radeon PRO W6600 → 8 GiB (matches VRAM)"@,
{
}

/// The prefetchable window of a bridge is the range on the sixteenth line of its file, where that
/// line gives one that has flags and does not end before it starts.
pub proof fn law_windows(contents: Seq<char>, r: Resource, rest: Seq<char>)
    requires
        rest.len() > 0 ==> text::white(rest.first()),
    ensures
        text::lines(contents).len() < 16 ==> diagnose::window_of(contents) is None,
        text::lines(contents).len() >= 16 && text::lines(contents)[15] == "0x"@
            + number::hex_padded(r.start as nat, 16) + seq![' '] + ("0x"@ + number::hex_padded(
            r.end as nat,
            16,
        )) + seq![' '] + ("0x"@ + number::hex_padded(r.flags as nat, 16)) + rest
            ==> diagnose::window_of(contents) == if r.flags != 0 && r.start <= r.end {
            Some(r)
        } else {
            None
        },
        diagnose::window_bytes(r) == r.end - r.start + 1,
{
    let x = "0x"@ + number::hex_padded(r.start as nat, 16);
    let y = "0x"@ + number::hex_padded(r.end as nat, 16);
    let z = "0x"@ + number::hex_padded(r.flags as nat, 16);
    devices::lemma_field_is_word(r.start as nat);
    devices::lemma_field_is_word(r.end as nat);
    devices::lemma_field_is_word(r.flags as nat);
    devices::lemma_three_words(x, y, z, rest);
    let w = seq![x, y, z] + text::words(rest);
    assert(w[0] == x && w[1] == y && w[2] == z);
}

/// A window needs three numbers on its line.
pub proof fn law_windows_need_numbers(contents: Seq<char>)
    requires
        diagnose::window_of(contents) is Some,
    ensures
        ({
            let w = text::words(text::lines(contents)[15]);
            let r = diagnose::window_of(contents)->0;
            &&& text::lines(contents).len() >= 16
            &&& w.len() >= 3
            &&& device::field_value(w[0]) == Ok::<nat, Seq<char>>(r.start as nat)
            &&& device::field_value(w[1]) == Ok::<nat, Seq<char>>(r.end as nat)
            &&& device::field_value(w[2]) == Ok::<nat, Seq<char>>(r.flags as nat)
            &&& r.flags != 0
            &&& r.start <= r.end
        }),
{
    let w = text::words(text::lines(contents)[15]);
    devices::lemma_limit(text::without_0x(w[0]), u64::MAX as nat);
    devices::lemma_limit(text::without_0x(w[1]), u64::MAX as nat);
    devices::lemma_limit(text::without_0x(w[2]), u64::MAX as nat);
}

/// The bridge whose window is shown is the root-most bridge above the GPU, where it was found among
/// the devices.
pub proof fn law_bridge_of_window(gpu: DeviceView, all: Seq<DeviceView>)
    ensures
        ({
            let top = gpu.parent_chain.first();
            diagnose::bridge_of(gpu, all) == if gpu.parent_chain.len() > 0 && exists|i: int|
                0 <= i < all.len() && (#[trigger] all[i]).bdf == top {
                Some(top)
            } else {
                None
            }
        }),
{
}

/// The line of a BAR.
pub proof fn law_bar_lines(i: nat, r: Resource)
    ensures
        diagnose::bar_text(i, r) == "      BAR "@ + number::dec(i) + " "@ + text::padded_right(
            r.kind(),
            11,
        ) + "  "@ + text::padded_left(rebar::size_text(r.bytes() as nat), ' ', 12) + "  @ 0x"@
            + number::hex_padded(r.start as nat, 12) + "\n"@,
{
}

proof fn lemma_bars(rs: Seq<Resource>, n: nat, i: int)
    requires
        0 <= i < n,
        rs[i].assigned(),
    ensures
        texts::shows(diagnose::bars_text(rs, n), diagnose::bar_text(i as nat, rs[i])),
    decreases n,
{
    let none = Seq::<char>::empty();
    let before = diagnose::bars_text(rs, (n - 1) as nat);
    let last = diagnose::bar_text((n - 1) as nat, rs[n - 1]);
    if i == n - 1 {
        texts::lemma_shows_part(before, last, none);
        assert(before + last + none =~= diagnose::bars_text(rs, n));
    } else {
        lemma_bars(rs, (n - 1) as nat, i);
        if rs[n - 1].assigned() {
            texts::lemma_shows(none, before, last, diagnose::bar_text(i as nat, rs[i]));
            assert(none + before + last =~= diagnose::bars_text(rs, n));
        }
    }
}

proof fn lemma_no_bars(rs: Seq<Resource>, n: nat)
    requires
        forall|i: int| 0 <= i < n ==> !(#[trigger] rs[i]).assigned(),
    ensures
        diagnose::bars_text(rs, n).len() == 0,
    decreases n,
{
    reveal_strlit("");
    if n > 0 {
        assert(!rs[n - 1].assigned());
        lemma_no_bars(rs, (n - 1) as nat);
    }
}

/// Each of the first six BARs that is in use is shown; where none is, that is said instead.
pub proof fn law_current_bars_are_shown(rs: Seq<Resource>, i: int)
    ensures
        ({
            let t = diagnose::current_bars_text(rs);
            let used = |r: Resource| r.flags != 0 && r.start <= r.end && r.end != 0;
            &&& 0 <= i < rs.len() && i < 6 && used(rs[i]) ==> texts::shows(
                t,
                diagnose::bar_text(i as nat, rs[i]),
            )
            &&& (forall|k: int| 0 <= k < rs.len() && k < 6 ==> !used(#[trigger] rs[k])) ==> t
                == "    current BARs:\n"@ + "      (none assigned)\n"@
        }),
{
    reveal_strlit("");
    let t = diagnose::current_bars_text(rs);
    let n = diagnose::bar_count(rs);
    let used = |r: Resource| r.flags != 0 && r.start <= r.end && r.end != 0;
    if 0 <= i < rs.len() && i < 6 && used(rs[i]) {
        let head = "    current BARs:\n"@;
        assert(rs[i].assigned());
        lemma_bars(rs, n, i);
        let note = if diagnose::any_assigned(rs) {
            ""@
        } else {
            "      (none assigned)\n"@
        };
        texts::lemma_shows(
            head,
            diagnose::bars_text(rs, n),
            note,
            diagnose::bar_text(i as nat, rs[i]),
        );
    }
    if forall|k: int| 0 <= k < rs.len() && k < 6 ==> !used(#[trigger] rs[k]) {
        assert forall|k: int| 0 <= k < n implies !(#[trigger] rs[k]).assigned() by {
            assert(!used(rs[k]));
        }
        lemma_no_bars(rs, n);
        assert(t =~= "    current BARs:\n"@ + "      (none assigned)\n"@);
    }
}

/// A BAR that is not in use has no line, and neither has one behind the sixth.
pub proof fn law_other_bars_are_not_shown(rs: Seq<Resource>, n: nat, r: Resource)
    requires
        n <= rs.len(),
    ensures
        n < rs.len() && !rs[n as int].assigned() ==> diagnose::bars_text(rs, n + 1)
            == diagnose::bars_text(rs, n),
        rs.len() >= 6 ==> diagnose::current_bars_text(rs.push(r)) == diagnose::current_bars_text(
            rs,
        ),
{
    if rs.len() >= 6 {
        lemma_bars_agree(rs, rs.push(r), 6);
        assert(diagnose::any_assigned(rs) == diagnose::any_assigned(rs.push(r))) by {
            if diagnose::any_assigned(rs) {
                let i = choose|i: int|
                    0 <= i < diagnose::bar_count(rs) && (#[trigger] rs[i]).assigned();
                assert(rs.push(r)[i].assigned());
            }
            if diagnose::any_assigned(rs.push(r)) {
                let i = choose|i: int|
                    0 <= i < diagnose::bar_count(rs.push(r)) && (
                    #[trigger] rs.push(r)[i]).assigned();
                assert(rs[i].assigned());
            }
        }
    }
}

proof fn lemma_bars_agree(a: Seq<Resource>, b: Seq<Resource>, n: nat)
    requires
        n <= a.len(),
        n <= b.len(),
        forall|i: int| 0 <= i < n ==> a[i] == b[i],
    ensures
        diagnose::bars_text(a, n) == diagnose::bars_text(b, n),
    decreases n,
{
    if n > 0 {
        lemma_bars_agree(a, b, (n - 1) as nat);
    }
}

/// What is said of the capability of a GPU: its contents where it has one, that it has none, or why
/// it could not be read.
pub proof fn law_capability_readings(st: Style, gpu: DeviceView, reb: RebarView, e: Seq<char>)
    ensures
        diagnose::capability_text(st, gpu, Ok(Some(reb))) == diagnose::rebar_text(st, gpu, reb),
        diagnose::capability_text(st, gpu, Ok(None))
            == "    rebar          not advertised by device\n"@,
        diagnose::capability_text(st, gpu, Err(e))
            == "    rebar          could not read extended config space: "@ + e + " "@ + st.wrapped(
            "2"@,
            "(run as root)"@,
        ) + "\n"@,
{
}

/// The root-most bridge above a GPU is shown with its name, and the size of its window where that
/// is known; a GPU without bridges is shown without.
pub proof fn law_bridges_are_shown(
    gpu: DeviceView,
    names: Map<Bdf, Seq<char>>,
    contents: Seq<char>,
)
    ensures
        gpu.parent_chain.len() > 0 ==> diagnose::cut_text(gpu, names) == "    cut point      "@
            + gpu.parent_chain.first().text() + "   "@ + labels::label_of(
            names,
            gpu.parent_chain.first(),
        ) + "\n"@,
        gpu.parent_chain.len() == 0 ==> diagnose::cut_text(gpu, names)
            == "    cut point      (none — device attached directly to host bridge?)\n"@,
        gpu.parent_chain.len() > 0 ==> diagnose::chain_text(gpu) == "    parent chain   "@
            + text::joined(device::bdf_texts(gpu.parent_chain), " → "@) + "\n"@,
        gpu.parent_chain.len() == 0 ==> diagnose::chain_text(gpu).len() == 0,
        gpu.parent_chain.len() > 0 ==> (diagnose::window_of(contents) matches Some(w)
            ==> diagnose::window_text(gpu, Some(contents)) == "    parent pref window ("@
            + gpu.parent_chain.first().text() + "):  "@ + rebar::size_text(
            (w.end - w.start + 1) as nat,
        ) + "\n"@),
        diagnose::window_of(contents) is None ==> diagnose::window_text(gpu, Some(contents)).len()
            == 0,
        diagnose::window_text(gpu, None).len() == 0,
        gpu.parent_chain.len() == 0 ==> diagnose::window_text(gpu, Some(contents)).len() == 0,
{
    reveal_strlit("");
}

/// The heading of a GPU holds its address and its name, and below it stand its numbers, its class
/// and its driver.
pub proof fn law_identity_is_shown(st: Style, gpu: DeviceView, names: Map<Bdf, Seq<char>>)
    ensures
        diagnose::identity_text(st, gpu, names) == "\n"@ + st.wrapped(
            "1"@,
            "── GPU "@ + gpu.bdf.text() + " "@ + labels::label_of(names, gpu.bdf),
        ) + "\n    vendor:device  "@ + number::hex_padded(gpu.vendor as nat, 4) + ":"@
            + number::hex_padded(gpu.device_id as nat, 4) + "   class 0x"@ + number::hex_padded(
            gpu.class as nat,
            6,
        ) + "\n    driver         "@ + (match gpu.driver {
            Some(d) => d,
            None => "(none bound)"@,
        }) + "\n"@,
{
}

/// The section on a GPU shows all its parts.
#[verifier::rlimit(30)]
#[verifier::spinoff_prover]
pub proof fn law_gpu_is_shown(
    st: Style,
    gpu: DeviceView,
    names: Map<Bdf, Seq<char>>,
    reading: Result<Option<RebarView>, Seq<char>>,
    window: Option<Seq<char>>,
)
    ensures
        ({
            let t = diagnose::gpu_text(st, gpu, names, reading, window);
            &&& diagnose::identity_text(st, gpu, names).is_prefix_of(t)
            &&& texts::shows(t, diagnose::cut_text(gpu, names))
            &&& texts::shows(t, diagnose::chain_text(gpu))
            &&& texts::shows(t, diagnose::current_bars_text(gpu.resources))
            &&& texts::shows(t, diagnose::capability_text(st, gpu, reading))
            &&& diagnose::window_text(gpu, window).is_suffix_of(t)
        }),
{
    let t = diagnose::gpu_text(st, gpu, names, reading, window);
    let a = diagnose::identity_text(st, gpu, names);
    let b = diagnose::cut_text(gpu, names);
    let c = diagnose::chain_text(gpu);
    let d = diagnose::current_bars_text(gpu.resources);
    let e = diagnose::capability_text(st, gpu, reading);
    let f = diagnose::window_text(gpu, window);
    assert(t == a + b + c + d + e + f);
    assert(t.subrange(0, a.len() as int) =~= a);
    assert(t.subrange(t.len() - f.len(), t.len() as int) =~= f);
    assert(t =~= a + b + (c + d + e + f));
    texts::lemma_shows_part(a, b, c + d + e + f);
    assert(t =~= (a + b) + c + (d + e + f));
    texts::lemma_shows_part(a + b, c, d + e + f);
    assert(t =~= (a + b + c) + d + (e + f));
    texts::lemma_shows_part(a + b + c, d, e + f);
    texts::lemma_shows_part(a + b + c + d, e, f);
}

/// The groups that are shown are those of the GPUs by the root-most bridge above them.
pub proof fn law_shown_groups(gpus: Seq<DeviceView>, groups: Seq<CutGroupView>)
    requires
        topology::grouped(gpus, groups),
    ensures
        diagnose::groups_of(gpus) == groups,
{
    topology::law_grouping_unique(gpus, groups, diagnose::groups_of(gpus));
}

/// The line of a group: its bridge, the name of the bridge, and the members.
pub proof fn law_group_lines(g: CutGroupView, names: Map<Bdf, Seq<char>>)
    ensures
        diagnose::group_line(g, names) == "  cut "@ + g.cut.text() + " "@ + labels::label_of(
            names,
            g.cut,
        ) + " → ["@ + text::joined(
            Seq::new(g.members.len(), |i: int| g.members[i].text()),
            ", "@,
        ) + "]\n"@,
{
    assert(Seq::new(g.members.len(), |i: int| g.members[i].text()) =~= device::bdf_texts(
        g.members,
    ));
}

proof fn lemma_group_lines(
    st: Style,
    groups: Seq<CutGroupView>,
    names: Map<Bdf, Seq<char>>,
    n: nat,
    i: int,
)
    requires
        0 <= i < n,
    ensures
        texts::shows(
            diagnose::group_lines(st, groups, names, n),
            diagnose::group_line(groups[i], names),
        ),
    decreases n,
{
    let none = Seq::<char>::empty();
    let before = diagnose::group_lines(st, groups, names, (n - 1) as nat);
    let last = diagnose::group_line(groups[n - 1], names);
    if i == n - 1 {
        texts::lemma_shows_part(before, last, none);
        assert(before + last + none =~= diagnose::group_lines(st, groups, names, n));
    } else {
        lemma_group_lines(st, groups, names, (n - 1) as nat, i);
        texts::lemma_shows(none, before, last, diagnose::group_line(groups[i], names));
        assert(none + before + last =~= diagnose::group_lines(st, groups, names, n));
    }
}

/// Every group is shown; where there is none, that is said instead.
pub proof fn law_groups_are_shown(
    st: Style,
    gpus: Seq<DeviceView>,
    groups: Seq<CutGroupView>,
    names: Map<Bdf, Seq<char>>,
    i: int,
)
    requires
        topology::grouped(gpus, groups),
    ensures
        0 <= i < groups.len() ==> texts::shows(
            diagnose::groups_text(st, gpus, names),
            diagnose::group_line(groups[i], names),
        ),
        groups.len() == 0 ==> "  (no GPUs with an identifiable cut point)\n"@.is_suffix_of(
            diagnose::groups_text(st, gpus, names),
        ),
{
    law_shown_groups(gpus, groups);
    if 0 <= i < groups.len() {
        lemma_group_lines(st, groups, names, groups.len(), i);
    }
    if groups.len() == 0 {
        let t = diagnose::groups_text(st, gpus, names);
        let s = "  (no GPUs with an identifiable cut point)\n"@;
        assert(t.subrange(t.len() - s.len(), t.len() as int) =~= s);
    }
}

/// The report is about the GPUs among the devices, in order.
pub proof fn law_reported_devices(all: Seq<DeviceView>, d: DeviceView)
    ensures
        diagnose::gpus_of(Seq::empty()) == Seq::<DeviceView>::empty(),
        diagnose::gpus_of(all.push(d)) == if (0x03_0000 <= d.class <= 0x03_00ff) || (0x03_0200
            <= d.class <= 0x03_02ff) {
            diagnose::gpus_of(all).push(d)
        } else {
            diagnose::gpus_of(all)
        },
{
    reveal(Seq::filter);
    assert(all.push(d).drop_last() =~= all);
    assert(all.push(d).last() == d);
    devices::law_gpu_classes(d);
}

proof fn lemma_sections(
    st: Style,
    gpus: Seq<DeviceView>,
    names: Map<Bdf, Seq<char>>,
    readings: Seq<GpuReadings>,
    n: nat,
    i: int,
)
    requires
        0 <= i < n,
    ensures
        texts::shows(
            diagnose::gpu_sections(st, gpus, names, readings, n),
            diagnose::gpu_text(
                st,
                gpus[i],
                names,
                diagnose::rebar_reading(readings[i].rebar),
                text::opt_text(readings[i].window),
            ),
        ),
    decreases n,
{
    let none = Seq::<char>::empty();
    let before = diagnose::gpu_sections(st, gpus, names, readings, (n - 1) as nat);
    let k = n - 1;
    let last = diagnose::gpu_text(
        st,
        gpus[k],
        names,
        diagnose::rebar_reading(readings[k].rebar),
        text::opt_text(readings[k].window),
    );
    let section = diagnose::gpu_text(
        st,
        gpus[i],
        names,
        diagnose::rebar_reading(readings[i].rebar),
        text::opt_text(readings[i].window),
    );
    if i == k {
        texts::lemma_shows_part(before, last, none);
        assert(before + last + none =~= diagnose::gpu_sections(st, gpus, names, readings, n));
    } else {
        lemma_sections(st, gpus, names, readings, (n - 1) as nat, i);
        texts::lemma_shows(none, before, last, section);
        assert(none + before + last =~= diagnose::gpu_sections(st, gpus, names, readings, n));
    }
}

proof fn lemma_grouped(a: Seq<char>, b: Seq<char>, c: Seq<char>)
    ensures
        a + b + c == a + (b + c),
{
    assert(a + b + c =~= a + (b + c));
}

/// The parts of a text of eight parts stand in it.
proof fn lemma_parts(
    a: Seq<char>,
    b: Seq<char>,
    n: Seq<char>,
    d: Seq<char>,
    g: Seq<char>,
    s: Seq<char>,
    q: Seq<char>,
    r: Seq<char>,
)
    ensures
        ({
            let t = a + b + n + d + g + s + q + r;
            &&& texts::shows(t, b)
            &&& texts::shows(t, n + d + g)
            &&& texts::shows(t, q)
            &&& r.is_suffix_of(t)
            &&& t == (a + b + n + d + g) + s + (q + r)
        }),
{
    let x = a + b + n + d + g;
    let t = x + s + q + r;
    lemma_grouped(x + s, q, r);
    texts::lemma_shows_part(x + s, q, r);
    assert(t.subrange(t.len() - r.len(), t.len() as int) =~= r);
    lemma_grouped(a + b, n, d);
    lemma_grouped(a + b, n + d, g);
    let v = n + d + g;
    assert(x == a + b + v);
    lemma_grouped(a + b + v, s, q);
    lemma_grouped(a + b + v, s + q, r);
    texts::lemma_shows_part(a + b, v, s + q + r);
    lemma_grouped(a + b, v, s + q + r);
    texts::lemma_shows_part(a, b, v + (s + q + r));
}

/// The report shows the checks, the number of the GPUs, a section on each of them, and their
/// groups, and ends with whether all is ready.
pub proof fn law_report(
    st: Style,
    checks: Seq<CheckView>,
    all: Seq<DeviceView>,
    names: Map<Bdf, Seq<char>>,
    readings: Seq<GpuReadings>,
    i: int,
)
    ensures
        ({
            let t = diagnose::report_text(st, checks, all, names, readings);
            let gpus = diagnose::gpus_of(all);
            &&& texts::shows(t, diagnose::preflight_text(st, checks, checks.len()))
            &&& texts::shows(t, "\n"@ + number::dec(gpus.len()) + " GPU(s) detected.\n"@)
            &&& 0 <= i < gpus.len() ==> texts::shows(
                t,
                diagnose::gpu_text(
                    st,
                    gpus[i],
                    names,
                    diagnose::rebar_reading(readings[i].rebar),
                    text::opt_text(readings[i].window),
                ),
            )
            &&& texts::shows(t, diagnose::groups_text(st, gpus, names))
            &&& diagnose::readiness_text(
                st,
                checks,
                gpus,
                diagnose::second_readings(readings),
            ).is_suffix_of(t)
        }),
{
    let gpus = diagnose::gpus_of(all);
    let t = diagnose::report_text(st, checks, all, names, readings);
    let a = "\n"@ + st.wrapped("1"@, "=== t2rebar diagnose ==="@) + "\n\n"@;
    let b = diagnose::preflight_text(st, checks, checks.len());
    let n = "\n"@;
    let d = number::dec(gpus.len());
    let g = " GPU(s) detected.\n"@;
    let s = diagnose::gpu_sections(st, gpus, names, readings, gpus.len());
    let q = diagnose::groups_text(st, gpus, names);
    let r = diagnose::readiness_text(st, checks, gpus, diagnose::second_readings(readings));
    assert(t == a + b + n + d + g + s + q + r);
    lemma_parts(a, b, n, d, g, s, q, r);
    if 0 <= i < gpus.len() {
        lemma_sections(st, gpus, names, readings, gpus.len(), i);
        texts::lemma_shows(
            a + b + n + d + g,
            s,
            q + r,
            diagnose::gpu_text(
                st,
                gpus[i],
                names,
                diagnose::rebar_reading(readings[i].rebar),
                text::opt_text(readings[i].window),
            ),
        );
    }
}

/// The texts of lists grow by one part for each item, and by nothing else.
pub proof fn law_sections_grow(
    st: Style,
    reb: RebarView,
    groups: Seq<CutGroupView>,
    gpus: Seq<DeviceView>,
    names: Map<Bdf, Seq<char>>,
    readings: Seq<GpuReadings>,
    rs: Seq<Resource>,
    n: nat,
)
    ensures
        diagnose::entries_text(reb, n + 1) == diagnose::entries_text(reb, n)
            + diagnose::entry_line(reb.entries[n as int]),
        diagnose::group_lines(st, groups, names, n + 1) == diagnose::group_lines(
            st,
            groups,
            names,
            n,
        ) + diagnose::group_line(groups[n as int], names),
        diagnose::gpu_sections(st, gpus, names, readings, n + 1) == diagnose::gpu_sections(
            st,
            gpus,
            names,
            readings,
            n,
        ) + diagnose::gpu_text(
            st,
            gpus[n as int],
            names,
            diagnose::rebar_reading(readings[n as int].rebar),
            text::opt_text(readings[n as int].window),
        ),
        rs[n as int].assigned() ==> diagnose::bars_text(rs, n + 1) == diagnose::bars_text(rs, n)
            + diagnose::bar_text(n, rs[n as int]),
        diagnose::entries_text(reb, 0) == "    rebar          cap @ 0x"@ + number::hex(
            reb.cap_offset as nat,
        ) + ", "@ + number::dec(reb.entries.len()) + " entries\n"@,
        diagnose::group_lines(st, groups, names, 0) == "\n"@ + st.wrapped(
            "1"@,
            "Cut-point groups (Phase 2 will remove/rescan each bridge once):"@,
        ) + "\n"@,
        diagnose::gpu_sections(st, gpus, names, readings, 0).len() == 0,
        diagnose::bars_text(rs, 0).len() == 0,
        diagnose::preflight_text(st, Seq::empty(), 0) == st.wrapped("1"@, "Host pre-flight:"@)
            + "\n"@,
{
    reveal_strlit("");
}

/// The sections have no parts but those that are named.
pub proof fn law_nothing_else_is_shown(
    st: Style,
    checks: Seq<CheckView>,
    all: Seq<DeviceView>,
    gpu: DeviceView,
    reb: RebarView,
    names: Map<Bdf, Seq<char>>,
    readings: Seq<GpuReadings>,
    reading: Result<Option<RebarView>, Seq<char>>,
    window: Option<Seq<char>>,
)
    ensures
        diagnose::gpu_text(st, gpu, names, reading, window).len() == diagnose::identity_text(
            st,
            gpu,
            names,
        ).len() + diagnose::cut_text(gpu, names).len() + diagnose::chain_text(gpu).len()
            + diagnose::current_bars_text(gpu.resources).len() + diagnose::capability_text(
            st,
            gpu,
            reading,
        ).len() + diagnose::window_text(gpu, window).len(),
        diagnose::rebar_text(st, gpu, reb).len() == diagnose::entries_text(
            reb,
            reb.entries.len(),
        ).len() + diagnose::target_text(st, gpu, reb).len(),
        ({
            let gpus = diagnose::gpus_of(all);
            diagnose::report_text(st, checks, all, names, readings).len()
                == "\n"@.len() + st.wrapped("1"@, "=== t2rebar diagnose ==="@).len() + "\n\n"@.len()
                + diagnose::preflight_text(
                st,
                checks,
                checks.len(),
            ).len() + "\n"@.len() + number::dec(gpus.len()).len() + " GPU(s) detected.\n"@.len()
                + diagnose::gpu_sections(
                st,
                gpus,
                names,
                readings,
                gpus.len(),
            ).len() + diagnose::groups_text(st, gpus, names).len()
                + diagnose::readiness_text(
                st,
                checks,
                gpus,
                diagnose::second_readings(readings),
            ).len()
        }),
        diagnose::groups_of(diagnose::gpus_of(all)).len() > 0 ==> diagnose::groups_text(
            st,
            diagnose::gpus_of(all),
            names,
        ) == diagnose::group_lines(
            st,
            diagnose::groups_of(diagnose::gpus_of(all)),
            names,
            diagnose::groups_of(diagnose::gpus_of(all)).len(),
        ),
        diagnose::any_assigned(gpu.resources) ==> diagnose::current_bars_text(gpu.resources)
            == "    current BARs:\n"@ + diagnose::bars_text(
            gpu.resources,
            diagnose::bar_count(gpu.resources),
        ),
{
    reveal_strlit("");
    if diagnose::any_assigned(gpu.resources) {
        assert(diagnose::current_bars_text(gpu.resources) =~= "    current BARs:\n"@
            + diagnose::bars_text(gpu.resources, diagnose::bar_count(gpu.resources)));
    }
}

} // verus!
