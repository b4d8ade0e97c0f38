//! What is planned for which device.

use vstd::prelude::*;

use crate::laws::texts;
use crate::number;
use crate::pci::device::{self, DeviceView};
use crate::pci::Bdf;
use crate::plan::{self, ActionView, Mode, PlanView, ProbeView};
use crate::rebar::{self, RebarView};
use crate::text;

verus! {

/// Two devices have a preferred size: the RTX PRO 6000 Blackwell (10de:2bb1), with size index 17,
/// and the Radeon PRO W6600 (1002:73e3), with size index 13.
pub proof fn law_preferred_sizes(vendor: u16, device: u16, i: u8)
    ensures
        plan::preferred(vendor, device) == Some(i) <==> {
            ||| vendor == 0x10de && device == 0x2bb1 && i == 17
            ||| vendor == 0x1002 && device == 0x73e3 && i == 13
        },
{
}

/// A written mode is `planned`, `current`, or `explicit=` and a size index; a text that reads as a
/// mode is one of these.
pub proof fn law_modes(s: Seq<char>, n: u8)
    ensures
        Mode::parsed("planned"@) == Some(Mode::Planned),
        Mode::parsed("current"@) == Some(Mode::Current),
        Mode::parsed("explicit="@ + s) == match number::numeral_value(s, 10, 255) {
            Ok(i) => Some(Mode::Explicit(i as u8)),
            Err(_) => None,
        },
        Mode::parsed(s) is Some ==> s == "planned"@ || s == "current"@ || "explicit="@.is_prefix_of(
            s,
        ),
        Mode::Planned.text() == "planned"@,
        Mode::Current.text() == "current"@,
        Mode::Explicit(n).text() == "explicit="@ + number::dec(n as nat),
{
    reveal_strlit("planned");
    reveal_strlit("current");
    reveal_strlit("explicit=");
    let e = "explicit="@ + s;
    texts::law_prefix(e, "explicit="@, s);
    assert("planned"@[0] == 'p');
    assert("current"@[0] == 'c');
    assert(e[0] == 'e');
    assert(s.take("explicit="@.len() as int) == s.subrange(0, "explicit="@.len() as int));
}

/// The resource of the BAR of an entry may be prefetched and has 64 bits.
pub open spec fn is_candidate(gpu: DeviceView, reb: RebarView, i: int) -> bool {
    let f = gpu.resources[reb.entries[i].bar_index as int].flags as int;
    0 <= i < reb.entries.len() && f / 0x2000 % 2 == 1 && f / 0x10_0000 % 2 == 1
}

/// The number of bytes of the BAR of an entry.
pub open spec fn bytes_of(gpu: DeviceView, reb: RebarView, i: int) -> int {
    gpu.resources[reb.entries[i].bar_index as int].bytes()
}

proof fn lemma_candidates(gpu: DeviceView, reb: RebarView, i: int)
    ensures
        plan::candidate(gpu, reb, i) == is_candidate(gpu, reb, i),
{
    crate::laws::devices::law_range_kinds(gpu.resources[reb.entries[i].bar_index as int]);
}

/// The framebuffer is the largest BAR that is resizable, may be prefetched and has 64 bits, the
/// first of several of the same size; where there is no such BAR, it is the BAR of the first entry.
/// There is none exactly where the capability has no entry, or an entry names a BAR that the device
/// has no resource for.
pub proof fn law_framebuffer(gpu: DeviceView, reb: RebarView, j: int)
    ensures
        plan::framebuffer(gpu, reb) is None <==> {
            ||| reb.entries.len() == 0
            ||| exists|k: int|
                0 <= k < reb.entries.len() && (#[trigger] reb.entries[k]).bar_index
                    >= gpu.resources.len()
        },
        plan::framebuffer(gpu, reb) matches Some(i) ==> {
            &&& 0 <= i < reb.entries.len()
            &&& is_candidate(gpu, reb, j) ==> {
                &&& is_candidate(gpu, reb, i)
                &&& bytes_of(gpu, reb, j) <= bytes_of(gpu, reb, i)
                &&& j < i ==> bytes_of(gpu, reb, j) < bytes_of(gpu, reb, i)
            }
            &&& !is_candidate(gpu, reb, i) ==> i == 0
        },
{
    if plan::bars_known(gpu, reb) && reb.entries.len() > 0 {
        plan::law_framebuffer_exists(gpu, reb);
        let i = plan::framebuffer(gpu, reb)->0;
        assert(plan::is_framebuffer(gpu, reb, i));
        lemma_candidates(gpu, reb, i);
        lemma_candidates(gpu, reb, j);
    }
}

/// The size that a mode asks for: the preferred one, the current one, or the one that is given.
pub open spec fn asked_size(mode: Mode, p: ProbeView, k: int) -> Option<u8> {
    match mode {
        Mode::Planned => plan::preferred(p.device.vendor, p.device.device_id),
        Mode::Current => Some(p.rebar->Ok_0->0.entries[k].current_size_index),
        Mode::Explicit(n) => Some(n),
    }
}

/// An action is planned for a GPU exactly where its capability was read and has an entry for the
/// framebuffer, the mode asks for a size that the entry supports or for the current one, there is a
/// bridge above the GPU, and its companions could be listed.
pub proof fn law_when_action_is_planned(mode: Mode, p: ProbeView)
    ensures
        plan::action_of(mode, p) is Ok <==> {
            &&& p.rebar matches Ok(Some(reb)) && plan::framebuffer(p.device, reb) matches Some(k)
                && asked_size(mode, p, k) matches Some(t) && (mode == Mode::Current
                || reb.entries[k].has(t as int))
            &&& p.device.parent_chain.len() > 0
            &&& p.companions is Ok
        },
{
}

/// What an action holds: the address, the numbers, the driver and the companions of its GPU, the
/// root-most bridge above it, and the place, the BAR, the current and the wanted size of the entry
/// for the framebuffer.
pub proof fn law_planned_action(mode: Mode, p: ProbeView)
    requires
        plan::action_of(mode, p) is Ok,
    ensures
        ({
            let a = plan::action_of(mode, p)->Ok_0;
            let d = p.device;
            let reb = p.rebar->Ok_0->0;
            let k = plan::framebuffer(d, reb)->0;
            &&& a.bdf == d.bdf && a.vendor == d.vendor && a.device_id == d.device_id
            &&& a.driver == d.driver
            &&& a.cut_point == d.parent_chain.first()
            &&& p.companions == Ok::<Seq<Bdf>, Seq<char>>(a.companions)
            &&& a.rebar_cap_offset == reb.cap_offset
            &&& k < 256 ==> a.rebar_entry_index == k
            &&& a.bar_index == reb.entries[k].bar_index
            &&& a.original_size_index == reb.entries[k].current_size_index
            &&& asked_size(mode, p, k) == Some(a.target_size_index)
        }),
{
    plan::law_framebuffer_exists(p.device, p.rebar->Ok_0->0);
}

/// Why there is no action for a GPU: the first of these grounds decides the message.
pub proof fn law_why_no_action(mode: Mode, p: ProbeView)
    requires
        plan::action_of(mode, p) is Err,
    ensures
        ({
            let m = plan::action_of(mode, p)->Err_0;
            let d = p.device;
            let reb = p.rebar->Ok_0->0;
            let k = plan::framebuffer(d, reb)->0;
            let asked = asked_size(mode, p, k);
            if p.rebar is Err {
                m == p.rebar->Err_0
            } else if p.rebar->Ok_0 is None {
                m == d.bdf.text() + ": device does not advertise a Resizable BAR capability"@
            } else if plan::framebuffer(d, reb) is None {
                m == d.bdf.text() + ": no framebuffer rebar entry"@
            } else if asked is None {
                m == d.bdf.text() + ": no preferred size for vendor:device "@ + number::hex_padded(
                    d.vendor as nat,
                    4,
                ) + ":"@ + number::hex_padded(d.device_id as nat, 4)
                    + " — add a mapping or use --target=current/--size=N"@
            } else if mode != Mode::Current && !reb.entries[k].has(asked->0 as int) {
                m == d.bdf.text() + ": target size index "@ + number::dec(asked->0 as nat)
                    + " not in supported set "@ + rebar::list_text(
                    reb.entries[k].supported_below(28),
                )
            } else if d.parent_chain.len() == 0 {
                m == d.bdf.text() + ": no cut point (attached directly to host?)"@
            } else {
                p.companions == Err::<Seq<Bdf>, Seq<char>>(m)
            }
        }),
{
}

/// The devices that are planned for are the GPUs, in order.
pub proof fn law_planned_devices(probes: Seq<ProbeView>, p: ProbeView)
    ensures
        plan::gpu_probes(Seq::empty()) == Seq::<ProbeView>::empty(),
        plan::gpu_probes(probes.push(p)) == if (0x03_0000 <= p.device.class <= 0x03_00ff) || (
        0x03_0200 <= p.device.class <= 0x03_02ff) {
            plan::gpu_probes(probes).push(p)
        } else {
            plan::gpu_probes(probes)
        },
{
    reveal(Seq::filter);
    assert(probes.push(p).drop_last() =~= probes);
    assert(probes.push(p).last() == p);
    crate::laws::devices::law_gpu_classes(p.device);
}

proof fn lemma_actions(mode: Mode, gpus: Seq<ProbeView>, i: int)
    ensures
        match plan::actions_of(mode, gpus) {
            Ok(actions) => {
                &&& actions.len() == gpus.len()
                &&& 0 <= i < gpus.len() ==> plan::action_of(mode, gpus[i]) == Ok::<
                    ActionView,
                    Seq<char>,
                >(actions[i])
            },
            Err(m) => exists|k: int|
                {
                    &&& 0 <= k < gpus.len()
                    &&& plan::action_of(mode, #[trigger] gpus[k]) == Err::<ActionView, Seq<char>>(m)
                    &&& forall|j: int|
                        0 <= j < k ==> plan::action_of(mode, #[trigger] gpus[j]) is Ok
                },
        },
    decreases gpus.len(),
{
    if gpus.len() > 0 {
        let front = gpus.drop_last();
        lemma_actions(mode, front, i);
        match plan::actions_of(mode, front) {
            Ok(_) => {
                assert forall|j: int| 0 <= j < front.len() implies plan::action_of(
                    mode,
                    #[trigger] gpus[j],
                ) is Ok by {
                    lemma_actions(mode, front, j);
                    assert(front[j] == gpus[j]);
                }
                assert(gpus[gpus.len() - 1] == gpus.last());
            },
            Err(m) => {
                let k = choose|k: int|
                    {
                        &&& 0 <= k < front.len()
                        &&& plan::action_of(mode, #[trigger] front[k]) == Err::<
                            ActionView,
                            Seq<char>,
                        >(m)
                        &&& forall|j: int|
                            0 <= j < k ==> plan::action_of(mode, #[trigger] front[j]) is Ok
                    };
                assert(gpus[k] == front[k]);
                assert forall|j: int| 0 <= j < k implies plan::action_of(
                    mode,
                    #[trigger] gpus[j],
                ) is Ok by {
                    assert(front[j] == gpus[j]);
                }
            },
        }
    }
}

/// A plan has the action of each GPU, in order. There is no plan where there is no GPU, or where a
/// GPU has no action; then the first such GPU decides the message.
pub proof fn law_plans(mode: Mode, probes: Seq<ProbeView>, i: int)
    ensures
        ({
            let gpus = plan::gpu_probes(probes);
            match plan::plan_of(mode, probes) {
                Ok(p) => {
                    &&& gpus.len() > 0
                    &&& p.mode == mode
                    &&& p.actions.len() == gpus.len()
                    &&& 0 <= i < gpus.len() ==> plan::action_of(mode, gpus[i]) == Ok::<
                        ActionView,
                        Seq<char>,
                    >(p.actions[i])
                },
                Err(m) => if gpus.len() == 0 {
                    m == "no GPUs detected"@
                } else {
                    exists|k: int|
                        {
                            &&& 0 <= k < gpus.len()
                            &&& plan::action_of(mode, #[trigger] gpus[k]) == Err::<
                                ActionView,
                                Seq<char>,
                            >(m)
                            &&& forall|j: int|
                                0 <= j < k ==> plan::action_of(mode, #[trigger] gpus[j]) is Ok
                        }
                },
            }
        }),
{
    lemma_actions(mode, plan::gpu_probes(probes), i);
}

proof fn lemma_goes_on(x: Seq<char>, y: Seq<char>, piece: Seq<char>)
    requires
        x.is_prefix_of(y),
        texts::shows(x, piece),
    ensures
        texts::shows(y, piece),
{
    let none = Seq::<char>::empty();
    let rest = y.skip(x.len() as int);
    texts::lemma_shows(none, x, rest, piece);
    assert(none + x + rest =~= y);
}

proof fn lemma_prefix_of_more(
    x: Seq<char>,
    a: Seq<char>,
    b: Seq<char>,
    c: Seq<char>,
    d: Seq<char>,
    all: Seq<char>,
)
    ensures
        (x + a + b + c + d).is_prefix_of(all) ==> x.is_prefix_of(all),
        (x + a + b).is_prefix_of(all) ==> x.is_prefix_of(all),
{
    if (x + a + b + c + d).is_prefix_of(all) {
        let y = x + a + b + c + d;
        assert(all.subrange(0, x.len() as int) =~= y.subrange(0, x.len() as int));
        assert(y.subrange(0, x.len() as int) =~= x);
    }
    if (x + a + b).is_prefix_of(all) {
        let y = x + a + b;
        assert(all.subrange(0, x.len() as int) =~= y.subrange(0, x.len() as int));
        assert(y.subrange(0, x.len() as int) =~= x);
    }
}

proof fn lemma_three(x: Seq<char>, a: Seq<char>, b: Seq<char>, c: Seq<char>)
    ensures
        texts::shows(x + a + b + c, a + b + c),
{
    let none = Seq::<char>::empty();
    texts::lemma_shows_part(x, a + b + c, none);
    assert(x + (a + b + c) + none =~= x + a + b + c);
}

proof fn lemma_five(
    x: Seq<char>,
    a: Seq<char>,
    b: Seq<char>,
    c: Seq<char>,
    d: Seq<char>,
    e: Seq<char>,
)
    ensures
        texts::shows(x + a + b + c + d + e, a + b + c + d + e),
{
    let none = Seq::<char>::empty();
    texts::lemma_shows_part(x, a + b + c + d + e, none);
    assert(x + (a + b + c + d + e) + none =~= x + a + b + c + d + e);
}

/// What is shown of an action: its number, its driver, the place of its entry and its BAR, the
/// sizes, the bridge and the companions, each behind its name.
pub proof fn law_shown_action(i: nat, a: ActionView)
    ensures
        ({
            let t = plan::action_text(i, a);
            let driver = match a.driver {
                Some(d) => d,
                None => "(none)"@,
            };
            let change = if a.original_size_index == a.target_size_index {
                "(unchanged)"@
            } else {
                rebar::index_text(a.original_size_index) + " → "@ + rebar::index_text(
                    a.target_size_index,
                )
            };
            let companions = if a.companions.len() == 0 {
                "none"@
            } else {
                text::joined(device::bdf_texts(a.companions), ", "@)
            };
            &&& texts::shows(t, "\n  ["@ + number::dec(i) + "] "@ + a.bdf.text() + " "@)
            &&& texts::shows(
                t,
                " "@ + number::hex_padded(a.vendor as nat, 4) + ":"@ + number::hex_padded(
                    a.device_id as nat,
                    4,
                ) + "\n      driver       "@,
            )
            &&& texts::shows(
                t,
                "\n      driver       "@ + driver + "\n      rebar        cap@0x"@,
            )
            &&& texts::shows(
                t,
                "\n      rebar        cap@0x"@ + number::hex(a.rebar_cap_offset as nat)
                    + ", entry "@ + number::dec(a.rebar_entry_index as nat) + ", BAR "@,
            )
            &&& texts::shows(
                t,
                ", BAR "@ + number::dec(a.bar_index as nat) + "\n      size index   "@,
            )
            &&& texts::shows(
                t,
                "\n      size index   "@ + number::dec(a.original_size_index as nat) + " → "@
                    + number::dec(a.target_size_index as nat) + "  "@,
            )
            &&& texts::shows(t, "  "@ + change + "\n      cut point    "@)
            &&& texts::shows(
                t,
                "\n      cut point    "@ + a.cut_point.text() + "\n      companions   ["@
                    + companions + "]\n"@,
            )
        }),
{
    let none = Seq::<char>::empty();
    let opening = "\n  ["@;
    let num = number::dec(i);
    let close = "] "@;
    let address = a.bdf.text();
    let gap = " "@;
    let vendor = number::hex_padded(a.vendor as nat, 4);
    let colon = ":"@;
    let device = number::hex_padded(a.device_id as nat, 4);
    let driver_is = "\n      driver       "@;
    let driver = plan::driver_text(a.driver);
    let cap_is = "\n      rebar        cap@0x"@;
    let cap = number::hex(a.rebar_cap_offset as nat);
    let entry_is = ", entry "@;
    let entry = number::dec(a.rebar_entry_index as nat);
    let bar_is = ", BAR "@;
    let bar = number::dec(a.bar_index as nat);
    let sizes_are = "\n      size index   "@;
    let from = number::dec(a.original_size_index as nat);
    let to_is = " → "@;
    let to = number::dec(a.target_size_index as nat);
    let spaces = "  "@;
    let change = plan::change_text(a);
    let cut_is = "\n      cut point    "@;
    let cut = a.cut_point.text();
    let companions_are = "\n      companions   ["@;
    let companions = plan::companions_text(a.companions);
    let end = "]\n"@;
    let t0 = opening + num + close + address + gap;
    let t1 = t0 + vendor + colon + device + driver_is;
    let t2 = t1 + driver + cap_is;
    let t3 = t2 + cap + entry_is + entry + bar_is;
    let t4 = t3 + bar + sizes_are;
    let t5 = t4 + from + to_is + to + spaces;
    let t6 = t5 + change + cut_is;
    let t7 = t6 + cut + companions_are + companions + end;
    let t = plan::action_text(i, a);
    assert(t == t7);
    assert(t.subrange(0, t.len() as int) =~= t);
    lemma_prefix_of_more(t6, cut, companions_are, companions, end, t);
    lemma_prefix_of_more(t5, change, cut_is, none, none, t);
    lemma_prefix_of_more(t4, from, to_is, to, spaces, t);
    lemma_prefix_of_more(t3, bar, sizes_are, none, none, t);
    lemma_prefix_of_more(t2, cap, entry_is, entry, bar_is, t);
    lemma_prefix_of_more(t1, driver, cap_is, none, none, t);
    lemma_prefix_of_more(t0, vendor, colon, device, driver_is, t);
    lemma_five(none, opening, num, close, address, gap);
    assert(none + opening =~= opening);
    lemma_goes_on(t0, t, opening + num + close + address + gap);
    lemma_five(opening + num + close + address, gap, vendor, colon, device, driver_is);
    lemma_goes_on(t1, t, gap + vendor + colon + device + driver_is);
    lemma_three(t0 + vendor + colon + device, driver_is, driver, cap_is);
    lemma_goes_on(t2, t, driver_is + driver + cap_is);
    lemma_five(t1 + driver, cap_is, cap, entry_is, entry, bar_is);
    lemma_goes_on(t3, t, cap_is + cap + entry_is + entry + bar_is);
    lemma_three(t2 + cap + entry_is + entry, bar_is, bar, sizes_are);
    lemma_goes_on(t4, t, bar_is + bar + sizes_are);
    lemma_five(t3 + bar, sizes_are, from, to_is, to, spaces);
    lemma_goes_on(t5, t, sizes_are + from + to_is + to + spaces);
    lemma_three(t4 + from + to_is + to, spaces, change, cut_is);
    lemma_goes_on(t6, t, spaces + change + cut_is);
    lemma_five(t5 + change, cut_is, cut, companions_are, companions, end);
    lemma_goes_on(t7, t, cut_is + cut + companions_are + companions + end);
}

proof fn lemma_text_holds(p: PlanView, n: nat, i: int)
    requires
        0 <= i < n,
    ensures
        texts::shows(plan::plan_text(p, n), plan::action_text(i as nat, p.actions[i])),
    decreases n,
{
    let none = Seq::<char>::empty();
    let before = plan::plan_text(p, (n - 1) as nat);
    let last = plan::action_text((n - 1) as nat, p.actions[n - 1]);
    if i == n - 1 {
        texts::lemma_shows_part(before, last, none);
        assert(before + last + none =~= plan::plan_text(p, n));
    } else {
        lemma_text_holds(p, (n - 1) as nat, i);
        texts::lemma_shows(none, before, last, plan::action_text(i as nat, p.actions[i]));
        assert(none + before + last =~= plan::plan_text(p, n));
    }
}

proof fn lemma_text_starts(p: PlanView, n: nat)
    ensures
        plan::plan_text(p, 0).is_prefix_of(plan::plan_text(p, n)),
    decreases n,
{
    let head = plan::plan_text(p, 0);
    if n == 0 {
        assert(head.subrange(0, head.len() as int) =~= head);
    } else {
        lemma_text_starts(p, (n - 1) as nat);
        let before = plan::plan_text(p, (n - 1) as nat);
        let t = plan::plan_text(p, n);
        assert(t.subrange(0, head.len() as int) =~= before.subrange(0, head.len() as int));
    }
}

/// A plan is shown with its mode, the number of its actions, and every action.
pub proof fn law_shown_plan(p: PlanView, i: int)
    ensures
        ("Mode: "@ + p.mode.text() + "\nActions: "@ + number::dec(p.actions.len())
            + "\n"@).is_prefix_of(plan::plan_text(p, p.actions.len())),
        0 <= i < p.actions.len() ==> texts::shows(
            plan::plan_text(p, p.actions.len()),
            plan::action_text(i as nat, p.actions[i]),
        ),
{
    lemma_text_starts(p, p.actions.len());
    if 0 <= i < p.actions.len() {
        lemma_text_holds(p, p.actions.len(), i);
    }
}

/// The sizes of a plan can be shown where their numbers of bytes fit in 64 bits.
pub proof fn law_printable_sizes(p: PlanView)
    ensures
        plan::plan_sizes_fit(p) <==> forall|i: int|
            0 <= i < p.actions.len() ==> 20 + (#[trigger] p.actions[i]).original_size_index < 64
                && 20 + p.actions[i].target_size_index < 64,
{
    if forall|i: int|
        0 <= i < p.actions.len() ==> 20 + (#[trigger] p.actions[i]).original_size_index < 64 && 20
            + p.actions[i].target_size_index < 64 {
        assert forall|i: int| 0 <= i < p.actions.len() implies plan::sizes_fit(
            #[trigger] p.actions[i],
        ) by {}
    } else {
        let i = choose|i: int|
            0 <= i < p.actions.len() && !(20 + (#[trigger] p.actions[i]).original_size_index < 64
                && 20 + p.actions[i].target_size_index < 64);
        assert(!plan::sizes_fit(p.actions[i]));
    }
}

/// A shown plan grows by each action and by nothing else, and what is shown of an action has no
/// parts but those that are named.
pub proof fn law_nothing_else_is_shown(p: PlanView, n: nat, i: nat, a: ActionView)
    ensures
        plan::plan_text(p, n + 1) == plan::plan_text(p, n) + plan::action_text(
            n,
            p.actions[n as int],
        ),
        plan::plan_text(p, 0) == "Mode: "@ + p.mode.text() + "\nActions: "@ + number::dec(
            p.actions.len(),
        ) + "\n"@,
        plan::action_text(i, a).len() == "\n  ["@.len() + number::dec(i).len() + "] "@.len()
            + a.bdf.text().len() + " "@.len() + number::hex_padded(a.vendor as nat, 4).len()
            + ":"@.len() + number::hex_padded(a.device_id as nat, 4).len()
            + "\n      driver       "@.len() + plan::driver_text(a.driver).len()
            + "\n      rebar        cap@0x"@.len() + number::hex(a.rebar_cap_offset as nat).len()
            + ", entry "@.len() + number::dec(a.rebar_entry_index as nat).len() + ", BAR "@.len()
            + number::dec(a.bar_index as nat).len() + "\n      size index   "@.len() + number::dec(
            a.original_size_index as nat,
        ).len() + " → "@.len() + number::dec(a.target_size_index as nat).len() + "  "@.len()
            + plan::change_text(a).len() + "\n      cut point    "@.len() + a.cut_point.text().len()
            + "\n      companions   ["@.len() + plan::companions_text(a.companions).len()
            + "]\n"@.len(),
{
}

} // verus!
