//! Which BARs to resize, and to what.

use vstd::prelude::*;

use crate::number::{self, dec_text, hex_padded_text, hex_text, parse_numeral};
use crate::pci::device::{self, copy_bdfs, join_bdfs, DeviceView};
use crate::pci::{Bdf, Device};
use crate::rebar::{
    self, format_list, format_size, size_bytes, Rebar, RebarEntry, RebarView,
};
use crate::text::{self, chars_of, copied_opt, owned, spells, strip_prefix};
use crate::topology::{self, cut_point};

verus! {

/// How the target sizes are chosen.
#[derive(Clone, Copy, Debug, PartialEq, Eq, Structural)]
pub enum Mode {
    /// The preferred size of each known device.
    Planned,
    /// The current size: the full cycle runs without changing any BAR, to try the procedure.
    Current,
    /// One size index for the framebuffer BAR of every GPU.
    Explicit(u8),
}

impl Mode {
    /// The written form.
    pub open spec fn text(self) -> Seq<char> {
        match self {
            Mode::Planned => "planned"@,
            Mode::Current => "current"@,
            Mode::Explicit(i) => "explicit="@ + number::dec(i as nat),
        }
    }

    /// The mode that `s` spells.
    pub open spec fn parsed(s: Seq<char>) -> Option<Mode> {
        if s == "planned"@ {
            Some(Mode::Planned)
        } else if s == "current"@ {
            Some(Mode::Current)
        } else {
            match text::after_prefix(s, "explicit="@) {
                None => None,
                Some(rest) => match number::numeral_value(rest, 10, 255) {
                    Ok(n) => Some(Mode::Explicit(n as u8)),
                    Err(_) => None,
                },
            }
        }
    }

    /// The written form.
    pub fn as_str(&self) -> (r: String)
        ensures
            r@ == self.text(),
    {
        match self {
            Mode::Planned => owned("planned"),
            Mode::Current => owned("current"),
            Mode::Explicit(i) => {
                let mut r = owned("explicit=");
                r.append(dec_text(*i as u64).as_str());
                r
            },
        }
    }

    /// Reads a written mode.
    pub fn parse(s: &str) -> (r: Option<Mode>)
        ensures
            r == Mode::parsed(s@),
    {
        let cs = chars_of(s);
        if spells(cs.as_slice(), "planned") {
            return Some(Mode::Planned);
        }
        if spells(cs.as_slice(), "current") {
            return Some(Mode::Current);
        }
        match strip_prefix(cs.as_slice(), "explicit=") {
            Some(rest) => match parse_numeral(rest, 10, 255) {
                Ok(n) => Some(Mode::Explicit(n as u8)),
                Err(_) => None,
            },
            None => None,
        }
    }
}

/// Reading a written mode gives the mode back.
pub proof fn law_mode_reads_back(m: Mode)
    ensures
        Mode::parsed(m.text()) == Some(m),
{
    reveal_strlit("planned");
    reveal_strlit("current");
    reveal_strlit("explicit=");
    match m {
        Mode::Planned => {},
        Mode::Current => {
            assert("current"@[0] != "planned"@[0]);
        },
        Mode::Explicit(i) => {
            number::lemma_dec_reads_back(i as nat, 255);
            let p = "explicit="@;
            let d = number::dec(i as nat);
            assert((p + d)[0] == 'e');
            assert("planned"@[0] == 'p');
            assert("current"@[0] == 'c');
            assert((p + d).take(p.len() as int) =~= p);
            assert((p + d).skip(p.len() as int) =~= d);
        },
    }
}

/// What is to be done to one GPU.
#[derive(Debug)]
pub struct Action {
    pub bdf: Bdf,
    pub vendor: u16,
    pub device_id: u16,
    pub driver: Option<String>,
    pub rebar_cap_offset: usize,
    /// The position among the entries of the capability, not the number of the BAR.
    pub rebar_entry_index: u8,
    pub bar_index: u8,
    pub original_size_index: u8,
    pub target_size_index: u8,
    pub cut_point: Bdf,
    pub companions: Vec<Bdf>,
}

/// The contents of an [`Action`].
#[verifier::ext_equal]
pub struct ActionView {
    pub bdf: Bdf,
    pub vendor: u16,
    pub device_id: u16,
    pub driver: Option<Seq<char>>,
    pub rebar_cap_offset: usize,
    pub rebar_entry_index: u8,
    pub bar_index: u8,
    pub original_size_index: u8,
    pub target_size_index: u8,
    pub cut_point: Bdf,
    pub companions: Seq<Bdf>,
}

impl View for Action {
    type V = ActionView;

    open spec fn view(&self) -> ActionView {
        ActionView {
            bdf: self.bdf,
            vendor: self.vendor,
            device_id: self.device_id,
            driver: text::opt_text(self.driver),
            rebar_cap_offset: self.rebar_cap_offset,
            rebar_entry_index: self.rebar_entry_index,
            bar_index: self.bar_index,
            original_size_index: self.original_size_index,
            target_size_index: self.target_size_index,
            cut_point: self.cut_point,
            companions: self.companions@,
        }
    }
}

impl Clone for Action {
    fn clone(&self) -> (r: Self)
        ensures
            r@ == self@,
    {
        let companions = copy_bdfs(&self.companions);
        Action {
            bdf: self.bdf,
            vendor: self.vendor,
            device_id: self.device_id,
            driver: copied_opt(&self.driver),
            rebar_cap_offset: self.rebar_cap_offset,
            rebar_entry_index: self.rebar_entry_index,
            bar_index: self.bar_index,
            original_size_index: self.original_size_index,
            target_size_index: self.target_size_index,
            cut_point: self.cut_point,
            companions,
        }
    }
}

/// The actions of one run.
#[derive(Debug)]
pub struct Plan {
    pub mode: Mode,
    pub actions: Vec<Action>,
}

/// The contents of a [`Plan`].
#[verifier::ext_equal]
pub struct PlanView {
    pub mode: Mode,
    pub actions: Seq<ActionView>,
}

/// The contents of a list of actions.
pub open spec fn action_views(v: Seq<Action>) -> Seq<ActionView> {
    Seq::new(v.len(), |i: int| v[i]@)
}

impl View for Plan {
    type V = PlanView;

    open spec fn view(&self) -> PlanView {
        PlanView { mode: self.mode, actions: action_views(self.actions@) }
    }
}

impl Clone for Plan {
    fn clone(&self) -> (r: Self)
        ensures
            r@ == self@,
    {
        let mut actions: Vec<Action> = Vec::new();
        let mut i: usize = 0;
        while i < self.actions.len()
            invariant
                i <= self.actions.len(),
                action_views(actions@) == self@.actions.take(i as int),
            decreases self.actions.len() - i,
        {
            let ghost before = actions@;
            actions.push(self.actions[i].clone());
            i += 1;
            assert(action_views(actions@) =~= action_views(before).push(self@.actions[i - 1]));
            assert(self@.actions.take(i as int) =~= self@.actions.take(i - 1).push(
                self@.actions[i - 1],
            ));
        }
        assert(self@.actions.take(i as int) =~= self@.actions);
        Plan { mode: self.mode, actions }
    }
}

/// Why no plan can be made.
#[derive(Debug)]
pub struct PlanError(pub String);

/// The preferred size index of a known device.
pub open spec fn preferred(vendor: u16, device: u16) -> Option<u8> {
    if vendor == 0x10de && device == 0x2bb1 {
        Some(17)
    } else if vendor == 0x1002 && device == 0x73e3 {
        Some(13)
    } else {
        None
    }
}

/// The preferred size index of a known device: 128 GiB for the RTX PRO 6000 Blackwell, 8 GiB for
/// the Radeon PRO W6600.
pub fn preferred_size_index(vendor: u16, device: u16) -> (r: Option<u8>)
    ensures
        r == preferred(vendor, device),
{
    if vendor == 0x10de && device == 0x2bb1 {
        Some(17)
    } else if vendor == 0x1002 && device == 0x73e3 {
        Some(13)
    } else {
        None
    }
}

// ---------------------------------------------------------------- the framebuffer BAR

/// Every entry names a BAR that the device has a resource for.
pub open spec fn bars_known(gpu: DeviceView, reb: RebarView) -> bool {
    forall|i: int|
        0 <= i < reb.entries.len() ==> (#[trigger] reb.entries[i]).bar_index < gpu.resources.len()
}

/// Entry `i` resizes a prefetchable 64-bit BAR.
pub open spec fn candidate(gpu: DeviceView, reb: RebarView, i: int) -> bool {
    0 <= i < reb.entries.len()
        && gpu.resources[reb.entries[i].bar_index as int].framebuffer_like()
}

/// The current size of the BAR of entry `i`.
pub open spec fn candidate_bytes(gpu: DeviceView, reb: RebarView, i: int) -> int {
    gpu.resources[reb.entries[i].bar_index as int].bytes()
}

/// Entry `i` resizes the framebuffer: the largest prefetchable 64-bit BAR that is resizable, the
/// first of several; or, where there is no such BAR, the first BAR that is resizable.
pub open spec fn is_framebuffer(gpu: DeviceView, reb: RebarView, i: int) -> bool {
    &&& 0 <= i < reb.entries.len()
    &&& if exists|j: int| candidate(gpu, reb, j) {
        &&& candidate(gpu, reb, i)
        &&& forall|j: int| #[trigger]
            candidate(gpu, reb, j) ==> {
                &&& candidate_bytes(gpu, reb, j) <= candidate_bytes(gpu, reb, i)
                &&& j < i ==> candidate_bytes(gpu, reb, j) < candidate_bytes(gpu, reb, i)
            }
    } else {
        i == 0
    }
}

/// The entry that resizes the framebuffer.
pub open spec fn framebuffer(gpu: DeviceView, reb: RebarView) -> Option<int> {
    if bars_known(gpu, reb) && reb.entries.len() > 0 {
        Some(choose|i: int| is_framebuffer(gpu, reb, i))
    } else {
        None
    }
}

/// At most one entry resizes the framebuffer.
pub proof fn law_framebuffer_unique(gpu: DeviceView, reb: RebarView, i: int, j: int)
    requires
        is_framebuffer(gpu, reb, i),
        is_framebuffer(gpu, reb, j),
    ensures
        i == j,
{
    if exists|k: int| candidate(gpu, reb, k) {
        assert(candidate(gpu, reb, i));
        assert(candidate(gpu, reb, j));
    }
}

/// The best candidate among the first `n` entries.
proof fn lemma_best_candidate(gpu: DeviceView, reb: RebarView, n: int) -> (best: Option<int>)
    requires
        0 <= n <= reb.entries.len(),
    ensures
        match best {
            None => forall|j: int| 0 <= j < n ==> !candidate(gpu, reb, j),
            Some(b) => {
                &&& b < n
                &&& candidate(gpu, reb, b)
                &&& forall|j: int| #[trigger]
                    candidate(gpu, reb, j) && j < n ==> {
                        &&& candidate_bytes(gpu, reb, j) <= candidate_bytes(gpu, reb, b)
                        &&& j < b ==> candidate_bytes(gpu, reb, j) < candidate_bytes(gpu, reb, b)
                    }
            },
        },
    decreases n,
{
    if n == 0 {
        None
    } else {
        match lemma_best_candidate(gpu, reb, n - 1) {
            None => if candidate(gpu, reb, n - 1) {
                Some(n - 1)
            } else {
                None
            },
            Some(b) => if candidate(gpu, reb, n - 1) && candidate_bytes(gpu, reb, n - 1)
                > candidate_bytes(gpu, reb, b) {
                Some(n - 1)
            } else {
                Some(b)
            },
        }
    }
}

/// Where the capability has entries and all of them name known BARs, one of them resizes the
/// framebuffer.
pub proof fn law_framebuffer_exists(gpu: DeviceView, reb: RebarView)
    requires
        bars_known(gpu, reb),
        reb.entries.len() > 0,
    ensures
        framebuffer(gpu, reb) matches Some(i) && is_framebuffer(gpu, reb, i),
{
    let best = lemma_best_candidate(gpu, reb, reb.entries.len() as int);
    let b = match best {
        Some(b) => b,
        None => 0,
    };
    assert(is_framebuffer(gpu, reb, b));
}

/// Picks the entry that resizes the framebuffer, and its position.
///
/// There is none where the capability has no entries, or where one of them names a BAR that the
/// device has no resource for.
pub fn pick_framebuffer_entry<'a>(gpu: &Device, reb: &'a Rebar) -> (r: Option<
    (usize, &'a RebarEntry),
>)
    ensures
        match r {
            Some((i, e)) => {
                &&& framebuffer(gpu@, reb@) == Some(i as int)
                &&& is_framebuffer(gpu@, reb@, i as int)
                &&& *e == reb@.entries[i as int]
            },
            None => framebuffer(gpu@, reb@) is None,
        },
{
    let mut best: Option<(usize, u128)> = None;
    let mut i: usize = 0;
    while i < reb.entries.len()
        invariant
            i <= reb.entries.len(),
            forall|j: int|
                0 <= j < i ==> (#[trigger] reb@.entries[j]).bar_index < gpu@.resources.len(),
            match best {
                None => forall|j: int| 0 <= j < i ==> !candidate(gpu@, reb@, j),
                Some((b, size)) => {
                    &&& b < i
                    &&& candidate(gpu@, reb@, b as int)
                    &&& size == candidate_bytes(gpu@, reb@, b as int)
                    &&& forall|j: int| #[trigger]
                        candidate(gpu@, reb@, j) && j < i ==> {
                            &&& candidate_bytes(gpu@, reb@, j) <= size
                            &&& j < b ==> candidate_bytes(gpu@, reb@, j) < size
                        }
                },
            },
        decreases reb.entries.len() - i,
    {
        let bar = reb.entries[i].bar_index as usize;
        assert(reb@.entries[i as int].bar_index == bar);
        if bar >= gpu.resources.len() {
            return None;
        }
        let res = gpu.resources[bar];
        if res.is_prefetchable() && res.is_mem64() {
            assert(candidate(gpu@, reb@, i as int));
            let size = res.span();
            let better = match best {
                None => true,
                Some((_, s)) => size > s,
            };
            if better {
                best = Some((i, size));
            }
        } else {
            assert(!candidate(gpu@, reb@, i as int));
        }
        i += 1;
    }
    assert(bars_known(gpu@, reb@));
    if reb.entries.len() == 0 {
        return None;
    }
    let chosen: usize = match best {
        Some((b, _)) => b,
        None => 0,
    };
    proof {
        assert(is_framebuffer(gpu@, reb@, chosen as int));
        let c = choose|k: int| is_framebuffer(gpu@, reb@, k);
        law_framebuffer_unique(gpu@, reb@, chosen as int, c);
    }
    Some((chosen, &reb.entries[chosen]))
}

// ---------------------------------------------------------------- building a plan

/// A device, and what reading its capability and listing its companions gave.
#[derive(Debug)]
pub struct Probe {
    pub device: Device,
    pub rebar: Result<Option<Rebar>, String>,
    pub companions: Result<Vec<Bdf>, String>,
}

/// The contents of a [`Probe`].
#[verifier::ext_equal]
pub struct ProbeView {
    pub device: DeviceView,
    pub rebar: Result<Option<RebarView>, Seq<char>>,
    pub companions: Result<Seq<Bdf>, Seq<char>>,
}

impl View for Probe {
    type V = ProbeView;

    open spec fn view(&self) -> ProbeView {
        ProbeView {
            device: self.device@,
            rebar: match self.rebar {
                Ok(Some(r)) => Ok(Some(r@)),
                Ok(None) => Ok(None),
                Err(m) => Err(m@),
            },
            companions: match self.companions {
                Ok(v) => Ok(v@),
                Err(m) => Err(m@),
            },
        }
    }
}

/// The contents of a list of probes.
pub open spec fn probe_views(v: Seq<Probe>) -> Seq<ProbeView> {
    Seq::new(v.len(), |i: int| v[i]@)
}

/// The target size index for a GPU with framebuffer entry `fb`.
pub open spec fn target_of(mode: Mode, gpu: DeviceView, fb: RebarEntry) -> Option<u8> {
    match mode {
        Mode::Planned => preferred(gpu.vendor, gpu.device_id),
        Mode::Current => Some(fb.current_size_index),
        Mode::Explicit(i) => Some(i),
    }
}

/// The message for a GPU without a preferred size.
pub open spec fn no_preference(gpu: DeviceView) -> Seq<char> {
    gpu.bdf.text() + ": no preferred size for vendor:device "@ + number::hex_padded(
        gpu.vendor as nat,
        4,
    ) + ":"@ + number::hex_padded(gpu.device_id as nat, 4)
        + " — add a mapping or use --target=current/--size=N"@
}

/// The message for a target size that the device does not support.
pub open spec fn unsupported(gpu: DeviceView, target: u8, fb: RebarEntry) -> Seq<char> {
    gpu.bdf.text() + ": target size index "@ + number::dec(target as nat)
        + " not in supported set "@ + rebar::list_text(fb.supported_below(28))
}

/// The action for one GPU, or the first reason why there is none.
pub open spec fn action_of(mode: Mode, p: ProbeView) -> Result<ActionView, Seq<char>> {
    let gpu = p.device;
    match p.rebar {
        Err(m) => Err(m),
        Ok(None) => Err(
            gpu.bdf.text() + ": device does not advertise a Resizable BAR capability"@,
        ),
        Ok(Some(reb)) => match framebuffer(gpu, reb) {
            None => Err(gpu.bdf.text() + ": no framebuffer rebar entry"@),
            Some(i) => {
                let fb = reb.entries[i];
                match target_of(mode, gpu, fb) {
                    None => Err(no_preference(gpu)),
                    Some(target) => if !fb.has(target as int) && mode != Mode::Current {
                        Err(unsupported(gpu, target, fb))
                    } else {
                        match topology::cut_of(gpu) {
                            None => Err(
                                gpu.bdf.text() + ": no cut point (attached directly to host?)"@,
                            ),
                            Some(cut) => match p.companions {
                                Err(m) => Err(m),
                                Ok(companions) => Ok(
                                    ActionView {
                                        bdf: gpu.bdf,
                                        vendor: gpu.vendor,
                                        device_id: gpu.device_id,
                                        driver: gpu.driver,
                                        rebar_cap_offset: reb.cap_offset,
                                        rebar_entry_index: (i % 256) as u8,
                                        bar_index: fb.bar_index,
                                        original_size_index: fb.current_size_index,
                                        target_size_index: target,
                                        cut_point: cut,
                                        companions,
                                    },
                                ),
                            },
                        }
                    },
                }
            },
        },
    }
}

/// The GPUs among the probes.
pub open spec fn gpu_probes(probes: Seq<ProbeView>) -> Seq<ProbeView> {
    probes.filter(|p: ProbeView| p.device.gpu())
}

/// The actions for the GPUs of the list; the first GPU without an action decides the error.
pub open spec fn actions_of(mode: Mode, gpus: Seq<ProbeView>) -> Result<
    Seq<ActionView>,
    Seq<char>,
>
    decreases gpus.len(),
{
    if gpus.len() == 0 {
        Ok(seq![])
    } else {
        match actions_of(mode, gpus.drop_last()) {
            Err(m) => Err(m),
            Ok(done) => match action_of(mode, gpus.last()) {
                Err(m) => Err(m),
                Ok(a) => Ok(done.push(a)),
            },
        }
    }
}

/// The plan for the GPUs among the probes.
pub open spec fn plan_of(mode: Mode, probes: Seq<ProbeView>) -> Result<PlanView, Seq<char>> {
    let gpus = gpu_probes(probes);
    if gpus.len() == 0 {
        Err("no GPUs detected"@)
    } else {
        match actions_of(mode, gpus) {
            Err(m) => Err(m),
            Ok(actions) => Ok(PlanView { mode, actions }),
        }
    }
}

fn with_address(bdf: Bdf, message: &str) -> (r: PlanError)
    ensures
        r.0@ == bdf.text() + message@,
{
    let mut m = bdf.to_string();
    m.append(message);
    PlanError(m)
}

fn low8(i: usize) -> (r: u8)
    ensures
        r == i as int % 256,
{
    assert(i as u8 == i % 256) by (bit_vector);
    i as u8
}

/// Decides what is to be done to one GPU.
pub fn plan_action(mode: Mode, p: &Probe) -> (r: Result<Action, PlanError>)
    ensures
        match r {
            Ok(a) => action_of(mode, p@) == Ok::<ActionView, Seq<char>>(a@),
            Err(e) => action_of(mode, p@) == Err::<ActionView, Seq<char>>(e.0@),
        },
{
    let gpu = &p.device;
    let reb = match &p.rebar {
        Ok(Some(r)) => r,
        Ok(None) => {
            return Err(
                with_address(gpu.bdf, ": device does not advertise a Resizable BAR capability"),
            );
        },
        Err(m) => return Err(PlanError(owned(m.as_str()))),
    };
    let (index, fb) = match pick_framebuffer_entry(gpu, reb) {
        Some(x) => x,
        None => return Err(with_address(gpu.bdf, ": no framebuffer rebar entry")),
    };
    let target = match mode {
        Mode::Planned => match preferred_size_index(gpu.vendor, gpu.device_id) {
            Some(t) => t,
            None => {
                let mut m = gpu.bdf.to_string();
                m.append(": no preferred size for vendor:device ");
                m.append(hex_padded_text(gpu.vendor as u64, 4).as_str());
                m.append(":");
                m.append(hex_padded_text(gpu.device_id as u64, 4).as_str());
                m.append(" — add a mapping or use --target=current/--size=N");
                return Err(PlanError(m));
            },
        },
        Mode::Current => fb.current_size_index,
        Mode::Explicit(i) => i,
    };
    if !fb.supports(target) && mode != Mode::Current {
        let mut m = gpu.bdf.to_string();
        m.append(": target size index ");
        m.append(dec_text(target as u64).as_str());
        m.append(" not in supported set ");
        m.append(format_list(&fb.supported_indices()).as_str());
        return Err(PlanError(m));
    }
    let cut = match cut_point(gpu) {
        Some(c) => c,
        None => {
            return Err(with_address(gpu.bdf, ": no cut point (attached directly to host?)"));
        },
    };
    let companions = match &p.companions {
        Ok(v) => copy_bdfs(v),
        Err(m) => return Err(PlanError(owned(m.as_str()))),
    };
    Ok(
        Action {
            bdf: gpu.bdf,
            vendor: gpu.vendor,
            device_id: gpu.device_id,
            driver: copied_opt(&gpu.driver),
            rebar_cap_offset: reb.cap_offset,
            rebar_entry_index: low8(index),
            bar_index: fb.bar_index,
            original_size_index: fb.current_size_index,
            target_size_index: target,
            cut_point: cut,
            companions,
        },
    )
}

proof fn lemma_actions_error_stays(mode: Mode, gpus: Seq<ProbeView>, n: int)
    requires
        0 <= n <= gpus.len(),
        actions_of(mode, gpus.take(n)) is Err,
    ensures
        actions_of(mode, gpus) == actions_of(mode, gpus.take(n)),
    decreases gpus.len() - n,
{
    if n == gpus.len() {
        assert(gpus.take(n) =~= gpus);
    } else {
        assert(gpus.take(n + 1).drop_last() =~= gpus.take(n));
        lemma_actions_error_stays(mode, gpus, n + 1);
    }
}

proof fn lemma_gpu_probes_prefix(probes: Seq<ProbeView>, n: int)
    requires
        0 <= n <= probes.len(),
    ensures
        gpu_probes(probes.take(n)).len() <= gpu_probes(probes).len(),
        gpu_probes(probes).take(gpu_probes(probes.take(n)).len() as int) == gpu_probes(
            probes.take(n),
        ),
{
    assert(probes =~= probes.take(n) + probes.skip(n));
    Seq::filter_distributes_over_add(
        probes.take(n),
        probes.skip(n),
        |p: ProbeView| p.device.gpu(),
    );
    assert(gpu_probes(probes) == gpu_probes(probes.take(n)) + gpu_probes(probes.skip(n)));
    assert(gpu_probes(probes).take(gpu_probes(probes.take(n)).len() as int) =~= gpu_probes(
        probes.take(n),
    ));
}

/// Builds the plan for all GPUs among the probed devices.
pub fn build(mode: Mode, probes: &Vec<Probe>) -> (r: Result<Plan, PlanError>)
    ensures
        match r {
            Ok(p) => plan_of(mode, probe_views(probes@)) == Ok::<PlanView, Seq<char>>(p@),
            Err(e) => plan_of(mode, probe_views(probes@)) == Err::<PlanView, Seq<char>>(e.0@),
        },
{
    let ghost all = probe_views(probes@);
    let mut actions: Vec<Action> = Vec::new();
    let mut seen = false;
    let mut i: usize = 0;
    proof {
        reveal(Seq::filter);
        assert(gpu_probes(all.take(0)) =~= seq![]);
        assert(action_views(actions@) =~= seq![]);
    }
    while i < probes.len()
        invariant
            i <= probes.len(),
            all == probe_views(probes@),
            seen == (gpu_probes(all.take(i as int)).len() > 0),
            actions_of(mode, gpu_probes(all.take(i as int))) == Ok::<Seq<ActionView>, Seq<char>>(
                action_views(actions@),
            ),
        decreases probes.len() - i,
    {
        let ghost before = gpu_probes(all.take(i as int));
        let ghost now = gpu_probes(all.take(i + 1));
        let p = &probes[i];
        proof {
            reveal(Seq::filter);
            assert(all.take(i + 1).drop_last() =~= all.take(i as int));
            assert(all.take(i + 1).last() == p@);
        }
        if p.device.is_gpu() {
            seen = true;
            assert(now == before.push(p@));
            assert(now.drop_last() =~= before);
            match plan_action(mode, p) {
                Ok(a) => {
                    let ghost done = action_views(actions@);
                    actions.push(a);
                    assert(action_views(actions@) =~= done.push(a@));
                },
                Err(e) => {
                    proof {
                        lemma_gpu_probes_prefix(all, i + 1);
                        lemma_actions_error_stays(mode, gpu_probes(all), now.len() as int);
                    }
                    return Err(e);
                },
            }
        } else {
            assert(now == before);
        }
        i += 1;
    }
    assert(all.take(i as int) =~= all);
    if !seen {
        return Err(PlanError(owned("no GPUs detected")));
    }
    Ok(Plan { mode, actions })
}

// ---------------------------------------------------------------- what plans promise

proof fn lemma_actions_of(mode: Mode, gpus: Seq<ProbeView>)
    requires
        actions_of(mode, gpus) is Ok,
    ensures
        actions_of(mode, gpus)->Ok_0.len() == gpus.len(),
        forall|i: int|
            0 <= i < gpus.len() ==> action_of(mode, gpus[i]) == Ok::<ActionView, Seq<char>>(
                #[trigger] actions_of(mode, gpus)->Ok_0[i],
            ),
    decreases gpus.len(),
{
    if gpus.len() > 0 {
        lemma_actions_of(mode, gpus.drop_last());
        let all = actions_of(mode, gpus)->Ok_0;
        let done = actions_of(mode, gpus.drop_last())->Ok_0;
        assert forall|i: int| 0 <= i < gpus.len() implies action_of(mode, gpus[i]) == Ok::<
            ActionView,
            Seq<char>,
        >(#[trigger] all[i]) by {
            if i < gpus.len() - 1 {
                assert(all[i] == done[i]);
                assert(gpus.drop_last()[i] == gpus[i]);
            }
        }
    }
}

/// A plan holds one action for each GPU, in the order of the devices. Each action carries the
/// address, the numbers, the driver and the companions of its GPU, is cut at the top-most bridge
/// above it, names the capability, the position and the BAR of the entry that resizes the
/// framebuffer, and starts from the current size of that BAR. A target other than the current size
/// is one that the BAR supports.
pub proof fn law_plan_covers_gpus(mode: Mode, probes: Seq<ProbeView>, i: int)
    requires
        plan_of(mode, probes) is Ok,
        0 <= i < gpu_probes(probes).len(),
    ensures
        plan_of(mode, probes)->Ok_0.mode == mode,
        plan_of(mode, probes)->Ok_0.actions.len() == gpu_probes(probes).len(),
        ({
            let p = gpu_probes(probes)[i];
            let a = plan_of(mode, probes)->Ok_0.actions[i];
            &&& a.bdf == p.device.bdf
            &&& a.vendor == p.device.vendor
            &&& a.device_id == p.device.device_id
            &&& a.driver == p.device.driver
            &&& p.companions == Ok::<Seq<Bdf>, Seq<char>>(a.companions)
            &&& topology::cut_of(p.device) == Some(a.cut_point)
            &&& p.rebar matches Ok(Some(reb)) && {
                let k = framebuffer(p.device, reb)->0;
                &&& 0 <= k < reb.entries.len()
                &&& is_framebuffer(p.device, reb, k)
                &&& a.rebar_cap_offset == reb.cap_offset
                &&& a.rebar_entry_index == k % 256
                &&& a.bar_index == reb.entries[k].bar_index
                &&& a.original_size_index == reb.entries[k].current_size_index
                &&& a.target_size_index != a.original_size_index ==> reb.entries[k].has(
                    a.target_size_index as int,
                )
            }
        }),
{
    lemma_actions_of(mode, gpu_probes(probes));
    assert(action_of(mode, gpu_probes(probes)[i]) == Ok::<ActionView, Seq<char>>(
        actions_of(mode, gpu_probes(probes))->Ok_0[i],
    ));
    let p = gpu_probes(probes)[i];
    law_framebuffer_exists(p.device, p.rebar->Ok_0->0);
}

/// A plan in the mode `Current` changes no size.
pub proof fn law_dry_cycle_keeps_sizes(probes: Seq<ProbeView>)
    requires
        plan_of(Mode::Current, probes) is Ok,
    ensures
        forall|i: int|
            0 <= i < plan_of(Mode::Current, probes)->Ok_0.actions.len() ==> {
                let a = #[trigger] plan_of(Mode::Current, probes)->Ok_0.actions[i];
                a.target_size_index == a.original_size_index
            },
{
    let gpus = gpu_probes(probes);
    lemma_actions_of(Mode::Current, gpus);
    let actions = plan_of(Mode::Current, probes)->Ok_0.actions;
    assert forall|i: int| 0 <= i < actions.len() implies {
        let a = #[trigger] actions[i];
        a.target_size_index == a.original_size_index
    } by {
        assert(action_of(Mode::Current, gpus[i]) == Ok::<ActionView, Seq<char>>(
            actions_of(Mode::Current, gpus)->Ok_0[i],
        ));
    }
}

/// A planned or explicit target is one that the BAR supports, and it is the preferred or the given
/// size index.
pub proof fn law_targets(mode: Mode, p: ProbeView)
    requires
        action_of(mode, p) is Ok,
        mode != Mode::Current,
    ensures
        ({
            let a = action_of(mode, p)->Ok_0;
            let reb = p.rebar->Ok_0->0;
            &&& reb.entries[framebuffer(p.device, reb)->0].has(a.target_size_index as int)
            &&& mode == Mode::Planned ==> preferred(a.vendor, a.device_id) == Some(
                a.target_size_index,
            )
            &&& mode matches Mode::Explicit(n) ==> a.target_size_index == n
        }),
{
}

// ---------------------------------------------------------------- printing a plan

/// Both sizes of the action have a number of bytes that fits in 64 bits.
pub open spec fn sizes_fit(a: ActionView) -> bool {
    a.original_size_index < 44 && a.target_size_index < 44
}

/// The sizes of every action fit.
pub open spec fn plan_sizes_fit(p: PlanView) -> bool {
    forall|i: int| 0 <= i < p.actions.len() ==> sizes_fit(#[trigger] p.actions[i])
}

/// The change of size, for people.
pub open spec fn change_text(a: ActionView) -> Seq<char> {
    if a.original_size_index == a.target_size_index {
        "(unchanged)"@
    } else {
        rebar::index_text(a.original_size_index) + " → "@ + rebar::index_text(a.target_size_index)
    }
}

/// The companions in a list, or `none`.
pub open spec fn companions_text(v: Seq<Bdf>) -> Seq<char> {
    if v.len() == 0 {
        "none"@
    } else {
        text::joined(device::bdf_texts(v), ", "@)
    }
}

/// The driver, or `(none)`.
pub open spec fn driver_text(d: Option<Seq<char>>) -> Seq<char> {
    match d {
        Some(d) => d,
        None => "(none)"@,
    }
}

/// One action of a printed plan.
pub open spec fn action_text(i: nat, a: ActionView) -> Seq<char> {
    "\n  ["@ + number::dec(i) + "] "@ + a.bdf.text() + " "@ + number::hex_padded(a.vendor as nat, 4)
        + ":"@ + number::hex_padded(a.device_id as nat, 4) + "\n      driver       "@
        + driver_text(a.driver) + "\n      rebar        cap@0x"@ + number::hex(
        a.rebar_cap_offset as nat,
    ) + ", entry "@ + number::dec(a.rebar_entry_index as nat) + ", BAR "@ + number::dec(
        a.bar_index as nat,
    ) + "\n      size index   "@ + number::dec(a.original_size_index as nat) + " → "@
        + number::dec(a.target_size_index as nat) + "  "@ + change_text(a)
        + "\n      cut point    "@ + a.cut_point.text() + "\n      companions   ["@
        + companions_text(a.companions) + "]\n"@
}

/// The first `n` actions of a printed plan, under its head.
pub open spec fn plan_text(p: PlanView, n: nat) -> Seq<char>
    decreases n,
{
    if n == 0 {
        "Mode: "@ + p.mode.text() + "\nActions: "@ + number::dec(p.actions.len()) + "\n"@
    } else {
        plan_text(p, (n - 1) as nat) + action_text((n - 1) as nat, p.actions[n - 1])
    }
}

fn print_action(i: usize, a: &Action) -> (r: String)
    requires
        sizes_fit(a@),
    ensures
        r@ == action_text(i as nat, a@),
{
    let from = size_bytes(a.original_size_index);
    let to = size_bytes(a.target_size_index);
    let mut change = owned("(unchanged)");
    if a.original_size_index != a.target_size_index {
        change = format_size(from);
        change.append(" → ");
        change.append(format_size(to).as_str());
    }
    let mut companions = owned("none");
    if a.companions.len() > 0 {
        companions = join_bdfs(&a.companions, ", ");
    }
    let driver = match &a.driver {
        Some(d) => owned(d.as_str()),
        None => owned("(none)"),
    };
    let mut r = owned("\n  [");
    r.append(dec_text(i as u64).as_str());
    r.append("] ");
    r.append(a.bdf.to_string().as_str());
    r.append(" ");
    r.append(hex_padded_text(a.vendor as u64, 4).as_str());
    r.append(":");
    r.append(hex_padded_text(a.device_id as u64, 4).as_str());
    r.append("\n      driver       ");
    r.append(driver.as_str());
    r.append("\n      rebar        cap@0x");
    r.append(hex_text(a.rebar_cap_offset as u64).as_str());
    r.append(", entry ");
    r.append(dec_text(a.rebar_entry_index as u64).as_str());
    r.append(", BAR ");
    r.append(dec_text(a.bar_index as u64).as_str());
    r.append("\n      size index   ");
    r.append(dec_text(a.original_size_index as u64).as_str());
    r.append(" → ");
    r.append(dec_text(a.target_size_index as u64).as_str());
    r.append("  ");
    r.append(change.as_str());
    r.append("\n      cut point    ");
    r.append(a.cut_point.to_string().as_str());
    r.append("\n      companions   [");
    r.append(companions.as_str());
    r.append("]\n");
    r
}

/// The text that shows a plan.
#[verifier::rlimit(30)]
#[verifier::spinoff_prover]
pub fn print(plan: &Plan) -> (r: String)
    requires
        plan_sizes_fit(plan@),
    ensures
        r@ == plan_text(plan@, plan@.actions.len()),
{
    assert(plan@.actions.len() == plan.actions@.len());
    let mut r = owned("Mode: ");
    r.append(plan.mode.as_str().as_str());
    r.append("\nActions: ");
    r.append(dec_text(plan.actions.len() as u64).as_str());
    r.append("\n");
    let mut i: usize = 0;
    while i < plan.actions.len()
        invariant
            i <= plan.actions.len(),
            plan_sizes_fit(plan@),
            r@ == plan_text(plan@, i as nat),
        decreases plan.actions.len() - i,
    {
        assert(plan@.actions[i as int] == plan.actions@[i as int]@);
        r.append(print_action(i, &plan.actions[i]).as_str());
        i += 1;
    }
    r
}

/// Whether the sizes of every action have a number of bytes that fits in 64 bits, so that the plan
/// can be printed.
pub fn is_printable(plan: &Plan) -> (r: bool)
    ensures
        r == plan_sizes_fit(plan@),
{
    let mut i: usize = 0;
    while i < plan.actions.len()
        invariant
            i <= plan.actions.len(),
            forall|j: int| 0 <= j < i ==> sizes_fit(#[trigger] plan@.actions[j]),
        decreases plan.actions.len() - i,
    {
        let a = &plan.actions[i];
        if a.original_size_index >= 44 || a.target_size_index >= 44 {
            assert(!sizes_fit(plan@.actions[i as int]));
            return false;
        }
        assert(sizes_fit(plan@.actions[i as int]));
        i += 1;
    }
    true
}

} // verus!
