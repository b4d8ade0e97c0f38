//! What contracts see of a value: everything that it holds.

use vstd::prelude::*;

use crate::cli::Command;
use crate::diagnose::{self, GpuReadings};
use crate::execute::consumers::{self, Consumers, Process};
use crate::execute::cycle::{self, CycleStep, Effect, OnFailure, Reaction, Target, Task};
use crate::execute::polling::{BindStep, WaitStep};
use crate::execute::{Options, Step};
use crate::manifest::{self, SaveStep};
use crate::pci::device::{self, Device, DeviceFiles};
use crate::plan::{self, Action, Plan, Probe};
use crate::preflight::{self, Check};
use crate::rebar::{Rebar, RebarStep, WriteStep};
use crate::text;
use crate::topology::{self, CutGroup};

verus! {

/// An optional text is seen as what it holds.
pub open spec fn same_option(o: Option<String>, s: Option<Seq<char>>) -> bool {
    match (o, s) {
        (Some(x), Some(y)) => x@ == y,
        (None, None) => true,
        _ => false,
    }
}

/// A list of texts is seen as the texts, in order.
pub open spec fn same_list(v: Seq<String>, s: Seq<Seq<char>>) -> bool {
    v.len() == s.len() && forall|i: int| 0 <= i < v.len() ==> (#[trigger] v[i])@ == s[i]
}

/// Optional texts and lists of texts are seen whole.
pub proof fn law_texts_are_seen(
    o: Option<String>,
    v: Seq<String>,
    w: Seq<Vec<char>>,
    r: Result<String, String>,
    a: Result<(), String>,
)
    ensures
        same_option(o, text::opt_text(o)),
        same_list(v, text::strings(v)),
        text::texts(w).len() == w.len(),
        forall|i: int| 0 <= i < w.len() ==> #[trigger] text::texts(w)[i] == w[i]@,
        match r {
            Ok(s) => device::reading(r) == Ok::<Seq<char>, Seq<char>>(s@),
            Err(e) => device::reading(r) == Err::<Seq<char>, Seq<char>>(e@),
        },
        match a {
            Ok(()) => manifest::attempt(a) == Ok::<(), Seq<char>>(()),
            Err(e) => manifest::attempt(a) == Err::<(), Seq<char>>(e@),
        },
{
}

/// Devices, and the files that describe them, are seen whole.
pub proof fn law_devices_are_seen(d: Device, f: DeviceFiles, v: Seq<Device>)
    ensures
        d@.bdf == d.bdf && d@.class == d.class && d@.vendor == d.vendor && d@.device_id
            == d.device_id,
        same_option(d.driver, d@.driver),
        d@.resources == d.resources@,
        d@.parent_chain == d.parent_chain@,
        f@.class == device::reading(f.class),
        f@.vendor == device::reading(f.vendor),
        f@.device == device::reading(f.device),
        f@.resource == device::reading(f.resource),
        same_option(f.driver, f@.driver),
        match f.path {
            Ok(p) => f@.path is Ok && same_list(p@, f@.path->Ok_0),
            Err(m) => f@.path == Err::<Seq<Seq<char>>, Seq<char>>(m@),
        },
        device::device_views(v).len() == v.len(),
        forall|i: int| 0 <= i < v.len() ==> #[trigger] device::device_views(v)[i] == v[i]@,
{
}

/// Lists of readings, of reports and of borrowed devices are seen whole.
pub proof fn law_listings_are_seen(
    found: Seq<(crate::pci::Bdf, DeviceFiles)>,
    failed: Seq<(crate::pci::Bdf, String)>,
    borrowed: Seq<&Device>,
    r: Result<Device, String>,
    i: int,
)
    ensures
        device::readings(found).len() == found.len(),
        0 <= i < found.len() ==> device::readings(found)[i].0 == found[i].0 && device::readings(
            found,
        )[i].1 == found[i].1@,
        device::warnings(failed).len() == failed.len(),
        0 <= i < failed.len() ==> device::warnings(failed)[i].0 == failed[i].0 && device::warnings(
            failed,
        )[i].1 == failed[i].1@,
        topology::borrowed_views(borrowed).len() == borrowed.len(),
        0 <= i < borrowed.len() ==> topology::borrowed_views(borrowed)[i] == borrowed[i]@,
        match r {
            Ok(d) => device::device_result(r) == Ok::<device::DeviceView, Seq<char>>(d@),
            Err(e) => device::device_result(r) == Err::<device::DeviceView, Seq<char>>(e@),
        },
{
}

/// Actions, plans and what they are made from are seen whole.
pub proof fn law_plans_are_seen(a: Action, p: Plan, q: Probe, qs: Seq<Probe>, i: int)
    ensures
        a@.bdf == a.bdf && a@.vendor == a.vendor && a@.device_id == a.device_id,
        same_option(a.driver, a@.driver),
        a@.rebar_cap_offset == a.rebar_cap_offset && a@.rebar_entry_index == a.rebar_entry_index,
        a@.bar_index == a.bar_index && a@.original_size_index == a.original_size_index,
        a@.target_size_index == a.target_size_index && a@.cut_point == a.cut_point,
        a@.companions == a.companions@,
        p@.mode == p.mode,
        p@.actions.len() == p.actions@.len(),
        0 <= i < p.actions@.len() ==> p@.actions[i] == p.actions@[i]@,
        q@.device == q.device@,
        q@.rebar == diagnose::rebar_reading(q.rebar),
        match q.companions {
            Ok(v) => q@.companions == Ok::<Seq<crate::pci::Bdf>, Seq<char>>(v@),
            Err(m) => q@.companions == Err::<Seq<crate::pci::Bdf>, Seq<char>>(m@),
        },
        plan::probe_views(qs).len() == qs.len(),
        0 <= i < qs.len() ==> plan::probe_views(qs)[i] == qs[i]@,
{
}

/// Capabilities and what was read of them are seen whole.
pub proof fn law_capabilities_are_seen(
    r: Rebar,
    o: Result<Option<Rebar>, String>,
    s: RebarStep,
    w: WriteStep,
    v: Seq<GpuReadings>,
    i: int,
)
    ensures
        r@.cap_offset == r.cap_offset && r@.entries == r.entries@,
        match o {
            Ok(Some(x)) => diagnose::rebar_reading(o) matches Ok(Some(y)) && y == x@,
            Ok(None) => diagnose::rebar_reading(o) matches Ok(None),
            Err(e) => diagnose::rebar_reading(o) matches Err(m) && m == e@,
        },
        match s {
            RebarStep::Read(at) => s@ == crate::rebar::RebarStepView::Read(at),
            RebarStep::Done(Some(x)) => s@ == crate::rebar::RebarStepView::Done(Some(x@)),
            RebarStep::Done(None) => s@ == crate::rebar::RebarStepView::Done(None),
            RebarStep::Invalid(m) => s@ == crate::rebar::RebarStepView::Invalid(m@),
        },
        match w {
            WriteStep::Read(at) => w@ == crate::rebar::WriteStepView::Read(at),
            WriteStep::Write { offset, value } => w@ == (crate::rebar::WriteStepView::Write {
                offset,
                value,
            }),
            WriteStep::Done => w@ is Done,
            WriteStep::Rejected(m) => w@ == crate::rebar::WriteStepView::Rejected(m@),
        },
        diagnose::second_readings(v).len() == v.len(),
        0 <= i < v.len() ==> diagnose::second_readings(v)[i] == diagnose::rebar_reading(
            v[i].rebar_again,
        ),
{
}

/// What is using the GPUs is seen whole, and so are the checks of the host, the options and the
/// groups.
pub proof fn law_hosts_are_seen(
    p: Process,
    c: Consumers,
    k: Check,
    ks: Seq<Check>,
    o: Options,
    g: CutGroup,
    gs: Seq<CutGroup>,
    i: int,
)
    ensures
        p@.name == p.name@,
        same_option(p.comm, p@.comm),
        same_list(p.open@, p@.open),
        c@.processes.len() == c.processes@.len(),
        0 <= i < c.processes@.len() ==> c@.processes[i] == c.processes@[i]@,
        same_list(c.active@, c@.active),
        k@.name == k.name@ && k@.ok == k.ok && k@.detail == k.detail@,
        preflight::check_views(ks).len() == ks.len(),
        0 <= i < ks.len() ==> preflight::check_views(ks)[i] == ks[i]@,
        o@.yes == o.yes && o@.force == o.force,
        same_option(o.manifest_path, o@.manifest_path),
        g@.cut == g.cut && g@.members == g.members@,
        topology::group_views(gs).len() == gs.len(),
        0 <= i < gs.len() ==> topology::group_views(gs)[i] == gs[i]@,
{
}

/// The targets and the tasks of a cycle are seen whole.
pub proof fn law_tasks_are_seen(
    t: Target,
    ts: Seq<Target>,
    k: Task,
    ks: Seq<Task>,
    bound: Seq<Option<String>>,
    outcomes: Seq<Result<(), String>>,
    i: int,
)
    ensures
        t@.bdf == t.bdf,
        same_option(t.driver, t@.driver),
        cycle::target_views(ts).len() == ts.len(),
        0 <= i < ts.len() ==> cycle::target_views(ts)[i] == ts[i]@,
        k@.effect == k.effect@,
        same_option(k.told, k@.told),
        k@.on_failure == k.on_failure@,
        cycle::task_views(ks).len() == ks.len(),
        0 <= i < ks.len() ==> cycle::task_views(ks)[i] == ks[i]@,
        cycle::opt_texts(bound).len() == bound.len(),
        0 <= i < bound.len() ==> same_option(bound[i], cycle::opt_texts(bound)[i]),
        cycle::attempts(outcomes).len() == outcomes.len(),
        0 <= i < outcomes.len() ==> cycle::attempts(outcomes)[i] == manifest::attempt(outcomes[i]),
{
}

/// The effects of a task are seen whole, and so is what follows its failure.
pub proof fn law_effects_are_seen(e: Effect, f: OnFailure, r: Reaction, s: CycleStep)
    ensures
        match e {
            Effect::Nothing => e@ is Nothing,
            Effect::Unbind { bdf, driver } => e@ == (cycle::EffectView::Unbind {
                bdf,
                driver: driver@,
            }),
            Effect::WriteSize { bdf, cap_offset, entry_index, size_index } => e@ == (
            cycle::EffectView::WriteSize { bdf, cap_offset, entry_index, size_index }),
            Effect::Remove(b) => e@ == cycle::EffectView::Remove(b),
            Effect::Sleep(n) => e@ == cycle::EffectView::Sleep(n),
            Effect::Rescan => e@ is Rescan,
            Effect::WaitFor { bdf, seconds } => e@ == (cycle::EffectView::WaitFor { bdf, seconds }),
            Effect::Bind { bdf, driver, seconds } => e@ == (cycle::EffectView::Bind {
                bdf,
                driver: driver@,
                seconds,
            }),
            Effect::Verify => e@ is Verify,
        },
        match f {
            OnFailure::Stop => f@ is Stop,
            OnFailure::Warn(t) => f@ == cycle::OnFailureView::Warn(t@),
            OnFailure::Ignore => f@ is Ignore,
        },
        match r {
            Reaction::Go(line) => r@ matches cycle::ReactionView::Go(l) && same_option(line, l),
            Reaction::Stop(m) => r@ == cycle::ReactionView::Stop(m@),
        },
        match s {
            CycleStep::Perform(n) => s@ == cycle::CycleStepView::Perform(n as int),
            CycleStep::Done => s@ is Done,
            CycleStep::Stopped(m) => s@ == cycle::CycleStepView::Stopped(m@),
        },
{
}

/// The steps of commands, of waiting and of saving are seen whole.
pub proof fn law_steps_are_seen(s: Step, w: WaitStep, b: BindStep, v: SaveStep, c: Command)
    ensures
        match s {
            Step::ReadUser => s@ is ReadUser,
            Step::ReadManifest(p) => s@ == crate::execute::StepView::ReadManifest(p@),
            Step::ReadCmdline => s@ is ReadCmdline,
            Step::FindConsumers => s@ is FindConsumers,
            Step::Warn(t) => s@ == crate::execute::StepView::Warn(t@),
            Step::Show(t) => s@ == crate::execute::StepView::Show(t@),
            Step::Ask => s@ is Ask,
            Step::SaveManifest(p, q) => s@ == crate::execute::StepView::SaveManifest(p@, q@),
            Step::Run(line, q) => s@ matches crate::execute::StepView::Run(l, x) && same_option(
                line,
                l,
            ) && x == q@,
            Step::DeleteManifest(p) => s@ == crate::execute::StepView::DeleteManifest(p@),
            Step::ReadDevices(q) => s@ == crate::execute::StepView::ReadDevices(q@),
            Step::Report(lines) => s@ matches crate::execute::StepView::Report(l) && same_list(
                lines@,
                l,
            ),
            Step::Finish(t) => s@ == crate::execute::StepView::Finish(t@),
            Step::Fail(t) => s@ == crate::execute::StepView::Fail(t@),
        },
        match w {
            WaitStep::Look => w@ is Look,
            WaitStep::Sleep(n) => w@ == crate::execute::polling::WaitStepView::Sleep(n),
            WaitStep::Done => w@ is Done,
            WaitStep::GiveUp(t) => w@ == crate::execute::polling::WaitStepView::GiveUp(t@),
        },
        match b {
            BindStep::Look => b@ is Look,
            BindStep::Sleep(n) => b@ == crate::execute::polling::BindStepView::Sleep(n),
            BindStep::TellDriver(t) => b@ == crate::execute::polling::BindStepView::TellDriver(t@),
            BindStep::Done => b@ is Done,
            BindStep::GiveUp(t) => b@ == crate::execute::polling::BindStepView::GiveUp(t@),
        },
        match v {
            SaveStep::MakeDirectory(d) => v@ == manifest::SaveStepView::MakeDirectory(d@),
            SaveStep::WriteTemporary(f) => v@ == manifest::SaveStepView::WriteTemporary(f@),
            SaveStep::Rename(f, t) => v@ == manifest::SaveStepView::Rename(f@, t@),
            SaveStep::Done => v@ is Done,
            SaveStep::Failed(t) => v@ == manifest::SaveStepView::Failed(t@),
        },
        match c {
            Command::Diagnose => c@ is Diagnose,
            Command::Plan => c@ is Plan,
            Command::Execute => c@ is Execute,
            Command::Rollback => c@ is Rollback,
            Command::Verify => c@ is Verify,
            Command::Help => c@ is Help,
            Command::Unknown(t) => c@ == crate::cli::CommandView::Unknown(t@),
        },
{
}

/// Names of devices are seen whole: the last one that the list gives to an address counts.
pub proof fn law_names_are_seen(v: Seq<(crate::pci::Bdf, String)>, b: crate::pci::Bdf, i: int)
    ensures
        diagnose::labels::named(v).len() == v.len(),
        0 <= i < v.len() ==> diagnose::labels::named(v)[i].0 == v[i].0
            && diagnose::labels::named(v)[i].1 == v[i].1@,
        v.len() > 0 && v.last().0 == b ==> diagnose::labels::label_of(
            diagnose::labels::label_map(diagnose::labels::named(v)),
            b,
        ) == v.last().1@,
        v.len() > 0 && v.last().0 != b ==> diagnose::labels::label_of(
            diagnose::labels::label_map(diagnose::labels::named(v)),
            b,
        ) == diagnose::labels::label_of(
            diagnose::labels::label_map(diagnose::labels::named(v.drop_last())),
            b,
        ),
{
    if v.len() > 0 {
        let all = diagnose::labels::named(v);
        assert(all.drop_last() =~= diagnose::labels::named(v.drop_last()));
        assert(all.last() == (v.last().0, v.last().1@));
    }
}

/// A look at the driver of a device is seen whole.
pub proof fn law_looks_are_seen(seen: Option<Option<String>>)
    ensures
        match seen {
            Some(o) => crate::execute::polling::look_text(seen) matches Some(t) && same_option(
                o,
                t,
            ),
            None => crate::execute::polling::look_text(seen) is None,
        },
{
}

} // verus!
