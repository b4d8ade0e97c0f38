//! One cycle: unbind the drivers, write the sizes, remove and rescan the bridges, bind the drivers
//! again. The cycle is a list of tasks; the caller performs each and reports what it came to.

use vstd::prelude::*;

use crate::manifest::{self, FileOutcome};
use crate::number::{self, dec_text};
use crate::pci::device::DeviceView;
use crate::pci::Bdf;
use crate::plan::{self, Action, ActionView, Plan};
use crate::text::{self, copied_opt, owned};
use crate::topology::{self, distinct};

verus! {

/// A device whose driver has to let go of it, and that driver.
#[derive(Debug)]
pub struct Target {
    pub bdf: Bdf,
    pub driver: Option<String>,
}

/// The contents of a [`Target`].
#[verifier::ext_equal]
pub struct TargetView {
    pub bdf: Bdf,
    pub driver: Option<Seq<char>>,
}

impl View for Target {
    type V = TargetView;

    open spec fn view(&self) -> TargetView {
        TargetView { bdf: self.bdf, driver: text::opt_text(self.driver) }
    }
}

/// The contents of a list of targets.
pub open spec fn target_views(v: Seq<Target>) -> Seq<TargetView> {
    Seq::new(v.len(), |i: int| v[i]@)
}

/// The companions of an action. No driver was noted for them.
pub open spec fn companion_slots(companions: Seq<Bdf>) -> Seq<TargetView> {
    Seq::new(companions.len(), |i: int| TargetView { bdf: companions[i], driver: None })
}

/// The devices that a plan touches, with the drivers it notes: each GPU, followed by its
/// companions.
pub open spec fn slots(actions: Seq<ActionView>) -> Seq<TargetView>
    decreases actions.len(),
{
    if actions.len() == 0 {
        seq![]
    } else {
        let a = actions.last();
        slots(actions.drop_last()).push(TargetView { bdf: a.bdf, driver: a.driver })
            + companion_slots(a.companions)
    }
}

/// The devices that a plan touches, with the drivers it notes: each GPU, followed by its
/// companions.
pub fn unbind_slots(plan: &Plan) -> (r: Vec<Target>)
    ensures
        target_views(r@) == slots(plan@.actions),
{
    let mut r: Vec<Target> = Vec::new();
    let ghost all = plan@.actions;
    let mut i: usize = 0;
    assert(all.take(0) =~= seq![]);
    assert(target_views(r@) =~= seq![]);
    while i < plan.actions.len()
        invariant
            i <= plan.actions.len(),
            all == plan@.actions,
            target_views(r@) == slots(all.take(i as int)),
        decreases plan.actions.len() - i,
    {
        let a = &plan.actions[i];
        assert(all.take(i + 1).drop_last() =~= all.take(i as int));
        assert(all.take(i + 1).last() == a@);
        let ghost before = target_views(r@);
        let gpu = Target { bdf: a.bdf, driver: copied_opt(&a.driver) };
        r.push(gpu);
        let ghost with_gpu = before.push(TargetView { bdf: a@.bdf, driver: a@.driver });
        assert(target_views(r@) =~= with_gpu);
        let mut j: usize = 0;
        assert(with_gpu + companion_slots(a@.companions.take(0)) =~= with_gpu);
        while j < a.companions.len()
            invariant
                j <= a.companions.len(),
                target_views(r@) == with_gpu + companion_slots(a@.companions.take(j as int)),
            decreases a.companions.len() - j,
        {
            let ghost so_far = target_views(r@);
            let c = Target { bdf: a.companions[j], driver: None };
            r.push(c);
            j += 1;
            assert(target_views(r@) =~= so_far.push(c@));
            assert(target_views(r@) =~= with_gpu + companion_slots(a@.companions.take(j as int)));
        }
        assert(a@.companions.take(j as int) =~= a@.companions);
        i += 1;
    }
    assert(all.take(i as int) =~= all);
    r
}

/// The contents of a list of optional texts.
pub open spec fn opt_texts(v: Seq<Option<String>>) -> Seq<Option<Seq<char>>> {
    Seq::new(v.len(), |i: int| text::opt_text(v[i]))
}

/// The driver to unbind: the one that is bound now, else the one that the plan notes.
pub open spec fn driver_to_unbind(bound: Option<Seq<char>>, noted: Option<Seq<char>>) -> Option<
    Seq<char>,
> {
    if bound is Some {
        bound
    } else {
        noted
    }
}

/// The devices that a plan touches, with the drivers to unbind, given the driver that is bound to
/// each of them now.
pub open spec fn unbind_targets(actions: Seq<ActionView>, bound: Seq<Option<Seq<char>>>) -> Seq<
    TargetView,
> {
    let all = slots(actions);
    Seq::new(
        all.len(),
        |i: int|
            TargetView { bdf: all[i].bdf, driver: driver_to_unbind(bound[i], all[i].driver) },
    )
}

/// The devices that a plan touches, with the drivers to unbind. `bound` holds the driver that is
/// bound now to each device of `unbind_slots`, in the same order.
pub fn collect_unbind_targets(plan: &Plan, bound: &Vec<Option<String>>) -> (r: Vec<Target>)
    requires
        bound@.len() == slots(plan@.actions).len(),
    ensures
        target_views(r@) == unbind_targets(plan@.actions, opt_texts(bound@)),
{
    let all = unbind_slots(plan);
    let ghost wanted = unbind_targets(plan@.actions, opt_texts(bound@));
    let mut r: Vec<Target> = Vec::new();
    let mut i: usize = 0;
    assert(target_views(r@) =~= wanted.take(0));
    while i < all.len()
        invariant
            i <= all.len(),
            all.len() == bound.len(),
            wanted == unbind_targets(plan@.actions, opt_texts(bound@)),
            target_views(all@) == slots(plan@.actions),
            target_views(r@) == wanted.take(i as int),
        decreases all.len() - i,
    {
        let driver = match &bound[i] {
            Some(d) => Some(owned(d.as_str())),
            None => copied_opt(&all[i].driver),
        };
        let t = Target { bdf: all[i].bdf, driver };
        assert(target_views(all@)[i as int] == all@[i as int]@);
        assert(opt_texts(bound@)[i as int] == text::opt_text(bound@[i as int]));
        assert(t@ == wanted[i as int]);
        let ghost before = target_views(r@);
        r.push(t);
        i += 1;
        assert(target_views(r@) =~= before.push(t@));
        assert(wanted.take(i as int) =~= wanted.take(i - 1).push(wanted[i - 1]));
    }
    assert(wanted.take(i as int) =~= wanted);
    r
}

// ---------------------------------------------------------------- tasks

/// What a task does to the machine.
#[derive(Debug)]
pub enum Effect {
    /// Nothing.
    Nothing,
    /// Unbind a driver from a device.
    Unbind { bdf: Bdf, driver: String },
    /// Write a size index to a Resizable BAR control register.
    WriteSize { bdf: Bdf, cap_offset: usize, entry_index: u8, size_index: u8 },
    /// Remove a device, and all below it, from the PCI tree.
    Remove(Bdf),
    /// Let some seconds pass.
    Sleep(u64),
    /// Rescan the PCI bus.
    Rescan,
    /// Wait until a device is there, for some seconds at most.
    WaitFor { bdf: Bdf, seconds: u64 },
    /// See to it that a driver is bound to a device; wait for that for some seconds at most before
    /// binding it.
    Bind { bdf: Bdf, driver: String, seconds: u64 },
    /// Compare the sizes of the BARs with the targets.
    Verify,
}

/// The contents of an [`Effect`].
pub enum EffectView {
    Nothing,
    Unbind { bdf: Bdf, driver: Seq<char> },
    WriteSize { bdf: Bdf, cap_offset: usize, entry_index: u8, size_index: u8 },
    Remove(Bdf),
    Sleep(u64),
    Rescan,
    WaitFor { bdf: Bdf, seconds: u64 },
    Bind { bdf: Bdf, driver: Seq<char>, seconds: u64 },
    Verify,
}

impl View for Effect {
    type V = EffectView;

    open spec fn view(&self) -> EffectView {
        match self {
            Effect::Nothing => EffectView::Nothing,
            Effect::Unbind { bdf, driver } => EffectView::Unbind { bdf: *bdf, driver: driver@ },
            Effect::WriteSize { bdf, cap_offset, entry_index, size_index } => EffectView::WriteSize {
                bdf: *bdf,
                cap_offset: *cap_offset,
                entry_index: *entry_index,
                size_index: *size_index,
            },
            Effect::Remove(b) => EffectView::Remove(*b),
            Effect::Sleep(s) => EffectView::Sleep(*s),
            Effect::Rescan => EffectView::Rescan,
            Effect::WaitFor { bdf, seconds } => EffectView::WaitFor {
                bdf: *bdf,
                seconds: *seconds,
            },
            Effect::Bind { bdf, driver, seconds } => EffectView::Bind {
                bdf: *bdf,
                driver: driver@,
                seconds: *seconds,
            },
            Effect::Verify => EffectView::Verify,
        }
    }
}

/// What follows when a task fails.
#[derive(Debug)]
pub enum OnFailure {
    /// The cycle stops.
    Stop,
    /// The cycle goes on after a warning: this text, followed by the reason.
    Warn(String),
    /// The cycle goes on.
    Ignore,
}

/// The contents of an [`OnFailure`].
pub enum OnFailureView {
    Stop,
    Warn(Seq<char>),
    Ignore,
}

impl View for OnFailure {
    type V = OnFailureView;

    open spec fn view(&self) -> OnFailureView {
        match self {
            OnFailure::Stop => OnFailureView::Stop,
            OnFailure::Warn(s) => OnFailureView::Warn(s@),
            OnFailure::Ignore => OnFailureView::Ignore,
        }
    }
}

/// A task of the cycle: what it does, the line that tells of its success, and what follows when it
/// fails.
#[derive(Debug)]
pub struct Task {
    pub effect: Effect,
    pub told: Option<String>,
    pub on_failure: OnFailure,
}

/// The contents of a [`Task`].
pub struct TaskView {
    pub effect: EffectView,
    pub told: Option<Seq<char>>,
    pub on_failure: OnFailureView,
}

impl View for Task {
    type V = TaskView;

    open spec fn view(&self) -> TaskView {
        TaskView {
            effect: self.effect@,
            told: text::opt_text(self.told),
            on_failure: self.on_failure@,
        }
    }
}

/// The contents of a list of tasks.
pub open spec fn task_views(v: Seq<Task>) -> Seq<TaskView> {
    Seq::new(v.len(), |i: int| v[i]@)
}

/// A task that only tells something.
pub open spec fn tell(line: Seq<char>) -> TaskView {
    TaskView { effect: EffectView::Nothing, told: Some(line), on_failure: OnFailureView::Stop }
}

/// A task that tells nothing and stops the cycle when it fails.
pub open spec fn silent(effect: EffectView) -> TaskView {
    TaskView { effect, told: None, on_failure: OnFailureView::Stop }
}

/// Unbinds driver `d` from the device `b`.
pub open spec fn unbind_task(b: Bdf, d: Seq<char>) -> TaskView {
    TaskView {
        effect: EffectView::Unbind { bdf: b, driver: d },
        told: Some("  unbound "@ + d + " from "@ + b.text()),
        on_failure: OnFailureView::Warn("  warn: unbind "@ + d + " from "@ + b.text() + ": "@),
    }
}

/// Writes the target size of an action, unless it is the size that the BAR has.
pub open spec fn write_task(a: ActionView) -> TaskView {
    if a.target_size_index == a.original_size_index {
        tell(
            "  "@ + a.bdf.text() + " BAR "@ + number::dec(a.bar_index as nat)
                + " already at size idx "@ + number::dec(a.original_size_index as nat)
                + " — skipping write"@,
        )
    } else {
        TaskView {
            effect: EffectView::WriteSize {
                bdf: a.bdf,
                cap_offset: a.rebar_cap_offset,
                entry_index: a.rebar_entry_index,
                size_index: a.target_size_index,
            },
            told: Some(
                "  "@ + a.bdf.text() + " BAR "@ + number::dec(a.bar_index as nat) + ": size idx "@
                    + number::dec(a.original_size_index as nat) + " → "@ + number::dec(
                    a.target_size_index as nat,
                ),
            ),
            on_failure: OnFailureView::Stop,
        }
    }
}

/// Removes the bridge `b`.
pub open spec fn remove_task(b: Bdf) -> TaskView {
    TaskView {
        effect: EffectView::Remove(b),
        told: Some("  removed "@ + b.text()),
        on_failure: OnFailureView::Stop,
    }
}

/// Waits for the device `b`.
pub open spec fn wait_task(b: Bdf) -> TaskView {
    TaskView {
        effect: EffectView::WaitFor { bdf: b, seconds: 15 },
        told: Some("  "@ + b.text() + " is back"@),
        on_failure: OnFailureView::Stop,
    }
}

/// Sees to it that driver `d` is bound to the device `b`.
pub open spec fn bind_task(b: Bdf, d: Seq<char>) -> TaskView {
    TaskView {
        effect: EffectView::Bind { bdf: b, driver: d, seconds: 15 },
        told: Some("  "@ + b.text() + " bound to "@ + d),
        on_failure: OnFailureView::Warn(
            "  warn: "@ + b.text() + " could not be bound to "@ + d + ": "@,
        ),
    }
}

/// Tries to have driver `d` bound to the device `b` after a failure.
pub open spec fn rebind_task(b: Bdf, d: Seq<char>) -> TaskView {
    best_effort(EffectView::Bind { bdf: b, driver: d, seconds: 5 })
}

/// The tasks that unbind the drivers.
pub open spec fn unbind_tasks(targets: Seq<TargetView>) -> Seq<TaskView> {
    targets.filter_map(
        |t: TargetView|
            match t.driver {
                Some(d) => Some(unbind_task(t.bdf, d)),
                None => None::<TaskView>,
            },
    )
}

/// The tasks that write the sizes.
pub open spec fn write_tasks(actions: Seq<ActionView>) -> Seq<TaskView> {
    Seq::new(actions.len(), |i: int| write_task(actions[i]))
}

/// The tasks that remove the bridges.
pub open spec fn remove_tasks(cuts: Seq<Bdf>) -> Seq<TaskView> {
    Seq::new(cuts.len(), |i: int| remove_task(cuts[i]))
}

/// The tasks that wait for the GPUs.
pub open spec fn wait_tasks(actions: Seq<ActionView>) -> Seq<TaskView> {
    Seq::new(actions.len(), |i: int| wait_task(actions[i].bdf))
}

/// The tasks that bind the drivers again.
pub open spec fn bind_tasks(targets: Seq<TargetView>) -> Seq<TaskView> {
    targets.filter_map(
        |t: TargetView|
            match t.driver {
                Some(d) => Some(bind_task(t.bdf, d)),
                None => None::<TaskView>,
            },
    )
}

/// The tasks that try to bind the drivers again after a failure.
pub open spec fn rebind_tasks(targets: Seq<TargetView>) -> Seq<TaskView> {
    targets.filter_map(
        |t: TargetView|
            match t.driver {
                Some(d) => Some(rebind_task(t.bdf, d)),
                None => None::<TaskView>,
            },
    )
}

/// The bridges above the GPUs of a plan.
pub open spec fn plan_cuts(actions: Seq<ActionView>) -> Seq<Bdf> {
    Seq::new(actions.len(), |i: int| actions[i].cut_point)
}

/// `s` lists the bridges above the GPUs of a plan: each once, in ascending order.
pub open spec fn lists_cuts(actions: Seq<ActionView>, s: Seq<Bdf>) -> bool {
    &&& topology::strictly_ascending(s)
    &&& forall|b: Bdf| #[trigger] s.contains(b) <==> plan_cuts(actions).contains(b)
}

/// The bridges above the GPUs of a plan: each once, in ascending order.
pub open spec fn cut_points(actions: Seq<ActionView>) -> Seq<Bdf> {
    choose|s: Seq<Bdf>| lists_cuts(actions, s)
}

/// The tasks of the cycle, with `cuts` as the bridges to remove.
pub open spec fn schedule_with(
    actions: Seq<ActionView>,
    targets: Seq<TargetView>,
    cuts: Seq<Bdf>,
) -> Seq<TaskView> {
    seq![tell("[step 1] unbinding drivers"@)] + unbind_tasks(targets) + seq![
        tell("[step 2] writing rebar CTRL registers"@),
    ] + write_tasks(actions) + seq![tell("[step 3] removing cut-point bridges"@)] + remove_tasks(
        cuts,
    ) + seq![
        silent(EffectView::Sleep(2)),
        tell("[step 4] rescanning PCI bus"@),
        silent(EffectView::Rescan),
        tell("[step 5] waiting for devices to reappear"@),
    ] + wait_tasks(actions) + seq![tell("[step 6] waiting for drivers to bind (udev)"@)]
        + bind_tasks(targets) + seq![
        tell("[step 7] verifying BAR sizes"@),
        silent(EffectView::Verify),
    ]
}

/// The tasks of the cycle for a plan.
pub open spec fn schedule(actions: Seq<ActionView>, targets: Seq<TargetView>) -> Seq<TaskView> {
    schedule_with(actions, targets, cut_points(actions))
}

/// A task that tells nothing and whose failure is ignored.
pub open spec fn best_effort(effect: EffectView) -> TaskView {
    TaskView { effect, told: None, on_failure: OnFailureView::Ignore }
}

/// The tasks that follow a cycle that stopped: a rescan, and an attempt to bind every driver that
/// was to be unbound.
pub open spec fn recovery_of(targets: Seq<TargetView>) -> Seq<TaskView> {
    seq![
        tell("[RECOVERY] attempting best-effort rescan and rebind after failure"@),
        best_effort(EffectView::Rescan),
        best_effort(EffectView::Sleep(3)),
    ] + rebind_tasks(targets) + seq![
        tell("[RECOVERY] done; inspect `lspci` and `dmesg` for state"@),
    ]
}

fn push_task(tasks: &mut Vec<Task>, t: Task)
    ensures
        task_views(final(tasks)@) == task_views(old(tasks)@).push(t@),
{
    tasks.push(t);
    assert(task_views(tasks@) =~= task_views(old(tasks)@).push(t@));
}

fn push_told(tasks: &mut Vec<Task>, line: &str)
    ensures
        task_views(final(tasks)@) == task_views(old(tasks)@) + seq![tell(line@)],
{
    push_task(
        tasks,
        Task { effect: Effect::Nothing, told: Some(owned(line)), on_failure: OnFailure::Stop },
    );
    assert(task_views(old(tasks)@).push(tell(line@)) =~= task_views(old(tasks)@) + seq![
        tell(line@),
    ]);
}

fn make_unbind(b: Bdf, d: &str) -> (t: Task)
    ensures
        t@ == unbind_task(b, d@),
{
    let mut told = owned("  unbound ");
    told.append(d);
    told.append(" from ");
    told.append(b.to_string().as_str());
    let mut warning = owned("  warn: unbind ");
    warning.append(d);
    warning.append(" from ");
    warning.append(b.to_string().as_str());
    warning.append(": ");
    Task {
        effect: Effect::Unbind { bdf: b, driver: owned(d) },
        told: Some(told),
        on_failure: OnFailure::Warn(warning),
    }
}

fn make_write(a: &Action) -> (t: Task)
    ensures
        t@ == write_task(a@),
{
    let mut told = owned("  ");
    told.append(a.bdf.to_string().as_str());
    told.append(" BAR ");
    told.append(dec_text(a.bar_index as u64).as_str());
    if a.target_size_index == a.original_size_index {
        told.append(" already at size idx ");
        told.append(dec_text(a.original_size_index as u64).as_str());
        told.append(" — skipping write");
        Task { effect: Effect::Nothing, told: Some(told), on_failure: OnFailure::Stop }
    } else {
        told.append(": size idx ");
        told.append(dec_text(a.original_size_index as u64).as_str());
        told.append(" → ");
        told.append(dec_text(a.target_size_index as u64).as_str());
        Task {
            effect: Effect::WriteSize {
                bdf: a.bdf,
                cap_offset: a.rebar_cap_offset,
                entry_index: a.rebar_entry_index,
                size_index: a.target_size_index,
            },
            told: Some(told),
            on_failure: OnFailure::Stop,
        }
    }
}

fn make_remove(b: Bdf) -> (t: Task)
    ensures
        t@ == remove_task(b),
{
    let mut told = owned("  removed ");
    told.append(b.to_string().as_str());
    Task { effect: Effect::Remove(b), told: Some(told), on_failure: OnFailure::Stop }
}

fn make_wait(b: Bdf) -> (t: Task)
    ensures
        t@ == wait_task(b),
{
    let mut told = owned("  ");
    told.append(b.to_string().as_str());
    told.append(" is back");
    Task {
        effect: Effect::WaitFor { bdf: b, seconds: 15 },
        told: Some(told),
        on_failure: OnFailure::Stop,
    }
}

fn make_bind(b: Bdf, d: &str) -> (t: Task)
    ensures
        t@ == bind_task(b, d@),
{
    let mut told = owned("  ");
    told.append(b.to_string().as_str());
    told.append(" bound to ");
    told.append(d);
    let mut warning = owned("  warn: ");
    warning.append(b.to_string().as_str());
    warning.append(" could not be bound to ");
    warning.append(d);
    warning.append(": ");
    Task {
        effect: Effect::Bind { bdf: b, driver: owned(d), seconds: 15 },
        told: Some(told),
        on_failure: OnFailure::Warn(warning),
    }
}

fn push_unbinds(tasks: &mut Vec<Task>, targets: &Vec<Target>)
    ensures
        task_views(final(tasks)@) == task_views(old(tasks)@) + unbind_tasks(
            target_views(targets@),
        ),
{
    let ghost start = task_views(tasks@);
    let ghost all = target_views(targets@);
    let mut i: usize = 0;
    assert(unbind_tasks(all.take(0)) =~= seq![]);
    assert(start + seq![] =~= start);
    while i < targets.len()
        invariant
            i <= targets.len(),
            all == target_views(targets@),
            task_views(tasks@) == start + unbind_tasks(all.take(i as int)),
        decreases targets.len() - i,
    {
        assert(all.take(i + 1).drop_last() =~= all.take(i as int));
        assert(all.take(i + 1).last() == targets@[i as int]@);
        let ghost before = unbind_tasks(all.take(i as int));
        match &targets[i].driver {
            Some(d) => {
                let t = make_unbind(targets[i].bdf, d.as_str());
                push_task(tasks, t);
                assert((start + before).push(t@) =~= start + before.push(t@));
                assert(before.push(t@) =~= before + seq![t@]);
            },
            None => {},
        }
        i += 1;
    }
    assert(all.take(i as int) =~= all);
}

fn push_binds(tasks: &mut Vec<Task>, targets: &Vec<Target>)
    ensures
        task_views(final(tasks)@) == task_views(old(tasks)@) + bind_tasks(target_views(targets@)),
{
    let ghost start = task_views(tasks@);
    let ghost all = target_views(targets@);
    let mut i: usize = 0;
    assert(bind_tasks(all.take(0)) =~= seq![]);
    assert(start + seq![] =~= start);
    while i < targets.len()
        invariant
            i <= targets.len(),
            all == target_views(targets@),
            task_views(tasks@) == start + bind_tasks(all.take(i as int)),
        decreases targets.len() - i,
    {
        assert(all.take(i + 1).drop_last() =~= all.take(i as int));
        assert(all.take(i + 1).last() == targets@[i as int]@);
        let ghost before = bind_tasks(all.take(i as int));
        match &targets[i].driver {
            Some(d) => {
                let t = make_bind(targets[i].bdf, d.as_str());
                push_task(tasks, t);
                assert((start + before).push(t@) =~= start + before.push(t@));
                assert(before.push(t@) =~= before + seq![t@]);
            },
            None => {},
        }
        i += 1;
    }
    assert(all.take(i as int) =~= all);
}

fn push_rebinds(tasks: &mut Vec<Task>, targets: &Vec<Target>)
    ensures
        task_views(final(tasks)@) == task_views(old(tasks)@) + rebind_tasks(
            target_views(targets@),
        ),
{
    let ghost start = task_views(tasks@);
    let ghost all = target_views(targets@);
    let mut i: usize = 0;
    assert(rebind_tasks(all.take(0)) =~= seq![]);
    assert(start + seq![] =~= start);
    while i < targets.len()
        invariant
            i <= targets.len(),
            all == target_views(targets@),
            task_views(tasks@) == start + rebind_tasks(all.take(i as int)),
        decreases targets.len() - i,
    {
        assert(all.take(i + 1).drop_last() =~= all.take(i as int));
        assert(all.take(i + 1).last() == targets@[i as int]@);
        let ghost before = rebind_tasks(all.take(i as int));
        match &targets[i].driver {
            Some(d) => {
                let t = Task {
                    effect: Effect::Bind {
                        bdf: targets[i].bdf,
                        driver: owned(d.as_str()),
                        seconds: 5,
                    },
                    told: None,
                    on_failure: OnFailure::Ignore,
                };
                assert(t@ == rebind_task(targets@[i as int].bdf, d@));
                push_task(tasks, t);
                assert((start + before).push(t@) =~= start + before.push(t@));
                assert(before.push(t@) =~= before + seq![t@]);
            },
            None => {},
        }
        i += 1;
    }
    assert(all.take(i as int) =~= all);
}

fn push_writes(tasks: &mut Vec<Task>, plan: &Plan)
    ensures
        task_views(final(tasks)@) == task_views(old(tasks)@) + write_tasks(plan@.actions),
{
    let ghost start = task_views(tasks@);
    let ghost all = plan@.actions;
    let mut i: usize = 0;
    assert(start + write_tasks(all.take(0)) =~= start);
    while i < plan.actions.len()
        invariant
            i <= plan.actions.len(),
            all == plan@.actions,
            task_views(tasks@) == start + write_tasks(all.take(i as int)),
        decreases plan.actions.len() - i,
    {
        let t = make_write(&plan.actions[i]);
        assert(t@ == write_task(all[i as int]));
        push_task(tasks, t);
        i += 1;
        assert((start + write_tasks(all.take(i - 1))).push(t@) =~= start + write_tasks(
            all.take(i as int),
        ));
    }
    assert(all.take(i as int) =~= all);
}

fn push_waits(tasks: &mut Vec<Task>, plan: &Plan)
    ensures
        task_views(final(tasks)@) == task_views(old(tasks)@) + wait_tasks(plan@.actions),
{
    let ghost start = task_views(tasks@);
    let ghost all = plan@.actions;
    let mut i: usize = 0;
    assert(start + wait_tasks(all.take(0)) =~= start);
    while i < plan.actions.len()
        invariant
            i <= plan.actions.len(),
            all == plan@.actions,
            task_views(tasks@) == start + wait_tasks(all.take(i as int)),
        decreases plan.actions.len() - i,
    {
        let t = make_wait(plan.actions[i].bdf);
        assert(t@ == wait_task(all[i as int].bdf));
        push_task(tasks, t);
        i += 1;
        assert((start + wait_tasks(all.take(i - 1))).push(t@) =~= start + wait_tasks(
            all.take(i as int),
        ));
    }
    assert(all.take(i as int) =~= all);
}

fn push_removals(tasks: &mut Vec<Task>, cuts: &Vec<Bdf>)
    ensures
        task_views(final(tasks)@) == task_views(old(tasks)@) + remove_tasks(cuts@),
{
    let ghost start = task_views(tasks@);
    let mut i: usize = 0;
    assert(start + remove_tasks(cuts@.take(0)) =~= start);
    while i < cuts.len()
        invariant
            i <= cuts.len(),
            task_views(tasks@) == start + remove_tasks(cuts@.take(i as int)),
        decreases cuts.len() - i,
    {
        let t = make_remove(cuts[i]);
        push_task(tasks, t);
        i += 1;
        assert((start + remove_tasks(cuts@.take(i - 1))).push(t@) =~= start + remove_tasks(
            cuts@.take(i as int),
        ));
    }
    assert(cuts@.take(i as int) =~= cuts@);
}

fn find_cuts(plan: &Plan) -> (r: Vec<Bdf>)
    ensures
        r@ == cut_points(plan@.actions),
        lists_cuts(plan@.actions, r@),
{
    let ghost all = plan@.actions;
    let mut v: Vec<Bdf> = Vec::new();
    let mut i: usize = 0;
    assert(v@ =~= plan_cuts(all.take(0)));
    while i < plan.actions.len()
        invariant
            i <= plan.actions.len(),
            all == plan@.actions,
            v@ == plan_cuts(all.take(i as int)),
        decreases plan.actions.len() - i,
    {
        assert(all[i as int] == plan.actions@[i as int]@);
        v.push(plan.actions[i].cut_point);
        i += 1;
        assert(v@ =~= plan_cuts(all.take(i as int)));
    }
    assert(all.take(i as int) =~= all);
    let r = distinct(&v);
    assert(lists_cuts(all, r@));
    proof {
        topology::lemma_strictly_ascending_unique(r@, cut_points(all));
    }
    r
}

/// The tasks of the cycle: unbind, write the sizes, remove the bridges, rescan, wait for the
/// devices, bind, verify.
pub fn run_plan(plan: &Plan, targets: &Vec<Target>) -> (r: Vec<Task>)
    ensures
        task_views(r@) == schedule(plan@.actions, target_views(targets@)),
{
    let cuts = find_cuts(plan);
    let mut r: Vec<Task> = Vec::new();
    assert(task_views(r@) =~= seq![]);
    push_told(&mut r, "[step 1] unbinding drivers");
    assert(task_views(r@) =~= seq![tell("[step 1] unbinding drivers"@)]);
    push_unbinds(&mut r, targets);
    push_told(&mut r, "[step 2] writing rebar CTRL registers");
    push_writes(&mut r, plan);
    push_told(&mut r, "[step 3] removing cut-point bridges");
    push_removals(&mut r, &cuts);
    let ghost before = task_views(r@);
    push_task(
        &mut r,
        Task { effect: Effect::Sleep(2), told: None, on_failure: OnFailure::Stop },
    );
    push_told(&mut r, "[step 4] rescanning PCI bus");
    push_task(
        &mut r,
        Task { effect: Effect::Rescan, told: None, on_failure: OnFailure::Stop },
    );
    push_told(&mut r, "[step 5] waiting for devices to reappear");
    assert(task_views(r@) =~= before + seq![
        silent(EffectView::Sleep(2)),
        tell("[step 4] rescanning PCI bus"@),
        silent(EffectView::Rescan),
        tell("[step 5] waiting for devices to reappear"@),
    ]);
    push_waits(&mut r, plan);
    push_told(&mut r, "[step 6] waiting for drivers to bind (udev)");
    push_binds(&mut r, targets);
    let ghost before = task_views(r@);
    push_told(&mut r, "[step 7] verifying BAR sizes");
    push_task(
        &mut r,
        Task { effect: Effect::Verify, told: None, on_failure: OnFailure::Stop },
    );
    assert(task_views(r@) =~= before + seq![
        tell("[step 7] verifying BAR sizes"@),
        silent(EffectView::Verify),
    ]);
    r
}

/// The tasks that follow a cycle that stopped before its end.
pub fn recovery(targets: &Vec<Target>) -> (r: Vec<Task>)
    ensures
        task_views(r@) == recovery_of(target_views(targets@)),
{
    let mut r: Vec<Task> = Vec::new();
    assert(task_views(r@) =~= seq![]);
    push_told(&mut r, "[RECOVERY] attempting best-effort rescan and rebind after failure");
    push_task(
        &mut r,
        Task { effect: Effect::Rescan, told: None, on_failure: OnFailure::Ignore },
    );
    push_task(
        &mut r,
        Task { effect: Effect::Sleep(3), told: None, on_failure: OnFailure::Ignore },
    );
    assert(task_views(r@) =~= seq![
        tell("[RECOVERY] attempting best-effort rescan and rebind after failure"@),
        best_effort(EffectView::Rescan),
        best_effort(EffectView::Sleep(3)),
    ]);
    push_rebinds(&mut r, targets);
    push_told(&mut r, "[RECOVERY] done; inspect `lspci` and `dmesg` for state");
    r
}

// ---------------------------------------------------------------- performing the tasks

/// What follows a task that was performed.
#[derive(Debug)]
pub enum Reaction {
    /// Go on, after telling this line, if any.
    Go(Option<String>),
    /// Stop with this error.
    Stop(String),
}

/// The contents of a [`Reaction`].
pub enum ReactionView {
    Go(Option<Seq<char>>),
    Stop(Seq<char>),
}

impl View for Reaction {
    type V = ReactionView;

    open spec fn view(&self) -> ReactionView {
        match self {
            Reaction::Go(line) => ReactionView::Go(text::opt_text(*line)),
            Reaction::Stop(e) => ReactionView::Stop(e@),
        }
    }
}

/// What follows a task that came to `outcome`.
pub open spec fn reaction_to(t: TaskView, outcome: Result<(), Seq<char>>) -> ReactionView {
    match outcome {
        Ok(()) => ReactionView::Go(t.told),
        Err(e) => match t.on_failure {
            OnFailureView::Stop => ReactionView::Stop(e),
            OnFailureView::Warn(warning) => ReactionView::Go(Some(warning + e)),
            OnFailureView::Ignore => ReactionView::Go(None),
        },
    }
}

/// Decides what follows a task that was performed.
pub fn react(t: &Task, outcome: &Result<(), String>) -> (r: Reaction)
    ensures
        r@ == reaction_to(t@, manifest::attempt(*outcome)),
{
    match outcome {
        Ok(()) => Reaction::Go(copied_opt(&t.told)),
        Err(e) => match &t.on_failure {
            OnFailure::Stop => Reaction::Stop(owned(e.as_str())),
            OnFailure::Warn(warning) => {
                let mut line = owned(warning.as_str());
                line.append(e.as_str());
                Reaction::Go(Some(line))
            },
            OnFailure::Ignore => Reaction::Go(None),
        },
    }
}

/// The contents of a list of outcomes.
pub open spec fn attempts(v: Seq<Result<(), String>>) -> Seq<Result<(), Seq<char>>> {
    Seq::new(v.len(), |i: int| manifest::attempt(v[i]))
}

/// The error that stopped the cycle, given what the first tasks came to.
pub open spec fn stopped(tasks: Seq<TaskView>, outcomes: Seq<Result<(), Seq<char>>>) -> Option<
    Seq<char>,
>
    decreases outcomes.len(),
{
    if outcomes.len() == 0 {
        None
    } else {
        match stopped(tasks, outcomes.drop_last()) {
            Some(e) => Some(e),
            None => match reaction_to(tasks[outcomes.len() - 1], outcomes.last()) {
                ReactionView::Stop(e) => Some(e),
                ReactionView::Go(_) => None,
            },
        }
    }
}

/// The state of a cycle.
#[derive(Debug)]
pub enum CycleStep {
    /// The task at this position comes next.
    Perform(usize),
    /// All tasks were performed.
    Done,
    /// The cycle stopped with this error, and the recovery comes next.
    Stopped(String),
}

/// The contents of a [`CycleStep`].
pub enum CycleStepView {
    Perform(int),
    Done,
    Stopped(Seq<char>),
}

impl View for CycleStep {
    type V = CycleStepView;

    open spec fn view(&self) -> CycleStepView {
        match self {
            CycleStep::Perform(i) => CycleStepView::Perform(*i as int),
            CycleStep::Done => CycleStepView::Done,
            CycleStep::Stopped(e) => CycleStepView::Stopped(e@),
        }
    }
}

/// The state of a cycle, given what the first tasks came to.
pub open spec fn cycle_step(
    tasks: Seq<TaskView>,
    outcomes: Seq<Result<(), Seq<char>>>,
) -> CycleStepView {
    match stopped(tasks, outcomes) {
        Some(e) => CycleStepView::Stopped(e),
        None => if outcomes.len() < tasks.len() {
            CycleStepView::Perform(outcomes.len() as int)
        } else {
            CycleStepView::Done
        },
    }
}

proof fn lemma_stopped_stays(
    tasks: Seq<TaskView>,
    outcomes: Seq<Result<(), Seq<char>>>,
    n: int,
)
    requires
        0 <= n <= outcomes.len(),
        stopped(tasks, outcomes.take(n)) is Some,
    ensures
        stopped(tasks, outcomes) == stopped(tasks, outcomes.take(n)),
    decreases outcomes.len() - n,
{
    if n == outcomes.len() {
        assert(outcomes.take(n) =~= outcomes);
    } else {
        assert(outcomes.take(n + 1).drop_last() =~= outcomes.take(n));
        lemma_stopped_stays(tasks, outcomes, n + 1);
    }
}

/// Decides how the cycle goes on, given what the first tasks came to.
pub fn next_task(tasks: &Vec<Task>, outcomes: &Vec<Result<(), String>>) -> (r: CycleStep)
    requires
        outcomes.len() <= tasks.len(),
    ensures
        r@ == cycle_step(task_views(tasks@), attempts(outcomes@)),
{
    let ghost all = attempts(outcomes@);
    let mut i: usize = 0;
    while i < outcomes.len()
        invariant
            i <= outcomes.len() <= tasks.len(),
            all == attempts(outcomes@),
            stopped(task_views(tasks@), all.take(i as int)) is None,
        decreases outcomes.len() - i,
    {
        assert(all.take(i + 1).drop_last() =~= all.take(i as int));
        assert(all.take(i + 1).last() == manifest::attempt(outcomes@[i as int]));
        assert(task_views(tasks@)[i as int] == tasks@[i as int]@);
        match react(&tasks[i], &outcomes[i]) {
            Reaction::Stop(e) => {
                proof {
                    lemma_stopped_stays(task_views(tasks@), all, i + 1);
                }
                return CycleStep::Stopped(e);
            },
            Reaction::Go(_) => {},
        }
        i += 1;
    }
    assert(all.take(i as int) =~= all);
    if outcomes.len() < tasks.len() {
        CycleStep::Perform(outcomes.len())
    } else {
        CycleStep::Done
    }
}

/// The tasks that follow a cycle: none where it is done, the recovery where it stopped or was
/// broken off before its end.
pub open spec fn aftermath(
    tasks: Seq<TaskView>,
    outcomes: Seq<Result<(), Seq<char>>>,
    targets: Seq<TargetView>,
) -> Seq<TaskView> {
    if cycle_step(tasks, outcomes) is Done {
        seq![]
    } else {
        recovery_of(targets)
    }
}

/// The tasks that follow a cycle, however it ended: none where it is done, the recovery otherwise.
pub fn recover(
    tasks: &Vec<Task>,
    outcomes: &Vec<Result<(), String>>,
    targets: &Vec<Target>,
) -> (r: Vec<Task>)
    requires
        outcomes.len() <= tasks.len(),
    ensures
        task_views(r@) == aftermath(
            task_views(tasks@),
            attempts(outcomes@),
            target_views(targets@),
        ),
{
    match next_task(tasks, outcomes) {
        CycleStep::Done => {
            let none: Vec<Task> = Vec::new();
            assert(task_views(none@) =~= seq![]);
            none
        },
        _ => recovery(targets),
    }
}

// ---------------------------------------------------------------- unbinding and removing

/// The file through which a driver lets go of a device.
pub open spec fn unbind_file(driver: Seq<char>) -> Seq<char> {
    "/sys/bus/pci/drivers/"@ + driver + "/unbind"@
}

/// The file through which a driver is bound to a device.
pub open spec fn bind_file(driver: Seq<char>) -> Seq<char> {
    "/sys/bus/pci/drivers/"@ + driver + "/bind"@
}

/// The file through which a driver lets go of a device.
pub fn unbind_path(driver: &str) -> (r: String)
    ensures
        r@ == unbind_file(driver@),
{
    let mut r = owned("/sys/bus/pci/drivers/");
    r.append(driver);
    r.append("/unbind");
    r
}

/// The file through which a driver is bound to a device.
pub fn bind_path(driver: &str) -> (r: String)
    ensures
        r@ == bind_file(driver@),
{
    let mut r = owned("/sys/bus/pci/drivers/");
    r.append(driver);
    r.append("/bind");
    r
}

/// The file through which a device is removed.
pub fn remove_path(bdf: Bdf) -> (r: String)
    ensures
        r@ == bdf.dir() + "/remove"@,
{
    let mut r = bdf.sysfs_dir();
    r.append("/remove");
    r
}

/// The result of unbinding a driver. A driver that is not loaded holds no device.
pub open spec fn unbinding(exists: bool, written: FileOutcome) -> Result<(), Seq<char>> {
    if exists {
        manifest::missing_is_fine(written)
    } else {
        Ok(())
    }
}

/// The result of unbinding a driver: `exists` tells whether its `unbind` file is there, `written`
/// what writing the address to it came to.
pub fn unbind_driver(exists: bool, written: &FileOutcome) -> (r: Result<(), String>)
    ensures
        manifest::attempt(r) == unbinding(exists, *written),
{
    if exists {
        manifest::ignore_missing(written)
    } else {
        Ok(())
    }
}

// ---------------------------------------------------------------- what the cycle promises

/// The step that an effect belongs to.
pub open spec fn stage(e: EffectView) -> Option<int> {
    match e {
        EffectView::Unbind { .. } => Some(1),
        EffectView::WriteSize { .. } => Some(2),
        EffectView::Remove(_) => Some(3),
        EffectView::Rescan => Some(4),
        EffectView::WaitFor { .. } => Some(5),
        EffectView::Bind { .. } => Some(6),
        EffectView::Verify => Some(7),
        EffectView::Nothing => None,
        EffectView::Sleep(_) => None,
    }
}

spec fn staged(tasks: Seq<TaskView>, low: int, high: int) -> bool {
    &&& forall|i: int|
        0 <= i < tasks.len() ==> (stage((#[trigger] tasks[i]).effect) matches Some(s) ==> low <= s
            <= high)
    &&& forall|i: int, j: int|
        0 <= i < j < tasks.len() ==> (stage((#[trigger] tasks[i]).effect) matches Some(s) ==> (
        stage((#[trigger] tasks[j]).effect) matches Some(t) ==> s <= t))
}

proof fn lemma_staged_add(a: Seq<TaskView>, b: Seq<TaskView>, low: int, middle: int, high: int)
    requires
        low <= middle <= high,
        staged(a, low, middle),
        staged(b, middle, high),
    ensures
        staged(a + b, low, high),
{
    let s = a + b;
    assert forall|i: int| 0 <= i < s.len() implies (stage((#[trigger] s[i]).effect) matches Some(
        n,
    ) ==> low <= n <= high) by {
        if i < a.len() {
            assert(s[i] == a[i]);
        } else {
            assert(s[i] == b[i - a.len()]);
        }
    }
    assert forall|i: int, j: int| 0 <= i < j < s.len() implies (stage(
        (#[trigger] s[i]).effect,
    ) matches Some(m) ==> (stage((#[trigger] s[j]).effect) matches Some(n) ==> m <= n)) by {
        if j < a.len() {
            assert(s[i] == a[i] && s[j] == a[j]);
        } else if i >= a.len() {
            assert(s[i] == b[i - a.len()] && s[j] == b[j - a.len()]);
        } else {
            assert(s[i] == a[i] && s[j] == b[j - a.len()]);
        }
    }
}

proof fn lemma_filtered_unbinds(targets: Seq<TargetView>)
    ensures
        staged(unbind_tasks(targets), 1, 1),
        staged(bind_tasks(targets), 6, 6),
    decreases targets.len(),
{
    if targets.len() > 0 {
        let front = targets.drop_last();
        lemma_filtered_unbinds(front);
        match targets.last().driver {
            Some(d) => {
                let u = seq![unbind_task(targets.last().bdf, d)];
                let b = seq![bind_task(targets.last().bdf, d)];
                assert(unbind_tasks(targets) =~= unbind_tasks(front) + u);
                assert(bind_tasks(targets) =~= bind_tasks(front) + b);
                lemma_staged_add(unbind_tasks(front), u, 1, 1, 1);
                lemma_staged_add(bind_tasks(front), b, 6, 6, 6);
            },
            None => {
                assert(unbind_tasks(targets) =~= unbind_tasks(front));
                assert(bind_tasks(targets) =~= bind_tasks(front));
            },
        }
    } else {
        assert(unbind_tasks(targets) =~= seq![]);
        assert(bind_tasks(targets) =~= seq![]);
    }
}

/// The cycle unbinds all drivers before it writes a size, writes all sizes before it removes a
/// bridge, removes all bridges before it rescans, and only then waits, binds and verifies.
#[verifier::rlimit(30)]
#[verifier::spinoff_prover]
pub proof fn law_cycle_order(actions: Seq<ActionView>, targets: Seq<TargetView>, i: int, j: int)
    requires
        0 <= i < j < schedule(actions, targets).len(),
        stage(schedule(actions, targets)[i].effect) is Some,
        stage(schedule(actions, targets)[j].effect) is Some,
    ensures
        stage(schedule(actions, targets)[i].effect)->0 <= stage(
            schedule(actions, targets)[j].effect,
        )->0,
{
    let cuts = cut_points(actions);
    lemma_filtered_unbinds(targets);
    let s1 = seq![tell("[step 1] unbinding drivers"@)];
    let a1 = s1 + unbind_tasks(targets);
    lemma_staged_add(s1, unbind_tasks(targets), 1, 1, 1);
    let s2 = seq![tell("[step 2] writing rebar CTRL registers"@)];
    let a2 = a1 + s2;
    lemma_staged_add(a1, s2, 1, 1, 1);
    let a3 = a2 + write_tasks(actions);
    lemma_staged_add(a2, write_tasks(actions), 1, 1, 2);
    let s3 = seq![tell("[step 3] removing cut-point bridges"@)];
    let a4 = a3 + s3;
    lemma_staged_add(a3, s3, 1, 2, 2);
    let a5 = a4 + remove_tasks(cuts);
    lemma_staged_add(a4, remove_tasks(cuts), 1, 2, 3);
    let s4 = seq![
        silent(EffectView::Sleep(2)),
        tell("[step 4] rescanning PCI bus"@),
        silent(EffectView::Rescan),
        tell("[step 5] waiting for devices to reappear"@),
    ];
    let a6 = a5 + s4;
    lemma_staged_add(a5, s4, 1, 3, 4);
    let a7 = a6 + wait_tasks(actions);
    lemma_staged_add(a6, wait_tasks(actions), 1, 4, 5);
    let s6 = seq![tell("[step 6] waiting for drivers to bind (udev)"@)];
    let a8 = a7 + s6;
    lemma_staged_add(a7, s6, 1, 5, 5);
    assert(staged(bind_tasks(targets), 5, 6));
    let a9 = a8 + bind_tasks(targets);
    lemma_staged_add(a8, bind_tasks(targets), 1, 5, 6);
    let s7 = seq![tell("[step 7] verifying BAR sizes"@), silent(EffectView::Verify)];
    lemma_staged_add(a9, s7, 1, 6, 7);
    assert(schedule(actions, targets) == a9 + s7);
}

/// One of the tasks has this effect.
pub open spec fn does(tasks: Seq<TaskView>, e: EffectView) -> bool {
    exists|i: int| 0 <= i < tasks.len() && (#[trigger] tasks[i]).effect == e
}

/// A target has this driver.
pub open spec fn held(targets: Seq<TargetView>, b: Bdf, d: Seq<char>) -> bool {
    exists|i: int|
        0 <= i < targets.len() && (#[trigger] targets[i]).bdf == b && targets[i].driver == Some(d)
}

/// The effects that the cycle is to have.
pub open spec fn due(actions: Seq<ActionView>, targets: Seq<TargetView>, e: EffectView) -> bool {
    match e {
        EffectView::Nothing => true,
        EffectView::Unbind { bdf, driver } => held(targets, bdf, driver),
        EffectView::WriteSize { bdf, cap_offset, entry_index, size_index } => exists|i: int|
            {
                &&& 0 <= i < actions.len()
                &&& (#[trigger] actions[i]).bdf == bdf
                &&& actions[i].rebar_cap_offset == cap_offset
                &&& actions[i].rebar_entry_index == entry_index
                &&& actions[i].target_size_index == size_index
                &&& actions[i].target_size_index != actions[i].original_size_index
            },
        EffectView::Remove(b) => exists|i: int|
            0 <= i < actions.len() && (#[trigger] actions[i]).cut_point == b,
        EffectView::Sleep(seconds) => seconds == 2,
        EffectView::Rescan => true,
        EffectView::WaitFor { bdf, seconds } => seconds == 15 && exists|i: int|
            0 <= i < actions.len() && (#[trigger] actions[i]).bdf == bdf,
        EffectView::Bind { bdf, driver, seconds } => seconds == 15 && held(targets, bdf, driver),
        EffectView::Verify => true,
    }
}

proof fn lemma_does_add(a: Seq<TaskView>, b: Seq<TaskView>, e: EffectView)
    ensures
        does(a + b, e) == (does(a, e) || does(b, e)),
{
    let s = a + b;
    if does(s, e) {
        let i = choose|i: int| 0 <= i < s.len() && (#[trigger] s[i]).effect == e;
        if i < a.len() {
            assert(a[i].effect == e);
        } else {
            assert(b[i - a.len()].effect == e);
        }
    }
    if does(a, e) {
        let i = choose|i: int| 0 <= i < a.len() && (#[trigger] a[i]).effect == e;
        assert(s[i].effect == e);
    }
    if does(b, e) {
        let i = choose|i: int| 0 <= i < b.len() && (#[trigger] b[i]).effect == e;
        assert(s[a.len() + i].effect == e);
    }
}

proof fn lemma_does_one(t: TaskView, e: EffectView)
    ensures
        does(seq![t], e) == (t.effect == e),
{
    let s = seq![t];
    assert(s[0] == t);
    if t.effect == e {
        assert(s[0].effect == e);
    }
}

proof fn lemma_held_split(targets: Seq<TargetView>, b: Bdf, d: Seq<char>)
    requires
        targets.len() > 0,
    ensures
        held(targets, b, d) == (held(targets.drop_last(), b, d) || (targets.last().bdf == b
            && targets.last().driver == Some(d))),
{
    let front = targets.drop_last();
    if held(targets, b, d) {
        let i = choose|i: int|
            0 <= i < targets.len() && (#[trigger] targets[i]).bdf == b && targets[i].driver == Some(
                d,
            );
        if i < front.len() {
            assert(front[i].bdf == b);
        }
    }
    if held(front, b, d) {
        let i = choose|i: int|
            0 <= i < front.len() && (#[trigger] front[i]).bdf == b && front[i].driver == Some(d);
        assert(targets[i].bdf == b);
    }
    if targets.last().bdf == b && targets.last().driver == Some(d) {
        assert(targets[targets.len() - 1].bdf == b);
    }
}

proof fn lemma_does_drivers(targets: Seq<TargetView>, e: EffectView)
    ensures
        does(unbind_tasks(targets), e) == (e matches EffectView::Unbind { bdf, driver } && held(
            targets,
            bdf,
            driver,
        )),
        does(bind_tasks(targets), e) == (e matches EffectView::Bind { bdf, driver, seconds }
            && seconds == 15 && held(targets, bdf, driver)),
        does(rebind_tasks(targets), e) == (e matches EffectView::Bind { bdf, driver, seconds }
            && seconds == 5 && held(targets, bdf, driver)),
    decreases targets.len(),
{
    if targets.len() > 0 {
        let front = targets.drop_last();
        let last = targets.last();
        lemma_does_drivers(front, e);
        match e {
            EffectView::Unbind { bdf, driver } => lemma_held_split(targets, bdf, driver),
            EffectView::Bind { bdf, driver, .. } => lemma_held_split(targets, bdf, driver),
            _ => {},
        }
        match last.driver {
            Some(d) => {
                let u = unbind_task(last.bdf, d);
                let b = bind_task(last.bdf, d);
                let r = rebind_task(last.bdf, d);
                assert(unbind_tasks(targets) =~= unbind_tasks(front) + seq![u]);
                assert(bind_tasks(targets) =~= bind_tasks(front) + seq![b]);
                assert(rebind_tasks(targets) =~= rebind_tasks(front) + seq![r]);
                lemma_does_add(unbind_tasks(front), seq![u], e);
                lemma_does_add(bind_tasks(front), seq![b], e);
                lemma_does_add(rebind_tasks(front), seq![r], e);
                lemma_does_one(u, e);
                lemma_does_one(b, e);
                lemma_does_one(r, e);
            },
            None => {
                assert(unbind_tasks(targets) =~= unbind_tasks(front));
                assert(bind_tasks(targets) =~= bind_tasks(front));
                assert(rebind_tasks(targets) =~= rebind_tasks(front));
            },
        }
    } else {
        assert(unbind_tasks(targets) =~= seq![]);
        assert(bind_tasks(targets) =~= seq![]);
        assert(rebind_tasks(targets) =~= seq![]);
    }
}

proof fn lemma_does_writes(actions: Seq<ActionView>, e: EffectView)
    requires
        !(e is Nothing),
    ensures
        does(write_tasks(actions), e) == (e is WriteSize && due(actions, seq![], e)),
        does(wait_tasks(actions), e) == (e is WaitFor && due(actions, seq![], e)),
{
    let w = write_tasks(actions);
    if does(w, e) {
        let i = choose|i: int| 0 <= i < w.len() && (#[trigger] w[i]).effect == e;
        assert(w[i] == write_task(actions[i]));
    }
    if e is WriteSize && due(actions, seq![], e) {
        let i = choose|i: int|
            {
                &&& 0 <= i < actions.len()
                &&& (#[trigger] actions[i]).bdf == e->WriteSize_bdf
                &&& actions[i].rebar_cap_offset == e->cap_offset
                &&& actions[i].rebar_entry_index == e->entry_index
                &&& actions[i].target_size_index == e->size_index
                &&& actions[i].target_size_index != actions[i].original_size_index
            };
        assert(w[i].effect == e);
    }
    let v = wait_tasks(actions);
    if does(v, e) {
        let i = choose|i: int| 0 <= i < v.len() && (#[trigger] v[i]).effect == e;
        assert(v[i] == wait_task(actions[i].bdf));
    }
    if e is WaitFor && due(actions, seq![], e) {
        let i = choose|i: int|
            0 <= i < actions.len() && (#[trigger] actions[i]).bdf == e->WaitFor_bdf;
        assert(v[i].effect == e);
    }
}

/// The bridges above the GPUs of a plan can be listed.
pub proof fn lemma_cut_points(actions: Seq<ActionView>)
    ensures
        lists_cuts(actions, cut_points(actions)),
{
    let all = plan_cuts(actions);
    topology::lemma_distinct_exists(all);
    let s = choose|s: Seq<Bdf>|
        topology::strictly_ascending(s) && forall|b: Bdf| #[trigger]
            s.contains(b) <==> all.contains(b);
    assert(lists_cuts(actions, s));
}

proof fn lemma_does_removals(actions: Seq<ActionView>, e: EffectView)
    ensures
        does(remove_tasks(cut_points(actions)), e) == (e is Remove && due(actions, seq![], e)),
{
    lemma_cut_points(actions);
    let cuts = cut_points(actions);
    let r = remove_tasks(cuts);
    let all = plan_cuts(actions);
    if does(r, e) {
        let i = choose|i: int| 0 <= i < r.len() && (#[trigger] r[i]).effect == e;
        assert(cuts.contains(cuts[i]));
        assert(all.contains(cuts[i]));
        let k = choose|k: int| 0 <= k < all.len() && all[k] == cuts[i];
        assert(actions[k].cut_point == cuts[i]);
    }
    match e {
        EffectView::Remove(b) => {
            if due(actions, seq![], e) {
                let k = choose|k: int|
                    0 <= k < actions.len() && (#[trigger] actions[k]).cut_point == b;
                assert(all[k] == b);
                assert(cuts.contains(b));
                let i = choose|i: int| 0 <= i < cuts.len() && cuts[i] == b;
                assert(r[i].effect == e);
            }
        },
        _ => {},
    }
}

/// What the cycle does: it has exactly the effects that are due.
pub proof fn law_cycle_effects(actions: Seq<ActionView>, targets: Seq<TargetView>, e: EffectView)
    ensures
        does(schedule(actions, targets), e) == due(actions, targets, e),
{
    let cuts = cut_points(actions);
    let s1 = seq![tell("[step 1] unbinding drivers"@)];
    let a1 = s1 + unbind_tasks(targets);
    let s2 = seq![tell("[step 2] writing rebar CTRL registers"@)];
    let a2 = a1 + s2;
    let a3 = a2 + write_tasks(actions);
    let s3 = seq![tell("[step 3] removing cut-point bridges"@)];
    let a4 = a3 + s3;
    let a5 = a4 + remove_tasks(cuts);
    let sleep = silent(EffectView::Sleep(2));
    let rescan = silent(EffectView::Rescan);
    let t4 = tell("[step 4] rescanning PCI bus"@);
    let t5 = tell("[step 5] waiting for devices to reappear"@);
    let s4 = seq![sleep, t4, rescan, t5];
    let a6 = a5 + s4;
    let a7 = a6 + wait_tasks(actions);
    let s6 = seq![tell("[step 6] waiting for drivers to bind (udev)"@)];
    let a8 = a7 + s6;
    let a9 = a8 + bind_tasks(targets);
    let t7 = tell("[step 7] verifying BAR sizes"@);
    let verify = silent(EffectView::Verify);
    let s7 = seq![t7, verify];
    assert(schedule(actions, targets) == a9 + s7);
    lemma_does_add(a9, s7, e);
    lemma_does_add(a8, bind_tasks(targets), e);
    lemma_does_add(a7, s6, e);
    lemma_does_add(a6, wait_tasks(actions), e);
    lemma_does_add(a5, s4, e);
    lemma_does_add(a4, remove_tasks(cuts), e);
    lemma_does_add(a3, s3, e);
    lemma_does_add(a2, write_tasks(actions), e);
    lemma_does_add(a1, s2, e);
    lemma_does_add(s1, unbind_tasks(targets), e);
    lemma_does_one(s1[0], e);
    lemma_does_one(s2[0], e);
    lemma_does_one(s3[0], e);
    lemma_does_one(s6[0], e);
    lemma_does_drivers(targets, e);
    lemma_does_removals(actions, e);
    assert(s4 =~= seq![sleep] + seq![t4] + seq![rescan] + seq![t5]);
    lemma_does_add(seq![sleep] + seq![t4] + seq![rescan], seq![t5], e);
    lemma_does_add(seq![sleep] + seq![t4], seq![rescan], e);
    lemma_does_add(seq![sleep], seq![t4], e);
    lemma_does_one(sleep, e);
    lemma_does_one(t4, e);
    lemma_does_one(rescan, e);
    lemma_does_one(t5, e);
    assert(s7 =~= seq![t7] + seq![verify]);
    lemma_does_add(seq![t7], seq![verify], e);
    lemma_does_one(t7, e);
    lemma_does_one(verify, e);
    if !(e is Nothing) {
        lemma_does_writes(actions, e);
    }
}

spec fn at_most_once(tasks: Seq<TaskView>, e: EffectView) -> bool {
    forall|i: int, j: int|
        0 <= i < tasks.len() && 0 <= j < tasks.len() && (#[trigger] tasks[i]).effect == e && (
        #[trigger] tasks[j]).effect == e ==> i == j
}

proof fn lemma_once_add(a: Seq<TaskView>, b: Seq<TaskView>, e: EffectView)
    requires
        at_most_once(a, e),
        at_most_once(b, e),
        !does(a, e) || !does(b, e),
    ensures
        at_most_once(a + b, e),
{
    let s = a + b;
    assert forall|i: int, j: int|
        0 <= i < s.len() && 0 <= j < s.len() && (#[trigger] s[i]).effect == e && (
        #[trigger] s[j]).effect == e implies i == j by {
        if i < a.len() {
            assert(s[i] == a[i]);
            assert(does(a, e));
        } else {
            assert(s[i] == b[i - a.len()]);
            assert(does(b, e));
        }
        if j < a.len() {
            assert(s[j] == a[j]);
            assert(does(a, e));
        } else {
            assert(s[j] == b[j - a.len()]);
            assert(does(b, e));
        }
    }
}

/// The cycle removes no bridge twice, also where several GPUs are below it.
#[verifier::rlimit(30)]
#[verifier::spinoff_prover]
pub proof fn law_bridges_removed_once(
    actions: Seq<ActionView>,
    targets: Seq<TargetView>,
    b: Bdf,
    i: int,
    j: int,
)
    requires
        0 <= i < schedule(actions, targets).len(),
        0 <= j < schedule(actions, targets).len(),
        schedule(actions, targets)[i].effect == EffectView::Remove(b),
        schedule(actions, targets)[j].effect == EffectView::Remove(b),
    ensures
        i == j,
{
    let e = EffectView::Remove(b);
    let cuts = cut_points(actions);
    lemma_cut_points(actions);
    let front = seq![tell("[step 1] unbinding drivers"@)] + unbind_tasks(targets) + seq![
        tell("[step 2] writing rebar CTRL registers"@),
    ] + write_tasks(actions) + seq![tell("[step 3] removing cut-point bridges"@)];
    let mid = remove_tasks(cuts);
    let s4 = seq![
        silent(EffectView::Sleep(2)),
        tell("[step 4] rescanning PCI bus"@),
        silent(EffectView::Rescan),
        tell("[step 5] waiting for devices to reappear"@),
    ];
    let s6 = seq![tell("[step 6] waiting for drivers to bind (udev)"@)];
    let s7 = seq![tell("[step 7] verifying BAR sizes"@), silent(EffectView::Verify)];
    let s1 = seq![tell("[step 1] unbinding drivers"@)];
    let s2 = seq![tell("[step 2] writing rebar CTRL registers"@)];
    let s3 = seq![tell("[step 3] removing cut-point bridges"@)];
    lemma_does_drivers(targets, e);
    lemma_does_writes(actions, e);
    lemma_does_add(s1, unbind_tasks(targets), e);
    lemma_does_add(s1 + unbind_tasks(targets), s2, e);
    lemma_does_add(s1 + unbind_tasks(targets) + s2, write_tasks(actions), e);
    lemma_does_add(s1 + unbind_tasks(targets) + s2 + write_tasks(actions), s3, e);
    assert(!does(front, e));
    assert(at_most_once(front, e));
    assert forall|k: int, l: int|
        0 <= k < mid.len() && 0 <= l < mid.len() && (#[trigger] mid[k]).effect == e && (
        #[trigger] mid[l]).effect == e implies k == l by {
        assert(cuts[k] == b && cuts[l] == b);
        if k < l {
            assert(cuts[k].rank() < cuts[l].rank());
        } else if l < k {
            assert(cuts[l].rank() < cuts[k].rank());
        }
    }
    assert(at_most_once(mid, e));
    lemma_once_add(front, mid, e);
    assert(!does(s4, e) && at_most_once(s4, e));
    lemma_once_add(front + mid, s4, e);
    assert(at_most_once(wait_tasks(actions), e));
    lemma_once_add(front + mid + s4, wait_tasks(actions), e);
    lemma_once_add(front + mid + s4 + wait_tasks(actions), s6, e);
    assert(at_most_once(bind_tasks(targets), e));
    lemma_once_add(front + mid + s4 + wait_tasks(actions) + s6, bind_tasks(targets), e);
    lemma_once_add(
        front + mid + s4 + wait_tasks(actions) + s6 + bind_tasks(targets),
        s7,
        e,
    );
}

/// The devices of a list of probes.
pub open spec fn probed_devices(probes: Seq<plan::ProbeView>) -> Seq<DeviceView> {
    Seq::new(probes.len(), |i: int| probes[i].device)
}

/// The bridges that the cycle of a plan removes are the cut points of the groups that its GPUs
/// form.
pub proof fn law_groups_are_removed(
    mode: plan::Mode,
    probes: Seq<plan::ProbeView>,
    groups: Seq<topology::CutGroupView>,
)
    requires
        plan::plan_of(mode, probes) is Ok,
        topology::grouped(probed_devices(plan::gpu_probes(probes)), groups),
    ensures
        cut_points(plan::plan_of(mode, probes)->Ok_0.actions) == topology::group_cuts(groups),
{
    let actions = plan::plan_of(mode, probes)->Ok_0.actions;
    let gpus = probed_devices(plan::gpu_probes(probes));
    assert(gpus.len() > 0);
    plan::law_plan_covers_gpus(mode, probes, 0);
    assert forall|i: int| 0 <= i < gpus.len() implies topology::cut_of(#[trigger] gpus[i]) == Some(
        actions[i].cut_point,
    ) by {
        plan::law_plan_covers_gpus(mode, probes, i);
    }
    topology::lemma_all_cuts(gpus);
    assert(topology::cuts(gpus) =~= plan_cuts(actions));
    lemma_cut_points(actions);
    topology::lemma_strictly_ascending_unique(
        cut_points(actions),
        topology::group_cuts(groups),
    );
}

/// A dry cycle writes no size.
pub proof fn law_dry_cycle_writes_nothing(
    probes: Seq<plan::ProbeView>,
    targets: Seq<TargetView>,
    i: int,
)
    requires
        plan::plan_of(plan::Mode::Current, probes) is Ok,
        0 <= i < schedule(
            plan::plan_of(plan::Mode::Current, probes)->Ok_0.actions,
            targets,
        ).len(),
    ensures
        !(schedule(
            plan::plan_of(plan::Mode::Current, probes)->Ok_0.actions,
            targets,
        )[i].effect is WriteSize),
{
    let actions = plan::plan_of(plan::Mode::Current, probes)->Ok_0.actions;
    let tasks = schedule(actions, targets);
    plan::law_dry_cycle_keeps_sizes(probes);
    assert(does(tasks, tasks[i].effect));
    law_cycle_effects(actions, targets, tasks[i].effect);
}

/// Every driver that the cycle unbinds it binds again, and so does the recovery.
pub proof fn law_drivers_bound_again(
    actions: Seq<ActionView>,
    targets: Seq<TargetView>,
    b: Bdf,
    d: Seq<char>,
)
    ensures
        does(schedule(actions, targets), EffectView::Unbind { bdf: b, driver: d }) <==> does(
            schedule(actions, targets),
            EffectView::Bind { bdf: b, driver: d, seconds: 15 },
        ),
        does(schedule(actions, targets), EffectView::Unbind { bdf: b, driver: d }) <==> does(
            recovery_of(targets),
            EffectView::Bind { bdf: b, driver: d, seconds: 5 },
        ),
        does(recovery_of(targets), EffectView::Rescan),
{
    law_cycle_effects(actions, targets, EffectView::Unbind { bdf: b, driver: d });
    law_cycle_effects(actions, targets, EffectView::Bind { bdf: b, driver: d, seconds: 15 });
    let r = recovery_of(targets);
    assert(r[1].effect == EffectView::Rescan);
    let e = EffectView::Bind { bdf: b, driver: d, seconds: 5 };
    let head = seq![
        tell("[RECOVERY] attempting best-effort rescan and rebind after failure"@),
        best_effort(EffectView::Rescan),
        best_effort(EffectView::Sleep(3)),
    ];
    let tail = seq![tell("[RECOVERY] done; inspect `lspci` and `dmesg` for state"@)];
    lemma_does_drivers(targets, e);
    lemma_does_add(head, rebind_tasks(targets), e);
    lemma_does_add(head + rebind_tasks(targets), tail, e);
    lemma_does_one(tail[0], e);
    assert(!does(head, e));
}

/// A cycle that unbound a driver and did not get to its end is followed by a rescan and an attempt
/// to bind that driver again.
pub proof fn law_broken_cycle_is_recovered(
    actions: Seq<ActionView>,
    targets: Seq<TargetView>,
    outcomes: Seq<Result<(), Seq<char>>>,
    b: Bdf,
    d: Seq<char>,
)
    requires
        !(cycle_step(schedule(actions, targets), outcomes) is Done),
        does(schedule(actions, targets), EffectView::Unbind { bdf: b, driver: d }),
    ensures
        does(aftermath(schedule(actions, targets), outcomes, targets), EffectView::Rescan),
        does(
            aftermath(schedule(actions, targets), outcomes, targets),
            EffectView::Bind { bdf: b, driver: d, seconds: 5 },
        ),
{
    law_drivers_bound_again(actions, targets, b, d);
}

/// A cycle that is done performed every task, and no task failed but those whose failure is only
/// warned of or ignored.
pub proof fn law_done_cycle_succeeded(
    tasks: Seq<TaskView>,
    outcomes: Seq<Result<(), Seq<char>>>,
    i: int,
)
    requires
        outcomes.len() <= tasks.len(),
        cycle_step(tasks, outcomes) is Done,
        0 <= i < tasks.len(),
        tasks[i].on_failure is Stop,
    ensures
        outcomes.len() == tasks.len(),
        outcomes[i] is Ok,
{
    if outcomes[i] is Err {
        let upto = outcomes.take(i + 1);
        assert(upto.last() == outcomes[i]);
        assert(stopped(tasks, upto) is Some);
        lemma_stopped_stays(tasks, outcomes, i + 1);
    }
}

} // verus!
