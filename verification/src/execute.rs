//! The destructive path: what is asked before anything is changed, what is then done, and what is
//! kept for undoing it.
//!
//! `execute`, `rollback` and `verify_cmd` decide on one step at a time. The caller performs the
//! step and adds what came of it to the [`Facts`], until the step is `Finish` or `Fail`.

use vstd::arithmetic::power2;
use vstd::prelude::*;

use crate::manifest::{self, default_path, FileOutcome};
use crate::number::{self, dec_text};
use crate::pci::device::{self, Device};
use crate::plan::{self, print, Action, ActionView, Mode, Plan, PlanView};
use crate::preflight::{self, has_realloc};
use crate::rebar::{self, format_size, size_bytes};
use crate::text::{self, chars_of, copied_opt, owned, spells, trim};

pub mod consumers;
pub mod cycle;
pub mod polling;

use consumers::{consumer_warnings, Consumers};

verus! {

/// The choices of the user.
#[derive(Debug)]
pub struct Options {
    /// Skip the question whether to proceed.
    pub yes: bool,
    /// Ignore the safety refusals: no `pci=realloc`, open device nodes, an active display manager.
    pub force: bool,
    /// Where the manifest is kept, if not at the default path.
    pub manifest_path: Option<String>,
}

/// The contents of [`Options`].
#[verifier::ext_equal]
pub struct OptionsView {
    pub yes: bool,
    pub force: bool,
    pub manifest_path: Option<Seq<char>>,
}

impl View for Options {
    type V = OptionsView;

    open spec fn view(&self) -> OptionsView {
        OptionsView {
            yes: self.yes,
            force: self.force,
            manifest_path: text::opt_text(self.manifest_path),
        }
    }
}

impl Clone for Options {
    fn clone(&self) -> (r: Self)
        ensures
            r@ == self@,
    {
        Options {
            yes: self.yes,
            force: self.force,
            manifest_path: copied_opt(&self.manifest_path),
        }
    }
}

impl Default for Options {
    fn default() -> (r: Self)
        ensures
            r@ == (OptionsView { yes: false, force: false, manifest_path: None }),
    {
        Options { yes: false, force: false, manifest_path: None }
    }
}

impl OptionsView {
    /// Where the manifest is kept.
    pub open spec fn path(self) -> Seq<char> {
        match self.manifest_path {
            Some(p) => p,
            None => manifest::MANIFEST_PATH@,
        }
    }
}

impl Options {
    /// Where the manifest is kept.
    pub fn path(&self) -> (r: String)
        ensures
            r@ == self@.path(),
    {
        match &self.manifest_path {
            Some(p) => owned(p.as_str()),
            None => default_path(),
        }
    }
}

// ---------------------------------------------------------------- refusals

/// The refusal of a user who is not root.
pub open spec fn root_refusal(uid: u32) -> Result<(), Seq<char>> {
    if uid == 0 {
        Ok(())
    } else {
        Err("must run as root (uid="@ + number::dec(uid as nat) + ")"@)
    }
}

/// Refuses a user who is not root.
pub fn ensure_root(uid: u32) -> (r: Result<(), String>)
    ensures
        manifest::attempt(r) == root_refusal(uid),
{
    if uid == 0 {
        return Ok(());
    }
    let mut e = owned("must run as root (uid=");
    e.append(dec_text(uid as u64).as_str());
    e.append(")");
    Err(e)
}

/// The kernel was told to reallocate bridge windows, as far as its command line can be read.
pub open spec fn realloc_known(cmdline: Result<Seq<char>, Seq<char>>) -> bool {
    cmdline matches Ok(s) && preflight::realloc_in(s)
}

/// The refusal of a kernel that would not reallocate bridge windows.
pub open spec fn realloc_refusal(cmdline: Result<Seq<char>, Seq<char>>, force: bool) -> Result<
    (),
    Seq<char>,
> {
    if realloc_known(cmdline) || force {
        Ok(())
    } else {
        Err("pci=realloc is not in the kernel cmdline; re-run with --force to override"@)
    }
}

/// Refuses a kernel that would not reallocate bridge windows, unless `force` is set.
pub fn ensure_pci_realloc(cmdline: &Result<String, String>, force: bool) -> (r: Result<(), String>)
    ensures
        manifest::attempt(r) == realloc_refusal(device::reading(*cmdline), force),
{
    let present = match cmdline {
        Ok(s) => has_realloc(s.as_str()),
        Err(_) => false,
    };
    if !present && !force {
        return Err(
            owned("pci=realloc is not in the kernel cmdline; re-run with --force to override"),
        );
    }
    Ok(())
}

/// The refusal of GPUs that are in use.
pub open spec fn consumer_refusal(warnings: Seq<Seq<char>>, force: bool) -> Result<(), Seq<char>> {
    if warnings.len() == 0 || force {
        Ok(())
    } else {
        Err(
            "refusing to proceed while GPUs are in use; stop the consumer(s) or re-run with --force"@,
        )
    }
}

/// The lines that list the first `n` warnings.
pub open spec fn warning_lines(warnings: Seq<Seq<char>>, n: nat) -> Seq<char>
    decreases n,
{
    if n == 0 {
        "active GPU consumers detected:\n"@
    } else {
        warning_lines(warnings, (n - 1) as nat) + "  - "@ + warnings[n - 1] + "\n"@
    }
}

/// What the user is told of GPUs that are in use.
pub open spec fn consumer_notice(warnings: Seq<Seq<char>>, force: bool) -> Seq<char> {
    let list = warning_lines(warnings, warnings.len());
    if force {
        list + "(--force set, continuing anyway)\n"@
    } else {
        list
    }
}

fn notice(warnings: &Vec<String>, force: bool) -> (r: String)
    ensures
        r@ == consumer_notice(text::strings(warnings@), force),
{
    let ghost all = text::strings(warnings@);
    let mut r = owned("active GPU consumers detected:\n");
    let mut i: usize = 0;
    while i < warnings.len()
        invariant
            i <= warnings.len(),
            all == text::strings(warnings@),
            r@ == warning_lines(all, i as nat),
        decreases warnings.len() - i,
    {
        assert(all[i as int] == warnings@[i as int]@);
        r.append("  - ");
        r.append(warnings[i].as_str());
        r.append("\n");
        i += 1;
    }
    if force {
        r.append("(--force set, continuing anyway)\n");
    }
    r
}

/// Refuses GPUs that are in use, unless `force` is set. The text tells what is using them; it is
/// there where anything is.
pub fn ensure_no_active_consumers(c: &Consumers, force: bool) -> (r: (
    Option<String>,
    Result<(), String>,
))
    ensures
        text::opt_text(r.0) == (if consumers::warnings_of(c@).len() == 0 {
            None
        } else {
            Some(consumer_notice(consumers::warnings_of(c@), force))
        }),
        manifest::attempt(r.1) == consumer_refusal(consumers::warnings_of(c@), force),
{
    let warnings = consumer_warnings(c);
    assert(text::strings(warnings@).len() == warnings@.len());
    if warnings.len() == 0 {
        return (None, Ok(()));
    }
    let told = notice(&warnings, force);
    if !force {
        return (
            Some(told),
            Err(
                owned(
                    "refusing to proceed while GPUs are in use; stop the consumer(s) or re-run with --force",
                ),
            ),
        );
    }
    (Some(told), Ok(()))
}

/// The answer that means consent.
pub open spec fn consents(line: Seq<char>) -> bool {
    text::trimmed(line) == "YES"@
}

/// Whether the line that the user typed means consent.
pub fn confirm_interactively(line: &str) -> (r: bool)
    ensures
        r == consents(line@),
{
    let cs = chars_of(line);
    spells(trim(cs.as_slice()), "YES")
}

// ---------------------------------------------------------------- undoing a plan

/// An action with its sizes exchanged.
pub open spec fn reversed_action(a: ActionView) -> ActionView {
    ActionView {
        original_size_index: a.target_size_index,
        target_size_index: a.original_size_index,
        ..a
    }
}

/// The plan that undoes a plan.
pub open spec fn reversed(p: PlanView) -> PlanView {
    PlanView {
        mode: Mode::Explicit(0),
        actions: Seq::new(p.actions.len(), |i: int| reversed_action(p.actions[i])),
    }
}

/// The plan that undoes a plan: each action goes from the target size back to the original one.
pub fn rollback_plan(p: &Plan) -> (r: Plan)
    ensures
        r@ == reversed(p@),
{
    let mut actions: Vec<Action> = Vec::new();
    let ghost wanted = reversed(p@).actions;
    let mut i: usize = 0;
    assert(plan::action_views(actions@) =~= wanted.take(0));
    while i < p.actions.len()
        invariant
            i <= p.actions.len(),
            wanted == reversed(p@).actions,
            plan::action_views(actions@) == wanted.take(i as int),
        decreases p.actions.len() - i,
    {
        let mut a = p.actions[i].clone();
        let from = a.original_size_index;
        a.original_size_index = a.target_size_index;
        a.target_size_index = from;
        assert(p@.actions[i as int] == p.actions@[i as int]@);
        assert(a@ == wanted[i as int]);
        let ghost before = plan::action_views(actions@);
        actions.push(a);
        i += 1;
        assert(plan::action_views(actions@) =~= before.push(a@));
        assert(wanted.take(i as int) =~= wanted.take(i - 1).push(wanted[i - 1]));
    }
    assert(wanted.take(i as int) =~= wanted);
    Plan { mode: Mode::Explicit(0), actions }
}

/// Undoing a plan leads from its target sizes back to its original ones, on the same devices; and
/// undoing that leads to the target sizes again.
pub proof fn law_rollback_restores(p: PlanView, i: int)
    requires
        0 <= i < p.actions.len(),
    ensures
        reversed(p).actions.len() == p.actions.len(),
        ({
            let a = p.actions[i];
            let b = reversed(p).actions[i];
            &&& b.original_size_index == a.target_size_index
            &&& b.target_size_index == a.original_size_index
            &&& b.bdf == a.bdf && b.vendor == a.vendor && b.device_id == a.device_id
            &&& b.driver == a.driver && b.cut_point == a.cut_point && b.companions == a.companions
            &&& b.rebar_cap_offset == a.rebar_cap_offset
            &&& b.rebar_entry_index == a.rebar_entry_index && b.bar_index == a.bar_index
        }),
        reversed(reversed(p)).actions == p.actions,
{
    assert(reversed(reversed(p)).actions =~= p.actions);
}

// ---------------------------------------------------------------- comparing the sizes

/// The number of bytes of the BAR of an action, zero where the device has no such BAR.
pub open spec fn actual_bytes(a: ActionView, d: device::DeviceView) -> int {
    if a.bar_index < d.resources.len() {
        d.resources[a.bar_index as int].bytes()
    } else {
        0
    }
}

/// The sizes of an action and of its device have numbers of bytes that fit in 64 bits.
pub open spec fn comparable(a: ActionView, d: device::DeviceView) -> bool {
    a.target_size_index < 44 && actual_bytes(a, d) <= u64::MAX
}

/// The line that compares the size of a BAR with the target.
pub open spec fn bar_line(a: ActionView, d: device::DeviceView) -> Seq<char> {
    let expected = power2::pow2((20 + a.target_size_index) as nat);
    (if actual_bytes(a, d) == expected {
        "[ OK ]"@
    } else {
        "[FAIL]"@
    }) + " "@ + a.bdf.text() + " BAR "@ + number::dec(a.bar_index as nat) + ": actual "@
        + rebar::size_text(actual_bytes(a, d) as nat) + "  expected "@ + rebar::size_text(expected)
}

/// The lines for the first `n` actions; the first device that cannot be read decides the error.
pub open spec fn bar_lines(
    actions: Seq<ActionView>,
    devices: Seq<Result<Device, String>>,
    n: nat,
) -> Result<Seq<Seq<char>>, Seq<char>>
    decreases n,
{
    if n == 0 {
        Ok(seq![])
    } else {
        match bar_lines(actions, devices, (n - 1) as nat) {
            Err(e) => Err(e),
            Ok(lines) => match devices[n - 1] {
                Err(e) => Err(e@),
                Ok(d) => Ok(lines.push(bar_line(actions[n - 1], d@))),
            },
        }
    }
}

/// There is a reading for each action, and what is to be compared can be.
pub open spec fn bars_comparable(
    actions: Seq<ActionView>,
    devices: Seq<Result<Device, String>>,
) -> bool {
    &&& devices.len() == actions.len()
    &&& forall|i: int|
        0 <= i < actions.len() && bar_lines(actions, devices, i as nat) is Ok ==> (
        #[trigger] devices[i] matches Ok(d) ==> comparable(actions[i], d@))
}

fn compare_bar(a: &Action, d: &Device) -> (r: String)
    requires
        comparable(a@, d@),
    ensures
        r@ == bar_line(a@, d@),
{
    let bar = a.bar_index as usize;
    let actual = if bar < d.resources.len() {
        d.resources[bar].size()
    } else {
        0
    };
    let expected = size_bytes(a.target_size_index);
    let mut r = if actual == expected {
        owned("[ OK ]")
    } else {
        owned("[FAIL]")
    };
    r.append(" ");
    r.append(a.bdf.to_string().as_str());
    r.append(" BAR ");
    r.append(dec_text(a.bar_index as u64).as_str());
    r.append(": actual ");
    r.append(format_size(actual).as_str());
    r.append("  expected ");
    r.append(format_size(expected).as_str());
    r
}

proof fn lemma_bars_error_stays(
    actions: Seq<ActionView>,
    devices: Seq<Result<Device, String>>,
    k: nat,
    n: nat,
)
    requires
        k <= n,
        bar_lines(actions, devices, k) is Err,
    ensures
        bar_lines(actions, devices, n) == bar_lines(actions, devices, k),
    decreases n - k,
{
    if k < n {
        lemma_bars_error_stays(actions, devices, k + 1, n);
    }
}

/// Compares the sizes of the BARs of a plan with its targets. `devices` holds what reading the
/// device of each action gave, in the order of the actions.
pub fn verify_bars(plan: &Plan, devices: &Vec<Result<Device, String>>) -> (r: Result<
    Vec<String>,
    String,
>)
    requires
        bars_comparable(plan@.actions, devices@),
    ensures
        match r {
            Ok(v) => bar_lines(plan@.actions, devices@, plan@.actions.len()) == Ok::<
                Seq<Seq<char>>,
                Seq<char>,
            >(text::strings(v@)),
            Err(e) => bar_lines(plan@.actions, devices@, plan@.actions.len()) == Err::<
                Seq<Seq<char>>,
                Seq<char>,
            >(e@),
        },
{
    let mut lines: Vec<String> = Vec::new();
    let mut i: usize = 0;
    assert(text::strings(lines@) =~= seq![]);
    while i < plan.actions.len()
        invariant
            i <= plan.actions.len(),
            bars_comparable(plan@.actions, devices@),
            bar_lines(plan@.actions, devices@, i as nat) == Ok::<Seq<Seq<char>>, Seq<char>>(
                text::strings(lines@),
            ),
        decreases plan.actions.len() - i,
    {
        assert(plan@.actions[i as int] == plan.actions@[i as int]@);
        match &devices[i] {
            Ok(d) => {
                assert(devices@[i as int] is Ok);
                let line = compare_bar(&plan.actions[i], d);
                let ghost before = text::strings(lines@);
                let ghost shown = line@;
                lines.push(line);
                assert(text::strings(lines@) =~= before.push(shown));
            },
            Err(e) => {
                proof {
                    lemma_bars_error_stays(
                        plan@.actions,
                        devices@,
                        i as nat + 1,
                        plan@.actions.len(),
                    );
                }
                return Err(owned(e.as_str()));
            },
        }
        i += 1;
    }
    Ok(lines)
}

/// Whether the sizes can be compared, so that `verify_bars` can be asked.
pub fn is_comparable(plan: &Plan, devices: &Vec<Result<Device, String>>) -> (r: bool)
    ensures
        r == bars_comparable(plan@.actions, devices@),
{
    if devices.len() != plan.actions.len() {
        return false;
    }
    let ghost actions = plan@.actions;
    let mut i: usize = 0;
    while i < plan.actions.len()
        invariant
            i <= plan.actions.len(),
            devices.len() == plan.actions.len(),
            actions == plan@.actions,
            bar_lines(actions, devices@, i as nat) is Ok,
            forall|j: int|
                0 <= j < i ==> (#[trigger] devices@[j] matches Ok(d) ==> comparable(
                    actions[j],
                    d@,
                )),
        decreases plan.actions.len() - i,
    {
        let a = &plan.actions[i];
        assert(actions[i as int] == a@);
        match &devices[i] {
            Ok(d) => {
                let bar = a.bar_index as usize;
                if a.target_size_index >= 44 || (bar < d.resources.len()
                    && !d.resources[bar].is_sized()) {
                    assert(!comparable(a@, d@));
                    assert(devices@[i as int] is Ok);
                    return false;
                }
                assert(comparable(a@, d@));
            },
            Err(e) => {
                assert forall|j: int|
                    0 <= j < actions.len() && bar_lines(actions, devices@, j as nat) is Ok implies (
                #[trigger] devices@[j] matches Ok(d) ==> comparable(actions[j], d@)) by {
                    if j > i {
                        lemma_bars_error_stays(actions, devices@, (i + 1) as nat, j as nat);
                    }
                }
                return true;
            },
        }
        i += 1;
    }
    true
}

// ---------------------------------------------------------------- one step at a time

/// What is known so far in one run of a command.
#[derive(Debug)]
pub struct Facts {
    /// The user.
    pub uid: Option<u32>,
    /// What reading the manifest gave.
    pub loaded: Option<Result<Plan, String>>,
    /// What reading the kernel command line gave.
    pub cmdline: Option<Result<String, String>>,
    /// What may be using the GPUs.
    pub consumers: Option<Consumers>,
    /// The user was told what is using the GPUs.
    pub warned: bool,
    /// The user was shown the plan.
    pub shown: bool,
    /// What the user typed when asked.
    pub answer: Option<Result<String, String>>,
    /// What writing the manifest came to.
    pub saved: Option<Result<(), String>>,
    /// What the cycle came to.
    pub ran: Option<Result<(), String>>,
    /// What deleting the manifest came to.
    pub deleted: Option<FileOutcome>,
    /// What reading the device of each action gave.
    pub devices: Option<Vec<Result<Device, String>>>,
}

impl Default for Facts {
    /// Nothing is known.
    fn default() -> (r: Self)
        ensures
            r.uid is None && r.loaded is None && r.cmdline is None && r.consumers is None
                && !r.warned && !r.shown && r.answer is None && r.saved is None && r.ran is None
                && r.deleted is None && r.devices is None,
    {
        Facts {
            uid: None,
            loaded: None,
            cmdline: None,
            consumers: None,
            warned: false,
            shown: false,
            answer: None,
            saved: None,
            ran: None,
            deleted: None,
            devices: None,
        }
    }
}

/// The next step of a command.
#[derive(Debug)]
pub enum Step {
    /// Find out who the user is.
    ReadUser,
    /// Read the manifest at this path.
    ReadManifest(String),
    /// Read the kernel command line.
    ReadCmdline,
    /// Find out what may be using the GPUs.
    FindConsumers,
    /// Tell the user what is using the GPUs.
    Warn(String),
    /// Show the user the plan.
    Show(String),
    /// Ask the user whether to proceed.
    Ask,
    /// Write the manifest of this plan to this path.
    SaveManifest(String, Plan),
    /// Tell the user this line, if any, and run the cycle for this plan.
    Run(Option<String>, Plan),
    /// Delete the manifest at this path.
    DeleteManifest(String),
    /// Read the device of each action of this plan.
    ReadDevices(Plan),
    /// Show the user these lines. The command is done.
    Report(Vec<String>),
    /// Tell the user this line. The command is done.
    Finish(String),
    /// The command fails with this error.
    Fail(String),
}

/// The contents of a [`Step`].
pub enum StepView {
    ReadUser,
    ReadManifest(Seq<char>),
    ReadCmdline,
    FindConsumers,
    Warn(Seq<char>),
    Show(Seq<char>),
    Ask,
    SaveManifest(Seq<char>, PlanView),
    Run(Option<Seq<char>>, PlanView),
    DeleteManifest(Seq<char>),
    ReadDevices(PlanView),
    Report(Seq<Seq<char>>),
    Finish(Seq<char>),
    Fail(Seq<char>),
}

impl View for Step {
    type V = StepView;

    open spec fn view(&self) -> StepView {
        match self {
            Step::ReadUser => StepView::ReadUser,
            Step::ReadManifest(p) => StepView::ReadManifest(p@),
            Step::ReadCmdline => StepView::ReadCmdline,
            Step::FindConsumers => StepView::FindConsumers,
            Step::Warn(s) => StepView::Warn(s@),
            Step::Show(s) => StepView::Show(s@),
            Step::Ask => StepView::Ask,
            Step::SaveManifest(path, p) => StepView::SaveManifest(path@, p@),
            Step::Run(line, p) => StepView::Run(text::opt_text(*line), p@),
            Step::DeleteManifest(p) => StepView::DeleteManifest(p@),
            Step::ReadDevices(p) => StepView::ReadDevices(p@),
            Step::Report(v) => StepView::Report(text::strings(v@)),
            Step::Finish(s) => StepView::Finish(s@),
            Step::Fail(e) => StepView::Fail(e@),
        }
    }
}

/// The step that the user's identity calls for: find it out, or refuse it.
pub open spec fn root_step(f: Facts) -> Option<StepView> {
    match f.uid {
        None => Some(StepView::ReadUser),
        Some(uid) => match root_refusal(uid) {
            Err(e) => Some(StepView::Fail(e)),
            Ok(()) => None,
        },
    }
}

/// The step that the kernel and the users of the GPUs call for: find out about them, tell of them,
/// or refuse them.
pub open spec fn safety_step(force: bool, f: Facts) -> Option<StepView> {
    match f.cmdline {
        None => Some(StepView::ReadCmdline),
        Some(cmdline) => match realloc_refusal(device::reading(cmdline), force) {
            Err(e) => Some(StepView::Fail(e)),
            Ok(()) => match f.consumers {
                None => Some(StepView::FindConsumers),
                Some(c) => {
                    let warnings = consumers::warnings_of(c@);
                    if warnings.len() > 0 && !f.warned {
                        Some(StepView::Warn(consumer_notice(warnings, force)))
                    } else {
                        match consumer_refusal(warnings, force) {
                            Err(e) => Some(StepView::Fail(e)),
                            Ok(()) => None,
                        }
                    }
                },
            },
        },
    }
}

/// The step that consent calls for: show the plan, ask, or give up.
pub open spec fn consent_step(yes: bool, shown: Seq<char>, f: Facts) -> Option<StepView> {
    if !f.shown {
        Some(StepView::Show(shown))
    } else if yes {
        None
    } else {
        match f.answer {
            None => Some(StepView::Ask),
            Some(Err(e)) => Some(StepView::Fail(e@)),
            Some(Ok(line)) => if consents(line@) {
                None
            } else {
                Some(StepView::Fail("cancelled by user"@))
            },
        }
    }
}

/// All refusals are passed, and the plan is shown next.
pub open spec fn ready_to_show(force: bool, f: Facts) -> bool {
    root_step(f) is None && safety_step(force, f) is None && !f.shown
}

/// The plan as it is shown: its text, and an empty line.
#[verifier::opaque]
pub open spec fn shown_plan(p: PlanView) -> Seq<char> {
    plan::plan_text(p, p.actions.len()) + "\n"@
}

/// The next step of `execute`.
pub open spec fn execute_step(p: PlanView, o: OptionsView, f: Facts) -> StepView {
    if root_step(f) is Some {
        root_step(f)->0
    } else if safety_step(o.force, f) is Some {
        safety_step(o.force, f)->0
    } else if consent_step(o.yes, shown_plan(p), f) is Some {
        consent_step(o.yes, shown_plan(p), f)->0
    } else {
        match f.saved {
            None => StepView::SaveManifest(o.path(), p),
            Some(Err(e)) => StepView::Fail(e@),
            Some(Ok(())) => match f.ran {
                None => StepView::Run(Some("[ok] wrote manifest: "@ + o.path()), p),
                Some(Err(e)) => StepView::Fail(e@),
                Some(Ok(())) => if p.mode == Mode::Current {
                    match f.deleted {
                        None => StepView::DeleteManifest(o.path()),
                        Some(_) => StepView::Finish("[ok] dry-cycle complete; manifest removed"@),
                    }
                } else {
                    StepView::Finish("[ok] execute complete; manifest retained for rollback"@)
                },
            },
        }
    }
}

/// The next step of `rollback`.
pub open spec fn rollback_step(o: OptionsView, f: Facts) -> StepView {
    if root_step(f) is Some {
        root_step(f)->0
    } else {
        match f.loaded {
            None => StepView::ReadManifest(o.path()),
            Some(Err(e)) => StepView::Fail(e@),
            Some(Ok(original)) => {
                let p = reversed(original@);
                let shown = "Rollback plan (restoring original sizes):\n"@ + shown_plan(p);
                if safety_step(o.force, f) is Some {
                    safety_step(o.force, f)->0
                } else if consent_step(o.yes, shown, f) is Some {
                    consent_step(o.yes, shown, f)->0
                } else {
                    match f.ran {
                        None => StepView::Run(None, p),
                        Some(Err(e)) => StepView::Fail(e@),
                        Some(Ok(())) => match f.deleted {
                            None => StepView::DeleteManifest(o.path()),
                            Some(outcome) => match manifest::missing_is_fine(outcome) {
                                Err(e) => StepView::Fail(e),
                                Ok(()) => StepView::Finish(
                                    "[ok] rollback complete; manifest removed"@,
                                ),
                            },
                        },
                    }
                }
            },
        }
    }
}

/// The next step of `verify`.
pub open spec fn verify_step(o: OptionsView, f: Facts) -> StepView {
    match f.loaded {
        None => StepView::ReadManifest(o.path()),
        Some(Err(e)) => StepView::Fail(e@),
        Some(Ok(p)) => if !f.shown {
            StepView::Show(shown_plan(p@))
        } else {
            match f.devices {
                None => StepView::ReadDevices(p@),
                Some(devices) => match bar_lines(p@.actions, devices@, p@.actions.len()) {
                    Err(e) => StepView::Fail(e),
                    Ok(lines) => StepView::Report(lines),
                },
            }
        },
    }
}

fn step_for_root(f: &Facts) -> (r: Option<Step>)
    ensures
        match r {
            Some(s) => root_step(*f) == Some(s@),
            None => root_step(*f) is None,
        },
{
    match f.uid {
        None => Some(Step::ReadUser),
        Some(uid) => match ensure_root(uid) {
            Err(e) => Some(Step::Fail(e)),
            Ok(()) => None,
        },
    }
}

fn step_for_safety(force: bool, f: &Facts) -> (r: Option<Step>)
    ensures
        match r {
            Some(s) => safety_step(force, *f) == Some(s@),
            None => safety_step(force, *f) is None,
        },
{
    match &f.cmdline {
        None => return Some(Step::ReadCmdline),
        Some(cmdline) => match ensure_pci_realloc(cmdline, force) {
            Err(e) => return Some(Step::Fail(e)),
            Ok(()) => {},
        },
    }
    match &f.consumers {
        None => Some(Step::FindConsumers),
        Some(c) => {
            let (told, allowed) = ensure_no_active_consumers(c, force);
            match told {
                Some(text) if !f.warned => Some(Step::Warn(text)),
                _ => match allowed {
                    Err(e) => Some(Step::Fail(e)),
                    Ok(()) => None,
                },
            }
        },
    }
}

/// Whether all refusals are passed and the plan is shown next, so that it must be printable.
pub fn shows_next(force: bool, f: &Facts) -> (r: bool)
    ensures
        r == ready_to_show(force, *f),
{
    step_for_root(f).is_none() && step_for_safety(force, f).is_none() && !f.shown
}

fn step_for_consent(yes: bool, heading: &str, plan: &Plan, f: &Facts) -> (r: Option<Step>)
    requires
        !f.shown ==> plan::plan_sizes_fit(plan@),
    ensures
        match r {
            Some(s) => consent_step(yes, heading@ + shown_plan(plan@), *f) == Some(s@),
            None => consent_step(yes, heading@ + shown_plan(plan@), *f) is None,
        },
{
    if !f.shown {
        let mut shown = owned(heading);
        shown.append(show_plan(plan).as_str());
        return Some(Step::Show(shown));
    }
    if yes {
        return None;
    }
    match &f.answer {
        None => Some(Step::Ask),
        Some(Err(e)) => Some(Step::Fail(owned(e.as_str()))),
        Some(Ok(line)) => {
            if confirm_interactively(line.as_str()) {
                None
            } else {
                Some(Step::Fail(owned("cancelled by user")))
            }
        },
    }
}

fn show_plan(p: &Plan) -> (r: String)
    requires
        plan::plan_sizes_fit(p@),
    ensures
        r@ == shown_plan(p@),
{
    proof {
        reveal(shown_plan);
    }
    let mut r = print(p);
    r.append("\n");
    r
}

/// Decides the next step in applying a plan: refuse what is not safe, show the plan and ask, keep
/// the manifest, run the cycle. After a dry cycle, which has nothing to undo, the manifest goes
/// again.
#[verifier::rlimit(30)]
#[verifier::spinoff_prover]
pub fn execute(plan: &Plan, opts: &Options, f: &Facts) -> (r: Step)
    requires
        ready_to_show(opts@.force, *f) ==> plan::plan_sizes_fit(plan@),
    ensures
        r@ == execute_step(plan@, opts@, *f),
{
    match step_for_root(f) {
        Some(s) => return s,
        None => {},
    }
    match step_for_safety(opts.force, f) {
        Some(s) => return s,
        None => {},
    }
    proof {
        reveal_strlit("");
        assert(""@ + shown_plan(plan@) =~= shown_plan(plan@));
    }
    match step_for_consent(opts.yes, "", plan, f) {
        Some(s) => return s,
        None => {},
    }
    match &f.saved {
        None => return Step::SaveManifest(opts.path(), plan.clone()),
        Some(Err(e)) => return Step::Fail(owned(e.as_str())),
        Some(Ok(())) => {},
    }
    match &f.ran {
        None => {
            let mut line = owned("[ok] wrote manifest: ");
            line.append(opts.path().as_str());
            return Step::Run(Some(line), plan.clone());
        },
        Some(Err(e)) => return Step::Fail(owned(e.as_str())),
        Some(Ok(())) => {},
    }
    if plan.mode == Mode::Current {
        match &f.deleted {
            None => Step::DeleteManifest(opts.path()),
            Some(_) => Step::Finish(owned("[ok] dry-cycle complete; manifest removed")),
        }
    } else {
        Step::Finish(owned("[ok] execute complete; manifest retained for rollback"))
    }
}

proof fn lemma_reversed_fits(p: PlanView)
    requires
        plan::plan_sizes_fit(p),
    ensures
        plan::plan_sizes_fit(reversed(p)),
{
    assert forall|i: int| 0 <= i < reversed(p).actions.len() implies plan::sizes_fit(
        #[trigger] reversed(p).actions[i],
    ) by {
        assert(plan::sizes_fit(p.actions[i]));
    }
}

/// Decides the next step in undoing the plan that the manifest holds. The manifest goes only once
/// the plan is undone.
pub fn rollback(opts: &Options, f: &Facts) -> (r: Step)
    requires
        f.loaded matches Some(Ok(p)) ==> (ready_to_show(opts@.force, *f) ==> plan::plan_sizes_fit(
            p@,
        )),
    ensures
        r@ == rollback_step(opts@, *f),
{
    match step_for_root(f) {
        Some(s) => return s,
        None => {},
    }
    let original = match &f.loaded {
        None => return Step::ReadManifest(opts.path()),
        Some(Err(e)) => return Step::Fail(owned(e.as_str())),
        Some(Ok(p)) => p,
    };
    let plan = rollback_plan(original);
    proof {
        if plan::plan_sizes_fit(original@) {
            lemma_reversed_fits(original@);
        }
    }
    match step_for_safety(opts.force, f) {
        Some(s) => return s,
        None => {},
    }
    match step_for_consent(
        opts.yes,
        "Rollback plan (restoring original sizes):\n",
        &plan,
        f,
    ) {
        Some(s) => return s,
        None => {},
    }
    match &f.ran {
        None => return Step::Run(None, plan),
        Some(Err(e)) => return Step::Fail(owned(e.as_str())),
        Some(Ok(())) => {},
    }
    match &f.deleted {
        None => Step::DeleteManifest(opts.path()),
        Some(outcome) => match manifest::delete(outcome) {
            Err(e) => Step::Fail(e),
            Ok(()) => Step::Finish(owned("[ok] rollback complete; manifest removed")),
        },
    }
}

/// Decides the next step in comparing the sizes of the BARs with the plan that the manifest holds.
pub fn verify_cmd(opts: &Options, f: &Facts) -> (r: Step)
    requires
        f.loaded matches Some(Ok(p)) ==> {
            &&& !f.shown ==> plan::plan_sizes_fit(p@)
            &&& f.shown ==> (f.devices matches Some(devices) ==> bars_comparable(
                p@.actions,
                devices@,
            ))
        },
    ensures
        r@ == verify_step(opts@, *f),
{
    let plan = match &f.loaded {
        None => return Step::ReadManifest(opts.path()),
        Some(Err(e)) => return Step::Fail(owned(e.as_str())),
        Some(Ok(p)) => p,
    };
    if !f.shown {
        return Step::Show(show_plan(plan));
    }
    match &f.devices {
        None => Step::ReadDevices(plan.clone()),
        Some(devices) => match verify_bars(plan, devices) {
            Err(e) => Step::Fail(e),
            Ok(lines) => Step::Report(lines),
        },
    }
}

// ---------------------------------------------------------------- what the commands promise

/// A step that changes something: the manifest, or the machine.
pub open spec fn changes(s: StepView) -> bool {
    s is SaveManifest || s is Run || s is DeleteManifest
}

/// Every safety refusal was passed, and the user consented.
pub open spec fn cleared(o: OptionsView, f: Facts) -> bool {
    &&& f.uid == Some(0u32)
    &&& f.cmdline is Some && (realloc_known(device::reading(f.cmdline->0)) || o.force)
    &&& f.consumers is Some && (consumers::warnings_of(f.consumers->0@).len() == 0 || o.force)
    &&& f.shown
    &&& o.yes || (f.answer matches Some(Ok(line)) && consents(line@))
}

/// Nothing is changed before the user is known to be root, the kernel and the users of the GPUs
/// are found safe or `force` is set, the plan was shown, and the user consented or `yes` is set.
pub proof fn law_nothing_changes_uncleared(p: PlanView, o: OptionsView, f: Facts)
    ensures
        changes(execute_step(p, o, f)) ==> cleared(o, f),
        changes(rollback_step(o, f)) ==> cleared(o, f),
        !changes(verify_step(o, f)),
{
}

/// A user who is not root is refused, whatever the options.
pub proof fn law_root_is_required(p: PlanView, o: OptionsView, f: Facts)
    requires
        f.uid is Some,
        f.uid != Some(0u32),
    ensures
        execute_step(p, o, f) is Fail,
        rollback_step(o, f) is Fail,
{
}

/// Without `force`, a kernel that is not known to reallocate is refused, and so are GPUs in use.
pub proof fn law_unsafe_hosts_are_refused(p: PlanView, o: OptionsView, f: Facts)
    requires
        f.uid == Some(0u32),
        !o.force,
        f.cmdline is Some,
        f.consumers is Some,
        f.warned,
        !realloc_known(device::reading(f.cmdline->0)) || consumers::warnings_of(
            f.consumers->0@,
        ).len() > 0,
    ensures
        execute_step(p, o, f) is Fail,
        f.loaded is Some ==> rollback_step(o, f) is Fail,
{
}

/// The manifest is on disk before the machine is changed: the cycle runs only after the manifest
/// was written, and the plan that it runs is the one in the manifest.
pub proof fn law_manifest_precedes_changes(p: PlanView, o: OptionsView, f: Facts)
    ensures
        execute_step(p, o, f) is Run ==> succeeded(f.saved),
        execute_step(p, o, f) is Run ==> execute_step(p, o, f)->Run_1 == p,
        execute_step(p, o, f) is SaveManifest ==> execute_step(p, o, f)->SaveManifest_1 == p,
{
}

/// The manifest is kept as long as there is something to undo: `execute` deletes it only after a
/// dry cycle that succeeded, `rollback` only once the plan is undone.
pub proof fn law_manifest_kept(p: PlanView, o: OptionsView, f: Facts)
    ensures
        execute_step(p, o, f) is DeleteManifest ==> {
            &&& p.mode == Mode::Current
            &&& succeeded(f.ran)
        },
        rollback_step(o, f) is DeleteManifest ==> succeeded(f.ran),
        !(rollback_step(o, f) is SaveManifest),
{
}

/// An attempt that was made and succeeded.
pub open spec fn succeeded(r: Option<Result<(), String>>) -> bool {
    r is Some && r->0 is Ok
}

/// `execute` succeeds exactly where every refusal was passed, the user consented, the manifest was
/// written and the cycle is done; after a dry cycle the manifest was to be deleted too.
pub proof fn law_execute_succeeds(p: PlanView, o: OptionsView, f: Facts)
    ensures
        execute_step(p, o, f) is Finish <==> {
            &&& cleared(o, f)
            &&& f.warned || consumers::warnings_of(f.consumers->0@).len() == 0
            &&& succeeded(f.saved)
            &&& succeeded(f.ran)
            &&& p.mode == Mode::Current ==> f.deleted is Some
        },
{
}

/// `rollback` succeeds exactly where the manifest was read, every refusal was passed, the user
/// consented, the cycle is done and the manifest is gone.
pub proof fn law_rollback_succeeds(o: OptionsView, f: Facts)
    ensures
        rollback_step(o, f) is Finish <==> {
            &&& f.loaded is Some && f.loaded->0 is Ok
            &&& cleared(o, f)
            &&& f.warned || consumers::warnings_of(f.consumers->0@).len() == 0
            &&& succeeded(f.ran)
            &&& f.deleted is Some && manifest::missing_is_fine(f.deleted->0) is Ok
        },
{
}

/// A step that was performed is not asked for again.
pub open spec fn fresh(s: StepView, f: Facts) -> bool {
    match s {
        StepView::ReadUser => f.uid is None,
        StepView::ReadManifest(_) => f.loaded is None,
        StepView::ReadCmdline => f.cmdline is None,
        StepView::FindConsumers => f.consumers is None,
        StepView::Warn(_) => !f.warned,
        StepView::Show(_) => !f.shown,
        StepView::Ask => f.answer is None,
        StepView::SaveManifest(_, _) => f.saved is None,
        StepView::Run(_, _) => f.ran is None,
        StepView::DeleteManifest(_) => f.deleted is None,
        StepView::ReadDevices(_) => f.devices is None,
        StepView::Report(_) => true,
        StepView::Finish(_) => true,
        StepView::Fail(_) => true,
    }
}

/// No command asks twice for the same step: the cycle runs at most once, and every command ends.
pub proof fn law_each_step_once(p: PlanView, o: OptionsView, f: Facts)
    ensures
        fresh(execute_step(p, o, f), f),
        fresh(rollback_step(o, f), f),
        fresh(verify_step(o, f), f),
{
}

/// `rollback` on the manifest that `execute` wrote for a plan runs the cycle that goes from the
/// target sizes of that plan back to its original ones, where the manifest reads back.
pub proof fn law_rollback_undoes_execute(
    p: PlanView,
    o: OptionsView,
    f: Facts,
    timestamp: u64,
    kernel: Seq<char>,
    hostname: Seq<char>,
)
    requires
        p.actions.len() <= usize::MAX,
        forall|i: int|
            0 <= i < p.actions.len() ==> manifest::read_back::driver_kept(
                (#[trigger] p.actions[i]).driver,
            ),
        manifest::action_count(
            text::lines(manifest::head_text(timestamp, kernel, hostname)),
        ) <= p.actions.len(),
        f.loaded matches Some(Ok(q)) && manifest::manifest_plan(
            manifest::manifest_text(p, p.actions.len(), timestamp, kernel, hostname),
        ) == Ok::<PlanView, Seq<char>>(q@),
        cleared(o, f),
        f.warned || consumers::warnings_of(f.consumers->0@).len() == 0,
        f.ran is None,
    ensures
        rollback_step(o, f) == StepView::Run(None, reversed(p)),
{
    manifest::read_back::law_manifest_reads_back(p, timestamp, kernel, hostname);
}

} // verus!
