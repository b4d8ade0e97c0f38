//! What each command does next, given what is known.

use vstd::prelude::*;

use crate::execute::{self, consumers, Facts, OptionsView, StepView};
use crate::manifest;
use crate::number;
use crate::plan::{self, PlanView};
use crate::preflight;

verus! {

/// The manifest is kept where the user says, and by default at `/var/lib/t2rebar/state.txt`.
pub proof fn law_manifest_path(o: OptionsView)
    ensures
        o.manifest_path matches Some(p) ==> o.path() == p,
        o.manifest_path is None ==> o.path() == "/var/lib/t2rebar/state.txt"@,
{
}

/// The user is root.
pub open spec fn is_root(f: Facts) -> bool {
    f.uid == Some(0u32)
}

/// The command line of the kernel was read and asks for reallocation, or its lack is overridden.
pub open spec fn kernel_passes(o: OptionsView, f: Facts) -> bool {
    &&& f.cmdline is Some
    &&& o.force || (f.cmdline->0 is Ok && preflight::realloc_in(f.cmdline->0->Ok_0@))
}

/// Nobody is using the GPUs, or the user was told of it and overrides it.
pub open spec fn consumers_pass(o: OptionsView, f: Facts) -> bool {
    &&& f.consumers is Some
    &&& consumers::warnings_of(f.consumers->0@).len() == 0 || (f.warned && o.force)
}

/// The plan was shown, and the user consented to it, or did so beforehand.
pub open spec fn consent_given(o: OptionsView, f: Facts) -> bool {
    &&& f.shown
    &&& o.yes || (f.answer matches Some(Ok(line)) && execute::consents(line@))
}

/// Which step of `execute` comes next: each thing is found out once all before it is passed, and
/// the manifest is saved, the cycle run and a needless manifest deleted only once all is passed.
pub proof fn law_execute_steps(p: PlanView, o: OptionsView, f: Facts)
    ensures
        ({
            let s = execute::execute_step(p, o, f);
            let safe = is_root(f) && kernel_passes(o, f) && consumers_pass(o, f);
            let agreed = safe && consent_given(o, f);
            let saved = agreed && (f.saved matches Some(Ok(_)));
            let ran = saved && (f.ran matches Some(Ok(_)));
            &&& s is ReadUser <==> f.uid is None
            &&& s is ReadCmdline <==> is_root(f) && f.cmdline is None
            &&& s is FindConsumers <==> is_root(f) && kernel_passes(o, f) && f.consumers is None
            &&& s is Warn <==> {
                &&& is_root(f) && kernel_passes(o, f) && f.consumers is Some && !f.warned
                &&& consumers::warnings_of(f.consumers->0@).len() > 0
            }
            &&& s is Show <==> safe && !f.shown
            &&& s is Ask <==> safe && f.shown && !o.yes && f.answer is None
            &&& s is SaveManifest <==> agreed && f.saved is None
            &&& s is Run <==> saved && f.ran is None
            &&& s is DeleteManifest <==> ran && p.mode == plan::Mode::Current && f.deleted is None
            &&& s is Finish <==> ran && (p.mode == plan::Mode::Current ==> f.deleted is Some)
            &&& !(s is ReadManifest || s is ReadDevices || s is Report)
        }),
{
}

/// What each step of `execute` carries: the warnings, the plan, the path of the manifest and the
/// lines for the user.
pub proof fn law_execute_payloads(p: PlanView, o: OptionsView, f: Facts)
    ensures
        match execute::execute_step(p, o, f) {
            StepView::Warn(t) => t == execute::consumer_notice(
                consumers::warnings_of(f.consumers->0@),
                o.force,
            ),
            StepView::Show(t) => t == plan::plan_text(p, p.actions.len()) + "\n"@,
            StepView::SaveManifest(path, q) => path == o.path() && q == p,
            StepView::Run(line, q) => line == Some("[ok] wrote manifest: "@ + o.path()) && q == p,
            StepView::DeleteManifest(path) => path == o.path(),
            StepView::Finish(line) => line == if p.mode == plan::Mode::Current {
                "[ok] dry-cycle complete; manifest removed"@
            } else {
                "[ok] execute complete; manifest retained for rollback"@
            },
            _ => true,
        },
{
    reveal(execute::shown_plan);
}

/// Why `execute` fails: another user than root, a kernel that does not reallocate, GPUs in use, an
/// answer that could not be read or is no consent, and what stopped the saving or the cycle.
pub proof fn law_execute_failures(p: PlanView, o: OptionsView, f: Facts)
    ensures
        execute::execute_step(p, o, f) matches StepView::Fail(e) ==> {
            if !is_root(f) {
                f.uid is Some && e == "must run as root (uid="@ + number::dec(f.uid->0 as nat)
                    + ")"@
            } else if !kernel_passes(o, f) {
                f.cmdline is Some && e
                    == "pci=realloc is not in the kernel cmdline; re-run with --force to override"@
            } else if !consumers_pass(o, f) {
                f.consumers is Some && f.warned && !o.force && e
                    == "refusing to proceed while GPUs are in use; stop the consumer(s) or re-run with --force"@
            } else if !consent_given(o, f) {
                match f.answer {
                    Some(Ok(_)) => e == "cancelled by user"@,
                    Some(Err(m)) => e == m@,
                    None => false,
                }
            } else {
                match f.saved {
                    Some(Err(m)) => e == m@,
                    _ => f.saved is Some && (f.ran matches Some(Err(m)) && e == m@),
                }
            }
        },
{
}

/// `execute` fails on each of these grounds, and on no other.
pub proof fn law_execute_fails(p: PlanView, o: OptionsView, f: Facts)
    ensures
        execute::execute_step(p, o, f) is Fail <==> {
            ||| f.uid is Some && f.uid->0 != 0
            ||| is_root(f) && f.cmdline is Some && !kernel_passes(o, f)
            ||| {
                &&& is_root(f) && kernel_passes(o, f) && f.consumers is Some && f.warned && !o.force
                &&& consumers::warnings_of(f.consumers->0@).len() > 0
            }
            ||| {
                &&& is_root(f) && kernel_passes(o, f) && consumers_pass(o, f)
                &&& f.shown && !o.yes && f.answer is Some && !consent_given(o, f)
            }
            ||| {
                &&& is_root(f) && kernel_passes(o, f) && consumers_pass(o, f) && consent_given(o, f)
                &&& (f.saved matches Some(Err(_))) || ((f.saved matches Some(Ok(_))) && (
                f.ran matches Some(Err(_))))
            }
        },
{
}

/// Which step of `rollback` comes next. The manifest is read before anything is asked, and deleted
/// only once the cycle that undoes it is done; it is never written.
pub proof fn law_rollback_steps(o: OptionsView, f: Facts)
    ensures
        ({
            let s = execute::rollback_step(o, f);
            let loaded = is_root(f) && (f.loaded matches Some(Ok(_)));
            let safe = loaded && kernel_passes(o, f) && consumers_pass(o, f);
            let agreed = safe && consent_given(o, f);
            let ran = agreed && (f.ran matches Some(Ok(_)));
            &&& s is ReadUser <==> f.uid is None
            &&& s is ReadManifest <==> is_root(f) && f.loaded is None
            &&& s is ReadCmdline <==> loaded && f.cmdline is None
            &&& s is FindConsumers <==> loaded && kernel_passes(o, f) && f.consumers is None
            &&& s is Warn <==> {
                &&& loaded && kernel_passes(o, f) && f.consumers is Some && !f.warned
                &&& consumers::warnings_of(f.consumers->0@).len() > 0
            }
            &&& s is Show <==> safe && !f.shown
            &&& s is Ask <==> safe && f.shown && !o.yes && f.answer is None
            &&& s is Run <==> agreed && f.ran is None
            &&& s is DeleteManifest <==> ran && f.deleted is None
            &&& s is Finish <==> ran && f.deleted is Some && !(f.deleted->0 is Failed)
            &&& !(s is SaveManifest || s is ReadDevices || s is Report)
        }),
{
}

/// What each step of `rollback` carries. The plan that it shows and runs goes back to the original
/// sizes of the manifest's plan.
pub proof fn law_rollback_payloads(o: OptionsView, f: Facts)
    ensures
        match execute::rollback_step(o, f) {
            StepView::ReadManifest(path) => path == o.path(),
            StepView::Warn(t) => t == execute::consumer_notice(
                consumers::warnings_of(f.consumers->0@),
                o.force,
            ),
            StepView::Show(t) => exists|q: PlanView|
                {
                    &&& undoes(q, f.loaded->0->Ok_0@)
                    &&& t == "Rollback plan (restoring original sizes):\n"@ + (#[trigger] plan::plan_text(
                        q,
                        q.actions.len(),
                    ) + "\n"@)
                },
            StepView::Run(line, q) => line is None && undoes(q, f.loaded->0->Ok_0@),
            StepView::DeleteManifest(path) => path == o.path(),
            StepView::Finish(line) => line == "[ok] rollback complete; manifest removed"@,
            _ => true,
        },
{
    reveal(execute::shown_plan);
    match execute::rollback_step(o, f) {
        StepView::Show(t) => {
            let p = f.loaded->0->Ok_0@;
            let q = execute::reversed(p);
            law_reversed_undoes(p);
            assert(t == "Rollback plan (restoring original sizes):\n"@ + (plan::plan_text(
                q,
                q.actions.len(),
            ) + "\n"@));
        },
        StepView::Run(_, q) => law_reversed_undoes(f.loaded->0->Ok_0@),
        _ => {},
    }
}

/// `q` goes from the target sizes of `p` back to the original ones, on the same BARs of the same
/// devices, and is otherwise the same.
pub open spec fn undoes(q: PlanView, p: PlanView) -> bool {
    &&& q.mode == plan::Mode::Explicit(0)
    &&& q.actions.len() == p.actions.len()
    &&& forall|i: int|
        0 <= i < p.actions.len() ==> {
            let a = p.actions[i];
            let b = #[trigger] q.actions[i];
            &&& b.original_size_index == a.target_size_index
            &&& b.target_size_index == a.original_size_index
            &&& b.bdf == a.bdf && b.vendor == a.vendor && b.device_id == a.device_id
            &&& b.driver == a.driver && b.cut_point == a.cut_point && b.companions == a.companions
            &&& b.rebar_cap_offset == a.rebar_cap_offset
            &&& b.rebar_entry_index == a.rebar_entry_index && b.bar_index == a.bar_index
        }
}

/// The plan that undoes a plan does so for every action of it.
pub proof fn law_reversed_undoes(p: PlanView)
    ensures
        undoes(execute::reversed(p), p),
{
}

/// Why `rollback` fails.
pub proof fn law_rollback_failures(o: OptionsView, f: Facts)
    ensures
        execute::rollback_step(o, f) matches StepView::Fail(e) ==> {
            if !is_root(f) {
                f.uid is Some && e == "must run as root (uid="@ + number::dec(f.uid->0 as nat)
                    + ")"@
            } else if !(f.loaded matches Some(Ok(_))) {
                f.loaded matches Some(Err(m)) && e == m@
            } else if !kernel_passes(o, f) {
                f.cmdline is Some && e
                    == "pci=realloc is not in the kernel cmdline; re-run with --force to override"@
            } else if !consumers_pass(o, f) {
                f.consumers is Some && f.warned && !o.force && e
                    == "refusing to proceed while GPUs are in use; stop the consumer(s) or re-run with --force"@
            } else if !consent_given(o, f) {
                match f.answer {
                    Some(Ok(_)) => e == "cancelled by user"@,
                    Some(Err(m)) => e == m@,
                    None => false,
                }
            } else {
                match f.ran {
                    Some(Err(m)) => e == m@,
                    _ => f.ran is Some && (f.deleted matches Some(manifest::FileOutcome::Failed(m))
                        && e == m@),
                }
            }
        },
{
}

/// Which step of `verify` comes next: it needs no root and asks nothing.
pub proof fn law_verify_steps(o: OptionsView, f: Facts)
    ensures
        ({
            let s = execute::verify_step(o, f);
            &&& f.loaded is None ==> s == StepView::ReadManifest(o.path())
            &&& f.loaded matches Some(Err(e)) ==> s == StepView::Fail(e@)
            &&& f.loaded matches Some(Ok(p)) ==> {
                &&& !f.shown ==> s == StepView::Show(
                    plan::plan_text(p@, p@.actions.len()) + "\n"@,
                )
                &&& f.shown && f.devices is None ==> s == StepView::ReadDevices(p@)
                &&& f.shown && f.devices is Some ==> s is Report || s is Fail
            }
        }),
{
    reveal(execute::shown_plan);
}

/// A file that should go and is not there counts as gone; every other failure is passed on.
pub proof fn law_missing_file_is_gone(outcome: manifest::FileOutcome)
    ensures
        manifest::missing_is_fine(outcome) is Err <==> outcome is Failed,
        outcome matches manifest::FileOutcome::Failed(e) ==> manifest::missing_is_fine(outcome)
            == Err::<(), Seq<char>>(e@),
{
}

} // verus!
