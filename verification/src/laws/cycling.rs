//! Which devices the cycle touches, and what it does to them.

use vstd::prelude::*;

use crate::execute::cycle::{
    self, CycleStepView, EffectView, OnFailureView, ReactionView, TargetView, TaskView,
};
use crate::manifest;
use crate::number;
use crate::pci::Bdf;
use crate::plan::ActionView;

verus! {

/// A plan without actions touches no device. One more action adds its GPU, with the driver that
/// the plan notes, and behind it every companion of the GPU, in order and each once.
pub proof fn law_action_adds_its_devices(actions: Seq<ActionView>, a: ActionView, k: int)
    ensures
        cycle::slots(Seq::empty()).len() == 0,
        cycle::slots(actions.push(a)).len() == cycle::slots(actions).len() + 1 + a.companions.len(),
        0 <= k < cycle::slots(actions).len() ==> cycle::slots(actions.push(a))[k]
            == cycle::slots(actions)[k],
        ({
            let t = cycle::slots(actions.push(a))[cycle::slots(actions).len() as int];
            t.bdf == a.bdf && t.driver == a.driver
        }),
        0 <= k < a.companions.len() ==> ({
            let t = cycle::slots(actions.push(a))[cycle::slots(actions).len() + 1 + k];
            t.bdf == a.companions[k] && t.driver is None
        }),
{
    assert(actions.push(a).drop_last() =~= actions);
    assert(actions.push(a).last() == a);
}

/// Every GPU of a plan and every companion of every GPU is among the devices that it touches.
pub proof fn law_all_devices_are_touched(actions: Seq<ActionView>, i: int, c: Bdf)
    requires
        0 <= i < actions.len(),
    ensures
        exists|k: int|
            0 <= k < cycle::slots(actions).len() && (#[trigger] cycle::slots(actions)[k]).bdf
                == actions[i].bdf && cycle::slots(actions)[k].driver == actions[i].driver,
        actions[i].companions.contains(c) ==> exists|k: int|
            0 <= k < cycle::slots(actions).len() && (#[trigger] cycle::slots(actions)[k]).bdf == c
                && cycle::slots(actions)[k].driver is None,
    decreases actions.len(),
{
    let front = actions.drop_last();
    let a = actions.last();
    let all = cycle::slots(actions);
    let n = cycle::slots(front).len() as int;
    assert(front.push(a) =~= actions);
    law_action_adds_its_devices(front, a, 0);
    if i == front.len() {
        assert(all[n].bdf == a.bdf);
        if a.companions.contains(c) {
            let j = choose|j: int| 0 <= j < a.companions.len() && a.companions[j] == c;
            law_action_adds_its_devices(front, a, j);
            assert(all[n + 1 + j].bdf == c);
        }
    } else {
        law_all_devices_are_touched(front, i, c);
        let before = cycle::slots(front);
        let k = choose|k: int|
            0 <= k < before.len() && (#[trigger] before[k]).bdf == actions[i].bdf
                && before[k].driver == actions[i].driver;
        law_action_adds_its_devices(front, a, k);
        assert(all[k].bdf == actions[i].bdf);
        if actions[i].companions.contains(c) {
            let k = choose|k: int|
                0 <= k < before.len() && (#[trigger] before[k]).bdf == c
                    && before[k].driver is None;
            law_action_adds_its_devices(front, a, k);
            assert(all[k].bdf == c);
        }
    }
}

/// A plan touches no device but its GPUs and their companions.
pub proof fn law_no_other_device_is_touched(actions: Seq<ActionView>, k: int)
    requires
        0 <= k < cycle::slots(actions).len(),
    ensures
        exists|i: int|
            0 <= i < actions.len() && ((#[trigger] actions[i]).bdf == cycle::slots(actions)[k].bdf
                || actions[i].companions.contains(cycle::slots(actions)[k].bdf)),
    decreases actions.len(),
{
    let front = actions.drop_last();
    let a = actions.last();
    let n = cycle::slots(front).len() as int;
    assert(front.push(a) =~= actions);
    law_action_adds_its_devices(front, a, k);
    if k < n {
        law_no_other_device_is_touched(front, k);
        let i = choose|i: int|
            0 <= i < front.len() && ((#[trigger] front[i]).bdf == cycle::slots(front)[k].bdf
                || front[i].companions.contains(cycle::slots(front)[k].bdf));
        assert(actions[i] == front[i]);
    } else {
        assert(actions[actions.len() - 1] == a);
        if k > n {
            law_action_adds_its_devices(front, a, k - n - 1);
            assert(a.companions.contains(a.companions[k - n - 1]));
        }
    }
}

/// The driver to unbind from a device is the one that is bound to it; where none is bound, it is
/// the one that the plan notes, if any.
pub proof fn law_driver_to_unbind(
    actions: Seq<ActionView>,
    bound: Seq<Option<Seq<char>>>,
    k: int,
)
    requires
        0 <= k < cycle::slots(actions).len(),
    ensures
        cycle::unbind_targets(actions, bound).len() == cycle::slots(actions).len(),
        cycle::unbind_targets(actions, bound)[k].bdf == cycle::slots(actions)[k].bdf,
        bound[k] is Some ==> cycle::unbind_targets(actions, bound)[k].driver == bound[k],
        bound[k] is None ==> cycle::unbind_targets(actions, bound)[k].driver == cycle::slots(
            actions,
        )[k].driver,
{
}

// ---------------------------------------------------------------- the tasks of each step

/// One more device with a driver is one more driver to unbind, to bind again, and to bind again
/// after a failure; a device without a driver is none. Only warnings follow where unbinding or
/// binding fails.
pub proof fn law_driver_tasks(targets: Seq<TargetView>, b: Bdf, d: Seq<char>)
    ensures
        ({
            let bare = targets.push(TargetView { bdf: b, driver: None });
            &&& cycle::unbind_tasks(bare) == cycle::unbind_tasks(targets)
            &&& cycle::bind_tasks(bare) == cycle::bind_tasks(targets)
            &&& cycle::rebind_tasks(bare) == cycle::rebind_tasks(targets)
        }),
        ({
            let more = targets.push(TargetView { bdf: b, driver: Some(d) });
            &&& cycle::unbind_tasks(more) == cycle::unbind_tasks(targets).push(
                TaskView {
                    effect: EffectView::Unbind { bdf: b, driver: d },
                    told: Some("  unbound "@ + d + " from "@ + b.text()),
                    on_failure: OnFailureView::Warn(
                        "  warn: unbind "@ + d + " from "@ + b.text() + ": "@,
                    ),
                },
            )
            &&& cycle::bind_tasks(more) == cycle::bind_tasks(targets).push(
                TaskView {
                    effect: EffectView::Bind { bdf: b, driver: d, seconds: 15 },
                    told: Some("  "@ + b.text() + " bound to "@ + d),
                    on_failure: OnFailureView::Warn(
                        "  warn: "@ + b.text() + " could not be bound to "@ + d + ": "@,
                    ),
                },
            )
            &&& cycle::rebind_tasks(more) == cycle::rebind_tasks(targets).push(
                TaskView {
                    effect: EffectView::Bind { bdf: b, driver: d, seconds: 5 },
                    told: None,
                    on_failure: OnFailureView::Ignore,
                },
            )
        }),
        cycle::unbind_tasks(Seq::empty()).len() == 0,
        cycle::bind_tasks(Seq::empty()).len() == 0,
        cycle::rebind_tasks(Seq::empty()).len() == 0,
{
    let bare = TargetView { bdf: b, driver: None };
    let more = TargetView { bdf: b, driver: Some(d) };
    assert(targets.push(bare).drop_last() =~= targets);
    assert(targets.push(bare).last() == bare);
    assert(targets.push(more).drop_last() =~= targets);
    assert(targets.push(more).last() == more);
    let u = cycle::unbind_task(b, d);
    let v = cycle::bind_task(b, d);
    let w = cycle::rebind_task(b, d);
    assert(cycle::unbind_tasks(targets).push(u) =~= cycle::unbind_tasks(targets) + seq![u]);
    assert(cycle::bind_tasks(targets).push(v) =~= cycle::bind_tasks(targets) + seq![v]);
    assert(cycle::rebind_tasks(targets).push(w) =~= cycle::rebind_tasks(targets) + seq![w]);
}

/// Each action has its write, in order, to the control register of its entry, unless its BAR has
/// the target size already; and each has its wait of at most fifteen seconds. Failure of either
/// stops the cycle.
pub proof fn law_action_tasks(actions: Seq<ActionView>, i: int)
    requires
        0 <= i < actions.len(),
    ensures
        cycle::write_tasks(actions).len() == actions.len(),
        cycle::wait_tasks(actions).len() == actions.len(),
        ({
            let a = actions[i];
            let w = cycle::write_tasks(actions)[i];
            let v = cycle::wait_tasks(actions)[i];
            let name = "  "@ + a.bdf.text() + " BAR "@ + number::dec(a.bar_index as nat);
            &&& w.on_failure is Stop
            &&& a.target_size_index != a.original_size_index ==> w.effect == EffectView::WriteSize {
                bdf: a.bdf,
                cap_offset: a.rebar_cap_offset,
                entry_index: a.rebar_entry_index,
                size_index: a.target_size_index,
            } && w.told == Some(
                name + ": size idx "@ + number::dec(a.original_size_index as nat) + " → "@
                    + number::dec(a.target_size_index as nat),
            )
            &&& a.target_size_index == a.original_size_index ==> w.effect is Nothing && w.told
                == Some(
                name + " already at size idx "@ + number::dec(a.original_size_index as nat)
                    + " — skipping write"@,
            )
            &&& v.on_failure is Stop
            &&& v.effect == EffectView::WaitFor { bdf: a.bdf, seconds: 15 }
            &&& v.told == Some("  "@ + a.bdf.text() + " is back"@)
        }),
{
}

/// The bridges to remove are those at which an action cuts the tree, each once, in ascending
/// order. Failure to remove one stops the cycle.
pub proof fn law_bridge_tasks(actions: Seq<ActionView>, b: Bdf, i: int, j: int)
    ensures
        ({
            let cuts = cycle::cut_points(actions);
            &&& cuts.contains(b) <==> exists|k: int|
                0 <= k < actions.len() && (#[trigger] actions[k]).cut_point == b
            &&& 0 <= i < j < cuts.len() ==> {
                let (x, y) = (cuts[i], cuts[j]);
                ||| x.domain < y.domain
                ||| x.domain == y.domain && x.bus < y.bus
                ||| x.domain == y.domain && x.bus == y.bus && x.device < y.device
                ||| x.domain == y.domain && x.bus == y.bus && x.device == y.device && x.function
                    < y.function
            }
            &&& cycle::remove_tasks(cuts).len() == cuts.len()
            &&& 0 <= i < cuts.len() ==> {
                let t = cycle::remove_tasks(cuts)[i];
                &&& t.effect == EffectView::Remove(cuts[i])
                &&& t.on_failure is Stop
                &&& t.told == Some("  removed "@ + cuts[i].text())
            }
        }),
{
    let cuts = cycle::cut_points(actions);
    let all = cycle::plan_cuts(actions);
    cycle::lemma_cut_points(actions);
    if cuts.contains(b) {
        assert(all.contains(b));
        let k = choose|k: int| 0 <= k < all.len() && all[k] == b;
        assert(actions[k].cut_point == b);
    }
    if exists|k: int| 0 <= k < actions.len() && (#[trigger] actions[k]).cut_point == b {
        let k = choose|k: int| 0 <= k < actions.len() && (#[trigger] actions[k]).cut_point == b;
        assert(all[k] == b);
        assert(all.contains(b));
    }
    if 0 <= i < j < cuts.len() {
        assert(cuts[i].rank() < cuts[j].rank());
        crate::pci::law_bdf_order(cuts[i], cuts[j]);
    }
}

// ---------------------------------------------------------------- the whole cycle

proof fn lemma_all_kept(s: Seq<TaskView>, pred: spec_fn(TaskView) -> bool)
    requires
        forall|i: int| 0 <= i < s.len() ==> pred(#[trigger] s[i]),
    ensures
        s.filter(pred) == s,
    decreases s.len(),
{
    reveal(Seq::filter);
    if s.len() > 0 {
        let front = s.drop_last();
        assert forall|i: int| 0 <= i < front.len() implies pred(#[trigger] front[i]) by {
            assert(front[i] == s[i]);
        }
        lemma_all_kept(front, pred);
        assert(pred(s[s.len() - 1]));
        assert(front.push(s.last()) =~= s);
    }
}

proof fn lemma_none_kept(s: Seq<TaskView>, pred: spec_fn(TaskView) -> bool)
    requires
        forall|i: int| 0 <= i < s.len() ==> !pred(#[trigger] s[i]),
    ensures
        s.filter(pred) == Seq::<TaskView>::empty(),
{
    s.lemma_all_neg_filter_empty(pred);
    assert(s.filter(pred) =~= Seq::<TaskView>::empty());
}

proof fn lemma_driver_effects(targets: Seq<TargetView>, i: int)
    ensures
        0 <= i < cycle::unbind_tasks(targets).len() ==> cycle::unbind_tasks(
            targets,
        )[i].effect is Unbind,
        0 <= i < cycle::bind_tasks(targets).len() ==> cycle::bind_tasks(targets)[i].effect is Bind,
        0 <= i < cycle::rebind_tasks(targets).len() ==> cycle::rebind_tasks(
            targets,
        )[i].effect is Bind,
    decreases targets.len(),
{
    if targets.len() > 0 {
        let front = targets.drop_last();
        let last = targets.last();
        assert(front.push(last) =~= targets);
        lemma_driver_effects(front, i);
        match last.driver {
            Some(d) => law_driver_tasks(front, last.bdf, d),
            None => law_driver_tasks(front, last.bdf, seq![]),
        }
        assert(TargetView { bdf: last.bdf, driver: last.driver } == last);
    } else {
        assert(targets =~= Seq::<TargetView>::empty());
    }
}

/// The tasks of the cycle with effects of one kind are those of one step.
proof fn lemma_steps(
    actions: Seq<ActionView>,
    targets: Seq<TargetView>,
    pred: spec_fn(TaskView) -> bool,
)
    requires
        forall|t: TaskView| (#[trigger] pred(t)) ==> !(t.effect is Nothing),
    ensures
        cycle::schedule(actions, targets).filter(pred) == cycle::unbind_tasks(targets).filter(pred)
            + cycle::write_tasks(actions).filter(pred) + cycle::remove_tasks(
            cycle::cut_points(actions),
        ).filter(pred) + seq![cycle::silent(EffectView::Sleep(2))].filter(pred) + seq![
            cycle::silent(EffectView::Rescan),
        ].filter(pred) + cycle::wait_tasks(actions).filter(pred) + cycle::bind_tasks(
            targets,
        ).filter(pred) + seq![cycle::silent(EffectView::Verify)].filter(pred),
{
    let cuts = cycle::cut_points(actions);
    let s1 = seq![cycle::tell("[step 1] unbinding drivers"@)];
    let s2 = seq![cycle::tell("[step 2] writing rebar CTRL registers"@)];
    let s3 = seq![cycle::tell("[step 3] removing cut-point bridges"@)];
    let sleep = seq![cycle::silent(EffectView::Sleep(2))];
    let t4 = seq![cycle::tell("[step 4] rescanning PCI bus"@)];
    let rescan = seq![cycle::silent(EffectView::Rescan)];
    let t5 = seq![cycle::tell("[step 5] waiting for devices to reappear"@)];
    let s4 = seq![sleep[0], t4[0], rescan[0], t5[0]];
    let s6 = seq![cycle::tell("[step 6] waiting for drivers to bind (udev)"@)];
    let t7 = seq![cycle::tell("[step 7] verifying BAR sizes"@)];
    let verify = seq![cycle::silent(EffectView::Verify)];
    let s7 = seq![t7[0], verify[0]];
    assert(s4 =~= sleep + t4 + rescan + t5);
    assert(s7 =~= t7 + verify);
    let a1 = s1 + cycle::unbind_tasks(targets);
    let a2 = a1 + s2;
    let a3 = a2 + cycle::write_tasks(actions);
    let a4 = a3 + s3;
    let a5 = a4 + cycle::remove_tasks(cuts);
    let a6 = a5 + s4;
    let a7 = a6 + cycle::wait_tasks(actions);
    let a8 = a7 + s6;
    let a9 = a8 + cycle::bind_tasks(targets);
    assert(cycle::schedule(actions, targets) == a9 + s7);
    Seq::filter_distributes_over_add(a9, s7, pred);
    Seq::filter_distributes_over_add(a8, cycle::bind_tasks(targets), pred);
    Seq::filter_distributes_over_add(a7, s6, pred);
    Seq::filter_distributes_over_add(a6, cycle::wait_tasks(actions), pred);
    Seq::filter_distributes_over_add(a5, s4, pred);
    Seq::filter_distributes_over_add(a4, cycle::remove_tasks(cuts), pred);
    Seq::filter_distributes_over_add(a3, s3, pred);
    Seq::filter_distributes_over_add(a2, cycle::write_tasks(actions), pred);
    Seq::filter_distributes_over_add(a1, s2, pred);
    Seq::filter_distributes_over_add(s1, cycle::unbind_tasks(targets), pred);
    Seq::filter_distributes_over_add(t7, verify, pred);
    Seq::filter_distributes_over_add(sleep + t4 + rescan, t5, pred);
    Seq::filter_distributes_over_add(sleep + t4, rescan, pred);
    Seq::filter_distributes_over_add(sleep, t4, pred);
    lemma_none_kept(s1, pred);
    lemma_none_kept(s2, pred);
    lemma_none_kept(s3, pred);
    lemma_none_kept(t4, pred);
    lemma_none_kept(t5, pred);
    lemma_none_kept(s6, pred);
    lemma_none_kept(t7, pred);
    let none = Seq::<TaskView>::empty();
    let u = cycle::unbind_tasks(targets).filter(pred);
    let w = cycle::write_tasks(actions).filter(pred);
    let r = cycle::remove_tasks(cuts).filter(pred);
    let fs = sleep.filter(pred);
    let fr = rescan.filter(pred);
    let v = cycle::wait_tasks(actions).filter(pred);
    let b = cycle::bind_tasks(targets).filter(pred);
    let fv = verify.filter(pred);
    assert(cycle::schedule(actions, targets).filter(pred) == none + u + none + w + none + r + (fs
        + none + fr + none) + v + none + b + (none + fv));
    assert(none + u + none + w + none + r + (fs + none + fr + none) + v + none + b + (none + fv)
        =~= u + w + r + fs + fr + v + b + fv);
}

proof fn lemma_kinds(actions: Seq<ActionView>, targets: Seq<TargetView>)
    ensures
        forall|i: int|
            0 <= i < cycle::unbind_tasks(targets).len() ==> (#[trigger] cycle::unbind_tasks(
                targets,
            )[i]).effect is Unbind,
        forall|i: int|
            0 <= i < cycle::bind_tasks(targets).len() ==> (#[trigger] cycle::bind_tasks(
                targets,
            )[i]).effect is Bind,
        forall|i: int|
            0 <= i < actions.len() ==> {
                let e = (#[trigger] cycle::write_tasks(actions)[i]).effect;
                e is WriteSize || e is Nothing
            },
{
    assert forall|i: int| 0 <= i < cycle::unbind_tasks(targets).len() implies (
    #[trigger] cycle::unbind_tasks(targets)[i]).effect is Unbind by {
        lemma_driver_effects(targets, i);
    }
    assert forall|i: int| 0 <= i < cycle::bind_tasks(targets).len() implies (
    #[trigger] cycle::bind_tasks(targets)[i]).effect is Bind by {
        lemma_driver_effects(targets, i);
    }
}

/// What the cycle does, step by step: it unbinds each driver, removes each bridge, waits for each
/// GPU and binds each driver, once each and in the order of the lists; it rescans once, sleeps
/// once, for two seconds, and compares the sizes once.
pub proof fn law_cycle_does_each_once(actions: Seq<ActionView>, targets: Seq<TargetView>)
    ensures
        ({
            let tasks = cycle::schedule(actions, targets);
            let cuts = cycle::cut_points(actions);
            &&& tasks.filter(|t: TaskView| t.effect is Unbind) == cycle::unbind_tasks(targets)
            &&& tasks.filter(|t: TaskView| t.effect is Remove) == cycle::remove_tasks(cuts)
            &&& tasks.filter(|t: TaskView| t.effect is WaitFor) == cycle::wait_tasks(actions)
            &&& tasks.filter(|t: TaskView| t.effect is Bind) == cycle::bind_tasks(targets)
            &&& tasks.filter(|t: TaskView| t.effect is WriteSize) == cycle::write_tasks(
                actions,
            ).filter(|t: TaskView| t.effect is WriteSize)
            &&& tasks.filter(|t: TaskView| t.effect is Sleep) == seq![
                TaskView {
                    effect: EffectView::Sleep(2),
                    told: None,
                    on_failure: OnFailureView::Stop,
                },
            ]
            &&& tasks.filter(|t: TaskView| t.effect is Rescan) == seq![
                TaskView {
                    effect: EffectView::Rescan,
                    told: None,
                    on_failure: OnFailureView::Stop,
                },
            ]
            &&& tasks.filter(|t: TaskView| t.effect is Verify) == seq![
                TaskView {
                    effect: EffectView::Verify,
                    told: None,
                    on_failure: OnFailureView::Stop,
                },
            ]
        }),
{
    lemma_kinds(actions, targets);
    let cuts = cycle::cut_points(actions);
    let none = Seq::<TaskView>::empty();
    let u = cycle::unbind_tasks(targets);
    let w = cycle::write_tasks(actions);
    let r = cycle::remove_tasks(cuts);
    let s = seq![cycle::silent(EffectView::Sleep(2))];
    let c = seq![cycle::silent(EffectView::Rescan)];
    let v = cycle::wait_tasks(actions);
    let b = cycle::bind_tasks(targets);
    let e = seq![cycle::silent(EffectView::Verify)];
    let tasks = cycle::schedule(actions, targets);
    let is_unbind = |t: TaskView| t.effect is Unbind;
    lemma_steps(actions, targets, is_unbind);
    lemma_all_kept(u, is_unbind);
    lemma_none_kept(w, is_unbind);
    lemma_none_kept(r, is_unbind);
    lemma_none_kept(s, is_unbind);
    lemma_none_kept(c, is_unbind);
    lemma_none_kept(v, is_unbind);
    lemma_none_kept(b, is_unbind);
    lemma_none_kept(e, is_unbind);
    assert(tasks.filter(is_unbind) =~= u);
    let is_remove = |t: TaskView| t.effect is Remove;
    lemma_steps(actions, targets, is_remove);
    lemma_none_kept(u, is_remove);
    lemma_none_kept(w, is_remove);
    lemma_all_kept(r, is_remove);
    lemma_none_kept(s, is_remove);
    lemma_none_kept(c, is_remove);
    lemma_none_kept(v, is_remove);
    lemma_none_kept(b, is_remove);
    lemma_none_kept(e, is_remove);
    assert(tasks.filter(is_remove) =~= r);
    let is_wait = |t: TaskView| t.effect is WaitFor;
    lemma_steps(actions, targets, is_wait);
    lemma_none_kept(u, is_wait);
    lemma_none_kept(w, is_wait);
    lemma_none_kept(r, is_wait);
    lemma_none_kept(s, is_wait);
    lemma_none_kept(c, is_wait);
    lemma_all_kept(v, is_wait);
    lemma_none_kept(b, is_wait);
    lemma_none_kept(e, is_wait);
    assert(tasks.filter(is_wait) =~= v);
    let is_bind = |t: TaskView| t.effect is Bind;
    lemma_steps(actions, targets, is_bind);
    lemma_none_kept(u, is_bind);
    lemma_none_kept(w, is_bind);
    lemma_none_kept(r, is_bind);
    lemma_none_kept(s, is_bind);
    lemma_none_kept(c, is_bind);
    lemma_none_kept(v, is_bind);
    lemma_all_kept(b, is_bind);
    lemma_none_kept(e, is_bind);
    assert(tasks.filter(is_bind) =~= b);
    let is_write = |t: TaskView| t.effect is WriteSize;
    lemma_steps(actions, targets, is_write);
    lemma_none_kept(u, is_write);
    lemma_none_kept(r, is_write);
    lemma_none_kept(s, is_write);
    lemma_none_kept(c, is_write);
    lemma_none_kept(v, is_write);
    lemma_none_kept(b, is_write);
    lemma_none_kept(e, is_write);
    assert(tasks.filter(is_write) =~= w.filter(is_write));
    let is_sleep = |t: TaskView| t.effect is Sleep;
    lemma_steps(actions, targets, is_sleep);
    lemma_none_kept(u, is_sleep);
    lemma_none_kept(w, is_sleep);
    lemma_none_kept(r, is_sleep);
    lemma_all_kept(s, is_sleep);
    lemma_none_kept(c, is_sleep);
    lemma_none_kept(v, is_sleep);
    lemma_none_kept(b, is_sleep);
    lemma_none_kept(e, is_sleep);
    assert(tasks.filter(is_sleep) =~= s);
    let is_rescan = |t: TaskView| t.effect is Rescan;
    lemma_steps(actions, targets, is_rescan);
    lemma_none_kept(u, is_rescan);
    lemma_none_kept(w, is_rescan);
    lemma_none_kept(r, is_rescan);
    lemma_none_kept(s, is_rescan);
    lemma_all_kept(c, is_rescan);
    lemma_none_kept(v, is_rescan);
    lemma_none_kept(b, is_rescan);
    lemma_none_kept(e, is_rescan);
    assert(tasks.filter(is_rescan) =~= c);
    let is_verify = |t: TaskView| t.effect is Verify;
    lemma_steps(actions, targets, is_verify);
    lemma_none_kept(u, is_verify);
    lemma_none_kept(w, is_verify);
    lemma_none_kept(r, is_verify);
    lemma_none_kept(s, is_verify);
    lemma_none_kept(c, is_verify);
    lemma_none_kept(v, is_verify);
    lemma_none_kept(b, is_verify);
    lemma_all_kept(e, is_verify);
    assert(tasks.filter(is_verify) =~= e);
}

/// The lines that tell of each step stand in front of its tasks, and the cycle has no tasks but
/// these.
pub proof fn law_steps_are_told(actions: Seq<ActionView>, targets: Seq<TargetView>, i: int)
    ensures
        ({
            let tasks = cycle::schedule(actions, targets);
            let unbinds = cycle::unbind_tasks(targets);
            let cuts = cycle::cut_points(actions);
            let binds = cycle::bind_tasks(targets);
            let a = 1 + unbinds.len() as int;
            let b = a + 1 + actions.len();
            let c = b + 1 + cuts.len();
            let d = c + 4 + actions.len();
            let e = d + 1 + binds.len();
            &&& tasks.len() == e + 2
            &&& tasks[0] == told("[step 1] unbinding drivers"@)
            &&& tasks[a] == told("[step 2] writing rebar CTRL registers"@)
            &&& tasks[b] == told("[step 3] removing cut-point bridges"@)
            &&& tasks[c + 1] == told("[step 4] rescanning PCI bus"@)
            &&& tasks[c + 3] == told("[step 5] waiting for devices to reappear"@)
            &&& tasks[d] == told("[step 6] waiting for drivers to bind (udev)"@)
            &&& tasks[e] == told("[step 7] verifying BAR sizes"@)
            &&& 0 <= i < unbinds.len() ==> tasks[1 + i] == unbinds[i]
            &&& 0 <= i < actions.len() ==> tasks[a + 1 + i] == cycle::write_tasks(actions)[i]
            &&& 0 <= i < cuts.len() ==> tasks[b + 1 + i] == cycle::remove_tasks(cuts)[i]
            &&& 0 <= i < actions.len() ==> tasks[c + 4 + i] == cycle::wait_tasks(actions)[i]
            &&& 0 <= i < binds.len() ==> tasks[d + 1 + i] == binds[i]
        }),
{
}

/// A task that does nothing but tell a line.
pub open spec fn told(line: Seq<char>) -> TaskView {
    TaskView {
        effect: EffectView::Nothing,
        told: Some(line),
        on_failure: OnFailureView::Stop,
    }
}

/// In the cycle, no driver is unbound once a size was written or anything later was done, no size
/// is written once a bridge was removed, no bridge is removed once the bus was rescanned, and the
/// waiting, the binding and the comparison follow in this order.
pub proof fn law_cycle_keeps_order(
    actions: Seq<ActionView>,
    targets: Seq<TargetView>,
    i: int,
    j: int,
)
    requires
        0 <= i < j < cycle::schedule(actions, targets).len(),
    ensures
        ({
            let e = cycle::schedule(actions, targets)[i].effect;
            let l = cycle::schedule(actions, targets)[j].effect;
            &&& l is Unbind ==> e is Unbind || e is Nothing || e is Sleep
            &&& l is WriteSize ==> e is Unbind || e is WriteSize || e is Nothing || e is Sleep
            &&& l is Remove ==> !(e is Rescan || e is WaitFor || e is Bind || e is Verify)
            &&& l is Rescan ==> !(e is WaitFor || e is Bind || e is Verify)
            &&& l is WaitFor ==> !(e is Bind || e is Verify)
            &&& l is Bind ==> !(e is Verify)
        }),
{
    let e = cycle::schedule(actions, targets)[i].effect;
    let l = cycle::schedule(actions, targets)[j].effect;
    if cycle::stage(e) is Some && cycle::stage(l) is Some {
        cycle::law_cycle_order(actions, targets, i, j);
    }
}

/// The cycle waits two seconds after it removed the last bridge and before it rescans: the sleep
/// stands behind all removals and in front of the rescan.
pub proof fn law_pause_before_rescan(actions: Seq<ActionView>, targets: Seq<TargetView>)
    ensures
        exists|k: int|
            {
                &&& 0 <= k < cycle::schedule(actions, targets).len() - 2
                &&& (#[trigger] cycle::schedule(actions, targets)[k]).effect == EffectView::Sleep(2)
                &&& cycle::schedule(actions, targets)[k + 1].effect is Nothing
                &&& cycle::schedule(actions, targets)[k + 2].effect is Rescan
            },
{
    let tasks = cycle::schedule(actions, targets);
    let k = 3 + cycle::unbind_tasks(targets).len() + actions.len() + cycle::cut_points(
        actions,
    ).len() as int;
    assert(tasks[k].effect == EffectView::Sleep(2));
    assert(tasks[k + 1].effect is Nothing);
    assert(tasks[k + 2].effect is Rescan);
}

/// A driver that is bound to a GPU of a plan, or to one of its companions, is unbound by the cycle
/// before any bridge is removed, and bound again by it; and after a failure it is bound again by
/// the recovery.
pub proof fn law_bound_drivers_are_cycled(
    actions: Seq<ActionView>,
    bound: Seq<Option<Seq<char>>>,
    k: int,
    d: Seq<char>,
)
    requires
        0 <= k < cycle::slots(actions).len(),
        bound[k] == Some(d),
    ensures
        ({
            let targets = cycle::unbind_targets(actions, bound);
            let tasks = cycle::schedule(actions, targets);
            let b = cycle::slots(actions)[k].bdf;
            &&& exists|i: int|
                {
                    &&& 0 <= i < tasks.len()
                    &&& (#[trigger] tasks[i]).effect == (EffectView::Unbind { bdf: b, driver: d })
                    &&& forall|j: int| 0 <= j < i ==> !((#[trigger] tasks[j]).effect is Remove)
                }
            &&& exists|i: int|
                0 <= i < tasks.len() && (#[trigger] tasks[i]).effect == (EffectView::Bind {
                    bdf: b,
                    driver: d,
                    seconds: 15,
                })
            &&& exists|i: int|
                0 <= i < cycle::recovery_of(targets).len() && (#[trigger] cycle::recovery_of(
                    targets,
                )[i]).effect == (EffectView::Bind { bdf: b, driver: d, seconds: 5 })
        }),
{
    let targets = cycle::unbind_targets(actions, bound);
    let tasks = cycle::schedule(actions, targets);
    let b = cycle::slots(actions)[k].bdf;
    law_driver_to_unbind(actions, bound, k);
    let e = EffectView::Unbind { bdf: b, driver: d };
    assert(targets[k].bdf == b && targets[k].driver == Some(d));
    cycle::law_cycle_effects(actions, targets, e);
    assert(cycle::does(tasks, e));
    let i = choose|i: int| 0 <= i < tasks.len() && (#[trigger] tasks[i]).effect == e;
    assert forall|j: int| 0 <= j < i implies !((#[trigger] tasks[j]).effect is Remove) by {
        law_cycle_keeps_order(actions, targets, j, i);
    }
    cycle::law_drivers_bound_again(actions, targets, b, d);
}

/// After a failure the bus is rescanned at once, three seconds pass, and then each driver that was
/// to be unbound is bound again, once each and in order. No failure stops the recovery.
pub proof fn law_recovery(targets: Seq<TargetView>, i: int)
    ensures
        ({
            let tasks = cycle::recovery_of(targets);
            &&& tasks.len() == cycle::rebind_tasks(targets).len() + 4
            &&& tasks[0].effect is Nothing
            &&& tasks[1].effect is Rescan && tasks[1].on_failure is Ignore
            &&& tasks[2].effect == EffectView::Sleep(3) && tasks[2].on_failure is Ignore
            &&& 0 <= i < cycle::rebind_tasks(targets).len() ==> tasks[i + 3]
                == cycle::rebind_tasks(targets)[i]
            &&& tasks.last().effect is Nothing
            &&& tasks[0].told
                == Some("[RECOVERY] attempting best-effort rescan and rebind after failure"@)
            &&& tasks.last().told
                == Some("[RECOVERY] done; inspect `lspci` and `dmesg` for state"@)
        }),
{
}

// ---------------------------------------------------------------- performing the tasks

/// A task that succeeds is told of. One that fails stops the cycle with its error, is warned of
/// with its error, or is passed over, as the task says.
pub proof fn law_reactions(t: TaskView, e: Seq<char>)
    ensures
        cycle::reaction_to(t, Ok(())) == ReactionView::Go(t.told),
        t.on_failure is Stop <==> cycle::reaction_to(t, Err(e)) is Stop,
        t.on_failure is Stop ==> cycle::reaction_to(t, Err(e)) == ReactionView::Stop(e),
        t.on_failure matches OnFailureView::Warn(w) ==> cycle::reaction_to(t, Err(e))
            == ReactionView::Go(Some(w + e)),
        t.on_failure is Ignore ==> cycle::reaction_to(t, Err(e)) == ReactionView::Go(None),
{
}

/// The first task that failed and stops the cycle decides its error; where there is none, the cycle
/// is not stopped.
pub proof fn law_first_failure_stops(
    tasks: Seq<TaskView>,
    outcomes: Seq<Result<(), Seq<char>>>,
)
    requires
        outcomes.len() <= tasks.len(),
    ensures
        match cycle::stopped(tasks, outcomes) {
            Some(e) => exists|k: int|
                {
                    &&& 0 <= k < outcomes.len()
                    &&& (#[trigger] outcomes[k]) == Err::<(), Seq<char>>(e)
                    &&& tasks[k].on_failure is Stop
                    &&& forall|j: int|
                        0 <= j < k ==> (#[trigger] outcomes[j]) is Ok || !(
                        tasks[j].on_failure is Stop)
                },
            None => forall|k: int|
                0 <= k < outcomes.len() ==> (#[trigger] outcomes[k]) is Ok || !(
                tasks[k].on_failure is Stop),
        },
    decreases outcomes.len(),
{
    if outcomes.len() > 0 {
        let front = outcomes.drop_last();
        let n = outcomes.len() - 1;
        law_first_failure_stops(tasks, front);
        match cycle::stopped(tasks, front) {
            Some(e) => {
                let k = choose|k: int|
                    {
                        &&& 0 <= k < front.len()
                        &&& (#[trigger] front[k]) == Err::<(), Seq<char>>(e)
                        &&& tasks[k].on_failure is Stop
                        &&& forall|j: int|
                            0 <= j < k ==> (#[trigger] front[j]) is Ok || !(
                            tasks[j].on_failure is Stop)
                    };
                assert(outcomes[k] == Err::<(), Seq<char>>(e));
                assert forall|j: int| 0 <= j < k implies (#[trigger] outcomes[j]) is Ok || !(
                tasks[j].on_failure is Stop) by {
                    assert(front[j] == outcomes[j]);
                }
            },
            None => {
                assert forall|j: int| 0 <= j < n implies (#[trigger] outcomes[j]) is Ok || !(
                tasks[j].on_failure is Stop) by {
                    assert(front[j] == outcomes[j]);
                }
                assert(outcomes[n] == outcomes.last());
            },
        }
    }
}

/// A cycle goes on with the first task that was not performed, unless it was stopped; it is done
/// once all were. Whatever ended it before that, the recovery follows; after a cycle that is done
/// nothing follows.
pub proof fn law_cycle_goes_on(
    tasks: Seq<TaskView>,
    outcomes: Seq<Result<(), Seq<char>>>,
    targets: Seq<TargetView>,
)
    requires
        outcomes.len() <= tasks.len(),
    ensures
        ({
            let s = cycle::cycle_step(tasks, outcomes);
            let over = cycle::stopped(tasks, outcomes);
            let after = cycle::aftermath(tasks, outcomes, targets);
            &&& over matches Some(e) ==> s == CycleStepView::Stopped(e)
            &&& over is None && outcomes.len() < tasks.len() ==> s == CycleStepView::Perform(
                outcomes.len() as int,
            )
            &&& over is None && outcomes.len() == tasks.len() ==> s is Done
            &&& over is None && outcomes.len() == tasks.len() ==> after.len() == 0
            &&& over is Some || outcomes.len() < tasks.len() ==> after == cycle::recovery_of(
                targets,
            )
        }),
{
}

/// A driver whose `unbind` file is missing is not loaded and holds no device. Where the file is
/// there, a device that the driver does not hold counts as unbound, and every other failure is
/// passed on.
pub proof fn law_unbinding(exists: bool, written: manifest::FileOutcome)
    ensures
        cycle::unbinding(exists, written) is Err <==> exists && written is Failed,
        written matches manifest::FileOutcome::Failed(e) ==> (exists ==> cycle::unbinding(
            exists,
            written,
        ) == Err::<(), Seq<char>>(e@)),
{
}

} // verus!
