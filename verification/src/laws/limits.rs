//! Which sizes can be compared and shown: those whose numbers of bytes fit in 64 bits.

use vstd::prelude::*;

use crate::diagnose::{self, GpuReadings};
use crate::execute::{self, Facts};
use crate::pci::device::{Device, DeviceView};
use crate::pci::Resource;
use crate::plan::ActionView;
use crate::rebar::RebarView;
use crate::text;

verus! {

/// A size can be compared with its target unless one of the two does not fit in 64 bits: the target
/// from size index 44 on, and a BAR that takes up the whole address space.
pub proof fn law_comparable_sizes(a: ActionView, d: DeviceView)
    ensures
        execute::comparable(a, d) <==> 20 + a.target_size_index < 64 && !(a.bar_index
            < d.resources.len() && whole_space(d.resources[a.bar_index as int])),
{
}

/// A range that takes up the whole address space.
pub open spec fn whole_space(r: Resource) -> bool {
    r.flags != 0 && r.start == 0 && r.end == u64::MAX
}

/// The sizes of a plan can be compared where there is a reading for each action, and each device
/// that was read, up to the first that was not, has sizes that can be compared.
pub proof fn law_comparable_plans(
    actions: Seq<ActionView>,
    devices: Seq<Result<Device, String>>,
    n: int,
)
    requires
        0 <= n <= actions.len(),
        devices.len() == actions.len(),
        forall|i: int|
            0 <= i < n ==> (#[trigger] devices[i] matches Ok(d) && execute::comparable(
                actions[i],
                d@,
            )),
        n < actions.len() ==> devices[n] is Err,
    ensures
        execute::bars_comparable(actions, devices),
{
    assert forall|i: int|
        0 <= i < actions.len() && execute::bar_lines(actions, devices, i as nat) is Ok implies (
    #[trigger] devices[i] matches Ok(d) ==> execute::comparable(actions[i], d@)) by {
        if i > n {
            crate::laws::comparing::law_lines_of_actions(actions, devices, i as nat, n);
        }
    }
}

/// A section on a GPU can be shown unless one of the sizes in it does not fit in 64 bits: that of
/// one of its first six BARs, of an entry of its capability, or of the window above it.
pub proof fn law_showable_gpus(
    gpu: DeviceView,
    reading: Result<Option<RebarView>, Seq<char>>,
    window: Option<Seq<char>>,
)
    requires
        forall|i: int|
            0 <= i < gpu.resources.len() && i < 6 ==> !whole_space(#[trigger] gpu.resources[i]),
        reading matches Ok(Some(reb)) ==> forall|i: int|
            0 <= i < reb.entries.len() ==> 20 + (#[trigger] reb.entries[i]).current_size_index < 64,
        window matches Some(contents) ==> (diagnose::window_of(contents) matches Some(w) ==> !(
        w.start == 0 && w.end == u64::MAX)),
    ensures
        diagnose::gpu_fits(gpu, reading, window),
{
    assert forall|i: int| 0 <= i < diagnose::bar_count(gpu.resources) implies (
    #[trigger] gpu.resources[i]).sized() by {
        assert(!whole_space(gpu.resources[i]));
    }
}

/// A report can be made where there are readings for each GPU and each section can be shown.
pub proof fn law_showable_reports(all: Seq<DeviceView>, readings: Seq<GpuReadings>)
    ensures
        diagnose::reportable(all, readings) <==> readings.len() == diagnose::gpus_of(all).len()
            && forall|i: int|
            0 <= i < readings.len() ==> diagnose::gpu_fits(
                diagnose::gpus_of(all)[i],
                diagnose::rebar_reading((#[trigger] readings[i]).rebar),
                text::opt_text(readings[i].window),
            ),
{
}

/// The plan is shown next exactly where every refusal is passed and it was not shown yet.
pub proof fn law_shown_next(p: crate::plan::PlanView, o: execute::OptionsView, f: Facts)
    ensures
        execute::ready_to_show(o.force, f) <==> execute::execute_step(p, o, f) is Show,
{
}

} // verus!
