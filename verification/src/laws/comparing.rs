//! What comparing the live sizes with a plan gives.

use vstd::arithmetic::power2;
use vstd::prelude::*;

use crate::execute::{self, Facts, OptionsView};
use crate::number;
use crate::pci::device::{Device, DeviceView};
use crate::plan::ActionView;
use crate::rebar;

verus! {

/// The line on an action says that all is well exactly where its device has the BAR, the BAR is in
/// use, and it has two to the power of 20 plus the target size index bytes. For every other size,
/// smaller or larger, it tells of a failure.
pub proof fn law_line_tells_whether_size_is_met(a: ActionView, d: DeviceView)
    ensures
        ({
            let r = d.resources[a.bar_index as int];
            let met = a.bar_index < d.resources.len() && r.flags != 0 && r.start <= r.end && r.end
                != 0 && r.end - r.start + 1 == power2::pow2((20 + a.target_size_index) as nat);
            &&& met <==> "[ OK ]"@.is_prefix_of(execute::bar_line(a, d))
            &&& !met <==> "[FAIL]"@.is_prefix_of(execute::bar_line(a, d))
        }),
{
    reveal_strlit("[ OK ]");
    reveal_strlit("[FAIL]");
    let l = execute::bar_line(a, d);
    power2::lemma_pow2_pos((20 + a.target_size_index) as nat);
    let met = execute::actual_bytes(a, d) == power2::pow2((20 + a.target_size_index) as nat);
    if met {
        assert(l.subrange(0, 6) =~= "[ OK ]"@);
        assert(l[1] == ' ');
    } else {
        assert(l.subrange(0, 6) =~= "[FAIL]"@);
        assert(l[1] == 'F');
    }
    assert("[ OK ]"@[1] == ' ');
    assert("[FAIL]"@[1] == 'F');
}

/// Behind the marker, the line names the device and its BAR, and gives the size that the BAR has,
/// zero where it is not in use, and the size that it should have.
pub proof fn law_line_names_sizes(a: ActionView, d: DeviceView)
    ensures
        ({
            let r = d.resources[a.bar_index as int];
            let used = a.bar_index < d.resources.len() && r.flags != 0 && r.start <= r.end && r.end
                != 0;
            let bytes = if used {
                (r.end - r.start + 1) as nat
            } else {
                0
            };
            execute::bar_line(a, d).skip(6) == " "@ + a.bdf.text() + " BAR "@ + number::dec(
                a.bar_index as nat,
            ) + ": actual "@ + rebar::size_text(bytes) + "  expected "@ + rebar::size_text(
                power2::pow2((20 + a.target_size_index) as nat),
            )
        }),
{
    reveal_strlit("[ OK ]");
    reveal_strlit("[FAIL]");
    let x = rebar::size_text(execute::actual_bytes(a, d) as nat);
    let y = rebar::size_text(power2::pow2((20 + a.target_size_index) as nat));
    let tail = " "@ + a.bdf.text() + " BAR "@ + number::dec(a.bar_index as nat) + ": actual "@ + x
        + "  expected "@ + y;
    assert(execute::bar_line(a, d).skip(6) =~= tail);
}

/// Each action has its line, in the order of the actions, unless a device cannot be read; then the
/// first such device decides the error.
pub proof fn law_lines_of_actions(
    actions: Seq<ActionView>,
    devices: Seq<Result<Device, String>>,
    n: nat,
    i: int,
)
    requires
        n <= devices.len(),
        n <= actions.len(),
    ensures
        match execute::bar_lines(actions, devices, n) {
            Ok(lines) => {
                &&& lines.len() == n
                &&& 0 <= i < n ==> devices[i] is Ok && lines[i] == execute::bar_line(
                    actions[i],
                    devices[i]->Ok_0@,
                )
            },
            Err(e) => exists|k: int|
                {
                    &&& 0 <= k < n
                    &&& (#[trigger] devices[k]) is Err && devices[k]->Err_0@ == e
                    &&& forall|j: int| 0 <= j < k ==> (#[trigger] devices[j]) is Ok
                },
        },
    decreases n,
{
    if n > 0 {
        let m = (n - 1) as nat;
        assert forall|j: int| 0 <= j < m && execute::bar_lines(actions, devices, m) is Ok implies (
        #[trigger] devices[j]) is Ok by {
            law_lines_of_actions(actions, devices, m, j);
        }
        law_lines_of_actions(actions, devices, m, i);
        if execute::bar_lines(actions, devices, m) is Ok && devices[n - 1] is Err {
            assert(devices[n - 1]->Err_0@ == execute::bar_lines(actions, devices, n)->Err_0);
        }
    }
}

/// `verify` reports on each action of the manifest once its device was read.
pub proof fn law_verify_reports(o: OptionsView, f: Facts, i: int)
    requires
        f.loaded matches Some(Ok(_)),
        f.shown,
        f.devices matches Some(devices) && {
            &&& devices@.len() == f.loaded->0->Ok_0@.actions.len()
            &&& forall|j: int| 0 <= j < devices@.len() ==> (#[trigger] devices@[j]) is Ok
            &&& 0 <= i < devices@.len()
        },
    ensures
        execute::verify_step(o, f) matches execute::StepView::Report(lines) && lines.len()
            == f.devices->0@.len() && lines[i] == execute::bar_line(
            f.loaded->0->Ok_0@.actions[i],
            f.devices->0@[i]->Ok_0@,
        ),
{
    let actions = f.loaded->0->Ok_0@.actions;
    law_lines_of_actions(actions, f.devices->0@, actions.len(), i);
}

} // verus!
