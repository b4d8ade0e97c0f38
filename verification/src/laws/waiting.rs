//! How devices and drivers are waited for.

use vstd::prelude::*;

use crate::execute::polling::{self, BindPhase, BindStepView, WaitStepView};
use crate::number;
use crate::pci::Bdf;

verus! {

/// A device that was seen is there. After a look in vain there is a pause of 200 milliseconds;
/// then, as long as time is left, another look.
pub proof fn law_waiting_for_device(bdf: Bdf, seconds: u64, elapsed_ms: u64)
    ensures
        polling::waiting(bdf, seconds, elapsed_ms, Some(true)) is Done,
        polling::waiting(bdf, seconds, elapsed_ms, Some(false)) == WaitStepView::Sleep(200),
        elapsed_ms < 1000 * seconds ==> polling::waiting(bdf, seconds, elapsed_ms, None) is Look,
        elapsed_ms >= 1000 * seconds ==> polling::waiting(bdf, seconds, elapsed_ms, None)
            == WaitStepView::GiveUp(
            "device "@ + bdf.text() + " did not reappear within "@ + if seconds == 0 {
                "0ns"@
            } else {
                number::dec(seconds as nat) + "s"@
            },
        ),
{
}

/// A driver that was seen on the device is bound; no driver, or another one, is not enough, and a
/// pause of 200 milliseconds follows. Once the time is over the driver is told to bind, through its
/// own file; it is given up five seconds after that.
pub proof fn law_waiting_for_driver(
    bdf: Bdf,
    driver: Seq<char>,
    other: Seq<char>,
    seconds: u64,
    phase: BindPhase,
    elapsed_ms: u64,
)
    ensures
        polling::binding(bdf, driver, seconds, phase, elapsed_ms, Some(Some(driver))) is Done,
        polling::binding(bdf, driver, seconds, phase, elapsed_ms, Some(None))
            == BindStepView::Sleep(200),
        other != driver ==> polling::binding(
            bdf,
            driver,
            seconds,
            phase,
            elapsed_ms,
            Some(Some(other)),
        ) == BindStepView::Sleep(200),
        elapsed_ms < 1000 * seconds ==> polling::binding(
            bdf,
            driver,
            seconds,
            BindPhase::Waiting,
            elapsed_ms,
            None,
        ) is Look,
        elapsed_ms >= 1000 * seconds ==> polling::binding(
            bdf,
            driver,
            seconds,
            BindPhase::Waiting,
            elapsed_ms,
            None,
        ) == BindStepView::TellDriver("/sys/bus/pci/drivers/"@ + driver + "/bind"@),
        elapsed_ms < 5000 ==> polling::binding(
            bdf,
            driver,
            seconds,
            BindPhase::Told,
            elapsed_ms,
            None,
        ) is Look,
        elapsed_ms >= 5000 ==> polling::binding(
            bdf,
            driver,
            seconds,
            BindPhase::Told,
            elapsed_ms,
            None,
        ) == BindStepView::GiveUp(bdf.text() + " did not bind to "@ + driver),
{
}

} // verus!
