//! Waiting for devices and drivers: what to do next, given the time that has passed and what was
//! seen.

use vstd::prelude::*;

use crate::execute::cycle::{self, bind_path};
use crate::number::{self, dec_text};
use crate::pci::Bdf;
use crate::text::{self, owned, same_text};

verus! {

/// How long to sleep between two looks, in milliseconds.
pub const PAUSE: u64 = 200;

/// How long to wait after a driver was bound by hand, in seconds.
pub const SECOND_WAIT: u64 = 5;

/// The next step in waiting for a device.
#[derive(Debug)]
pub enum WaitStep {
    /// See whether the device is there.
    Look,
    /// Sleep for some milliseconds.
    Sleep(u64),
    /// The device is there.
    Done,
    /// Time is up.
    GiveUp(String),
}

/// The contents of a [`WaitStep`].
pub enum WaitStepView {
    Look,
    Sleep(u64),
    Done,
    GiveUp(Seq<char>),
}

impl View for WaitStep {
    type V = WaitStepView;

    open spec fn view(&self) -> WaitStepView {
        match self {
            WaitStep::Look => WaitStepView::Look,
            WaitStep::Sleep(ms) => WaitStepView::Sleep(*ms),
            WaitStep::Done => WaitStepView::Done,
            WaitStep::GiveUp(e) => WaitStepView::GiveUp(e@),
        }
    }
}

/// A number of whole seconds, as the debug form of a duration shows it.
pub open spec fn seconds_text(seconds: u64) -> Seq<char> {
    if seconds == 0 {
        "0ns"@
    } else {
        number::dec(seconds as nat) + "s"@
    }
}

/// The message for a device that did not come back.
pub open spec fn gone(bdf: Bdf, seconds: u64) -> Seq<char> {
    "device "@ + bdf.text() + " did not reappear within "@ + seconds_text(seconds)
}

/// The next step in waiting for a device: look for it until `seconds` have passed, with a pause
/// after each look in vain. `seen` is what the last look gave, where the pause after it is still
/// to come.
pub open spec fn waiting(
    bdf: Bdf,
    seconds: u64,
    elapsed_ms: u64,
    seen: Option<bool>,
) -> WaitStepView {
    match seen {
        Some(true) => WaitStepView::Done,
        Some(false) => WaitStepView::Sleep(PAUSE),
        None => if elapsed_ms < seconds * 1000 {
            WaitStepView::Look
        } else {
            WaitStepView::GiveUp(gone(bdf, seconds))
        },
    }
}

/// Decides the next step in waiting for a device.
pub fn wait_for_device(bdf: Bdf, seconds: u64, elapsed_ms: u64, seen: Option<bool>) -> (r: WaitStep)
    ensures
        r@ == waiting(bdf, seconds, elapsed_ms, seen),
{
    match seen {
        Some(true) => WaitStep::Done,
        Some(false) => WaitStep::Sleep(PAUSE),
        None => {
            if elapsed_ms / 1000 < seconds {
                WaitStep::Look
            } else {
                let mut e = owned("device ");
                e.append(bdf.to_string().as_str());
                e.append(" did not reappear within ");
                let limit = if seconds == 0 {
                    owned("0ns")
                } else {
                    let mut s = dec_text(seconds);
                    s.append("s");
                    s
                };
                e.append(limit.as_str());
                WaitStep::GiveUp(e)
            }
        },
    }
}

/// Where waiting for a driver stands.
#[derive(Clone, Copy, Debug, PartialEq, Eq, Structural)]
pub enum BindPhase {
    /// The driver may bind the device of its own accord.
    Waiting,
    /// The driver was told to bind the device. The time starts anew.
    Told,
}

/// The next step in waiting for a driver.
#[derive(Debug)]
pub enum BindStep {
    /// See which driver the device has.
    Look,
    /// Sleep for some milliseconds.
    Sleep(u64),
    /// Write the address of the device to this file, if it exists, and take no notice of failure.
    /// The phase is `Told` from then on.
    TellDriver(String),
    /// The driver is bound.
    Done,
    /// Time is up.
    GiveUp(String),
}

/// The contents of a [`BindStep`].
pub enum BindStepView {
    Look,
    Sleep(u64),
    TellDriver(Seq<char>),
    Done,
    GiveUp(Seq<char>),
}

impl View for BindStep {
    type V = BindStepView;

    open spec fn view(&self) -> BindStepView {
        match self {
            BindStep::Look => BindStepView::Look,
            BindStep::Sleep(ms) => BindStepView::Sleep(*ms),
            BindStep::TellDriver(path) => BindStepView::TellDriver(path@),
            BindStep::Done => BindStepView::Done,
            BindStep::GiveUp(e) => BindStepView::GiveUp(e@),
        }
    }
}

/// The driver that a look at a device gave, if there was one.
pub open spec fn look_text(seen: Option<Option<String>>) -> Option<Option<Seq<char>>> {
    match seen {
        Some(bound) => Some(text::opt_text(bound)),
        None => None,
    }
}

/// The next step in waiting for `driver` to be bound: look for `seconds`, then tell the driver and
/// look for `SECOND_WAIT` more, with a pause after each look in vain. `seen` is what the last look
/// gave, where the pause after it is still to come.
pub open spec fn binding(
    bdf: Bdf,
    driver: Seq<char>,
    seconds: u64,
    phase: BindPhase,
    elapsed_ms: u64,
    seen: Option<Option<Seq<char>>>,
) -> BindStepView {
    match seen {
        Some(bound) => if bound == Some(driver) {
            BindStepView::Done
        } else {
            BindStepView::Sleep(PAUSE)
        },
        None => match phase {
            BindPhase::Waiting => if elapsed_ms < seconds * 1000 {
                BindStepView::Look
            } else {
                BindStepView::TellDriver(cycle::bind_file(driver))
            },
            BindPhase::Told => if elapsed_ms < SECOND_WAIT * 1000 {
                BindStepView::Look
            } else {
                BindStepView::GiveUp(bdf.text() + " did not bind to "@ + driver)
            },
        },
    }
}

/// Decides the next step in waiting for a driver to be bound.
pub fn ensure_bound(
    bdf: Bdf,
    driver: &str,
    seconds: u64,
    phase: BindPhase,
    elapsed_ms: u64,
    seen: &Option<Option<String>>,
) -> (r: BindStep)
    ensures
        r@ == binding(bdf, driver@, seconds, phase, elapsed_ms, look_text(*seen)),
{
    match seen {
        Some(Some(d)) => {
            if same_text(d.as_str(), driver) {
                BindStep::Done
            } else {
                BindStep::Sleep(PAUSE)
            }
        },
        Some(None) => BindStep::Sleep(PAUSE),
        None => match phase {
            BindPhase::Waiting => {
                if elapsed_ms / 1000 < seconds {
                    BindStep::Look
                } else {
                    BindStep::TellDriver(bind_path(driver))
                }
            },
            BindPhase::Told => {
                if elapsed_ms / 1000 < SECOND_WAIT {
                    BindStep::Look
                } else {
                    let mut e = bdf.to_string();
                    e.append(" did not bind to ");
                    e.append(driver);
                    BindStep::GiveUp(e)
                }
            },
        },
    }
}

/// A device that is seen ends the wait, however much time has passed, and a driver that is seen
/// bound ends it too. The wait for a driver is only given up after the driver was told to bind.
pub proof fn law_waits_end(
    bdf: Bdf,
    driver: Seq<char>,
    seconds: u64,
    phase: BindPhase,
    elapsed_ms: u64,
    seen: Option<Option<Seq<char>>>,
)
    ensures
        waiting(bdf, seconds, elapsed_ms, Some(true)) is Done,
        binding(bdf, driver, seconds, phase, elapsed_ms, Some(Some(driver))) is Done,
        binding(bdf, driver, seconds, phase, elapsed_ms, seen) is GiveUp ==> phase
            == BindPhase::Told && elapsed_ms >= 5000,
        waiting(bdf, seconds, elapsed_ms, None) is GiveUp <==> elapsed_ms >= seconds * 1000,
{
}

} // verus!
