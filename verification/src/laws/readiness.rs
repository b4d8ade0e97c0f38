//! When the report says that a host is ready.

use vstd::prelude::*;

use crate::diagnose::style::Style;
use crate::diagnose;
use crate::execute::{self, Facts, OptionsView};
use crate::number;
use crate::pci::device::{self, DeviceView};
use crate::plan::{self, PlanView};
use crate::preflight::{self, CheckView};
use crate::rebar::RebarView;

verus! {

/// The three checks of a host: the user is root, the command line of the kernel could be read and
/// asks for reallocation, and sysfs lists the devices.
pub proof fn law_checks(uid: u32, cmdline: Result<Seq<char>, Seq<char>>, sysfs: bool)
    ensures
        ({
            let checks = preflight::all_checks(uid, cmdline, sysfs);
            &&& checks.len() == 3
            &&& checks[0].name == "running as root"@
            &&& checks[0].ok <==> uid == 0
            &&& checks[1].name == "pci=realloc in kernel cmdline"@
            &&& checks[1].ok <==> cmdline is Ok && preflight::realloc_in(cmdline->Ok_0)
            &&& checks[2].name == "/sys/bus/pci/devices accessible"@
            &&& checks[2].ok <==> sysfs
            &&& uid == 0 ==> checks[0].detail == "uid=0"@
            &&& uid != 0 ==> checks[0].detail == "uid="@ + number::dec(uid as nat)
                + " — config-space reads past 0x40 will return zeros/errors"@
            &&& checks[1].ok ==> checks[1].detail == "present"@
            &&& cmdline is Ok && !checks[1].ok ==> checks[1].detail
                == "MISSING — required for Phase 2 (bridge window reallocation after resize)"@
            &&& cmdline matches Err(e) ==> checks[1].detail == "could not read /proc/cmdline: "@ + e
            &&& sysfs ==> checks[2].detail == "ok"@
            &&& !sysfs ==> checks[2].detail == "not found"@
        }),
{
}

/// The check for reallocation is the first one whose name starts with `pci=realloc`, the check for
/// root the first one of its name; without such a check the outcome is a failure.
pub proof fn law_checks_are_found(c: CheckView, rest: Seq<CheckView>)
    ensures
        !diagnose::realloc_ok(Seq::empty()),
        !diagnose::root_ok(Seq::empty()),
        diagnose::realloc_ok(seq![c] + rest) == if "pci=realloc"@.is_prefix_of(c.name) {
            c.ok
        } else {
            diagnose::realloc_ok(rest)
        },
        diagnose::root_ok(seq![c] + rest) == if c.name == "running as root"@ {
            c.ok
        } else {
            diagnose::root_ok(rest)
        },
{
    let all = seq![c] + rest;
    assert(all[0] == c);
    assert(all.skip(1) =~= rest);
    let p = "pci=realloc"@;
    assert(c.name.take(p.len() as int) == c.name.subrange(0, p.len() as int));
}

proof fn lemma_found(uid: u32, cmdline: Result<Seq<char>, Seq<char>>, sysfs: bool)
    ensures
        diagnose::root_ok(preflight::all_checks(uid, cmdline, sysfs)) == (uid == 0),
        diagnose::realloc_ok(preflight::all_checks(uid, cmdline, sysfs)) == (cmdline is Ok
            && preflight::realloc_in(cmdline->Ok_0)),
{
    let checks = preflight::all_checks(uid, cmdline, sysfs);
    let rest = seq![checks[1], checks[2]];
    assert(checks =~= seq![checks[0]] + rest);
    assert(rest =~= seq![checks[1]] + seq![checks[2]]);
    law_checks_are_found(checks[0], rest);
    law_checks_are_found(checks[1], seq![checks[2]]);
    reveal_strlit("pci=realloc");
    reveal_strlit("running as root");
    reveal_strlit("pci=realloc in kernel cmdline");
    let p = "pci=realloc"@;
    let n = "pci=realloc in kernel cmdline"@;
    assert(p =~= n.subrange(0, 11));
    let r = "running as root"@;
    if p.is_prefix_of(r) {
        assert(r.subrange(0, 11)[0] == 'r');
    }
}

/// The GPU has no preferred size, or the entry of its framebuffer supports it.
pub open spec fn preference_met(
    gpu: DeviceView,
    reading: Result<Option<RebarView>, Seq<char>>,
) -> bool {
    plan::preferred(gpu.vendor, gpu.device_id) matches Some(t) ==> {
        &&& reading matches Ok(Some(reb)) && plan::framebuffer(gpu, reb) matches Some(k)
            && reb.entries[k].has(t as int)
    }
}

/// All is ready exactly where the checks for reallocation and for root passed, whatever other checks
/// there are, and every GPU with a preferred size can have it.
pub proof fn law_what_ready_means(
    checks: Seq<CheckView>,
    gpus: Seq<DeviceView>,
    readings: Seq<Result<Option<RebarView>, Seq<char>>>,
)
    ensures
        diagnose::ready(checks, gpus, readings) <==> {
            &&& diagnose::realloc_ok(checks)
            &&& diagnose::root_ok(checks)
            &&& forall|i: int|
                0 <= i < gpus.len() ==> preference_met(#[trigger] gpus[i], readings[i])
        },
{
    assert(forall|g: DeviceView, r: Result<Option<RebarView>, Seq<char>>| #[trigger]
        preference_met(g, r) == diagnose::target_ok(g, r));
}

/// The report says that the host is ready exactly where the user is root, the command line of the
/// kernel was read and asks for reallocation, and every GPU with a preferred size can have it.
/// Otherwise it says that the host is not ready.
pub proof fn law_ready_host(
    st: Style,
    uid: u32,
    cmdline: Result<Seq<char>, Seq<char>>,
    sysfs: bool,
    gpus: Seq<DeviceView>,
    readings: Seq<Result<Option<RebarView>, Seq<char>>>,
)
    ensures
        ({
            let text = diagnose::readiness_text(
                st,
                preflight::all_checks(uid, cmdline, sysfs),
                gpus,
                readings,
            );
            let ready = {
                &&& uid == 0
                &&& cmdline is Ok
                &&& preflight::realloc_in(cmdline->Ok_0)
                &&& forall|i: int|
                    0 <= i < gpus.len() ==> preference_met(#[trigger] gpus[i], readings[i])
            };
            &&& ready <==> " Ready to proceed to Phase 2 (execute mode — not yet implemented).\n"@.is_suffix_of(
                text,
            )
            &&& !ready <==> " Not ready for Phase 2. Resolve the items above first.\n"@.is_suffix_of(
                text,
            )
        }),
{
    let checks = preflight::all_checks(uid, cmdline, sysfs);
    let text = diagnose::readiness_text(st, checks, gpus, readings);
    lemma_found(uid, cmdline, sysfs);
    assert(forall|g: DeviceView, r: Result<Option<RebarView>, Seq<char>>| #[trigger]
        preference_met(g, r) == diagnose::target_ok(g, r));
    let yes = " Ready to proceed to Phase 2 (execute mode — not yet implemented).\n"@;
    let no = " Not ready for Phase 2. Resolve the items above first.\n"@;
    let ready = diagnose::ready(checks, gpus, readings);
    let last = if ready {
        yes
    } else {
        no
    };
    let n = text.len() as int;
    assert(text.subrange(n - last.len(), n) =~= last);
    reveal_strlit(" Ready to proceed to Phase 2 (execute mode — not yet implemented).\n");
    reveal_strlit(" Not ready for Phase 2. Resolve the items above first.\n");
    assert(yes[yes.len() - 3] == ')');
    assert(no[no.len() - 3] == 't');
    assert(text[n - 3] == last[last.len() - 3]);
    if yes.is_suffix_of(text) {
        assert(text.subrange(n - yes.len(), n)[yes.len() - 3] == text[n - 3]);
    }
    if no.is_suffix_of(text) {
        assert(text.subrange(n - no.len(), n)[no.len() - 3] == text[n - 3]);
    }
}

/// A host that the report calls ready passes the refusals of user and kernel: an unforced `execute`
/// goes on to see who is using the GPUs.
pub proof fn law_ready_host_passes_refusals(
    st: Style,
    sysfs: bool,
    gpus: Seq<DeviceView>,
    readings: Seq<Result<Option<RebarView>, Seq<char>>>,
    p: PlanView,
    o: OptionsView,
    f: Facts,
)
    requires
        f.uid is Some,
        f.cmdline is Some,
        f.consumers is None,
        " Ready to proceed to Phase 2 (execute mode — not yet implemented).\n"@.is_suffix_of(
            diagnose::readiness_text(
                st,
                preflight::all_checks(f.uid->0, device::reading(f.cmdline->0), sysfs),
                gpus,
                readings,
            ),
        ),
    ensures
        execute::execute_step(p, o, f) is FindConsumers,
{
    law_ready_host(st, f.uid->0, device::reading(f.cmdline->0), sysfs, gpus, readings);
}

/// The section says whether the kernel reallocates, in green or in red, and tells of the lack of
/// root, if there is one. The lines on the GPUs and the verdict follow, and nothing else.
pub proof fn law_readiness_section(
    st: Style,
    checks: Seq<CheckView>,
    gpus: Seq<DeviceView>,
    readings: Seq<Result<Option<RebarView>, Seq<char>>>,
)
    ensures
        ({
            let text = diagnose::readiness_text(st, checks, gpus, readings);
            let fine = st.wrapped("32"@, "[ OK ]"@);
            let bad = st.wrapped("31"@, "[FAIL]"@);
            let title = "\n"@ + st.wrapped("1"@, "Phase 2 readiness:"@) + "\n"@;
            let kernel = "  "@ + (if diagnose::realloc_ok(checks) {
                fine
            } else {
                bad
            }) + " "@ + "pci=realloc present"@ + "\n"@;
            let root = "  "@ + bad + " "@ + "root privileges required to read full config space"@
                + "\n"@;
            let lines = diagnose::target_lines(st, gpus, readings, gpus.len());
            let mark = if diagnose::ready(checks, gpus, readings) {
                st.wrapped("32"@, "✓"@)
            } else {
                st.wrapped("33"@, "!"@)
            };
            let head = if diagnose::root_ok(checks) {
                title + kernel
            } else {
                title + kernel + root
            };
            let verdict = if diagnose::ready(checks, gpus, readings) {
                " Ready to proceed to Phase 2 (execute mode — not yet implemented).\n"@
            } else {
                " Not ready for Phase 2. Resolve the items above first.\n"@
            };
            text == head + lines + "\n"@ + ("  "@ + mark + verdict)
        }),
{
    reveal_strlit("");
    let title = "\n"@ + st.wrapped("1"@, "Phase 2 readiness:"@) + "\n"@;
    let kernel = diagnose::ready_line(st, diagnose::realloc_ok(checks), "pci=realloc present"@);
    assert(title + kernel + ""@ =~= title + kernel);
}

proof fn lemma_target_lines(
    st: Style,
    gpus: Seq<DeviceView>,
    readings: Seq<Result<Option<RebarView>, Seq<char>>>,
    g: DeviceView,
    r: Result<Option<RebarView>, Seq<char>>,
    n: nat,
)
    requires
        n <= gpus.len(),
        n <= readings.len(),
    ensures
        diagnose::target_lines(st, gpus.push(g), readings.push(r), n) == diagnose::target_lines(
            st,
            gpus,
            readings,
            n,
        ),
    decreases n,
{
    if n > 0 {
        lemma_target_lines(st, gpus, readings, g, r, (n - 1) as nat);
    }
}

/// Each GPU with a preferred size has a line: it is marked as well where the GPU can have the
/// size, and as a failure where it cannot, or where its capability could not be read. A GPU
/// without a preferred size has none.
pub proof fn law_readiness_of_gpu(
    st: Style,
    gpus: Seq<DeviceView>,
    readings: Seq<Result<Option<RebarView>, Seq<char>>>,
    g: DeviceView,
    r: Result<Option<RebarView>, Seq<char>>,
)
    requires
        gpus.len() == readings.len(),
    ensures
        ({
            let before = diagnose::target_lines(st, gpus, readings, gpus.len());
            let after = diagnose::target_lines(
                st,
                gpus.push(g),
                readings.push(r),
                gpus.len() + 1,
            );
            match plan::preferred(g.vendor, g.device_id) {
                None => after =~= before,
                Some(t) => {
                    let marker = if preference_met(g, r) {
                        st.wrapped("32"@, "[ OK ]"@)
                    } else {
                        st.wrapped("31"@, "[FAIL]"@)
                    };
                    let label = if r matches Ok(Some(_)) {
                        number::hex_padded(g.vendor as nat, 4) + ":"@ + number::hex_padded(
                            g.device_id as nat,
                            4,
                        ) + " at "@ + g.bdf.text() + " supports target size idx "@ + number::dec(
                            t as nat,
                        )
                    } else {
                        "could not read rebar for "@ + g.bdf.text()
                    };
                    after =~= before + ("  "@ + marker + " "@ + label + "\n"@)
                },
            }
        }),
{
    lemma_target_lines(st, gpus, readings, g, r, gpus.len());
    assert(gpus.push(g)[gpus.len() as int] == g);
    assert(readings.push(r)[gpus.len() as int] == r);
    reveal_strlit("");
    assert(preference_met(g, r) == diagnose::target_ok(g, r));
}

} // verus!
