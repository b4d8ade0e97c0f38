use std::time::Duration;

use t2rebar::execute::consumers::{
    consumer_warnings, display_managers, is_gpu_node, parse_pid, Consumers, Process,
};
use t2rebar::execute::cycle::{
    bind_path, collect_unbind_targets, next_task, react, recover, recovery, remove_path, run_plan,
    unbind_driver, unbind_path, unbind_slots, CycleStep, Effect, OnFailure, Reaction, Target, Task,
};
use t2rebar::execute::polling::{ensure_bound, wait_for_device, BindPhase, BindStep, WaitStep};
use t2rebar::execute::{
    confirm_interactively, ensure_no_active_consumers, ensure_pci_realloc, ensure_root, execute,
    is_comparable, rollback, rollback_plan, shows_next, verify_bars, verify_cmd, Facts, Options, Step,
};
use t2rebar::manifest::FileOutcome;
use t2rebar::pci::{res_flag, Bdf, Device, Resource};
use t2rebar::plan::{print, Action, Mode, Plan};
use t2rebar::preflight::{check_pci_realloc, check_root, check_sysfs, has_realloc, run_all};

fn bdf(bus: u8, function: u8) -> Bdf {
    Bdf { domain: 0, bus, device: 0, function }
}

fn text(s: &str) -> String {
    String::from(s)
}

fn action(bus: u8, cut: u8, from: u8, to: u8) -> Action {
    Action {
        bdf: bdf(bus, 0),
        vendor: 0x10de,
        device_id: 0x2bb1,
        driver: Some(text("nvidia")),
        rebar_cap_offset: 0x134,
        rebar_entry_index: 0,
        bar_index: 1,
        original_size_index: from,
        target_size_index: to,
        cut_point: bdf(cut, 0),
        companions: vec![bdf(bus, 1)],
    }
}

fn plan() -> Plan {
    Plan {
        mode: Mode::Planned,
        actions: vec![action(0x30, 0x16, 8, 17), action(0x20, 0x10, 8, 8), action(0x19, 0x16, 8, 13)],
    }
}

fn targets() -> Vec<Target> {
    vec![
        Target { bdf: bdf(0x30, 0), driver: Some(text("nvidia")) },
        Target { bdf: bdf(0x30, 1), driver: None },
    ]
}

fn idle() -> Consumers {
    Consumers { processes: vec![], active: vec![] }
}

fn busy() -> Consumers {
    Consumers {
        processes: vec![Process {
            name: text("812"),
            comm: Some(text("Xorg\n")),
            open: vec![text("/dev/null"), text("/dev/dri/card0")],
        }],
        active: vec![],
    }
}

fn options(yes: bool, force: bool) -> Options {
    Options { yes, force, manifest_path: None }
}

fn cleared() -> Facts {
    let mut f = Facts::default();
    f.uid = Some(0);
    f.cmdline = Some(Ok(text("quiet pci=realloc")));
    f.consumers = Some(idle());
    f.shown = true;
    f
}

fn failure(s: Step) -> String {
    match s {
        Step::Fail(e) => e,
        other => panic!("{:?}", other),
    }
}

// ---------------------------------------------------------------- checks

#[test]
fn realloc_is_a_word_of_the_command_line() {
    for s in ["pci=realloc", "quiet  pci=realloc\n", "pci=realloc,nocrs ro"] {
        assert!(has_realloc(s), "{}", s);
    }
    for s in ["", "pci=reallocate", "xpci=realloc", "pci=nocrs,realloc", "pci=realloc=off"] {
        assert!(!has_realloc(s), "{}", s);
    }
}

#[test]
fn checks_have_details() {
    assert_eq!(check_root(0).detail, "uid=0");
    let c = check_root(1000);
    assert!(!c.ok);
    assert_eq!(c.detail, "uid=1000 — config-space reads past 0x40 will return zeros/errors");
    assert_eq!(check_pci_realloc(&Ok(text("pci=realloc"))).detail, "present");
    let c = check_pci_realloc(&Ok(text("quiet")));
    assert!(!c.ok);
    assert_eq!(c.detail, "MISSING — required for Phase 2 (bridge window reallocation after resize)");
    let c = check_pci_realloc(&Err(text("denied")));
    assert!(!c.ok);
    assert_eq!(c.detail, "could not read /proc/cmdline: denied");
    assert_eq!(check_sysfs(true).detail, "ok");
    assert_eq!(check_sysfs(false).detail, "not found");
    let all = run_all(0, &Ok(text("pci=realloc")), true);
    let names: Vec<&str> = all.iter().map(|c| c.name).collect();
    assert_eq!(names, vec!["running as root", "pci=realloc in kernel cmdline", "/sys/bus/pci/devices accessible"]);
    assert!(all.iter().all(|c| c.ok));
    assert_eq!(format!("{:?}", all[0].clone()), format!("{:?}", all[0]));
}

#[test]
fn refusals_have_messages() {
    assert_eq!(ensure_root(0), Ok(()));
    assert_eq!(ensure_root(1000), Err(text("must run as root (uid=1000)")));
    assert_eq!(ensure_pci_realloc(&Ok(text("pci=realloc")), false), Ok(()));
    let refused = Err(text("pci=realloc is not in the kernel cmdline; re-run with --force to override"));
    assert_eq!(ensure_pci_realloc(&Ok(text("quiet")), false), refused);
    assert_eq!(ensure_pci_realloc(&Err(text("denied")), false), refused);
    assert_eq!(ensure_pci_realloc(&Err(text("denied")), true), Ok(()));
}

#[test]
fn consumers_are_found() {
    let c = Consumers {
        processes: vec![
            Process { name: text("self"), comm: None, open: vec![text("/dev/kfd")] },
            Process { name: text("9"), comm: None, open: vec![text("/dev/nvidia-uvm"), text("/dev/kfd0"), text("/dev/kfd")] },
        ],
        active: vec![text("gdm")],
    };
    assert_eq!(
        consumer_warnings(&c),
        vec![
            "pid 9 (?) has /dev/nvidia-uvm open",
            "pid 9 (?) has /dev/kfd open",
            "display manager gdm is active",
        ]
    );
    assert_eq!(consumer_warnings(&busy()), vec!["pid 812 (Xorg) has /dev/dri/card0 open"]);
    assert_eq!(display_managers(), vec!["display-manager", "gdm", "sddm", "lightdm", "ly"]);
    assert!(is_gpu_node("/dev/nvidia0"));
    assert!(!is_gpu_node("/dev/dri"));
    assert_eq!(parse_pid("4294967295"), Some(u32::MAX));
    assert_eq!(parse_pid("4294967296"), None);
}

#[test]
fn consumers_are_refused_unless_forced() {
    let (told, allowed) = ensure_no_active_consumers(&idle(), false);
    assert_eq!((told, allowed), (None, Ok(())));
    let (told, allowed) = ensure_no_active_consumers(&busy(), false);
    let list = "active GPU consumers detected:\n  - pid 812 (Xorg) has /dev/dri/card0 open\n";
    assert_eq!(told.as_deref(), Some(list));
    assert_eq!(
        allowed,
        Err(text("refusing to proceed while GPUs are in use; stop the consumer(s) or re-run with --force"))
    );
    let (told, allowed) = ensure_no_active_consumers(&busy(), true);
    assert_eq!(told, Some(format!("{}(--force set, continuing anyway)\n", list)));
    assert_eq!(allowed, Ok(()));
}

#[test]
fn only_yes_in_capitals_is_consent() {
    assert!(confirm_interactively("YES\n"));
    assert!(confirm_interactively("  YES "));
    for s in ["", "yes", "Y", "YES!", "NO"] {
        assert!(!confirm_interactively(s));
    }
}

// ---------------------------------------------------------------- commands

#[test]
fn execute_goes_through_its_steps() {
    let p = plan();
    let o = options(false, false);
    let mut f = Facts::default();
    assert!(matches!(execute(&p, &o, &f), Step::ReadUser));
    f.uid = Some(0);
    assert!(matches!(execute(&p, &o, &f), Step::ReadCmdline));
    f.cmdline = Some(Ok(text("pci=realloc")));
    assert!(matches!(execute(&p, &o, &f), Step::FindConsumers));
    f.consumers = Some(idle());
    match execute(&p, &o, &f) {
        Step::Show(s) => assert_eq!(s, format!("{}\n", print(&p))),
        other => panic!("{:?}", other),
    }
    f.shown = true;
    assert!(matches!(execute(&p, &o, &f), Step::Ask));
    f.answer = Some(Ok(text("YES\n")));
    match execute(&p, &o, &f) {
        Step::SaveManifest(path, q) => {
            assert_eq!(path, "/var/lib/t2rebar/state.txt");
            assert_eq!(format!("{:?}", q), format!("{:?}", p));
        }
        other => panic!("{:?}", other),
    }
    f.saved = Some(Ok(()));
    match execute(&p, &o, &f) {
        Step::Run(line, q) => {
            assert_eq!(line, Some(text("[ok] wrote manifest: /var/lib/t2rebar/state.txt")));
            assert_eq!(format!("{:?}", q), format!("{:?}", p));
        }
        other => panic!("{:?}", other),
    }
    f.ran = Some(Ok(()));
    match execute(&p, &o, &f) {
        Step::Finish(s) => assert_eq!(s, "[ok] execute complete; manifest retained for rollback"),
        other => panic!("{:?}", other),
    }
}

#[test]
fn dry_cycles_remove_their_manifest() {
    let mut p = plan();
    p.mode = Mode::Current;
    let mut f = cleared();
    f.saved = Some(Ok(()));
    f.ran = Some(Ok(()));
    assert!(matches!(execute(&p, &options(true, false), &f), Step::DeleteManifest(_)));
    f.deleted = Some(FileOutcome::Failed(text("busy")));
    match execute(&p, &options(true, false), &f) {
        Step::Finish(s) => assert_eq!(s, "[ok] dry-cycle complete; manifest removed"),
        other => panic!("{:?}", other),
    }
}

#[test]
fn execute_refuses_and_fails() {
    let p = plan();
    let o = options(true, false);
    let mut f = Facts::default();
    f.uid = Some(1000);
    assert_eq!(failure(execute(&p, &options(true, true), &f)), "must run as root (uid=1000)");
    f.uid = Some(0);
    f.cmdline = Some(Ok(text("quiet")));
    assert_eq!(
        failure(execute(&p, &o, &f)),
        "pci=realloc is not in the kernel cmdline; re-run with --force to override"
    );
    f.cmdline = Some(Ok(text("pci=realloc")));
    f.consumers = Some(busy());
    assert!(matches!(execute(&p, &o, &f), Step::Warn(_)));
    f.warned = true;
    assert_eq!(
        failure(execute(&p, &o, &f)),
        "refusing to proceed while GPUs are in use; stop the consumer(s) or re-run with --force"
    );
    assert!(matches!(execute(&p, &options(true, true), &f), Step::Show(_)));
    let mut f = cleared();
    f.answer = Some(Ok(text("no\n")));
    assert_eq!(failure(execute(&p, &options(false, false), &f)), "cancelled by user");
    f.answer = Some(Err(text("closed")));
    assert_eq!(failure(execute(&p, &options(false, false), &f)), "closed");
    let mut f = cleared();
    f.saved = Some(Err(text("disk full")));
    assert_eq!(failure(execute(&p, &o, &f)), "disk full");
    f.saved = Some(Ok(()));
    f.ran = Some(Err(text("device lost")));
    assert_eq!(failure(execute(&p, &o, &f)), "device lost");
}

#[test]
fn rollback_goes_through_its_steps() {
    let o = Options { yes: true, force: false, manifest_path: Some(text("/tmp/state")) };
    let mut f = Facts::default();
    assert!(matches!(rollback(&o, &f), Step::ReadUser));
    f.uid = Some(0);
    match rollback(&o, &f) {
        Step::ReadManifest(path) => assert_eq!(path, "/tmp/state"),
        other => panic!("{:?}", other),
    }
    f.loaded = Some(Err(text("missing mode")));
    assert_eq!(failure(rollback(&o, &f)), "missing mode");
    f.loaded = Some(Ok(plan()));
    assert!(matches!(rollback(&o, &f), Step::ReadCmdline));
    f.cmdline = Some(Ok(text("pci=realloc")));
    f.consumers = Some(idle());
    let undo = rollback_plan(&plan());
    match rollback(&o, &f) {
        Step::Show(s) => {
            assert_eq!(s, format!("Rollback plan (restoring original sizes):\n{}\n", print(&undo)));
        }
        other => panic!("{:?}", other),
    }
    f.shown = true;
    match rollback(&o, &f) {
        Step::Run(line, q) => {
            assert_eq!(line, None);
            assert_eq!(format!("{:?}", q), format!("{:?}", undo));
        }
        other => panic!("{:?}", other),
    }
    f.ran = Some(Err(text("device lost")));
    assert_eq!(failure(rollback(&o, &f)), "device lost");
    f.ran = Some(Ok(()));
    assert!(matches!(rollback(&o, &f), Step::DeleteManifest(_)));
    f.deleted = Some(FileOutcome::Failed(text("busy")));
    assert_eq!(failure(rollback(&o, &f)), "busy");
    f.deleted = Some(FileOutcome::NotFound);
    match rollback(&o, &f) {
        Step::Finish(s) => assert_eq!(s, "[ok] rollback complete; manifest removed"),
        other => panic!("{:?}", other),
    }
}

#[test]
fn rolling_back_exchanges_the_sizes() {
    let undo = rollback_plan(&plan());
    assert_eq!(undo.mode, Mode::Explicit(0));
    assert_eq!((undo.actions[0].original_size_index, undo.actions[0].target_size_index), (17, 8));
    assert_eq!(undo.actions[0].bdf, bdf(0x30, 0));
    let again = rollback_plan(&undo);
    assert_eq!(format!("{:?}", again.actions), format!("{:?}", plan().actions));
}

fn device(bus: u8, bytes: u64) -> Device {
    Device {
        bdf: bdf(bus, 0),
        class: 0x030000,
        vendor: 0x10de,
        device_id: 0x2bb1,
        driver: None,
        resources: vec![
            Resource { start: 0, end: 0, flags: 0 },
            Resource { start: 1 << 40, end: (1 << 40) + bytes - 1, flags: res_flag::MEM },
        ],
        parent_chain: vec![],
    }
}

#[test]
fn verify_compares_the_sizes() {
    let o = options(false, false);
    let mut f = Facts::default();
    assert!(matches!(verify_cmd(&o, &f), Step::ReadManifest(_)));
    f.loaded = Some(Ok(plan()));
    match verify_cmd(&o, &f) {
        Step::Show(s) => assert_eq!(s, format!("{}\n", print(&plan()))),
        other => panic!("{:?}", other),
    }
    f.shown = true;
    assert!(matches!(verify_cmd(&o, &f), Step::ReadDevices(_)));
    let mut bare = device(0x19, 1);
    bare.resources = vec![];
    let devices = vec![Ok(device(0x30, 128 << 30)), Ok(device(0x20, 4096)), Ok(bare)];
    assert!(is_comparable(&plan(), &devices));
    f.devices = Some(devices);
    match verify_cmd(&o, &f) {
        Step::Report(lines) => assert_eq!(
            lines,
            vec![
                "[ OK ] 0000:30:00.0 BAR 1: actual 128 GiB  expected 128 GiB",
                "[FAIL] 0000:20:00.0 BAR 1: actual 4 KiB  expected 256 MiB",
                "[FAIL] 0000:19:00.0 BAR 1: actual 0 B  expected 8 GiB",
            ]
        ),
        other => panic!("{:?}", other),
    }
    let devices = vec![Ok(device(0x30, 1)), Err(text("gone")), Err(text("also gone"))];
    assert_eq!(verify_bars(&plan(), &devices), Err(text("gone")));
    assert!(!is_comparable(&plan(), &vec![]));
    let mut whole = device(0x30, 1);
    whole.resources[1] = Resource { start: 0, end: u64::MAX, flags: 1 };
    assert!(!is_comparable(&plan(), &vec![Ok(whole), Err(text("gone")), Err(text("gone"))]));
}

// ---------------------------------------------------------------- the cycle

#[test]
fn gpus_and_companions_are_unbound() {
    let slots = unbind_slots(&plan());
    let order: Vec<Bdf> = slots.iter().map(|t| t.bdf).collect();
    assert_eq!(
        order,
        vec![bdf(0x30, 0), bdf(0x30, 1), bdf(0x20, 0), bdf(0x20, 1), bdf(0x19, 0), bdf(0x19, 1)]
    );
    let bound = vec![None, Some(text("snd_hda_intel")), Some(text("vfio-pci")), None, None, None];
    let drivers: Vec<Option<String>> =
        collect_unbind_targets(&plan(), &bound).into_iter().map(|t| t.driver).collect();
    assert_eq!(
        drivers,
        vec![
            Some(text("nvidia")),
            Some(text("snd_hda_intel")),
            Some(text("vfio-pci")),
            None,
            Some(text("nvidia")),
            None,
        ]
    );
}

fn effects(tasks: &[Task]) -> Vec<String> {
    tasks
        .iter()
        .filter(|t| !matches!(t.effect, Effect::Nothing))
        .map(|t| match &t.effect {
            Effect::Nothing => text("nothing"),
            Effect::Unbind { bdf, driver } => format!("unbind {} {}", bdf.to_string(), driver),
            Effect::WriteSize { bdf, cap_offset, entry_index, size_index } => {
                format!("write {} {:x} {} {}", bdf.to_string(), cap_offset, entry_index, size_index)
            }
            Effect::Remove(b) => format!("remove {}", b.to_string()),
            Effect::Sleep(s) => format!("sleep {}", s),
            Effect::Rescan => text("rescan"),
            Effect::WaitFor { bdf, seconds } => format!("wait {} {}", bdf.to_string(), seconds),
            Effect::Bind { bdf, driver, seconds } => {
                format!("bind {} {} {}", bdf.to_string(), driver, seconds)
            }
            Effect::Verify => text("verify"),
        })
        .collect()
}

#[test]
fn the_cycle_has_its_order() {
    let tasks = run_plan(&plan(), &targets());
    assert_eq!(
        effects(&tasks),
        vec![
            "unbind 0000:30:00.0 nvidia",
            "write 0000:30:00.0 134 0 17",
            "write 0000:19:00.0 134 0 13",
            "remove 0000:10:00.0",
            "remove 0000:16:00.0",
            "sleep 2",
            "rescan",
            "wait 0000:30:00.0 15",
            "wait 0000:20:00.0 15",
            "wait 0000:19:00.0 15",
            "bind 0000:30:00.0 nvidia 15",
            "verify",
        ]
    );
    let told: Vec<String> = tasks.iter().filter_map(|t| t.told.clone()).collect();
    assert_eq!(
        told,
        vec![
            "[step 1] unbinding drivers",
            "  unbound nvidia from 0000:30:00.0",
            "[step 2] writing rebar CTRL registers",
            "  0000:30:00.0 BAR 1: size idx 8 → 17",
            "  0000:20:00.0 BAR 1 already at size idx 8 — skipping write",
            "  0000:19:00.0 BAR 1: size idx 8 → 13",
            "[step 3] removing cut-point bridges",
            "  removed 0000:10:00.0",
            "  removed 0000:16:00.0",
            "[step 4] rescanning PCI bus",
            "[step 5] waiting for devices to reappear",
            "  0000:30:00.0 is back",
            "  0000:20:00.0 is back",
            "  0000:19:00.0 is back",
            "[step 6] waiting for drivers to bind (udev)",
            "  0000:30:00.0 bound to nvidia",
            "[step 7] verifying BAR sizes",
        ]
    );
}

#[test]
fn dry_cycles_write_no_size() {
    let mut p = plan();
    for a in &mut p.actions {
        a.target_size_index = a.original_size_index;
    }
    assert!(!effects(&run_plan(&p, &targets())).iter().any(|e| e.starts_with("write")));
}

#[test]
fn recovery_rescans_and_binds() {
    let tasks = recovery(&targets());
    assert_eq!(effects(&tasks), vec!["rescan", "sleep 3", "bind 0000:30:00.0 nvidia 5"]);
    let told: Vec<String> = tasks.iter().filter_map(|t| t.told.clone()).collect();
    assert_eq!(
        told,
        vec![
            "[RECOVERY] attempting best-effort rescan and rebind after failure",
            "[RECOVERY] done; inspect `lspci` and `dmesg` for state",
        ]
    );
}

#[test]
fn failures_stop_warn_or_pass() {
    let tasks = run_plan(&plan(), &targets());
    let failed = Err(text("no such device"));
    match react(&tasks[1], &failed) {
        Reaction::Go(Some(s)) => assert_eq!(s, "  warn: unbind nvidia from 0000:30:00.0: no such device"),
        other => panic!("{:?}", other),
    }
    match react(&tasks[3], &failed) {
        Reaction::Stop(s) => assert_eq!(s, "no such device"),
        other => panic!("{:?}", other),
    }
    match react(&tasks[3], &Ok(())) {
        Reaction::Go(Some(s)) => assert_eq!(s, "  0000:30:00.0 BAR 1: size idx 8 → 17"),
        other => panic!("{:?}", other),
    }
    match react(&tasks[tasks.len() - 3], &failed) {
        Reaction::Go(Some(s)) => {
            assert_eq!(s, "  warn: 0000:30:00.0 could not be bound to nvidia: no such device");
        }
        other => panic!("{:?}", other),
    }
    assert!(matches!(recovery(&targets())[1].on_failure, OnFailure::Ignore));
    assert!(matches!(react(&recovery(&targets())[1], &failed), Reaction::Go(None)));
}

#[test]
fn cycles_run_until_done_or_stopped() {
    let tasks = run_plan(&plan(), &targets());
    let mut outcomes: Vec<Result<(), String>> = Vec::new();
    for i in 0..tasks.len() {
        match next_task(&tasks, &outcomes) {
            CycleStep::Perform(n) => assert_eq!(n, i),
            other => panic!("{:?}", other),
        }
        outcomes.push(if i == 1 { Err(text("busy")) } else { Ok(()) });
    }
    assert!(matches!(next_task(&tasks, &outcomes), CycleStep::Done));
    assert!(recover(&tasks, &outcomes, &targets()).is_empty());
    outcomes.truncate(3);
    assert_eq!(effects(&recover(&tasks, &outcomes, &targets())), effects(&recovery(&targets())));
    outcomes.push(Err(text("write failed")));
    outcomes.push(Err(text("later")));
    match next_task(&tasks, &outcomes) {
        CycleStep::Stopped(e) => assert_eq!(e, "write failed"),
        other => panic!("{:?}", other),
    }
    assert_eq!(effects(&recover(&tasks, &outcomes, &targets())), effects(&recovery(&targets())));
}

#[test]
fn drivers_that_are_not_loaded_hold_nothing() {
    let failed = FileOutcome::Failed(text("busy"));
    assert_eq!(unbind_driver(false, &failed), Ok(()));
    assert_eq!(unbind_driver(true, &failed), Err(text("busy")));
    assert_eq!(unbind_driver(true, &FileOutcome::NotFound), Ok(()));
    assert_eq!(unbind_driver(true, &FileOutcome::Done), Ok(()));
    assert_eq!(unbind_path("nvidia"), "/sys/bus/pci/drivers/nvidia/unbind");
    assert_eq!(bind_path("nvidia"), "/sys/bus/pci/drivers/nvidia/bind");
    assert_eq!(remove_path(bdf(0x16, 0)), "/sys/bus/pci/devices/0000:16:00.0/remove");
}

#[test]
fn devices_are_waited_for() {
    let b = bdf(0x30, 0);
    assert!(matches!(wait_for_device(b, 15, 0, None), WaitStep::Look));
    assert!(matches!(wait_for_device(b, 15, 14_999, None), WaitStep::Look));
    assert!(matches!(wait_for_device(b, 15, 14_999, Some(false)), WaitStep::Sleep(200)));
    assert!(matches!(wait_for_device(b, 15, 15_200, Some(true)), WaitStep::Done));
    match wait_for_device(b, 15, 15_000, None) {
        WaitStep::GiveUp(e) => assert_eq!(e, "device 0000:30:00.0 did not reappear within 15s"),
        other => panic!("{:?}", other),
    }
    for seconds in [0, 1, 15, 60] {
        match wait_for_device(b, seconds, u64::MAX, None) {
            WaitStep::GiveUp(e) => {
                let limit = format!("{:?}", Duration::from_secs(seconds));
                assert_eq!(e, format!("device 0000:30:00.0 did not reappear within {}", limit));
            }
            other => panic!("{:?}", other),
        }
    }
}

#[test]
fn drivers_are_waited_for_and_told() {
    let b = bdf(0x30, 0);
    let step = |phase: BindPhase, ms: u64, seen: Option<Option<&str>>| {
        ensure_bound(b, "nvidia", 15, phase, ms, &seen.map(|d| d.map(String::from)))
    };
    assert!(matches!(step(BindPhase::Waiting, 0, None), BindStep::Look));
    assert!(matches!(step(BindPhase::Waiting, 0, Some(None)), BindStep::Sleep(200)));
    assert!(matches!(step(BindPhase::Waiting, 0, Some(Some("nouveau"))), BindStep::Sleep(200)));
    assert!(matches!(step(BindPhase::Waiting, 0, Some(Some("nvidia"))), BindStep::Done));
    match step(BindPhase::Waiting, 15_000, None) {
        BindStep::TellDriver(path) => assert_eq!(path, "/sys/bus/pci/drivers/nvidia/bind"),
        other => panic!("{:?}", other),
    }
    assert!(matches!(step(BindPhase::Told, 4_999, None), BindStep::Look));
    match step(BindPhase::Told, 5_000, None) {
        BindStep::GiveUp(e) => assert_eq!(e, "0000:30:00.0 did not bind to nvidia"),
        other => panic!("{:?}", other),
    }
}

// ---------------------------------------------------------------- commands as a whole

fn perform(step: &Step, f: &mut Facts) -> bool {
    match step {
        Step::ReadUser => f.uid = Some(0),
        Step::ReadManifest(_) => f.loaded = Some(Ok(plan())),
        Step::ReadCmdline => f.cmdline = Some(Ok(text("pci=realloc"))),
        Step::FindConsumers => f.consumers = Some(busy()),
        Step::Warn(_) => f.warned = true,
        Step::Show(_) => f.shown = true,
        Step::Ask => f.answer = Some(Ok(text("YES"))),
        Step::SaveManifest(_, _) => f.saved = Some(Ok(())),
        Step::Run(_, _) => f.ran = Some(Ok(())),
        Step::DeleteManifest(_) => f.deleted = Some(FileOutcome::Done),
        Step::ReadDevices(p) => {
            f.devices = Some(p.actions.iter().map(|_| Err(text("gone"))).collect());
        }
        Step::Report(_) | Step::Finish(_) | Step::Fail(_) => return false,
    }
    true
}

fn names(next: &dyn Fn(&Facts) -> Step) -> Vec<String> {
    let mut f = Facts::default();
    let mut seen = Vec::new();
    loop {
        let step = next(&f);
        let shown = format!("{:?}", step);
        seen.push(shown.split('(').next().unwrap().to_string());
        if !perform(&step, &mut f) {
            return seen;
        }
    }
}

#[test]
fn each_step_is_asked_for_once() {
    let mut dry = plan();
    dry.mode = Mode::Current;
    assert_eq!(
        names(&|f| execute(&dry, &options(false, true), f)),
        vec![
            "ReadUser",
            "ReadCmdline",
            "FindConsumers",
            "Warn",
            "Show",
            "Ask",
            "SaveManifest",
            "Run",
            "DeleteManifest",
            "Finish",
        ]
    );
    assert_eq!(
        names(&|f| rollback(&options(true, true), f)),
        vec![
            "ReadUser",
            "ReadManifest",
            "ReadCmdline",
            "FindConsumers",
            "Warn",
            "Show",
            "Run",
            "DeleteManifest",
            "Finish",
        ]
    );
    assert_eq!(
        names(&|f| verify_cmd(&options(true, true), f)),
        vec!["ReadManifest", "Show", "ReadDevices", "Fail"]
    );
    assert_eq!(
        names(&|f| execute(&dry, &options(true, false), f)),
        vec!["ReadUser", "ReadCmdline", "FindConsumers", "Warn", "Fail"]
    );
}

#[test]
fn nothing_changes_before_everything_is_cleared() {
    let p = plan();
    for bits in 0..64u32 {
        let on = |i: u32| bits & (1 << i) != 0;
        let mut f = cleared();
        f.uid = Some(if on(0) { 0 } else { 7 });
        f.cmdline = Some(Ok(text(if on(1) { "pci=realloc" } else { "quiet" })));
        f.consumers = Some(if on(2) { idle() } else { busy() });
        f.warned = true;
        f.shown = on(3);
        f.answer = Some(Ok(text(if on(4) { "YES" } else { "no" })));
        let o = options(false, on(5));
        let allowed = on(0) && (on(1) || on(5)) && (on(2) || on(5)) && on(3) && on(4);
        let changes = |s: Step| matches!(s, Step::SaveManifest(_, _) | Step::Run(_, _) | Step::DeleteManifest(_));
        assert_eq!(changes(execute(&p, &o, &f)), allowed);
        f.loaded = Some(Ok(plan()));
        assert_eq!(changes(rollback(&o, &f)), allowed);
    }
}

#[test]
fn rollback_undoes_what_execute_wrote() {
    let contents = t2rebar::manifest::write(&plan(), 3, "7.0.0", "macpro");
    let mut f = cleared();
    f.loaded = Some(t2rebar::manifest::read(&contents));
    match rollback(&options(true, false), &f) {
        Step::Run(None, p) => {
            assert_eq!(format!("{:?}", p), format!("{:?}", rollback_plan(&plan())));
        }
        other => panic!("{:?}", other),
    }
}

#[test]
fn plans_are_shown_once_all_refusals_are_passed() {
    let mut f = cleared();
    assert!(!shows_next(false, &f));
    f.shown = false;
    assert!(shows_next(false, &f));
    f.cmdline = Some(Ok(text("quiet")));
    assert!(!shows_next(false, &f));
    assert!(shows_next(true, &f));
}
