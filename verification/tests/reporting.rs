use t2rebar::diagnose::labels::{load_labels, split_quoted, strip_id, Labels};
use t2rebar::diagnose::style::Style;
use t2rebar::diagnose::{
    bridge_prefetch_window, bridge_to_read, is_reportable, preferred_size_index, print_gpu,
    print_groups, print_phase2_readiness, print_preflight, print_rebar, read_window, run,
    GpuReadings,
};
use t2rebar::pci::{res_flag, Bdf, Device, Resource};
use t2rebar::plan;
use t2rebar::preflight::run_all;
use t2rebar::rebar::{Rebar, RebarEntry};

const PREF64: u64 = res_flag::MEM | res_flag::PREFETCH | res_flag::MEM_64;

const PLAIN: Style = Style { color: false };

fn bdf(bus: u8, function: u8) -> Bdf {
    Bdf { domain: 0, bus, device: 0, function }
}

fn gpu() -> Device {
    Device {
        bdf: bdf(0x19, 0),
        class: 0x030000,
        vendor: 0x10de,
        device_id: 0x2bb1,
        driver: Some(String::from("nvidia")),
        resources: vec![
            Resource { start: 0xa000_0000, end: 0xa3ff_ffff, flags: res_flag::MEM },
            Resource { start: 0x3800_0000_0000, end: 0x3800_0fff_ffff, flags: PREF64 },
            Resource { start: 0, end: 0, flags: 0 },
        ],
        parent_chain: vec![bdf(0x16, 0), bdf(0x17, 0)],
    }
}

fn bridge() -> Device {
    Device { bdf: bdf(0x16, 0), class: 0x060400, parent_chain: vec![], driver: None, ..gpu() }
}

fn capability(mask: u32) -> Rebar {
    Rebar {
        cap_offset: 0x134,
        entries: vec![RebarEntry { bar_index: 1, current_size_index: 8, supported_sizes_mask: mask }],
    }
}

fn listing() -> Option<String> {
    Some(String::from(
        "0000:16:00.0 \"PCI bridge [0604]\" \"Intel Corporation [8086]\" \"Sky Lake-E Root [2030]\" -r04\n\
         0000:19:00.0 \"VGA [0300]\" \"NVIDIA Corporation [10de]\" \"RTX PRO [6000] [2bb1]\" \"\" \"\"\n\
         nonsense\n\
         0000:20:00.0 none\n",
    ))
}

fn window_file(window: &str) -> String {
    let mut s = String::new();
    for _ in 0..15 {
        s.push_str("0x0 0x0 0x0\n");
    }
    s.push_str(window);
    s.push_str("\n0x0 0x0 0x0\n");
    s
}

fn readings(mask: u32) -> GpuReadings {
    GpuReadings {
        rebar: Ok(Some(capability(mask))),
        window: Some(window_file("0x380000000000 0x380011ffffff 0x102201")),
        rebar_again: Ok(Some(capability(mask))),
    }
}

#[test]
fn styles_wrap_texts() {
    let st = Style::new(true);
    assert_eq!(st.bold("x"), "\x1b[1mx\x1b[0m");
    assert_eq!(st.dim("x"), "\x1b[2mx\x1b[0m");
    assert_eq!(st.green("x"), "\x1b[32mx\x1b[0m");
    assert_eq!(st.yellow("x"), "\x1b[33mx\x1b[0m");
    assert_eq!(st.red("x"), "\x1b[31mx\x1b[0m");
    assert_eq!(PLAIN.red("x"), "x");
}

#[test]
fn listings_give_names() {
    let names = load_labels(&listing());
    assert_eq!(names.label(bdf(0x19, 0)), "(NVIDIA Corporation — RTX PRO [6000])");
    assert_eq!(names.label(bdf(0x16, 0)), "(Intel Corporation — Sky Lake-E Root)");
    assert_eq!(names.label(bdf(0x20, 0)), "");
    assert_eq!(names.label(bdf(0x21, 0)), "");
    assert_eq!(load_labels(&None).label(bdf(0x19, 0)), "");
    let twice = Labels { list: vec![(bdf(1, 0), String::from("a")), (bdf(1, 0), String::from("b"))] };
    assert_eq!(twice.label(bdf(1, 0)), "b");
}

#[test]
fn quoted_fields_are_split() {
    let fields = |s: &str| -> Vec<String> {
        let cs: Vec<char> = s.chars().collect();
        split_quoted(&cs).iter().map(|f| f.iter().collect()).collect()
    };
    assert_eq!(fields("\"a b\" -r04 \"\" \"c\""), vec!["a b", "", "c"]);
    assert_eq!(fields("a \"open"), Vec::<String>::new());
    assert_eq!(fields("\"a\"b\"c\""), vec!["a", "c"]);
}

#[test]
fn numbers_are_stripped_from_names() {
    let strip = |s: &str| {
        let cs: Vec<char> = s.chars().collect();
        strip_id(&cs)
    };
    assert_eq!(strip("NVIDIA Corporation [10de]"), "NVIDIA Corporation");
    assert_eq!(strip(" Navi 23 [Radeon] [73e3]"), "Navi 23 [Radeon]");
    assert_eq!(strip("  plain "), "plain");
    assert_eq!(strip("x["), "x[");
}

#[test]
fn preferences_agree_with_the_plan() {
    for vendor in [0x10de, 0x1002, 0x8086] {
        for device in [0x2bb1, 0x73e3, 0] {
            assert_eq!(
                preferred_size_index(vendor, device).map(|(i, _)| i),
                plan::preferred_size_index(vendor, device)
            );
        }
    }
    assert_eq!(
        preferred_size_index(0x1002, 0x73e3),
        Some((13, "Radeon PRO W6600 → 8 GiB (matches VRAM)"))
    );
}

#[test]
fn windows_are_read() {
    let w = |s: &str| bridge_prefetch_window(&window_file(s));
    assert_eq!(w("0x380000000000 0x380011ffffff 0x102201"), Some(288 << 20));
    assert_eq!(w("0x0 0x0 0x1"), Some(1));
    assert_eq!(w("0x380000000000 0x380011ffffff 0x0"), None);
    assert_eq!(w("0x2 0x1 0x1"), None);
    assert_eq!(w("0x2 0x1"), None);
    assert_eq!(w("zz 0x1 0x1"), None);
    assert_eq!(bridge_prefetch_window("0x0 0x0 0x0\n"), None);
    let whole = window_file("0x0 0xffffffffffffffff 0x1");
    assert_eq!(read_window(&whole), Some(Resource { start: 0, end: u64::MAX, flags: 1 }));
}

#[test]
fn only_bridges_that_were_found_are_read() {
    assert_eq!(bridge_to_read(&gpu(), &vec![gpu(), bridge()]), Some(bdf(0x16, 0)));
    assert_eq!(bridge_to_read(&gpu(), &vec![gpu()]), None);
    assert_eq!(bridge_to_read(&bridge(), &vec![bridge()]), None);
}

#[test]
fn checks_are_printed() {
    assert_eq!(
        print_preflight(PLAIN, &run_all(5, &Ok(String::from("pci=realloc")), true)),
        "Host pre-flight:\n\
         \x20 [WARN] running as root — uid=5 — config-space reads past 0x40 will return zeros/errors\n\
         \x20 [ OK ] pci=realloc in kernel cmdline — present\n\
         \x20 [ OK ] /sys/bus/pci/devices accessible — ok\n"
    );
}

#[test]
fn capabilities_are_printed() {
    assert_eq!(
        print_rebar(PLAIN, &gpu(), &capability(0x0002_2100)),
        "    rebar          cap @ 0x134, 1 entries\n\
         \x20     BAR 1: current idx 8 (256 MiB), supports up to 128 GiB — [256 MiB, 8 GiB, 128 GiB]\n\
         \x20   target         [ OK ] BAR 1: size idx 17 (128 GiB) — RTX PRO 6000 Blackwell → 128 GiB (covers 96 GiB VRAM)\n"
    );
    assert_eq!(
        print_rebar(PLAIN, &gpu(), &capability(0x2100)),
        "    rebar          cap @ 0x134, 1 entries\n\
         \x20     BAR 1: current idx 8 (256 MiB), supports up to 8 GiB — [256 MiB, 8 GiB]\n\
         \x20   target         [FAIL] BAR 1: size idx 17 (128 GiB) not in supported set — RTX PRO 6000 Blackwell → 128 GiB (covers 96 GiB VRAM)\n\
         \x20                  ceiling for this BAR: 8 GiB (idx 13)\n"
    );
    assert_eq!(
        print_rebar(PLAIN, &gpu(), &Rebar { cap_offset: 0x200, entries: vec![] }),
        "    rebar          cap @ 0x200, 0 entries\n\
         \x20   target         no suitable rebar entry found for framebuffer BAR\n"
    );
    let mut other = gpu();
    other.device_id = 1;
    assert_eq!(
        print_rebar(PLAIN, &other, &capability(0)),
        "    rebar          cap @ 0x134, 1 entries\n\
         \x20     BAR 1: current idx 8 (256 MiB), supports up to ? — []\n"
    );
}

#[test]
fn gpus_are_printed() {
    let names = load_labels(&listing());
    let r = readings(0x0002_2100);
    assert_eq!(
        print_gpu(PLAIN, &gpu(), &names, &r.rebar, &r.window),
        format!(
            "\n── GPU 0000:19:00.0 (NVIDIA Corporation — RTX PRO [6000])\n\
             \x20   vendor:device  10de:2bb1   class 0x030000\n\
             \x20   driver         nvidia\n\
             \x20   cut point      0000:16:00.0   (Intel Corporation — Sky Lake-E Root)\n\
             \x20   parent chain   0000:16:00.0 → 0000:17:00.0\n\
             \x20   current BARs:\n\
             \x20     BAR 0 {:<11}  {:>12}  @ 0x{:012x}\n\
             \x20     BAR 1 {:<11}  {:>12}  @ 0x{:012x}\n\
             {}\
             \x20   parent pref window (0000:16:00.0):  288 MiB\n",
            "mem32",
            "64 MiB",
            0xa000_0000u64,
            "mem64 pref",
            "256 MiB",
            0x3800_0000_0000u64,
            print_rebar(PLAIN, &gpu(), &capability(0x0002_2100))
        )
    );
}

#[test]
fn bare_gpus_are_printed() {
    let mut g = gpu();
    g.driver = None;
    g.parent_chain = vec![];
    g.resources = vec![];
    let names = load_labels(&None);
    let head = "\n── GPU 0000:19:00.0 \n\
         \x20   vendor:device  10de:2bb1   class 0x030000\n\
         \x20   driver         (none bound)\n\
         \x20   cut point      (none — device attached directly to host bridge?)\n\
         \x20   current BARs:\n\
         \x20     (none assigned)\n";
    assert_eq!(
        print_gpu(PLAIN, &g, &names, &Ok(None), &None),
        format!("{}    rebar          not advertised by device\n", head)
    );
    assert_eq!(
        print_gpu(Style::new(true), &g, &names, &Err(String::from("denied")), &None),
        format!(
            "{}    rebar          could not read extended config space: denied \x1b[2m(run as root)\x1b[0m\n",
            head.replace("── GPU 0000:19:00.0 ", "\x1b[1m── GPU 0000:19:00.0 \x1b[0m")
        )
    );
}

#[test]
fn groups_are_printed() {
    let names = load_labels(&listing());
    let g = gpu();
    assert_eq!(
        print_groups(PLAIN, &[&g], &names),
        "\nCut-point groups (Phase 2 will remove/rescan each bridge once):\n\
         \x20 cut 0000:16:00.0 (Intel Corporation — Sky Lake-E Root) → [0000:19:00.0]\n"
    );
    assert_eq!(
        print_groups(PLAIN, &[], &names),
        "\nCut-point groups (Phase 2 will remove/rescan each bridge once):\n\
         \x20 (no GPUs with an identifiable cut point)\n"
    );
}

#[test]
fn readiness_is_printed() {
    let g = gpu();
    let checks = run_all(0, &Ok(String::from("pci=realloc")), true);
    assert_eq!(
        print_phase2_readiness(PLAIN, &checks, &[&g], &vec![readings(0x2_0000)]),
        "\nPhase 2 readiness:\n\
         \x20 [ OK ] pci=realloc present\n\
         \x20 [ OK ] 10de:2bb1 at 0000:19:00.0 supports target size idx 17\n\
         \n  ✓ Ready to proceed to Phase 2 (execute mode — not yet implemented).\n"
    );
    let checks = run_all(1, &Ok(String::from("quiet")), true);
    assert_eq!(
        print_phase2_readiness(PLAIN, &checks, &[&g], &vec![readings(0)]),
        "\nPhase 2 readiness:\n\
         \x20 [FAIL] pci=realloc present\n\
         \x20 [FAIL] root privileges required to read full config space\n\
         \x20 [FAIL] 10de:2bb1 at 0000:19:00.0 supports target size idx 17\n\
         \n  ! Not ready for Phase 2. Resolve the items above first.\n"
    );
    let mut r = readings(0x2_0000);
    r.rebar_again = Ok(None);
    let text = print_phase2_readiness(PLAIN, &vec![], &[&g], &vec![r]);
    assert!(text.contains("  [FAIL] could not read rebar for 0000:19:00.0\n"));
    assert!(text.contains("  [FAIL] pci=realloc present\n"));
    assert_eq!(t2rebar::diagnose::line(PLAIN, true, "x"), "  [ OK ] x\n");
}

#[test]
fn the_report_is_put_together() {
    let names = load_labels(&listing());
    let checks = run_all(0, &Ok(String::from("pci=realloc")), true);
    let all = vec![bridge(), gpu()];
    let r = vec![readings(0x0002_2100)];
    assert!(is_reportable(&all, &r));
    let g = gpu();
    assert_eq!(
        run(PLAIN, &checks, &all, &names, &r),
        format!(
            "\n=== t2rebar diagnose ===\n\n{}\n1 GPU(s) detected.\n{}{}{}",
            print_preflight(PLAIN, &checks),
            print_gpu(PLAIN, &g, &names, &r[0].rebar, &r[0].window),
            print_groups(PLAIN, &[&g], &names),
            print_phase2_readiness(PLAIN, &checks, &[&g], &r)
        )
    );
}

#[test]
fn sizes_beyond_64_bits_are_not_reportable() {
    let all = vec![gpu()];
    assert!(!is_reportable(&all, &vec![]));
    let mut r = readings(0);
    r.window = Some(window_file("0x0 0xffffffffffffffff 0x1"));
    assert!(!is_reportable(&all, &vec![r]));
    let mut r = readings(0);
    if let Ok(Some(reb)) = &mut r.rebar {
        reb.entries[0].current_size_index = 44;
    }
    assert!(!is_reportable(&all, &vec![r]));
    let mut g = gpu();
    g.resources[0] = Resource { start: 0, end: u64::MAX, flags: 1 };
    assert!(!is_reportable(&vec![g], &vec![readings(0)]));
}

#[test]
fn ready_gpus_can_be_planned_for() {
    let g = gpu();
    let checks = run_all(0, &Ok(String::from("pci=realloc")), true);
    for mask in [0x2_0000, 0x2100] {
        let text = print_phase2_readiness(PLAIN, &checks, &[&g], &vec![readings(mask)]);
        let probe = plan::Probe {
            device: gpu(),
            rebar: Ok(Some(capability(mask))),
            companions: Ok(vec![]),
        };
        assert_eq!(text.contains("✓ Ready"), plan::plan_action(plan::Mode::Planned, &probe).is_ok());
    }
}
