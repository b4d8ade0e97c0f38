use t2rebar::pci::{res_flag, Bdf, Device, Resource};
use t2rebar::plan::{
    build, is_printable, pick_framebuffer_entry, plan_action, preferred_size_index, print, Mode,
    Plan, PlanError, Probe,
};
use t2rebar::rebar::{Rebar, RebarEntry};
use t2rebar::topology::{cut_point, distinct, group_by_cut_point};

const PREF64: u64 = res_flag::MEM | res_flag::PREFETCH | res_flag::MEM_64;

fn bdf(bus: u8, function: u8) -> Bdf {
    Bdf { domain: 0, bus, device: 0, function }
}

fn entry(bar_index: u8, current_size_index: u8, supported_sizes_mask: u32) -> RebarEntry {
    RebarEntry { bar_index, current_size_index, supported_sizes_mask }
}

fn gpu(bus: u8) -> Device {
    Device {
        bdf: bdf(bus, 0),
        class: 0x030000,
        vendor: 0x10de,
        device_id: 0x2bb1,
        driver: Some(String::from("nvidia")),
        resources: vec![
            Resource { start: 0xa000_0000, end: 0xa3ff_ffff, flags: res_flag::MEM },
            Resource { start: 1 << 40, end: (1 << 40) + (256 << 20) - 1, flags: PREF64 },
            Resource { start: 0, end: 0, flags: 0 },
            Resource { start: 1 << 41, end: (1 << 41) + (32 << 20) - 1, flags: PREF64 },
        ],
        parent_chain: vec![bdf(0x16, 0), bdf(0x17, 0)],
    }
}

fn capability() -> Rebar {
    Rebar { cap_offset: 0x134, entries: vec![entry(3, 5, 0x20), entry(1, 8, 0x0002_2100)] }
}

fn probe(bus: u8) -> Probe {
    Probe { device: gpu(bus), rebar: Ok(Some(capability())), companions: Ok(vec![bdf(bus, 1)]) }
}

fn message(r: Result<Plan, PlanError>) -> String {
    match r {
        Ok(_) => String::from("no error"),
        Err(e) => e.0,
    }
}

#[test]
fn modes_are_written_and_read_back() {
    for (mode, text) in [(Mode::Planned, "planned"), (Mode::Current, "current"), (Mode::Explicit(17), "explicit=17"), (Mode::Explicit(0), "explicit=0")] {
        assert_eq!(mode.as_str(), text);
        assert_eq!(Mode::parse(text), Some(mode));
    }
    for s in ["", "Planned", "explicit", "explicit=", "explicit=256", "17"] {
        assert_eq!(Mode::parse(s), None);
    }
}

#[test]
fn known_devices_have_preferred_sizes() {
    assert_eq!(preferred_size_index(0x10de, 0x2bb1), Some(17));
    assert_eq!(preferred_size_index(0x1002, 0x73e3), Some(13));
    assert_eq!(preferred_size_index(0x1002, 0x2bb1), None);
}

#[test]
fn the_framebuffer_is_the_largest_prefetchable_64_bit_bar() {
    let g = gpu(0x19);
    let reb = capability();
    let (i, e) = pick_framebuffer_entry(&g, &reb).unwrap();
    assert_eq!((i, e.bar_index), (1, 1));
    let same = Rebar { cap_offset: 0, entries: vec![entry(1, 8, 0), entry(1, 9, 0)] };
    assert_eq!(pick_framebuffer_entry(&g, &same).unwrap().0, 0);
}

#[test]
fn without_such_a_bar_the_first_entry_counts() {
    let g = gpu(0x19);
    let reb = Rebar { cap_offset: 0, entries: vec![entry(2, 0, 0), entry(0, 0, 0)] };
    let (i, e) = pick_framebuffer_entry(&g, &reb).unwrap();
    assert_eq!((i, e.bar_index), (0, 2));
}

#[test]
fn entries_for_unknown_bars_leave_no_framebuffer() {
    let g = gpu(0x19);
    let reb = Rebar { cap_offset: 0, entries: vec![entry(1, 8, 0), entry(5, 8, 0)] };
    assert!(pick_framebuffer_entry(&g, &reb).is_none());
    assert!(pick_framebuffer_entry(&g, &Rebar { cap_offset: 0, entries: vec![] }).is_none());
}

#[test]
fn planned_actions_use_the_preferred_size() {
    let a = plan_action(Mode::Planned, &probe(0x19)).unwrap_or_else(|e| panic!("{}", e.0));
    assert_eq!(a.bdf, bdf(0x19, 0));
    assert_eq!((a.original_size_index, a.target_size_index), (8, 17));
    assert_eq!((a.rebar_cap_offset, a.rebar_entry_index, a.bar_index), (0x134, 1, 1));
    assert_eq!(a.cut_point, bdf(0x16, 0));
    assert_eq!(a.companions, vec![bdf(0x19, 1)]);
    assert_eq!(a.driver, Some(String::from("nvidia")));
    assert_eq!(format!("{:?}", a.clone()), format!("{:?}", a));
}

#[test]
fn dry_cycles_keep_the_sizes() {
    let mut p = probe(0x19);
    if let Ok(Some(reb)) = &mut p.rebar {
        reb.entries[1].supported_sizes_mask = 0;
    }
    let plan = build(Mode::Current, &vec![p, probe(0x20)]).unwrap_or_else(|e| panic!("{}", e.0));
    assert_eq!(plan.actions.len(), 2);
    for a in &plan.actions {
        assert_eq!(a.original_size_index, a.target_size_index);
    }
}

#[test]
fn explicit_sizes_apply_to_every_gpu() {
    let plan = build(Mode::Explicit(13), &vec![probe(0x19), probe(0x20)]).unwrap_or_else(|e| panic!("{}", e.0));
    assert_eq!(plan.mode, Mode::Explicit(13));
    for a in &plan.actions {
        assert_eq!(a.target_size_index, 13);
    }
}

#[test]
fn only_gpus_are_planned_for() {
    let mut other = probe(0x18);
    other.device.class = 0x060400;
    other.rebar = Err(String::from("unread"));
    let plan = build(Mode::Planned, &vec![other, probe(0x19)]).unwrap_or_else(|e| panic!("{}", e.0));
    assert_eq!(plan.actions.len(), 1);
    assert_eq!(message(build(Mode::Planned, &vec![])), "no GPUs detected");
}

#[test]
fn each_reason_against_an_action_has_its_message() {
    let mut p = probe(0x19);
    p.companions = Err(String::from("no listing"));
    assert_eq!(message(build(Mode::Planned, &vec![p])), "no listing");

    let mut p = probe(0x19);
    p.device.parent_chain = vec![];
    assert_eq!(
        message(build(Mode::Planned, &vec![p])),
        "0000:19:00.0: no cut point (attached directly to host?)"
    );

    assert_eq!(
        message(build(Mode::Explicit(9), &vec![probe(0x19)])),
        "0000:19:00.0: target size index 9 not in supported set [8, 13, 17]"
    );

    let mut p = probe(0x19);
    p.device.device_id = 0x00ff;
    assert_eq!(
        message(build(Mode::Planned, &vec![p])),
        "0000:19:00.0: no preferred size for vendor:device 10de:00ff — add a mapping or use --target=current/--size=N"
    );

    let mut p = probe(0x19);
    p.rebar = Ok(Some(Rebar { cap_offset: 0, entries: vec![] }));
    assert_eq!(message(build(Mode::Planned, &vec![p])), "0000:19:00.0: no framebuffer rebar entry");

    let mut p = probe(0x19);
    p.rebar = Ok(None);
    assert_eq!(
        message(build(Mode::Planned, &vec![p])),
        "0000:19:00.0: device does not advertise a Resizable BAR capability"
    );

    let mut p = probe(0x19);
    p.rebar = Err(String::from("denied"));
    assert_eq!(message(build(Mode::Planned, &vec![probe(0x18), p])), "denied");
}

#[test]
fn plans_are_printed() {
    let mut second = probe(0x20);
    second.device.driver = None;
    second.companions = Ok(vec![]);
    let mut plan = build(Mode::Explicit(17), &vec![probe(0x19), second]).unwrap_or_else(|e| panic!("{}", e.0));
    plan.actions[1].target_size_index = 8;
    assert!(is_printable(&plan));
    assert_eq!(
        print(&plan),
        "Mode: explicit=17\nActions: 2\n\
         \n  [0] 0000:19:00.0 10de:2bb1\
         \n      driver       nvidia\
         \n      rebar        cap@0x134, entry 1, BAR 1\
         \n      size index   8 → 17  256 MiB → 128 GiB\
         \n      cut point    0000:16:00.0\
         \n      companions   [0000:19:00.1]\n\
         \n  [1] 0000:20:00.0 10de:2bb1\
         \n      driver       (none)\
         \n      rebar        cap@0x134, entry 1, BAR 1\
         \n      size index   8 → 8  (unchanged)\
         \n      cut point    0000:16:00.0\
         \n      companions   [none]\n"
    );
    plan.actions[1].target_size_index = 44;
    assert!(!is_printable(&plan));
}

#[test]
fn cut_points_are_the_topmost_bridges() {
    let mut g = gpu(0x19);
    assert_eq!(cut_point(&g), Some(bdf(0x16, 0)));
    g.parent_chain = vec![];
    assert_eq!(cut_point(&g), None);
}

#[test]
fn gpus_are_grouped_by_cut_point() {
    let mut a = gpu(0x30);
    a.parent_chain = vec![bdf(0x20, 0)];
    let b = gpu(0x19);
    let c = gpu(0x18);
    let mut d = gpu(0x40);
    d.parent_chain = vec![];
    let groups = group_by_cut_point(&[&a, &b, &c, &d]);
    assert_eq!(groups.len(), 2);
    assert_eq!(groups[0].cut, bdf(0x16, 0));
    assert_eq!(groups[0].members, vec![bdf(0x19, 0), bdf(0x18, 0)]);
    assert_eq!(groups[1].cut, bdf(0x20, 0));
    assert_eq!(groups[1].members, vec![bdf(0x30, 0)]);
    assert_eq!(distinct(&vec![bdf(3, 0), bdf(1, 0), bdf(3, 0)]), vec![bdf(1, 0), bdf(3, 0)]);
}

#[test]
fn every_gpu_below_a_bridge_is_in_one_group() {
    let a = gpu(0x30);
    let b = gpu(0x19);
    let mut c = gpu(0x18);
    c.parent_chain = vec![bdf(0x02, 0), bdf(0x16, 0)];
    for list in [[&a, &b, &c], [&c, &b, &a]] {
        let groups = group_by_cut_point(&list);
        let cuts: Vec<Bdf> = groups.iter().map(|g| g.cut).collect();
        assert_eq!(cuts, vec![bdf(0x02, 0), bdf(0x16, 0)]);
        for g in list {
            let holding: Vec<Bdf> =
                groups.iter().filter(|x| x.members.contains(&g.bdf)).map(|x| x.cut).collect();
            assert_eq!(Some(holding), cut_point(g).map(|c| vec![c]));
        }
    }
}
