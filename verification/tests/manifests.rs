use t2rebar::manifest::{
    default_path, delete, parse_dec, parse_hex16, parse_hex_usize, read, save_step, system_name,
    FileOutcome, SaveStep, Saving, MANIFEST_PATH,
};
use t2rebar::pci::Bdf;
use t2rebar::plan::{Action, Mode, Plan};

fn bdf(bus: u8, function: u8) -> Bdf {
    Bdf { domain: 0, bus, device: 0, function }
}

fn plan() -> Plan {
    Plan {
        mode: Mode::Planned,
        actions: vec![
            Action {
                bdf: bdf(0x19, 0),
                vendor: 0x10de,
                device_id: 0x2bb1,
                driver: Some(String::from("nvidia")),
                rebar_cap_offset: 0x134,
                rebar_entry_index: 0,
                bar_index: 1,
                original_size_index: 8,
                target_size_index: 17,
                cut_point: bdf(0x16, 0),
                companions: vec![bdf(0x19, 1), bdf(0x19, 2)],
            },
            Action {
                bdf: bdf(0x2f, 0),
                vendor: 0x1002,
                device_id: 0x73e3,
                driver: None,
                rebar_cap_offset: 0x200,
                rebar_entry_index: 1,
                bar_index: 0,
                original_size_index: 8,
                target_size_index: 13,
                cut_point: bdf(0x2c, 0),
                companions: vec![],
            },
        ],
    }
}

fn shown(p: &Plan) -> String {
    format!("{:?}", p)
}

const TEXT: &str = "# t2rebar manifest
schema=1
timestamp_epoch=1700000000
kernel=7.0.0-1-cachyos
hostname=macpro
mode=planned

action.0.bdf=0000:19:00.0
action.0.vendor=0x10de
action.0.device=0x2bb1
action.0.driver=nvidia
action.0.rebar_cap_offset=0x134
action.0.rebar_entry_index=0
action.0.bar_index=1
action.0.original_size_index=8
action.0.target_size_index=17
action.0.cut_point=0000:16:00.0
action.0.companions=0000:19:00.1,0000:19:00.2

action.1.bdf=0000:2f:00.0
action.1.vendor=0x1002
action.1.device=0x73e3
action.1.driver=
action.1.rebar_cap_offset=0x200
action.1.rebar_entry_index=1
action.1.bar_index=0
action.1.original_size_index=8
action.1.target_size_index=13
action.1.cut_point=0000:2c:00.0
action.1.companions=

";

#[test]
fn manifests_are_written() {
    assert_eq!(t2rebar::manifest::write(&plan(), 1_700_000_000, "7.0.0-1-cachyos", "macpro"), TEXT);
    assert_eq!(default_path(), "/var/lib/t2rebar/state.txt");
    assert_eq!(MANIFEST_PATH, "/var/lib/t2rebar/state.txt");
}

#[test]
fn manifests_are_read_back() {
    assert_eq!(shown(&read(TEXT).unwrap()), shown(&plan()));
    let empty = Plan { mode: Mode::Explicit(5), actions: vec![] };
    assert_eq!(shown(&read(&t2rebar::manifest::write(&empty, 0, "", "")).unwrap()), shown(&empty));
}

#[test]
fn names_that_look_like_entries_are_overridden() {
    let text = t2rebar::manifest::write(&plan(), 1, "k\nmode=current", "h\naction.1.driver=evil");
    assert_eq!(shown(&read(&text).unwrap()), shown(&plan()));
}

#[test]
fn names_that_number_another_action_spoil_the_manifest() {
    let text = t2rebar::manifest::write(&plan(), 1, "k", "h\naction.2.bdf=0000:00:00.0");
    assert_eq!(read(&text).unwrap_err(), "missing action.2.cut_point");
}

#[test]
fn drivers_with_white_space_at_their_ends_do_not_read_back() {
    let mut p = plan();
    p.actions[0].driver = Some(String::from(" nvidia"));
    let back = read(&t2rebar::manifest::write(&p, 1, "k", "h")).unwrap();
    assert_eq!(back.actions[0].driver, Some(String::from("nvidia")));
}

#[test]
fn reading_is_lenient_about_layout() {
    let text = TEXT.replace('\n', "\r\n").replace("action.1.driver=", "  action.1.driver =  ");
    let text = format!("junk\n#mode=current\n{}\n mode = current \n", text);
    let p = read(&text).unwrap();
    assert_eq!(p.mode, Mode::Current);
    assert_eq!(p.actions.len(), 2);
    let text = TEXT.replace("0000:19:00.1,0000:19:00.2", ",x,0000:19:00.2,");
    assert_eq!(read(&text).unwrap().actions[0].companions, vec![bdf(0x19, 2)]);
}

#[test]
fn each_fault_of_a_manifest_has_its_message() {
    let error = |from: &str, to: &str| read(&TEXT.replace(from, to)).unwrap_err();
    assert_eq!(read("").unwrap_err(), "missing mode");
    assert_eq!(error("mode=planned", "mode=best"), "bad mode: best");
    assert_eq!(error("action.1.bdf=", "x="), "missing action.1.bdf");
    assert_eq!(error("action.0.bdf=0000:19:00.0", "action.0.bdf=0000"), "bad action.0.bdf");
    assert_eq!(error("cut_point=0000:16:00.0", "cut_point="), "bad action.0.cut_point");
    assert_eq!(
        error("vendor=0x10de", "vendor=0x110de"),
        "parse hex16 \"110de\": number too large to fit in target type"
    );
    assert_eq!(
        error("offset=0x134", "offset=0xy\t\u{1}"),
        "parse hex \"y\\t\\u{1}\": invalid digit found in string"
    );
    assert_eq!(
        error("bar_index=1", "bar_index=-1"),
        "parse dec \"-1\": invalid digit found in string"
    );
    assert_eq!(
        error("target_size_index=13", "target_size_index="),
        "parse dec \"\": cannot parse integer from empty string"
    );
    assert_eq!(error("action.0.bdf", "action.7.bdf"), "missing action.0.bdf");
}

#[test]
fn the_largest_action_number_is_no_limit() {
    let text = format!("mode=planned\naction.{}.bdf=0000:00:00.0\n", usize::MAX);
    assert_eq!(read(&text).unwrap_err(), "missing action.0.bdf");
}

#[test]
fn values_are_read() {
    assert_eq!(parse_hex16(" 0x10de "), Ok(0x10de));
    assert_eq!(parse_hex_usize("0x134"), Ok(0x134));
    assert_eq!(parse_dec(" 17 "), Ok(17));
    assert_eq!(
        parse_dec(" x "),
        Err(String::from("parse dec \" x \": invalid digit found in string"))
    );
}

#[test]
fn system_names_are_trimmed_or_unknown() {
    assert_eq!(system_name(&Some(String::from("7.0.0\n"))), "7.0.0");
    assert_eq!(system_name(&None), "unknown");
}

#[test]
fn a_missing_manifest_counts_as_deleted() {
    assert_eq!(delete(&FileOutcome::Done), Ok(()));
    assert_eq!(delete(&FileOutcome::NotFound), Ok(()));
    assert_eq!(delete(&FileOutcome::Failed(String::from("busy"))), Err(String::from("busy")));
}

#[test]
fn manifests_are_put_in_place_whole() {
    let path = "/var/lib/t2rebar/state.txt";
    let mut s = Saving { made: None, written: None, renamed: None };
    match save_step(path, &s) {
        SaveStep::MakeDirectory(dir) => assert_eq!(dir, "/var/lib/t2rebar"),
        other => panic!("{:?}", other),
    }
    assert!(matches!(save_step("/", &s), SaveStep::WriteTemporary(_)));
    s.made = Some(Ok(()));
    match save_step(path, &s) {
        SaveStep::WriteTemporary(file) => assert_eq!(file, "/var/lib/t2rebar/state.tmp"),
        other => panic!("{:?}", other),
    }
    s.written = Some(Err(String::from("full")));
    match save_step(path, &s) {
        SaveStep::Failed(e) => assert_eq!(e, "full"),
        other => panic!("{:?}", other),
    }
    s.written = Some(Ok(()));
    match save_step(path, &s) {
        SaveStep::Rename(from, to) => {
            assert_eq!((from.as_str(), to.as_str()), ("/var/lib/t2rebar/state.tmp", path));
        }
        other => panic!("{:?}", other),
    }
    s.renamed = Some(Ok(()));
    assert!(matches!(save_step(path, &s), SaveStep::Done));
    s.renamed = Some(Err(String::from("cross-device")));
    assert!(matches!(save_step(path, &s), SaveStep::Failed(_)));
    s.made = Some(Err(String::from("read-only")));
    assert!(matches!(save_step(path, &s), SaveStep::Failed(_)));
}
