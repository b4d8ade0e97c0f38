use t2rebar::rebar::{
    find_ext_cap, format_list, format_size, format_size_index, read_rebar, size_bytes,
    write_size_index, CapStep, Rebar, RebarEntry, RebarStep, WriteProgress, WriteStep,
    PCI_EXT_CAP_ID_REBAR, PCI_EXT_CAP_START,
};

fn find(cfg: &dyn Fn(usize) -> u32, cap_id: u16) -> (Option<usize>, usize) {
    let mut replies: Vec<u32> = Vec::new();
    loop {
        match find_ext_cap(cap_id, &replies) {
            CapStep::Read(offset) => replies.push(cfg(offset)),
            CapStep::Done(found) => return (found, replies.len()),
        }
    }
}

fn scan(cfg: &dyn Fn(usize) -> u32) -> (Result<Option<Rebar>, String>, usize) {
    let mut replies: Vec<u32> = Vec::new();
    loop {
        match read_rebar(&replies) {
            RebarStep::Read(offset) => replies.push(cfg(offset)),
            RebarStep::Done(found) => return (Ok(found), replies.len()),
            RebarStep::Invalid(e) => return (Err(e), replies.len()),
        }
    }
}

fn read(cfg: &dyn Fn(usize) -> u32) -> (Option<Rebar>, usize) {
    let (found, reads) = scan(cfg);
    (found.unwrap(), reads)
}

fn two_bars(offset: usize) -> u32 {
    match offset {
        0x100 => 0x1341_0001,
        0x134 => 0x0001_0015,
        0x138 => 0x0003_ff00 << 4,
        0x13c => 0x0000_0841,
        0x140 => 0x0000_0007 << 4,
        0x144 => 0x0000_0043,
        _ => 0,
    }
}

#[test]
fn capabilities_are_found_along_the_list() {
    assert_eq!(PCI_EXT_CAP_START, 0x100);
    assert_eq!(find(&two_bars, PCI_EXT_CAP_ID_REBAR), (Some(0x134), 2));
    assert_eq!(find(&two_bars, 0x0001), (Some(0x100), 1));
    assert_eq!(find(&two_bars, 0x0002), (None, 2));
}

#[test]
fn absent_lists_end_the_search() {
    assert_eq!(find(&|_| 0, 0x15), (None, 1));
    assert_eq!(find(&|_| 0xffff_ffff, 0x15), (None, 1));
    assert_eq!(find(&|_| 0x0501_0001, 0x15), (None, 1));
}

#[test]
fn cycles_in_the_list_end_the_search() {
    assert_eq!(find(&|_| 0x1001_0001, 0x15), (None, 0xf00));
}

#[test]
fn capabilities_are_found_however_long_the_list_is() {
    let fifty = |offset: usize| {
        if offset == 0x1c4 {
            0x0001_0015
        } else {
            ((offset as u32 + 4) << 20) | 0x1_0001
        }
    };
    assert_eq!(find(&fifty, 0x15), (Some(0x1c4), 50));
    let longest = |offset: usize| {
        if offset == 0xfff {
            0x0001_0015
        } else {
            ((offset as u32 + 1) << 20) | 0x1_0001
        }
    };
    assert_eq!(find(&longest, 0x15), (Some(0xfff), 0xf00));
}

#[test]
fn entries_are_read() {
    let (found, reads) = read(&two_bars);
    let reb = found.unwrap();
    assert_eq!(reads, 7);
    assert_eq!(reb.cap_offset, 0x134);
    assert_eq!(reb.entries.len(), 2);
    assert_eq!(reb.entries[0].bar_index, 1);
    assert_eq!(reb.entries[0].current_size_index, 8);
    assert_eq!(reb.entries[0].supported_sizes_mask, 0x3ff00);
    assert_eq!(reb.entries[1].bar_index, 3);
    assert_eq!(reb.entries[1].current_size_index, 0);
    assert_eq!(format!("{:?}", reb.clone()), format!("{:?}", reb));
}

#[test]
fn capabilities_may_be_missing_or_without_entries() {
    assert!(read(&|_| 0).0.is_none());
    let (found, reads) = read(&|offset| if offset == 0x100 { 0x0001_0015 } else { 0 });
    assert_eq!(found.unwrap().entries.len(), 0);
    assert_eq!(reads, 2);
}

#[test]
fn supported_sizes_are_listed() {
    let e = RebarEntry { bar_index: 1, current_size_index: 8, supported_sizes_mask: 0x0002_2100 };
    assert_eq!(e.supported_indices(), vec![8, 13, 17]);
    assert_eq!(e.largest_supported(), Some(17));
    assert!(e.supports(13));
    assert!(!e.supports(14));
    assert!(!e.supports(32));
    assert!(!e.supports(255));
    let none = RebarEntry { supported_sizes_mask: 0x9000_0000, ..e };
    assert_eq!(none.supported_indices(), Vec::<u8>::new());
    assert_eq!(none.largest_supported(), None);
    assert!(none.supports(31));
    assert_eq!(format_list(&e.supported_indices()), format!("{:?}", e.supported_indices()));
    assert_eq!(format_list(&Vec::new()), "[]");
}

fn write_to(ctrl: u32, keep: bool, index: u8) -> Result<u32, String> {
    let mut register = ctrl;
    let mut progress = WriteProgress::Start;
    loop {
        match write_size_index(0x134, 1, index, progress) {
            WriteStep::Read(offset) => {
                assert_eq!(offset, 0x144);
                progress = if matches!(progress, WriteProgress::Start) {
                    WriteProgress::Current(register)
                } else {
                    WriteProgress::Readback(register)
                };
            }
            WriteStep::Write { offset, value } => {
                assert_eq!(offset, 0x144);
                if keep {
                    register = value;
                }
                progress = WriteProgress::Written;
            }
            WriteStep::Done => return Ok(register),
            WriteStep::Rejected(e) => return Err(e),
        }
    }
}

#[test]
fn sizes_are_written_into_their_field_alone() {
    assert_eq!(write_to(0xabcd_c843, true, 17), Ok(0xabcd_d143));
    assert_eq!(write_to(0x0000_0021, true, 0), Ok(0x0000_0021));
}

#[test]
fn rejected_sizes_are_reported() {
    assert_eq!(
        write_to(0x0000_0843, false, 17),
        Err(String::from(
            "rebar write rejected: wrote size idx 17 but device reports 8 (ctrl=0x00000843)"
        ))
    );
    assert!(write_to(0, true, 64).is_err());
}

#[test]
fn size_indices_have_the_sizes_of_the_table() {
    for (index, size) in [(8, "256 MiB"), (13, "8 GiB"), (15, "32 GiB"), (16, "64 GiB"), (17, "128 GiB")] {
        assert_eq!(format_size_index(index), size);
    }
    assert_eq!(size_bytes(0), 1 << 20);
    assert_eq!(size_bytes(8), 256 << 20);
    assert_eq!(size_bytes(43), 1 << 63);
    assert_eq!(format_size_index(0), "1 MiB");
    assert_eq!(format_size_index(27), "128 TiB");
}

#[test]
fn sizes_are_written_in_the_largest_unit_that_divides_them() {
    for (bytes, text) in [
        (0, "0 B"),
        (1023, "1023 B"),
        (1024, "1 KiB"),
        (1025, "1 KiB"),
        (1 << 20, "1 MiB"),
        ((1 << 20) + 1, "1024 KiB"),
        (288 << 20, "288 MiB"),
        (3 << 29, "1536 MiB"),
        (1 << 40, "1 TiB"),
        (u64::MAX, "18014398509481983 KiB"),
    ] {
        assert_eq!(format_size(bytes), text);
    }
}

#[test]
fn entries_stay_within_the_widths_of_the_registers() {
    let (found, reads) = read(&|offset| if offset == 0x100 { 0xfff1_0015 } else { 0xffff_fffd });
    let reb = found.unwrap();
    assert_eq!(reads, 2 + 2 * 7);
    assert_eq!(reb.entries.len(), 7);
    for e in &reb.entries {
        assert_eq!((e.bar_index, e.current_size_index), (5, 63));
        assert_eq!(e.supported_indices(), (0..28).collect::<Vec<u8>>());
        assert!(!e.supports(28));
    }
}

#[test]
fn reserved_bars_end_the_scan() {
    let one = |offset: usize| match offset {
        0x100 => 0x0001_0015,
        0x108 => 0x0000_0826,
        _ => 0,
    };
    let (found, reads) = scan(&one);
    assert_eq!(found.unwrap_err(), "rebar entry 0 names reserved BAR 6");
    assert_eq!(reads, 4);
    let second = |offset: usize| if offset == 0x144 { 0x0000_0047 } else { two_bars(offset) };
    let (found, reads) = scan(&second);
    assert_eq!(found.unwrap_err(), "rebar entry 1 names reserved BAR 7");
    assert_eq!(reads, 7);
}

#[test]
fn a_written_size_is_read_again() {
    let before = read(&two_bars).0.unwrap();
    let ctrl = write_to(two_bars(0x144), true, 17).unwrap();
    let after = read(&|offset| if offset == 0x144 { ctrl } else { two_bars(offset) }).0.unwrap();
    assert_eq!(after.cap_offset, before.cap_offset);
    assert_eq!(after.entries[0], before.entries[0]);
    assert_eq!(after.entries[1], RebarEntry { current_size_index: 17, ..before.entries[1] });
    assert_eq!(after.entries.len(), before.entries.len());
}
