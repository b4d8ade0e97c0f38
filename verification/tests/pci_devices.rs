use t2rebar::config::{config_path, read_dword, write_dword};
use t2rebar::pci::device::{read_parent_chain, read_resources, sort_bdfs};
use t2rebar::pci::res_flag;
use t2rebar::pci::{
    companions, current_driver, enumerate, parse_names, read_device, Bdf, DeviceFiles, Resource,
    SYSFS_PCI_DEVICES,
};

fn bdf(domain: u16, bus: u8, device: u8, function: u8) -> Bdf {
    Bdf { domain, bus, device, function }
}

fn names(v: &[&str]) -> Vec<String> {
    v.iter().map(|s| s.to_string()).collect()
}

fn gpu_files() -> DeviceFiles {
    DeviceFiles {
        class: Ok(String::from("0x030000\n")),
        vendor: Ok(String::from("0x10de\n")),
        device: Ok(String::from("0x2bb1\n")),
        driver: Some(String::from("../../../bus/pci/drivers/nvidia")),
        resource: Ok(String::from(
            "0x00000000a0000000 0x00000000a3ffffff 0x0000000000040200\n\
             0x0000380000000000 0x000038000fffffff 0x000000000014220c\n",
        )),
        path: Ok(names(&["/", "sys", "devices", "pci0000:16", "0000:16:00.0", "0000:17:00.0"])),
    }
}

#[test]
fn addresses_are_read() {
    assert_eq!(Bdf::parse("0000:17:00.0"), Some(bdf(0, 0x17, 0, 0)));
    assert_eq!(Bdf::parse("ABCD:ff:1f.7"), Some(bdf(0xabcd, 0xff, 0x1f, 7)));
    assert_eq!(Bdf::parse("1:2:3.4"), Some(bdf(1, 2, 3, 4)));
    for s in ["", "pci0000:16", "0000:17:00", "0000:17.0", "0000:1g:00.0", "10000:00:00.0", "0000:100:00.0", "0000:00:00."] {
        assert_eq!(Bdf::parse(s), None, "{}", s);
    }
}

#[test]
fn addresses_are_written_and_read_back() {
    assert_eq!(bdf(0, 0x17, 0, 0).to_string(), "0000:17:00.0");
    assert_eq!(bdf(0xabcd, 0xef, 0x1f, 7).to_string(), "abcd:ef:1f.7");
    for b in [bdf(0, 0, 0, 0), bdf(0xffff, 0xff, 0xff, 0xff), bdf(1, 2, 3, 4)] {
        assert_eq!(Bdf::parse(&b.to_string()), Some(b));
    }
    assert_eq!(bdf(0, 0x17, 0, 1).sysfs_dir(), "/sys/bus/pci/devices/0000:17:00.1");
    assert_eq!(SYSFS_PCI_DEVICES, "/sys/bus/pci/devices");
}

#[test]
fn addresses_are_ordered_field_by_field() {
    let list = [
        bdf(0, 0, 0, 0),
        bdf(0, 0, 0, 255),
        bdf(0, 0, 1, 0),
        bdf(0, 1, 0, 0),
        bdf(1, 0, 0, 0),
    ];
    for a in list {
        for b in list {
            assert_eq!(a.precedes(&b), a < b);
        }
    }
    let v = vec![list[4], list[1], list[3], list[1], list[0]];
    assert_eq!(sort_bdfs(&v), vec![list[0], list[1], list[1], list[3], list[4]]);
}

#[test]
fn resources_have_sizes_and_kinds() {
    let r = Resource { start: 0x1000, end: 0x1fff, flags: res_flag::MEM };
    assert!(r.is_assigned());
    assert_eq!(r.size(), 0x1000);
    assert_eq!(r.kind_label(), "mem32");
    assert_eq!(Resource { start: 0, end: 0, flags: res_flag::MEM }.size(), 0);
    assert_eq!(Resource { start: 5, end: 9, flags: 0 }.size(), 0);
    assert_eq!(Resource { start: 9, end: 5, flags: res_flag::IO }.size(), 0);
    assert_eq!(Resource { start: 0, end: 0xff, flags: res_flag::IO }.kind_label(), "io");
    let kind = |flags: u64| Resource { start: 1, end: 2, flags }.kind_label();
    assert_eq!(kind(res_flag::MEM | res_flag::PREFETCH | res_flag::MEM_64), "mem64 pref");
    assert_eq!(kind(res_flag::MEM | res_flag::PREFETCH), "mem32 pref");
    assert_eq!(kind(res_flag::MEM | res_flag::MEM_64), "mem64");
    assert_eq!(kind(1), "?");
    let all = Resource { start: 0, end: u64::MAX, flags: res_flag::MEM };
    assert!(!all.is_sized());
    assert_eq!(all.span(), 1u128 << 64);
}

#[test]
fn resource_files_are_read() {
    let mut text = String::new();
    for i in 0..9 {
        text.push_str(&format!("0x{:016x} 0x{:016x} 0x0000000000040200\n", i * 16, i * 16 + 15));
    }
    let v = read_resources(&text).unwrap();
    assert_eq!(v.len(), 7);
    assert_eq!(v[6], Resource { start: 96, end: 111, flags: 0x40200 });
    assert_eq!(read_resources("").unwrap(), Vec::new());
}

#[test]
fn resource_files_are_refused() {
    assert_eq!(read_resources("\n").unwrap_err(), "resource[0] missing start");
    assert_eq!(read_resources("0x1 0x2 0x3\n0x1\n").unwrap_err(), "resource[1] missing end");
    assert_eq!(read_resources("0x1 0x2").unwrap_err(), "resource[0] missing flags");
    assert_eq!(
        read_resources("0x1 0xzz\"y 0x3").unwrap_err(),
        "hex parse \"zz\\\"y\": invalid digit found in string"
    );
    assert_eq!(
        read_resources("0x 0x2 0x3").unwrap_err(),
        "hex parse \"\": cannot parse integer from empty string"
    );
    assert_eq!(
        read_resources("0x1 0x2 0x1ffffffffffffffff").unwrap_err(),
        "hex parse \"1ffffffffffffffff\": number too large to fit in target type"
    );
}

#[test]
fn parents_are_the_other_addresses_of_the_path() {
    let path = names(&["/", "sys", "devices", "pci0000:16", "0000:16:00.0", "0000:17:00.0", "0000:18:10.0", "0000:19:00.0"]);
    assert_eq!(
        read_parent_chain(bdf(0, 0x19, 0, 0), &path),
        vec![bdf(0, 0x16, 0, 0), bdf(0, 0x17, 0, 0), bdf(0, 0x18, 0x10, 0)]
    );
}

#[test]
fn companions_share_the_slot() {
    let all = names(&["0000:17:00.2", "0000:17:00.0", "bridge", "0000:17:01.1", "0000:17:00.1", "0001:17:00.3"]);
    assert_eq!(companions(bdf(0, 0x17, 0, 0), &all), vec![bdf(0, 0x17, 0, 1), bdf(0, 0x17, 0, 2)]);
    assert_eq!(parse_names(&all).len(), 5);
}

#[test]
fn drivers_are_named_by_their_link() {
    let name = |s: &str| current_driver(&Some(s.to_string()));
    assert_eq!(name("../../../bus/pci/drivers/amdgpu"), Some(String::from("amdgpu")));
    assert_eq!(current_driver(&None), None);
    for s in ["", "/", "nvidia", "a/b/", "a//b", "a/.", ".", "./", "..", "a/..", "a/../.", "/x/./y"] {
        let std_name = std::path::Path::new(s).file_name().map(|n| n.to_str().unwrap().to_string());
        assert_eq!(name(s), std_name, "{}", s);
    }
}

#[test]
fn devices_are_read() {
    let b = bdf(0, 0x17, 0, 0);
    let d = read_device(b, &gpu_files()).unwrap();
    assert!(d.is_gpu());
    assert_eq!(d.bdf, b);
    assert_eq!((d.class, d.vendor, d.device_id), (0x30000, 0x10de, 0x2bb1));
    assert_eq!(d.driver, Some(String::from("nvidia")));
    assert_eq!(d.resources.len(), 2);
    assert_eq!(d.resources[1].size(), 0x1000_0000);
    assert_eq!(d.parent_chain, vec![bdf(0, 0x16, 0, 0)]);
    assert_eq!(format!("{:?}", d.clone()), format!("{:?}", d));
}

#[test]
fn three_d_controllers_are_gpus_and_others_are_not() {
    for (class, gpu) in [("0x030000", true), ("0x030200", true), ("0x0302ff", true), ("0x030100", false), ("0x060400", false)] {
        let mut f = gpu_files();
        f.class = Ok(String::from(class));
        assert_eq!(read_device(bdf(0, 1, 0, 0), &f).unwrap().is_gpu(), gpu);
    }
}

#[test]
fn the_first_bad_attribute_decides_the_error() {
    let b = bdf(0, 0x17, 0, 0);
    let mut f = gpu_files();
    f.path = Err(String::from("no path"));
    assert_eq!(read_device(b, &f).unwrap_err(), "no path");
    f.resource = Err(String::from("no resource"));
    assert_eq!(read_device(b, &f).unwrap_err(), "no resource");
    f.device = Ok(String::from("0x123456789"));
    assert_eq!(
        read_device(b, &f).unwrap_err(),
        "parse \"/sys/bus/pci/devices/0000:17:00.0/device\": number too large to fit in target type"
    );
    f.vendor = Ok(String::from("0x"));
    assert_eq!(
        read_device(b, &f).unwrap_err(),
        "parse \"/sys/bus/pci/devices/0000:17:00.0/vendor\": cannot parse integer from empty string"
    );
    f.class = Err(String::from("gone"));
    assert_eq!(read_device(b, &f).unwrap_err(), "gone");
}

#[test]
fn devices_are_listed_in_order_and_unreadable_ones_reported() {
    let mut broken = gpu_files();
    broken.class = Err(String::from("denied"));
    let found = vec![
        (bdf(0, 3, 0, 0), gpu_files()),
        (bdf(0, 1, 0, 0), gpu_files()),
        (bdf(0, 2, 0, 0), broken),
    ];
    let (devices, warnings) = enumerate(&found);
    let order: Vec<Bdf> = devices.iter().map(|d| d.bdf).collect();
    assert_eq!(order, vec![bdf(0, 1, 0, 0), bdf(0, 3, 0, 0)]);
    assert_eq!(warnings, vec![(bdf(0, 2, 0, 0), String::from("denied"))]);
}

#[test]
fn dwords_are_little_endian() {
    assert_eq!(read_dword([0x78, 0x56, 0x34, 0x12]), 0x1234_5678);
    assert_eq!(write_dword(0x1234_5678), [0x78, 0x56, 0x34, 0x12]);
    for v in [0, 1, 0xff, 0x1501_0015, u32::MAX] {
        assert_eq!(read_dword(write_dword(v)), v);
        assert_eq!(write_dword(v), v.to_le_bytes());
    }
    assert_eq!(config_path(bdf(0, 0x17, 0, 0)), "/sys/bus/pci/devices/0000:17:00.0/config");
}

#[test]
fn sorting_does_not_depend_on_the_order_given() {
    let a = bdf(0, 1, 0, 0);
    let b = bdf(0, 1, 0, 1);
    let c = bdf(2, 0, 0, 0);
    for v in [vec![a, b, c, b], vec![c, b, b, a], vec![b, c, a, b]] {
        assert_eq!(sort_bdfs(&v), vec![a, b, b, c]);
    }
}

#[test]
fn listing_keeps_the_order_of_equal_addresses() {
    let mut other = gpu_files();
    other.vendor = Ok(String::from("0x1002"));
    let found = vec![
        (bdf(0, 2, 0, 0), gpu_files()),
        (bdf(0, 1, 0, 0), gpu_files()),
        (bdf(0, 1, 0, 0), other),
    ];
    let (devices, _) = enumerate(&found);
    let seen: Vec<(Bdf, u16)> = devices.iter().map(|d| (d.bdf, d.vendor)).collect();
    assert_eq!(
        seen,
        vec![(bdf(0, 1, 0, 0), 0x10de), (bdf(0, 1, 0, 0), 0x1002), (bdf(0, 2, 0, 0), 0x10de)]
    );
}
