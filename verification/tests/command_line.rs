use t2rebar::cli::{parse_command, parse_flags, parse_target, Command};
use t2rebar::execute::Options;
use t2rebar::plan::Mode;

fn args(v: &[&str]) -> Vec<String> {
    v.iter().map(|s| s.to_string()).collect()
}

fn flags(v: &[&str]) -> Result<(Mode, Options), String> {
    parse_flags(&args(v))
}

#[test]
fn subcommands_are_told_apart() {
    assert!(matches!(parse_command(&args(&[])), Command::Diagnose));
    assert!(matches!(parse_command(&args(&["diagnose"])), Command::Diagnose));
    assert!(matches!(parse_command(&args(&["plan", "--yes"])), Command::Plan));
    assert!(matches!(parse_command(&args(&["execute"])), Command::Execute));
    assert!(matches!(parse_command(&args(&["rollback"])), Command::Rollback));
    assert!(matches!(parse_command(&args(&["verify"])), Command::Verify));
    for s in ["-h", "--help", "help"] {
        assert!(matches!(parse_command(&args(&[s])), Command::Help));
    }
    match parse_command(&args(&["Plan"])) {
        Command::Unknown(s) => assert_eq!(s, "Plan"),
        other => panic!("{:?}", other),
    }
}

#[test]
fn flags_have_defaults() {
    let (mode, opts) = flags(&[]).unwrap();
    assert_eq!(mode, Mode::Planned);
    assert!(!opts.yes && !opts.force);
    assert_eq!(opts.manifest_path, None);
    assert_eq!(opts.path(), "/var/lib/t2rebar/state.txt");
    assert_eq!(format!("{:?}", Options::default()), format!("{:?}", opts));
}

#[test]
fn flags_are_read() {
    let (mode, opts) = flags(&["--target=current", "-y", "--force", "--manifest=/tmp/m=1"]).unwrap();
    assert_eq!(mode, Mode::Current);
    assert!(opts.yes && opts.force);
    assert_eq!(opts.path(), "/tmp/m=1");
    assert_eq!(format!("{:?}", opts.clone()), format!("{:?}", opts));
    let (mode, opts) = flags(&["--target", "13", "--yes", "--manifest", "--force"]).unwrap();
    assert_eq!(mode, Mode::Explicit(13));
    assert!(opts.yes && !opts.force);
    assert_eq!(opts.manifest_path, Some(String::from("--force")));
}

#[test]
fn later_flags_override_earlier_ones() {
    let (mode, opts) = flags(&["--target=5", "--manifest=a", "--target=planned", "--manifest", "b"]).unwrap();
    assert_eq!(mode, Mode::Planned);
    assert_eq!(opts.path(), "b");
}

#[test]
fn wrong_flags_have_messages() {
    assert_eq!(flags(&["--target"]).unwrap_err(), "--target requires a value");
    assert_eq!(flags(&["--manifest"]).unwrap_err(), "--manifest requires a value");
    assert_eq!(flags(&["--yes", "--what", "--target"]).unwrap_err(), "unknown flag: --what");
    assert_eq!(flags(&["--target=big"]).unwrap_err(), "bad --target value: big");
    assert_eq!(flags(&["--target", "256"]).unwrap_err(), "bad --target value: 256");
    assert_eq!(flags(&["--target="]).unwrap_err(), "bad --target value: ");
}

#[test]
fn every_size_index_is_a_target() {
    for n in 0..=255u8 {
        let digits: Vec<char> = n.to_string().chars().collect();
        assert_eq!(parse_target(&digits), Ok(Mode::Explicit(n)));
    }
}
