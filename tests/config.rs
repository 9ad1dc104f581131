use serial_term::config::{mode, parse_args, AppArgs, ArgError, Mode, Parsed, DEFAULT_BAUD};

fn argv(xs: &[&str]) -> Vec<String> {
    xs.iter().map(|s| s.to_string()).collect()
}

fn run(xs: &[&str]) -> (AppArgs, Vec<String>) {
    match parse_args(argv(xs)) {
        Ok(Parsed::Run { args, unused }) => (args, unused),
        other => panic!("unexpected {:?}", other),
    }
}

#[test]
fn defaults() {
    let (a, unused) = run(&[]);
    assert!(!a.list && !a.follow && !a.save && !a.bl);
    assert_eq!(a.port, None);
    assert_eq!(a.baud, 115_200);
    assert_eq!(DEFAULT_BAUD, 115_200);
    assert!(unused.is_empty());
    assert_eq!(mode(&a), Mode::Help);
}

#[test]
fn help_wins() {
    assert!(matches!(parse_args(argv(&["--port", "COM3", "-h"])), Ok(Parsed::Help)));
    assert!(matches!(parse_args(argv(&["--help"])), Ok(Parsed::Help)));
}

#[test]
fn port_and_baud() {
    let (a, unused) = run(&["--port", "COM3", "--baud", "9600"]);
    assert_eq!(a.port, Some("COM3".to_string()));
    assert_eq!(a.baud, 9600);
    assert!(unused.is_empty());
    assert_eq!(mode(&a), Mode::Stream);
}

#[test]
fn short_and_long_flags() {
    let (a, _) = run(&["-l", "-f", "-s", "-b"]);
    assert!(a.list && a.follow && a.save && a.bl);
    let (b, _) = run(&["--list", "--follow", "--save", "--bl"]);
    assert!(b.list && b.follow && b.save && b.bl);
    assert_eq!(mode(&b), Mode::List);
}

#[test]
fn unreadable_baud_is_an_error() {
    for bad in ["fast", "-1", "4294967296", ""] {
        assert_eq!(
            parse_args(argv(&["--port", "COM3", "--baud", bad])).unwrap_err(),
            ArgError::BaudUnreadable
        );
    }
    assert_eq!(parse_args(argv(&["--baud"])).unwrap_err(), ArgError::BaudUnreadable);
}

#[test]
fn baud_with_plus_sign_and_largest() {
    let (b, _) = run(&["--baud", "+57600"]);
    assert_eq!(b.baud, 57600);
    let (c, _) = run(&["--baud", "4294967295"]);
    assert_eq!(c.baud, u32::MAX);
}

#[test]
fn port_without_value() {
    assert_eq!(parse_args(argv(&["--port"])).unwrap_err(), ArgError::PortWithoutValue);
}

#[test]
fn unused_arguments_are_kept() {
    let (a, unused) = run(&["extra", "--port", "p", "-s", "more"]);
    assert_eq!(a.port, Some("p".to_string()));
    assert!(a.save);
    assert_eq!(unused, argv(&["extra", "more"]));
}

#[test]
fn bootloader_before_stream() {
    let (a, _) = run(&["--bl", "--port", "COM3"]);
    assert_eq!(mode(&a), Mode::Bootloader);
}

#[test]
fn any_baud_reads_back() {
    for b in [0u32, 1, 9600, 115_200, u32::MAX] {
        let (a, unused) = run(&["--port", "COM9", "--baud", &b.to_string()]);
        assert_eq!(a.port, Some("COM9".to_string()));
        assert_eq!(a.baud, b);
        assert!(!a.list && !a.follow && !a.save && !a.bl);
        assert!(unused.is_empty());
    }
}
