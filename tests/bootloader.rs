use serial_term::bootloader::{Command, ControlTransfer, DeviceScan, Trigger, PRODUCT_ID, VENDOR_ID};

fn transfer(index: u16) -> Command {
    Command::Transfer(ControlTransfer {
        request_type: 0x41,
        request: 0xff,
        value: 0x37e1,
        index,
        timeout_ms: 100,
    })
}

#[test]
fn full_sequence_in_order() {
    let mut t = Trigger::new();
    let mut seen = Vec::new();
    loop {
        let c = t.next(false);
        if c == Command::Done {
            break;
        }
        seen.push(c);
    }
    assert_eq!(
        seen,
        vec![transfer(0x0003), Command::Sleep(100), transfer(0x0103), Command::Sleep(1000), transfer(0x0303)]
    );
    assert_eq!(t.next(false), Command::Done);
}

#[test]
fn failure_stops_the_sequence() {
    let mut t = Trigger::new();
    assert_eq!(t.next(false), transfer(0x0003));
    assert_eq!(t.next(false), Command::Sleep(100));
    assert_eq!(t.next(false), transfer(0x0103));
    assert_eq!(t.next(true), Command::Abort);
    assert_eq!(t.next(false), Command::Abort);
    assert!(t.aborted);
}

#[test]
fn first_transfer_failure_aborts() {
    let mut t = Trigger::new();
    assert_eq!(t.next(false), transfer(0x0003));
    assert_eq!(t.next(true), Command::Abort);
}

#[test]
fn device_ids() {
    assert_eq!(VENDOR_ID, 0x10c4);
    assert_eq!(PRODUCT_ID, 0xea60);
}

#[test]
fn scan_tries_matches_until_one_opens() {
    let mut scan = DeviceScan::new(0x10c4, 0xea60);
    assert!(!scan.should_open(None));
    assert!(!scan.should_open(Some((0x1234, 0xea60))));
    assert!(scan.should_open(Some((0x10c4, 0xea60))));
    scan.opened(false);
    assert!(!scan.finished());
    assert!(!scan.should_open(Some((0x10c4, 0x0001))));
    assert!(scan.should_open(Some((0x10c4, 0xea60))));
    scan.opened(true);
    assert!(scan.finished());
    assert!(!scan.should_open(Some((0x10c4, 0xea60))));
}

#[test]
fn scan_with_no_match() {
    let scan = DeviceScan::new(0x1111, 0x2222);
    assert!(!scan.should_open(Some((0x10c4, 0xea60))));
    assert!(!scan.finished());
}
