use serial_term::text::{
    decimal_text, line_to_wire, log_file_name, log_file_name_at, open_failure_message, Timestamp,
};

#[test]
fn open_failure_scenario() {
    assert_eq!(open_failure_message("COM3", 9600), "Unable to connect to COM3 with baud 9600");
}

#[test]
fn open_failure_extremes() {
    assert_eq!(open_failure_message("", 0), "Unable to connect to  with baud 0");
    assert_eq!(
        open_failure_message("/dev/ttyACM0", u32::MAX),
        "Unable to connect to /dev/ttyACM0 with baud 4294967295"
    );
}

#[test]
fn decimals() {
    assert_eq!(decimal_text(0), "0");
    assert_eq!(decimal_text(10), "10");
    assert_eq!(decimal_text(115_200), "115200");
}

#[test]
fn log_name() {
    assert_eq!(
        log_file_name("2024-01-02T03:04:05.123456789+01:00"),
        "log-2024-01-02T03:04:05.123456789+01:00.txt"
    );
}

#[test]
fn line_endings() {
    assert_eq!(line_to_wire(b"hello\n"), b"hello\r\n".to_vec());
    assert_eq!(line_to_wire(b"hello"), b"hello\r\n".to_vec());
    assert_eq!(line_to_wire(b"\n"), b"\r\n".to_vec());
    assert_eq!(line_to_wire(b""), b"\r\n".to_vec());
}

#[test]
fn log_name_from_moment() {
    let t = Timestamp { secs: 0, nanos: 0, offset_secs: 3600 };
    assert_eq!(log_file_name_at(&t), Some("log-1970-01-01T01:00:00+01:00.txt".to_string()));
    let u = Timestamp { secs: 1_700_000_000, nanos: 123_000_000, offset_secs: 0 };
    assert_eq!(log_file_name_at(&u), Some("log-2023-11-14T22:13:20.123+00:00.txt".to_string()));
}

#[test]
fn log_name_offset_out_of_range() {
    let t = Timestamp { secs: 0, nanos: 0, offset_secs: 86_400 };
    assert_eq!(log_file_name_at(&t), None);
}

#[test]
fn log_name_at_range_edges() {
    let last = Timestamp { secs: 253_402_300_799, nanos: 999_999_999, offset_secs: 0 };
    assert_eq!(
        log_file_name_at(&last),
        Some("log-9999-12-31T23:59:59.999999999+00:00.txt".to_string())
    );
    let west = Timestamp { secs: 0, nanos: 0, offset_secs: -86_399 };
    assert_eq!(log_file_name_at(&west), Some("log-1969-12-31T00:00:01-24:00.txt".to_string()));
}

#[test]
fn log_name_at_start_of_year_one() {
    let first = Timestamp { secs: -62_135_596_800, nanos: 0, offset_secs: 0 };
    assert_eq!(log_file_name_at(&first), Some("log-0001-01-01T00:00:00+00:00.txt".to_string()));
}
