use serial_term::listing::port_list_json;

#[test]
fn two_ports() {
    let names = vec!["COM3".to_string(), "COM5".to_string()];
    assert_eq!(port_list_json(&names), "[\"COM3\",\"COM5\"]");
}

#[test]
fn no_ports() {
    assert_eq!(port_list_json(&Vec::new()), "[]");
}

#[test]
fn one_port() {
    assert_eq!(port_list_json(&vec!["/dev/ttyUSB0".to_string()]), "[\"/dev/ttyUSB0\"]");
}

#[test]
fn names_are_escaped() {
    let names = vec!["a\"b".to_string(), "c\\d".to_string(), "e\nf\u{1}".to_string(), "é/".to_string()];
    assert_eq!(
        port_list_json(&names),
        "[\"a\\\"b\",\"c\\\\d\",\"e\\nf\\u0001\",\"é/\"]"
    );
}

#[test]
fn listing_has_one_string_per_port() {
    let names = vec!["x,y".to_string(), "]".to_string(), "".to_string()];
    let json = port_list_json(&names);
    let parsed: Vec<String> = serde_json::from_str(&json).unwrap();
    assert_eq!(parsed, names);
}
