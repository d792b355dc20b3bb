use my_socks_server::policy::PortRange;

#[test]
fn parses_single_ports_and_ranges() {
    let single = PortRange::parse("5432").unwrap();
    assert!(single.contains(5432));
    assert!(!single.contains(5433));
    assert_eq!(single.to_text(), "5432");

    let range = PortRange::parse("8000-8100").unwrap();
    assert!(range.contains(8000));
    assert!(range.contains(8100));
    assert!(!range.contains(7999));
    assert!(!range.contains(8101));
    assert_eq!(range.to_text(), "8000-8100");
}

#[test]
fn rejects_invalid_ports() {
    for input in ["", "0", "65536", "-1", "80-70", "a", "1-", "-5", "1-2-3"] {
        assert!(PortRange::parse(input).is_err(), "{input:?} must be rejected");
    }
}

#[test]
fn port_errors_carry_the_input_and_the_expected_format() {
    let error = PortRange::parse("80-70").unwrap_err();
    assert_eq!(error.input, "80-70");
    assert_eq!(
        error.message(),
        "'80-70': expected a port 1-65535 or a range like 8000-8100"
    );
    assert!(PortRange::parse(" 443 ").unwrap().contains(443));
}

#[test]
fn port_range_text_reads_back_as_the_same_range() {
    for input in ["1", "65535", " 443 ", "+22", "0080", "8000-8100", "1-65535", " 10 - 20 "] {
        let range = PortRange::parse(input).unwrap();
        let text = range.to_text();
        assert_eq!(PortRange::parse(&text).unwrap(), range, "{input:?} -> {text:?}");
    }
}
