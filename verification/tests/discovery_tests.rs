use peer_mesh::discovery::{
    endpoint, parse_endpoint, parse_port, port_from_payload, port_payload, DISCOVERY_SOURCE_PORT,
};

#[test]
fn the_discovery_source_port() {
    assert_eq!(DISCOVERY_SOURCE_PORT, 7337);
}

#[test]
fn port_payload_is_big_endian() {
    assert_eq!(port_payload(0), vec![0, 0]);
    assert_eq!(port_payload(1), vec![0, 1]);
    assert_eq!(port_payload(255), vec![0, 255]);
    assert_eq!(port_payload(256), vec![1, 0]);
    assert_eq!(port_payload(8080), vec![0x1f, 0x90]);
    assert_eq!(port_payload(65535), vec![255, 255]);
    assert_eq!(port_payload(7337), 7337u16.to_be_bytes().to_vec());
}

#[test]
fn port_from_payload_reads_the_first_two_bytes() {
    assert_eq!(port_from_payload(&[0x1f, 0x90]), 8080);
    assert_eq!(port_from_payload(&[0, 0]), 0);
    assert_eq!(port_from_payload(&[255, 255]), 65535);
    assert_eq!(port_from_payload(&[0x1f, 0x90, 7, 7, 7]), 8080);
    assert_eq!(port_from_payload(&[0x1f]), 0x1f00);
    assert_eq!(port_from_payload(&[]), 0);
}

#[test]
fn payload_round_trip_for_every_port() {
    for port in 0..=u16::MAX {
        assert_eq!(port_from_payload(&port_payload(port)), port);
    }
}

#[test]
fn endpoint_writes_ip_colon_port() {
    assert_eq!(endpoint("127.0.0.1", 8080), "127.0.0.1:8080");
    assert_eq!(endpoint("10.0.0.7", 0), "10.0.0.7:0");
    assert_eq!(endpoint("host", 65535), "host:65535");
    assert_eq!(endpoint("", 9), ":9");
    assert_eq!(endpoint("h", 10), "h:10");
    assert_eq!(endpoint("h", 100), "h:100");
    assert_eq!(endpoint("h", 1000), "h:1000");
    assert_eq!(endpoint("h", 10007), "h:10007");
}

#[test]
fn endpoint_agrees_with_std_formatting() {
    for port in [0u16, 1, 9, 10, 11, 99, 100, 101, 999, 1000, 9999, 10000, 12345, 65535] {
        assert_eq!(endpoint("1.2.3.4", port), format!("1.2.3.4:{}", port));
    }
}

#[test]
fn parse_port_follows_the_decimal_rules() {
    assert_eq!(parse_port("0"), Some(0));
    assert_eq!(parse_port("80"), Some(80));
    assert_eq!(parse_port("+80"), Some(80));
    assert_eq!(parse_port("0080"), Some(80));
    assert_eq!(parse_port("65535"), Some(65535));
    assert_eq!(parse_port("65536"), None);
    assert_eq!(parse_port("000065535"), Some(65535));
    assert_eq!(parse_port("99999999999999999999999"), None);
    assert_eq!(parse_port(""), None);
    assert_eq!(parse_port("+"), None);
    assert_eq!(parse_port("-"), None);
    assert_eq!(parse_port("-1"), None);
    assert_eq!(parse_port("-0"), None);
    assert_eq!(parse_port("++1"), None);
    assert_eq!(parse_port("8a"), None);
    assert_eq!(parse_port("a8"), None);
    assert_eq!(parse_port(" 80"), None);
    assert_eq!(parse_port("80 "), None);
    assert_eq!(parse_port("8 0"), None);
    assert_eq!(parse_port("\u{661}"), None);
}

#[test]
fn parse_port_agrees_with_std_parsing() {
    for text in ["0", "7", "+7", "007", "65535", "65536", "70000", "", "+", "-", "-5", "1x", "x1", "1.0", "1e3"] {
        assert_eq!(parse_port(text), text.parse::<u16>().ok(), "{:?}", text);
    }
}

#[test]
fn parse_endpoint_cuts_at_the_first_colon() {
    assert_eq!(parse_endpoint("127.0.0.1:8080"), Some(("127.0.0.1".to_string(), 8080)));
    assert_eq!(parse_endpoint(":1"), Some(("".to_string(), 1)));
    assert_eq!(parse_endpoint("host:+22"), Some(("host".to_string(), 22)));
    assert_eq!(parse_endpoint("h\u{f6}st:22"), Some(("h\u{f6}st".to_string(), 22)));
    assert_eq!(parse_endpoint("127.0.0.1"), None);
    assert_eq!(parse_endpoint(""), None);
    assert_eq!(parse_endpoint(":"), None);
    assert_eq!(parse_endpoint("host:"), None);
    assert_eq!(parse_endpoint("host:port"), None);
    assert_eq!(parse_endpoint("host:65536"), None);
    assert_eq!(parse_endpoint("a:b:80"), None);
    assert_eq!(parse_endpoint("::1:80"), None);
    assert_eq!(parse_endpoint("host:80:"), None);
}

#[test]
fn endpoint_round_trip() {
    for port in [0u16, 1, 80, 7337, 65535] {
        let text = endpoint("192.168.1.20", port);
        assert_eq!(parse_endpoint(&text), Some(("192.168.1.20".to_string(), port)));
    }
}
