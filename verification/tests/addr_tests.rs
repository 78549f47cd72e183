use packet_sniffer_engine::addr::Ipv4Addr;

#[test]
fn ipv4_parse_accepts_dotted_quads() {
    assert_eq!(Ipv4Addr::parse("192.168.1.10"), Some(Ipv4Addr::new(192, 168, 1, 10)));
    assert_eq!(Ipv4Addr::parse("0.0.0.0"), Some(Ipv4Addr::new(0, 0, 0, 0)));
    assert_eq!(Ipv4Addr::parse("255.255.255.255"), Some(Ipv4Addr::new(255, 255, 255, 255)));
}

#[test]
fn ipv4_parse_rejects_malformed() {
    for s in ["", "1.2.3", "1.2.3.4.5", "256.0.0.1", "00.1.2.3", "1.2.3.04", " 1.2.3.4", "1..2.3", "1.2.3.4.", "a.b.c.d", "1234.1.1.1", "+1.2.3.4"] {
        assert_eq!(Ipv4Addr::parse(s), None, "{}", s);
    }
}

#[test]
fn ipv4_text_and_bits() {
    let ip = Ipv4Addr::new(192, 168, 1, 10);
    assert_eq!(ip.to_string(), "192.168.1.10");
    assert_eq!(ip.to_bits(), 0xC0A8010A);
    assert_eq!(ip.octets(), [192, 168, 1, 10]);
    assert_eq!(Ipv4Addr::new(0, 0, 0, 0).to_string(), "0.0.0.0");
}
