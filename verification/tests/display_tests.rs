use packet_sniffer_engine::addr::Ipv4Addr;
use packet_sniffer_engine::filter::FilterExpr;
use packet_sniffer_engine::parser::parse_filter;

#[test]
fn filter_display_text() {
    assert_eq!(FilterExpr::Any.to_string(), "NONE (Capturing All Traffic)");
    assert_eq!(parse_filter("tcp and not port 80").unwrap().to_string(), "(proto == TCP AND NOT (port == 80))");
    assert_eq!(parse_filter("src 10.0.0.1 or dst 10.0.0.2").unwrap().to_string(), "(src_ip == 10.0.0.1 OR dst_ip == 10.0.0.2)");
    assert_eq!(parse_filter("size > 100").unwrap().to_string(), "size > 100B");
    assert_eq!(parse_filter("len <= 5").unwrap().to_string(), "size <= 5B");
    assert_eq!(parse_filter("host 1.2.3.4 sport 1 dport 2").unwrap().to_string(), "((host == 1.2.3.4 AND sport == 1) AND dport == 2)");
    assert_eq!(parse_filter("proto").is_err(), true);
    assert_eq!(parse_filter("ip 1.1.1.1").unwrap().clone(), parse_filter("1.1.1.1").unwrap());
    assert_eq!(parse_filter("ospf").unwrap_err(), "Unknown filter token 'ospf'");
}

#[test]
fn filter_matching_rules() {
    let a = Some(Ipv4Addr::new(10, 0, 0, 1));
    let b = Some(Ipv4Addr::new(10, 0, 0, 2));
    let f = |s: &str| parse_filter(s).unwrap();
    assert!(f("").matches(0, 0, None, None, None, None, None));
    assert!(f("host 10.0.0.2").matches(60, 0x0800, a, b, Some(6), None, None));
    assert!(!f("src 10.0.0.2").matches(60, 0x0800, a, b, Some(6), None, None));
    assert!(f("port 53").matches(60, 0x0800, a, b, Some(17), Some(53), Some(1000)));
    assert!(f("port 53").matches(60, 0x0800, a, b, Some(17), Some(1000), Some(53)));
    assert!(!f("sport 53").matches(60, 0x0800, a, b, Some(17), Some(1000), Some(53)));
    assert!(!f("tcp").matches(60, 0x0806, None, None, None, None, None));
    assert!(f("not tcp").matches(60, 0x0806, None, None, None, None, None));
    assert!(f("size 60").matches(60, 0, None, None, None, None, None));
    assert!(f("size >59").matches(60, 0, None, None, None, None, None));
    assert!(!f("size >60").matches(60, 0, None, None, None, None, None));
    assert!(f("size >=60").matches(60, 0, None, None, None, None, None));
    assert!(f("size <61").matches(60, 0, None, None, None, None, None));
    assert!(!f("size <=59").matches(60, 0, None, None, None, None, None));
    assert!(f("tcp or udp").matches(60, 0, None, None, Some(17), None, None));
    // The EtherType takes no part.
    assert_eq!(
        f("tcp").matches(60, 0x0800, a, b, Some(6), None, None),
        f("tcp").matches(60, 0x86DD, a, b, Some(6), None, None)
    );
}
