use packet_sniffer_engine::addr::Ipv4Addr;
use packet_sniffer_engine::filter::{FilterCondition, FilterExpr, SizeOp};
use packet_sniffer_engine::flow::FlowKey;
use packet_sniffer_engine::parser::parse_filter;

#[test]
fn test_parse_filter_simple() {
    assert_eq!(parse_filter("tcp").unwrap(), FilterExpr::Match(FilterCondition::Protocol(6)));
    assert_eq!(parse_filter("udp").unwrap(), FilterExpr::Match(FilterCondition::Protocol(17)));
    assert_eq!(parse_filter("icmp").unwrap(), FilterExpr::Match(FilterCondition::Protocol(1)));
}

#[test]
fn test_parse_filter_ip_and_ports() {
    let ip = Ipv4Addr::new(192, 168, 1, 10);
    assert_eq!(parse_filter("src 192.168.1.10").unwrap(), FilterExpr::Match(FilterCondition::SrcIp(ip)));
    assert_eq!(parse_filter("dst 192.168.1.10").unwrap(), FilterExpr::Match(FilterCondition::DstIp(ip)));
    assert_eq!(parse_filter("port 443").unwrap(), FilterExpr::Match(FilterCondition::Port(443)));
    assert_eq!(parse_filter("sport 80").unwrap(), FilterExpr::Match(FilterCondition::SrcPort(80)));
    assert_eq!(parse_filter("dport 53").unwrap(), FilterExpr::Match(FilterCondition::DstPort(53)));
}

#[test]
fn test_parse_filter_size() {
    assert_eq!(
        parse_filter("size > 100").unwrap(),
        FilterExpr::Match(FilterCondition::PacketSize(SizeOp::GreaterThan, 100))
    );
    assert_eq!(
        parse_filter("size <= 500").unwrap(),
        FilterExpr::Match(FilterCondition::PacketSize(SizeOp::LessThanOrEqual, 500))
    );
}

#[test]
fn test_parse_filter_combinations() {
    let expr = parse_filter("tcp and port 443").unwrap();
    assert_eq!(
        expr,
        FilterExpr::And(
            Box::new(FilterExpr::Match(FilterCondition::Protocol(6))),
            Box::new(FilterExpr::Match(FilterCondition::Port(443)))
        )
    );

    let expr_not = parse_filter("not icmp").unwrap();
    assert_eq!(
        expr_not,
        FilterExpr::Not(Box::new(FilterExpr::Match(FilterCondition::Protocol(1))))
    );
}

#[test]
fn test_filter_evaluation() {
    let expr = parse_filter("tcp and port 443").unwrap();
    let src_ip = Some(Ipv4Addr::new(10, 0, 2, 15));
    let dst_ip = Some(Ipv4Addr::new(8, 8, 8, 8));

    // Matches HTTPS TCP packet
    assert!(expr.matches(100, 0x0800, src_ip, dst_ip, Some(6), Some(50000), Some(443)));
    // Fails UDP packet on port 443
    assert!(!expr.matches(100, 0x0800, src_ip, dst_ip, Some(17), Some(50000), Some(443)));
    // Fails TCP packet on port 80
    assert!(!expr.matches(100, 0x0800, src_ip, dst_ip, Some(6), Some(50000), Some(80)));
}

#[test]
fn test_flow_canonical_key() {
    let ip1 = Ipv4Addr::new(192, 168, 1, 5);
    let ip2 = Ipv4Addr::new(142, 250, 80, 14);
    let (key1, is_fwd1) = FlowKey::canonical(ip1, 52143, ip2, 443, 6);
    let (key2, is_fwd2) = FlowKey::canonical(ip2, 443, ip1, 52143, 6);

    assert_eq!(key1, key2);
    assert_ne!(is_fwd1, is_fwd2);
}
