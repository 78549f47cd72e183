use packet_sniffer_engine::addr::Ipv4Addr;
use packet_sniffer_engine::packet::{decode_packet, ipv4_header_len, L4Info};
use packet_sniffer_engine::render::{
    format_mac, hex_encode, icmp_type_name, l4_info_string, parse_tcp_flags, port_service, protocol_name,
};
use packet_sniffer_engine::report::{hex_dump_lines, json_line, packet_report_lines};
use packet_sniffer_engine::units::format_bytes_rust;

fn eth(ether_type: u16) -> Vec<u8> {
    let mut v = vec![0x00, 0x1a, 0x2b, 0x3c, 0x4d, 0x5e, 0xde, 0xad, 0xbe, 0xef, 0x00, 0x01];
    v.push((ether_type >> 8) as u8);
    v.push(ether_type as u8);
    v
}

fn ipv4(proto: u8, src: [u8; 4], dst: [u8; 4]) -> Vec<u8> {
    let mut v = vec![0x45, 0x00, 0x00, 0x28, 0x12, 0x34, 0x40, 0x00, 64, proto, 0, 0];
    v.extend_from_slice(&src);
    v.extend_from_slice(&dst);
    v
}

fn tcp(sport: u16, dport: u16, flags: u8) -> Vec<u8> {
    let mut v = vec![(sport >> 8) as u8, sport as u8, (dport >> 8) as u8, dport as u8];
    v.extend_from_slice(&[0, 0, 0, 1, 0, 0, 0, 0, 0x50, flags, 0xff, 0xff, 0, 0, 0, 0]);
    v
}

fn udp(sport: u16, dport: u16, len: u16) -> Vec<u8> {
    vec![(sport >> 8) as u8, sport as u8, (dport >> 8) as u8, dport as u8, (len >> 8) as u8, len as u8, 0, 0]
}

fn tcp_frame(flags: u8) -> Vec<u8> {
    let mut f = eth(0x0800);
    f.extend(ipv4(6, [10, 0, 0, 1], [142, 250, 80, 14]));
    f.extend(tcp(52143, 443, flags));
    f
}

#[test]
fn decode_tcp_frame() {
    let f = tcp_frame(0x12);
    let p = decode_packet(&f).unwrap();
    assert_eq!(p.len, 54);
    assert_eq!(p.dst_mac, [0x00, 0x1a, 0x2b, 0x3c, 0x4d, 0x5e]);
    assert_eq!(p.src_mac, [0xde, 0xad, 0xbe, 0xef, 0x00, 0x01]);
    assert_eq!(p.ether_type, 0x0800);
    assert_eq!(p.ip_start, 14);
    assert_eq!(p.src_ip, Some(Ipv4Addr::new(10, 0, 0, 1)));
    assert_eq!(p.dst_ip, Some(Ipv4Addr::new(142, 250, 80, 14)));
    assert_eq!(p.protocol, Some(6));
    assert_eq!(p.ttl, Some(64));
    assert_eq!(p.src_port, Some(52143));
    assert_eq!(p.dst_port, Some(443));
    assert_eq!(p.l4, L4Info::Tcp { flags: 0x12 });
}

#[test]
fn decode_vlan_udp_and_icmp() {
    let mut f = eth(0x8100);
    f.extend_from_slice(&[0x00, 0x64, 0x08, 0x00]);
    f.extend(ipv4(17, [192, 168, 1, 2], [8, 8, 8, 8]));
    f.extend(udp(5353, 53, 42));
    let p = decode_packet(&f).unwrap();
    assert_eq!(p.ether_type, 0x0800);
    assert_eq!(p.ip_start, 18);
    assert_eq!(p.src_port, Some(5353));
    assert_eq!(p.dst_port, Some(53));
    assert_eq!(p.l4, L4Info::Udp { len: 42 });

    let mut g = eth(0x0800);
    g.extend(ipv4(1, [1, 1, 1, 1], [2, 2, 2, 2]));
    g.extend_from_slice(&[8, 0, 0xab, 0xcd]);
    let q = decode_packet(&g).unwrap();
    assert_eq!(q.protocol, Some(1));
    assert_eq!(q.src_port, None);
    assert_eq!(q.l4, L4Info::Icmp { icmp_type: 8, code: 0 });
}

#[test]
fn decode_short_and_non_ip_frames() {
    assert!(decode_packet(&[0u8; 13]).is_none());
    let arp = eth(0x0806);
    let p = decode_packet(&arp).unwrap();
    assert_eq!(p.ether_type, 0x0806);
    assert_eq!(p.protocol, None);
    assert_eq!(p.src_ip, None);
    assert_eq!(p.l4, L4Info::Absent);
    // An IPv4 header cut short is not read.
    let mut cut = eth(0x0800);
    cut.extend_from_slice(&[0x45, 0, 0, 20, 0, 0]);
    assert_eq!(decode_packet(&cut).unwrap().protocol, None);
    // A TCP header shorter than 14 bytes gives no ports.
    let mut short_tcp = eth(0x0800);
    short_tcp.extend(ipv4(6, [1, 2, 3, 4], [5, 6, 7, 8]));
    short_tcp.extend_from_slice(&[0, 80, 0, 81]);
    let s = decode_packet(&short_tcp).unwrap();
    assert_eq!(s.protocol, Some(6));
    assert_eq!(s.src_port, None);
    assert_eq!(s.l4, L4Info::Absent);
    // A VLAN tag without room for the inner EtherType is not read through.
    let vlan_short = eth(0x8100);
    assert_eq!(decode_packet(&vlan_short).unwrap().ether_type, 0x8100);
}

#[test]
fn header_length_from_ihl() {
    assert_eq!(ipv4_header_len(0x45), 20);
    assert_eq!(ipv4_header_len(0x4f), 60);
    assert_eq!(ipv4_header_len(0x40), 0);
}

#[test]
fn names_of_protocols_ports_and_icmp_types() {
    assert_eq!(protocol_name(6), "TCP");
    assert_eq!(protocol_name(17), "UDP");
    assert_eq!(protocol_name(41), "IPv6-Encaps");
    assert_eq!(protocol_name(50), "OTHER");
    assert_eq!(port_service(443), "HTTPS");
    assert_eq!(port_service(21), "FTP");
    assert_eq!(port_service(68), "DHCP");
    assert_eq!(port_service(9999), "CUSTOM");
    assert_eq!(icmp_type_name(8), "Echo Request");
    assert_eq!(icmp_type_name(11), "Time Exceeded");
    assert_eq!(icmp_type_name(42), "ICMP Other");
}

#[test]
fn tcp_flag_text() {
    assert_eq!(parse_tcp_flags(0), "NONE");
    assert_eq!(parse_tcp_flags(0x12), "SYN|ACK");
    assert_eq!(parse_tcp_flags(0x3f), "FIN|SYN|RST|PSH|ACK|URG");
    assert_eq!(parse_tcp_flags(0x40), "NONE");
    assert_eq!(parse_tcp_flags(0x04), "RST");
}

#[test]
fn hex_texts() {
    assert_eq!(format_mac(&[0x00, 0x1a, 0x2b, 0x3c, 0x4d, 0x5e]), "00:1A:2B:3C:4D:5E");
    assert_eq!(format_mac(&[]), "");
    assert_eq!(hex_encode(&[1, 2, 255], 2), "01 02");
    assert_eq!(hex_encode(&[1, 2, 255], 10), "01 02 FF");
    assert_eq!(hex_encode(&[1, 2, 255], 0), "");
}

#[test]
fn l4_summaries() {
    assert_eq!(l4_info_string(L4Info::Tcp { flags: 0x12 }), "Flags: [SYN|ACK]");
    assert_eq!(l4_info_string(L4Info::Udp { len: 42 }), "Len: 42B");
    assert_eq!(l4_info_string(L4Info::Icmp { icmp_type: 8, code: 0 }), "Type 8 (Echo Request) Code 0");
    assert_eq!(l4_info_string(L4Info::Absent), "");
}

#[test]
fn byte_counts_for_people() {
    assert_eq!(format_bytes_rust(0), "0 B");
    assert_eq!(format_bytes_rust(1023), "1023 B");
    assert_eq!(format_bytes_rust(1024), "1.0 KB");
    assert_eq!(format_bytes_rust(1536), "1.5 KB");
    assert_eq!(format_bytes_rust(1331), "1.3 KB");
    assert_eq!(format_bytes_rust(1280), "1.2 KB");
    assert_eq!(format_bytes_rust(1048575), "1024.0 KB");
    assert_eq!(format_bytes_rust(1048576), "1.00 MB");
    assert_eq!(format_bytes_rust(1572864), "1.50 MB");
    assert_eq!(format_bytes_rust(1073741824), "1.00 GB");
    assert_eq!(format_bytes_rust(1610612736), "1.50 GB");
    assert_eq!(format_bytes_rust(u64::MAX), "17179869184.00 GB");
    for b in [
        1u64, 999, 1280, 2047, 5000, 123456, 1179648, 9999999, 123456789012, 1 << 40, (1 << 53) + 1,
        (1 << 54) + 2, (1 << 54) + 6, (1 << 60) + 12345, 5764607523034234879, u64::MAX - 1,
    ] {
        let expected = if b < 1024 {
            format!("{} B", b)
        } else if b < 1024 * 1024 {
            format!("{:.1} KB", b as f64 / 1024.0)
        } else if b < 1024 * 1024 * 1024 {
            format!("{:.2} MB", b as f64 / (1024.0 * 1024.0))
        } else {
            format!("{:.2} GB", b as f64 / (1024.0 * 1024.0 * 1024.0))
        };
        assert_eq!(format_bytes_rust(b), expected, "{}", b);
    }
}

#[test]
fn json_line_of_a_tcp_packet() {
    let f = tcp_frame(0x12);
    let p = decode_packet(&f).unwrap();
    let line = json_line(3, 7, &f, &p);
    assert_eq!(
        line,
        "{\"id\":3,\"captured\":7,\"len\":54,\"proto\":\"TCP\",\"src\":\"10.0.0.1\",\"dst\":\"142.250.80.14\",\"src_port\":52143,\"dst_port\":443,\"ttl\":64,\"l4_info\":\"Flags: [SYN|ACK]\",\"src_mac\":\"DE:AD:BE:EF:00:01\",\"dst_mac\":\"00:1A:2B:3C:4D:5E\",\"hex\":\"00 1A 2B 3C 4D 5E DE AD BE EF 00 01 08 00 45 00 00 28 12 34 40 00 40 06 00 00 0A 00 00 01 8E FA\"}"
    );
}

#[test]
fn json_line_of_an_arp_frame() {
    let f = eth(0x0806);
    let p = decode_packet(&f).unwrap();
    assert_eq!(
        json_line(1, 1, &f, &p),
        "{\"id\":1,\"captured\":1,\"len\":14,\"proto\":\"ARP\",\"src\":\"DE:AD:BE:EF:00:01\",\"dst\":\"00:1A:2B:3C:4D:5E\",\"src_port\":null,\"dst_port\":null,\"ttl\":null,\"l4_info\":\"\",\"src_mac\":\"DE:AD:BE:EF:00:01\",\"dst_mac\":\"00:1A:2B:3C:4D:5E\",\"hex\":\"00 1A 2B 3C 4D 5E DE AD BE EF 00 01 08 06\"}"
    );
}

#[test]
fn hex_dump_rows() {
    let data: Vec<u8> = (0x30u8..0x44).collect();
    let lines = hex_dump_lines(&data, 64);
    assert_eq!(lines.len(), 3);
    assert_eq!(lines[0], "  Raw Hex Dump (first 20 bytes):");
    assert_eq!(lines[1], "    0000:  30 31 32 33 34 35 36 37 38 39 3A 3B 3C 3D 3E 3F  |0123456789:;<=>?|");
    assert_eq!(lines[2], format!("    0010:  {:47}  |@ABC|", "40 41 42 43"));
    let small = hex_dump_lines(&[0x00, 0x20, 0x7f], 2);
    assert_eq!(small, vec!["  Raw Hex Dump (first 2 bytes):".to_string(), format!("    0000:  {:47}  |. |", "00 20")]);
    assert_eq!(hex_dump_lines(&[], 64), vec!["  Raw Hex Dump (first 0 bytes):".to_string()]);
}

#[test]
fn report_of_a_tcp_packet() {
    let f = tcp_frame(0x12);
    // TCP header lines need 20 header bytes: give the frame a full header.
    let lines = packet_report_lines(2, 5, &f);
    assert_eq!(lines[0], "");
    assert_eq!(lines[1], "==================================================");
    assert_eq!(lines[2], "  Matched Packet #2 (Captured Total: 5, Bytes: 54)");
    assert_eq!(lines[4], "  [Layer 2 - Ethernet Header]");
    assert_eq!(lines[5], "    Destination MAC : 00:1A:2B:3C:4D:5E");
    assert_eq!(lines[6], "    Source MAC      : DE:AD:BE:EF:00:01");
    assert_eq!(lines[7], "    EtherType       : 0x0800 -> IPv4 (0x0800)");
    assert_eq!(lines[8], "  [Layer 3 - IPv4 Header]");
    assert_eq!(lines[9], "    IP Version      : IPv4");
    assert_eq!(lines[10], "    Header Length   : 20 bytes (IHL: 5)");
    assert_eq!(lines[11], "    Total Length    : 40 bytes");
    assert_eq!(lines[12], "    TTL (Hop Limit) : 64");
    assert_eq!(lines[13], "    Protocol        : TCP (6)");
    assert_eq!(lines[14], "    Source IP       : 10.0.0.1");
    assert_eq!(lines[15], "    Destination IP  : 142.250.80.14");
    assert_eq!(lines[16], "  [Layer 4 - TCP Header]");
    assert_eq!(lines[17], "    Source Port     : 52143 (CUSTOM)");
    assert_eq!(lines[18], "    Destination Port: 443 (HTTPS)");
    assert_eq!(lines[19], "    Control Flags   : [ SYN|ACK ] (0x12)");
    assert_eq!(lines[20], "  Raw Hex Dump (first 54 bytes):");
    assert_eq!(lines.len(), 25);
}

#[test]
fn report_of_arp_and_icmp() {
    let f = eth(0x0806);
    let lines = packet_report_lines(1, 1, &f);
    assert_eq!(lines[7], "    EtherType       : 0x0806 -> ARP (0x0806)");
    assert_eq!(lines[8], "  Raw Hex Dump (first 14 bytes):");
    assert_eq!(lines.len(), 10);

    let mut g = eth(0x0800);
    g.extend(ipv4(1, [1, 1, 1, 1], [2, 2, 2, 2]));
    g.extend_from_slice(&[3, 1, 0, 0]);
    let l = packet_report_lines(1, 1, &g);
    assert_eq!(l[16], "  [Layer 4 - ICMP Header]");
    assert_eq!(l[17], "    Type            : 3 (Dst Unreachable)");
    assert_eq!(l[18], "    Code            : 1");
}
