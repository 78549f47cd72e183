use packet_sniffer_engine::addr::Ipv4Addr;
use packet_sniffer_engine::flow::{FlowKey, FlowStats, FlowTable};
use packet_sniffer_engine::packet::{L4Info, PacketInfo};
use packet_sniffer_engine::report::{flow_label, packets_label, table_row, volume_label};
use std::time::Instant;

fn pkt(src: Ipv4Addr, sport: u16, dst: Ipv4Addr, dport: u16, proto: u8, len: usize, l4: L4Info) -> PacketInfo {
    PacketInfo {
        len,
        dst_mac: [0; 6],
        src_mac: [0; 6],
        ether_type: 0x0800,
        ip_start: 14,
        src_ip: Some(src),
        dst_ip: Some(dst),
        protocol: Some(proto),
        ttl: Some(64),
        src_port: Some(sport),
        dst_port: Some(dport),
        l4,
    }
}

#[test]
fn canonical_orders_endpoints() {
    let lo = Ipv4Addr::new(10, 0, 0, 1);
    let hi = Ipv4Addr::new(10, 0, 0, 2);
    let (k, fwd) = FlowKey::canonical(hi, 80, lo, 5000, 6);
    assert!(!fwd);
    assert_eq!((k.ip_a, k.port_a, k.ip_b, k.port_b, k.protocol), (lo, 5000, hi, 80, 6));
    let (k2, fwd2) = FlowKey::canonical(lo, 9, lo, 8, 17);
    assert!(!fwd2);
    assert_eq!((k2.port_a, k2.port_b), (8, 9));
    // Identical endpoints: both directions count as forward.
    let (k3, f3) = FlowKey::canonical(lo, 7, lo, 7, 6);
    let (k4, f4) = FlowKey::canonical(lo, 7, lo, 7, 6);
    assert_eq!(k3, k4);
    assert!(f3 && f4);
}

#[test]
fn tcp_conversation_states() {
    let a = Ipv4Addr::new(192, 168, 1, 5);
    let b = Ipv4Addr::new(142, 250, 80, 14);
    let now = Instant::now();
    let mut t = FlowTable::new();
    assert_eq!(t.len(), 0);
    t.record_packet(&pkt(a, 52143, b, 443, 6, 60, L4Info::Tcp { flags: 0x02 }), now);
    let (key, fwd) = FlowKey::canonical(a, 52143, b, 443, 6);
    assert!(!fwd);
    assert_eq!(t.get(&key).unwrap().tcp_state, "SYN_SENT");
    t.record_packet(&pkt(b, 443, a, 52143, 6, 70, L4Info::Tcp { flags: 0x12 }), now);
    assert_eq!(t.get(&key).unwrap().tcp_state, "ESTABLISHED");
    t.record_packet(&pkt(a, 52143, b, 443, 6, 54, L4Info::Tcp { flags: 0x11 }), now);
    assert_eq!(t.get(&key).unwrap().tcp_state, "FIN_WAIT");
    t.record_packet(&pkt(b, 443, a, 52143, 6, 54, L4Info::Tcp { flags: 0x14 }), now);
    let st = t.get(&key).unwrap();
    assert_eq!(st.tcp_state, "RESET");
    assert_eq!(t.len(), 1);
    // a -> b is the reverse direction of the key (b orders before a).
    assert_eq!((st.pkts_fwd, st.pkts_rev), (2, 2));
    assert_eq!((st.bytes_fwd, st.bytes_rev), (124, 114));
}

#[test]
fn ack_after_fin_keeps_state_and_udp_is_active() {
    let a = Ipv4Addr::new(1, 1, 1, 1);
    let b = Ipv4Addr::new(2, 2, 2, 2);
    let now = Instant::now();
    let mut t = FlowTable::new();
    t.record_packet(&pkt(a, 1000, b, 80, 6, 60, L4Info::Tcp { flags: 0x01 }), now);
    t.record_packet(&pkt(a, 1000, b, 80, 6, 60, L4Info::Tcp { flags: 0x10 }), now);
    let k = FlowKey::canonical(a, 1000, b, 80, 6).0;
    assert_eq!(t.get(&k).unwrap().tcp_state, "FIN_WAIT");
    t.record_packet(&pkt(a, 53, b, 53, 17, 80, L4Info::Udp { len: 60 }), now);
    let u = FlowKey::canonical(a, 53, b, 53, 17).0;
    let su = t.get(&u).unwrap();
    assert_eq!(su.tcp_state, "ACTIVE");
    assert_eq!((su.pkts_fwd, su.bytes_fwd), (1, 80));
    assert_eq!(t.len(), 2);
    assert_eq!(t.entries().len(), 2);
}

#[test]
fn packets_without_ports_are_not_counted() {
    let a = Ipv4Addr::new(1, 1, 1, 1);
    let mut p = pkt(a, 0, a, 0, 1, 98, L4Info::Icmp { icmp_type: 8, code: 0 });
    p.src_port = None;
    p.dst_port = None;
    let mut t = FlowTable::new();
    assert!(t.can_record(&p));
    t.record_packet(&p, Instant::now());
    assert_eq!(t.len(), 0);
}

#[test]
fn counters_that_would_overflow_are_refused() {
    let a = Ipv4Addr::new(1, 1, 1, 1);
    let b = Ipv4Addr::new(2, 2, 2, 2);
    let mut t = FlowTable::new();
    let p = pkt(a, 1, b, 2, 17, 10, L4Info::Udp { len: 10 });
    assert!(t.can_record(&p));
    t.record_packet(&p, Instant::now());
    assert!(t.can_record(&p));
    let mut big = pkt(a, 1, b, 2, 17, usize::MAX, L4Info::Udp { len: 10 });
    big.len = usize::MAX;
    assert!(!t.can_record(&big));
}

#[test]
fn flow_table_rows() {
    let a = Ipv4Addr::new(192, 168, 1, 5);
    let b = Ipv4Addr::new(142, 250, 80, 14);
    let (key, _) = FlowKey::canonical(a, 52143, b, 443, 6);
    assert_eq!(flow_label(&key), "142.250.80.14:443 -> 192.168.1.5:52143 (HTTPS)");
    let (k2, _) = FlowKey::canonical(a, 40000, b, 40001, 17);
    assert_eq!(flow_label(&k2), "142.250.80.14:40001 -> 192.168.1.5:40000 (UDP)");
    let (k3, _) = FlowKey::canonical(a, 22, b, 9000, 6);
    assert_eq!(flow_label(&k3), "142.250.80.14:9000 -> 192.168.1.5:22 (SSH)");
    let now = Instant::now();
    let mut st = FlowStats::new(6, now);
    assert_eq!(st.tcp_state, "SYN_SENT");
    st.record(true, 1500, 6, L4Info::Tcp { flags: 0x10 }, now);
    st.record(false, 600, 6, L4Info::Tcp { flags: 0x10 }, now);
    assert_eq!(st.tcp_state, "ESTABLISHED");
    assert!(st.totals_fit());
    assert_eq!(packets_label(&st), "2 (1 / 1)");
    assert_eq!(volume_label(&st), "2.1 KB (1.5 KB / 600 B)");
    assert_eq!(
        table_row("a", "b", "c", "d", "e"),
        format!("{:<48} {:<16} {:<24} {:<10} {:<12}", "a", "b", "c", "d", "e")
    );
    let long = "x".repeat(50);
    assert_eq!(
        table_row(&long, "PKTS (Tx/Rx)", "BYTES (Tx/Rx)", "DURATION", "STATE"),
        format!("{:<48} {:<16} {:<24} {:<10} {:<12}", long, "PKTS (Tx/Rx)", "BYTES (Tx/Rx)", "DURATION", "STATE")
    );
}

#[test]
fn table_keys_are_canonical() {
    let now = Instant::now();
    let mut t = FlowTable::new();
    let hosts = [Ipv4Addr::new(9, 9, 9, 9), Ipv4Addr::new(1, 2, 3, 4), Ipv4Addr::new(200, 0, 0, 1)];
    for (i, a) in hosts.iter().enumerate() {
        for b in hosts.iter() {
            t.record_packet(&pkt(*a, 1000 + i as u16, *b, 80, 6, 60, L4Info::Tcp { flags: 0x10 }), now);
        }
    }
    let entries = t.entries();
    assert_eq!(entries.len(), t.len());
    for (k, st) in entries {
        assert!((k.ip_a.to_bits(), k.port_a) <= (k.ip_b.to_bits(), k.port_b));
        assert_eq!(t.get(&k).unwrap().pkts_fwd, st.pkts_fwd);
    }
    let st = FlowStats::new(17, now);
    let c = st.clone();
    assert_eq!((c.pkts_fwd, c.tcp_state.as_str()), (0, "ACTIVE"));
}
