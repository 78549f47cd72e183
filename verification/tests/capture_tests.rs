use packet_sniffer_engine::capture::{process_frame, CaptureCounts, FrameOutcome};
use packet_sniffer_engine::flow::{FlowKey, FlowTable};
use packet_sniffer_engine::addr::Ipv4Addr;
use packet_sniffer_engine::parser::parse_filter;
use packet_sniffer_engine::report::{json_line, packet_report_lines};
use std::time::Instant;

fn tcp_frame(dport: u16, flags: u8) -> Vec<u8> {
    let mut f = vec![0x00, 0x1a, 0x2b, 0x3c, 0x4d, 0x5e, 0xde, 0xad, 0xbe, 0xef, 0x00, 0x01, 0x08, 0x00];
    f.extend_from_slice(&[0x45, 0x00, 0x00, 0x28, 0x12, 0x34, 0x40, 0x00, 64, 6, 0, 0]);
    f.extend_from_slice(&[10, 0, 0, 1, 142, 250, 80, 14]);
    f.extend_from_slice(&[0xcb, 0xaf, (dport >> 8) as u8, dport as u8]);
    f.extend_from_slice(&[0, 0, 0, 1, 0, 0, 0, 0, 0x50, flags, 0xff, 0xff, 0, 0, 0, 0]);
    f
}

#[test]
fn frames_are_counted_filtered_recorded_and_shown() {
    let filter = parse_filter("tcp port 443").unwrap();
    let mut flows = FlowTable::new();
    let mut counts = CaptureCounts { captured: 0, matched: 0 };
    let now = Instant::now();

    // Too short to decode.
    let r = process_frame(&filter, &mut flows, &mut counts, &[0u8; 10], now, false);
    assert!(matches!(r, FrameOutcome::Undecodable));
    assert_eq!((counts.captured, counts.matched), (1, 0));

    // Rejected by the filter.
    let other = tcp_frame(80, 0x02);
    let r = process_frame(&filter, &mut flows, &mut counts, &other, now, false);
    assert!(matches!(r, FrameOutcome::Rejected(_)));
    assert_eq!((counts.captured, counts.matched), (2, 0));
    assert_eq!(flows.len(), 0);

    // Accepted: counted, recorded and reported.
    let f = tcp_frame(443, 0x02);
    match process_frame(&filter, &mut flows, &mut counts, &f, now, false) {
        FrameOutcome::Shown(p, lines) => {
            assert_eq!(p.dst_port, Some(443));
            assert_eq!(lines, packet_report_lines(1, 3, &f));
        }
        _ => panic!("frame not shown"),
    }
    assert_eq!((counts.captured, counts.matched), (3, 1));
    assert_eq!(flows.len(), 1);
    let (key, _) = FlowKey::canonical(Ipv4Addr::new(10, 0, 0, 1), 52143, Ipv4Addr::new(142, 250, 80, 14), 443, 6);
    assert_eq!(flows.get(&key).unwrap().tcp_state, "SYN_SENT");

    // In JSON mode, one line.
    match process_frame(&filter, &mut flows, &mut counts, &f, now, true) {
        FrameOutcome::Shown(p, lines) => {
            assert_eq!(lines, vec![json_line(2, 4, &f, &p)]);
            assert!(lines[0].starts_with("{\"id\":2,\"captured\":4,"));
        }
        _ => panic!("frame not shown"),
    }
    assert_eq!((counts.captured, counts.matched), (4, 2));
}

#[test]
fn full_match_counter_stops_the_frame() {
    let filter = parse_filter("").unwrap();
    let mut flows = FlowTable::new();
    let mut counts = CaptureCounts { captured: 5, matched: u64::MAX };
    let f = tcp_frame(443, 0x02);
    let r = process_frame(&filter, &mut flows, &mut counts, &f, Instant::now(), false);
    assert!(matches!(r, FrameOutcome::CountersFull(_)));
    assert_eq!(counts.captured, 6);
    assert_eq!(flows.len(), 0);
}
