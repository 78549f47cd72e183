//! One step of a capture: what becomes of each captured frame.
use vstd::prelude::*;
use std::time::Instant;
use crate::filter::FilterExpr;
use crate::flow::{records_packet, FlowTable};
use crate::packet::{decode_packet, decodes, PacketInfo};
use crate::report::{json_line, json_text, lines_view, packet_report_lines, packet_report_text};

verus! {

/// How many frames were captured, and how many of them the filter accepted.
pub struct CaptureCounts {
    pub captured: u64,
    pub matched: u64,
}

/// What one captured frame came to.
pub enum FrameOutcome {
    /// Too short to decode: only counted as captured.
    Undecodable,
    /// Decoded, and the filter rejects it.
    Rejected(PacketInfo),
    /// Accepted, counted as matched and recorded in its flow, with the lines
    /// to print for it.
    Shown(PacketInfo, Vec<String>),
    /// Accepted, but the count of matched frames or a counter of its flow is
    /// full: counting it would overflow.
    CountersFull(PacketInfo),
}

/// Whether the filter accepts a decoded packet.
pub open spec fn accepted(filter: FilterExpr, p: PacketInfo) -> bool {
    filter.accepts(p.len, p.src_ip, p.dst_ip, p.protocol, p.src_port, p.dst_port)
}

/// What is printed for a frame that is shown: its JSON line, or its report.
pub open spec fn shown_lines(json: bool, matched: u64, captured: u64, d: Seq<u8>, p: PacketInfo) -> Seq<
    Seq<char>,
> {
    if json {
        seq![json_text(matched, captured, d, p)]
    } else {
        packet_report_text(matched, captured, d)
    }
}

/// Takes one captured frame: counts it, decodes it and tests it against the
/// filter; an accepted frame is counted as matched and recorded in its flow,
/// and gives the lines to print (its JSON line, or its report).
pub fn process_frame(
    filter: &FilterExpr,
    flows: &mut FlowTable,
    counts: &mut CaptureCounts,
    data: &[u8],
    now: Instant,
    json: bool,
) -> (r: FrameOutcome)
    requires
        old(counts).captured < u64::MAX,
    ensures
        final(counts).captured == old(counts).captured + 1,
        match r {
            FrameOutcome::Undecodable => {
                &&& data@.len() < 14
                &&& final(counts).matched == old(counts).matched
                &&& final(flows).flows() == old(flows).flows()
            },
            FrameOutcome::Rejected(p) => {
                &&& data@.len() >= 14
                &&& decodes(data@, p)
                &&& !accepted(*filter, p)
                &&& final(counts).matched == old(counts).matched
                &&& final(flows).flows() == old(flows).flows()
            },
            FrameOutcome::CountersFull(p) => {
                &&& data@.len() >= 14
                &&& decodes(data@, p)
                &&& accepted(*filter, p)
                &&& (old(counts).matched == u64::MAX || !old(flows).has_room(p))
                &&& final(counts).matched == old(counts).matched
                &&& final(flows).flows() == old(flows).flows()
            },
            FrameOutcome::Shown(p, lines) => {
                &&& data@.len() >= 14
                &&& decodes(data@, p)
                &&& accepted(*filter, p)
                &&& old(counts).matched < u64::MAX
                &&& old(flows).has_room(p)
                &&& final(counts).matched == old(counts).matched + 1
                &&& records_packet(old(flows).flows(), final(flows).flows(), p, now)
                &&& lines_view(lines@) == shown_lines(
                    json,
                    final(counts).matched,
                    final(counts).captured,
                    data@,
                    p,
                )
            },
        },
{
    counts.captured = counts.captured + 1;
    let info = match decode_packet(data) {
        Some(info) => info,
        None => {
            return FrameOutcome::Undecodable;
        },
    };
    if !filter.matches(
        info.len,
        info.ether_type,
        info.src_ip,
        info.dst_ip,
        info.protocol,
        info.src_port,
        info.dst_port,
    ) {
        return FrameOutcome::Rejected(info);
    }
    if counts.matched == u64::MAX || !flows.can_record(&info) {
        return FrameOutcome::CountersFull(info);
    }
    counts.matched = counts.matched + 1;
    flows.record_packet(&info, now);
    let lines = if json {
        let mut v: Vec<String> = Vec::new();
        v.push(json_line(counts.matched, counts.captured, data, &info));
        assert(lines_view(v@) =~= seq![json_text(counts.matched, counts.captured, data@, info)]);
        v
    } else {
        packet_report_lines(counts.matched, counts.captured, data)
    };
    FrameOutcome::Shown(info, lines)
}

} // verus!
