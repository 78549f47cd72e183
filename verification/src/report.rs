//! What the tool prints: the JSON line and the text report of a packet, the
//! hex dump, and the rows of the flow table.
use vstd::prelude::*;
use crate::addr::{ipv4_text, Ipv4Addr};
use crate::flow::{stats_step, FlowKey, FlowStats};
use std::time::Instant;
use crate::units::{bytes_text, format_bytes_rust};
use crate::packet::{
    be16, be16_exec, decode_packet, decodes, ether_type_of, has_ipv4, ip_start_of, ipv4_at,
    ipv4_header_len, l4_start_of, L4Info, PacketInfo,
};
use crate::render::{
    hex_join, hex_join_exec, icmp_type_name, icmp_type_text, l4_info_string, l4_info_text,
    parse_tcp_flags, port_service, port_service_text, protocol_name, protocol_name_text,
    tcp_flags_text,
};
use crate::text::{
    dec_u16, dec_u8, decimal, hex2, hex_digit, push_char, push_chars, push_decimal, push_hex2,
    push_str, widen_u16, widen_u8,
};

verus! {

broadcast use vstd::string::group_string_axioms;

/// `"` written as `\"`, everything else kept.
pub open spec fn escape_quotes(s: Seq<char>) -> Seq<char>
    decreases s.len(),
{
    if s.len() == 0 {
        Seq::empty()
    } else {
        escape_quotes(s.drop_last()) + if s.last() == '"' {
            seq!['\\', '"']
        } else {
            seq![s.last()]
        }
    }
}

fn push_escaped(s: &mut String, t: &str)
    ensures
        final(s)@ == old(s)@ + escape_quotes(t@),
{
    let ghost s0 = s@;
    let v = crate::text::str_chars(t);
    let mut i: usize = 0;
    while i < v.len()
        invariant
            i <= v.len(),
            v@ == t@,
            s@ == s0 + escape_quotes(v@.take(i as int)),
        decreases v.len() - i,
    {
        let ghost prev = v@.take(i as int);
        let c = v[i];
        if c == '"' {
            push_char(s, '\\');
            push_char(s, '"');
        } else {
            push_char(s, c);
        }
        i += 1;
        assert(v@.take(i as int).drop_last() =~= prev);
        assert(s@ =~= s0 + escape_quotes(v@.take(i as int)));
    }
    assert(v@.take(v.len() as int) =~= v@);
}

/// The protocol label of a packet: the IP protocol name, or for frames
/// without IPv4 `ARP`, `IPv6` or `ETH` by EtherType.
pub open spec fn proto_label(p: PacketInfo) -> Seq<char> {
    match p.protocol {
        Some(pr) => protocol_name_text(pr),
        None => if p.ether_type == 0x0806 {
            "ARP"@
        } else if p.ether_type == 0x86DD {
            "IPv6"@
        } else {
            "ETH"@
        },
    }
}

fn proto_label_exec(p: &PacketInfo) -> (r: &'static str)
    ensures
        r@ == proto_label(*p),
{
    match p.protocol {
        Some(pr) => protocol_name(pr),
        None => match p.ether_type {
            0x0806 => "ARP",
            0x86DD => "IPv6",
            _ => "ETH",
        },
    }
}

/// An endpoint: its IPv4 address, or else its MAC address.
pub open spec fn endpoint_text(ip: Option<Ipv4Addr>, mac: Seq<u8>) -> Seq<char> {
    match ip {
        Some(a) => ipv4_text(a),
        None => hex_join(mac, ':'),
    }
}

fn push_endpoint(s: &mut String, ip: Option<Ipv4Addr>, mac: &[u8])
    ensures
        final(s)@ == old(s)@ + endpoint_text(ip, mac@),
{
    match ip {
        Some(a) => a.push_text(s),
        None => {
            let m = hex_join_exec(mac, ':');
            push_str(s, m.as_str());
        },
    }
}

/// A number, or `null`.
pub open spec fn opt_u16_text(o: Option<u16>) -> Seq<char> {
    match o {
        Some(n) => dec_u16(n),
        None => "null"@,
    }
}

/// A number, or `null`.
pub open spec fn opt_u8_text(o: Option<u8>) -> Seq<char> {
    match o {
        Some(n) => dec_u8(n),
        None => "null"@,
    }
}

fn push_opt_u16(s: &mut String, o: Option<u16>)
    ensures
        final(s)@ == old(s)@ + opt_u16_text(o),
{
    match o {
        Some(n) => push_decimal(s, widen_u16(n)),
        None => push_str(s, "null"),
    }
}

fn push_opt_u8(s: &mut String, o: Option<u8>)
    ensures
        final(s)@ == old(s)@ + opt_u8_text(o),
{
    match o {
        Some(n) => push_decimal(s, widen_u8(n)),
        None => push_str(s, "null"),
    }
}

/// The first `n` bytes of `d` (all of them if there are fewer).
pub open spec fn prefix(d: Seq<u8>, n: int) -> Seq<u8> {
    d.take(if d.len() < n { d.len() as int } else { n })
}

/// The JSON object that describes one matched packet.
pub open spec fn json_text(matched: u64, captured: u64, data: Seq<u8>, p: PacketInfo) -> Seq<char> {
    "{\"id\":"@ + decimal(matched as nat) + ",\"captured\":"@ + decimal(captured as nat)
        + ",\"len\":"@ + decimal(p.len as nat) + ",\"proto\":\""@ + proto_label(p)
        + "\",\"src\":\""@ + endpoint_text(p.src_ip, p.src_mac@) + "\",\"dst\":\""@
        + endpoint_text(p.dst_ip, p.dst_mac@) + "\",\"src_port\":"@ + opt_u16_text(p.src_port)
        + ",\"dst_port\":"@ + opt_u16_text(p.dst_port) + ",\"ttl\":"@ + opt_u8_text(p.ttl)
        + ",\"l4_info\":\""@ + escape_quotes(l4_info_text(p.l4)) + "\",\"src_mac\":\""@
        + hex_join(p.src_mac@, ':') + "\",\"dst_mac\":\""@ + hex_join(p.dst_mac@, ':')
        + "\",\"hex\":\""@ + hex_join(prefix(data, 32), ' ') + "\"}"@
}

/// One line of JSON for a matched packet: its sequence numbers among matched
/// and captured packets, its header fields and its first 32 bytes in hex.
pub fn json_line(matched: u64, captured: u64, data: &[u8], p: &PacketInfo) -> (r: String)
    ensures
        r@ == json_text(matched, captured, data@, *p),
{
    let mut s = String::new();
    push_str(&mut s, "{\"id\":");
    push_decimal(&mut s, matched);
    push_str(&mut s, ",\"captured\":");
    push_decimal(&mut s, captured);
    push_str(&mut s, ",\"len\":");
    push_decimal(&mut s, p.len as u64);
    push_str(&mut s, ",\"proto\":\"");
    push_str(&mut s, proto_label_exec(p));
    push_str(&mut s, "\",\"src\":\"");
    push_endpoint(&mut s, p.src_ip, &p.src_mac);
    push_str(&mut s, "\",\"dst\":\"");
    push_endpoint(&mut s, p.dst_ip, &p.dst_mac);
    push_str(&mut s, "\",\"src_port\":");
    push_opt_u16(&mut s, p.src_port);
    push_str(&mut s, ",\"dst_port\":");
    push_opt_u16(&mut s, p.dst_port);
    push_str(&mut s, ",\"ttl\":");
    push_opt_u8(&mut s, p.ttl);
    push_str(&mut s, ",\"l4_info\":\"");
    let l4 = l4_info_string(p.l4);
    push_escaped(&mut s, l4.as_str());
    push_str(&mut s, "\",\"src_mac\":\"");
    let sm = hex_join_exec(&p.src_mac, ':');
    push_str(&mut s, sm.as_str());
    push_str(&mut s, "\",\"dst_mac\":\"");
    let dm = hex_join_exec(&p.dst_mac, ':');
    push_str(&mut s, dm.as_str());
    push_str(&mut s, "\",\"hex\":\"");
    let h = crate::render::hex_encode(data, 32);
    push_str(&mut s, h.as_str());
    push_str(&mut s, "\"}");
    s
}


/// The views of a sequence of strings.
pub open spec fn lines_view(v: Seq<String>) -> Seq<Seq<char>> {
    v.map_values(|s: String| s@)
}

/// `n` in uppercase hexadecimal, without leading zeros.
pub open spec fn hex_upper(n: nat) -> Seq<char>
    decreases n,
{
    if n < 16 {
        seq![hex_digit(n as int)]
    } else {
        hex_upper(n / 16).push(hex_digit(n as int % 16))
    }
}

/// `s` with zeros in front up to `w` characters.
pub open spec fn pad_zero(s: Seq<char>, w: int) -> Seq<char> {
    if s.len() < w {
        Seq::new((w - s.len()) as nat, |i: int| '0') + s
    } else {
        s
    }
}

/// `s` with spaces behind up to `w` characters.
pub open spec fn pad_right(s: Seq<char>, w: int) -> Seq<char> {
    if s.len() < w {
        s + Seq::new((w - s.len()) as nat, |i: int| ' ')
    } else {
        s
    }
}

/// How a byte shows in the text column of a dump: printable ASCII and space
/// as themselves, anything else as `.`.
pub open spec fn shown_char(b: u8) -> char {
    if (0x21 <= b <= 0x7e) || b == 0x20 {
        b as char
    } else {
        '.'
    }
}

/// The text column of a dump.
pub open spec fn shown_text(bytes: Seq<u8>) -> Seq<char> {
    bytes.map_values(|b: u8| shown_char(b))
}

/// The bytes of row `row` of a dump (16 per row).
pub open spec fn dump_chunk(d: Seq<u8>, row: int) -> Seq<u8> {
    d.subrange(16 * row, if 16 * row + 16 < d.len() { 16 * row + 16 } else { d.len() as int })
}

/// Row `row` of a dump: offset, hex bytes padded to 47 columns, text column.
pub open spec fn dump_line(d: Seq<u8>, row: int) -> Seq<char> {
    "    "@ + pad_zero(hex_upper((16 * row) as nat), 4) + ":  "@ + pad_right(
        hex_join(dump_chunk(d, row), ' '),
        47,
    ) + "  |"@ + shown_text(dump_chunk(d, row)) + "|"@
}

/// A hex dump of the first `max_bytes` bytes: a heading, then 16 bytes a row.
pub open spec fn hex_dump_text(data: Seq<u8>, max_bytes: int) -> Seq<Seq<char>> {
    let d = prefix(data, max_bytes);
    seq!["  Raw Hex Dump (first "@ + decimal(d.len()) + " bytes):"@] + Seq::new(
        ((d.len() + 15) / 16) as nat,
        |row: int| dump_line(d, row),
    )
}

fn hex_upper_chars(n: usize) -> (r: Vec<char>)
    ensures
        r@ == hex_upper(n as nat),
{
    let mut out: Vec<char> = Vec::new();
    let mut m = n;
    while m >= 16
        invariant
            hex_upper(n as nat) == hex_upper(m as nat) + out@,
        decreases m,
    {
        let d = (m % 16) as u8;
        out.insert(0, crate::text::hex_digit_char(d));
        m = m / 16;
        assert(hex_upper((m * 16 + d) as nat) == hex_upper(m as nat).push(hex_digit(d as int)));
    }
    out.insert(0, crate::text::hex_digit_char(m as u8));
    assert(hex_upper(m as nat) =~= seq![hex_digit(m as int)]);
    out
}

fn push_pad_zero(s: &mut String, t: &[char], w: usize)
    ensures
        final(s)@ == old(s)@ + pad_zero(t@, w as int),
{
    let ghost s0 = s@;
    let mut k: usize = t.len();
    while k < w
        invariant
            t.len() <= k <= w || w <= t.len() == k,
            s@ == s0 + Seq::new((k - t.len()) as nat, |i: int| '0'),
        decreases w - k,
    {
        push_char(s, '0');
        k += 1;
        assert(s@ =~= s0 + Seq::new((k - t.len()) as nat, |i: int| '0'));
    }
    push_chars(s, t);
    assert(s@ =~= s0 + pad_zero(t@, w as int));
}

fn push_pad_right(s: &mut String, t: &str, w: usize)
    ensures
        final(s)@ == old(s)@ + pad_right(t@, w as int),
{
    let ghost s0 = s@;
    push_str(s, t);
    let n = t.unicode_len();
    let mut k: usize = n;
    while k < w
        invariant
            n == t@.len(),
            n <= k <= w || w <= n == k,
            s@ == s0 + t@ + Seq::new((k - n) as nat, |i: int| ' '),
        decreases w - k,
    {
        push_char(s, ' ');
        k += 1;
        assert(s@ =~= s0 + t@ + Seq::new((k - n) as nat, |i: int| ' '));
    }
    assert(s@ =~= s0 + pad_right(t@, w as int));
}

fn shown_char_exec(b: u8) -> (c: char)
    ensures
        c == shown_char(b),
{
    if (0x21 <= b && b <= 0x7e) || b == 0x20 {
        b as char
    } else {
        '.'
    }
}

/// The hex dump that the tool prints for a packet, as lines.
pub fn hex_dump_lines(data: &[u8], max_bytes: usize) -> (r: Vec<String>)
    ensures
        lines_view(r@) == hex_dump_text(data@, max_bytes as int),
{
    let len = if data.len() < max_bytes {
        data.len()
    } else {
        max_bytes
    };
    let ghost d = prefix(data@, max_bytes as int);
    let mut lines: Vec<String> = Vec::new();
    let mut head = String::from_str("  Raw Hex Dump (first ");
    push_decimal(&mut head, len as u64);
    push_str(&mut head, " bytes):");
    lines.push(head);
    let rows = len / 16 + if len % 16 != 0 {
        1
    } else {
        0
    };
    let mut row: usize = 0;
    while row < rows
        invariant
            len <= data.len(),
            d == data@.take(len as int),
            rows == (d.len() + 15) / 16,
            row <= rows,
            lines@.len() == row + 1,
            lines_view(lines@)[0] == "  Raw Hex Dump (first "@ + decimal(d.len()) + " bytes):"@,
            forall|j: int| 0 <= j < row ==> (#[trigger] lines@[j + 1])@ == dump_line(d, j),
        decreases rows - row,
    {
        let start = row * 16;
        let end = if len - start > 16 {
            start + 16
        } else {
            len
        };
        let ghost chunk = dump_chunk(d, row as int);
        assert(chunk =~= data@.subrange(start as int, end as int));
        let mut line = String::from_str("    ");
        let off = hex_upper_chars(start);
        push_pad_zero(&mut line, off.as_slice(), 4);
        push_str(&mut line, ":  ");
        let hex = hex_join_exec(&data[start..end], ' ');
        push_pad_right(&mut line, hex.as_str(), 47);
        push_str(&mut line, "  |");
        let ghost before = line@;
        let mut k = start;
        while k < end
            invariant
                start <= k <= end <= data.len(),
                line@ == before + shown_text(data@.subrange(start as int, k as int)),
            decreases end - k,
        {
            push_char(&mut line, shown_char_exec(data[k]));
            k += 1;
            assert(line@ =~= before + shown_text(data@.subrange(start as int, k as int)));
        }
        push_str(&mut line, "|");
        assert(line@ == dump_line(d, row as int));
        lines.push(line);
        row += 1;
    }
    assert forall|j: int| 0 <= j < lines@.len() implies lines_view(lines@)[j] == hex_dump_text(
        data@,
        max_bytes as int,
    )[j] by {
        if j > 0 {
            assert(lines@[(j - 1) + 1]@ == dump_line(d, j - 1));
        }
    }
    assert(lines_view(lines@) =~= hex_dump_text(data@, max_bytes as int));
    lines
}


/// What an EtherType is called in the report.
pub open spec fn ether_desc(et: u16) -> Seq<char> {
    if et == 0x0800 {
        "IPv4 (0x0800)"@
    } else if et == 0x86DD {
        "IPv6 (0x86DD)"@
    } else if et == 0x0806 {
        "ARP (0x0806)"@
    } else if et == 0x8100 {
        "VLAN (0x8100)"@
    } else {
        "Other Protocol"@
    }
}

fn ether_desc_exec(et: u16) -> (r: &'static str)
    ensures
        r@ == ether_desc(et),
{
    match et {
        0x0800 => "IPv4 (0x0800)",
        0x86DD => "IPv6 (0x86DD)",
        0x0806 => "ARP (0x0806)",
        0x8100 => "VLAN (0x8100)",
        _ => "Other Protocol",
    }
}

/// A 16-bit value as four uppercase hex digits.
pub open spec fn hex4(n: u16) -> Seq<char> {
    hex2((n / 256) as u8) + hex2((n % 256) as u8)
}

/// The rule above and below a packet heading.
pub open spec fn banner() -> Seq<char> {
    "=================================================="@
}

/// The Ethernet part of a packet report.
pub open spec fn ethernet_lines(matched: u64, captured: u64, d: Seq<u8>) -> Seq<Seq<char>> {
    let et = ether_type_of(d);
    seq![
        Seq::empty(),
        banner(),
        "  Matched Packet #"@ + decimal(matched as nat) + " (Captured Total: "@ + decimal(
            captured as nat,
        ) + ", Bytes: "@ + decimal(d.len()) + ")"@,
        banner(),
        "  [Layer 2 - Ethernet Header]"@,
        "    Destination MAC : "@ + hex_join(d.subrange(0, 6), ':'),
        "    Source MAC      : "@ + hex_join(d.subrange(6, 12), ':'),
        "    EtherType       : 0x"@ + hex4(et) + " -> "@ + ether_desc(et),
    ]
}

/// The IPv4 part of a packet report.
pub open spec fn ipv4_lines(d: Seq<u8>) -> Seq<Seq<char>> {
    let ip = ip_start_of(d);
    let b0 = d[ip];
    let proto = d[ip + 9];
    seq![
        "  [Layer 3 - IPv4 Header]"@,
        "    IP Version      : IPv"@ + decimal((b0 / 16) as nat),
        "    Header Length   : "@ + decimal(((b0 % 16) * 4) as nat) + " bytes (IHL: "@ + decimal(
            (b0 % 16) as nat,
        ) + ")"@,
        "    Total Length    : "@ + decimal(be16(d[ip + 2], d[ip + 3]) as nat) + " bytes"@,
        "    TTL (Hop Limit) : "@ + decimal(d[ip + 8] as nat),
        "    Protocol        : "@ + protocol_name_text(proto) + " ("@ + decimal(proto as nat) + ")"@,
        "    Source IP       : "@ + ipv4_text(ipv4_at(d, ip + 12)),
        "    Destination IP  : "@ + ipv4_text(ipv4_at(d, ip + 16)),
    ]
}

/// A port line of the report: the port and its service.
pub open spec fn port_line(label: Seq<char>, port: u16) -> Seq<char> {
    label + dec_u16(port) + " ("@ + port_service_text(port) + ")"@
}

/// The lines of an ICMP header.
pub open spec fn control_message_lines(t: u8, code: u8) -> Seq<Seq<char>> {
    seq![
        "  [Layer 4 - ICMP Header]"@,
        "    Type            : "@ + dec_u8(t) + " ("@ + icmp_type_text(t) + ")"@,
        "    Code            : "@ + dec_u8(code),
    ]
}

/// The transport part of a packet report: a TCP header needs 20 bytes here,
/// UDP 8 and ICMP 4.
pub open spec fn transport_lines(d: Seq<u8>) -> Seq<Seq<char>> {
    let proto = d[ip_start_of(d) + 9];
    let l = l4_start_of(d);
    if proto == 6 && d.len() >= l + 20 {
        let f = d[l + 13];
        seq![
            "  [Layer 4 - TCP Header]"@,
            port_line("    Source Port     : "@, be16(d[l], d[l + 1])),
            port_line("    Destination Port: "@, be16(d[l + 2], d[l + 3])),
            "    Control Flags   : [ "@ + tcp_flags_text(f) + " ] (0x"@ + hex2(f) + ")"@,
        ]
    } else if proto == 17 && d.len() >= l + 8 {
        seq![
            "  [Layer 4 - UDP Header]"@,
            port_line("    Source Port     : "@, be16(d[l], d[l + 1])),
            port_line("    Destination Port: "@, be16(d[l + 2], d[l + 3])),
        ]
    } else if proto == 1 && d.len() >= l + 4 {
        control_message_lines(d[l], d[l + 1])
    } else {
        Seq::empty()
    }
}

/// The report that the tool prints for a matched packet.
pub open spec fn packet_report_text(matched: u64, captured: u64, d: Seq<u8>) -> Seq<Seq<char>> {
    ethernet_lines(matched, captured, d) + (if has_ipv4(d) {
        ipv4_lines(d) + transport_lines(d)
    } else {
        Seq::empty()
    }) + hex_dump_text(d, 64)
}

fn str2(a: &str, b: &str) -> (r: String)
    ensures
        r@ == a@ + b@,
{
    let mut s = String::from_str(a);
    push_str(&mut s, b);
    s
}

fn port_line_exec(label: &str, port: u16) -> (r: String)
    ensures
        r@ == port_line(label@, port),
{
    let mut s = String::from_str(label);
    push_decimal(&mut s, widen_u16(port));
    push_str(&mut s, " (");
    push_str(&mut s, port_service(port));
    push_str(&mut s, ")");
    s
}

fn control_message_lines_exec(t: u8, code: u8) -> (r: Vec<String>)
    ensures
        lines_view(r@) == control_message_lines(t, code),
{
    let mut v: Vec<String> = Vec::new();
    v.push(String::from_str("  [Layer 4 - ICMP Header]"));
    let mut a = String::from_str("    Type            : ");
    push_decimal(&mut a, widen_u8(t));
    push_str(&mut a, " (");
    push_str(&mut a, icmp_type_name(t));
    push_str(&mut a, ")");
    v.push(a);
    let mut b = String::from_str("    Code            : ");
    push_decimal(&mut b, widen_u8(code));
    v.push(b);
    assert(lines_view(v@) =~= control_message_lines(t, code));
    v
}

fn push_hex4(s: &mut String, n: u16)
    ensures
        final(s)@ == old(s)@ + hex4(n),
{
    let ghost s0 = s@;
    push_hex2(s, (n / 256) as u8);
    push_hex2(s, (n % 256) as u8);
    assert(s@ =~= s0 + hex4(n));
}

proof fn lemma_lines_view_append(a: Seq<String>, b: Seq<String>)
    ensures
        lines_view(a + b) == lines_view(a) + lines_view(b),
{
    assert(lines_view(a + b) =~= lines_view(a) + lines_view(b));
}

fn append_lines(v: &mut Vec<String>, w: Vec<String>)
    ensures
        lines_view(final(v)@) == lines_view(old(v)@) + lines_view(w@),
{
    let mut w = w;
    let ghost v0 = v@;
    let ghost w0 = w@;
    v.append(&mut w);
    proof {
        lemma_lines_view_append(v0, w0);
    }
}

fn ethernet_lines_exec(matched: u64, captured: u64, data: &[u8], p: &PacketInfo) -> (r: Vec<String>)
    requires
        data@.len() >= 14,
        decodes(data@, *p),
    ensures
        lines_view(r@) == ethernet_lines(matched, captured, data@),
{
    let mut v: Vec<String> = Vec::new();
    v.push(String::new());
    v.push(String::from_str("=================================================="));
    let mut l = String::from_str("  Matched Packet #");
    push_decimal(&mut l, matched);
    push_str(&mut l, " (Captured Total: ");
    push_decimal(&mut l, captured);
    push_str(&mut l, ", Bytes: ");
    push_decimal(&mut l, data.len() as u64);
    push_str(&mut l, ")");
    v.push(l);
    v.push(String::from_str("=================================================="));
    v.push(String::from_str("  [Layer 2 - Ethernet Header]"));
    let dm = hex_join_exec(&p.dst_mac, ':');
    v.push(str2("    Destination MAC : ", dm.as_str()));
    let sm = hex_join_exec(&p.src_mac, ':');
    v.push(str2("    Source MAC      : ", sm.as_str()));
    let mut e = String::from_str("    EtherType       : 0x");
    push_hex4(&mut e, p.ether_type);
    push_str(&mut e, " -> ");
    push_str(&mut e, ether_desc_exec(p.ether_type));
    v.push(e);
    assert(lines_view(v@) =~= ethernet_lines(matched, captured, data@));
    v
}

fn ipv4_lines_exec(data: &[u8], p: &PacketInfo) -> (r: Vec<String>)
    requires
        data@.len() >= 14,
        decodes(data@, *p),
        has_ipv4(data@),
    ensures
        lines_view(r@) == ipv4_lines(data@),
{
    let ip = p.ip_start;
    let b0 = data[ip];
    let mut v: Vec<String> = Vec::new();
    v.push(String::from_str("  [Layer 3 - IPv4 Header]"));
    let mut a = String::from_str("    IP Version      : IPv");
    push_decimal(&mut a, (b0 / 16) as u64);
    v.push(a);
    let mut b = String::from_str("    Header Length   : ");
    push_decimal(&mut b, ipv4_header_len(b0) as u64);
    push_str(&mut b, " bytes (IHL: ");
    push_decimal(&mut b, (b0 % 16) as u64);
    push_str(&mut b, ")");
    v.push(b);
    let mut c = String::from_str("    Total Length    : ");
    push_decimal(&mut c, be16_exec(data[ip + 2], data[ip + 3]) as u64);
    push_str(&mut c, " bytes");
    v.push(c);
    let mut t = String::from_str("    TTL (Hop Limit) : ");
    push_decimal(&mut t, data[ip + 8] as u64);
    v.push(t);
    let proto = data[ip + 9];
    let mut pr = String::from_str("    Protocol        : ");
    push_str(&mut pr, protocol_name(proto));
    push_str(&mut pr, " (");
    push_decimal(&mut pr, proto as u64);
    push_str(&mut pr, ")");
    v.push(pr);
    let mut si = String::from_str("    Source IP       : ");
    match p.src_ip {
        Some(a) => a.push_text(&mut si),
        None => {},
    }
    v.push(si);
    let mut di = String::from_str("    Destination IP  : ");
    match p.dst_ip {
        Some(a) => a.push_text(&mut di),
        None => {},
    }
    v.push(di);
    assert(lines_view(v@) =~= ipv4_lines(data@));
    v
}

fn transport_lines_exec(data: &[u8], p: &PacketInfo) -> (r: Vec<String>)
    requires
        data@.len() >= 14,
        decodes(data@, *p),
        has_ipv4(data@),
    ensures
        lines_view(r@) == transport_lines(data@),
{
    let ip = p.ip_start;
    let proto = data[ip + 9];
    let l = ip + ipv4_header_len(data[ip]);
    let mut v: Vec<String> = Vec::new();
    if proto == 6 && data.len() >= l + 20 {
        v.push(String::from_str("  [Layer 4 - TCP Header]"));
        v.push(port_line_exec("    Source Port     : ", be16_exec(data[l], data[l + 1])));
        v.push(port_line_exec("    Destination Port: ", be16_exec(data[l + 2], data[l + 3])));
        let f = data[l + 13];
        let mut fl = String::from_str("    Control Flags   : [ ");
        let names = parse_tcp_flags(f);
        push_str(&mut fl, names.as_str());
        push_str(&mut fl, " ] (0x");
        push_hex2(&mut fl, f);
        push_str(&mut fl, ")");
        v.push(fl);
    } else if proto == 17 && data.len() >= l + 8 {
        v.push(String::from_str("  [Layer 4 - UDP Header]"));
        v.push(port_line_exec("    Source Port     : ", be16_exec(data[l], data[l + 1])));
        v.push(port_line_exec("    Destination Port: ", be16_exec(data[l + 2], data[l + 3])));
    } else if proto == 1 && data.len() >= l + 4 {
        v = control_message_lines_exec(data[l], data[l + 1]);
    }
    assert(lines_view(v@) =~= transport_lines(data@));
    v
}

/// The report that the tool prints for a matched packet, as lines. Frames
/// shorter than an Ethernet header are never reported.
pub fn packet_report_lines(matched: u64, captured: u64, data: &[u8]) -> (r: Vec<String>)
    requires
        data@.len() >= 14,
    ensures
        lines_view(r@) == packet_report_text(matched, captured, data@),
{
    let p = match decode_packet(data) {
        Some(p) => p,
        None => {
            return Vec::new();
        },
    };
    let mut v = ethernet_lines_exec(matched, captured, data, &p);
    if p.ether_type == 0x0800 && data.len() >= p.ip_start + 20 {
        let a = ipv4_lines_exec(data, &p);
        append_lines(&mut v, a);
        let b = transport_lines_exec(data, &p);
        append_lines(&mut v, b);
    }
    let h = hex_dump_lines(data, 64);
    append_lines(&mut v, h);
    v
}


/// The service shown for a flow: that of port A, else that of port B, else
/// the protocol name.
pub open spec fn flow_service(k: FlowKey) -> Seq<char> {
    if port_service_text(k.port_a) != "CUSTOM"@ {
        port_service_text(k.port_a)
    } else if port_service_text(k.port_b) != "CUSTOM"@ {
        port_service_text(k.port_b)
    } else {
        protocol_name_text(k.protocol)
    }
}

/// `A:port -> B:port (service)`.
pub open spec fn flow_text(k: FlowKey) -> Seq<char> {
    ipv4_text(k.ip_a) + ":"@ + dec_u16(k.port_a) + " -> "@ + ipv4_text(k.ip_b) + ":"@ + dec_u16(
        k.port_b,
    ) + " ("@ + flow_service(k) + ")"@
}

/// Whether the totals of a flow fit in 64 bits.
pub open spec fn totals_fit(st: FlowStats) -> bool {
    st.pkts_fwd + st.pkts_rev <= u64::MAX && st.bytes_fwd + st.bytes_rev <= u64::MAX
}

/// `total (forward / reverse)` packets.
pub open spec fn packets_text(st: FlowStats) -> Seq<char> {
    decimal((st.pkts_fwd + st.pkts_rev) as nat) + " ("@ + decimal(st.pkts_fwd as nat) + " / "@
        + decimal(st.pkts_rev as nat) + ")"@
}

/// `total (forward / reverse)` bytes, each for people.
pub open spec fn volume_text(st: FlowStats) -> Seq<char> {
    bytes_text((st.bytes_fwd + st.bytes_rev) as u64) + " ("@ + bytes_text(st.bytes_fwd) + " / "@
        + bytes_text(st.bytes_rev) + ")"@
}

fn str_eq_lit(s: &str, lit: &str) -> (r: bool)
    ensures
        r == (s@ == lit@),
{
    let v = crate::text::str_chars(s);
    crate::text::chars_eq_lit(v.as_slice(), lit)
}

/// The endpoints and service of a flow, as the flow table shows them.
pub fn flow_label(k: &FlowKey) -> (r: String)
    ensures
        r@ == flow_text(*k),
{
    let svc_a = port_service(k.port_a);
    let svc_b = port_service(k.port_b);
    let svc_name = if !str_eq_lit(svc_a, "CUSTOM") {
        svc_a
    } else if !str_eq_lit(svc_b, "CUSTOM") {
        svc_b
    } else {
        protocol_name(k.protocol)
    };
    let mut s = String::new();
    k.ip_a.push_text(&mut s);
    push_str(&mut s, ":");
    push_decimal(&mut s, widen_u16(k.port_a));
    push_str(&mut s, " -> ");
    k.ip_b.push_text(&mut s);
    push_str(&mut s, ":");
    push_decimal(&mut s, widen_u16(k.port_b));
    push_str(&mut s, " (");
    push_str(&mut s, svc_name);
    push_str(&mut s, ")");
    s
}

/// The packet counts of a flow, as the flow table shows them.
pub fn packets_label(st: &FlowStats) -> (r: String)
    requires
        totals_fit(*st),
    ensures
        r@ == packets_text(*st),
{
    let mut s = String::new();
    push_decimal(&mut s, st.pkts_fwd + st.pkts_rev);
    push_str(&mut s, " (");
    push_decimal(&mut s, st.pkts_fwd);
    push_str(&mut s, " / ");
    push_decimal(&mut s, st.pkts_rev);
    push_str(&mut s, ")");
    s
}

/// The byte counts of a flow, as the flow table shows them.
pub fn volume_label(st: &FlowStats) -> (r: String)
    requires
        totals_fit(*st),
    ensures
        r@ == volume_text(*st),
{
    let mut s = String::new();
    let t = format_bytes_rust(st.bytes_fwd + st.bytes_rev);
    push_str(&mut s, t.as_str());
    push_str(&mut s, " (");
    let f = format_bytes_rust(st.bytes_fwd);
    push_str(&mut s, f.as_str());
    push_str(&mut s, " / ");
    let r = format_bytes_rust(st.bytes_rev);
    push_str(&mut s, r.as_str());
    push_str(&mut s, ")");
    s
}

/// A row of the flow table: five cells left-aligned in columns of 48, 16,
/// 24, 10 and 12 characters, separated by one space.
pub open spec fn table_row_text(a: Seq<char>, b: Seq<char>, c: Seq<char>, d: Seq<char>, e: Seq<char>) -> Seq<char> {
    pad_right(a, 48) + " "@ + pad_right(b, 16) + " "@ + pad_right(c, 24) + " "@ + pad_right(d, 10)
        + " "@ + pad_right(e, 12)
}

/// A row of the flow table (see `table_row_text`).
pub fn table_row(a: &str, b: &str, c: &str, d: &str, e: &str) -> (r: String)
    ensures
        r@ == table_row_text(a@, b@, c@, d@, e@),
{
    let mut s = String::new();
    push_pad_right(&mut s, a, 48);
    push_str(&mut s, " ");
    push_pad_right(&mut s, b, 16);
    push_str(&mut s, " ");
    push_pad_right(&mut s, c, 24);
    push_str(&mut s, " ");
    push_pad_right(&mut s, d, 10);
    push_str(&mut s, " ");
    push_pad_right(&mut s, e, 12);
    s
}

// ---------------------------------------------------------------------------
// Laws of the renderings.

/// In the text column of a hex dump, a byte shows as the character it is
/// when it is printable ASCII or a space (0x20 to 0x7e), and as `.` when it
/// is anything else. Row `row` (line `row + 1`, after the heading) ends with
/// its bytes `16 * row ..` shown this way between two bars.
pub proof fn lemma_dump_text_column(data: Seq<u8>, max_bytes: int, row: int, j: int)
    requires
        0 <= row,
        0 <= j < 16,
        16 * row + j < data.len(),
        16 * row + j < max_bytes,
    ensures
        ({
            let n = if data.len() < max_bytes { data.len() as int } else { max_bytes };
            let k = if 16 * row + 16 < n { 16 } else { n - 16 * row };
            let line = hex_dump_text(data, max_bytes)[row + 1];
            let b = data[16 * row + j];
            &&& hex_dump_text(data, max_bytes).len() > row + 1
            &&& line[line.len() - 1] == '|'
            &&& line[line.len() - 2 - k] == '|'
            &&& line[line.len() - 1 - k + j] == (if 0x20 <= b <= 0x7e { b as char } else { '.' })
        }),
{
    let d = prefix(data, max_bytes);
    let n = d.len() as int;
    assert(n == if data.len() < max_bytes { data.len() as int } else { max_bytes });
    let rows = ((d.len() + 15) / 16) as nat;
    assert(row < rows);
    let chunk = dump_chunk(d, row);
    let k = chunk.len() as int;
    assert(k == if 16 * row + 16 < n { 16 } else { n - 16 * row });
    let head = "    "@ + pad_zero(hex_upper((16 * row) as nat), 4) + ":  "@ + pad_right(
        hex_join(chunk, ' '),
        47,
    ) + "  |"@;
    reveal_strlit("  |");
    reveal_strlit("|");
    let line = dump_line(d, row);
    assert(line =~= head + shown_text(chunk) + "|"@);
    assert(hex_dump_text(data, max_bytes)[row + 1] == line);
    assert(line.len() == head.len() + k + 1);
    assert(line[line.len() - 1] == '|');
    assert(line[line.len() - 2 - k] == head[head.len() - 1]);
    assert(line[line.len() - 1 - k + j] == shown_text(chunk)[j]);
    assert(chunk[j] == d[16 * row + j]);
    assert(d[16 * row + j] == data[16 * row + j]);
}

/// A dump of the first `max_bytes` bytes shows exactly those bytes that the
/// frame has: a heading that gives their number, then one row for each
/// sixteen of them (the last row holding the rest).
pub proof fn lemma_dump_rows(data: Seq<u8>, max_bytes: int)
    requires
        max_bytes >= 0,
    ensures
        ({
            let n = if data.len() < max_bytes { data.len() as int } else { max_bytes };
            &&& hex_dump_text(data, max_bytes).len() == 1 + (n + 15) / 16
            &&& hex_dump_text(data, max_bytes)[0] == "  Raw Hex Dump (first "@ + decimal(n as nat)
                + " bytes):"@
        }),
{
}

/// The packets column of the flow table: the total over both directions,
/// then in brackets the forward count and the reverse count, in that order.
pub proof fn lemma_packets_column(st: FlowStats)
    ensures
        packets_text(st) == decimal((st.pkts_fwd + st.pkts_rev) as nat) + " ("@ + decimal(
            st.pkts_fwd as nat,
        ) + " / "@ + decimal(st.pkts_rev as nat) + ")"@,
{
}

/// The bytes column of the flow table: the total over both directions,
/// then in brackets the forward bytes and the reverse bytes, in that order.
pub proof fn lemma_volume_column(st: FlowStats)
    ensures
        volume_text(st) == bytes_text((st.bytes_fwd + st.bytes_rev) as u64) + " ("@ + bytes_text(
            st.bytes_fwd,
        ) + " / "@ + bytes_text(st.bytes_rev) + ")"@,
{
}

/// After one more forward packet the forward count in the packets column
/// goes up by one and the reverse count stays; after a reverse packet the
/// other way round.
pub proof fn lemma_packets_column_step(
    old: FlowStats,
    new: FlowStats,
    fwd: bool,
    len: int,
    proto: u8,
    l4: L4Info,
    now: Instant,
)
    requires
        stats_step(Some(old), new, fwd, len, proto, l4, now),
    ensures
        fwd ==> packets_text(new) == decimal((old.pkts_fwd + old.pkts_rev + 1) as nat) + " ("@
            + decimal((old.pkts_fwd + 1) as nat) + " / "@ + decimal(old.pkts_rev as nat) + ")"@,
        !fwd ==> packets_text(new) == decimal((old.pkts_fwd + old.pkts_rev + 1) as nat) + " ("@
            + decimal(old.pkts_fwd as nat) + " / "@ + decimal((old.pkts_rev + 1) as nat) + ")"@,
{
}

} // verus!
