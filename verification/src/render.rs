//! Names of protocols, services, ICMP types and TCP flags; hex text; and how
//! filters are shown.
use vstd::prelude::*;
use crate::addr::ipv4_text;
use crate::filter::{FilterCondition, FilterExpr, SizeOp};
use crate::packet::L4Info;
use crate::text::{decimal, dec_u16, dec_u8, hex2, push_char, push_decimal, push_hex2, push_str, widen_u16, widen_u8};

verus! {

broadcast use vstd::string::group_string_axioms;

/// `parts` joined with `sep` between neighbours.
pub open spec fn join(parts: Seq<Seq<char>>, sep: Seq<char>) -> Seq<char>
    decreases parts.len(),
{
    if parts.len() == 0 {
        Seq::empty()
    } else if parts.len() == 1 {
        parts[0]
    } else {
        join(parts.drop_last(), sep) + sep + parts.last()
    }
}

/// The bytes as two-digit uppercase hex, with `sep` between neighbours.
pub open spec fn hex_join(bytes: Seq<u8>, sep: char) -> Seq<char>
    decreases bytes.len(),
{
    if bytes.len() == 0 {
        Seq::empty()
    } else if bytes.len() == 1 {
        hex2(bytes[0])
    } else {
        hex_join(bytes.drop_last(), sep) + seq![sep] + hex2(bytes.last())
    }
}

/// The name of an IP protocol number.
pub open spec fn protocol_name_text(proto: u8) -> Seq<char> {
    if proto == 1 {
        "ICMP"@
    } else if proto == 2 {
        "IGMP"@
    } else if proto == 6 {
        "TCP"@
    } else if proto == 17 {
        "UDP"@
    } else if proto == 41 {
        "IPv6-Encaps"@
    } else if proto == 89 {
        "OSPF"@
    } else {
        "OTHER"@
    }
}

/// The name of an IP protocol number.
pub fn protocol_name(proto: u8) -> (r: &'static str)
    ensures
        r@ == protocol_name_text(proto),
{
    match proto {
        1 => "ICMP",
        2 => "IGMP",
        6 => "TCP",
        17 => "UDP",
        41 => "IPv6-Encaps",
        89 => "OSPF",
        _ => "OTHER",
    }
}

/// The well-known service on a port.
pub open spec fn port_service_text(port: u16) -> Seq<char> {
    if port == 20 || port == 21 {
        "FTP"@
    } else if port == 22 {
        "SSH"@
    } else if port == 23 {
        "Telnet"@
    } else if port == 25 {
        "SMTP"@
    } else if port == 53 {
        "DNS"@
    } else if port == 67 || port == 68 {
        "DHCP"@
    } else if port == 80 {
        "HTTP"@
    } else if port == 123 {
        "NTP"@
    } else if port == 143 {
        "IMAP"@
    } else if port == 443 {
        "HTTPS"@
    } else if port == 3306 {
        "MySQL"@
    } else if port == 5432 {
        "PostgreSQL"@
    } else if port == 8080 {
        "HTTP-Proxy"@
    } else {
        "CUSTOM"@
    }
}

/// The well-known service on a port.
pub fn port_service(port: u16) -> (r: &'static str)
    ensures
        r@ == port_service_text(port),
{
    match port {
        20 | 21 => "FTP",
        22 => "SSH",
        23 => "Telnet",
        25 => "SMTP",
        53 => "DNS",
        67 | 68 => "DHCP",
        80 => "HTTP",
        123 => "NTP",
        143 => "IMAP",
        443 => "HTTPS",
        3306 => "MySQL",
        5432 => "PostgreSQL",
        8080 => "HTTP-Proxy",
        _ => "CUSTOM",
    }
}

/// The name of an ICMP message type.
pub open spec fn icmp_type_text(t: u8) -> Seq<char> {
    if t == 0 {
        "Echo Reply"@
    } else if t == 3 {
        "Dst Unreachable"@
    } else if t == 5 {
        "Redirect"@
    } else if t == 8 {
        "Echo Request"@
    } else if t == 11 {
        "Time Exceeded"@
    } else {
        "ICMP Other"@
    }
}

/// The name of an ICMP message type.
pub fn icmp_type_name(icmp_type: u8) -> (r: &'static str)
    ensures
        r@ == icmp_type_text(icmp_type),
{
    match icmp_type {
        0 => "Echo Reply",
        3 => "Dst Unreachable",
        5 => "Redirect",
        8 => "Echo Request",
        11 => "Time Exceeded",
        _ => "ICMP Other",
    }
}

/// The names of the TCP flags set in `flags`, in the order FIN, SYN, RST,
/// PSH, ACK, URG.
pub open spec fn tcp_flag_names(flags: u8) -> Seq<Seq<char>> {
    (if flags & 0x01 != 0 { seq!["FIN"@] } else { Seq::empty() }) + (if flags & 0x02 != 0 {
        seq!["SYN"@]
    } else {
        Seq::empty()
    }) + (if flags & 0x04 != 0 { seq!["RST"@] } else { Seq::empty() }) + (if flags & 0x08 != 0 {
        seq!["PSH"@]
    } else {
        Seq::empty()
    }) + (if flags & 0x10 != 0 { seq!["ACK"@] } else { Seq::empty() }) + (if flags & 0x20 != 0 {
        seq!["URG"@]
    } else {
        Seq::empty()
    })
}

/// The flags set, joined by `|`, or `NONE`.
pub open spec fn tcp_flags_text(flags: u8) -> Seq<char> {
    if tcp_flag_names(flags).len() == 0 {
        "NONE"@
    } else {
        join(tcp_flag_names(flags), "|"@)
    }
}

/// Appends `name` to the list `names` that `s` shows joined by `|`.
fn push_name(s: &mut String, names: Ghost<Seq<Seq<char>>>, first: bool, name: &str)
    requires
        old(s)@ == join(names@, "|"@),
        first == (names@.len() == 0),
    ensures
        final(s)@ == join(names@.push(name@), "|"@),
{
    let ghost n2 = names@.push(name@);
    assert(n2.drop_last() =~= names@);
    if !first {
        push_str(s, "|");
    } else {
        assert(old(s)@ =~= Seq::<char>::empty());
    }
    push_str(s, name);
}

/// The TCP flags byte as text: the names of the flags set, joined by `|`, or `NONE`.
pub fn parse_tcp_flags(flags: u8) -> (r: String)
    ensures
        r@ == tcp_flags_text(flags),
{
    let mut s = String::new();
    let ghost mut names: Seq<Seq<char>> = Seq::empty();
    let mut any = false;
    if flags & 0x01 != 0 {
        push_name(&mut s, Ghost(names), !any, "FIN");
        proof { names = names.push("FIN"@); }
        any = true;
    }
    if flags & 0x02 != 0 {
        push_name(&mut s, Ghost(names), !any, "SYN");
        proof { names = names.push("SYN"@); }
        any = true;
    }
    if flags & 0x04 != 0 {
        push_name(&mut s, Ghost(names), !any, "RST");
        proof { names = names.push("RST"@); }
        any = true;
    }
    if flags & 0x08 != 0 {
        push_name(&mut s, Ghost(names), !any, "PSH");
        proof { names = names.push("PSH"@); }
        any = true;
    }
    if flags & 0x10 != 0 {
        push_name(&mut s, Ghost(names), !any, "ACK");
        proof { names = names.push("ACK"@); }
        any = true;
    }
    if flags & 0x20 != 0 {
        push_name(&mut s, Ghost(names), !any, "URG");
        proof { names = names.push("URG"@); }
        any = true;
    }
    assert(names =~= tcp_flag_names(flags));
    if !any {
        String::from_str("NONE")
    } else {
        s
    }
}

/// The bytes as two-digit uppercase hex joined by `sep`.
pub fn hex_join_exec(bytes: &[u8], sep: char) -> (r: String)
    ensures
        r@ == hex_join(bytes@, sep),
{
    let mut s = String::new();
    let mut i: usize = 0;
    while i < bytes.len()
        invariant
            i <= bytes.len(),
            s@ == hex_join(bytes@.take(i as int), sep),
        decreases bytes.len() - i,
    {
        let ghost prev = bytes@.take(i as int);
        if i > 0 {
            push_char(&mut s, sep);
        }
        push_hex2(&mut s, bytes[i]);
        i += 1;
        assert(bytes@.take(i as int).drop_last() =~= prev);
        if i == 1 {
            assert(prev =~= Seq::<u8>::empty());
            assert(s@ =~= hex2(bytes@[0]));
        }
    }
    assert(bytes@.take(bytes.len() as int) =~= bytes@);
    s
}

/// A MAC address (or any byte string) as uppercase hex pairs joined by `:`.
pub fn format_mac(bytes: &[u8]) -> (r: String)
    ensures
        r@ == hex_join(bytes@, ':'),
{
    hex_join_exec(bytes, ':')
}

/// The first `max_bytes` bytes (or all, if fewer) as uppercase hex pairs
/// joined by spaces.
pub fn hex_encode(data: &[u8], max_bytes: usize) -> (r: String)
    ensures
        r@ == hex_join(data@.take(if data@.len() < max_bytes { data@.len() as int } else { max_bytes as int }), ' '),
{
    let len = if data.len() < max_bytes {
        data.len()
    } else {
        max_bytes
    };
    let mut s = String::new();
    let mut i: usize = 0;
    while i < len
        invariant
            len <= data.len(),
            i <= len,
            s@ == hex_join(data@.take(i as int), ' '),
        decreases len - i,
    {
        let ghost prev = data@.take(i as int);
        if i > 0 {
            push_char(&mut s, ' ');
        }
        push_hex2(&mut s, data[i]);
        i += 1;
        assert(data@.take(i as int).drop_last() =~= prev);
        if i == 1 {
            assert(prev =~= Seq::<u8>::empty());
            assert(s@ =~= hex2(data@[0]));
        }
    }
    s
}

/// The one-line summary of a transport header.
pub open spec fn l4_info_text(l4: L4Info) -> Seq<char> {
    match l4 {
        L4Info::Absent => Seq::empty(),
        L4Info::Tcp { flags } => "Flags: ["@ + tcp_flags_text(flags) + "]"@,
        L4Info::Udp { len } => "Len: "@ + dec_u16(len) + "B"@,
        L4Info::Icmp { icmp_type, code } => "Type "@ + dec_u8(icmp_type) + " ("@ + icmp_type_text(
            icmp_type,
        ) + ") Code "@ + dec_u8(code),
    }
}

/// The one-line summary of a transport header: the TCP flags, the UDP
/// length, or the ICMP type and code; empty when no header was read.
pub fn l4_info_string(l4: L4Info) -> (r: String)
    ensures
        r@ == l4_info_text(l4),
{
    let mut s = String::new();
    match l4 {
        L4Info::Absent => {},
        L4Info::Tcp { flags } => {
            push_str(&mut s, "Flags: [");
            let f = parse_tcp_flags(flags);
            push_str(&mut s, f.as_str());
            push_str(&mut s, "]");
        },
        L4Info::Udp { len } => {
            push_str(&mut s, "Len: ");
            push_decimal(&mut s, widen_u16(len));
            push_str(&mut s, "B");
        },
        L4Info::Icmp { icmp_type, code } => {
            let t = icmp_type;
            push_str(&mut s, "Type ");
            push_decimal(&mut s, widen_u8(t));
            push_str(&mut s, " (");
            push_str(&mut s, icmp_type_name(t));
            push_str(&mut s, ") Code ");
            push_decimal(&mut s, widen_u8(code));
        },
    }
    s
}


/// How a size comparison is shown, up to the number.
pub open spec fn size_op_text(op: SizeOp) -> Seq<char> {
    match op {
        SizeOp::Equal => "size == "@,
        SizeOp::GreaterThan => "size > "@,
        SizeOp::GreaterThanOrEqual => "size >= "@,
        SizeOp::LessThan => "size < "@,
        SizeOp::LessThanOrEqual => "size <= "@,
    }
}

/// How a condition is shown.
pub open spec fn condition_text(c: FilterCondition) -> Seq<char> {
    match c {
        FilterCondition::Protocol(p) => "proto == "@ + protocol_name_text(p),
        FilterCondition::SrcIp(ip) => "src_ip == "@ + ipv4_text(ip),
        FilterCondition::DstIp(ip) => "dst_ip == "@ + ipv4_text(ip),
        FilterCondition::Ip(ip) => "host == "@ + ipv4_text(ip),
        FilterCondition::SrcPort(p) => "sport == "@ + dec_u16(p),
        FilterCondition::DstPort(p) => "dport == "@ + dec_u16(p),
        FilterCondition::Port(p) => "port == "@ + dec_u16(p),
        FilterCondition::PacketSize(op, sz) => size_op_text(op) + decimal(sz as nat) + "B"@,
    }
}

/// How a filter is shown: `and` and `or` in parentheses, `not` around its operand.
pub open spec fn filter_text(e: FilterExpr) -> Seq<char>
    decreases e,
{
    match e {
        FilterExpr::Any => "NONE (Capturing All Traffic)"@,
        FilterExpr::Match(c) => condition_text(c),
        FilterExpr::And(l, r) => "("@ + filter_text(*l) + " AND "@ + filter_text(*r) + ")"@,
        FilterExpr::Or(l, r) => "("@ + filter_text(*l) + " OR "@ + filter_text(*r) + ")"@,
        FilterExpr::Not(sub) => "NOT ("@ + filter_text(*sub) + ")"@,
    }
}

fn push_condition(s: &mut String, c: &FilterCondition)
    ensures
        final(s)@ == old(s)@ + condition_text(*c),
{
    let ghost s0 = s@;
    match c {
        FilterCondition::Protocol(p) => {
            push_str(s, "proto == ");
            push_str(s, protocol_name(*p));
        },
        FilterCondition::SrcIp(ip) => {
            push_str(s, "src_ip == ");
            ip.push_text(s);
        },
        FilterCondition::DstIp(ip) => {
            push_str(s, "dst_ip == ");
            ip.push_text(s);
        },
        FilterCondition::Ip(ip) => {
            push_str(s, "host == ");
            ip.push_text(s);
        },
        FilterCondition::SrcPort(p) => {
            push_str(s, "sport == ");
            push_decimal(s, widen_u16(*p));
        },
        FilterCondition::DstPort(p) => {
            push_str(s, "dport == ");
            push_decimal(s, widen_u16(*p));
        },
        FilterCondition::Port(p) => {
            push_str(s, "port == ");
            push_decimal(s, widen_u16(*p));
        },
        FilterCondition::PacketSize(op, sz) => {
            match op {
                SizeOp::Equal => push_str(s, "size == "),
                SizeOp::GreaterThan => push_str(s, "size > "),
                SizeOp::GreaterThanOrEqual => push_str(s, "size >= "),
                SizeOp::LessThan => push_str(s, "size < "),
                SizeOp::LessThanOrEqual => push_str(s, "size <= "),
            }
            push_decimal(s, *sz as u64);
            push_str(s, "B");
        },
    }
    assert(s@ =~= s0 + condition_text(*c));
}

impl FilterExpr {
    /// Appends how the filter is shown to `s`.
    pub fn push_text(&self, s: &mut String)
        ensures
            final(s)@ == old(s)@ + filter_text(*self),
        decreases self,
    {
        let ghost s0 = s@;
        match self {
            FilterExpr::Any => push_str(s, "NONE (Capturing All Traffic)"),
            FilterExpr::Match(c) => push_condition(s, c),
            FilterExpr::And(l, r) => {
                push_str(s, "(");
                l.push_text(s);
                push_str(s, " AND ");
                r.push_text(s);
                push_str(s, ")");
            },
            FilterExpr::Or(l, r) => {
                push_str(s, "(");
                l.push_text(s);
                push_str(s, " OR ");
                r.push_text(s);
                push_str(s, ")");
            },
            FilterExpr::Not(sub) => {
                push_str(s, "NOT (");
                sub.push_text(s);
                push_str(s, ")");
            },
        }
        assert(s@ =~= s0 + filter_text(*self));
    }

    /// How the filter is shown, as its `Display` writes it.
    pub fn to_string(&self) -> (r: String)
        ensures
            r@ == filter_text(*self),
    {
        let mut s = String::new();
        self.push_text(&mut s);
        s
    }
}

/// The layout of hex bytes joined by a separator: each byte takes two
/// characters, its hex digits, and one separator stands between each two
/// neighbours, so byte `j` is at `3 * j` and the text is `3 * n - 1` long.
pub proof fn lemma_hex_join_layout(bytes: Seq<u8>, sep: char, j: int)
    requires
        0 <= j < bytes.len(),
    ensures
        hex_join(bytes, sep).len() == 3 * bytes.len() - 1,
        hex_join(bytes, sep).subrange(3 * j, 3 * j + 2) == hex2(bytes[j]),
        j + 1 < bytes.len() ==> hex_join(bytes, sep)[3 * j + 2] == sep,
    decreases bytes.len(),
{
    let n = bytes.len() as int;
    if n == 1 {
        assert(hex_join(bytes, sep).subrange(0, 2) =~= hex2(bytes[0]));
    } else {
        let init = bytes.drop_last();
        let h = hex_join(init, sep);
        let full = h + seq![sep] + hex2(bytes.last());
        assert(hex_join(bytes, sep) == full);
        if j < n - 1 {
            lemma_hex_join_layout(init, sep, j);
            assert(init[j] == bytes[j]);
            assert(full.subrange(3 * j, 3 * j + 2) =~= h.subrange(3 * j, 3 * j + 2));
            if j + 1 < n - 1 {
                lemma_hex_join_layout(init, sep, j + 1);
                assert(full[3 * j + 2] == h[3 * j + 2]);
            } else {
                assert(h.len() == 3 * j + 2);
                assert(full[3 * j + 2] == sep);
            }
        } else {
            lemma_hex_join_layout(init, sep, 0);
            assert(h.len() == 3 * (n - 1) - 1);
            assert(full.subrange(3 * j, 3 * j + 2) =~= hex2(bytes.last()));
        }
    }
}

} // verus!
