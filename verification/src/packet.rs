//! Decoding of Ethernet (with 802.1Q), IPv4, TCP, UDP and ICMP headers.
use vstd::prelude::*;
use crate::addr::Ipv4Addr;

verus! {

/// What the transport header of a packet shows.
#[derive(Debug, Clone, Copy, PartialEq, Eq, Structural)]
pub enum L4Info {
    /// No transport header was read.
    Absent,
    /// A TCP header: its control flags byte.
    Tcp { flags: u8 },
    /// A UDP header: its length field.
    Udp { len: u16 },
    /// An ICMP header: its type and code.
    Icmp { icmp_type: u8, code: u8 },
}

/// The header fields of a captured Ethernet frame.
#[derive(Debug, Clone, Copy)]
pub struct PacketInfo {
    /// Length of the whole frame in bytes.
    pub len: usize,
    pub dst_mac: [u8; 6],
    pub src_mac: [u8; 6],
    /// The EtherType, taken from behind an 802.1Q tag where there is one.
    pub ether_type: u16,
    /// Where the network-layer header starts.
    pub ip_start: usize,
    pub src_ip: Option<Ipv4Addr>,
    pub dst_ip: Option<Ipv4Addr>,
    pub protocol: Option<u8>,
    pub ttl: Option<u8>,
    pub src_port: Option<u16>,
    pub dst_port: Option<u16>,
    pub l4: L4Info,
}

/// A big-endian 16-bit field.
pub open spec fn be16(hi: u8, lo: u8) -> u16 {
    (hi as int * 256 + lo as int) as u16
}

/// A big-endian 16-bit field.
pub fn be16_exec(hi: u8, lo: u8) -> (r: u16)
    ensures
        r == be16(hi, lo),
{
    (hi as u16) * 256 + (lo as u16)
}

/// Whether the frame carries an 802.1Q tag that is read through.
pub open spec fn vlan_tagged(d: Seq<u8>) -> bool {
    d.len() >= 18 && be16(d[12], d[13]) == 0x8100
}

/// The EtherType of a frame of at least 14 bytes.
pub open spec fn ether_type_of(d: Seq<u8>) -> u16 {
    if vlan_tagged(d) {
        be16(d[16], d[17])
    } else {
        be16(d[12], d[13])
    }
}

/// Where the network-layer header starts.
pub open spec fn ip_start_of(d: Seq<u8>) -> int {
    if vlan_tagged(d) {
        18
    } else {
        14
    }
}

/// Whether an IPv4 header of at least 20 bytes is present.
pub open spec fn has_ipv4(d: Seq<u8>) -> bool {
    ether_type_of(d) == 0x0800 && d.len() >= ip_start_of(d) + 20
}

/// Where the transport header starts: after the IPv4 header, whose length
/// is the IHL field (low four bits of the first byte) times four.
pub open spec fn l4_start_of(d: Seq<u8>) -> int {
    ip_start_of(d) + (d[ip_start_of(d)] % 16) * 4
}

/// The protocol field of the IPv4 header.
pub open spec fn protocol_of(d: Seq<u8>) -> u8 {
    d[ip_start_of(d) + 9]
}

/// The address held by the four bytes at `i`.
pub open spec fn ipv4_at(d: Seq<u8>, i: int) -> Ipv4Addr {
    Ipv4Addr { a: d[i], b: d[i + 1], c: d[i + 2], d: d[i + 3] }
}

/// A TCP header is read when at least 14 of its bytes are present; UDP needs
/// 8 and ICMP 4.
pub open spec fn l4_kind(d: Seq<u8>) -> int {
    if !has_ipv4(d) {
        0
    } else if protocol_of(d) == 6 && d.len() >= l4_start_of(d) + 14 {
        6
    } else if protocol_of(d) == 17 && d.len() >= l4_start_of(d) + 8 {
        17
    } else if protocol_of(d) == 1 && d.len() >= l4_start_of(d) + 4 {
        1
    } else {
        0
    }
}

/// What the transport header shows.
pub open spec fn l4_of(d: Seq<u8>) -> L4Info {
    let l = l4_start_of(d);
    if l4_kind(d) == 6 {
        L4Info::Tcp { flags: d[l + 13] }
    } else if l4_kind(d) == 17 {
        L4Info::Udp { len: be16(d[l + 4], d[l + 5]) }
    } else if l4_kind(d) == 1 {
        L4Info::Icmp { icmp_type: d[l], code: d[l + 1] }
    } else {
        L4Info::Absent
    }
}

/// `p` is what decoding the frame `d` gives.
pub open spec fn decodes(d: Seq<u8>, p: PacketInfo) -> bool {
    let ip = ip_start_of(d);
    let l = l4_start_of(d);
    let ports = l4_kind(d) == 6 || l4_kind(d) == 17;
    &&& p.len == d.len()
    &&& p.dst_mac@ == d.subrange(0, 6)
    &&& p.src_mac@ == d.subrange(6, 12)
    &&& p.ether_type == ether_type_of(d)
    &&& p.ip_start == ip
    &&& p.src_ip == (if has_ipv4(d) { Some(ipv4_at(d, ip + 12)) } else { None::<Ipv4Addr> })
    &&& p.dst_ip == (if has_ipv4(d) { Some(ipv4_at(d, ip + 16)) } else { None::<Ipv4Addr> })
    &&& p.protocol == (if has_ipv4(d) { Some(protocol_of(d)) } else { None::<u8> })
    &&& p.ttl == (if has_ipv4(d) { Some(d[ip + 8]) } else { None::<u8> })
    &&& p.src_port == (if ports { Some(be16(d[l], d[l + 1])) } else { None::<u16> })
    &&& p.dst_port == (if ports { Some(be16(d[l + 2], d[l + 3])) } else { None::<u16> })
    &&& p.l4 == l4_of(d)
}

fn ip_at(d: &[u8], i: usize) -> (r: Ipv4Addr)
    requires
        i + 4 <= d@.len(),
    ensures
        r == ipv4_at(d@, i as int),
{
    Ipv4Addr { a: d[i], b: d[i + 1], c: d[i + 2], d: d[i + 3] }
}

/// The IPv4 header length that the first header byte gives: its low four
/// bits (IHL) times four.
pub fn ipv4_header_len(b: u8) -> (r: usize)
    ensures
        r == (b % 16) * 4,
{
    let ihl = b & 0x0F;
    assert(b & 0x0F == b % 16) by (bit_vector);
    (ihl * 4) as usize
}

/// Reads the Ethernet, IPv4 and transport headers of a captured frame.
/// Frames shorter than an Ethernet header (14 bytes) give `None`.
pub fn decode_packet(data: &[u8]) -> (r: Option<PacketInfo>)
    ensures
        data@.len() < 14 ==> r is None,
        data@.len() >= 14 ==> r is Some && decodes(data@, r->0),
{
    if data.len() < 14 {
        return None;
    }
    let dst_mac = [data[0], data[1], data[2], data[3], data[4], data[5]];
    let src_mac = [data[6], data[7], data[8], data[9], data[10], data[11]];
    let mut ether_type = be16_exec(data[12], data[13]);
    let mut ip_start: usize = 14;
    if ether_type == 0x8100 && data.len() >= 18 {
        ether_type = be16_exec(data[16], data[17]);
        ip_start = 18;
    }
    let mut src_ip = None;
    let mut dst_ip = None;
    let mut protocol = None;
    let mut ttl = None;
    let mut src_port = None;
    let mut dst_port = None;
    let mut l4 = L4Info::Absent;
    if ether_type == 0x0800 && data.len() >= ip_start + 20 {
        let ihl_bytes = ipv4_header_len(data[ip_start]);
        let proto = data[ip_start + 9];
        protocol = Some(proto);
        ttl = Some(data[ip_start + 8]);
        src_ip = Some(ip_at(data, ip_start + 12));
        dst_ip = Some(ip_at(data, ip_start + 16));
        let l4_start = ip_start + ihl_bytes;
        if proto == 6 && data.len() >= l4_start + 14 {
            src_port = Some(be16_exec(data[l4_start], data[l4_start + 1]));
            dst_port = Some(be16_exec(data[l4_start + 2], data[l4_start + 3]));
            l4 = L4Info::Tcp { flags: data[l4_start + 13] };
        } else if proto == 17 && data.len() >= l4_start + 8 {
            src_port = Some(be16_exec(data[l4_start], data[l4_start + 1]));
            dst_port = Some(be16_exec(data[l4_start + 2], data[l4_start + 3]));
            l4 = L4Info::Udp { len: be16_exec(data[l4_start + 4], data[l4_start + 5]) };
        } else if proto == 1 && data.len() >= l4_start + 4 {
            l4 = L4Info::Icmp { icmp_type: data[l4_start], code: data[l4_start + 1] };
        }
    }
    let p = PacketInfo {
        len: data.len(),
        dst_mac,
        src_mac,
        ether_type,
        ip_start,
        src_ip,
        dst_ip,
        protocol,
        ttl,
        src_port,
        dst_port,
        l4,
    };
    assert(p.dst_mac@ =~= data@.subrange(0, 6));
    assert(p.src_mac@ =~= data@.subrange(6, 12));
    Some(p)
}

/// Where the fields of a decoded untagged Ethernet/IPv4 frame come from:
/// the EtherType from bytes 12-13, the TTL from byte 22, the protocol from
/// byte 23, the addresses from bytes 26-29 and 30-33; for TCP and UDP the
/// ports from the first four bytes after the IPv4 header (whose length is
/// four times the low nibble of byte 14), big-endian, and for TCP the flags
/// from byte 13 of its header.
pub proof fn lemma_ipv4_field_offsets(d: Seq<u8>, p: PacketInfo)
    requires
        decodes(d, p),
        d.len() >= 34,
        d[12] == 0x08 && d[13] == 0x00,
    ensures
        p.ether_type == 0x0800,
        p.ip_start == 14,
        p.ttl == Some(d[22]),
        p.protocol == Some(d[23]),
        p.src_ip == Some(Ipv4Addr { a: d[26], b: d[27], c: d[28], d: d[29] }),
        p.dst_ip == Some(Ipv4Addr { a: d[30], b: d[31], c: d[32], d: d[33] }),
        ({
            let l = 14 + (d[14] % 16) * 4;
            (d[23] == 6 && d.len() >= l + 14) || (d[23] == 17 && d.len() >= l + 8) ==> {
                &&& p.src_port is Some && p.src_port->0 as int == d[l] * 256 + d[l + 1]
                &&& p.dst_port is Some && p.dst_port->0 as int == d[l + 2] * 256 + d[l + 3]
            }
        }),
        ({
            let l = 14 + (d[14] % 16) * 4;
            d[23] == 6 && d.len() >= l + 14 ==> p.l4 == L4Info::Tcp { flags: d[l + 13] }
        }),
{
    assert(be16(d[12], d[13]) == 0x0800);
}

/// A frame with an 802.1Q tag (bytes 12-13 are 0x8100) is read through the
/// tag: its EtherType is in bytes 16-17 and its network header starts at 18.
pub proof fn lemma_vlan_read_through(d: Seq<u8>, p: PacketInfo)
    requires
        decodes(d, p),
        d.len() >= 18,
        d[12] == 0x81 && d[13] == 0x00,
    ensures
        p.ether_type as int == d[16] * 256 + d[17],
        p.ip_start == 18,
{
    assert(be16(d[12], d[13]) == 0x8100);
}

} // verus!
