//! Filter expressions and their evaluation on the header fields of a packet.
use vstd::prelude::*;
use crate::addr::Ipv4Addr;

verus! {

/// The comparison of a `size` condition.
#[derive(Debug, Clone, Copy, PartialEq, Eq, Structural)]
pub enum SizeOp {
    Equal,
    GreaterThan,
    GreaterThanOrEqual,
    LessThan,
    LessThanOrEqual,
}

/// One primitive test of a filter expression.
#[derive(Debug, Clone, Copy, PartialEq, Eq, Structural)]
pub enum FilterCondition {
    Protocol(u8),
    SrcIp(Ipv4Addr),
    DstIp(Ipv4Addr),
    Ip(Ipv4Addr),
    SrcPort(u16),
    DstPort(u16),
    Port(u16),
    PacketSize(SizeOp, usize),
}

/// A packet filter: primitive tests combined by `and`, `or` and `not`.
#[derive(Debug, PartialEq)]
pub enum FilterExpr {
    Any,
    Match(FilterCondition),
    And(Box<FilterExpr>, Box<FilterExpr>),
    Or(Box<FilterExpr>, Box<FilterExpr>),
    Not(Box<FilterExpr>),
}

impl SizeOp {
    /// `size` compared with `val` by this operator.
    pub open spec fn holds(self, size: int, val: int) -> bool {
        match self {
            SizeOp::Equal => size == val,
            SizeOp::GreaterThan => size > val,
            SizeOp::GreaterThanOrEqual => size >= val,
            SizeOp::LessThan => size < val,
            SizeOp::LessThanOrEqual => size <= val,
        }
    }
}

impl FilterCondition {
    /// Whether a packet with the given header fields passes this test.
    /// A field that the packet does not carry (`None`) fails every test on it.
    pub open spec fn holds(
        self,
        pkt_size: usize,
        src_ip: Option<Ipv4Addr>,
        dst_ip: Option<Ipv4Addr>,
        proto: Option<u8>,
        src_port: Option<u16>,
        dst_port: Option<u16>,
    ) -> bool {
        match self {
            FilterCondition::Protocol(p) => proto == Some(p),
            FilterCondition::SrcIp(ip) => src_ip == Some(ip),
            FilterCondition::DstIp(ip) => dst_ip == Some(ip),
            FilterCondition::Ip(ip) => src_ip == Some(ip) || dst_ip == Some(ip),
            FilterCondition::SrcPort(p) => src_port == Some(p),
            FilterCondition::DstPort(p) => dst_port == Some(p),
            FilterCondition::Port(p) => src_port == Some(p) || dst_port == Some(p),
            FilterCondition::PacketSize(op, val) => op.holds(pkt_size as int, val as int),
        }
    }
}

fn opt_eq_u8(x: Option<u8>, y: u8) -> (r: bool)
    ensures
        r == (x == Some(y)),
{
    match x {
        Some(v) => v == y,
        None => false,
    }
}

fn opt_eq_u16(x: Option<u16>, y: u16) -> (r: bool)
    ensures
        r == (x == Some(y)),
{
    match x {
        Some(v) => v == y,
        None => false,
    }
}

fn opt_eq_ip(x: Option<Ipv4Addr>, y: Ipv4Addr) -> (r: bool)
    ensures
        r == (x == Some(y)),
{
    match x {
        Some(v) => v == y,
        None => false,
    }
}

impl Clone for FilterExpr {
    fn clone(&self) -> (r: Self)
        ensures
            r == *self,
        decreases self,
    {
        match self {
            FilterExpr::Any => FilterExpr::Any,
            FilterExpr::Match(c) => FilterExpr::Match(*c),
            FilterExpr::And(l, r) => FilterExpr::And(Box::new((**l).clone()), Box::new((**r).clone())),
            FilterExpr::Or(l, r) => FilterExpr::Or(Box::new((**l).clone()), Box::new((**r).clone())),
            FilterExpr::Not(e) => FilterExpr::Not(Box::new((**e).clone())),
        }
    }
}

impl FilterExpr {
    /// Whether a packet with the given header fields passes the whole expression.
    pub open spec fn accepts(
        self,
        pkt_size: usize,
        src_ip: Option<Ipv4Addr>,
        dst_ip: Option<Ipv4Addr>,
        proto: Option<u8>,
        src_port: Option<u16>,
        dst_port: Option<u16>,
    ) -> bool
        decreases self,
    {
        match self {
            FilterExpr::Any => true,
            FilterExpr::Not(sub) => !sub.accepts(pkt_size, src_ip, dst_ip, proto, src_port, dst_port),
            FilterExpr::And(l, r) => l.accepts(pkt_size, src_ip, dst_ip, proto, src_port, dst_port)
                && r.accepts(pkt_size, src_ip, dst_ip, proto, src_port, dst_port),
            FilterExpr::Or(l, r) => l.accepts(pkt_size, src_ip, dst_ip, proto, src_port, dst_port)
                || r.accepts(pkt_size, src_ip, dst_ip, proto, src_port, dst_port),
            FilterExpr::Match(c) => c.holds(pkt_size, src_ip, dst_ip, proto, src_port, dst_port),
        }
    }

    /// Evaluates the filter on one packet. The EtherType takes no part in the result.
    pub fn matches(
        &self,
        pkt_size: usize,
        _eth_type: u16,
        src_ip: Option<Ipv4Addr>,
        dst_ip: Option<Ipv4Addr>,
        proto: Option<u8>,
        src_port: Option<u16>,
        dst_port: Option<u16>,
    ) -> (r: bool)
        ensures
            r == self.accepts(pkt_size, src_ip, dst_ip, proto, src_port, dst_port),
        decreases self,
    {
        match self {
            FilterExpr::Any => true,
            FilterExpr::Not(sub) => !sub.matches(pkt_size, _eth_type, src_ip, dst_ip, proto, src_port, dst_port),
            FilterExpr::And(left, right) => {
                left.matches(pkt_size, _eth_type, src_ip, dst_ip, proto, src_port, dst_port)
                    && right.matches(pkt_size, _eth_type, src_ip, dst_ip, proto, src_port, dst_port)
            },
            FilterExpr::Or(left, right) => {
                left.matches(pkt_size, _eth_type, src_ip, dst_ip, proto, src_port, dst_port)
                    || right.matches(pkt_size, _eth_type, src_ip, dst_ip, proto, src_port, dst_port)
            },
            FilterExpr::Match(cond) => match cond {
                FilterCondition::Protocol(p) => opt_eq_u8(proto, *p),
                FilterCondition::SrcIp(ip) => opt_eq_ip(src_ip, *ip),
                FilterCondition::DstIp(ip) => opt_eq_ip(dst_ip, *ip),
                FilterCondition::Ip(ip) => opt_eq_ip(src_ip, *ip) || opt_eq_ip(dst_ip, *ip),
                FilterCondition::SrcPort(p) => opt_eq_u16(src_port, *p),
                FilterCondition::DstPort(p) => opt_eq_u16(dst_port, *p),
                FilterCondition::Port(p) => opt_eq_u16(src_port, *p) || opt_eq_u16(dst_port, *p),
                FilterCondition::PacketSize(op, val) => match op {
                    SizeOp::Equal => pkt_size == *val,
                    SizeOp::GreaterThan => pkt_size > *val,
                    SizeOp::GreaterThanOrEqual => pkt_size >= *val,
                    SizeOp::LessThan => pkt_size < *val,
                    SizeOp::LessThanOrEqual => pkt_size <= *val,
                },
            },
        }
    }
}

// ---------------------------------------------------------------------------
// What the filters mean, on every packet.

/// What each condition accepts, on any packet: `host`/`ip` an address on
/// either side, `src`/`dst` on one side; `port` a port on either side,
/// `sport`/`dport` on one side; a protocol number; a frame length compared
/// with a number. A header field that the packet lacks matches nothing.
pub proof fn lemma_condition_meaning(
    len: usize,
    src: Option<Ipv4Addr>,
    dst: Option<Ipv4Addr>,
    proto: Option<u8>,
    sport: Option<u16>,
    dport: Option<u16>,
    a: Ipv4Addr,
    port: u16,
    n: u8,
    v: usize,
)
    ensures
        FilterExpr::Match(FilterCondition::Ip(a)).accepts(len, src, dst, proto, sport, dport) <==> (
        src == Some(a) || dst == Some(a)),
        FilterExpr::Match(FilterCondition::SrcIp(a)).accepts(len, src, dst, proto, sport, dport) <==> src
            == Some(a),
        FilterExpr::Match(FilterCondition::DstIp(a)).accepts(len, src, dst, proto, sport, dport) <==> dst
            == Some(a),
        FilterExpr::Match(FilterCondition::Port(port)).accepts(len, src, dst, proto, sport, dport) <==> (
        sport == Some(port) || dport == Some(port)),
        FilterExpr::Match(FilterCondition::SrcPort(port)).accepts(len, src, dst, proto, sport, dport)
            <==> sport == Some(port),
        FilterExpr::Match(FilterCondition::DstPort(port)).accepts(len, src, dst, proto, sport, dport)
            <==> dport == Some(port),
        FilterExpr::Match(FilterCondition::Protocol(n)).accepts(len, src, dst, proto, sport, dport)
            <==> proto == Some(n),
        FilterExpr::Match(FilterCondition::PacketSize(SizeOp::Equal, v)).accepts(len, src, dst, proto, sport, dport)
            <==> len == v,
        FilterExpr::Match(FilterCondition::PacketSize(SizeOp::GreaterThan, v)).accepts(len, src, dst, proto, sport, dport)
            <==> len > v,
        FilterExpr::Match(FilterCondition::PacketSize(SizeOp::GreaterThanOrEqual, v)).accepts(len, src, dst, proto, sport, dport)
            <==> len >= v,
        FilterExpr::Match(FilterCondition::PacketSize(SizeOp::LessThan, v)).accepts(len, src, dst, proto, sport, dport)
            <==> len < v,
        FilterExpr::Match(FilterCondition::PacketSize(SizeOp::LessThanOrEqual, v)).accepts(len, src, dst, proto, sport, dport)
            <==> len <= v,
{
}

/// `host a` is `src a or dst a`, and `port p` is `sport p or dport p`:
/// neither cares which way the packet goes, so swapping source and
/// destination never changes them.
pub proof fn lemma_either_side(
    len: usize,
    src: Option<Ipv4Addr>,
    dst: Option<Ipv4Addr>,
    proto: Option<u8>,
    sport: Option<u16>,
    dport: Option<u16>,
    a: Ipv4Addr,
    port: u16,
)
    ensures
        FilterExpr::Match(FilterCondition::Ip(a)).accepts(len, src, dst, proto, sport, dport)
            == FilterExpr::Or(
            Box::new(FilterExpr::Match(FilterCondition::SrcIp(a))),
            Box::new(FilterExpr::Match(FilterCondition::DstIp(a))),
        ).accepts(len, src, dst, proto, sport, dport),
        FilterExpr::Match(FilterCondition::Port(port)).accepts(len, src, dst, proto, sport, dport)
            == FilterExpr::Or(
            Box::new(FilterExpr::Match(FilterCondition::SrcPort(port))),
            Box::new(FilterExpr::Match(FilterCondition::DstPort(port))),
        ).accepts(len, src, dst, proto, sport, dport),
        FilterExpr::Match(FilterCondition::Ip(a)).accepts(len, src, dst, proto, sport, dport)
            == FilterExpr::Match(FilterCondition::Ip(a)).accepts(len, dst, src, proto, dport, sport),
        FilterExpr::Match(FilterCondition::Port(port)).accepts(len, src, dst, proto, sport, dport)
            == FilterExpr::Match(FilterCondition::Port(port)).accepts(len, dst, src, proto, dport, sport),
        src == Some(a) ==> FilterExpr::Match(FilterCondition::Ip(a)).accepts(len, src, dst, proto, sport, dport),
        dst == Some(a) ==> FilterExpr::Match(FilterCondition::Ip(a)).accepts(len, src, dst, proto, sport, dport),
{    reveal_with_fuel(FilterExpr::accepts, 2);
}

/// The empty filter accepts every packet; `not`, `and` and `or` combine the
/// verdicts of their parts as negation, conjunction and disjunction.
pub proof fn lemma_combinators(
    e1: FilterExpr,
    e2: FilterExpr,
    len: usize,
    src: Option<Ipv4Addr>,
    dst: Option<Ipv4Addr>,
    proto: Option<u8>,
    sport: Option<u16>,
    dport: Option<u16>,
)
    ensures
        FilterExpr::Any.accepts(len, src, dst, proto, sport, dport),
        FilterExpr::Not(Box::new(e1)).accepts(len, src, dst, proto, sport, dport) == !e1.accepts(
            len,
            src,
            dst,
            proto,
            sport,
            dport,
        ),
        FilterExpr::And(Box::new(e1), Box::new(e2)).accepts(len, src, dst, proto, sport, dport) == (
        e1.accepts(len, src, dst, proto, sport, dport) && e2.accepts(len, src, dst, proto, sport, dport)),
        FilterExpr::Or(Box::new(e1), Box::new(e2)).accepts(len, src, dst, proto, sport, dport) == (
        e1.accepts(len, src, dst, proto, sport, dport) || e2.accepts(len, src, dst, proto, sport, dport)),
{
}

} // verus!
