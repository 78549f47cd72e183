//! Conversations between two endpoints: direction-independent keys and the
//! flow table with per-direction counters and TCP state.
use vstd::prelude::*;
use std::collections::HashMap;
use vstd::std_specs::hash::spec_hash_map_iter;
use vstd::std_specs::iter::IteratorSpec;
use std::time::Instant;
use crate::addr::Ipv4Addr;
use crate::packet::{L4Info, PacketInfo};
use crate::text::{chars_eq_lit, str_chars};

verus! {

/// A conversation between two endpoints, independent of direction: endpoint A
/// is never ordered after endpoint B.
#[derive(Debug, Clone, Copy, Hash, PartialEq, Eq, Structural)]
pub struct FlowKey {
    pub ip_a: Ipv4Addr,
    pub port_a: u16,
    pub ip_b: Ipv4Addr,
    pub port_b: u16,
    pub protocol: u8,
}

/// The order of endpoints: by address, then by port.
pub open spec fn endpoint_le(ip1: Ipv4Addr, port1: u16, ip2: Ipv4Addr, port2: u16) -> bool {
    ip1.value() < ip2.value() || (ip1.value() == ip2.value() && port1 <= port2)
}

impl FlowKey {
    /// The key and direction that `canonical` gives for one packet.
    pub open spec fn canonical_spec(
        src_ip: Ipv4Addr,
        src_port: u16,
        dst_ip: Ipv4Addr,
        dst_port: u16,
        proto: u8,
    ) -> (FlowKey, bool) {
        if endpoint_le(src_ip, src_port, dst_ip, dst_port) {
            (FlowKey { ip_a: src_ip, port_a: src_port, ip_b: dst_ip, port_b: dst_port, protocol: proto }, true)
        } else {
            (FlowKey { ip_a: dst_ip, port_a: dst_port, ip_b: src_ip, port_b: src_port, protocol: proto }, false)
        }
    }

    /// The direction-independent key of a packet, and whether the packet goes
    /// from endpoint A to endpoint B (`true`) or back.
    pub fn canonical(src_ip: Ipv4Addr, src_port: u16, dst_ip: Ipv4Addr, dst_port: u16, proto: u8) -> (r: (Self, bool))
        ensures
            r == Self::canonical_spec(src_ip, src_port, dst_ip, dst_port, proto),
    {
        let s = src_ip.to_bits();
        let d = dst_ip.to_bits();
        if s < d || (s == d && src_port <= dst_port) {
            (FlowKey { ip_a: src_ip, port_a: src_port, ip_b: dst_ip, port_b: dst_port, protocol: proto }, true)
        } else {
            (FlowKey { ip_a: dst_ip, port_a: dst_port, ip_b: src_ip, port_b: src_port, protocol: proto }, false)
        }
    }
}

/// Both directions of a conversation share one key, and when the endpoints
/// differ the two directions are told apart by the flag.
pub proof fn lemma_canonical_symmetric(
    src_ip: Ipv4Addr,
    src_port: u16,
    dst_ip: Ipv4Addr,
    dst_port: u16,
    proto: u8,
)
    requires
        src_ip != dst_ip || src_port != dst_port,
    ensures
        FlowKey::canonical_spec(src_ip, src_port, dst_ip, dst_port, proto).0
            == FlowKey::canonical_spec(dst_ip, dst_port, src_ip, src_port, proto).0,
        FlowKey::canonical_spec(src_ip, src_port, dst_ip, dst_port, proto).1
            != FlowKey::canonical_spec(dst_ip, dst_port, src_ip, src_port, proto).1,
{
    crate::addr::lemma_value_injective(src_ip, dst_ip);
}

/// A reply (the same protocol, the endpoints swapped) belongs to the same
/// flow as the packet it answers, counted in the other direction.
pub proof fn lemma_reply_same_flow(p: PacketInfo, q: PacketInfo)
    requires
        packet_flow(p) is Some,
        q.src_ip == p.dst_ip,
        q.dst_ip == p.src_ip,
        q.src_port == p.dst_port,
        q.dst_port == p.src_port,
        q.protocol == p.protocol,
        p.src_ip != p.dst_ip || p.src_port != p.dst_port,
    ensures
        packet_flow(q) is Some,
        (packet_flow(q)->0).0 == (packet_flow(p)->0).0,
        (packet_flow(q)->0).1 != (packet_flow(p)->0).1,
{
    lemma_canonical_symmetric(
        p.src_ip->0,
        p.src_port->0,
        p.dst_ip->0,
        p.dst_port->0,
        p.protocol->0,
    );
}

/// The key holds the packet's two endpoints, A not after B, and its protocol.
pub proof fn lemma_canonical_ordered(
    src_ip: Ipv4Addr,
    src_port: u16,
    dst_ip: Ipv4Addr,
    dst_port: u16,
    proto: u8,
)
    ensures
        ({
            let (k, fwd) = FlowKey::canonical_spec(src_ip, src_port, dst_ip, dst_port, proto);
            &&& endpoint_le(k.ip_a, k.port_a, k.ip_b, k.port_b)
            &&& k.protocol == proto
            &&& fwd ==> (k.ip_a == src_ip && k.port_a == src_port && k.ip_b == dst_ip && k.port_b == dst_port)
            &&& !fwd ==> (k.ip_a == dst_ip && k.port_a == dst_port && k.ip_b == src_ip && k.port_b == src_port)
        }),
{
}


/// `std::time::Instant`, a moment on the monotonic clock; the flow table only
/// stores it.
#[verifier::external_type_specification]
#[verifier::external_body]
pub struct ExInstant(Instant);

/// Traffic counters and connection state of one flow.
#[derive(Debug)]
pub struct FlowStats {
    pub pkts_fwd: u64,
    pub pkts_rev: u64,
    pub bytes_fwd: u64,
    pub bytes_rev: u64,
    pub first_seen: Instant,
    pub last_seen: Instant,
    pub tcp_state: String,
}

impl FlowKey {
    /// The key packed into one integer; distinct keys give distinct numbers.
    pub open spec fn code(self) -> u128 {
        ((self.ip_a.value() as u128) << 72u128) | ((self.port_a as u128) << 56u128) | ((
        self.ip_b.value() as u128) << 24u128) | ((self.port_b as u128) << 8u128) | (
        self.protocol as u128)
    }

    /// The key packed into one integer (see `code`).
    pub fn code_exec(&self) -> (r: u128)
        ensures
            r == self.code(),
    {
        ((self.ip_a.to_bits() as u128) << 72u128) | ((self.port_a as u128) << 56u128) | ((
        self.ip_b.to_bits() as u128) << 24u128) | ((self.port_b as u128) << 8u128) | (
        self.protocol as u128)
    }
}

proof fn lemma_code_fields(a: u32, pa: u16, b: u32, pb: u16, pr: u8, c: u128)
    requires
        c == ((a as u128) << 72u128) | ((pa as u128) << 56u128) | ((b as u128) << 24u128) | ((
        pb as u128) << 8u128) | (pr as u128),
    ensures
        (c >> 72u128) as u32 == a,
        ((c >> 56u128) & 0xffffu128) as u16 == pa,
        ((c >> 24u128) & 0xffffffffu128) as u32 == b,
        ((c >> 8u128) & 0xffffu128) as u16 == pb,
        (c & 0xffu128) as u8 == pr,
{
    assert((c >> 72u128) as u32 == a) by (bit_vector)
        requires
            c == ((a as u128) << 72u128) | ((pa as u128) << 56u128) | ((b as u128) << 24u128) | ((
            pb as u128) << 8u128) | (pr as u128),
    ;
    assert(((c >> 56u128) & 0xffffu128) as u16 == pa) by (bit_vector)
        requires
            c == ((a as u128) << 72u128) | ((pa as u128) << 56u128) | ((b as u128) << 24u128) | ((
            pb as u128) << 8u128) | (pr as u128),
    ;
    assert(((c >> 24u128) & 0xffffffffu128) as u32 == b) by (bit_vector)
        requires
            c == ((a as u128) << 72u128) | ((pa as u128) << 56u128) | ((b as u128) << 24u128) | ((
            pb as u128) << 8u128) | (pr as u128),
    ;
    assert(((c >> 8u128) & 0xffffu128) as u16 == pb) by (bit_vector)
        requires
            c == ((a as u128) << 72u128) | ((pa as u128) << 56u128) | ((b as u128) << 24u128) | ((
            pb as u128) << 8u128) | (pr as u128),
    ;
    assert((c & 0xffu128) as u8 == pr) by (bit_vector)
        requires
            c == ((a as u128) << 72u128) | ((pa as u128) << 56u128) | ((b as u128) << 24u128) | ((
            pb as u128) << 8u128) | (pr as u128),
    ;
}

/// Distinct keys have distinct codes.
pub proof fn lemma_code_injective(k1: FlowKey, k2: FlowKey)
    ensures
        k1.code() == k2.code() ==> k1 == k2,
{
    let (a1, b1, a2, b2) = (k1.ip_a.value() as u32, k1.ip_b.value() as u32, k2.ip_a.value() as u32, k2.ip_b.value() as u32);
    lemma_code_fields(a1, k1.port_a, b1, k1.port_b, k1.protocol, k1.code());
    lemma_code_fields(a2, k2.port_a, b2, k2.port_b, k2.protocol, k2.code());
    if k1.code() == k2.code() {
        crate::addr::lemma_value_injective(k1.ip_a, k2.ip_a);
        crate::addr::lemma_value_injective(k1.ip_b, k2.ip_b);
    }
}


/// The TCP state a flow starts in: `SYN_SENT` for TCP, `ACTIVE` otherwise.
pub open spec fn initial_state(proto: u8) -> Seq<char> {
    if proto == 6 {
        "SYN_SENT"@
    } else {
        "ACTIVE"@
    }
}

/// The state of a TCP flow after one more packet: a reset (RST) gives `RESET`,
/// else a FIN gives `FIN_WAIT`, else an ACK turns `SYN_SENT` into
/// `ESTABLISHED`. Packets of other protocols, and TCP packets whose header
/// was not read, leave the state as it is.
pub open spec fn next_state(state: Seq<char>, proto: u8, l4: L4Info) -> Seq<char> {
    match l4 {
        L4Info::Tcp { flags } => if proto != 6 {
            state
        } else if flags & 0x04 != 0 {
            "RESET"@
        } else if flags & 0x01 != 0 {
            "FIN_WAIT"@
        } else if flags & 0x10 != 0 && state == "SYN_SENT"@ {
            "ESTABLISHED"@
        } else {
            state
        },
        _ => state,
    }
}

/// `new` is `old` (or a fresh flow first seen `now` when there was none)
/// after one more packet of `len` bytes in the given direction at `now`.
pub open spec fn stats_step(
    old: Option<FlowStats>,
    new: FlowStats,
    fwd: bool,
    len: int,
    proto: u8,
    l4: L4Info,
    now: Instant,
) -> bool {
    let (pf, pr, bf, br, first, state) = match old {
        Some(s) => (s.pkts_fwd as int, s.pkts_rev as int, s.bytes_fwd as int, s.bytes_rev as int, s.first_seen, s.tcp_state@),
        None => (0int, 0int, 0int, 0int, now, initial_state(proto)),
    };
    &&& new.pkts_fwd == (if fwd { pf + 1 } else { pf })
    &&& new.pkts_rev == (if fwd { pr } else { pr + 1 })
    &&& new.bytes_fwd == (if fwd { bf + len } else { bf })
    &&& new.bytes_rev == (if fwd { br } else { br + len })
    &&& new.first_seen == first
    &&& new.last_seen == now
    &&& new.tcp_state@ == next_state(state, proto, l4)
}

/// The flow key and direction of a decoded packet, when it has both
/// addresses, both ports and a protocol.
pub open spec fn packet_flow(p: PacketInfo) -> Option<(FlowKey, bool)> {
    match (p.src_ip, p.dst_ip, p.src_port, p.dst_port, p.protocol) {
        (Some(s), Some(d), Some(sp), Some(dp), Some(pr)) => Some(FlowKey::canonical_spec(s, sp, d, dp, pr)),
        _ => None,
    }
}

impl Clone for FlowStats {
    fn clone(&self) -> (r: Self)
        ensures
            r.pkts_fwd == self.pkts_fwd && r.pkts_rev == self.pkts_rev,
            r.bytes_fwd == self.bytes_fwd && r.bytes_rev == self.bytes_rev,
            r.first_seen == self.first_seen && r.last_seen == self.last_seen,
            r.tcp_state@ == self.tcp_state@,
    {
        FlowStats {
            pkts_fwd: self.pkts_fwd,
            pkts_rev: self.pkts_rev,
            bytes_fwd: self.bytes_fwd,
            bytes_rev: self.bytes_rev,
            first_seen: self.first_seen,
            last_seen: self.last_seen,
            tcp_state: self.tcp_state.clone(),
        }
    }
}

impl FlowStats {
    /// Whether the totals over both directions fit in 64 bits.
    pub fn totals_fit(&self) -> (r: bool)
        ensures
            r == (self.pkts_fwd + self.pkts_rev <= u64::MAX && self.bytes_fwd + self.bytes_rev
                <= u64::MAX),
    {
        self.pkts_fwd <= u64::MAX - self.pkts_rev && self.bytes_fwd <= u64::MAX - self.bytes_rev
    }

    /// The counters of a flow before its first packet.
    pub fn new(proto: u8, now: Instant) -> (r: Self)
        ensures
            r.pkts_fwd == 0 && r.pkts_rev == 0 && r.bytes_fwd == 0 && r.bytes_rev == 0,
            r.first_seen == now && r.last_seen == now,
            r.tcp_state@ == initial_state(proto),
    {
        FlowStats {
            pkts_fwd: 0,
            pkts_rev: 0,
            bytes_fwd: 0,
            bytes_rev: 0,
            first_seen: now,
            last_seen: now,
            tcp_state: if proto == 6 {
                String::from_str("SYN_SENT")
            } else {
                String::from_str("ACTIVE")
            },
        }
    }

    /// Whether one more packet of `len` bytes in the given direction fits in
    /// the counters.
    pub open spec fn has_room(&self, fwd: bool, len: int) -> bool {
        if fwd {
            self.pkts_fwd + 1 <= u64::MAX && self.bytes_fwd + len <= u64::MAX
        } else {
            self.pkts_rev + 1 <= u64::MAX && self.bytes_rev + len <= u64::MAX
        }
    }

    /// Counts one more packet and updates the TCP state.
    pub fn record(&mut self, fwd: bool, len: usize, proto: u8, l4: L4Info, now: Instant)
        requires
            old(self).has_room(fwd, len as int),
        ensures
            stats_step(Some(*old(self)), *final(self), fwd, len as int, proto, l4, now),
    {
        self.last_seen = now;
        if fwd {
            self.pkts_fwd = self.pkts_fwd + 1;
            self.bytes_fwd = self.bytes_fwd + len as u64;
        } else {
            self.pkts_rev = self.pkts_rev + 1;
            self.bytes_rev = self.bytes_rev + len as u64;
        }
        if proto == 6 {
            if let L4Info::Tcp { flags } = l4 {
                if flags & 0x04 != 0 {
                    self.tcp_state = String::from_str("RESET");
                } else if flags & 0x01 != 0 {
                    self.tcp_state = String::from_str("FIN_WAIT");
                } else if flags & 0x10 != 0 {
                    let st = str_chars(self.tcp_state.as_str());
                    if chars_eq_lit(st.as_slice(), "SYN_SENT") {
                        self.tcp_state = String::from_str("ESTABLISHED");
                    }
                }
            }
        }
    }
}

/// How one more packet moves the TCP state of a flow, read off the flag
/// bits of a TCP packet: RST (0x04) resets the flow; otherwise FIN (0x01)
/// closes it; otherwise ACK (0x10) establishes a flow that was `SYN_SENT`,
/// whatever the other bits (SYN, PSH, URG, ...) are; otherwise the state
/// stays. Only the RST, FIN and ACK bits matter, and packets of other
/// protocols never move the state.
pub proof fn lemma_tcp_state_moves(
    old: FlowStats,
    new: FlowStats,
    fwd: bool,
    len: int,
    proto: u8,
    flags: u8,
    now: Instant,
)
    requires
        stats_step(Some(old), new, fwd, len, proto, L4Info::Tcp { flags }, now),
    ensures
        proto != 6 ==> new.tcp_state@ == old.tcp_state@,
        proto == 6 && flags & 0x04 != 0 ==> new.tcp_state@ == "RESET"@,
        proto == 6 && flags & 0x04 == 0 && flags & 0x01 != 0 ==> new.tcp_state@ == "FIN_WAIT"@,
        proto == 6 && flags & 0x04 == 0 && flags & 0x01 == 0 && flags & 0x10 != 0
            && old.tcp_state@ == "SYN_SENT"@ ==> new.tcp_state@ == "ESTABLISHED"@,
        proto == 6 && flags & 0x04 == 0 && flags & 0x01 == 0 && (flags & 0x10 == 0
            || old.tcp_state@ != "SYN_SENT"@) ==> new.tcp_state@ == old.tcp_state@,
        new.tcp_state@ == next_state(old.tcp_state@, proto, L4Info::Tcp { flags: flags & 0x15 }),
{
    let m = flags & 0x15;
    assert(m & 0x04 == flags & 0x04 && m & 0x01 == flags & 0x01 && m & 0x10 == flags & 0x10)
        by (bit_vector)
        requires
            m == flags & 0x15,
    ;
}

/// A packet without a TCP header read, or of another protocol, only counts:
/// the state of its flow stays as it was.
pub proof fn lemma_state_kept_without_tcp(
    old: FlowStats,
    new: FlowStats,
    fwd: bool,
    len: int,
    proto: u8,
    l4: L4Info,
    now: Instant,
)
    requires
        stats_step(Some(old), new, fwd, len, proto, l4, now),
        !(l4 is Tcp) || proto != 6,
    ensures
        new.tcp_state@ == old.tcp_state@,
{
}

/// A flow's first packet starts it from `SYN_SENT` for TCP, `ACTIVE` for
/// anything else: a first TCP packet with ACK and neither RST nor FIN gives
/// `ESTABLISHED`, a first TCP packet with none of RST, FIN, ACK stays
/// `SYN_SENT`, and a first packet of another protocol gives `ACTIVE`.
pub proof fn lemma_first_packet_state(new: FlowStats, fwd: bool, len: int, proto: u8, l4: L4Info, now: Instant)
    requires
        stats_step(None, new, fwd, len, proto, l4, now),
    ensures
        proto != 6 ==> new.tcp_state@ == "ACTIVE"@,
        proto == 6 && (l4 matches L4Info::Tcp { flags } && flags & 0x15 == 0x10) ==> new.tcp_state@
            == "ESTABLISHED"@,
        proto == 6 && (l4 matches L4Info::Tcp { flags } && flags & 0x15 == 0) ==> new.tcp_state@
            == "SYN_SENT"@,
        proto == 6 && !(l4 is Tcp) ==> new.tcp_state@ == "SYN_SENT"@,
{
    if let L4Info::Tcp { flags } = l4 {
        let m = flags & 0x15;
        assert(m == 0x10 ==> (flags & 0x04 == 0 && flags & 0x01 == 0 && flags & 0x10 != 0))
            by (bit_vector)
            requires
                m == flags & 0x15,
        ;
        assert(m == 0 ==> (flags & 0x04 == 0 && flags & 0x01 == 0 && flags & 0x10 == 0))
            by (bit_vector)
            requires
                m == flags & 0x15,
        ;
    }
}

/// One more packet counts in its own direction only: a forward packet adds
/// one packet and its length to the forward counters, a reverse packet to
/// the reverse ones, and the other direction's counters stay; the flow keeps
/// when it was first seen and was last seen now.
pub proof fn lemma_counts_move(
    old: FlowStats,
    new: FlowStats,
    fwd: bool,
    len: int,
    proto: u8,
    l4: L4Info,
    now: Instant,
)
    requires
        stats_step(Some(old), new, fwd, len, proto, l4, now),
    ensures
        fwd ==> new.pkts_fwd == old.pkts_fwd + 1 && new.bytes_fwd == old.bytes_fwd + len
            && new.pkts_rev == old.pkts_rev && new.bytes_rev == old.bytes_rev,
        !fwd ==> new.pkts_rev == old.pkts_rev + 1 && new.bytes_rev == old.bytes_rev + len
            && new.pkts_fwd == old.pkts_fwd && new.bytes_fwd == old.bytes_fwd,
        new.pkts_fwd + new.pkts_rev == old.pkts_fwd + old.pkts_rev + 1,
        new.bytes_fwd + new.bytes_rev == old.bytes_fwd + old.bytes_rev + len,
        new.first_seen == old.first_seen,
        new.last_seen == now,
{
}

/// The conversations seen so far, each under its direction-independent key.
pub struct FlowTable {
    flows: HashMap<u128, (FlowKey, FlowStats)>,
}

/// The flows `after` are the flows `before` with `p` counted at time `now`:
/// its flow is created at its first packet and its counters and state
/// advance, every other flow stays as it was; a packet without both
/// addresses, both ports and a protocol changes nothing.
pub open spec fn records_packet(
    before: Map<FlowKey, FlowStats>,
    after: Map<FlowKey, FlowStats>,
    p: PacketInfo,
    now: Instant,
) -> bool {
    match packet_flow(p) {
        Some((key, fwd)) => {
            &&& after.dom() == before.dom().insert(key)
            &&& forall|k: FlowKey| k != key && #[trigger] before.contains_key(k) ==> after[k] == before[k]
            &&& stats_step(
                if before.contains_key(key) { Some(before[key]) } else { None },
                after[key],
                fwd,
                p.len as int,
                p.protocol->0,
                p.l4,
                now,
            )
        },
        None => after == before,
    }
}

impl FlowTable {
    /// Each entry is filed under the code of its own key.
    #[verifier::type_invariant]
    closed spec fn wf(&self) -> bool {
        &&& forall|c: u128| #[trigger] self.flows@.contains_key(c) ==> self.flows@[c].0.code() == c
        &&& forall|c: u128| #[trigger] self.flows@.contains_key(c) ==> {
            let k = self.flows@[c].0;
            endpoint_le(k.ip_a, k.port_a, k.ip_b, k.port_b)
        }
    }

    /// Every flow is filed under its direction-independent key: endpoint A
    /// is never ordered after endpoint B.
    pub open spec fn keys_canonical(&self) -> bool {
        forall|k: FlowKey| #[trigger] self.flows().contains_key(k) ==> endpoint_le(
            k.ip_a,
            k.port_a,
            k.ip_b,
            k.port_b,
        )
    }

    proof fn lemma_keys_canonical(&self)
        requires
            self.wf(),
        ensures
            self.keys_canonical(),
    {
        assert forall|k: FlowKey| #[trigger] self.flows().contains_key(k) implies endpoint_le(
            k.ip_a,
            k.port_a,
            k.ip_b,
            k.port_b,
        ) by {
            lemma_code_injective(self.flows@[k.code()].0, k);
        }
    }

    /// The flows by key.
    pub closed spec fn flows(&self) -> Map<FlowKey, FlowStats> {
        Map::new(
            |k: FlowKey| self.flows@.contains_key(k.code()),
            |k: FlowKey| self.flows@[k.code()].1,
        )
    }

    /// An empty table.
    pub fn new() -> (t: Self)
        ensures
            t.flows() == Map::<FlowKey, FlowStats>::empty(),
            t.keys_canonical(),
    {
        let t = FlowTable { flows: HashMap::new() };
        assert(t.flows() =~= Map::<FlowKey, FlowStats>::empty());
        t
    }

    /// The number of flows.
    pub fn len(&self) -> (n: usize)
        ensures
            n == self.flows().dom().len(),
    {
        broadcast use vstd::std_specs::hash::group_hash_axioms;
        proof {
            use_type_invariant(self);
            self.lemma_dom_len();
        }
        self.flows.len()
    }

    proof fn lemma_dom_len(&self)
        requires
            self.wf(),
        ensures
            self.flows().dom().len() == self.flows@.dom().len(),
            self.flows().dom().finite(),
    {
        broadcast use vstd::std_specs::hash::group_hash_axioms;
        let g = |c: u128| self.flows@[c].0;
        let y = self.flows@.dom();
        let d = self.flows().dom();
        assert(vstd::relations::injective_on(g, y));
        assert(y.map(g) =~= d) by {
            assert forall|k: FlowKey| d.contains(k) implies y.map(g).contains(k) by {
                assert(y.contains(k.code()));
                lemma_code_injective(g(k.code()), k);
            }
        }
        vstd::set_lib::lemma_map_size(y, d, g);
    }

    /// Every flow with its key, in no particular order.
    pub fn entries(&self) -> (r: Vec<(FlowKey, &FlowStats)>)
        ensures
            r@.len() == self.flows().dom().len(),
            forall|i: int|
                0 <= i < r@.len() ==> self.flows().contains_key(#[trigger] r@[i].0) && *r@[i].1
                    == self.flows()[r@[i].0],
            forall|k: FlowKey|
                #[trigger] self.flows().contains_key(k) ==> exists|i: int|
                    0 <= i < r@.len() && r@[i].0 == k,
    {
        broadcast use vstd::std_specs::hash::group_hash_axioms;
        let mut r: Vec<(FlowKey, &FlowStats)> = Vec::new();
        let ghost m = self.flows@;
        proof {
            use_type_invariant(self);
            self.lemma_dom_len();
        }
        for x in it: self.flows.iter()
            invariant
                r@.len() == it.index(),
                it.seq() == spec_hash_map_iter(&self.flows).remaining(),
                self.wf(),
                forall|i: int|
                    0 <= i < r@.len() ==> r@[i].0 == (it.seq()[i].1).0 && r@[i].1 == &(it.seq()[i].1).1,
        {
            r.push((x.1.0, &x.1.1));
        }
        let ghost v = spec_hash_map_iter(&self.flows).remaining();
        assert forall|i: int| 0 <= i < r@.len() implies self.flows().contains_key(#[trigger] r@[i].0) && *r@[i].1
            == self.flows()[r@[i].0] by {
            assert(m.contains_key(*v[i].0) && m[*v[i].0] == *v[i].1);
        }
        assert forall|k: FlowKey| #[trigger] self.flows().contains_key(k) implies exists|i: int|
            0 <= i < r@.len() && r@[i].0 == k by {
            let c = k.code();
            assert(m.contains_key(c));
            assert(v.contains((&c, &m[c])));
            let i = choose|i: int| 0 <= i < v.len() && v[i] == (&c, &m[c]);
            lemma_code_injective(m[c].0, k);
            assert(r@[i].0 == k);
        }
        r
    }

    /// The counters of the flow with key `key`, if it was seen.
    pub fn get(&self, key: &FlowKey) -> (r: Option<&FlowStats>)
        ensures
            match r {
                Some(s) => self.flows().contains_key(*key) && *s == self.flows()[*key],
                None => !self.flows().contains_key(*key),
            },
    {
        broadcast use vstd::std_specs::hash::group_hash_axioms;
        proof {
            use_type_invariant(self);
        }
        let c = key.code_exec();
        match self.flows.get(&c) {
            Some(entry) => Some(&entry.1),
            None => None,
        }
    }

    /// Whether recording `p` keeps every counter in range.
    pub open spec fn has_room(&self, p: PacketInfo) -> bool {
        match packet_flow(p) {
            Some((key, fwd)) => self.flows().contains_key(key) ==> self.flows()[key].has_room(fwd, p.len as int),
            None => true,
        }
    }

    /// Whether recording `p` keeps every counter in range.
    pub fn can_record(&self, p: &PacketInfo) -> (r: bool)
        ensures
            r == self.has_room(*p),
    {
        match (p.src_ip, p.dst_ip, p.src_port, p.dst_port, p.protocol) {
            (Some(s_ip), Some(d_ip), Some(s_port), Some(d_port), Some(proto)) => {
                let (key, is_fwd) = FlowKey::canonical(s_ip, s_port, d_ip, d_port, proto);
                match self.get(&key) {
                    Some(st) => {
                        let len = p.len as u64;
                        if is_fwd {
                            st.pkts_fwd < u64::MAX && st.bytes_fwd <= u64::MAX - len
                        } else {
                            st.pkts_rev < u64::MAX && st.bytes_rev <= u64::MAX - len
                        }
                    },
                    None => true,
                }
            },
            _ => true,
        }
    }

    /// Counts a decoded packet in its flow, creating the flow at its first
    /// packet. Packets without both addresses, both ports and a protocol are
    /// not counted.
    pub fn record_packet(&mut self, p: &PacketInfo, now: Instant)
        requires
            old(self).has_room(*p),
        ensures
            final(self).keys_canonical(),
            records_packet(old(self).flows(), final(self).flows(), *p, now),
    {
        broadcast use vstd::std_specs::hash::group_hash_axioms;
        proof {
            use_type_invariant(&*self);
        }
        match (p.src_ip, p.dst_ip, p.src_port, p.dst_port, p.protocol) {
            (Some(s_ip), Some(d_ip), Some(s_port), Some(d_port), Some(proto)) => {
                let (key, is_fwd) = FlowKey::canonical(s_ip, s_port, d_ip, d_port, proto);
                proof {
                    lemma_canonical_ordered(s_ip, s_port, d_ip, d_port, proto);
                }
                let c = key.code_exec();
                let mut m: HashMap<u128, (FlowKey, FlowStats)> = HashMap::new();
                std::mem::swap(&mut m, &mut self.flows);
                let mut stats = match m.remove(&c) {
                    Some(entry) => entry.1,
                    None => FlowStats::new(proto, now),
                };
                stats.record(is_fwd, p.len, proto, p.l4, now);
                m.insert(c, (key, stats));
                self.flows = m;
                proof {
                    self.lemma_keys_canonical();
                    assert forall|k: FlowKey| #[trigger] self.flows().contains_key(k) <==> old(self).flows().dom().insert(key).contains(k) by {
                        lemma_code_injective(k, key);
                    }
                    assert(self.flows().dom() =~= old(self).flows().dom().insert(key));
                    assert forall|k: FlowKey| k != key && #[trigger] old(self).flows().contains_key(k)
                        implies self.flows()[k] == old(self).flows()[k] by {
                        lemma_code_injective(k, key);
                    }
                }
            },
            _ => {
                assert(self.flows() =~= old(self).flows());
                proof {
                    self.lemma_keys_canonical();
                }
            },
        }
    }
}

} // verus!
