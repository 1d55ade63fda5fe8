//! Flows: packets grouped into conversations, and the per-flow health, direction
//! and TCP timing analysis.
use vstd::prelude::*;
use crate::pcap::{
    canonical_of, endpoint_lt, ip_less, ip_lt, ip_text, ipv6_seg, push_ip, FlowKey, IpAddr, L4Proto,
    PacketRow,
};
use crate::text::{dec_seq, push_decimal, push_str, string_of};

verus! {

pub const TCP_FLAG_FIN: u16 = 0x01;
pub const TCP_FLAG_SYN: u16 = 0x02;
pub const TCP_FLAG_RST: u16 = 0x04;
pub const TCP_FLAG_ACK: u16 = 0x10;

#[derive(Debug, Clone, Copy, PartialEq, Eq, Structural)]
pub enum HealthBadge {
    Green,
    Yellow,
    Red,
}

#[derive(Debug, Clone, Copy, PartialEq, Eq, Structural)]
pub enum AsymmetryLabel {
    AtoBHeavy,
    BtoAHeavy,
    Balanced,
}

#[derive(Debug, Clone, Copy, PartialEq, Eq, Structural)]
pub struct TcpTiming {
    /// SYN → SYN-ACK delta in microseconds.
    pub handshake_rtt_us: Option<i64>,
    /// SYN-ACK → first data packet in microseconds.
    pub server_think_us: Option<i64>,
    /// First data → last data in microseconds.
    pub data_transfer_us: Option<i64>,
}

#[derive(Debug, Clone, Copy, PartialEq, Eq, Structural)]
pub struct FlowAnalysis {
    pub health: HealthBadge,
    pub asymmetry: AsymmetryLabel,
    pub tcp_timing: Option<TcpTiming>,
}

#[derive(Debug, Clone, Copy, PartialEq, Eq, Structural)]
pub struct DirStats {
    pub packets: u64,
    pub bytes: u64,
}

pub struct FlowStats {
    /// The canonical (conversation) key.
    pub key: FlowKey,
    pub total_packets: u64,
    pub total_bytes: u64,
    pub a_to_b: DirStats,
    pub b_to_a: DirStats,
    pub packet_indices: Vec<usize>,
    pub analysis: Option<FlowAnalysis>,
    /// Earliest packet time of the flow (nanoseconds since the Unix epoch).
    pub first_ts: Option<i64>,
    /// Latest packet time of the flow (nanoseconds since the Unix epoch).
    pub last_ts: Option<i64>,
}

pub struct FlowIndex {
    pub flows: Vec<FlowStats>,
}

// ------------------------------------------------------------ local side

/// RFC 1918 private, loopback, link-local or carrier-grade NAT (100.64/10) IPv4;
/// unique-local, loopback or unicast link-local IPv6.
pub open spec fn is_local_ip(ip: IpAddr) -> bool {
    match ip {
        IpAddr::V4(v) => {
            let o0 = v / 16777216;
            let o1 = (v / 65536) % 256;
            ||| o0 == 10
            ||| (o0 == 172 && 16 <= o1 <= 31)
            ||| (o0 == 192 && o1 == 168)
            ||| o0 == 127
            ||| (o0 == 169 && o1 == 254)
            ||| (o0 == 100 && 64 <= o1 <= 127)
        },
        IpAddr::V6(b) => {
            let s0 = ipv6_seg(b, 0);
            ||| (s0 / 512) == (0xfc00u16 / 512)
            ||| b == 1
            ||| (s0 / 64) == (0xfe80u16 / 64)
        },
    }
}

pub fn is_likely_local_ip(ip: IpAddr) -> (r: bool)
    ensures
        r == is_local_ip(ip),
{
    match ip {
        IpAddr::V4(v) => {
            let o0 = v / 16777216;
            let o1 = (v / 65536) % 256;
            o0 == 10 || (o0 == 172 && 16 <= o1 && o1 <= 31) || (o0 == 192 && o1 == 168) || o0 == 127
                || (o0 == 169 && o1 == 254) || (o0 == 100 && 64 <= o1 && o1 <= 127)
        },
        IpAddr::V6(b) => {
            let s0 = ((b >> 112u32) & 0xffff) as u16;
            assert(s0 == ipv6_seg(b, 0));
            (s0 / 512) == (0xfc00u16 / 512) || b == 1 || (s0 / 64) == (0xfe80u16 / 64)
        },
    }
}

#[derive(Debug, Clone, Copy, PartialEq, Eq, Structural)]
pub enum LocalSide {
    A,
    B,
}

pub open spec fn local_side(a: IpAddr, b: IpAddr) -> Option<LocalSide> {
    if is_local_ip(a) && !is_local_ip(b) {
        Some(LocalSide::A)
    } else if !is_local_ip(a) && is_local_ip(b) {
        Some(LocalSide::B)
    } else {
        None
    }
}

/// Which endpoint is on the local network, when exactly one of them looks local.
pub fn infer_local_side(a: IpAddr, b: IpAddr) -> (r: Option<LocalSide>)
    ensures
        r == local_side(a, b),
{
    let a_local = is_likely_local_ip(a);
    let b_local = is_likely_local_ip(b);
    if a_local && !b_local {
        Some(LocalSide::A)
    } else if !a_local && b_local {
        Some(LocalSide::B)
    } else {
        None
    }
}

pub open spec fn opt_str(o: Option<&str>) -> Option<Seq<char>> {
    match o {
        Some(s) => Some(s@),
        None => None,
    }
}

/// Compact direction suffix: `UL`/`DL` when the local side is known, `A>B`/`B>A` otherwise.
pub open spec fn compact_suffix_spec(key: FlowKey, a: Option<FlowAnalysis>) -> Option<Seq<char>> {
    match a {
        None => None,
        Some(an) => match an.asymmetry {
            AsymmetryLabel::Balanced => None,
            AsymmetryLabel::AtoBHeavy => Some(
                match local_side(key.src, key.dst) {
                    Some(LocalSide::A) => "UL"@,
                    Some(LocalSide::B) => "DL"@,
                    None => "A>B"@,
                },
            ),
            AsymmetryLabel::BtoAHeavy => Some(
                match local_side(key.src, key.dst) {
                    Some(LocalSide::A) => "DL"@,
                    Some(LocalSide::B) => "UL"@,
                    None => "B>A"@,
                },
            ),
        },
    }
}

/// Direction label for the details pane.
pub open spec fn detail_label_spec(key: FlowKey, a: Option<FlowAnalysis>) -> Option<Seq<char>> {
    match a {
        None => None,
        Some(an) => Some(
            match an.asymmetry {
                AsymmetryLabel::Balanced => "balanced"@,
                AsymmetryLabel::AtoBHeavy => match local_side(key.src, key.dst) {
                    Some(LocalSide::A) => "upload-heavy"@,
                    Some(LocalSide::B) => "download-heavy"@,
                    None => "A->B-heavy"@,
                },
                AsymmetryLabel::BtoAHeavy => match local_side(key.src, key.dst) {
                    Some(LocalSide::A) => "download-heavy"@,
                    Some(LocalSide::B) => "upload-heavy"@,
                    None => "B->A-heavy"@,
                },
            },
        ),
    }
}

pub open spec fn proto_name(p: L4Proto) -> Seq<char> {
    match p {
        L4Proto::Tcp => "TCP"@,
        L4Proto::Udp => "UDP"@,
        L4Proto::Other(_) => "L4"@,
    }
}

/// `PROTO src:sport ↔ dst:dport`.
pub open spec fn flow_label_text(k: FlowKey) -> Seq<char> {
    proto_name(k.proto) + " "@ + ip_text(k.src) + ":"@ + dec_seq(k.src_port as nat) + " ↔ "@
        + ip_text(k.dst) + ":"@ + dec_seq(k.dst_port as nat)
}

pub fn push_proto_name(v: &mut Vec<char>, p: L4Proto)
    ensures
        final(v)@ == old(v)@ + proto_name(p),
{
    match p {
        L4Proto::Tcp => push_str(v, "TCP"),
        L4Proto::Udp => push_str(v, "UDP"),
        L4Proto::Other(_) => push_str(v, "L4"),
    }
}

impl FlowStats {
    pub fn label(&self) -> (s: String)
        ensures
            s@ == flow_label_text(self.key),
    {
        let mut v: Vec<char> = Vec::new();
        push_proto_name(&mut v, self.key.proto);
        push_str(&mut v, " ");
        push_ip(&mut v, self.key.src);
        push_str(&mut v, ":");
        push_decimal(&mut v, self.key.src_port as u64);
        push_str(&mut v, " ↔ ");
        push_ip(&mut v, self.key.dst);
        push_str(&mut v, ":");
        push_decimal(&mut v, self.key.dst_port as u64);
        string_of(&v)
    }

    pub fn asymmetry_compact_suffix(&self) -> (r: Option<&'static str>)
        ensures
            opt_str(r) == compact_suffix_spec(self.key, self.analysis),
    {
        match self.analysis {
            None => None,
            Some(an) => match an.asymmetry {
                AsymmetryLabel::Balanced => None,
                AsymmetryLabel::AtoBHeavy => Some(
                    match infer_local_side(self.key.src, self.key.dst) {
                        Some(LocalSide::A) => "UL",
                        Some(LocalSide::B) => "DL",
                        None => "A>B",
                    },
                ),
                AsymmetryLabel::BtoAHeavy => Some(
                    match infer_local_side(self.key.src, self.key.dst) {
                        Some(LocalSide::A) => "DL",
                        Some(LocalSide::B) => "UL",
                        None => "B>A",
                    },
                ),
            },
        }
    }

    pub fn asymmetry_detail_label(&self) -> (r: Option<&'static str>)
        ensures
            opt_str(r) == detail_label_spec(self.key, self.analysis),
    {
        match self.analysis {
            None => None,
            Some(an) => Some(
                match an.asymmetry {
                    AsymmetryLabel::Balanced => "balanced",
                    AsymmetryLabel::AtoBHeavy => match infer_local_side(self.key.src, self.key.dst) {
                        Some(LocalSide::A) => "upload-heavy",
                        Some(LocalSide::B) => "download-heavy",
                        None => "A->B-heavy",
                    },
                    AsymmetryLabel::BtoAHeavy => match infer_local_side(self.key.src, self.key.dst) {
                        Some(LocalSide::A) => "download-heavy",
                        Some(LocalSide::B) => "upload-heavy",
                        None => "B->A-heavy",
                    },
                },
            ),
        }
    }
}

/// The two direction labels agree: the compact suffix is absent exactly for balanced
/// flows, and `UL` goes with upload-heavy, `DL` with download-heavy.
pub proof fn lemma_direction_labels_agree(key: FlowKey, a: Option<FlowAnalysis>)
    ensures
        (compact_suffix_spec(key, a) is None) <==> (detail_label_spec(key, a) is None
            || detail_label_spec(key, a) == Some("balanced"@)),
        compact_suffix_spec(key, a) == Some("UL"@) <==> detail_label_spec(key, a) == Some(
            "upload-heavy"@,
        ),
        compact_suffix_spec(key, a) == Some("DL"@) <==> detail_label_spec(key, a) == Some(
            "download-heavy"@,
        ),
{
    reveal_strlit("UL");
    reveal_strlit("DL");
    reveal_strlit("A>B");
    reveal_strlit("B>A");
    reveal_strlit("balanced");
    reveal_strlit("upload-heavy");
    reveal_strlit("download-heavy");
    reveal_strlit("A->B-heavy");
    reveal_strlit("B->A-heavy");
    assert("UL"@[0] != "DL"@[0]);
    assert("A->B-heavy"@[0] != "B->A-heavy"@[0]);
    assert("UL"@.len() == 2 && "DL"@.len() == 2 && "A>B"@.len() == 3 && "B>A"@.len() == 3);
    assert("balanced"@.len() == 8 && "upload-heavy"@.len() == 12);
    assert("download-heavy"@.len() == 14 && "A->B-heavy"@.len() == 10);
    assert("B->A-heavy"@.len() == 10);
}


// ------------------------------------------------------------ grouping

/// The conversation key of a row: the canonical form of its flow key.
pub open spec fn conv_key(r: PacketRow) -> Option<FlowKey> {
    match r.flow {
        Some(k) => Some(canonical_of(k).0),
        None => None,
    }
}

/// Whether a row travels B→A in its conversation.
pub open spec fn turned(r: PacketRow) -> bool {
    match r.flow {
        Some(k) => canonical_of(k).1,
        None => false,
    }
}

/// The rows of conversation `k`, in capture order.
pub open spec fn members(rs: Seq<PacketRow>, k: FlowKey) -> Seq<PacketRow>
    decreases rs.len(),
{
    if rs.len() == 0 {
        Seq::empty()
    } else {
        let rest = members(rs.drop_last(), k);
        if conv_key(rs.last()) == Some(k) {
            rest.push(rs.last())
        } else {
            rest
        }
    }
}

/// Sum of the captured lengths of the rows.
pub open spec fn total_len(s: Seq<PacketRow>) -> nat
    decreases s.len(),
{
    if s.len() == 0 {
        0
    } else {
        total_len(s.drop_last()) + s.last().len as nat
    }
}

/// Number of rows travelling in direction `t` (`false`: A→B, `true`: B→A).
pub open spec fn dir_packets(s: Seq<PacketRow>, t: bool) -> nat
    decreases s.len(),
{
    if s.len() == 0 {
        0
    } else {
        dir_packets(s.drop_last(), t) + (if turned(s.last()) == t { 1nat } else { 0nat })
    }
}

/// Bytes of the rows travelling in direction `t`.
pub open spec fn dir_bytes(s: Seq<PacketRow>, t: bool) -> nat
    decreases s.len(),
{
    if s.len() == 0 {
        0
    } else {
        dir_bytes(s.drop_last(), t) + (if turned(s.last()) == t { s.last().len as nat } else { 0nat })
    }
}

/// Smallest timestamp of the rows.
pub open spec fn earliest(s: Seq<PacketRow>) -> Option<i64>
    decreases s.len(),
{
    if s.len() == 0 {
        None
    } else {
        match earliest(s.drop_last()) {
            None => Some(s.last().ts),
            Some(m) => Some(if s.last().ts < m { s.last().ts } else { m }),
        }
    }
}

/// Largest timestamp of the rows.
pub open spec fn latest(s: Seq<PacketRow>) -> Option<i64>
    decreases s.len(),
{
    if s.len() == 0 {
        None
    } else {
        match latest(s.drop_last()) {
            None => Some(s.last().ts),
            Some(m) => Some(if s.last().ts > m { s.last().ts } else { m }),
        }
    }
}

pub open spec fn row_index(r: PacketRow) -> usize {
    r.index
}

/// `f` holds the statistics of its conversation `f.key` over the rows `rs`.
pub open spec fn is_flow_of(f: FlowStats, rs: Seq<PacketRow>) -> bool {
    let m = members(rs, f.key);
    &&& m.len() > 0
    &&& f.total_packets == m.len()
    &&& f.total_bytes == total_len(m)
    &&& f.a_to_b.packets == dir_packets(m, false)
    &&& f.a_to_b.bytes == dir_bytes(m, false)
    &&& f.b_to_a.packets == dir_packets(m, true)
    &&& f.b_to_a.bytes == dir_bytes(m, true)
    &&& f.packet_indices@ == m.map_values(|r: PacketRow| row_index(r))
    &&& f.first_ts == earliest(m)
    &&& f.last_ts == latest(m)
}

proof fn lemma_members_bounded(s: Seq<PacketRow>, k: FlowKey)
    ensures
        total_len(members(s, k)) <= total_len(s),
        members(s, k).len() <= s.len(),
    decreases s.len(),
{
    if s.len() > 0 {
        lemma_members_bounded(s.drop_last(), k);
        let rest = members(s.drop_last(), k);
        if conv_key(s.last()) == Some(k) {
            assert(rest.push(s.last()).drop_last() =~= rest);
        }
    }
}

pub proof fn lemma_prefix_len(s: Seq<PacketRow>, i: int)
    requires
        0 <= i <= s.len(),
    ensures
        total_len(s.take(i)) <= total_len(s),
    decreases s.len() - i,
{
    if i < s.len() {
        lemma_prefix_len(s, i + 1);
        assert(s.take(i + 1).drop_last() =~= s.take(i));
    } else {
        assert(s.take(i) =~= s);
    }
}

/// The two directions of a row sequence split its packets and its bytes.
pub proof fn lemma_directions_split(s: Seq<PacketRow>)
    ensures
        dir_packets(s, false) + dir_packets(s, true) == s.len(),
        dir_bytes(s, false) + dir_bytes(s, true) == total_len(s),
    decreases s.len(),
{
    if s.len() > 0 {
        lemma_directions_split(s.drop_last());
    }
}

/// The earliest timestamp of a non-empty row sequence is no later than the latest one.
pub proof fn lemma_earliest_le_latest(s: Seq<PacketRow>)
    requires
        s.len() > 0,
    ensures
        earliest(s) is Some,
        latest(s) is Some,
        earliest(s).unwrap() <= latest(s).unwrap(),
    decreases s.len(),
{
    if s.len() > 1 {
        lemma_earliest_le_latest(s.drop_last());
    }
}

fn new_flow(k: FlowKey, r: &PacketRow, t: bool) -> (f: FlowStats)
    ensures
        f.key == k,
        f.total_packets == 1,
        f.total_bytes == r.len,
        f.a_to_b == (if t { DirStats { packets: 0, bytes: 0 } } else { DirStats { packets: 1, bytes: r.len as u64 } }),
        f.b_to_a == (if t { DirStats { packets: 1, bytes: r.len as u64 } } else { DirStats { packets: 0, bytes: 0 } }),
        f.packet_indices@ == seq![r.index],
        f.first_ts == Some(r.ts),
        f.last_ts == Some(r.ts),
        f.analysis is None,
{
    let mut idx: Vec<usize> = Vec::new();
    idx.push(r.index);
    let len = r.len as u64;
    let one = DirStats { packets: 1, bytes: len };
    let zero = DirStats { packets: 0, bytes: 0 };
    FlowStats {
        key: k,
        total_packets: 1,
        total_bytes: len,
        a_to_b: if t { zero } else { one },
        b_to_a: if t { one } else { zero },
        packet_indices: idx,
        analysis: None,
        first_ts: Some(r.ts),
        last_ts: Some(r.ts),
    }
}

fn add_row(f: &mut FlowStats, r: &PacketRow, t: bool)
    requires
        old(f).total_bytes + r.len <= u64::MAX,
        old(f).a_to_b.bytes + old(f).b_to_a.bytes == old(f).total_bytes,
        old(f).a_to_b.packets + old(f).b_to_a.packets == old(f).total_packets,
        old(f).total_packets < u64::MAX,
    ensures
        final(f).key == old(f).key,
        final(f).analysis == old(f).analysis,
        final(f).total_packets == old(f).total_packets + 1,
        final(f).total_bytes == old(f).total_bytes + r.len,
        final(f).a_to_b == (if t { old(f).a_to_b } else { DirStats { packets: (old(f).a_to_b.packets + 1) as u64, bytes: (old(f).a_to_b.bytes + r.len) as u64 } }),
        final(f).b_to_a == (if t { DirStats { packets: (old(f).b_to_a.packets + 1) as u64, bytes: (old(f).b_to_a.bytes + r.len) as u64 } } else { old(f).b_to_a }),
        final(f).packet_indices@ == old(f).packet_indices@.push(r.index),
        final(f).first_ts == (match old(f).first_ts { None => Some(r.ts), Some(m) => Some(if r.ts < m { r.ts } else { m }) }),
        final(f).last_ts == (match old(f).last_ts { None => Some(r.ts), Some(m) => Some(if r.ts > m { r.ts } else { m }) }),
{
    let len = r.len as u64;
    f.total_packets = f.total_packets + 1;
    f.total_bytes = f.total_bytes + len;
    if t {
        f.b_to_a = DirStats { packets: f.b_to_a.packets + 1, bytes: f.b_to_a.bytes + len };
    } else {
        f.a_to_b = DirStats { packets: f.a_to_b.packets + 1, bytes: f.a_to_b.bytes + len };
    }
    f.packet_indices.push(r.index);
    f.first_ts = match f.first_ts {
        None => Some(r.ts),
        Some(m) => Some(if r.ts < m { r.ts } else { m }),
    };
    f.last_ts = match f.last_ts {
        None => Some(r.ts),
        Some(m) => Some(if r.ts > m { r.ts } else { m }),
    };
}

/// Group the rows into conversations, in order of first appearance.
fn group_rows(rows: &[PacketRow]) -> (g: Vec<FlowStats>)
    requires
        total_len(rows@) <= u64::MAX,
    ensures
        forall|j: int| 0 <= j < g.len() ==> is_flow_of(#[trigger] g[j], rows@),
        forall|j: int| 0 <= j < g.len() ==> (#[trigger] g[j]).analysis is None,
        forall|i: int, j: int| 0 <= i < j < g.len() ==> (#[trigger] g[i]).key != (#[trigger] g[j]).key,
        forall|p: int| 0 <= p < rows@.len() && (#[trigger] conv_key(rows@[p])) is Some ==> exists|j: int|
            0 <= j < g.len() && (#[trigger] g[j]).key == conv_key(rows@[p]).unwrap(),
{
    let mut g: Vec<FlowStats> = Vec::new();
    let mut i: usize = 0;
    while i < rows.len()
        invariant
            i <= rows@.len(),
            total_len(rows@) <= u64::MAX,
            forall|j: int| 0 <= j < g.len() ==> is_flow_of(#[trigger] g[j], rows@.take(i as int)),
            forall|j: int| 0 <= j < g.len() ==> (#[trigger] g[j]).analysis is None,
            forall|a: int, b: int| 0 <= a < b < g.len() ==> (#[trigger] g[a]).key != (#[trigger] g[b]).key,
            forall|p: int| 0 <= p < i && (#[trigger] conv_key(rows@[p])) is Some ==> exists|j: int|
                0 <= j < g.len() && (#[trigger] g[j]).key == conv_key(rows@[p]).unwrap(),
        decreases rows@.len() - i,
    {
        let ghost pre = rows@.take(i as int);
        let ghost post = rows@.take(i as int + 1);
        assert(post.drop_last() =~= pre);
        assert(post.last() == rows@[i as int]);
        proof {
            lemma_prefix_len(rows@, i as int + 1);
        }
        let r = &rows[i];
        match r.flow {
            None => {
                assert forall|j: int| 0 <= j < g.len() implies is_flow_of(#[trigger] g[j], post) by {
                    assert(members(post, g[j].key) == members(pre, g[j].key));
                }
            },
            Some(fk) => {
                let (canon, t) = fk.canonical();
                assert(conv_key(*r) == Some(canon));
                assert(turned(*r) == t);
                let mut j: usize = 0;
                while j < g.len() && g[j].key != canon
                    invariant
                        j <= g.len(),
                        forall|q: int| 0 <= q < j ==> (#[trigger] g[q]).key != canon,
                    decreases g.len() - j,
                {
                    j = j + 1;
                }
                if j == g.len() {
                    let ghost old_g = g@;
                    assert forall|q: int| 0 <= q < old_g.len() implies is_flow_of(#[trigger] old_g[q], post) by {
                        assert(old_g[q].key != canon);
                        assert(members(post, old_g[q].key) == members(pre, old_g[q].key));
                    }
                    proof {
                        lemma_no_members(pre, canon, old_g);
                    }
                    let f = new_flow(canon, r, t);
                    assert(members(pre, canon).len() == 0);
                    assert(members(post, canon) =~= seq![*r]);
                    assert(seq![*r].map_values(|x: PacketRow| row_index(x)) =~= seq![r.index]);
                    let ghost one = seq![*r];
                    assert(one.drop_last() =~= Seq::<PacketRow>::empty());
                    assert(one.last() == *r);
                    let ghost e = Seq::<PacketRow>::empty();
                    assert(total_len(e) == 0 && dir_packets(e, t) == 0 && dir_packets(e, !t) == 0);
                    assert(dir_bytes(e, t) == 0 && dir_bytes(e, !t) == 0 && earliest(e) is None && latest(e) is None);
                    assert(total_len(one) == r.len);
                    assert(dir_packets(one, t) == 1 && dir_packets(one, !t) == 0);
                    assert(dir_bytes(one, t) == r.len && dir_bytes(one, !t) == 0);
                    assert(earliest(one) == Some(r.ts) && latest(one) == Some(r.ts));
                    assert(is_flow_of(f, post));
                    g.push(f);
                    assert forall|q: int| 0 <= q < g.len() implies is_flow_of(#[trigger] g[q], post) by {
                        if q < old_g.len() {
                            assert(g[q] == old_g[q]);
                        }
                    }
                    assert forall|p: int| 0 <= p < i + 1 && (#[trigger] conv_key(rows@[p])) is Some implies exists|q: int|
                        0 <= q < g.len() && (#[trigger] g[q]).key == conv_key(rows@[p]).unwrap() by {
                        if p < i {
                            let q = choose|q: int| 0 <= q < old_g.len() && (#[trigger] old_g[q]).key == conv_key(rows@[p]).unwrap();
                            assert(g[q] == old_g[q]);
                        } else {
                            assert(g[old_g.len() as int].key == canon);
                        }
                    }
                } else {
                    let ghost old_g = g@;
                    let ghost m = members(pre, canon);
                    assert(is_flow_of(old_g[j as int], pre));
                    proof {
                        lemma_directions_split(m);
                        lemma_members_bounded(post, canon);
                        lemma_members_bounded(pre, canon);
                    }
                    assert(members(post, canon) == m.push(*r));
                    add_row(&mut g[j], r, t);
                    assert(m.push(*r).drop_last() =~= m);
                    assert(m.push(*r).map_values(|x: PacketRow| row_index(x)) =~= m.map_values(
                        |x: PacketRow| row_index(x),
                    ).push(r.index));
                    assert forall|q: int| 0 <= q < g.len() implies is_flow_of(#[trigger] g[q], post) by {
                        if q != j {
                            assert(g[q] == old_g[q]);
                            assert(members(post, g[q].key) == members(pre, g[q].key));
                        } else {
                            let mp = m.push(*r);
                            assert(g[q].key == canon);
                            assert(members(post, canon) == mp);
                            assert(mp.last() == *r);
                            assert(total_len(mp) == total_len(m) + r.len);
                            assert(dir_packets(mp, false) == dir_packets(m, false) + (if t { 0nat } else { 1nat }));
                            assert(dir_packets(mp, true) == dir_packets(m, true) + (if t { 1nat } else { 0nat }));
                            assert(earliest(mp) == (match earliest(m) { None => Some(r.ts), Some(x) => Some(if r.ts < x { r.ts } else { x }) }));
                            assert(latest(mp) == (match latest(m) { None => Some(r.ts), Some(x) => Some(if r.ts > x { r.ts } else { x }) }));
                            assert(is_flow_of(g[q], post));
                        }
                    }
                    assert forall|p: int| 0 <= p < i + 1 && (#[trigger] conv_key(rows@[p])) is Some implies exists|q: int|
                        0 <= q < g.len() && (#[trigger] g[q]).key == conv_key(rows@[p]).unwrap() by {
                        if p < i {
                            let q = choose|q: int| 0 <= q < old_g.len() && (#[trigger] old_g[q]).key == conv_key(rows@[p]).unwrap();
                            assert(g[q].key == old_g[q].key);
                        } else {
                            assert(g[j as int].key == canon);
                        }
                    }
                    assert forall|a: int, b: int| 0 <= a < b < g.len() implies (#[trigger] g[a]).key != (#[trigger] g[b]).key by {
                        assert(g[a].key == old_g[a].key);
                        assert(g[b].key == old_g[b].key);
                    }
                }
            },
        }
        i = i + 1;
    }
    assert(rows@.take(rows@.len() as int) =~= rows@);
    g
}

/// A conversation key that no flow carries has no rows so far.
proof fn lemma_no_members(pre: Seq<PacketRow>, k: FlowKey, g: Seq<FlowStats>)
    requires
        forall|q: int| 0 <= q < g.len() ==> (#[trigger] g[q]).key != k,
        forall|p: int| 0 <= p < pre.len() && (#[trigger] conv_key(pre[p])) is Some ==> exists|j: int|
            0 <= j < g.len() && (#[trigger] g[j]).key == conv_key(pre[p]).unwrap(),
    ensures
        members(pre, k).len() == 0,
    decreases pre.len(),
{
    if pre.len() > 0 {
        let last = pre.len() - 1;
        if conv_key(pre[last]) == Some(k) {
            assert(conv_key(pre[last]) is Some);
            let j = choose|j: int| 0 <= j < g.len() && (#[trigger] g[j]).key == conv_key(pre[last]).unwrap();
            assert(g[j].key == k);
        }
        assert forall|p: int| 0 <= p < pre.drop_last().len() && (#[trigger] conv_key(pre.drop_last()[p])) is Some implies exists|j: int|
            0 <= j < g.len() && (#[trigger] g[j]).key == conv_key(pre.drop_last()[p]).unwrap() by {
            assert(pre.drop_last()[p] == pre[p]);
            assert(conv_key(pre[p]) is Some);
        }
        lemma_no_members(pre.drop_last(), k, g);
    }
}


// ------------------------------------------------------------ ordering

/// Display order of flows: more bytes first, then by source address and port,
/// then by destination address and port.
pub open spec fn sorts_before(a: FlowStats, b: FlowStats) -> bool {
    ||| a.total_bytes > b.total_bytes
    ||| (a.total_bytes == b.total_bytes && (ip_lt(a.key.src, b.key.src) || (a.key.src == b.key.src
        && (a.key.src_port < b.key.src_port || (a.key.src_port == b.key.src_port && (ip_lt(
        a.key.dst,
        b.key.dst,
    ) || (a.key.dst == b.key.dst && a.key.dst_port < b.key.dst_port)))))))
}

/// A flow listed after another never has more bytes.
pub proof fn lemma_listed_after_has_no_more_bytes(a: FlowStats, b: FlowStats)
    requires
        !sorts_before(b, a),
    ensures
        a.total_bytes >= b.total_bytes,
{
}

proof fn lemma_sorts_before_order(a: FlowStats, b: FlowStats, c: FlowStats)
    ensures
        !sorts_before(a, a),
        sorts_before(a, b) && sorts_before(b, c) ==> sorts_before(a, c),
{
}

fn flow_before(a: &FlowStats, b: &FlowStats) -> (r: bool)
    ensures
        r == sorts_before(*a, *b),
{
    if a.total_bytes != b.total_bytes {
        return a.total_bytes > b.total_bytes;
    }
    if a.key.src != b.key.src {
        return ip_less(a.key.src, b.key.src);
    }
    if a.key.src_port != b.key.src_port {
        return a.key.src_port < b.key.src_port;
    }
    if a.key.dst != b.key.dst {
        return ip_less(a.key.dst, b.key.dst);
    }
    a.key.dst_port < b.key.dst_port
}

/// Some position of `order` holds `x`.
pub open spec fn lists(order: Seq<usize>, x: int) -> bool {
    exists|p: int| 0 <= p < order.len() && order[p] == x
}

/// A permutation of the positions of `g` that lists the flows in display order;
/// flows that tie keep their relative order.
fn display_order(g: &Vec<FlowStats>) -> (order: Vec<usize>)
    ensures
        order.len() == g.len(),
        forall|p: int| 0 <= p < order.len() ==> order[p] < g.len(),
        forall|p: int, q: int| 0 <= p < q < order.len() ==> order[p] != order[q],
        forall|x: int| 0 <= x < g.len() ==> #[trigger] lists(order@, x),
        forall|p: int, q: int|
            0 <= p < q < order.len() ==> !sorts_before(g[order[q] as int], g[order[p] as int]),
{
    let mut order: Vec<usize> = Vec::new();
    let mut i: usize = 0;
    while i < g.len()
        invariant
            i <= g.len(),
            order.len() == i,
            forall|p: int| 0 <= p < order.len() ==> order[p] < i,
            forall|p: int, q: int| 0 <= p < q < order.len() ==> order[p] != order[q],
            forall|x: int| 0 <= x < i ==> #[trigger] lists(order@, x),
            forall|p: int, q: int|
                0 <= p < q < order.len() ==> !sorts_before(g[order[q] as int], g[order[p] as int]),
        decreases g.len() - i,
    {
        let mut pos: usize = 0;
        while pos < order.len() && !flow_before(&g[i], &g[order[pos]])
            invariant
                pos <= order.len(),
                i < g.len(),
                forall|p: int| 0 <= p < order.len() ==> order[p] < i,
                forall|q: int| 0 <= q < pos ==> !sorts_before(g[i as int], g[order[q] as int]),
            decreases order.len() - pos,
        {
            pos = pos + 1;
        }
        let ghost old_order = order@;
        proof {
            if pos < old_order.len() {
                assert(sorts_before(g[i as int], g[old_order[pos as int] as int]));
                assert forall|b: int| pos <= b < old_order.len() implies !sorts_before(
                    g[old_order[b] as int],
                    g[i as int],
                ) by {
                    lemma_sorts_before_order(
                        g[old_order[b] as int],
                        g[i as int],
                        g[old_order[pos as int] as int],
                    );
                }
            }
        }
        order.insert(pos, i);
        assert(order@ == old_order.insert(pos as int, i));
        assert forall|p: int, q: int| 0 <= p < q < order.len() implies !sorts_before(
            g[order[q] as int],
            g[order[p] as int],
        ) by {
            if q < pos {
                assert(order[p] == old_order[p] && order[q] == old_order[q]);
            } else if q == pos {
                assert(order[p] == old_order[p]);
            } else if p == pos {
                assert(order[q] == old_order[q - 1]);
            } else if p < pos {
                assert(order[p] == old_order[p] && order[q] == old_order[q - 1]);
            } else {
                assert(order[p] == old_order[p - 1] && order[q] == old_order[q - 1]);
            }
        }
        assert forall|p: int, q: int| 0 <= p < q < order.len() implies order[p] != order[q] by {
            if q < pos {
                assert(order[p] == old_order[p] && order[q] == old_order[q]);
            } else if q == pos {
                assert(order[p] == old_order[p]);
            } else if p == pos {
                assert(order[q] == old_order[q - 1]);
            } else if p < pos {
                assert(order[p] == old_order[p] && order[q] == old_order[q - 1]);
            } else {
                assert(order[p] == old_order[p - 1] && order[q] == old_order[q - 1]);
            }
        }
        assert forall|x: int| 0 <= x < i + 1 implies #[trigger] lists(order@, x) by {
            if x == i {
                assert(order[pos as int] == i);
            } else {
                assert(lists(old_order, x));
                let p0 = choose|p: int| 0 <= p < old_order.len() && old_order[p] == x;
                if p0 < pos {
                    assert(order[p0] == x);
                } else {
                    assert(order[p0 + 1] == x);
                }
            }
        }
        i = i + 1;
    }
    order
}

fn copy_indices(v: &Vec<usize>) -> (c: Vec<usize>)
    ensures
        c@ == v@,
{
    let mut c: Vec<usize> = Vec::new();
    let mut i: usize = 0;
    while i < v.len()
        invariant
            i <= v.len(),
            c@ == v@.take(i as int),
        decreases v.len() - i,
    {
        c.push(v[i]);
        i = i + 1;
        assert(c@ =~= v@.take(i as int));
    }
    assert(v@.take(v.len() as int) =~= v@);
    c
}

/// Field-by-field equality of two flows' statistics.
pub open spec fn same_stats(a: FlowStats, b: FlowStats) -> bool {
    &&& a.key == b.key
    &&& a.total_packets == b.total_packets
    &&& a.total_bytes == b.total_bytes
    &&& a.a_to_b == b.a_to_b
    &&& a.b_to_a == b.b_to_a
    &&& a.packet_indices@ == b.packet_indices@
    &&& a.first_ts == b.first_ts
    &&& a.last_ts == b.last_ts
}

pub(crate) fn copy_flow(f: &FlowStats) -> (c: FlowStats)
    ensures
        same_stats(c, *f),
        c.analysis == f.analysis,
{
    FlowStats {
        key: f.key,
        total_packets: f.total_packets,
        total_bytes: f.total_bytes,
        a_to_b: f.a_to_b,
        b_to_a: f.b_to_a,
        packet_indices: copy_indices(&f.packet_indices),
        analysis: f.analysis,
        first_ts: f.first_ts,
        last_ts: f.last_ts,
    }
}

impl FlowIndex {
    /// Group the rows into conversations (both directions of a flow key together)
    /// and list them with the most bytes first, ties broken by source then
    /// destination endpoint.
    pub fn build(rows: &[PacketRow]) -> (fi: FlowIndex)
        requires
            total_len(rows@) <= u64::MAX,
        ensures
            forall|j: int| 0 <= j < fi.flows.len() ==> is_flow_of(#[trigger] fi.flows[j], rows@),
            forall|j: int| 0 <= j < fi.flows.len() ==> (#[trigger] fi.flows[j]).analysis is None,
            forall|i: int, j: int|
                0 <= i < j < fi.flows.len() ==> (#[trigger] fi.flows[i]).key != (#[trigger] fi.flows[j]).key,
            forall|p: int| 0 <= p < rows@.len() && (#[trigger] conv_key(rows@[p])) is Some ==> exists|j: int|
                0 <= j < fi.flows.len() && (#[trigger] fi.flows[j]).key == conv_key(rows@[p]).unwrap(),
            forall|i: int, j: int|
                0 <= i < j < fi.flows.len() ==> !sorts_before(fi.flows[j], fi.flows[i]),
            forall|i: int, j: int|
                0 <= i < j < fi.flows.len() ==> (#[trigger] fi.flows[i]).total_bytes >= (#[trigger] fi.flows[j]).total_bytes,
    {
        let g = group_rows(rows);
        let order = display_order(&g);
        let mut flows: Vec<FlowStats> = Vec::new();
        let mut k: usize = 0;
        while k < order.len()
            invariant
                k <= order.len(),
                order.len() == g.len(),
                flows.len() == k,
                forall|p: int| 0 <= p < order.len() ==> order[p] < g.len(),
                forall|p: int| 0 <= p < k ==> same_stats(#[trigger] flows[p], g[order[p] as int]),
                forall|p: int| 0 <= p < k ==> (#[trigger] flows[p]).analysis is None,
                forall|j: int| 0 <= j < g.len() ==> (#[trigger] g[j]).analysis is None,
            decreases order.len() - k,
        {
            let c = copy_flow(&g[order[k]]);
            flows.push(c);
            k = k + 1;
        }
        proof {
            assert forall|j: int| 0 <= j < flows.len() implies is_flow_of(#[trigger] flows[j], rows@) by {
                assert(is_flow_of(g[order[j] as int], rows@));
            }
            assert forall|a: int, b: int| 0 <= a < b < flows.len() implies (#[trigger] flows[a]).key
                != (#[trigger] flows[b]).key by {
                assert(order[a] != order[b]);
                if order[a] < order[b] {
                    assert(g[order[a] as int].key != g[order[b] as int].key);
                } else {
                    assert(g[order[b] as int].key != g[order[a] as int].key);
                }
            }
            assert forall|p: int| 0 <= p < rows@.len() && (#[trigger] conv_key(rows@[p])) is Some implies exists|j: int|
                0 <= j < flows.len() && (#[trigger] flows[j]).key == conv_key(rows@[p]).unwrap() by {
                let x = choose|x: int| 0 <= x < g.len() && (#[trigger] g[x]).key == conv_key(rows@[p]).unwrap();
                assert(lists(order@, x));
                let q = choose|q: int| 0 <= q < order.len() && order[q] == x;
                assert(flows[q].key == g[x].key);
            }
            assert forall|a: int, b: int| 0 <= a < b < flows.len() implies !sorts_before(
                flows[b],
                flows[a],
            ) by {
                assert(!sorts_before(g[order[b] as int], g[order[a] as int]));
            }
            assert forall|a: int, b: int| 0 <= a < b < flows.len() implies (#[trigger] flows[a]).total_bytes
                >= (#[trigger] flows[b]).total_bytes by {
                lemma_listed_after_has_no_more_bytes(flows[a], flows[b]);
            }
        }
        FlowIndex { flows }
    }
}


// ------------------------------------------------------------ analysis

/// The TCP flags of a row, `0` when it has none.
pub open spec fn flags_of(r: PacketRow) -> u16 {
    match r.tcp_flags {
        Some(f) => f,
        None => 0,
    }
}

pub open spec fn is_syn(f: u16) -> bool {
    f & TCP_FLAG_SYN != 0 && f & TCP_FLAG_ACK == 0
}

pub open spec fn is_syn_ack(f: u16) -> bool {
    f & TCP_FLAG_SYN != 0 && f & TCP_FLAG_ACK != 0
}

pub open spec fn is_control(f: u16) -> bool {
    f & TCP_FLAG_SYN != 0 || f & TCP_FLAG_FIN != 0 || f & TCP_FLAG_RST != 0
}

/// A data segment: no SYN, FIN or RST, and a non-empty payload.
pub open spec fn is_data(r: PacketRow) -> bool {
    !is_control(flags_of(r)) && r.payload@.len() > 0
}

/// The rows at the given positions, in that order, skipping positions past the end.
pub open spec fn picked(rows: Seq<PacketRow>, idx: Seq<usize>) -> Seq<PacketRow>
    decreases idx.len(),
{
    if idx.len() == 0 {
        Seq::empty()
    } else {
        let rest = picked(rows, idx.drop_last());
        if idx.last() < rows.len() {
            rest.push(rows[idx.last() as int])
        } else {
            rest
        }
    }
}

pub open spec fn count_syn(s: Seq<PacketRow>) -> nat
    decreases s.len(),
{
    if s.len() == 0 {
        0
    } else {
        count_syn(s.drop_last()) + (if is_syn(flags_of(s.last())) { 1nat } else { 0nat })
    }
}

pub open spec fn count_syn_ack(s: Seq<PacketRow>) -> nat
    decreases s.len(),
{
    if s.len() == 0 {
        0
    } else {
        count_syn_ack(s.drop_last()) + (if is_syn_ack(flags_of(s.last())) { 1nat } else { 0nat })
    }
}

/// Some row of `s` satisfies `p`.
pub open spec fn any_where(s: Seq<PacketRow>, p: spec_fn(PacketRow) -> bool) -> bool {
    exists|i: int| 0 <= i < s.len() && p(#[trigger] s[i])
}

pub proof fn lemma_any_where_push(s: Seq<PacketRow>, r: PacketRow, p: spec_fn(PacketRow) -> bool)
    ensures
        any_where(s.push(r), p) == (any_where(s, p) || p(r)),
{
    let t = s.push(r);
    if p(r) {
        assert(t[s.len() as int] == r);
    }
    if any_where(s, p) {
        let w = choose|w: int| 0 <= w < s.len() && p(#[trigger] s[w]);
        assert(t[w] == s[w]);
    }
    if any_where(t, p) {
        let w = choose|w: int| 0 <= w < t.len() && p(#[trigger] t[w]);
        if w < s.len() {
            assert(t[w] == s[w]);
        }
    }
}

pub open spec fn rst_row(r: PacketRow) -> bool {
    flags_of(r) & TCP_FLAG_RST != 0
}

pub open spec fn retransmit_row(r: PacketRow) -> bool {
    r.tcp_retransmission || r.tcp_out_of_order
}

pub open spec fn any_rst(s: Seq<PacketRow>) -> bool {
    any_where(s, |r: PacketRow| rst_row(r))
}

pub open spec fn any_retransmit(s: Seq<PacketRow>) -> bool {
    any_where(s, |r: PacketRow| retransmit_row(r))
}

/// Red for a reset or a handshake that was retried without answer, yellow for
/// retransmitted or out-of-order segments, green otherwise; non-TCP flows are green.
pub open spec fn health_of(key: FlowKey, ps: Seq<PacketRow>) -> HealthBadge {
    if key.proto != L4Proto::Tcp {
        HealthBadge::Green
    } else if any_rst(ps) {
        HealthBadge::Red
    } else if count_syn(ps) >= 2 && count_syn_ack(ps) == 0 {
        HealthBadge::Red
    } else if any_retransmit(ps) {
        HealthBadge::Yellow
    } else {
        HealthBadge::Green
    }
}

/// A→B-heavy above 70% of the bytes going A→B, B→A-heavy below 30%, balanced
/// otherwise and for flows without bytes.
pub open spec fn asymmetry_of(ab: nat, ba: nat) -> AsymmetryLabel {
    let total = ab + ba;
    if total == 0 {
        AsymmetryLabel::Balanced
    } else if 10 * ab > 7 * total {
        AsymmetryLabel::AtoBHeavy
    } else if 10 * ab < 3 * total {
        AsymmetryLabel::BtoAHeavy
    } else {
        AsymmetryLabel::Balanced
    }
}

/// Timestamp of the first row that satisfies `p`.
pub open spec fn first_ts_where(s: Seq<PacketRow>, p: spec_fn(PacketRow) -> bool) -> Option<i64>
    decreases s.len(),
{
    if s.len() == 0 {
        None
    } else {
        match first_ts_where(s.drop_last(), p) {
            Some(t) => Some(t),
            None => if p(s.last()) {
                Some(s.last().ts)
            } else {
                None
            },
        }
    }
}

/// Timestamp of the last row that satisfies `p`.
pub open spec fn last_ts_where(s: Seq<PacketRow>, p: spec_fn(PacketRow) -> bool) -> Option<i64>
    decreases s.len(),
{
    if s.len() == 0 {
        None
    } else if p(s.last()) {
        Some(s.last().ts)
    } else {
        last_ts_where(s.drop_last(), p)
    }
}

/// Whole microseconds from `a` to `b` (nanosecond timestamps), truncated toward
/// zero; `None` when that is negative.
pub open spec fn micros_between(a: i64, b: i64) -> Option<i64> {
    let d = b - a;
    if d >= 0 {
        Some((d / 1000) as i64)
    } else if d > -1000 {
        Some(0)
    } else {
        None
    }
}

pub open spec fn span_of(a: Option<i64>, b: Option<i64>) -> Option<i64> {
    match (a, b) {
        (Some(x), Some(y)) => micros_between(x, y),
        _ => None,
    }
}

pub open spec fn syn_row(r: PacketRow) -> bool {
    is_syn(flags_of(r))
}

pub open spec fn syn_ack_row(r: PacketRow) -> bool {
    is_syn_ack(flags_of(r))
}

/// Handshake round trip, server think time and data transfer time of a TCP flow;
/// `None` for other protocols.
pub open spec fn timing_of(key: FlowKey, ps: Seq<PacketRow>) -> Option<TcpTiming> {
    if key.proto != L4Proto::Tcp {
        None
    } else {
        let syn = first_ts_where(ps, |r: PacketRow| syn_row(r));
        let syn_ack = first_ts_where(ps, |r: PacketRow| syn_ack_row(r));
        let first_data = first_ts_where(ps, |r: PacketRow| is_data(r));
        let last_data = last_ts_where(ps, |r: PacketRow| is_data(r));
        Some(
            TcpTiming {
                handshake_rtt_us: span_of(syn, syn_ack),
                server_think_us: span_of(syn_ack, first_data),
                data_transfer_us: if first_data == last_data {
                    None
                } else {
                    span_of(first_data, last_data)
                },
            },
        )
    }
}

/// A row that is not a data segment (a SYN, FIN or RST, or no payload) added at
/// the end of a TCP flow leaves its data transfer time as it was.
pub proof fn lemma_data_transfer_ignores_control(key: FlowKey, ps: Seq<PacketRow>, r: PacketRow)
    requires
        key.proto == L4Proto::Tcp,
        !is_data(r),
    ensures
        timing_of(key, ps.push(r)) is Some,
        timing_of(key, ps.push(r)).unwrap().data_transfer_us == timing_of(key, ps).unwrap().data_transfer_us,
{
    let q = ps.push(r);
    assert(q.drop_last() =~= ps);
    assert(q.last() == r);
}

proof fn lemma_first_where_some(s: Seq<PacketRow>, p: spec_fn(PacketRow) -> bool, i: int)
    requires
        0 <= i < s.len(),
        p(s[i]),
    ensures
        first_ts_where(s, p) is Some,
    decreases s.len(),
{
    if i < s.len() - 1 {
        assert(s.drop_last()[i] == s[i]);
        lemma_first_where_some(s.drop_last(), p, i);
    }
}

proof fn lemma_none_where(s: Seq<PacketRow>, p: spec_fn(PacketRow) -> bool)
    requires
        forall|i: int| 0 <= i < s.len() ==> !p(#[trigger] s[i]),
    ensures
        first_ts_where(s, p) is None,
        last_ts_where(s, p) is None,
    decreases s.len(),
{
    if s.len() > 0 {
        let t = s.drop_last();
        assert forall|i: int| 0 <= i < t.len() implies !p(#[trigger] t[i]) by {
            assert(t[i] == s[i]);
        }
        lemma_none_where(t, p);
        assert(!p(s[s.len() - 1]));
    }
}

/// A TCP flow without a data segment has no server think time and no data
/// transfer time.
pub proof fn lemma_no_data_no_transfer(key: FlowKey, ps: Seq<PacketRow>)
    requires
        key.proto == L4Proto::Tcp,
        forall|i: int| 0 <= i < ps.len() ==> !is_data(#[trigger] ps[i]),
    ensures
        timing_of(key, ps) is Some,
        timing_of(key, ps).unwrap().server_think_us is None,
        timing_of(key, ps).unwrap().data_transfer_us is None,
{
    let p = |r: PacketRow| is_data(r);
    assert forall|i: int| 0 <= i < ps.len() implies !p(#[trigger] ps[i]) by {}
    lemma_none_where(ps, p);
}

/// Once a TCP flow holds a SYN and a SYN-ACK, a later row leaves its handshake
/// time as it was; once it also holds a data segment, its server think time too.
pub proof fn lemma_timing_settles(key: FlowKey, ps: Seq<PacketRow>, r: PacketRow, i: int, j: int)
    requires
        key.proto == L4Proto::Tcp,
        0 <= i < ps.len(),
        0 <= j < ps.len(),
        syn_row(ps[i]),
        syn_ack_row(ps[j]),
    ensures
        timing_of(key, ps.push(r)).unwrap().handshake_rtt_us == timing_of(key, ps).unwrap().handshake_rtt_us,
        (exists|k: int| 0 <= k < ps.len() && is_data(#[trigger] ps[k])) ==> timing_of(key, ps.push(r)).unwrap().server_think_us
            == timing_of(key, ps).unwrap().server_think_us,
{
    let q = ps.push(r);
    assert(q.drop_last() =~= ps);
    let p_syn = |x: PacketRow| syn_row(x);
    let p_ack = |x: PacketRow| syn_ack_row(x);
    let p_data = |x: PacketRow| is_data(x);
    lemma_first_where_some(ps, p_syn, i);
    lemma_first_where_some(ps, p_ack, j);
    if exists|k: int| 0 <= k < ps.len() && is_data(#[trigger] ps[k]) {
        let k = choose|k: int| 0 <= k < ps.len() && is_data(#[trigger] ps[k]);
        lemma_first_where_some(ps, p_data, k);
    }
}

proof fn lemma_first_where_at(s: Seq<PacketRow>, p: spec_fn(PacketRow) -> bool, i: int)
    requires
        0 <= i < s.len(),
        p(s[i]),
        forall|j: int| 0 <= j < i ==> !p(#[trigger] s[j]),
    ensures
        first_ts_where(s, p) == Some(s[i].ts),
    decreases s.len(),
{
    let t = s.drop_last();
    if i < s.len() - 1 {
        assert forall|j: int| 0 <= j < i implies !p(#[trigger] t[j]) by {
            assert(t[j] == s[j]);
        }
        assert(t[i] == s[i]);
        lemma_first_where_at(t, p, i);
    } else {
        assert forall|j: int| 0 <= j < t.len() implies !p(#[trigger] t[j]) by {
            assert(t[j] == s[j]);
        }
        lemma_none_where(t, p);
    }
}

/// A TCP flow that opens with a SYN, then a SYN-ACK, then a data segment, and
/// ends with a data segment, in time order: the handshake time is SYN to
/// SYN-ACK, the server think time SYN-ACK to first data, and the data transfer
/// time first data to last data (none when they coincide), in whole microseconds.
pub proof fn lemma_timing_of_ordered_flow(key: FlowKey, ps: Seq<PacketRow>)
    requires
        key.proto == L4Proto::Tcp,
        ps.len() >= 3,
        syn_row(ps[0]),
        syn_ack_row(ps[1]),
        is_data(ps[2]),
        is_data(ps.last()),
        ps[0].ts <= ps[1].ts <= ps[2].ts <= ps.last().ts,
    ensures
        timing_of(key, ps) == Some(TcpTiming {
            handshake_rtt_us: Some(((ps[1].ts - ps[0].ts) / 1000) as i64),
            server_think_us: Some(((ps[2].ts - ps[1].ts) / 1000) as i64),
            data_transfer_us: if ps[2].ts == ps.last().ts { None } else { Some(((ps.last().ts - ps[2].ts) / 1000) as i64) },
        }),
{
    let p_syn = |x: PacketRow| syn_row(x);
    let p_ack = |x: PacketRow| syn_ack_row(x);
    let p_data = |x: PacketRow| is_data(x);
    assert(!syn_ack_row(ps[0])) by {
        let f = flags_of(ps[0]);
        assert(f & TCP_FLAG_ACK == 0);
    }
    assert(!is_data(ps[0]));
    assert(!is_data(ps[1]));
    lemma_first_where_at(ps, p_syn, 0);
    lemma_first_where_at(ps, p_ack, 1);
    lemma_first_where_at(ps, p_data, 2);
    assert(last_ts_where(ps, p_data) == Some(ps.last().ts));
}

/// The TCP flags of a row, `0` when it has none.
pub fn flags_or_zero(r: &PacketRow) -> (f: u16)
    ensures
        f == flags_of(*r),
{
    match r.tcp_flags {
        Some(f) => f,
        None => 0,
    }
}

/// One more position picked: the row it points at is appended when it exists.
pub proof fn lemma_picked_step(rows: Seq<PacketRow>, idx: Seq<usize>, k: int)
    requires
        0 <= k < idx.len(),
    ensures
        picked(rows, idx.take(k + 1)) == (if idx[k] < rows.len() {
            picked(rows, idx.take(k)).push(rows[idx[k] as int])
        } else {
            picked(rows, idx.take(k))
        }),
{
    assert(idx.take(k + 1).drop_last() =~= idx.take(k));
}

/// Health badge of a flow from the rows its packet indices point at.
pub fn compute_health(fl: &FlowStats, rows: &[PacketRow]) -> (h: HealthBadge)
    ensures
        h == health_of(fl.key, picked(rows@, fl.packet_indices@)),
{
    if fl.key.proto != L4Proto::Tcp {
        return HealthBadge::Green;
    }
    let ghost idx = fl.packet_indices@;
    let mut has_rst = false;
    let mut syn_count: usize = 0;
    let mut syn_ack_count: usize = 0;
    let mut has_retransmit = false;
    let mut k: usize = 0;
    while k < fl.packet_indices.len()
        invariant
            k <= idx.len(),
            idx == fl.packet_indices@,
            syn_count <= k,
            syn_ack_count <= k,
            has_rst == any_rst(picked(rows@, idx.take(k as int))),
            syn_count == count_syn(picked(rows@, idx.take(k as int))),
            syn_ack_count == count_syn_ack(picked(rows@, idx.take(k as int))),
            has_retransmit == any_retransmit(picked(rows@, idx.take(k as int))),
        decreases idx.len() - k,
    {
        let pi = fl.packet_indices[k];
        let ghost before = picked(rows@, idx.take(k as int));
        proof {
            lemma_picked_step(rows@, idx, k as int);
        }
        if pi < rows.len() {
            let r = &rows[pi];
            let ghost after = before.push(*r);
            assert(after.drop_last() =~= before);
            let flags = flags_or_zero(r);
            if (flags & TCP_FLAG_RST) != 0 {
                has_rst = true;
            }
            if (flags & TCP_FLAG_SYN) != 0 && (flags & TCP_FLAG_ACK) == 0 {
                syn_count = syn_count + 1;
            }
            if (flags & TCP_FLAG_SYN) != 0 && (flags & TCP_FLAG_ACK) != 0 {
                syn_ack_count = syn_ack_count + 1;
            }
            if r.tcp_retransmission || r.tcp_out_of_order {
                has_retransmit = true;
            }
            proof {
                lemma_any_where_push(before, *r, |x: PacketRow| rst_row(x));
                lemma_any_where_push(before, *r, |x: PacketRow| retransmit_row(x));
            }
        }
        k = k + 1;
    }
    assert(idx.take(idx.len() as int) =~= idx);
    if has_rst {
        return HealthBadge::Red;
    }
    if syn_count >= 2 && syn_ack_count == 0 {
        return HealthBadge::Red;
    }
    if has_retransmit {
        return HealthBadge::Yellow;
    }
    HealthBadge::Green
}

/// Direction label of a flow from its byte split.
pub fn compute_asymmetry(fl: &FlowStats) -> (a: AsymmetryLabel)
    ensures
        a == asymmetry_of(fl.a_to_b.bytes as nat, fl.b_to_a.bytes as nat),
{
    let ab = fl.a_to_b.bytes as u128;
    let total = ab + fl.b_to_a.bytes as u128;
    if total == 0 {
        return AsymmetryLabel::Balanced;
    }
    if 10 * ab > 7 * total {
        AsymmetryLabel::AtoBHeavy
    } else if 10 * ab < 3 * total {
        AsymmetryLabel::BtoAHeavy
    } else {
        AsymmetryLabel::Balanced
    }
}

fn micros_span(a: Option<i64>, b: Option<i64>) -> (r: Option<i64>)
    ensures
        r == span_of(a, b),
{
    match (a, b) {
        (Some(x), Some(y)) => {
            let d = y as i128 - x as i128;
            if d >= 0 {
                Some((d / 1000) as i64)
            } else if d > -1000 {
                Some(0)
            } else {
                None
            }
        },
        _ => None,
    }
}

/// TCP timing of a flow from the rows its packet indices point at.
pub fn compute_tcp_timing(fl: &FlowStats, rows: &[PacketRow]) -> (t: Option<TcpTiming>)
    ensures
        t == timing_of(fl.key, picked(rows@, fl.packet_indices@)),
{
    if fl.key.proto != L4Proto::Tcp {
        return None;
    }
    let ghost idx = fl.packet_indices@;
    let ghost p_syn = |r: PacketRow| syn_row(r);
    let ghost p_syn_ack = |r: PacketRow| syn_ack_row(r);
    let ghost p_data = |r: PacketRow| is_data(r);
    let mut syn_ts: Option<i64> = None;
    let mut syn_ack_ts: Option<i64> = None;
    let mut first_data_ts: Option<i64> = None;
    let mut last_data_ts: Option<i64> = None;
    let mut k: usize = 0;
    while k < fl.packet_indices.len()
        invariant
            k <= idx.len(),
            idx == fl.packet_indices@,
            p_syn == (|r: PacketRow| syn_row(r)),
            p_syn_ack == (|r: PacketRow| syn_ack_row(r)),
            p_data == (|r: PacketRow| is_data(r)),
            syn_ts == first_ts_where(picked(rows@, idx.take(k as int)), p_syn),
            syn_ack_ts == first_ts_where(picked(rows@, idx.take(k as int)), p_syn_ack),
            first_data_ts == first_ts_where(picked(rows@, idx.take(k as int)), p_data),
            last_data_ts == last_ts_where(picked(rows@, idx.take(k as int)), p_data),
        decreases idx.len() - k,
    {
        let pi = fl.packet_indices[k];
        let ghost before = picked(rows@, idx.take(k as int));
        proof {
            lemma_picked_step(rows@, idx, k as int);
        }
        if pi < rows.len() {
            let r = &rows[pi];
            let ghost after = before.push(*r);
            assert(after.drop_last() =~= before);
            assert(after.last() == *r);
            let flags = flags_or_zero(r);
            let is_syn_flag = (flags & TCP_FLAG_SYN) != 0 && (flags & TCP_FLAG_ACK) == 0;
            let is_syn_ack_flag = (flags & TCP_FLAG_SYN) != 0 && (flags & TCP_FLAG_ACK) != 0;
            let is_pure_control = (flags & TCP_FLAG_SYN) != 0 || (flags & TCP_FLAG_FIN) != 0 || (
            flags & TCP_FLAG_RST) != 0;
            if is_syn_flag && syn_ts.is_none() {
                syn_ts = Some(r.ts);
            }
            if is_syn_ack_flag && syn_ack_ts.is_none() {
                syn_ack_ts = Some(r.ts);
            }
            if !is_pure_control && r.payload.len() > 0 {
                if first_data_ts.is_none() {
                    first_data_ts = Some(r.ts);
                }
                last_data_ts = Some(r.ts);
            }
            assert(p_data(*r) == (!is_pure_control && r.payload@.len() > 0));
        }
        k = k + 1;
    }
    assert(idx.take(idx.len() as int) =~= idx);
    let handshake_rtt_us = micros_span(syn_ts, syn_ack_ts);
    let server_think_us = micros_span(syn_ack_ts, first_data_ts);
    let data_transfer_us = if first_data_ts == last_data_ts {
        None
    } else {
        micros_span(first_data_ts, last_data_ts)
    };
    Some(TcpTiming { handshake_rtt_us, server_think_us, data_transfer_us })
}

/// The analysis of a flow over the rows.
pub open spec fn analysis_of(f: FlowStats, rows: Seq<PacketRow>) -> FlowAnalysis {
    let ps = picked(rows, f.packet_indices@);
    FlowAnalysis {
        health: health_of(f.key, ps),
        asymmetry: asymmetry_of(f.a_to_b.bytes as nat, f.b_to_a.bytes as nat),
        tcp_timing: timing_of(f.key, ps),
    }
}

/// Compute health badges, asymmetry labels, and TCP timing for every flow.
pub fn analyze_flows(flows: &mut FlowIndex, rows: &[PacketRow])
    ensures
        final(flows).flows.len() == old(flows).flows.len(),
        forall|j: int| 0 <= j < final(flows).flows.len() ==> same_stats(#[trigger] final(flows).flows[j], old(flows).flows[j]),
        forall|j: int| 0 <= j < final(flows).flows.len() ==> (#[trigger] final(flows).flows[j]).analysis
            == Some(analysis_of(old(flows).flows[j], rows@)),
{
    let ghost orig = flows.flows@;
    let mut j: usize = 0;
    while j < flows.flows.len()
        invariant
            j <= flows.flows.len(),
            flows.flows.len() == orig.len(),
            forall|q: int| 0 <= q < orig.len() ==> same_stats(#[trigger] flows.flows[q], orig[q]),
            forall|q: int| 0 <= q < j ==> (#[trigger] flows.flows[q]).analysis == Some(analysis_of(orig[q], rows@)),
        decreases orig.len() - j,
    {
        let health = compute_health(&flows.flows[j], rows);
        let asymmetry = compute_asymmetry(&flows.flows[j]);
        let tcp_timing = compute_tcp_timing(&flows.flows[j], rows);
        let ghost before = flows.flows@;
        flows.flows[j].analysis = Some(FlowAnalysis { health, asymmetry, tcp_timing });
        assert forall|q: int| 0 <= q < orig.len() implies same_stats(#[trigger] flows.flows[q], orig[q]) by {
            if q != j {
                assert(flows.flows[q] == before[q]);
            }
        }
        j = j + 1;
    }
}


// ------------------------------------------------------------ lookups

/// The flows between `a` and `b`, in either direction, in index order.
pub open spec fn endpoint_flows(fs: Seq<FlowStats>, a: IpAddr, b: IpAddr) -> Seq<FlowStats>
    decreases fs.len(),
{
    if fs.len() == 0 {
        Seq::empty()
    } else {
        let rest = endpoint_flows(fs.drop_last(), a, b);
        let k = fs.last().key;
        if (k.src == a && k.dst == b) || (k.src == b && k.dst == a) {
            rest.push(fs.last())
        } else {
            rest
        }
    }
}

pub open spec fn deref_flow(f: &FlowStats) -> FlowStats {
    *f
}

impl FlowIndex {
    /// The flows whose endpoints are `a` and `b`, either way round.
    pub fn by_endpoints(&self, a: IpAddr, b: IpAddr) -> (r: Vec<&FlowStats>)
        ensures
            r@.map_values(|f: &FlowStats| deref_flow(f)) == endpoint_flows(self.flows@, a, b),
    {
        let mut r: Vec<&FlowStats> = Vec::new();
        let mut i: usize = 0;
        while i < self.flows.len()
            invariant
                i <= self.flows.len(),
                r@.map_values(|f: &FlowStats| deref_flow(f)) == endpoint_flows(self.flows@.take(i as int), a, b),
            decreases self.flows.len() - i,
        {
            let f = &self.flows[i];
            let ghost pre = self.flows@.take(i as int);
            assert(self.flows@.take(i as int + 1).drop_last() =~= pre);
            let ghost before = r@;
            if (f.key.src == a && f.key.dst == b) || (f.key.src == b && f.key.dst == a) {
                r.push(f);
                assert(r@.map_values(|f: &FlowStats| deref_flow(f)) =~= before.map_values(
                    |f: &FlowStats| deref_flow(f),
                ).push(*f));
            }
            i = i + 1;
        }
        assert(self.flows@.take(self.flows.len() as int) =~= self.flows@);
        r
    }
}

impl Default for FlowStats {
    /// An empty flow under the placeholder key `0.0.0.0:0 → 0.0.0.0:0`, protocol number 0.
    fn default() -> (f: Self)
        ensures
            f.key == (FlowKey {
                src: IpAddr::V4(0),
                dst: IpAddr::V4(0),
                src_port: 0,
                dst_port: 0,
                proto: L4Proto::Other(0),
            }),
            f.total_packets == 0,
            f.total_bytes == 0,
            f.a_to_b == (DirStats { packets: 0, bytes: 0 }),
            f.b_to_a == (DirStats { packets: 0, bytes: 0 }),
            f.packet_indices@.len() == 0,
            f.analysis is None,
            f.first_ts is None,
            f.last_ts is None,
    {
        FlowStats {
            key: FlowKey {
                src: IpAddr::V4(0),
                dst: IpAddr::V4(0),
                src_port: 0,
                dst_port: 0,
                proto: L4Proto::Other(0),
            },
            total_packets: 0,
            total_bytes: 0,
            a_to_b: DirStats { packets: 0, bytes: 0 },
            b_to_a: DirStats { packets: 0, bytes: 0 },
            packet_indices: Vec::new(),
            analysis: None,
            first_ts: None,
            last_ts: None,
        }
    }
}

impl Default for DirStats {
    fn default() -> (d: Self)
        ensures
            d == (DirStats { packets: 0, bytes: 0 }),
    {
        DirStats { packets: 0, bytes: 0 }
    }
}

impl Default for FlowIndex {
    fn default() -> (fi: Self)
        ensures
            fi.flows@.len() == 0,
    {
        FlowIndex { flows: Vec::new() }
    }
}

} // verus!
