//! "What's weird?": curated detectors that flag flows worth a closer look.
use vstd::prelude::*;
use crate::flow::{
    any_retransmit, any_rst, any_where, lemma_any_where_push, lemma_picked_step, retransmit_row, rst_row, count_syn, count_syn_ack, flags_of, picked, FlowIndex, FlowStats,
    TCP_FLAG_ACK, TCP_FLAG_FIN, TCP_FLAG_RST, TCP_FLAG_SYN,
};
use crate::pcap::{IpAddr, L4Proto, PacketRow};

verus! {

#[derive(Debug, Clone, Copy, PartialEq, Eq, Structural)]
pub enum WeirdDetector {
    TcpResets,
    TcpHandshakeNotCompleted,
    TcpReliability,
    DeprecatedTls,
    DnsFailures,
    ChattyHosts,
    HighLatency,
}

pub struct WeirdItem {
    pub detector: WeirdDetector,
    pub title: String,
    pub why: String,
    /// Indices into `FlowIndex.flows`.
    pub flow_indices: Vec<usize>,
}

pub struct WeirdSummary {
    pub items: Vec<WeirdItem>,
}

/// Position of a detector in the fixed listing order.
pub open spec fn rank(d: WeirdDetector) -> nat {
    match d {
        WeirdDetector::TcpResets => 0,
        WeirdDetector::TcpHandshakeNotCompleted => 1,
        WeirdDetector::TcpReliability => 2,
        WeirdDetector::DeprecatedTls => 3,
        WeirdDetector::DnsFailures => 4,
        WeirdDetector::ChattyHosts => 5,
        WeirdDetector::HighLatency => 6,
    }
}

pub open spec fn detector_at(i: nat) -> WeirdDetector {
    if i == 0 {
        WeirdDetector::TcpResets
    } else if i == 1 {
        WeirdDetector::TcpHandshakeNotCompleted
    } else if i == 2 {
        WeirdDetector::TcpReliability
    } else if i == 3 {
        WeirdDetector::DeprecatedTls
    } else if i == 4 {
        WeirdDetector::DnsFailures
    } else if i == 5 {
        WeirdDetector::ChattyHosts
    } else {
        WeirdDetector::HighLatency
    }
}

pub open spec fn title_of(d: WeirdDetector) -> Seq<char> {
    match d {
        WeirdDetector::TcpResets => "TCP resets (RST)"@,
        WeirdDetector::TcpHandshakeNotCompleted => "Handshake not completed"@,
        WeirdDetector::TcpReliability => "TCP reliability hints (retransmits / out-of-order)"@,
        WeirdDetector::DeprecatedTls => "Deprecated TLS versions (≤ 1.1)"@,
        WeirdDetector::DnsFailures => "DNS failures (NXDOMAIN/SERVFAIL)"@,
        WeirdDetector::ChattyHosts => "Chatty hosts (burst connections)"@,
        WeirdDetector::HighLatency => "High-latency flows (rough)"@,
    }
}

pub open spec fn why_of(d: WeirdDetector) -> Seq<char> {
    match d {
        WeirdDetector::TcpResets => "RST usually means a connection was refused/aborted. A few can be normal, but lots of RSTs often point to blocked ports, app crashes, or middleboxes terminating connections."@,
        WeirdDetector::TcpHandshakeNotCompleted => "Repeated SYNs without a SYN,ACK often means the server didn’t respond (dropped packets, firewall), or the capture missed the return path. If these line up with user complaints, it’s a strong lead."@,
        WeirdDetector::TcpReliability => "Retransmitted or out-of-order segments point to packet loss, congestion or a flaky path. A few are normal; many on one flow usually mean users feel slowness."@,
        WeirdDetector::DeprecatedTls => "TLS 1.0 and 1.1 are deprecated and refused by modern clients. A server that still picks them is outdated or misconfigured."@,
        WeirdDetector::DnsFailures => "NXDOMAIN means the name does not exist; SERVFAIL means the resolver could not answer. Either one makes apps fail before they even connect."@,
        WeirdDetector::ChattyHosts => "Many new connections to one destination in a short time often mean polling, retry loops, or an app that opens a connection per request. Check whether that destination should see this much traffic."@,
        WeirdDetector::HighLatency => "If a flow takes a long time and has lots of packets, it can indicate latency, congestion, or retries. This is a rough heuristic and depends on correct timestamps."@,
    }
}

pub open spec fn count_fin(s: Seq<PacketRow>) -> nat
    decreases s.len(),
{
    if s.len() == 0 {
        0
    } else {
        count_fin(s.drop_last()) + (if flags_of(s.last()) & TCP_FLAG_FIN != 0 { 1nat } else { 0nat })
    }
}

/// A negotiated TLS version of 1.1 or older (SSL 3.0 included).
pub open spec fn deprecated_tls_row(r: PacketRow) -> bool {
    match r.tls_version {
        Some(v) => v <= 0x0302,
        None => false,
    }
}

/// A flow is long when its packets span at least this many nanoseconds (5 s).
pub const HIGH_LATENCY_MIN_SPAN_NS: i64 = 5_000_000_000;
/// A flow is busy when it holds at least this many packets.
pub const HIGH_LATENCY_MIN_PACKETS: u64 = 20;

/// A long and busy flow: at least `HIGH_LATENCY_MIN_PACKETS` packets, spread
/// over at least `HIGH_LATENCY_MIN_SPAN_NS` from its first to its last packet.
pub open spec fn long_and_busy(f: FlowStats) -> bool {
    &&& f.total_packets >= HIGH_LATENCY_MIN_PACKETS
    &&& f.first_ts is Some
    &&& f.last_ts is Some
    &&& f.last_ts.unwrap() - f.first_ts.unwrap() >= HIGH_LATENCY_MIN_SPAN_NS
}

/// A DNS answer with SERVFAIL (2) or NXDOMAIN (3).
pub open spec fn dns_failure_row(r: PacketRow) -> bool {
    r.dns_rcode == Some(2u16) || r.dns_rcode == Some(3u16)
}

/// Whether detector `d` flags flow `f`, judged on the rows its packet indices point at.
pub open spec fn detects(d: WeirdDetector, f: FlowStats, rows: Seq<PacketRow>) -> bool {
    let ps = picked(rows, f.packet_indices@);
    let tcp = f.key.proto == L4Proto::Tcp;
    match d {
        WeirdDetector::TcpResets => tcp && any_rst(ps),
        WeirdDetector::TcpHandshakeNotCompleted => tcp && count_syn(ps) >= 2 && count_syn_ack(ps) == 0
            && count_fin(ps) == 0,
        WeirdDetector::TcpReliability => tcp && any_retransmit(ps),
        WeirdDetector::DeprecatedTls => any_where(ps, |r: PacketRow| deprecated_tls_row(r)),
        WeirdDetector::DnsFailures => any_where(ps, |r: PacketRow| dns_failure_row(r)),
        WeirdDetector::HighLatency => long_and_busy(f),
        // judged across flows: see `chatty`
        WeirdDetector::ChattyHosts => false,
    }
}

/// Positions of the flows that `d` flags, ascending.
pub open spec fn flagged(fs: Seq<FlowStats>, rows: Seq<PacketRow>, d: WeirdDetector) -> Seq<usize>
    decreases fs.len(),
{
    if fs.len() == 0 {
        Seq::empty()
    } else {
        let rest = flagged(fs.drop_last(), rows, d);
        if detects(d, fs.last(), rows) {
            rest.push((fs.len() - 1) as usize)
        } else {
            rest
        }
    }
}

/// What the detectors look at in one flow.
pub struct FlowSignals {
    pub rst: bool,
    pub syn: usize,
    pub syn_ack: usize,
    pub fin: usize,
    pub retransmit: bool,
    pub deprecated_tls: bool,
    pub dns_failure: bool,
}

pub open spec fn signals_match(g: FlowSignals, ps: Seq<PacketRow>) -> bool {
    &&& g.rst == any_rst(ps)
    &&& g.syn == count_syn(ps)
    &&& g.syn_ack == count_syn_ack(ps)
    &&& g.fin == count_fin(ps)
    &&& g.retransmit == any_retransmit(ps)
    &&& g.deprecated_tls == any_where(ps, |r: PacketRow| deprecated_tls_row(r))
    &&& g.dns_failure == any_where(ps, |r: PacketRow| dns_failure_row(r))
}

fn flow_signals(fl: &FlowStats, rows: &[PacketRow]) -> (g: FlowSignals)
    ensures
        signals_match(g, picked(rows@, fl.packet_indices@)),
{
    let ghost idx = fl.packet_indices@;
    let mut g = FlowSignals {
        rst: false,
        syn: 0,
        syn_ack: 0,
        fin: 0,
        retransmit: false,
        deprecated_tls: false,
        dns_failure: false,
    };
    let mut k: usize = 0;
    while k < fl.packet_indices.len()
        invariant
            k <= idx.len(),
            idx == fl.packet_indices@,
            g.syn <= k,
            g.syn_ack <= k,
            g.fin <= k,
            signals_match(g, picked(rows@, idx.take(k as int))),
        decreases idx.len() - k,
    {
        let pi = fl.packet_indices[k];
        let ghost before = picked(rows@, idx.take(k as int));
        assert(idx.take(k + 1).drop_last() =~= idx.take(k as int));
        if pi < rows.len() {
            let r = &rows[pi];
            let ghost after = before.push(*r);
            assert(after.drop_last() =~= before);
            let flags: u16 = match r.tcp_flags {
                Some(f) => f,
                None => 0,
            };
            if (flags & TCP_FLAG_RST) != 0 {
                g.rst = true;
            }
            if (flags & TCP_FLAG_SYN) != 0 && (flags & TCP_FLAG_ACK) == 0 {
                g.syn = g.syn + 1;
            }
            if (flags & TCP_FLAG_SYN) != 0 && (flags & TCP_FLAG_ACK) != 0 {
                g.syn_ack = g.syn_ack + 1;
            }
            if (flags & TCP_FLAG_FIN) != 0 {
                g.fin = g.fin + 1;
            }
            if r.tcp_retransmission || r.tcp_out_of_order {
                g.retransmit = true;
            }
            match r.tls_version {
                Some(v) => {
                    if v <= 0x0302 {
                        g.deprecated_tls = true;
                    }
                },
                None => {},
            }
            if r.dns_rcode == Some(2u16) || r.dns_rcode == Some(3u16) {
                g.dns_failure = true;
            }
            proof {
                lemma_any_where_push(before, *r, |x: PacketRow| rst_row(x));
                lemma_any_where_push(before, *r, |x: PacketRow| retransmit_row(x));
                lemma_any_where_push(before, *r, |x: PacketRow| deprecated_tls_row(x));
                lemma_any_where_push(before, *r, |x: PacketRow| dns_failure_row(x));
            }
        }
        k = k + 1;
    }
    assert(idx.take(idx.len() as int) =~= idx);
    g
}

/// Positions `0..n` of `fs` that detector `d` flags (`flagged` over the first `n` flows).
proof fn lemma_flagged_step(fs: Seq<FlowStats>, rows: Seq<PacketRow>, d: WeirdDetector, i: int)
    requires
        0 <= i < fs.len(),
    ensures
        flagged(fs.take(i + 1), rows, d) == (if detects(d, fs[i], rows) {
            flagged(fs.take(i), rows, d).push(i as usize)
        } else {
            flagged(fs.take(i), rows, d)
        }),
{
    assert(fs.take(i + 1).drop_last() =~= fs.take(i));
}

/// Positions of the flows that detector `d` flags, ascending: flow by flow, or,
/// for chatty hosts, across flows.
pub open spec fn flagged_by(fs: Seq<FlowStats>, rows: Seq<PacketRow>, d: WeirdDetector) -> Seq<usize> {
    if d == WeirdDetector::ChattyHosts {
        chatty_positions(fs, rows, fs.len())
    } else {
        flagged(fs, rows, d)
    }
}

pub open spec fn item_matches(it: WeirdItem, d: WeirdDetector, fs: Seq<FlowStats>, rows: Seq<PacketRow>) -> bool {
    &&& it.detector == d
    &&& it.title@ == title_of(d)
    &&& it.why@ == why_of(d)
    &&& it.flow_indices@ == flagged_by(fs, rows, d)
}

/// Listing order: more flagged flows first; detectors that tie keep their fixed order.
pub open spec fn listed_before(a: WeirdItem, b: WeirdItem) -> bool {
    a.flow_indices@.len() > b.flow_indices@.len() || (a.flow_indices@.len() == b.flow_indices@.len()
        && rank(a.detector) < rank(b.detector))
}

fn make_item(d: WeirdDetector, list: &Vec<usize>) -> (it: WeirdItem)
    ensures
        it.detector == d,
        it.title@ == title_of(d),
        it.why@ == why_of(d),
        it.flow_indices@ == list@,
{
    let title = match d {
        WeirdDetector::TcpResets => "TCP resets (RST)".to_owned(),
        WeirdDetector::TcpHandshakeNotCompleted => "Handshake not completed".to_owned(),
        WeirdDetector::TcpReliability => "TCP reliability hints (retransmits / out-of-order)".to_owned(),
        WeirdDetector::DeprecatedTls => "Deprecated TLS versions (≤ 1.1)".to_owned(),
        WeirdDetector::DnsFailures => "DNS failures (NXDOMAIN/SERVFAIL)".to_owned(),
        WeirdDetector::ChattyHosts => "Chatty hosts (burst connections)".to_owned(),
        WeirdDetector::HighLatency => "High-latency flows (rough)".to_owned(),
    };
    let why = match d {
        WeirdDetector::TcpResets => "RST usually means a connection was refused/aborted. A few can be normal, but lots of RSTs often point to blocked ports, app crashes, or middleboxes terminating connections.".to_owned(),
        WeirdDetector::TcpHandshakeNotCompleted => "Repeated SYNs without a SYN,ACK often means the server didn’t respond (dropped packets, firewall), or the capture missed the return path. If these line up with user complaints, it’s a strong lead.".to_owned(),
        WeirdDetector::TcpReliability => "Retransmitted or out-of-order segments point to packet loss, congestion or a flaky path. A few are normal; many on one flow usually mean users feel slowness.".to_owned(),
        WeirdDetector::DeprecatedTls => "TLS 1.0 and 1.1 are deprecated and refused by modern clients. A server that still picks them is outdated or misconfigured.".to_owned(),
        WeirdDetector::DnsFailures => "NXDOMAIN means the name does not exist; SERVFAIL means the resolver could not answer. Either one makes apps fail before they even connect.".to_owned(),
        WeirdDetector::ChattyHosts => "Many new connections to one destination in a short time often mean polling, retry loops, or an app that opens a connection per request. Check whether that destination should see this much traffic.".to_owned(),
        WeirdDetector::HighLatency => "If a flow takes a long time and has lots of packets, it can indicate latency, congestion, or retries. This is a rough heuristic and depends on correct timestamps.".to_owned(),
    };
    let mut v: Vec<usize> = Vec::new();
    let mut i: usize = 0;
    while i < list.len()
        invariant
            i <= list.len(),
            v@ == list@.take(i as int),
        decreases list.len() - i,
    {
        v.push(list[i]);
        i = i + 1;
        assert(v@ =~= list@.take(i as int));
    }
    assert(list@.take(list.len() as int) =~= list@);
    WeirdItem { detector: d, title, why, flow_indices: v }
}

fn detector_of(i: usize) -> (d: WeirdDetector)
    requires
        i < 7,
    ensures
        d == detector_at(i as nat),
        rank(d) == i,
{
    if i == 0 {
        WeirdDetector::TcpResets
    } else if i == 1 {
        WeirdDetector::TcpHandshakeNotCompleted
    } else if i == 2 {
        WeirdDetector::TcpReliability
    } else if i == 3 {
        WeirdDetector::DeprecatedTls
    } else if i == 4 {
        WeirdDetector::DnsFailures
    } else if i == 5 {
        WeirdDetector::ChattyHosts
    } else {
        WeirdDetector::HighLatency
    }
}

// ------------------------------------------------------------ chatty hosts

/// Flows that open within this many nanoseconds (60 s) of a burst's first flow
/// belong to the burst.
pub const CHATTY_WINDOW_NS: i64 = 60_000_000_000;
/// A burst is this many flows or more to one destination.
pub const CHATTY_MIN_FLOWS: usize = 10;

/// Where a flow's first observed packet went.
pub open spec fn flow_dest(f: FlowStats, rows: Seq<PacketRow>) -> Option<IpAddr> {
    let ps = picked(rows, f.packet_indices@);
    if ps.len() > 0 { ps[0].dst } else { None }
}

/// Flow `g` goes to the destination of flow `h` and starts within the window
/// that opens when `h` starts.
pub open spec fn in_burst_window(fs: Seq<FlowStats>, rows: Seq<PacketRow>, h: int, g: int) -> bool {
    &&& flow_dest(fs[h], rows) is Some
    &&& flow_dest(fs[g], rows) == flow_dest(fs[h], rows)
    &&& fs[h].first_ts is Some
    &&& fs[g].first_ts is Some
    &&& fs[h].first_ts.unwrap() <= fs[g].first_ts.unwrap()
    &&& fs[g].first_ts.unwrap() - fs[h].first_ts.unwrap() <= CHATTY_WINDOW_NS
}

/// How many of the first `n` flows fall in the window of flow `h`.
pub open spec fn window_count(fs: Seq<FlowStats>, rows: Seq<PacketRow>, h: int, n: nat) -> nat
    decreases n,
{
    if n == 0 {
        0
    } else {
        window_count(fs, rows, h, (n - 1) as nat) + (if in_burst_window(fs, rows, h, n - 1) { 1nat } else { 0nat })
    }
}

/// A burst opens with flow `h`: enough flows to its destination start within its window.
pub open spec fn burst_start(fs: Seq<FlowStats>, rows: Seq<PacketRow>, h: int) -> bool {
    window_count(fs, rows, h, fs.len()) >= CHATTY_MIN_FLOWS
}

/// Flow `i` is part of a burst of flows to its destination.
pub open spec fn chatty(fs: Seq<FlowStats>, rows: Seq<PacketRow>, i: int) -> bool {
    exists|h: int| #![trigger in_burst_window(fs, rows, h, i)] 0 <= h < fs.len() && burst_start(fs, rows, h) && in_burst_window(fs, rows, h, i)
}

/// Positions, among the first `n` flows, of those in a burst; ascending.
pub open spec fn chatty_positions(fs: Seq<FlowStats>, rows: Seq<PacketRow>, n: nat) -> Seq<usize>
    decreases n,
{
    if n == 0 {
        Seq::empty()
    } else {
        let rest = chatty_positions(fs, rows, (n - 1) as nat);
        if chatty(fs, rows, n - 1) {
            rest.push((n - 1) as usize)
        } else {
            rest
        }
    }
}

proof fn lemma_picked_prefix(rows: Seq<PacketRow>, idx: Seq<usize>, k: int, n: int)
    requires
        0 <= k <= n <= idx.len(),
    ensures
        picked(rows, idx.take(k)).len() <= picked(rows, idx.take(n)).len(),
        forall|j: int| 0 <= j < picked(rows, idx.take(k)).len() ==> picked(rows, idx.take(n))[j] == #[trigger] picked(rows, idx.take(k))[j],
    decreases n - k,
{
    if k < n {
        lemma_picked_prefix(rows, idx, k, n - 1);
        lemma_picked_step(rows, idx, n - 1);
    }
}

/// The destination of a flow's first observed packet.
fn first_dest(fl: &FlowStats, rows: &[PacketRow]) -> (d: Option<IpAddr>)
    ensures
        d == flow_dest(*fl, rows@),
{
    let ghost idx = fl.packet_indices@;
    let mut k: usize = 0;
    assert(idx.take(0) =~= Seq::<usize>::empty());
    while k < fl.packet_indices.len()
        invariant
            k <= idx.len(),
            idx == fl.packet_indices@,
            picked(rows@, idx.take(k as int)).len() == 0,
        decreases idx.len() - k,
    {
        proof {
            lemma_picked_step(rows@, idx, k as int);
        }
        let pi = fl.packet_indices[k];
        if pi < rows.len() {
            proof {
                lemma_picked_prefix(rows@, idx, k + 1, idx.len() as int);
                assert(idx.take(idx.len() as int) =~= idx);
                assert(picked(rows@, idx.take(k + 1))[0] == rows@[pi as int]);
            }
            return rows[pi].dst;
        }
        k = k + 1;
    }
    assert(idx.take(idx.len() as int) =~= idx);
    None
}

/// Each flow's destination and start.
fn flow_marks(flows: &FlowIndex, rows: &[PacketRow]) -> (m: Vec<(Option<IpAddr>, Option<i64>)>)
    ensures
        m@.len() == flows.flows@.len(),
        forall|j: int| 0 <= j < m@.len() ==> (#[trigger] m@[j]).0 == flow_dest(flows.flows@[j], rows@)
            && m@[j].1 == flows.flows@[j].first_ts,
{
    let mut m: Vec<(Option<IpAddr>, Option<i64>)> = Vec::new();
    let mut i: usize = 0;
    while i < flows.flows.len()
        invariant
            i <= flows.flows@.len(),
            m@.len() == i,
            forall|j: int| 0 <= j < i ==> (#[trigger] m@[j]).0 == flow_dest(flows.flows@[j], rows@)
                && m@[j].1 == flows.flows@[j].first_ts,
        decreases flows.flows@.len() - i,
    {
        let d = first_dest(&flows.flows[i], rows);
        m.push((d, flows.flows[i].first_ts));
        i = i + 1;
    }
    m
}

/// The marks of `m` say what `in_burst_window` asks of flows `h` and `g`.
pub open spec fn marks_in_window(m: Seq<(Option<IpAddr>, Option<i64>)>, h: int, g: int) -> bool {
    &&& m[h].0 is Some
    &&& m[g].0 == m[h].0
    &&& m[h].1 is Some
    &&& m[g].1 is Some
    &&& m[h].1.unwrap() <= m[g].1.unwrap()
    &&& m[g].1.unwrap() - m[h].1.unwrap() <= CHATTY_WINDOW_NS
}

fn in_window(m: &Vec<(Option<IpAddr>, Option<i64>)>, h: usize, g: usize) -> (b: bool)
    requires
        h < m@.len(),
        g < m@.len(),
    ensures
        b == marks_in_window(m@, h as int, g as int),
{
    match (m[h].0, m[g].0, m[h].1, m[g].1) {
        (Some(a), Some(b), Some(th), Some(tg)) => a == b && th <= tg && (tg as i128) - (th as i128) <= 60_000_000_000i128,
        _ => false,
    }
}

/// Positions of the flows that belong to a burst of at least ten flows to one
/// destination opening within 60 seconds; ascending.
fn chatty_flows(flows: &FlowIndex, rows: &[PacketRow]) -> (v: Vec<usize>)
    ensures
        v@ == chatty_positions(flows.flows@, rows@, flows.flows@.len()),
{
    let ghost fs = flows.flows@;
    let m = flow_marks(flows, rows);
    let n = m.len();
    assert forall|h: int, g: int| 0 <= h < n && 0 <= g < n implies marks_in_window(m@, h, g) == in_burst_window(fs, rows@, h, g) by {}
    let mut starts: Vec<bool> = Vec::new();
    let mut h: usize = 0;
    while h < n
        invariant
            n == m@.len(),
            n == fs.len(),
            h <= n,
            starts@.len() == h,
            forall|a: int, g: int| 0 <= a < n && 0 <= g < n ==> marks_in_window(m@, a, g) == in_burst_window(fs, rows@, a, g),
            forall|a: int| 0 <= a < h ==> (#[trigger] starts@[a]) == burst_start(fs, rows@, a),
        decreases n - h,
    {
        let mut count: usize = 0;
        let mut g: usize = 0;
        while g < n
            invariant
                n == m@.len(),
                n == fs.len(),
                h < n,
                g <= n,
                count <= g,
                count == window_count(fs, rows@, h as int, g as nat),
                forall|a: int, b: int| 0 <= a < n && 0 <= b < n ==> marks_in_window(m@, a, b) == in_burst_window(fs, rows@, a, b),
            decreases n - g,
        {
            if in_window(&m, h, g) {
                count = count + 1;
            }
            g = g + 1;
        }
        starts.push(count >= CHATTY_MIN_FLOWS);
        h = h + 1;
    }
    let mut v: Vec<usize> = Vec::new();
    let mut i: usize = 0;
    while i < n
        invariant
            n == m@.len(),
            n == fs.len(),
            i <= n,
            starts@.len() == n,
            forall|a: int, g: int| 0 <= a < n && 0 <= g < n ==> marks_in_window(m@, a, g) == in_burst_window(fs, rows@, a, g),
            forall|a: int| 0 <= a < n ==> (#[trigger] starts@[a]) == burst_start(fs, rows@, a),
            v@ == chatty_positions(fs, rows@, i as nat),
        decreases n - i,
    {
        let mut found = false;
        let mut a: usize = 0;
        while a < n
            invariant
                n == m@.len(),
                n == fs.len(),
                i < n,
                a <= n,
                starts@.len() == n,
                forall|b: int, g: int| 0 <= b < n && 0 <= g < n ==> marks_in_window(m@, b, g) == in_burst_window(fs, rows@, b, g),
                forall|b: int| 0 <= b < n ==> (#[trigger] starts@[b]) == burst_start(fs, rows@, b),
                found == exists|b: int| #![trigger in_burst_window(fs, rows@, b, i as int)] 0 <= b < a && burst_start(fs, rows@, b) && in_burst_window(fs, rows@, b, i as int),
            decreases n - a,
        {
            if starts[a] && in_window(&m, a, i) {
                found = true;
                assert(burst_start(fs, rows@, a as int) && in_burst_window(fs, rows@, a as int, i as int));
            }
            a = a + 1;
        }
        if found {
            v.push(i);
        }
        i = i + 1;
    }
    v
}

/// Run every detector over every flow. Each item lists the positions (in
/// `flows.flows`) of the flows its detector flags; the items come with the most
/// flagged flows first, ties in the fixed detector order.
/// `items` is the weird-stuff summary of the flows over the rows: one item per
/// detector, each listing the flows it flags, in listing order.
pub open spec fn weird_summary_of(items: Seq<WeirdItem>, fs: Seq<FlowStats>, rows: Seq<PacketRow>) -> bool {
    &&& items.len() == 7
    &&& forall|p: int| 0 <= p < 7 ==> item_matches(#[trigger] items[p], items[p].detector, fs, rows)
    &&& forall|p: int, q: int| 0 <= p < q < 7 ==> (#[trigger] items[p]).detector != (#[trigger] items[q]).detector
    &&& forall|p: int, q: int| 0 <= p < q < 7 ==> listed_before(#[trigger] items[p], #[trigger] items[q])
}

pub fn build_weird_summary(rows: &[PacketRow], flows: &FlowIndex) -> (w: WeirdSummary)
    ensures
        w.items.len() == 7,
        forall|p: int| 0 <= p < 7 ==> item_matches(#[trigger] w.items[p], w.items[p].detector, flows.flows@, rows@),
        forall|p: int, q: int| 0 <= p < q < 7 ==> (#[trigger] w.items[p]).detector != (#[trigger] w.items[q]).detector,
        forall|p: int, q: int| 0 <= p < q < 7 ==> listed_before(#[trigger] w.items[p], #[trigger] w.items[q]),
        weird_summary_of(w.items@, flows.flows@, rows@),
{
    let ghost fs = flows.flows@;
    let mut l0: Vec<usize> = Vec::new();
    let mut l1: Vec<usize> = Vec::new();
    let mut l2: Vec<usize> = Vec::new();
    let mut l3: Vec<usize> = Vec::new();
    let mut l4: Vec<usize> = Vec::new();
    let mut l6: Vec<usize> = Vec::new();
    let mut i: usize = 0;
    while i < flows.flows.len()
        invariant
            i <= fs.len(),
            fs == flows.flows@,
            l0@ == flagged(fs.take(i as int), rows@, WeirdDetector::TcpResets),
            l1@ == flagged(fs.take(i as int), rows@, WeirdDetector::TcpHandshakeNotCompleted),
            l2@ == flagged(fs.take(i as int), rows@, WeirdDetector::TcpReliability),
            l3@ == flagged(fs.take(i as int), rows@, WeirdDetector::DeprecatedTls),
            l4@ == flagged(fs.take(i as int), rows@, WeirdDetector::DnsFailures),
            l6@ == flagged(fs.take(i as int), rows@, WeirdDetector::HighLatency),
        decreases fs.len() - i,
    {
        let fl = &flows.flows[i];
        let g = flow_signals(fl, rows);
        let tcp = fl.key.proto == L4Proto::Tcp;
        proof {
            lemma_flagged_step(fs, rows@, WeirdDetector::TcpResets, i as int);
            lemma_flagged_step(fs, rows@, WeirdDetector::TcpHandshakeNotCompleted, i as int);
            lemma_flagged_step(fs, rows@, WeirdDetector::TcpReliability, i as int);
            lemma_flagged_step(fs, rows@, WeirdDetector::DeprecatedTls, i as int);
            lemma_flagged_step(fs, rows@, WeirdDetector::DnsFailures, i as int);
            lemma_flagged_step(fs, rows@, WeirdDetector::HighLatency, i as int);
        }
        if tcp && g.rst {
            l0.push(i);
        }
        if tcp && g.syn >= 2 && g.syn_ack == 0 && g.fin == 0 {
            l1.push(i);
        }
        if tcp && g.retransmit {
            l2.push(i);
        }
        if g.deprecated_tls {
            l3.push(i);
        }
        if g.dns_failure {
            l4.push(i);
        }
        let long_busy = fl.total_packets >= HIGH_LATENCY_MIN_PACKETS && match (fl.first_ts, fl.last_ts) {
            (Some(a), Some(b)) => (b as i128) - (a as i128) >= HIGH_LATENCY_MIN_SPAN_NS as i128,
            _ => false,
        };
        if long_busy {
            l6.push(i);
        }
        i = i + 1;
    }
    assert(fs.take(fs.len() as int) =~= fs);
    let l5 = chatty_flows(flows, rows);
    let mut lists: Vec<Vec<usize>> = Vec::new();
    lists.push(l0);
    lists.push(l1);
    lists.push(l2);
    lists.push(l3);
    lists.push(l4);
    lists.push(l5);
    lists.push(l6);
    assert forall|r: int| 0 <= r < 7 implies (#[trigger] lists[r])@ == flagged_by(fs, rows@, detector_at(r as nat)) by {}
    // stable insertion sort of the detector positions
    let mut order: Vec<usize> = Vec::new();
    let mut r: usize = 0;
    while r < 7
        invariant
            r <= 7,
            lists.len() == 7,
            order.len() == r,
            forall|p: int| 0 <= p < order.len() ==> order[p] < r,
            forall|p: int, q: int| 0 <= p < q < order.len() ==> order[p] != order[q],
            forall|p: int, q: int| 0 <= p < q < order.len() ==> (lists[order[p] as int]@.len() > lists[order[q] as int]@.len()
                || (lists[order[p] as int]@.len() == lists[order[q] as int]@.len() && order[p] < order[q])),
        decreases 7 - r,
    {
        let mut pos: usize = 0;
        while pos < order.len() && lists[order[pos]].len() >= lists[r].len()
            invariant
                pos <= order.len(),
                r < 7,
                lists.len() == 7,
                forall|p: int| 0 <= p < order.len() ==> order[p] < r,
                forall|q: int| 0 <= q < pos ==> lists[order[q] as int]@.len() >= lists[r as int]@.len(),
            decreases order.len() - pos,
        {
            pos = pos + 1;
        }
        let ghost old_order = order@;
        order.insert(pos, r);
        assert(order@ == old_order.insert(pos as int, r));
        assert forall|p: int, q: int| 0 <= p < q < order.len() implies (lists[order[p] as int]@.len() > lists[order[q] as int]@.len()
            || (lists[order[p] as int]@.len() == lists[order[q] as int]@.len() && order[p] < order[q])) by {
            if q < pos {
                assert(order[p] == old_order[p] && order[q] == old_order[q]);
            } else if q == pos {
                assert(order[p] == old_order[p]);
            } else if p == pos {
                assert(order[q] == old_order[q - 1]);
                assert(lists[old_order[pos as int] as int]@.len() < lists[r as int]@.len());
            } else if p < pos {
                assert(order[p] == old_order[p] && order[q] == old_order[q - 1]);
            } else {
                assert(order[p] == old_order[p - 1] && order[q] == old_order[q - 1]);
            }
        }
        assert forall|p: int, q: int| 0 <= p < q < order.len() implies order[p] != order[q] by {
            if q < pos {
                assert(order[p] == old_order[p] && order[q] == old_order[q]);
            } else if q == pos {
                assert(order[p] == old_order[p]);
            } else if p == pos {
                assert(order[q] == old_order[q - 1]);
            } else if p < pos {
                assert(order[p] == old_order[p] && order[q] == old_order[q - 1]);
            } else {
                assert(order[p] == old_order[p - 1] && order[q] == old_order[q - 1]);
            }
        }
        r = r + 1;
    }
    let mut items: Vec<WeirdItem> = Vec::new();
    let mut k: usize = 0;
    while k < 7
        invariant
            k <= 7,
            order.len() == 7,
            lists.len() == 7,
            items.len() == k,
            forall|p: int| 0 <= p < 7 ==> order[p] < 7,
            forall|r: int| 0 <= r < 7 ==> (#[trigger] lists[r])@ == flagged_by(fs, rows@, detector_at(r as nat)),
            forall|p: int| 0 <= p < k ==> item_matches(#[trigger] items[p], detector_at(order[p] as nat), fs, rows@),
            forall|p: int| 0 <= p < k ==> rank((#[trigger] items[p]).detector) == order[p],
        decreases 7 - k,
    {
        let d = detector_of(order[k]);
        let it = make_item(d, &lists[order[k]]);
        items.push(it);
        k = k + 1;
    }
    assert forall|p: int, q: int| 0 <= p < q < 7 implies (#[trigger] items[p]).detector != (#[trigger] items[q]).detector by {
        assert(rank(items[p].detector) != rank(items[q].detector));
    }
    assert forall|p: int, q: int| 0 <= p < q < 7 implies listed_before(#[trigger] items[p], #[trigger] items[q]) by {
        assert(items[p].flow_indices@ == lists[order[p] as int]@);
        assert(items[q].flow_indices@ == lists[order[q] as int]@);
    }
    WeirdSummary { items }
}

} // verus!
