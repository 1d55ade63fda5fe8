//! Domains: hostnames seen in DNS, HTTP Host and TLS SNI, with the flows and
//! addresses that go with them.
use vstd::prelude::*;
use crate::flow::{FlowIndex, FlowStats};
use crate::hints::{be16, be16_at, dns_name, opt_text, read_dns_name};
use crate::pcap::{canonical_of, FlowKey, IpAddr, L4Proto, PacketRow};
use crate::text::chars_of;

verus! {

/// What a DNS message says that the domains view needs.
pub struct DnsParsed {
    pub qname: String,
    pub is_response: bool,
    pub rcode: u8,
    pub answer_ips: Vec<IpAddr>,
}

pub ghost struct DnsModel {
    pub qname: Seq<char>,
    pub is_response: bool,
    pub rcode: u8,
    pub answer_ips: Seq<IpAddr>,
}

pub open spec fn be32(p: Seq<u8>, i: int) -> u32 {
    (p[i] as int * 0x1000000 + p[i + 1] as int * 0x10000 + p[i + 2] as int * 0x100 + p[i + 3] as int) as u32
}

pub open spec fn be128(p: Seq<u8>, i: int, n: nat) -> u128
    decreases n,
{
    if n == 0 {
        0
    } else {
        (be128(p, i, (n - 1) as nat) as int * 256 + p[i + n - 1] as int) as u128
    }
}

/// The address an answer record carries: an A record with 4 bytes of data or an
/// AAAA record with 16.
pub open spec fn answer_ip(p: Seq<u8>, rr_type: int, at: int, rdlen: int) -> Option<IpAddr> {
    if rr_type == 1 && rdlen == 4 {
        Some(IpAddr::V4(be32(p, at)))
    } else if rr_type == 28 && rdlen == 16 {
        Some(IpAddr::V6(be128(p, at, 16)))
    } else {
        None
    }
}

/// The addresses of `count` answer records starting at `off`, or `None` when a
/// record runs past the end of the message.
pub open spec fn dns_answers(p: Seq<u8>, off: nat, count: nat) -> Option<Seq<IpAddr>>
    decreases count,
{
    if count == 0 {
        Some(Seq::empty())
    } else {
        match dns_name(p, off, 0) {
            None => None,
            Some((_n, e)) => if e + 10 > p.len() {
                None
            } else {
                let rdlen = be16(p, e + 8int);
                let data = e + 10;
                if data + rdlen > p.len() {
                    None
                } else {
                    match dns_answers(p, (data + rdlen) as nat, (count - 1) as nat) {
                        None => None,
                        Some(rest) => Some(
                            match answer_ip(p, be16(p, e as int), data as int, rdlen) {
                                Some(ip) => seq![ip] + rest,
                                None => rest,
                            },
                        ),
                    }
                }
            },
        }
    }
}

/// A DNS message: header flags, the first question's name (empty when there is
/// none) and the A/AAAA addresses among the answers.
pub open spec fn dns_message(p: Seq<u8>) -> Option<DnsModel> {
    if p.len() < 12 {
        None
    } else {
        let flags = be16(p, 2);
        let question = if be16(p, 4) > 0 {
            match dns_name(p, 12, 0) {
                None => None,
                Some((name, e)) => if e + 4 > p.len() {
                    None
                } else {
                    Some((name, e + 4))
                },
            }
        } else {
            Some((Seq::<char>::empty(), 12nat))
        };
        match question {
            None => None,
            Some((qname, off)) => match dns_answers(p, off, be16(p, 6) as nat) {
                None => None,
                Some(ips) => Some(
                    DnsModel {
                        qname,
                        is_response: flags >= 0x8000,
                        rcode: (flags % 16) as u8,
                        answer_ips: ips,
                    },
                ),
            },
        }
    }
}

pub open spec fn with_ips(acc: Seq<IpAddr>, x: Option<Seq<IpAddr>>) -> Option<Seq<IpAddr>> {
    match x {
        None => None,
        Some(rest) => Some(acc + rest),
    }
}

fn read_ip(p: &[u8], at: usize, n: usize) -> (r: u128)
    requires
        at + n <= p@.len(),
        n <= 16,
    ensures
        r == be128(p@, at as int, n as nat),
        r < pow256(n as nat),
    decreases n,
{
    assert(p@.len() == p.len());
    if n == 0 {
        0
    } else {
        let hi = read_ip(p, at, n - 1);
        proof {
            lemma_pow256_step((n - 1) as nat);
            assert(hi * 256 + p@[at + n - 1] < pow256(n as nat)) by (nonlinear_arith)
                requires
                    hi < pow256((n - 1) as nat),
                    p@[at + n - 1] < 256,
                    pow256(n as nat) == pow256((n - 1) as nat) * 256,
            ;
            lemma_pow256_bound(n as nat);
        }
        hi * 256 + p[at + n - 1] as u128
    }
}

pub open spec fn pow256(n: nat) -> nat
    decreases n,
{
    if n == 0 {
        1
    } else {
        pow256((n - 1) as nat) * 256
    }
}

proof fn lemma_pow256_step(n: nat)
    ensures
        pow256(n + 1) == pow256(n) * 256,
{
}

proof fn lemma_pow256_bound(n: nat)
    requires
        n <= 16,
    ensures
        pow256(n) <= pow256(16),
        pow256(16) == 0x1_0000_0000_0000_0000_0000_0000_0000_0000,
    decreases 16 - n,
{
    reveal_with_fuel(pow256, 17);
    if n < 16 {
        lemma_pow256_bound(n + 1);
        assert(pow256(n + 1) == pow256(n) * 256);
    }
}

/// Parse the header, the first question name and the A/AAAA answers of a DNS message.
pub fn parse_dns_message(buf: &[u8]) -> (r: Option<DnsParsed>)
    ensures
        match r {
            None => dns_message(buf@) is None,
            Some(m) => dns_message(buf@) == Some(
                DnsModel { qname: m.qname@, is_response: m.is_response, rcode: m.rcode, answer_ips: m.answer_ips@ },
            ),
        },
{
    if buf.len() < 12 {
        return None;
    }
    let flags = be16_at(buf, 2);
    let is_response = flags >= 0x8000;
    let rcode = (flags % 16) as u8;
    let qdcount = be16_at(buf, 4);
    let ancount = be16_at(buf, 6);
    let mut off: usize = 12;
    let mut qname = String::new();
    if qdcount > 0 {
        match read_dns_name(buf, 12, 0) {
            None => {
                return None;
            },
            Some((name, e)) => {
                if e > buf.len() - 4 {
                    return None;
                }
                qname = name;
                off = e + 4;
            },
        }
    }
    assert(off <= buf@.len());
    let ghost start = off as nat;
    let ghost qtext = qname@;
    assert(dns_message(buf@) == match dns_answers(buf@, start, ancount as nat) {
        None => None,
        Some(ips) => Some(DnsModel { qname: qtext, is_response, rcode, answer_ips: ips }),
    });
    let mut answer_ips: Vec<IpAddr> = Vec::new();
    let mut i: u128 = 0;
    while i < ancount
        invariant
            i <= ancount,
            ancount < 65536,
            off <= buf@.len(),
            qname@ == qtext,
            dns_message(buf@) == match dns_answers(buf@, start, ancount as nat) {
                None => None,
                Some(ips) => Some(DnsModel { qname: qtext, is_response, rcode, answer_ips: ips }),
            },
            dns_answers(buf@, start, ancount as nat) == with_ips(answer_ips@, dns_answers(buf@, off as nat, (ancount - i) as nat)),
        decreases ancount - i,
    {
        let ghost before = answer_ips@;
        match read_dns_name(buf, off, 0) {
            None => {
                return None;
            },
            Some((_name, e)) => {
                if buf.len() < 10 || e > buf.len() - 10 {
                    return None;
                }
                let rr_type = be16_at(buf, e as u128);
                let rdlen = be16_at(buf, (e + 8) as u128) as usize;
                let data = e + 10;
                if rdlen > buf.len() - data {
                    return None;
                }
                if rr_type == 1 && rdlen == 4 {
                    let v = read_ip(buf, data, 4);
                    proof {
                        reveal_with_fuel(be128, 5);
                        reveal_with_fuel(pow256, 5);
                    }
                    assert(v as u32 == be32(buf@, data as int));
                    answer_ips.push(IpAddr::V4(v as u32));
                } else if rr_type == 28 && rdlen == 16 {
                    let v = read_ip(buf, data, 16);
                    answer_ips.push(IpAddr::V6(v));
                }
                proof {
                    let rest = dns_answers(buf@, (data + rdlen) as nat, (ancount - i - 1) as nat);
                    match rest {
                        None => {},
                        Some(r2) => {
                            match answer_ip(buf@, rr_type as int, data as int, rdlen as int) {
                                Some(ip) => {
                                    assert(before + (seq![ip] + r2) =~= answer_ips@ + r2);
                                },
                                None => {
                                    assert(answer_ips@ == before);
                                },
                            }
                        },
                    }
                }
                off = data + rdlen;
            },
        }
        i = i + 1;
    }
    assert(answer_ips@ + Seq::<IpAddr>::empty() =~= answer_ips@);
    Some(DnsParsed { qname, is_response, rcode, answer_ips })
}

// ------------------------------------------------------------ domain events

/// One sighting of a hostname in a row: a DNS query (`kind` 0), a DNS answer
/// (1, or 2 when it reports an error), or an HTTP Host / TLS SNI hint (0, with
/// the row's addresses as observed ones).
pub ghost struct DomainEvent {
    pub domain: Seq<char>,
    pub kind: u8,
    pub ips: Seq<IpAddr>,
    pub observed: Seq<IpAddr>,
    pub flow: Option<FlowKey>,
}

pub struct Sighting {
    pub domain: Vec<char>,
    pub kind: u8,
    pub ips: Vec<IpAddr>,
    pub observed: Vec<IpAddr>,
    pub flow: Option<FlowKey>,
}

pub open spec fn sighting_view(s: Sighting) -> DomainEvent {
    DomainEvent { domain: s.domain@, kind: s.kind, ips: s.ips@, observed: s.observed@, flow: s.flow }
}

pub open spec fn is_dns_row(r: PacketRow) -> bool {
    r.proto == Some(L4Proto::Udp) && (r.src_port == Some(53u16) || r.dst_port == Some(53u16))
}

/// The DNS sighting of a row: from its parsed payload when that parses (and names
/// something), else from the capture tool's query-name hint.
pub open spec fn dns_event(r: PacketRow) -> Seq<DomainEvent> {
    if !is_dns_row(r) {
        Seq::empty()
    } else {
        match dns_message(r.payload@) {
            Some(m) => if m.qname.len() == 0 {
                Seq::empty()
            } else {
                seq![
                    DomainEvent {
                        domain: m.qname,
                        kind: if !m.is_response { 0 } else if m.rcode != 0 { 2 } else { 1 },
                        ips: if m.is_response { m.answer_ips } else { Seq::empty() },
                        observed: Seq::empty(),
                        flow: r.flow,
                    },
                ]
            },
            None => match opt_text(r.dns_qname) {
                None => Seq::empty(),
                Some(q) => seq![
                    DomainEvent {
                        domain: q,
                        kind: match r.dns_rcode {
                            None => 0,
                            Some(rc) => if rc != 0 { 2 } else { 1 },
                        },
                        ips: Seq::empty(),
                        observed: Seq::empty(),
                        flow: r.flow,
                    },
                ],
            },
        }
    }
}

/// The row's addresses, destination first.
pub open spec fn row_addrs(r: PacketRow) -> Seq<IpAddr> {
    (match r.dst {
        Some(a) => seq![a],
        None => Seq::empty(),
    }) + (match r.src {
        Some(a) => seq![a],
        None => Seq::empty(),
    })
}

pub open spec fn hint_event(r: PacketRow, h: Option<Seq<char>>) -> Seq<DomainEvent> {
    match h {
        None => Seq::empty(),
        Some(d) => seq![DomainEvent { domain: d, kind: 0, ips: Seq::empty(), observed: row_addrs(r), flow: r.flow }],
    }
}

pub open spec fn row_events(r: PacketRow) -> Seq<DomainEvent> {
    dns_event(r) + hint_event(r, opt_text(r.http_host)) + hint_event(r, opt_text(r.tls_sni))
}

pub open spec fn events_of(rows: Seq<PacketRow>) -> Seq<DomainEvent>
    decreases rows.len(),
{
    if rows.len() == 0 {
        Seq::empty()
    } else {
        events_of(rows.drop_last()) + row_events(rows.last())
    }
}

pub open spec fn sightings(v: Seq<Sighting>) -> Seq<DomainEvent> {
    v.map_values(|s: Sighting| sighting_view(s))
}

fn copy_ips(v: &Vec<IpAddr>) -> (c: Vec<IpAddr>)
    ensures
        c@ == v@,
{
    let mut c: Vec<IpAddr> = Vec::new();
    let mut i: usize = 0;
    while i < v.len()
        invariant
            i <= v.len(),
            c@ == v@.take(i as int),
        decreases v.len() - i,
    {
        c.push(v[i]);
        i = i + 1;
        assert(c@ =~= v@.take(i as int));
    }
    assert(v@.take(v.len() as int) =~= v@);
    c
}

fn push_hint(out: &mut Vec<Sighting>, r: &PacketRow, h: &Option<String>)
    ensures
        sightings(final(out)@) == sightings(old(out)@) + hint_event(*r, opt_text(*h)),
{
    let ghost before = out@;
    match h {
        None => {
            assert(sightings(out@) =~= sightings(before) + Seq::<DomainEvent>::empty());
        },
        Some(d) => {
            let mut observed: Vec<IpAddr> = Vec::new();
            match r.dst {
                Some(a) => observed.push(a),
                None => {},
            }
            match r.src {
                Some(a) => observed.push(a),
                None => {},
            }
            assert(observed@ =~= row_addrs(*r));
            out.push(Sighting { domain: chars_of(d.as_str()), kind: 0, ips: Vec::new(), observed, flow: r.flow });
            assert(sightings(out@) =~= sightings(before) + hint_event(*r, opt_text(*h)));
        },
    }
}

/// The hostname sightings of a row.
fn row_sightings(r: &PacketRow, out: &mut Vec<Sighting>)
    ensures
        sightings(final(out)@) == sightings(old(out)@) + row_events(*r),
{
    let ghost before = out@;
    let dns_row = r.proto == Some(L4Proto::Udp) && (r.src_port == Some(53u16) || r.dst_port == Some(53u16));
    if dns_row {
        match parse_dns_message(r.payload.as_slice()) {
            Some(m) => {
                let q = chars_of(m.qname.as_str());
                if q.len() > 0 {
                    let kind: u8 = if !m.is_response {
                        0
                    } else if m.rcode != 0 {
                        2
                    } else {
                        1
                    };
                    let ips = if m.is_response { copy_ips(&m.answer_ips) } else { Vec::new() };
                    out.push(Sighting { domain: q, kind, ips, observed: Vec::new(), flow: r.flow });
                }
            },
            None => {
                match &r.dns_qname {
                    None => {},
                    Some(qn) => {
                        let kind: u8 = match r.dns_rcode {
                            None => 0,
                            Some(rc) => if rc != 0 { 2 } else { 1 },
                        };
                        out.push(Sighting { domain: chars_of(qn.as_str()), kind, ips: Vec::new(), observed: Vec::new(), flow: r.flow });
                    },
                }
            },
        }
    }
    assert(sightings(out@) =~= sightings(before) + dns_event(*r));
    let ghost mid = out@;
    push_hint(out, r, &r.http_host);
    push_hint(out, r, &r.tls_sni);
    assert(sightings(out@) =~= sightings(before) + row_events(*r));
}

// ------------------------------------------------------------ per-domain tallies

pub open spec fn kind_count(es: Seq<DomainEvent>, d: Seq<char>, k: u8) -> nat
    decreases es.len(),
{
    if es.len() == 0 {
        0
    } else {
        kind_count(es.drop_last(), d, k) + (if es.last().domain == d && es.last().kind == k { 1nat } else { 0nat })
    }
}

/// Some DNS answer about `d` gave address `x`.
pub open spec fn has_ip(es: Seq<DomainEvent>, d: Seq<char>, x: IpAddr) -> bool
    decreases es.len(),
{
    es.len() > 0 && (has_ip(es.drop_last(), d, x) || (es.last().domain == d && es.last().ips.contains(x)))
}

/// Some hint about `d` was seen on a row with address `x`.
pub open spec fn has_observed(es: Seq<DomainEvent>, d: Seq<char>, x: IpAddr) -> bool
    decreases es.len(),
{
    es.len() > 0 && (has_observed(es.drop_last(), d, x) || (es.last().domain == d
        && es.last().observed.contains(x)))
}

/// Position of the last flow with key `k`.
pub open spec fn flow_position(fs: Seq<FlowStats>, k: FlowKey) -> Option<int>
    decreases fs.len(),
{
    if fs.len() == 0 {
        None
    } else if fs.last().key == k {
        Some(fs.len() - 1)
    } else {
        flow_position(fs.drop_last(), k)
    }
}

pub open spec fn event_flow(e: DomainEvent, fs: Seq<FlowStats>) -> Option<int> {
    match e.flow {
        None => None,
        Some(fk) => flow_position(fs, canonical_of(fk).0),
    }
}

/// Flow `i` carried a sighting of `d`.
pub open spec fn has_conn(es: Seq<DomainEvent>, d: Seq<char>, fs: Seq<FlowStats>, i: int) -> bool
    decreases es.len(),
{
    es.len() > 0 && (has_conn(es.drop_last(), d, fs, i) || (es.last().domain == d && event_flow(
        es.last(),
        fs,
    ) == Some(i)))
}

pub open spec fn seen_domain(es: Seq<DomainEvent>, d: Seq<char>) -> bool {
    exists|i: int| 0 <= i < es.len() && (#[trigger] es[i]).domain == d
}

pub open spec fn ip_sorted(v: Seq<IpAddr>) -> bool {
    forall|i: int, j: int| 0 <= i < j < v.len() ==> crate::pcap::ip_lt(#[trigger] v[i], #[trigger] v[j])
}

pub struct DomainAcc {
    pub domain: Vec<char>,
    pub queries: u64,
    pub responses: u64,
    pub failures: u64,
    pub dns_ips: Vec<IpAddr>,
    pub observed_ips: Vec<IpAddr>,
    pub conns: Vec<usize>,
}

/// `a` holds the tallies of its domain over the sightings `es`.
pub open spec fn acc_matches(a: DomainAcc, es: Seq<DomainEvent>, fs: Seq<FlowStats>) -> bool {
    let d = a.domain@;
    &&& a.queries == kind_count(es, d, 0)
    &&& a.responses == kind_count(es, d, 1) + kind_count(es, d, 2)
    &&& a.failures == kind_count(es, d, 2)
    &&& ip_sorted(a.dns_ips@)
    &&& forall|x: IpAddr| #[trigger] a.dns_ips@.contains(x) <==> has_ip(es, d, x)
    &&& ip_sorted(a.observed_ips@)
    &&& forall|x: IpAddr| #[trigger] a.observed_ips@.contains(x) <==> has_observed(es, d, x)
    &&& forall|i: usize| #[trigger] a.conns@.contains(i) <==> has_conn(es, d, fs, i as int)
    &&& forall|i: int| 0 <= i < a.conns@.len() ==> (#[trigger] a.conns@[i]) < fs.len()
}

fn ip_less_exec(a: IpAddr, b: IpAddr) -> (r: bool)
    ensures
        r == crate::pcap::ip_lt(a, b),
{
    crate::pcap::ip_less(a, b)
}

/// Add `x` to a strictly ordered address list, keeping it ordered.
fn insert_ip(v: &mut Vec<IpAddr>, x: IpAddr)
    requires
        ip_sorted(old(v)@),
    ensures
        ip_sorted(final(v)@),
        forall|y: IpAddr| #[trigger] final(v)@.contains(y) <==> (old(v)@.contains(y) || y == x),
{
    let mut p: usize = 0;
    while p < v.len() && ip_less_exec(v[p], x)
        invariant
            p <= v.len(),
            forall|q: int| 0 <= q < p ==> crate::pcap::ip_lt(#[trigger] v[q], x),
        decreases v.len() - p,
    {
        p = p + 1;
    }
    if p < v.len() && v[p] == x {
        return;
    }
    let ghost old_v = v@;
    v.insert(p, x);
    assert(v@ == old_v.insert(p as int, x));
    assert forall|i: int, j: int| 0 <= i < j < v@.len() implies crate::pcap::ip_lt(#[trigger] v@[i], #[trigger] v@[j]) by {
        if j < p {
            assert(v@[i] == old_v[i] && v@[j] == old_v[j]);
        } else if j == p {
            assert(v@[i] == old_v[i]);
        } else if i == p {
            assert(v@[j] == old_v[j - 1]);
            assert(!crate::pcap::ip_lt(old_v[p as int], x));
            assert(old_v[p as int] != x);
        } else if i < p {
            assert(v@[i] == old_v[i] && v@[j] == old_v[j - 1]);
        } else {
            assert(v@[i] == old_v[i - 1] && v@[j] == old_v[j - 1]);
        }
    }
    assert forall|y: IpAddr| #[trigger] v@.contains(y) <==> (old_v.contains(y) || y == x) by {
        if v@.contains(y) {
            let k = choose|k: int| 0 <= k < v@.len() && v@[k] == y;
            if k < p {
                assert(old_v[k] == y);
            } else if k > p {
                assert(old_v[k - 1] == y);
            }
        }
        if old_v.contains(y) {
            let k = choose|k: int| 0 <= k < old_v.len() && old_v[k] == y;
            if k < p {
                assert(v@[k] == y);
            } else {
                assert(v@[k + 1] == y);
            }
        }
        if y == x {
            assert(v@[p as int] == x);
        }
    }
}

fn flow_position_exec(fs: &Vec<FlowStats>, k: FlowKey) -> (r: Option<usize>)
    ensures
        match r {
            None => flow_position(fs@, k) is None,
            Some(i) => flow_position(fs@, k) == Some(i as int) && i < fs.len(),
        },
{
    let mut i: usize = fs.len();
    assert(fs@.take(fs.len() as int) =~= fs@);
    while i > 0
        invariant
            i <= fs.len(),
            flow_position(fs@, k) == flow_position(fs@.take(i as int), k),
        decreases i,
    {
        assert(fs@.take(i as int).drop_last() =~= fs@.take(i - 1));
        if fs[i - 1].key == k {
            return Some(i - 1);
        }
        i = i - 1;
    }
    None
}

proof fn lemma_push_event(es: Seq<DomainEvent>, e: DomainEvent, d: Seq<char>, fs: Seq<FlowStats>)
    ensures
        forall|k: u8| #[trigger] kind_count(es.push(e), d, k) == kind_count(es, d, k) + (if e.domain == d && e.kind == k { 1nat } else { 0nat }),
        forall|x: IpAddr| #[trigger] has_ip(es.push(e), d, x) == (has_ip(es, d, x) || (e.domain == d && e.ips.contains(x))),
        forall|x: IpAddr| #[trigger] has_observed(es.push(e), d, x) == (has_observed(es, d, x) || (e.domain == d && e.observed.contains(x))),
        forall|i: int| #[trigger] has_conn(es.push(e), d, fs, i) == (has_conn(es, d, fs, i) || (e.domain == d && event_flow(e, fs) == Some(i))),
        seen_domain(es.push(e), d) == (seen_domain(es, d) || e.domain == d),
{
    let t = es.push(e);
    assert(t.drop_last() =~= es);
    assert(t.last() == e);
    if seen_domain(es, d) {
        let w = choose|w: int| 0 <= w < es.len() && (#[trigger] es[w]).domain == d;
        assert(t[w] == es[w]);
    }
    if e.domain == d {
        assert(t[es.len() as int].domain == d);
    }
    if seen_domain(t, d) {
        let w = choose|w: int| 0 <= w < t.len() && (#[trigger] t[w]).domain == d;
        if w < es.len() {
            assert(t[w] == es[w]);
        }
    }
}

proof fn lemma_unseen(es: Seq<DomainEvent>, d: Seq<char>, fs: Seq<FlowStats>)
    requires
        !seen_domain(es, d),
    ensures
        forall|k: u8| #[trigger] kind_count(es, d, k) == 0,
        forall|x: IpAddr| !#[trigger] has_ip(es, d, x),
        forall|x: IpAddr| !#[trigger] has_observed(es, d, x),
        forall|i: int| !#[trigger] has_conn(es, d, fs, i),
    decreases es.len(),
{
    if es.len() > 0 {
        let t = es.drop_last();
        assert(es.last() == es[es.len() - 1]);
        assert(!seen_domain(t, d)) by {
            if seen_domain(t, d) {
                let w = choose|w: int| 0 <= w < t.len() && (#[trigger] t[w]).domain == d;
                assert(es[w] == t[w]);
            }
        }
        lemma_unseen(t, d, fs);
        assert(es.last().domain != d) by {
            assert(es[es.len() - 1].domain != d);
        }
        assert forall|k: u8| #[trigger] kind_count(es, d, k) == 0 by {
            assert(kind_count(t, d, k) == 0);
        }
        assert forall|x: IpAddr| !#[trigger] has_ip(es, d, x) by {
            assert(!has_ip(t, d, x));
        }
        assert forall|x: IpAddr| !#[trigger] has_observed(es, d, x) by {
            assert(!has_observed(t, d, x));
        }
        assert forall|i: int| !#[trigger] has_conn(es, d, fs, i) by {
            assert(!has_conn(t, d, fs, i));
        }
    }
}

pub proof fn lemma_contains_push<A>(s: Seq<A>, y: A, x: A)
    ensures
        s.push(y).contains(x) == (s.contains(x) || x == y),
{
    let t = s.push(y);
    if t.contains(x) {
        let w = choose|w: int| 0 <= w < t.len() && t[w] == x;
        if w < s.len() {
            assert(s[w] == x);
        }
    }
    if s.contains(x) {
        let w = choose|w: int| 0 <= w < s.len() && s[w] == x;
        assert(t[w] == x);
    }
    if x == y {
        assert(t[s.len() as int] == y);
    }
}

fn update_acc(a: &mut DomainAcc, e: &Sighting, flows: &Vec<FlowStats>, Ghost(es): Ghost<Seq<DomainEvent>>)
    requires
        acc_matches(*old(a), es, flows@),
        old(a).domain@ == e.domain@,
        old(a).queries + old(a).responses <= es.len(),
        es.len() + 1 < u64::MAX,
    ensures
        acc_matches(*final(a), es.push(sighting_view(*e)), flows@),
        final(a).domain@ == old(a).domain@,
        final(a).queries + final(a).responses <= es.len() + 1,
{
    let ghost d = a.domain@;
    let ghost ev = sighting_view(*e);
    proof {
        lemma_push_event(es, ev, d, flows@);
    }
    if e.kind == 0 {
        a.queries = a.queries + 1;
    } else if e.kind == 1 {
        a.responses = a.responses + 1;
    } else if e.kind == 2 {
        a.responses = a.responses + 1;
        a.failures = a.failures + 1;
    }
    let ghost obs0 = a.observed_ips@;
    let ghost conns0 = a.conns@;
    let ghost dom0 = a.domain@;
    let ghost q0 = a.queries;
    let ghost r0 = a.responses;
    let ghost f0 = a.failures;
    let mut k: usize = 0;
    while k < e.ips.len()
        invariant
            k <= e.ips@.len(),
            a.observed_ips@ == obs0,
            a.conns@ == conns0,
            a.domain@ == dom0,
            a.queries == q0,
            a.responses == r0,
            a.failures == f0,
            ip_sorted(a.dns_ips@),
            forall|x: IpAddr| #[trigger] a.dns_ips@.contains(x) <==> (has_ip(es, d, x) || e.ips@.take(k as int).contains(x)),
        decreases e.ips@.len() - k,
    {
        insert_ip(&mut a.dns_ips, e.ips[k]);
        assert forall|x: IpAddr| #[trigger] e.ips@.take(k + 1).contains(x) <==> (e.ips@.take(k as int).contains(x) || x == e.ips@[k as int]) by {
            assert(e.ips@.take(k + 1) =~= e.ips@.take(k as int).push(e.ips@[k as int]));
            lemma_contains_push(e.ips@.take(k as int), e.ips@[k as int], x);
        }
        k = k + 1;
    }
    assert(e.ips@.take(e.ips@.len() as int) =~= e.ips@);
    let ghost ips1 = a.dns_ips@;
    let mut k: usize = 0;
    while k < e.observed.len()
        invariant
            k <= e.observed@.len(),
            a.dns_ips@ == ips1,
            a.conns@ == conns0,
            a.domain@ == dom0,
            a.queries == q0,
            a.responses == r0,
            a.failures == f0,
            ip_sorted(a.observed_ips@),
            forall|x: IpAddr| #[trigger] a.observed_ips@.contains(x) <==> (has_observed(es, d, x) || e.observed@.take(k as int).contains(x)),
        decreases e.observed@.len() - k,
    {
        insert_ip(&mut a.observed_ips, e.observed[k]);
        assert forall|x: IpAddr| #[trigger] e.observed@.take(k + 1).contains(x) <==> (e.observed@.take(k as int).contains(x) || x == e.observed@[k as int]) by {
            assert(e.observed@.take(k + 1) =~= e.observed@.take(k as int).push(e.observed@[k as int]));
            lemma_contains_push(e.observed@.take(k as int), e.observed@[k as int], x);
        }
        k = k + 1;
    }
    assert(e.observed@.take(e.observed@.len() as int) =~= e.observed@);
    match e.flow {
        None => {},
        Some(fk) => {
            let (canon, _t) = fk.canonical();
            match flow_position_exec(flows, canon) {
                None => {},
                Some(i) => {
                    let ghost before = a.conns@;
                    a.conns.push(i);
                    assert forall|j: usize| #[trigger] a.conns@.contains(j) <==> (before.contains(j) || j == i) by {
                        if a.conns@.contains(j) {
                            let w = choose|w: int| 0 <= w < a.conns@.len() && a.conns@[w] == j;
                            if w < before.len() {
                                assert(before[w] == j);
                            }
                        }
                        if before.contains(j) {
                            let w = choose|w: int| 0 <= w < before.len() && before[w] == j;
                            assert(a.conns@[w] == j);
                        }
                        if j == i {
                            assert(a.conns@[before.len() as int] == i);
                        }
                    }
                },
            }
        },
    }
}

/// The running tallies `accs` cover exactly the domains of `es`, one each.
pub open spec fn accs_ok(accs: Seq<DomainAcc>, es: Seq<DomainEvent>, fs: Seq<FlowStats>) -> bool {
    &&& forall|i: int, j: int| 0 <= i < j < accs.len() ==> (#[trigger] accs[i]).domain@ != (#[trigger] accs[j]).domain@
    &&& forall|j: int| 0 <= j < accs.len() ==> acc_matches(#[trigger] accs[j], es, fs)
    &&& forall|j: int| 0 <= j < accs.len() ==> seen_domain(es, (#[trigger] accs[j]).domain@)
    &&& forall|j: int| 0 <= j < accs.len() ==> (#[trigger] accs[j]).queries + accs[j].responses <= es.len()
    &&& forall|d: Seq<char>| #[trigger] seen_domain(es, d) ==> exists|j: int| 0 <= j < accs.len() && (#[trigger] accs[j]).domain@ == d
}

fn apply_sighting(accs: &mut Vec<DomainAcc>, e: &Sighting, flows: &Vec<FlowStats>, Ghost(es): Ghost<Seq<DomainEvent>>)
    requires
        accs_ok(old(accs)@, es, flows@),
        es.len() + 1 < u64::MAX,
    ensures
        accs_ok(final(accs)@, es.push(sighting_view(*e)), flows@),
{
    let ghost ev = sighting_view(*e);
    let ghost es2 = es.push(ev);
    let mut j: usize = 0;
    while j < accs.len() && !crate::text::chars_eq(accs[j].domain.as_slice(), e.domain.as_slice())
        invariant
            j <= accs.len(),
            forall|q: int| 0 <= q < j ==> (#[trigger] accs[q]).domain@ != e.domain@,
        decreases accs.len() - j,
    {
        j = j + 1;
    }
    if j == accs.len() {
        proof {
            assert(!seen_domain(es, e.domain@)) by {
                if seen_domain(es, e.domain@) {
                    let w = choose|w: int| 0 <= w < accs.len() && (#[trigger] accs[w]).domain@ == e.domain@;
                }
            }
            lemma_unseen(es, e.domain@, flows@);
        }
        let fresh = DomainAcc {
            domain: crate::text::chars_of_slice(e.domain.as_slice()),
            queries: 0,
            responses: 0,
            failures: 0,
            dns_ips: Vec::new(),
            observed_ips: Vec::new(),
            conns: Vec::new(),
        };
        accs.push(fresh);
    }
    let ghost mid = accs@;
    assert(acc_matches(mid[j as int], es, flows@));
    assert(mid[j as int].domain@ == e.domain@);
    update_acc(&mut accs[j], e, flows, Ghost(es));
    proof {
        assert forall|q: int| 0 <= q < accs.len() implies acc_matches(#[trigger] accs@[q], es2, flows@) by {
            if q != j {
                assert(accs@[q] == mid[q]);
                lemma_push_event(es, ev, mid[q].domain@, flows@);
            }
        }
        assert forall|q: int| 0 <= q < accs.len() implies seen_domain(es2, (#[trigger] accs@[q]).domain@) by {
            lemma_push_event(es, ev, accs@[q].domain@, flows@);
            if q != j {
                assert(accs@[q] == mid[q]);
            }
        }
        assert forall|q: int| 0 <= q < accs.len() implies (#[trigger] accs@[q]).queries + accs@[q].responses <= es2.len() by {
            if q != j {
                assert(accs@[q] == mid[q]);
            }
        }
        assert forall|a: int, b: int| 0 <= a < b < accs.len() implies (#[trigger] accs@[a]).domain@ != (#[trigger] accs@[b]).domain@ by {
            assert(accs@[a].domain@ == mid[a].domain@);
            assert(accs@[b].domain@ == mid[b].domain@);
        }
        assert forall|d: Seq<char>| #[trigger] seen_domain(es2, d) implies exists|q: int| 0 <= q < accs.len() && (#[trigger] accs@[q]).domain@ == d by {
            lemma_push_event(es, ev, d, flows@);
            if d == e.domain@ {
                assert(accs@[j as int].domain@ == d);
            } else {
                let w = choose|w: int| 0 <= w < old(accs)@.len() && (#[trigger] old(accs)@[w]).domain@ == d;
                assert(accs@[w].domain@ == d);
            }
        }
    }
}

// ------------------------------------------------------------ items

pub struct DomainStats {
    pub queries: u64,
    pub responses: u64,
    pub failures: u64,
    /// Addresses learned from DNS answers (A/AAAA), ascending.
    pub dns_ips: Vec<IpAddr>,
    /// Addresses seen on rows that carried this hostname as HTTP Host or TLS SNI, ascending.
    pub observed_ips: Vec<IpAddr>,
    /// Number of flows that carried a sighting of this hostname.
    pub connections: u64,
    /// Total bytes of those flows.
    pub bytes: u64,
}

pub struct DomainItem {
    pub domain: String,
    pub stats: DomainStats,
    pub flow_indices: Vec<usize>,
}

pub struct DomainsSummary {
    pub items: Vec<DomainItem>,
}

#[derive(Debug, Clone, Copy, PartialEq, Eq, Structural)]
pub enum DomainsSort {
    Connections,
    Bytes,
    Failures,
}

/// Flows among the first `n` that carried a sighting of `d`.
pub open spec fn conn_count(es: Seq<DomainEvent>, d: Seq<char>, fs: Seq<FlowStats>, n: nat) -> nat
    decreases n,
{
    if n == 0 {
        0
    } else {
        conn_count(es, d, fs, (n - 1) as nat) + (if has_conn(es, d, fs, n - 1) { 1nat } else { 0nat })
    }
}

/// Bytes of the flows among the first `n` that carried a sighting of `d`.
pub open spec fn conn_bytes(es: Seq<DomainEvent>, d: Seq<char>, fs: Seq<FlowStats>, n: nat) -> nat
    decreases n,
{
    if n == 0 {
        0
    } else {
        conn_bytes(es, d, fs, (n - 1) as nat) + (if has_conn(es, d, fs, n - 1) {
            fs[n - 1].total_bytes as nat
        } else {
            0nat
        })
    }
}

pub open spec fn flows_bytes(fs: Seq<FlowStats>, n: nat) -> nat
    decreases n,
{
    if n == 0 {
        0
    } else {
        flows_bytes(fs, (n - 1) as nat) + fs[n - 1].total_bytes as nat
    }
}

pub open spec fn any_observed(es: Seq<DomainEvent>, d: Seq<char>) -> bool {
    exists|x: IpAddr| #[trigger] has_observed(es, d, x)
}

pub open spec fn any_ip(es: Seq<DomainEvent>, d: Seq<char>) -> bool {
    exists|x: IpAddr| #[trigger] has_ip(es, d, x)
}

/// The flows listed under a domain: those touching an observed address; failing
/// that, those touching an address from DNS answers; failing that, DNS flows.
pub open spec fn listed_flow(es: Seq<DomainEvent>, d: Seq<char>, f: FlowStats) -> bool {
    if any_observed(es, d) {
        has_observed(es, d, f.key.src) || has_observed(es, d, f.key.dst)
    } else if any_ip(es, d) {
        has_ip(es, d, f.key.src) || has_ip(es, d, f.key.dst)
    } else {
        f.key.proto == L4Proto::Udp && (f.key.src_port == 53 || f.key.dst_port == 53)
    }
}

pub open spec fn listed_flows(es: Seq<DomainEvent>, d: Seq<char>, fs: Seq<FlowStats>, n: nat) -> Seq<usize>
    decreases n,
{
    if n == 0 {
        Seq::empty()
    } else {
        let rest = listed_flows(es, d, fs, (n - 1) as nat);
        if listed_flow(es, d, fs[n - 1]) {
            rest.push((n - 1) as usize)
        } else {
            rest
        }
    }
}

/// `it` is the item of domain `d` over the sightings `es` and flows `fs`.
pub open spec fn item_matches(it: DomainItem, d: Seq<char>, es: Seq<DomainEvent>, fs: Seq<FlowStats>) -> bool {
    &&& it.domain@ == d
    &&& it.stats.queries == kind_count(es, d, 0)
    &&& it.stats.responses == kind_count(es, d, 1) + kind_count(es, d, 2)
    &&& it.stats.failures == kind_count(es, d, 2)
    &&& ip_sorted(it.stats.dns_ips@)
    &&& forall|x: IpAddr| #[trigger] it.stats.dns_ips@.contains(x) <==> has_ip(es, d, x)
    &&& ip_sorted(it.stats.observed_ips@)
    &&& forall|x: IpAddr| #[trigger] it.stats.observed_ips@.contains(x) <==> has_observed(es, d, x)
    &&& it.stats.connections == conn_count(es, d, fs, fs.len())
    &&& it.stats.bytes == conn_bytes(es, d, fs, fs.len())
    &&& it.flow_indices@ == listed_flows(es, d, fs, fs.len())
}

/// Strict text order by character value (the order of `String` comparison).
pub open spec fn text_lt(a: Seq<char>, b: Seq<char>) -> bool
    decreases a.len(),
{
    if b.len() == 0 {
        false
    } else if a.len() == 0 {
        true
    } else if a[0] != b[0] {
        (a[0] as u32) < (b[0] as u32)
    } else {
        text_lt(a.drop_first(), b.drop_first())
    }
}

proof fn lemma_text_lt_irrefl(a: Seq<char>)
    ensures
        !text_lt(a, a),
    decreases a.len(),
{
    if a.len() > 0 {
        lemma_text_lt_irrefl(a.drop_first());
    }
}

proof fn lemma_text_lt_order(a: Seq<char>, b: Seq<char>, c: Seq<char>)
    ensures
        !text_lt(a, a),
        text_lt(a, b) && text_lt(b, c) ==> text_lt(a, c),
    decreases a.len(),
{
    lemma_text_lt_irrefl(a);
    if a.len() > 0 && b.len() > 0 && c.len() > 0 {
        lemma_text_lt_order(a.drop_first(), b.drop_first(), c.drop_first());
    }
}

fn text_less(a: &[char], b: &[char]) -> (r: bool)
    ensures
        r == text_lt(a@, b@),
{
    let mut i: usize = 0;
    assert(a@.subrange(0, a@.len() as int) =~= a@);
    assert(b@.subrange(0, b@.len() as int) =~= b@);
    while i < a.len() && i < b.len() && a[i] == b[i]
        invariant
            i <= a@.len(),
            i <= b@.len(),
            text_lt(a@, b@) == text_lt(a@.subrange(i as int, a@.len() as int), b@.subrange(i as int, b@.len() as int)),
        decreases a@.len() - i,
    {
        assert(a@.subrange(i as int, a@.len() as int).drop_first() =~= a@.subrange(i + 1, a@.len() as int));
        assert(b@.subrange(i as int, b@.len() as int).drop_first() =~= b@.subrange(i + 1, b@.len() as int));
        i = i + 1;
    }
    if i == b.len() {
        false
    } else if i == a.len() {
        true
    } else {
        (a[i] as u32) < (b[i] as u32)
    }
}

/// The numbers an item is ranked by.
#[derive(Clone, Copy)]
pub struct RankKey {
    pub connections: u64,
    pub bytes: u64,
    pub failures: u64,
    pub activity: u64,
}

pub open spec fn rank_key_of(it: DomainItem) -> RankKey {
    RankKey {
        connections: it.stats.connections,
        bytes: it.stats.bytes,
        failures: it.stats.failures,
        activity: (it.stats.queries + it.stats.responses) as u64,
    }
}

/// Strict ranking order of the domains view for each sort mode; the domain name
/// breaks every tie.
pub open spec fn key_before(mode: DomainsSort, a: RankKey, ad: Seq<char>, b: RankKey, bd: Seq<char>) -> bool {
    match mode {
        DomainsSort::Connections => a.connections > b.connections || (a.connections == b.connections && (
        a.failures > b.failures || (a.failures == b.failures && (a.activity > b.activity || (a.activity
            == b.activity && text_lt(ad, bd)))))),
        DomainsSort::Bytes => a.bytes > b.bytes || (a.bytes == b.bytes && (a.connections > b.connections
            || (a.connections == b.connections && (a.failures > b.failures || (a.failures == b.failures
            && text_lt(ad, bd)))))),
        DomainsSort::Failures => a.failures > b.failures || (a.failures == b.failures && (a.connections
            > b.connections || (a.connections == b.connections && (a.activity > b.activity || (a.activity
            == b.activity && text_lt(ad, bd)))))),
    }
}

pub open spec fn item_before(mode: DomainsSort, a: DomainItem, b: DomainItem) -> bool {
    key_before(mode, rank_key_of(a), a.domain@, rank_key_of(b), b.domain@)
}

proof fn lemma_key_before_order(mode: DomainsSort, a: RankKey, ad: Seq<char>, b: RankKey, bd: Seq<char>, c: RankKey, cd: Seq<char>)
    ensures
        !key_before(mode, a, ad, a, ad),
        key_before(mode, a, ad, b, bd) && key_before(mode, b, bd, c, cd) ==> key_before(mode, a, ad, c, cd),
{
    lemma_text_lt_order(ad, bd, cd);
}

fn key_before_exec(mode: DomainsSort, a: &RankKey, ad: &[char], b: &RankKey, bd: &[char]) -> (r: bool)
    ensures
        r == key_before(mode, *a, ad@, *b, bd@),
{
    match mode {
        DomainsSort::Connections => {
            if a.connections != b.connections {
                return a.connections > b.connections;
            }
            if a.failures != b.failures {
                return a.failures > b.failures;
            }
            if a.activity != b.activity {
                return a.activity > b.activity;
            }
        },
        DomainsSort::Bytes => {
            if a.bytes != b.bytes {
                return a.bytes > b.bytes;
            }
            if a.connections != b.connections {
                return a.connections > b.connections;
            }
            if a.failures != b.failures {
                return a.failures > b.failures;
            }
        },
        DomainsSort::Failures => {
            if a.failures != b.failures {
                return a.failures > b.failures;
            }
            if a.connections != b.connections {
                return a.connections > b.connections;
            }
            if a.activity != b.activity {
                return a.activity > b.activity;
            }
        },
    }
    text_less(ad, bd)
}

fn ip_in(v: &Vec<IpAddr>, x: IpAddr) -> (r: bool)
    ensures
        r == v@.contains(x),
{
    let mut i: usize = 0;
    while i < v.len()
        invariant
            i <= v.len(),
            forall|j: int| 0 <= j < i ==> v@[j] != x,
        decreases v.len() - i,
    {
        if v[i] == x {
            assert(v@[i as int] == x);
            return true;
        }
        i = i + 1;
    }
    false
}

fn usize_in(v: &Vec<usize>, x: usize) -> (r: bool)
    ensures
        r == v@.contains(x),
{
    let mut i: usize = 0;
    while i < v.len()
        invariant
            i <= v.len(),
            forall|j: int| 0 <= j < i ==> v@[j] != x,
        decreases v.len() - i,
    {
        if v[i] == x {
            assert(v@[i as int] == x);
            return true;
        }
        i = i + 1;
    }
    false
}

proof fn lemma_flows_bytes_prefix(fs: Seq<FlowStats>, n: nat, m: nat)
    requires
        n <= m,
    ensures
        flows_bytes(fs, n) <= flows_bytes(fs, m),
    decreases m - n,
{
    if n < m {
        lemma_flows_bytes_prefix(fs, n, (m - 1) as nat);
    }
}

proof fn lemma_conn_bytes_bound(es: Seq<DomainEvent>, d: Seq<char>, fs: Seq<FlowStats>, n: nat)
    ensures
        conn_bytes(es, d, fs, n) <= flows_bytes(fs, n),
        conn_count(es, d, fs, n) <= n,
    decreases n,
{
    if n > 0 {
        lemma_conn_bytes_bound(es, d, fs, (n - 1) as nat);
    }
}

/// Build the item of one domain from its tallies.
fn make_item(a: &DomainAcc, flows: &Vec<FlowStats>, Ghost(es): Ghost<Seq<DomainEvent>>) -> (it: DomainItem)
    requires
        acc_matches(*a, es, flows@),
        flows_bytes(flows@, flows@.len()) <= u64::MAX,
    ensures
        item_matches(it, a.domain@, es, flows@),
{
    let ghost d = a.domain@;
    let ghost fs = flows@;
    let obs_any = a.observed_ips.len() > 0;
    let ip_any = a.dns_ips.len() > 0;
    proof {
        if obs_any {
            assert(a.observed_ips@.contains(a.observed_ips@[0]));
            assert(has_observed(es, d, a.observed_ips@[0]));
        } else {
            assert forall|x: IpAddr| !#[trigger] has_observed(es, d, x) by {
                assert(!a.observed_ips@.contains(x));
            }
        }
        if ip_any {
            assert(a.dns_ips@.contains(a.dns_ips@[0]));
            assert(has_ip(es, d, a.dns_ips@[0]));
        } else {
            assert forall|x: IpAddr| !#[trigger] has_ip(es, d, x) by {
                assert(!a.dns_ips@.contains(x));
            }
        }
    }
    assert(obs_any == any_observed(es, d));
    assert(ip_any == any_ip(es, d));
    let mut connections: u64 = 0;
    let mut bytes: u64 = 0;
    let mut listed: Vec<usize> = Vec::new();
    let mut i: usize = 0;
    while i < flows.len()
        invariant
            i <= fs.len(),
            fs == flows@,
            obs_any == any_observed(es, d),
            ip_any == any_ip(es, d),
            acc_matches(*a, es, fs),
            d == a.domain@,
            flows_bytes(fs, fs.len()) <= u64::MAX,
            connections == conn_count(es, d, fs, i as nat),
            bytes == conn_bytes(es, d, fs, i as nat),
            listed@ == listed_flows(es, d, fs, i as nat),
        decreases fs.len() - i,
    {
        let f = &flows[i];
        proof {
            lemma_conn_bytes_bound(es, d, fs, (i + 1) as nat);
            lemma_flows_bytes_prefix(fs, (i + 1) as nat, fs.len());
        }
        if usize_in(&a.conns, i) {
            connections = connections + 1;
            bytes = bytes + f.total_bytes;
        }
        let hit = if obs_any {
            ip_in(&a.observed_ips, f.key.src) || ip_in(&a.observed_ips, f.key.dst)
        } else if ip_any {
            ip_in(&a.dns_ips, f.key.src) || ip_in(&a.dns_ips, f.key.dst)
        } else {
            f.key.proto == L4Proto::Udp && (f.key.src_port == 53 || f.key.dst_port == 53)
        };
        if hit {
            listed.push(i);
        }
        i = i + 1;
    }
    DomainItem {
        domain: crate::text::string_of(a.domain.as_slice()),
        stats: DomainStats {
            queries: a.queries,
            responses: a.responses,
            failures: a.failures,
            dns_ips: copy_ips(&a.dns_ips),
            observed_ips: copy_ips(&a.observed_ips),
            connections,
            bytes,
        },
        flow_indices: listed,
    }
}

proof fn lemma_events_len(rows: Seq<PacketRow>)
    ensures
        events_of(rows).len() <= 3 * rows.len(),
    decreases rows.len(),
{
    if rows.len() > 0 {
        lemma_events_len(rows.drop_last());
    }
}

/// The tallies of every hostname sighted in the rows.
fn collect_domains(rows: &[PacketRow], flows: &Vec<FlowStats>) -> (accs: Vec<DomainAcc>)
    requires
        3 * rows@.len() + 2 < u64::MAX,
    ensures
        accs_ok(accs@, events_of(rows@), flows@),
{
    let mut accs: Vec<DomainAcc> = Vec::new();
    let mut i: usize = 0;
    while i < rows.len()
        invariant
            i <= rows@.len(),
            3 * rows@.len() + 2 < u64::MAX,
            accs_ok(accs@, events_of(rows@.take(i as int)), flows@),
        decreases rows@.len() - i,
    {
        let ghost pre = events_of(rows@.take(i as int));
        assert(rows@.take(i + 1).drop_last() =~= rows@.take(i as int));
        assert(rows@.take(i + 1).last() == rows@[i as int]);
        proof {
            lemma_events_len(rows@.take(i + 1));
        }
        let mut sv: Vec<Sighting> = Vec::new();
        row_sightings(&rows[i], &mut sv);
        assert(sightings(sv@) =~= row_events(rows@[i as int]));
        let mut k: usize = 0;
        while k < sv.len()
            invariant
                k <= sv@.len(),
                sightings(sv@) == row_events(rows@[i as int]),
                pre + sightings(sv@) == events_of(rows@.take(i + 1)),
                events_of(rows@.take(i + 1)).len() <= 3 * rows@.len(),
                3 * rows@.len() + 2 < u64::MAX,
                accs_ok(accs@, pre + sightings(sv@).take(k as int), flows@),
            decreases sv@.len() - k,
        {
            let ghost es = pre + sightings(sv@).take(k as int);
            assert(es.len() <= events_of(rows@.take(i + 1)).len());
            apply_sighting(&mut accs, &sv[k], flows, Ghost(es));
            assert(es.push(sighting_view(sv@[k as int])) =~= pre + sightings(sv@).take(k + 1));
            k = k + 1;
        }
        assert(sightings(sv@).take(sv@.len() as int) =~= sightings(sv@));
        i = i + 1;
    }
    assert(rows@.take(rows@.len() as int) =~= rows@);
    accs
}

/// Some position of `order` holds `x`.
pub open spec fn lists_pos(order: Seq<usize>, x: int) -> bool {
    exists|p: int| 0 <= p < order.len() && order[p] == x
}

/// Positions of `keys` in ranking order.
fn rank_order(mode: DomainsSort, keys: &Vec<RankKey>, names: &Vec<Vec<char>>) -> (order: Vec<usize>)
    requires
        keys.len() == names.len(),
    ensures
        order.len() == keys.len(),
        forall|p: int| 0 <= p < order.len() ==> order[p] < keys.len(),
        forall|p: int, q: int| 0 <= p < q < order.len() ==> order[p] != order[q],
        forall|x: int| 0 <= x < keys.len() ==> #[trigger] lists_pos(order@, x),
        forall|p: int, q: int| 0 <= p < q < order.len() ==> !key_before(mode, keys[order[q] as int], names[order[q] as int]@, keys[order[p] as int], names[order[p] as int]@),
{
    let mut order: Vec<usize> = Vec::new();
    let mut i: usize = 0;
    while i < keys.len()
        invariant
            i <= keys.len(),
            keys.len() == names.len(),
            order.len() == i,
            forall|p: int| 0 <= p < order.len() ==> order[p] < i,
            forall|p: int, q: int| 0 <= p < q < order.len() ==> order[p] != order[q],
            forall|x: int| 0 <= x < i ==> #[trigger] lists_pos(order@, x),
            forall|p: int, q: int| 0 <= p < q < order.len() ==> !key_before(mode, keys[order[q] as int], names[order[q] as int]@, keys[order[p] as int], names[order[p] as int]@),
        decreases keys.len() - i,
    {
        let mut pos: usize = 0;
        while pos < order.len() && !key_before_exec(mode, &keys[i], names[i].as_slice(), &keys[order[pos]], names[order[pos]].as_slice())
            invariant
                pos <= order.len(),
                i < keys.len(),
                keys.len() == names.len(),
                forall|p: int| 0 <= p < order.len() ==> order[p] < i,
                forall|q: int| 0 <= q < pos ==> !key_before(mode, keys[i as int], names[i as int]@, keys[order[q] as int], names[order[q] as int]@),
            decreases order.len() - pos,
        {
            pos = pos + 1;
        }
        let ghost old_order = order@;
        proof {
            if pos < old_order.len() {
                let x = old_order[pos as int] as int;
                assert forall|b: int| pos <= b < old_order.len() implies !key_before(mode, keys[old_order[b] as int], names[old_order[b] as int]@, keys[i as int], names[i as int]@) by {
                    let y = old_order[b] as int;
                    lemma_key_before_order(mode, keys[y], names[y]@, keys[i as int], names[i as int]@, keys[x], names[x]@);
                }
            }
        }
        order.insert(pos, i);
        assert(order@ == old_order.insert(pos as int, i));
        assert forall|p: int, q: int| 0 <= p < q < order.len() implies !key_before(mode, keys[order[q] as int], names[order[q] as int]@, keys[order[p] as int], names[order[p] as int]@) by {
            if q < pos {
                assert(order[p] == old_order[p] && order[q] == old_order[q]);
            } else if q == pos {
                assert(order[p] == old_order[p]);
            } else if p == pos {
                assert(order[q] == old_order[q - 1]);
            } else if p < pos {
                assert(order[p] == old_order[p] && order[q] == old_order[q - 1]);
            } else {
                assert(order[p] == old_order[p - 1] && order[q] == old_order[q - 1]);
            }
        }
        assert forall|p: int, q: int| 0 <= p < q < order.len() implies order[p] != order[q] by {
            if q < pos {
                assert(order[p] == old_order[p] && order[q] == old_order[q]);
            } else if q == pos {
                assert(order[p] == old_order[p]);
            } else if p == pos {
                assert(order[q] == old_order[q - 1]);
            } else if p < pos {
                assert(order[p] == old_order[p] && order[q] == old_order[q - 1]);
            } else {
                assert(order[p] == old_order[p - 1] && order[q] == old_order[q - 1]);
            }
        }
        assert forall|x: int| 0 <= x < i + 1 implies #[trigger] lists_pos(order@, x) by {
            if x == i {
                assert(order[pos as int] == i);
            } else {
                assert(lists_pos(old_order, x));
                let p0 = choose|p: int| 0 <= p < old_order.len() && old_order[p] == x;
                if p0 < pos {
                    assert(order[p0] == x);
                } else {
                    assert(order[p0 + 1] == x);
                }
            }
        }
        i = i + 1;
    }
    order
}

/// Hostnames seen in DNS (parsed payloads, or the capture tool's query-name hint
/// when the payload does not parse), HTTP Host and TLS SNI, each with its query,
/// answer and failure counts, addresses, the flows that carried it and the flows
/// to list under it, ranked by `sort` (the name breaks ties).
/// `items` is the domains summary of the rows and flows under `sort`: one item per
/// sighted hostname, each with its tallies, in ranking order.
pub open spec fn domains_summary_of(items: Seq<DomainItem>, rows: Seq<PacketRow>, fs: Seq<FlowStats>, sort: DomainsSort) -> bool {
    let es = events_of(rows);
    &&& forall|j: int| 0 <= j < items.len() ==> item_matches(#[trigger] items[j], items[j].domain@, es, fs)
    &&& forall|i: int, j: int| 0 <= i < j < items.len() ==> (#[trigger] items[i]).domain@ != (#[trigger] items[j]).domain@
    &&& forall|j: int| 0 <= j < items.len() ==> seen_domain(es, (#[trigger] items[j]).domain@)
    &&& forall|d: Seq<char>| #[trigger] seen_domain(es, d) ==> exists|j: int| 0 <= j < items.len() && (#[trigger] items[j]).domain@ == d
    &&& forall|i: int, j: int| 0 <= i < j < items.len() ==> !item_before(sort, #[trigger] items[j], #[trigger] items[i])
}

pub fn build_domains_summary(rows: &[PacketRow], flows: &FlowIndex, sort: DomainsSort) -> (ds: DomainsSummary)
    requires
        3 * rows@.len() + 2 < u64::MAX,
        flows_bytes(flows.flows@, flows.flows@.len()) <= u64::MAX,
    ensures
        forall|j: int| 0 <= j < ds.items.len() ==> item_matches(#[trigger] ds.items[j], ds.items[j].domain@, events_of(rows@), flows.flows@),
        forall|i: int, j: int| 0 <= i < j < ds.items.len() ==> (#[trigger] ds.items[i]).domain@ != (#[trigger] ds.items[j]).domain@,
        forall|j: int| 0 <= j < ds.items.len() ==> seen_domain(events_of(rows@), (#[trigger] ds.items[j]).domain@),
        forall|d: Seq<char>| #[trigger] seen_domain(events_of(rows@), d) ==> exists|j: int| 0 <= j < ds.items.len() && (#[trigger] ds.items[j]).domain@ == d,
        forall|i: int, j: int| 0 <= i < j < ds.items.len() ==> !item_before(sort, #[trigger] ds.items[j], #[trigger] ds.items[i]),
        domains_summary_of(ds.items@, rows@, flows.flows@, sort),
{
    let ghost es = events_of(rows@);
    let ghost fs = flows.flows@;
    proof {
        lemma_events_len(rows@);
    }
    let accs = collect_domains(rows, &flows.flows);
    let mut slots: Vec<Option<DomainItem>> = Vec::new();
    let mut keys: Vec<RankKey> = Vec::new();
    let mut names: Vec<Vec<char>> = Vec::new();
    let mut i: usize = 0;
    while i < accs.len()
        invariant
            i <= accs.len(),
            accs_ok(accs@, es, fs),
            es.len() <= 3 * rows@.len(),
            3 * rows@.len() + 2 < u64::MAX,
            flows_bytes(fs, fs.len()) <= u64::MAX,
            fs == flows.flows@,
            slots.len() == i,
            keys.len() == i,
            names.len() == i,
            forall|j: int| 0 <= j < i ==> (#[trigger] slots[j]) is Some && item_matches(slots[j].unwrap(), accs[j].domain@, es, fs),
            forall|j: int| 0 <= j < i ==> (#[trigger] keys[j]) == rank_key_of(slots[j].unwrap()),
            forall|j: int| 0 <= j < i ==> (#[trigger] names[j])@ == accs[j].domain@,
        decreases accs.len() - i,
    {
        assert(acc_matches(accs[i as int], es, fs));
        let it = make_item(&accs[i], &flows.flows, Ghost(es));
        assert(accs[i as int].queries + accs[i as int].responses <= es.len());
        let key = RankKey {
            connections: it.stats.connections,
            bytes: it.stats.bytes,
            failures: it.stats.failures,
            activity: it.stats.queries + it.stats.responses,
        };
        keys.push(key);
        names.push(crate::text::chars_of_slice(accs[i].domain.as_slice()));
        slots.push(Some(it));
        i = i + 1;
    }
    let order = rank_order(sort, &keys, &names);
    let ghost orig = slots@;
    let mut items: Vec<DomainItem> = Vec::new();
    let mut k: usize = 0;
    while k < order.len()
        invariant
            k <= order.len(),
            order.len() == orig.len(),
            slots.len() == orig.len(),
            keys.len() == orig.len(),
            names.len() == orig.len(),
            orig.len() == accs.len(),
            items.len() == k,
            forall|p: int| 0 <= p < order.len() ==> order[p] < orig.len(),
            forall|p: int, q: int| 0 <= p < q < order.len() ==> order[p] != order[q],
            forall|x: int| 0 <= x < orig.len() ==> (#[trigger] slots@[x]) == (if exists|p: int| 0 <= p < k && order[p] == x { None } else { orig[x] }),
            forall|p: int| 0 <= p < k ==> Some(#[trigger] items@[p]) == orig[order[p] as int],
            forall|j: int| 0 <= j < orig.len() ==> (#[trigger] orig[j]) is Some,
        decreases order.len() - k,
    {
        let x = order[k];
        assert(!(exists|p: int| 0 <= p < k && order[p] == x)) by {
            if exists|p: int| 0 <= p < k && order[p] == x {
                let p = choose|p: int| 0 <= p < k && order[p] == x;
                assert(order[p] != order[k as int]);
            }
        }
        let ghost before = slots@;
        let mut tmp: Option<DomainItem> = None;
        std::mem::swap(&mut tmp, &mut slots[x]);
        assert(slots@ == before.update(x as int, None));
        match tmp {
            Some(it) => {
                items.push(it);
            },
            None => {
                assert(false);
            },
        }
        assert forall|y: int| 0 <= y < orig.len() implies (#[trigger] slots@[y]) == (if exists|p: int| 0 <= p < k + 1 && order[p] == y { None } else { orig[y] }) by {
            if y == x {
                assert(order[k as int] == y);
            } else {
                assert(slots@[y] == before[y]);
                if exists|p: int| 0 <= p < k + 1 && order[p] == y {
                    let p = choose|p: int| 0 <= p < k + 1 && order[p] == y;
                    assert(p < k);
                }
            }
        }
        k = k + 1;
    }
    proof {
        assert forall|j: int| 0 <= j < items.len() implies item_matches(#[trigger] items@[j], items@[j].domain@, es, fs) && items@[j].domain@ == accs[order[j] as int].domain@ by {
            assert(orig[order[j] as int] is Some);
            assert(orig[order[j] as int].unwrap() == items@[j]);
        }
        assert forall|a: int, b: int| 0 <= a < b < items.len() implies (#[trigger] items@[a]).domain@ != (#[trigger] items@[b]).domain@ by {
            assert(items@[a].domain@ == accs[order[a] as int].domain@);
            assert(items@[b].domain@ == accs[order[b] as int].domain@);
            assert(order[a] != order[b]);
        }
        assert forall|j: int| 0 <= j < items.len() implies seen_domain(es, (#[trigger] items@[j]).domain@) by {
            assert(items@[j].domain@ == accs[order[j] as int].domain@);
        }
        assert forall|d: Seq<char>| #[trigger] seen_domain(es, d) implies exists|j: int| 0 <= j < items.len() && (#[trigger] items[j]).domain@ == d by {
            assert(accs_ok(accs@, es, fs));
            assert(exists|j: int| 0 <= j < accs@.len() && (#[trigger] accs@[j]).domain@ == d);
            let w = choose|w: int| 0 <= w < accs@.len() && (#[trigger] accs@[w]).domain@ == d;
            assert(lists_pos(order@, w));
            let p = choose|p: int| 0 <= p < order.len() && order[p] == w;
            assert(items@[p].domain@ == accs[order[p] as int].domain@);
            assert(items@[p].domain@ == d);
            assert(items[p].domain@ == d);
        }
        assert forall|a: int, b: int| 0 <= a < b < items.len() implies !item_before(sort, #[trigger] items@[b], #[trigger] items@[a]) by {
            assert(keys[order[a] as int] == rank_key_of(items@[a]));
            assert(keys[order[b] as int] == rank_key_of(items@[b]));
            assert(names[order[a] as int]@ == items@[a].domain@);
            assert(names[order[b] as int]@ == items@[b].domain@);
        }
    }
    let ds = DomainsSummary { items };
    assert forall|d: Seq<char>| #[trigger] seen_domain(events_of(rows@), d) implies exists|j: int| 0 <= j < ds.items.len() && (#[trigger] ds.items[j]).domain@ == d by {
        assert(seen_domain(es, d));
        let j = choose|j: int| 0 <= j < ds.items.len() && (#[trigger] ds.items@[j]).domain@ == d;
        assert(ds.items[j].domain@ == d);
    }
    ds
}


// ------------------------------------------------------------ address → hostname

/// The (address, hostname) pairs a row contributes: the answers of a DNS
/// response paired with its question name, then the destination paired with
/// the TLS SNI and with the HTTP Host.
pub open spec fn row_host_pairs(r: PacketRow) -> Seq<(IpAddr, Seq<char>)> {
    let dns = if is_dns_row(r) {
        match dns_message(r.payload@) {
            Some(m) => if m.is_response && m.qname.len() > 0 {
                m.answer_ips.map_values(|ip: IpAddr| (ip, m.qname))
            } else {
                Seq::empty()
            },
            None => Seq::empty(),
        }
    } else {
        Seq::empty()
    };
    let hints = match r.dst {
        Some(d) => (match opt_text(r.tls_sni) {
            Some(n) => seq![(d, n)],
            None => Seq::empty(),
        }) + (match opt_text(r.http_host) {
            Some(n) => seq![(d, n)],
            None => Seq::empty(),
        }),
        None => Seq::empty(),
    };
    dns + hints
}

pub open spec fn host_pairs(rows: Seq<PacketRow>) -> Seq<(IpAddr, Seq<char>)>
    decreases rows.len(),
{
    if rows.len() == 0 {
        Seq::empty()
    } else {
        host_pairs(rows.drop_last()) + row_host_pairs(rows.last())
    }
}

/// How often `p` occurs among the first `n` pairs.
pub open spec fn pair_count(ps: Seq<(IpAddr, Seq<char>)>, p: (IpAddr, Seq<char>), n: nat) -> nat
    decreases n,
{
    if n == 0 || n > ps.len() {
        0
    } else {
        pair_count(ps, p, (n - 1) as nat) + (if ps[n - 1] == p { 1nat } else { 0nat })
    }
}

pub open spec fn names_view(v: Seq<(IpAddr, Vec<char>)>) -> Seq<(IpAddr, Seq<char>)> {
    v.map_values(|e: (IpAddr, Vec<char>)| (e.0, e.1@))
}

/// Some entry of `idx` has address `ip`.
pub open spec fn key_listed(idx: Seq<(IpAddr, Seq<char>)>, ip: IpAddr) -> bool {
    exists|i: int| 0 <= i < idx.len() && (#[trigger] idx[i]).0 == ip
}

/// `p` occurs in `ps`.
pub open spec fn pair_seen(ps: Seq<(IpAddr, Seq<char>)>, p: (IpAddr, Seq<char>)) -> bool {
    exists|k: int| 0 <= k < ps.len() && #[trigger] ps[k] == p
}

/// `idx` maps each address that occurs in `ps`, in address order and once each,
/// to a hostname paired with it most often.
pub open spec fn hostname_index_of(idx: Seq<(IpAddr, Seq<char>)>, ps: Seq<(IpAddr, Seq<char>)>) -> bool {
    &&& forall|i: int, j: int| 0 <= i < j < idx.len() ==> crate::pcap::ip_lt((#[trigger] idx[i]).0, (#[trigger] idx[j]).0)
    &&& forall|k: int| 0 <= k < ps.len() ==> key_listed(idx, (#[trigger] ps[k]).0)
    &&& forall|i: int| 0 <= i < idx.len() ==> pair_seen(ps, #[trigger] idx[i])
    &&& forall|i: int, k: int| 0 <= i < idx.len() && 0 <= k < ps.len() && (#[trigger] ps[k]).0 == (#[trigger] idx[i]).0
        ==> pair_count(ps, ps[k], ps.len()) <= pair_count(ps, idx[i], ps.len())
}

/// The host pairs of a row, appended to `out`.
fn push_row_host_pairs(r: &PacketRow, out: &mut Vec<(IpAddr, Vec<char>)>)
    ensures
        names_view(final(out)@) == names_view(old(out)@) + row_host_pairs(*r),
{
    let ghost before = out@;
    let dns_row = r.proto == Some(L4Proto::Udp) && (r.src_port == Some(53u16) || r.dst_port == Some(53u16));
    if dns_row {
        match parse_dns_message(r.payload.as_slice()) {
            Some(m) => {
                let q = chars_of(m.qname.as_str());
                if m.is_response && q.len() > 0 {
                    let mut k: usize = 0;
                    while k < m.answer_ips.len()
                        invariant
                            k <= m.answer_ips@.len(),
                            q@ == m.qname@,
                            names_view(out@) == names_view(before) + m.answer_ips@.take(k as int).map_values(|ip: IpAddr| (ip, q@)),
                        decreases m.answer_ips@.len() - k,
                    {
                        let ghost prev = out@;
                        out.push((m.answer_ips[k], crate::text::chars_of_slice(q.as_slice())));
                        assert(names_view(out@) =~= names_view(prev).push((m.answer_ips@[k as int], q@)));
                        k = k + 1;
                        assert(m.answer_ips@.take(k as int).map_values(|ip: IpAddr| (ip, q@))
                            =~= m.answer_ips@.take(k - 1).map_values(|ip: IpAddr| (ip, q@)).push((m.answer_ips@[k - 1], q@)));
                        assert(names_view(out@) =~= names_view(before) + m.answer_ips@.take(k as int).map_values(|ip: IpAddr| (ip, q@)));
                    }
                    assert(m.answer_ips@.take(m.answer_ips@.len() as int) =~= m.answer_ips@);
                } else {
                    assert(names_view(out@) =~= names_view(before) + Seq::<(IpAddr, Seq<char>)>::empty());
                }
            },
            None => {
                assert(names_view(out@) =~= names_view(before) + Seq::<(IpAddr, Seq<char>)>::empty());
            },
        }
    } else {
        assert(names_view(out@) =~= names_view(before) + Seq::<(IpAddr, Seq<char>)>::empty());
    }
    let ghost mid = out@;
    match r.dst {
        Some(d) => {
            match &r.tls_sni {
                Some(n) => {
                    out.push((d, chars_of(n.as_str())));
                    assert(names_view(out@) =~= names_view(mid).push((d, n@)));
                },
                None => {
                    assert(names_view(out@) =~= names_view(mid));
                },
            }
            let ghost mid2 = out@;
            match &r.http_host {
                Some(n) => {
                    out.push((d, chars_of(n.as_str())));
                    assert(names_view(out@) =~= names_view(mid2).push((d, n@)));
                },
                None => {
                    assert(names_view(out@) =~= names_view(mid2));
                },
            }
        },
        None => {
            assert(names_view(out@) =~= names_view(mid));
        },
    }
    assert(names_view(out@) =~= names_view(before) + row_host_pairs(*r));
}

fn collect_host_pairs(rows: &[PacketRow]) -> (ps: Vec<(IpAddr, Vec<char>)>)
    ensures
        names_view(ps@) == host_pairs(rows@),
{
    let mut ps: Vec<(IpAddr, Vec<char>)> = Vec::new();
    let mut i: usize = 0;
    while i < rows.len()
        invariant
            i <= rows@.len(),
            names_view(ps@) == host_pairs(rows@.take(i as int)),
        decreases rows@.len() - i,
    {
        proof {
            assert(rows@.take(i + 1).drop_last() =~= rows@.take(i as int));
        }
        push_row_host_pairs(&rows[i], &mut ps);
        i = i + 1;
    }
    assert(rows@.take(rows@.len() as int) =~= rows@);
    ps
}

proof fn lemma_pair_count_bound(ps: Seq<(IpAddr, Seq<char>)>, p: (IpAddr, Seq<char>), n: nat)
    ensures
        pair_count(ps, p, n) <= n,
    decreases n,
{
    if n > 0 && n <= ps.len() {
        lemma_pair_count_bound(ps, p, (n - 1) as nat);
    }
}

/// How often `p` occurs in `ps`.
fn count_pair(ps: &Vec<(IpAddr, Vec<char>)>, ip: IpAddr, name: &[char]) -> (c: usize)
    ensures
        c == pair_count(names_view(ps@), (ip, name@), ps@.len()),
{
    let ghost pv = names_view(ps@);
    let mut c: usize = 0;
    let mut k: usize = 0;
    while k < ps.len()
        invariant
            k <= ps@.len(),
            pv == names_view(ps@),
            c == pair_count(pv, (ip, name@), k as nat),
            c <= k,
        decreases ps@.len() - k,
    {
        let same = ps[k].0 == ip && crate::text::chars_eq(ps[k].1.as_slice(), name);
        assert(pv[k as int] == (ps@[k as int].0, ps@[k as int].1@));
        if same {
            c = c + 1;
        }
        k = k + 1;
    }
    c
}

/// For each address seen in DNS answers, TLS SNI or HTTP Host, the hostname
/// seen with it most often; entries come in address order.
pub fn build_ip_hostname_index(rows: &[PacketRow]) -> (idx: Vec<(IpAddr, String)>)
    ensures
        hostname_index_of(index_view(idx@), host_pairs(rows@)),
{
    let ps = collect_host_pairs(rows);
    let ghost pv = names_view(ps@);
    let n = ps.len();
    // how often each pair occurs
    let mut counts: Vec<usize> = Vec::new();
    let mut k: usize = 0;
    while k < n
        invariant
            n == ps@.len(),
            pv == names_view(ps@),
            k <= n,
            counts@.len() == k,
            forall|q: int| 0 <= q < k ==> #[trigger] counts@[q] == pair_count(pv, pv[q], n as nat),
        decreases n - k,
    {
        let c = count_pair(&ps, ps[k].0, ps[k].1.as_slice());
        assert(pv[k as int] == (ps@[k as int].0, ps@[k as int].1@));
        counts.push(c);
        k = k + 1;
    }
    // the addresses, ordered
    let mut ips: Vec<IpAddr> = Vec::new();
    let mut k: usize = 0;
    while k < n
        invariant
            n == ps@.len(),
            pv == names_view(ps@),
            k <= n,
            ip_sorted(ips@),
            forall|y: IpAddr| #[trigger] ips@.contains(y) <==> exists|q: int| 0 <= q < k && (#[trigger] pv[q]).0 == y,
        decreases n - k,
    {
        let ghost before = ips@;
        insert_ip(&mut ips, ps[k].0);
        assert(pv[k as int].0 == ps@[k as int].0);
        assert forall|y: IpAddr| #[trigger] ips@.contains(y) <==> exists|q: int| 0 <= q < k + 1 && (#[trigger] pv[q]).0 == y by {
            if y == ps@[k as int].0 {
                assert(pv[k as int].0 == y);
            }
            if exists|q: int| 0 <= q < k + 1 && (#[trigger] pv[q]).0 == y {
                let q = choose|q: int| 0 <= q < k + 1 && (#[trigger] pv[q]).0 == y;
                if q < k {
                    assert(before.contains(y));
                }
            }
        }
        k = k + 1;
    }
    // the best name of each address
    let mut idx: Vec<(IpAddr, String)> = Vec::new();
    let mut i: usize = 0;
    while i < ips.len()
        invariant
            n == ps@.len(),
            pv == names_view(ps@),
            counts@.len() == n,
            forall|q: int| 0 <= q < n ==> #[trigger] counts@[q] == pair_count(pv, pv[q], n as nat),
            ip_sorted(ips@),
            forall|y: IpAddr| #[trigger] ips@.contains(y) <==> exists|q: int| 0 <= q < n && (#[trigger] pv[q]).0 == y,
            i <= ips@.len(),
            idx@.len() == i,
            forall|j: int| 0 <= j < i ==> (#[trigger] index_view(idx@)[j]).0 == ips@[j],
            forall|j: int| 0 <= j < i ==> pair_seen(pv, #[trigger] index_view(idx@)[j]),
            forall|j: int, q: int| 0 <= j < i && 0 <= q < n && (#[trigger] pv[q]).0 == (#[trigger] index_view(idx@)[j]).0
                ==> pair_count(pv, pv[q], n as nat) <= pair_count(pv, index_view(idx@)[j], n as nat),
        decreases ips@.len() - i,
    {
        let x = ips[i];
        assert(ips@.contains(x));
        let ghost w = choose|q: int| 0 <= q < n && (#[trigger] pv[q]).0 == x;
        let mut best: usize = n;
        let mut best_count: usize = 0;
        let mut q: usize = 0;
        while q < n
            invariant
                n == ps@.len(),
                pv == names_view(ps@),
                counts@.len() == n,
                forall|t: int| 0 <= t < n ==> #[trigger] counts@[t] == pair_count(pv, pv[t], n as nat),
                0 <= w < n,
                pv[w].0 == x,
                q <= n,
                best <= n,
                best == n <==> forall|t: int| 0 <= t < q ==> (#[trigger] pv[t]).0 != x,
                best < n ==> best < q && pv[best as int].0 == x && best_count == counts@[best as int],
                forall|t: int| 0 <= t < q && (#[trigger] pv[t]).0 == x ==> counts@[t] <= best_count,
            decreases n - q,
        {
            assert(pv[q as int].0 == ps@[q as int].0);
            if ps[q].0 == x && (best == n || counts[q] > best_count) {
                best = q;
                best_count = counts[q];
            }
            q = q + 1;
        }
        assert(best < n) by {
            if best == n {
                assert(pv[w].0 == x);
                assert(pv[w].0 != x);
            }
        }
        let name = str_of_chars_vec(&ps[best].1);
        assert(pv[best as int] == (ps@[best as int].0, ps@[best as int].1@));
        let ghost before = index_view(idx@);
        idx.push((x, name));
        let ghost now = index_view(idx@);
        assert(now =~= before.push(pv[best as int]));
        assert forall|j: int| 0 <= j < i + 1 implies pair_seen(pv, #[trigger] now[j]) by {
            if j < i {
                assert(now[j] == before[j]);
            } else {
                assert(pv[best as int] == now[j]);
            }
        }
        assert forall|j: int, t: int| 0 <= j < i + 1 && 0 <= t < n && (#[trigger] pv[t]).0 == (#[trigger] now[j]).0
            implies pair_count(pv, pv[t], n as nat) <= pair_count(pv, now[j], n as nat) by {
            if j < i {
                assert(now[j] == before[j]);
            } else {
                assert(counts@[t] <= best_count);
            }
        }
        assert forall|j: int| 0 <= j < i + 1 implies (#[trigger] now[j]).0 == ips@[j] by {
            if j < i {
                assert(now[j] == before[j]);
            }
        }
        i = i + 1;
    }
    proof {
        assert(pv.len() == n);
        lemma_index_complete(index_view(idx@), pv, ips@);
    }
    idx
}

proof fn lemma_index_complete(iw: Seq<(IpAddr, Seq<char>)>, pv: Seq<(IpAddr, Seq<char>)>, ips: Seq<IpAddr>)
    requires
        iw.len() == ips.len(),
        ip_sorted(ips),
        forall|y: IpAddr| #[trigger] ips.contains(y) <==> exists|q: int| 0 <= q < pv.len() && (#[trigger] pv[q]).0 == y,
        forall|j: int| 0 <= j < iw.len() ==> (#[trigger] iw[j]).0 == ips[j],
        forall|j: int| 0 <= j < iw.len() ==> pair_seen(pv, #[trigger] iw[j]),
        forall|j: int, q: int| 0 <= j < iw.len() && 0 <= q < pv.len() && (#[trigger] pv[q]).0 == (#[trigger] iw[j]).0
            ==> pair_count(pv, pv[q], pv.len()) <= pair_count(pv, iw[j], pv.len()),
    ensures
        hostname_index_of(iw, pv),
{
    assert forall|a: int, b: int| 0 <= a < b < iw.len() implies crate::pcap::ip_lt((#[trigger] iw[a]).0, (#[trigger] iw[b]).0) by {
        assert(iw[a].0 == ips[a] && iw[b].0 == ips[b]);
    }
    assert forall|k: int| 0 <= k < pv.len() implies key_listed(iw, (#[trigger] pv[k]).0) by {
        let y = pv[k].0;
        assert(ips.contains(y));
        let j = choose|j: int| 0 <= j < ips.len() && ips[j] == y;
        assert(iw[j].0 == y);
    }
}

fn str_of_chars_vec(v: &Vec<char>) -> (s: String)
    ensures
        s@ == v@,
{
    crate::text::str_of_chars(v)
}

/// The hostname the index gives for `ip`.
pub open spec fn index_lookup(idx: Seq<(IpAddr, Seq<char>)>, ip: IpAddr) -> Option<Seq<char>>
    decreases idx.len(),
{
    if idx.len() == 0 {
        None
    } else if idx[0].0 == ip {
        Some(idx[0].1)
    } else {
        index_lookup(idx.drop_first(), ip)
    }
}

pub open spec fn index_view(idx: Seq<(IpAddr, String)>) -> Seq<(IpAddr, Seq<char>)> {
    idx.map_values(|e: (IpAddr, String)| (e.0, e.1@))
}

/// The hostname of `ip` in an address → hostname index.
pub fn hostname_for(idx: &[(IpAddr, String)], ip: IpAddr) -> (r: Option<&String>)
    ensures
        match r {
            Some(s) => index_lookup(index_view(idx@), ip) == Some(s@),
            None => index_lookup(index_view(idx@), ip) is None,
        },
{
    let mut k: usize = 0;
    assert(index_view(idx@).skip(0) =~= index_view(idx@));
    while k < idx.len()
        invariant
            k <= idx@.len(),
            index_lookup(index_view(idx@), ip) == index_lookup(index_view(idx@).skip(k as int), ip),
        decreases idx@.len() - k,
    {
        let ghost rest = index_view(idx@).skip(k as int);
        assert(rest[0] == (idx@[k as int].0, idx@[k as int].1@));
        if idx[k].0 == ip {
            return Some(&idx[k].1);
        }
        assert(rest.drop_first() =~= index_view(idx@).skip(k + 1));
        k = k + 1;
    }
    None
}

} // verus!
