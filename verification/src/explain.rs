//! "Explain this flow": a best guess at the service and plain-language hints.
use vstd::prelude::*;
use crate::flow::{count_syn, count_syn_ack, flags_of, flow_label_text, picked, proto_name, FlowStats, TCP_FLAG_ACK, TCP_FLAG_RST, TCP_FLAG_SYN};
use crate::hints::opt_text;
use crate::pcap::{FlowKey, L4Proto, PacketRow};
use crate::text::{contains, contains_seq, dec_seq, holds_text, join_parts, join_seq, push_all, push_decimal, push_str, string_of, texts};

verus! {

pub struct ExplainSummary {
    pub title: String,
    pub likely: String,
    pub why: Vec<String>,
    pub next: Vec<String>,
}

/// The service a port suggests, from the lower of the two ports.
pub open spec fn port_service(key: FlowKey) -> Seq<char> {
    let port = if key.dst_port < key.src_port { key.dst_port } else { key.src_port };
    match key.proto {
        L4Proto::Udp => if port == 53 {
            "DNS"@
        } else if port == 5353 {
            "mDNS (local discovery noise)"@
        } else if port == 1900 {
            "SSDP/UPnP (local discovery noise)"@
        } else {
            proto_name(key.proto) + " traffic"@
        },
        L4Proto::Tcp => if port == 80 {
            "HTTP"@
        } else if port == 443 {
            "HTTPS/TLS"@
        } else if port == 22 {
            "SSH"@
        } else {
            proto_name(key.proto) + " traffic"@
        },
        L4Proto::Other(_) => proto_name(key.proto) + " traffic"@,
    }
}

pub open spec fn count_rst(s: Seq<PacketRow>) -> nat
    decreases s.len(),
{
    if s.len() == 0 {
        0
    } else {
        count_rst(s.drop_last()) + (if flags_of(s.last()) & TCP_FLAG_RST != 0 { 1nat } else { 0nat })
    }
}

/// The values of a text field over the rows that have it, in order.
pub open spec fn field_texts(s: Seq<PacketRow>, f: spec_fn(PacketRow) -> Option<Seq<char>>) -> Seq<Seq<char>>
    decreases s.len(),
{
    if s.len() == 0 {
        Seq::empty()
    } else {
        let rest = field_texts(s.drop_last(), f);
        match f(s.last()) {
            Some(t) => rest.push(t),
            None => rest,
        }
    }
}

/// The first three distinct texts, in order of first appearance.
pub open spec fn first_distinct(s: Seq<Seq<char>>) -> Seq<Seq<char>>
    decreases s.len(),
{
    if s.len() == 0 {
        Seq::empty()
    } else {
        let r = first_distinct(s.drop_last());
        if r.len() < 3 && !r.contains(s.last()) {
            r.push(s.last())
        } else {
            r
        }
    }
}

pub open spec fn dns_field(r: PacketRow) -> Option<Seq<char>> {
    opt_text(r.dns_qname)
}

pub open spec fn http_field(r: PacketRow) -> Option<Seq<char>> {
    opt_text(r.http_host)
}

pub open spec fn sni_field(r: PacketRow) -> Option<Seq<char>> {
    opt_text(r.tls_sni)
}

pub open spec fn when(c: bool, t: Seq<char>) -> Seq<Seq<char>> {
    if c {
        seq![t]
    } else {
        Seq::empty()
    }
}

pub open spec fn service_from(key: FlowKey, dns: Seq<Seq<char>>, http: Seq<Seq<char>>, sni: Seq<Seq<char>>) -> Seq<char> {
    if sni.len() > 0 {
        "HTTPS/TLS"@
    } else if http.len() > 0 {
        "HTTP"@
    } else if dns.len() > 0 {
        "DNS"@
    } else {
        port_service(key)
    }
}

pub open spec fn why_from(rst: nat, handshake: bool, dns: Seq<Seq<char>>, http: Seq<Seq<char>>, sni: Seq<Seq<char>>) -> Seq<Seq<char>> {
    when(rst > 0, "Saw "@ + dec_seq(rst) + " TCP reset(s) (RST)"@)
        + when(handshake, "Repeated SYNs but no SYN,ACK (could be blocked or capture is one-sided)"@)
        + when(dns.len() > 0, "DNS names seen: "@ + join_seq(dns, ", "@))
        + when(http.len() > 0, "HTTP Host: "@ + join_seq(http, ", "@))
        + when(sni.len() > 0, "TLS SNI: "@ + join_seq(sni, ", "@))
}

pub open spec fn next_from(rst: nat, handshake: bool, dns: Seq<Seq<char>>, http: Seq<Seq<char>>, sni: Seq<Seq<char>>, service: Seq<char>) -> Seq<Seq<char>> {
    let next0 = when(rst > 0, "Open Weird stuff (W) to see other failing flows"@)
        + when(handshake, "Check if you captured both directions (same interface?)"@)
        + when(dns.len() > 0, "Open Domains (D) to pivot by hostname"@)
        + when(http.len() > 0, "Follow stream (f) to see the request/response"@)
        + when(sni.len() > 0, "Open Domains (D) to pivot by hostname"@)
        + when(contains_seq(service, "TLS"@), "Note: TLS payload is encrypted; without keys you can’t inspect the contents — but timing, sizes, resets/retries, and host hints still help."@);
    if next0.len() == 0 {
        seq!["From packets: press f to Follow stream (TCP)"@, "Use / to search in the stream"@]
    } else {
        next0
    }
}

/// The service guess, the reasons and the suggested next steps for a flow whose
/// rows are `ps`.
pub open spec fn explain_parts(key: FlowKey, ps: Seq<PacketRow>) -> (Seq<char>, Seq<Seq<char>>, Seq<Seq<char>>) {
    let rst = count_rst(ps);
    let handshake = key.proto == L4Proto::Tcp && count_syn(ps) >= 2 && count_syn_ack(ps) == 0;
    let dns = first_distinct(field_texts(ps, |r: PacketRow| dns_field(r)));
    let http = first_distinct(field_texts(ps, |r: PacketRow| http_field(r)));
    let sni = first_distinct(field_texts(ps, |r: PacketRow| sni_field(r)));
    let service = service_from(key, dns, http, sni);
    (service, why_from(rst, handshake, dns, http, sni), next_from(rst, handshake, dns, http, sni, service))
}

pub open spec fn strings(v: Seq<String>) -> Seq<Seq<char>> {
    v.map_values(|s: String| s@)
}

fn add_distinct(v: &mut Vec<Vec<char>>, t: &Option<String>, Ghost(seen): Ghost<Seq<Seq<char>>>)
    requires
        texts(old(v)@) == first_distinct(seen),
    ensures
        texts(final(v)@) == first_distinct(match opt_text(*t) {
            Some(x) => seen.push(x),
            None => seen,
        }),
{
    match t {
        Some(s) => {
            let cs = crate::text::chars_of(s.as_str());
            assert(seen.push(cs@).drop_last() =~= seen);
            if v.len() < 3 && !holds_text(v, cs.as_slice()) {
                let ghost before = v@;
                v.push(cs);
                assert(texts(v@) =~= texts(before).push(s@));
            }
        },
        None => {},
    }
}

fn push_line(v: &mut Vec<String>, t: &str)
    ensures
        strings(final(v)@) == strings(old(v)@).push(t@),
{
    let ghost before = v@;
    v.push(t.to_owned());
    assert(strings(v@) =~= strings(before).push(t@));
}

fn push_chars_line(v: &mut Vec<String>, t: &Vec<char>)
    ensures
        strings(final(v)@) == strings(old(v)@).push(t@),
{
    let ghost before = v@;
    v.push(string_of(t.as_slice()));
    assert(strings(v@) =~= strings(before).push(t@));
}

fn service_exec(key: &FlowKey) -> (s: Vec<char>)
    ensures
        s@ == port_service(*key),
{
    let port = if key.dst_port < key.src_port { key.dst_port } else { key.src_port };
    let mut v: Vec<char> = Vec::new();
    match key.proto {
        L4Proto::Udp => {
            if port == 53 {
                push_str(&mut v, "DNS");
            } else if port == 5353 {
                push_str(&mut v, "mDNS (local discovery noise)");
            } else if port == 1900 {
                push_str(&mut v, "SSDP/UPnP (local discovery noise)");
            } else {
                push_str(&mut v, "UDP traffic");
                proof { reveal_strlit("UDP traffic"); reveal_strlit("UDP"); reveal_strlit(" traffic"); }
                assert(v@ =~= proto_name(key.proto) + " traffic"@);
            }
        },
        L4Proto::Tcp => {
            if port == 80 {
                push_str(&mut v, "HTTP");
            } else if port == 443 {
                push_str(&mut v, "HTTPS/TLS");
            } else if port == 22 {
                push_str(&mut v, "SSH");
            } else {
                push_str(&mut v, "TCP traffic");
                proof { reveal_strlit("TCP traffic"); reveal_strlit("TCP"); reveal_strlit(" traffic"); }
                assert(v@ =~= proto_name(key.proto) + " traffic"@);
            }
        },
        L4Proto::Other(_) => {
            push_str(&mut v, "L4 traffic");
            proof { reveal_strlit("L4 traffic"); reveal_strlit("L4"); reveal_strlit(" traffic"); }
            assert(v@ =~= proto_name(key.proto) + " traffic"@);
        },
    }
    v
}

pub struct ExplainSignals {
    pub rst: u64,
    pub syn: u64,
    pub syn_ack: u64,
    pub dns: Vec<Vec<char>>,
    pub http: Vec<Vec<char>>,
    pub sni: Vec<Vec<char>>,
}

fn explain_signals(rows: &[PacketRow], fl: &FlowStats) -> (g: ExplainSignals)
    ensures
        g.rst == count_rst(picked(rows@, fl.packet_indices@)),
        g.syn == count_syn(picked(rows@, fl.packet_indices@)),
        g.syn_ack == count_syn_ack(picked(rows@, fl.packet_indices@)),
        texts(g.dns@) == first_distinct(field_texts(picked(rows@, fl.packet_indices@), |r: PacketRow| dns_field(r))),
        texts(g.http@) == first_distinct(field_texts(picked(rows@, fl.packet_indices@), |r: PacketRow| http_field(r))),
        texts(g.sni@) == first_distinct(field_texts(picked(rows@, fl.packet_indices@), |r: PacketRow| sni_field(r))),
{
    let ghost idx = fl.packet_indices@;
    let mut rst: u64 = 0;
    let mut syn: u64 = 0;
    let mut syn_ack: u64 = 0;
    let mut dns: Vec<Vec<char>> = Vec::new();
    let mut http: Vec<Vec<char>> = Vec::new();
    let mut sni: Vec<Vec<char>> = Vec::new();
    let mut k: usize = 0;
    while k < fl.packet_indices.len()
        invariant
            k <= idx.len(),
            idx == fl.packet_indices@,
            rst <= k,
            syn <= k,
            syn_ack <= k,
            rst == count_rst(picked(rows@, idx.take(k as int))),
            syn == count_syn(picked(rows@, idx.take(k as int))),
            syn_ack == count_syn_ack(picked(rows@, idx.take(k as int))),
            texts(dns@) == first_distinct(field_texts(picked(rows@, idx.take(k as int)), |r: PacketRow| dns_field(r))),
            texts(http@) == first_distinct(field_texts(picked(rows@, idx.take(k as int)), |r: PacketRow| http_field(r))),
            texts(sni@) == first_distinct(field_texts(picked(rows@, idx.take(k as int)), |r: PacketRow| sni_field(r))),
        decreases idx.len() - k,
    {
        let pi = fl.packet_indices[k];
        let ghost before = picked(rows@, idx.take(k as int));
        assert(idx.take(k + 1).drop_last() =~= idx.take(k as int));
        if pi < rows.len() {
            let r = &rows[pi];
            let ghost after = before.push(*r);
            assert(after.drop_last() =~= before);
            let flags: u16 = match r.tcp_flags {
                Some(f) => f,
                None => 0,
            };
            if (flags & TCP_FLAG_RST) != 0 {
                rst = rst + 1;
            }
            if (flags & TCP_FLAG_SYN) != 0 && (flags & TCP_FLAG_ACK) == 0 {
                syn = syn + 1;
            }
            if (flags & TCP_FLAG_SYN) != 0 && (flags & TCP_FLAG_ACK) != 0 {
                syn_ack = syn_ack + 1;
            }
            add_distinct(&mut dns, &r.dns_qname, Ghost(field_texts(before, |r: PacketRow| dns_field(r))));
            add_distinct(&mut http, &r.http_host, Ghost(field_texts(before, |r: PacketRow| http_field(r))));
            add_distinct(&mut sni, &r.tls_sni, Ghost(field_texts(before, |r: PacketRow| sni_field(r))));
        }
        k = k + 1;
    }
    assert(idx.take(idx.len() as int) =~= idx);
    ExplainSignals { rst, syn, syn_ack, dns, http, sni }
}

fn why_lines(g: &ExplainSignals, handshake: bool) -> (why: Vec<String>)
    ensures
        strings(why@) == why_from(g.rst as nat, handshake, texts(g.dns@), texts(g.http@), texts(g.sni@)),
{
    let mut why: Vec<String> = Vec::new();
    let ghost w0 = strings(why@);
    if g.rst > 0 {
        let mut m: Vec<char> = Vec::new();
        push_str(&mut m, "Saw ");
        push_decimal(&mut m, g.rst);
        push_str(&mut m, " TCP reset(s) (RST)");
        push_chars_line(&mut why, &m);
    }
    assert(strings(why@) =~= when(g.rst > 0, "Saw "@ + dec_seq(g.rst as nat) + " TCP reset(s) (RST)"@));
    let ghost w1 = strings(why@);
    if handshake {
        push_line(&mut why, "Repeated SYNs but no SYN,ACK (could be blocked or capture is one-sided)");
    }
    assert(strings(why@) =~= w1 + when(handshake, "Repeated SYNs but no SYN,ACK (could be blocked or capture is one-sided)"@));
    let ghost w2 = strings(why@);
    if g.dns.len() > 0 {
        let mut m: Vec<char> = Vec::new();
        push_str(&mut m, "DNS names seen: ");
        let j = join_parts(&g.dns, ", ");
        push_all(&mut m, j.as_slice());
        push_chars_line(&mut why, &m);
    }
    assert(strings(why@) =~= w2 + when(g.dns@.len() > 0, "DNS names seen: "@ + join_seq(texts(g.dns@), ", "@)));
    let ghost w3 = strings(why@);
    if g.http.len() > 0 {
        let mut m: Vec<char> = Vec::new();
        push_str(&mut m, "HTTP Host: ");
        let j = join_parts(&g.http, ", ");
        push_all(&mut m, j.as_slice());
        push_chars_line(&mut why, &m);
    }
    assert(strings(why@) =~= w3 + when(g.http@.len() > 0, "HTTP Host: "@ + join_seq(texts(g.http@), ", "@)));
    let ghost w4 = strings(why@);
    if g.sni.len() > 0 {
        let mut m: Vec<char> = Vec::new();
        push_str(&mut m, "TLS SNI: ");
        let j = join_parts(&g.sni, ", ");
        push_all(&mut m, j.as_slice());
        push_chars_line(&mut why, &m);
    }
    assert(strings(why@) =~= w4 + when(g.sni@.len() > 0, "TLS SNI: "@ + join_seq(texts(g.sni@), ", "@)));
    why
}

fn next_lines(g: &ExplainSignals, handshake: bool, service: &Vec<char>) -> (next: Vec<String>)
    ensures
        strings(next@) == next_from(g.rst as nat, handshake, texts(g.dns@), texts(g.http@), texts(g.sni@), service@),
{
    let mut next: Vec<String> = Vec::new();
    if g.rst > 0 {
        push_line(&mut next, "Open Weird stuff (W) to see other failing flows");
    }
    assert(strings(next@) =~= when(g.rst > 0, "Open Weird stuff (W) to see other failing flows"@));
    let ghost n1 = strings(next@);
    if handshake {
        push_line(&mut next, "Check if you captured both directions (same interface?)");
    }
    assert(strings(next@) =~= n1 + when(handshake, "Check if you captured both directions (same interface?)"@));
    let ghost n2 = strings(next@);
    if g.dns.len() > 0 {
        push_line(&mut next, "Open Domains (D) to pivot by hostname");
    }
    assert(strings(next@) =~= n2 + when(g.dns@.len() > 0, "Open Domains (D) to pivot by hostname"@));
    let ghost n3 = strings(next@);
    if g.http.len() > 0 {
        push_line(&mut next, "Follow stream (f) to see the request/response");
    }
    assert(strings(next@) =~= n3 + when(g.http@.len() > 0, "Follow stream (f) to see the request/response"@));
    let ghost n4 = strings(next@);
    if g.sni.len() > 0 {
        push_line(&mut next, "Open Domains (D) to pivot by hostname");
    }
    assert(strings(next@) =~= n4 + when(g.sni@.len() > 0, "Open Domains (D) to pivot by hostname"@));
    let ghost n5 = strings(next@);
    let tls = crate::text::chars_of("TLS");
    let has_tls = contains(service.as_slice(), tls.as_slice());
    if has_tls {
        push_line(&mut next, "Note: TLS payload is encrypted; without keys you can’t inspect the contents — but timing, sizes, resets/retries, and host hints still help.");
    }
    assert(strings(next@) =~= n5 + when(has_tls, "Note: TLS payload is encrypted; without keys you can’t inspect the contents — but timing, sizes, resets/retries, and host hints still help."@));
    if next.len() == 0 {
        push_line(&mut next, "From packets: press f to Follow stream (TCP)");
        push_line(&mut next, "Use / to search in the stream");
        assert(strings(next@) =~= seq!["From packets: press f to Follow stream (TCP)"@, "Use / to search in the stream"@]);
    }
    next
}

/// Guess the service of a flow and list the evidence and next steps.
pub fn classify_flow(rows: &[PacketRow], fl: &FlowStats) -> (r: (String, Vec<String>, Vec<String>))
    ensures
        (r.0@, strings(r.1@), strings(r.2@)) == explain_parts(fl.key, picked(rows@, fl.packet_indices@)),
{
    let g = explain_signals(rows, fl);
    let handshake = fl.key.proto == L4Proto::Tcp && g.syn >= 2 && g.syn_ack == 0;
    let service: Vec<char> = if g.sni.len() > 0 {
        crate::text::chars_of("HTTPS/TLS")
    } else if g.http.len() > 0 {
        crate::text::chars_of("HTTP")
    } else if g.dns.len() > 0 {
        crate::text::chars_of("DNS")
    } else {
        service_exec(&fl.key)
    };
    let why = why_lines(&g, handshake);
    let next = next_lines(&g, handshake, &service);
    (string_of(service.as_slice()), why, next)
}

/// Title, likely service, evidence and next steps for a flow.
pub fn explain_flow(rows: &[PacketRow], fl: &FlowStats) -> (e: ExplainSummary)
    ensures
        e.title@ == flow_label_text(fl.key),
        (e.likely@, strings(e.why@), strings(e.next@)) == explain_parts(fl.key, picked(rows@, fl.packet_indices@)),
{
    let (likely, why, next) = classify_flow(rows, fl);
    ExplainSummary { title: fl.label(), likely, why, next }
}

} // verus!
