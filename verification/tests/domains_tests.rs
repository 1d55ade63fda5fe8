use babyshark::domains::{build_domains_summary, build_ip_hostname_index, hostname_for, parse_dns_message, DomainsSort};
use babyshark::flow::FlowIndex;
use babyshark::pcap::{FlowDir, FlowKey, IpAddr, L4Proto, PacketRow};

fn v4(a: u8, b: u8, c: u8, d: u8) -> IpAddr {
    IpAddr::V4(u32::from_be_bytes([a, b, c, d]))
}

#[allow(clippy::too_many_arguments)]
fn row(
    idx: usize,
    len: usize,
    src: IpAddr,
    dst: IpAddr,
    proto: L4Proto,
    sp: u16,
    dp: u16,
    dir: FlowDir,
) -> PacketRow {
    PacketRow {
        index: idx,
        ts: 0,
        len,
        src: Some(src),
        dst: Some(dst),
        proto: Some(proto),
        src_port: Some(sp),
        dst_port: Some(dp),
        summary: String::new(),
        flow: Some(FlowKey { src, dst, src_port: sp, dst_port: dp, proto }),
        flow_dir: Some(dir),
        tcp_seq: None,
        tcp_ack: None,
        tcp_flags: None,
        payload: Vec::new(),
        tcp_retransmission: false,
        tcp_out_of_order: false,
        dns_qname: None,
        dns_rcode: None,
        http_host: None,
        tls_sni: None,
        tls_version: None,
    }
}

fn http_row(idx: usize, host: &str, len: usize, sp: u16, dp: u16) -> PacketRow {
    let mut r = row(idx, len, v4(10, 0, 0, 2), v4(93, 184, 216, 34), L4Proto::Tcp, sp, dp, FlowDir::AtoB);
    r.http_host = Some(host.to_string());
    r
}

fn make_dns_response(qname: &str, rcode: u8, answers: &[[u8; 4]]) -> Vec<u8> {
    let flags: u16 = 0x8000 | (rcode as u16);
    let mut b: Vec<u8> = vec![0x00, 0x01, (flags >> 8) as u8, (flags & 0xff) as u8, 0x00, 0x01, 0x00, answers.len() as u8, 0x00, 0x00, 0x00, 0x00];
    for part in qname.split('.') {
        b.push(part.len() as u8);
        b.extend_from_slice(part.as_bytes());
    }
    b.push(0);
    b.extend_from_slice(&[0x00, 0x01, 0x00, 0x01]);
    for a in answers {
        // name pointer to the question, type A, class IN, ttl, rdlength 4
        b.extend_from_slice(&[0xc0, 0x0c, 0x00, 0x01, 0x00, 0x01, 0x00, 0x00, 0x00, 0x3c, 0x00, 0x04]);
        b.extend_from_slice(a);
    }
    b
}

#[test]
fn parses_simple_dns_query_name() {
    let mut b: Vec<u8> = vec![0x00, 0x01, 0x01, 0x00, 0x00, 0x01, 0x00, 0x00, 0x00, 0x00, 0x00, 0x00];
    b.extend_from_slice(&[7]);
    b.extend_from_slice(b"example");
    b.extend_from_slice(&[3]);
    b.extend_from_slice(b"com");
    b.push(0);
    b.extend_from_slice(&[0x00, 0x01, 0x00, 0x01]);

    let p = parse_dns_message(&b).unwrap();
    assert_eq!(p.qname, "example.com");
    assert!(!p.is_response);
}

#[test]
fn dns_message_reads_rcode_and_answers() {
    let b = make_dns_response("a.com", 0, &[[1, 2, 3, 4], [5, 6, 7, 8]]);
    let p = parse_dns_message(&b).unwrap();
    assert_eq!(p.qname, "a.com");
    assert!(p.is_response);
    assert_eq!(p.rcode, 0);
    assert_eq!(p.answer_ips, vec![v4(1, 2, 3, 4), v4(5, 6, 7, 8)]);
    assert!(parse_dns_message(&b[..5]).is_none());
}

#[test]
fn domains_sort_by_connections() {
    let rows = vec![http_row(0, "a.com", 60, 1111, 80), http_row(1, "a.com", 60, 2222, 80), http_row(2, "b.com", 60, 3333, 80)];
    let flows = FlowIndex::build(&rows);
    let dom = build_domains_summary(&rows, &flows, DomainsSort::Connections);
    assert_eq!(dom.items.first().unwrap().domain, "a.com");
    assert_eq!(dom.items.first().unwrap().stats.connections, 2);
}

#[test]
fn domains_sort_by_bytes() {
    let rows = vec![http_row(0, "a.com", 1500, 1111, 80), http_row(1, "b.com", 60, 2222, 80), http_row(2, "b.com", 60, 3333, 80)];
    let flows = FlowIndex::build(&rows);
    let dom = build_domains_summary(&rows, &flows, DomainsSort::Bytes);
    assert_eq!(dom.items.first().unwrap().domain, "a.com");
    assert!(dom.items.first().unwrap().stats.bytes >= 1500);
}

#[test]
fn domains_live_uses_dns_qname_hint() {
    let mk = |idx: usize, qname: &str, rcode: Option<u16>| {
        let mut r = row(idx, 60, v4(10, 0, 0, 2), v4(1, 1, 1, 1), L4Proto::Udp, 55555, 53, FlowDir::AtoB);
        r.dns_qname = Some(qname.to_string());
        r.dns_rcode = rcode;
        r
    };
    let rows = vec![mk(0, "live.example", Some(3)), mk(1, "ok.example", Some(0))];
    let flows = FlowIndex::build(&rows);
    let dom = build_domains_summary(&rows, &flows, DomainsSort::Failures);
    assert_eq!(dom.items.first().unwrap().domain, "live.example");
    assert!(dom.items.first().unwrap().stats.failures >= 1);
}

#[test]
fn domains_sort_by_failures() {
    let mk_dns = |idx: usize, qname: &str, rcode: u8| {
        let mut r = row(idx, 60, v4(1, 1, 1, 1), v4(10, 0, 0, 2), L4Proto::Udp, 53, 55555, FlowDir::BtoA);
        r.payload = make_dns_response(qname, rcode, &[]);
        r
    };
    let rows = vec![mk_dns(0, "a.com", 3), mk_dns(1, "a.com", 2), mk_dns(2, "b.com", 0)];
    let flows = FlowIndex::build(&rows);
    let dom = build_domains_summary(&rows, &flows, DomainsSort::Failures);
    assert_eq!(dom.items.first().unwrap().domain, "a.com");
    assert!(dom.items.first().unwrap().stats.failures >= 2);
}

#[test]
fn hostname_index_prefers_the_most_frequent_name() {
    let mut rows = Vec::new();
    for (i, h) in ["a.example", "b.example", "b.example"].iter().enumerate() {
        let mut r = row(i, 60, v4(10, 0, 0, 2), v4(93, 184, 216, 34), L4Proto::Tcp, 4000 + i as u16, 443, FlowDir::AtoB);
        r.tls_sni = Some(h.to_string());
        rows.push(r);
    }
    let mut dns = row(3, 60, v4(1, 1, 1, 1), v4(10, 0, 0, 2), L4Proto::Udp, 53, 55555, FlowDir::BtoA);
    dns.payload = make_dns_response("c.example", 0, &[[8, 8, 4, 4]]);
    rows.push(dns);

    let idx = build_ip_hostname_index(&rows);
    // one entry per address, in address order
    assert_eq!(idx.len(), 2);
    assert_eq!(idx[0].0, v4(8, 8, 4, 4));
    assert_eq!(idx[0].1, "c.example");
    assert_eq!(idx[1].0, v4(93, 184, 216, 34));
    assert_eq!(idx[1].1, "b.example");
    assert_eq!(hostname_for(&idx, v4(93, 184, 216, 34)).map(|s| s.as_str()), Some("b.example"));
    assert_eq!(hostname_for(&idx, v4(9, 9, 9, 9)), None);
}
