use babyshark::flow::FlowIndex;
use babyshark::pcap::{FlowDir, FlowKey, IpAddr, L4Proto, PacketRow};
use babyshark::weird::{build_weird_summary, WeirdDetector, WeirdItem};

fn v4(a: u8, b: u8, c: u8, d: u8) -> IpAddr {
    IpAddr::V4(u32::from_be_bytes([a, b, c, d]))
}

const SEC: i64 = 1_000_000_000;

fn tcp(idx: usize, ts: i64, client_port: u16, server: IpAddr, flags: u16) -> PacketRow {
    let client = v4(10, 0, 0, 5);
    PacketRow {
        index: idx,
        ts,
        len: 60,
        src: Some(client),
        dst: Some(server),
        proto: Some(L4Proto::Tcp),
        src_port: Some(client_port),
        dst_port: Some(443),
        summary: String::new(),
        flow: Some(FlowKey { src: client, dst: server, src_port: client_port, dst_port: 443, proto: L4Proto::Tcp }),
        flow_dir: Some(FlowDir::AtoB),
        tcp_seq: Some(1),
        tcp_ack: None,
        tcp_flags: Some(flags),
        payload: Vec::new(),
        tcp_retransmission: false,
        tcp_out_of_order: false,
        dns_qname: None,
        dns_rcode: None,
        http_host: None,
        tls_sni: None,
        tls_version: None,
    }
}

fn item<'a>(items: &'a [WeirdItem], d: WeirdDetector) -> &'a WeirdItem {
    items.iter().find(|it| it.detector == d).unwrap()
}

fn ports_of(flows: &FlowIndex, it: &WeirdItem) -> Vec<u16> {
    let mut p: Vec<u16> = it.flow_indices.iter().map(|&i| flows.flows[i].key.src_port.min(flows.flows[i].key.dst_port)).collect();
    p.sort();
    p
}

#[test]
fn every_detector_is_listed_once_most_flagged_first() {
    let server = v4(93, 184, 216, 34);
    let rows = vec![tcp(0, 0, 1000, server, 0x04), tcp(1, SEC, 1001, server, 0x04), tcp(2, 2 * SEC, 1002, server, 0x02)];
    let flows = FlowIndex::build(&rows);
    let w = build_weird_summary(&rows, &flows);
    assert_eq!(w.items.len(), 7);
    assert_eq!(w.items[0].detector, WeirdDetector::TcpResets);
    assert_eq!(w.items[0].flow_indices.len(), 2);
    assert_eq!(w.items[0].title, "TCP resets (RST)");
    for pair in w.items.windows(2) {
        assert!(pair[0].flow_indices.len() >= pair[1].flow_indices.len());
    }
}

#[test]
fn repeated_syns_without_an_answer_are_an_unfinished_handshake() {
    let server = v4(93, 184, 216, 34);
    let rows = vec![tcp(0, 0, 1000, server, 0x02), tcp(1, SEC, 1000, server, 0x02), tcp(2, 0, 2000, server, 0x02)];
    let flows = FlowIndex::build(&rows);
    let w = build_weird_summary(&rows, &flows);
    let hs = item(&w.items, WeirdDetector::TcpHandshakeNotCompleted);
    assert_eq!(ports_of(&flows, hs), vec![443]);
    assert_eq!(hs.flow_indices.len(), 1);
    let f = &flows.flows[hs.flow_indices[0]];
    assert_eq!(f.total_packets, 2);
}

#[test]
fn deprecated_tls_and_dns_failures_are_flagged() {
    let server = v4(93, 184, 216, 34);
    let mut old_tls = tcp(0, 0, 1000, server, 0x18);
    old_tls.tls_version = Some(0x0301);
    let mut modern = tcp(1, 0, 1001, server, 0x18);
    modern.tls_version = Some(0x0304);
    let mut nx = tcp(2, 0, 1002, server, 0x18);
    nx.dns_rcode = Some(3);
    let rows = vec![old_tls, modern, nx];
    let flows = FlowIndex::build(&rows);
    let w = build_weird_summary(&rows, &flows);
    let tls = item(&w.items, WeirdDetector::DeprecatedTls);
    assert_eq!(tls.flow_indices.len(), 1);
    let k = flows.flows[tls.flow_indices[0]].key;
    assert_eq!(k.src_port.max(k.dst_port), 1000);
    let dns = item(&w.items, WeirdDetector::DnsFailures);
    assert_eq!(dns.flow_indices.len(), 1);
    let k = flows.flows[dns.flow_indices[0]].key;
    assert_eq!(k.src_port.max(k.dst_port), 1002);
}

#[test]
fn ten_connections_to_one_destination_within_a_minute_are_chatty() {
    let server = v4(203, 0, 113, 7);
    let other = v4(198, 51, 100, 1);
    let mut rows: Vec<PacketRow> = (0..10).map(|i| tcp(i, i as i64 * 6 * SEC, 3000 + i as u16, server, 0x02)).collect();
    rows.push(tcp(10, 0, 4000, other, 0x02));
    let flows = FlowIndex::build(&rows);
    let w = build_weird_summary(&rows, &flows);
    let chatty = item(&w.items, WeirdDetector::ChattyHosts);
    assert_eq!(chatty.title, "Chatty hosts (burst connections)");
    assert_eq!(chatty.flow_indices.len(), 10);
    assert!(chatty.flow_indices.iter().all(|&i| flows.flows[i].key.dst == server || flows.flows[i].key.src == server));
    assert!(chatty.flow_indices.windows(2).all(|p| p[0] < p[1]));
}

#[test]
fn nine_connections_or_a_slower_pace_are_not_chatty() {
    let server = v4(203, 0, 113, 7);
    let nine: Vec<PacketRow> = (0..9).map(|i| tcp(i, i as i64 * SEC, 3000 + i as u16, server, 0x02)).collect();
    let flows = FlowIndex::build(&nine);
    let w = build_weird_summary(&nine, &flows);
    assert!(item(&w.items, WeirdDetector::ChattyHosts).flow_indices.is_empty());

    let spread: Vec<PacketRow> = (0..10).map(|i| tcp(i, i as i64 * 7 * SEC, 3000 + i as u16, server, 0x02)).collect();
    let flows = FlowIndex::build(&spread);
    let w = build_weird_summary(&spread, &flows);
    assert!(item(&w.items, WeirdDetector::ChattyHosts).flow_indices.is_empty());
}

#[test]
fn a_long_busy_flow_is_flagged_as_high_latency() {
    let server = v4(203, 0, 113, 9);
    // twenty packets over five seconds on one connection
    let busy: Vec<PacketRow> = (0..20).map(|i| tcp(i, i as i64 * 5 * SEC / 19, 5000, server, 0x10)).collect();
    let flows = FlowIndex::build(&busy);
    let w = build_weird_summary(&busy, &flows);
    let slow = item(&w.items, WeirdDetector::HighLatency);
    assert_eq!(slow.title, "High-latency flows (rough)");
    assert!(slow.why.starts_with("If a flow takes a long time and has lots of packets"));
    assert_eq!(slow.flow_indices, vec![0]);
}

#[test]
fn a_short_or_quiet_flow_is_not_high_latency() {
    let server = v4(203, 0, 113, 9);
    let quiet: Vec<PacketRow> = (0..19).map(|i| tcp(i, i as i64 * SEC, 5000, server, 0x10)).collect();
    let flows = FlowIndex::build(&quiet);
    let w = build_weird_summary(&quiet, &flows);
    assert!(item(&w.items, WeirdDetector::HighLatency).flow_indices.is_empty());

    let quick: Vec<PacketRow> = (0..30).map(|i| tcp(i, i as i64 * SEC / 10, 5000, server, 0x10)).collect();
    let flows = FlowIndex::build(&quick);
    let w = build_weird_summary(&quick, &flows);
    assert!(item(&w.items, WeirdDetector::HighLatency).flow_indices.is_empty());
}
