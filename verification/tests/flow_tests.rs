use babyshark::capture::read_capture;
use babyshark::flow::{
    analyze_flows, compute_asymmetry, AsymmetryLabel, DirStats, FlowAnalysis, FlowIndex, FlowStats, HealthBadge,
    TCP_FLAG_ACK, TCP_FLAG_FIN, TCP_FLAG_RST, TCP_FLAG_SYN,
};
use babyshark::pcap::{FlowDir, FlowKey, IpAddr, L4Proto, PacketRow};
use etherparse::PacketBuilder;
use pcap_file::pcap::{PcapPacket, PcapWriter};
use std::time::Duration;

fn v4(a: u8, b: u8, c: u8, d: u8) -> IpAddr {
    IpAddr::V4(u32::from_be_bytes([a, b, c, d]))
}

fn ms(t: i64) -> i64 {
    t * 1_000_000
}

#[allow(clippy::too_many_arguments)]
fn tcp_row(idx: usize, t_ms: i64, len: usize, sp: u16, dp: u16, flags: u16, payload_len: usize, retrans: bool) -> PacketRow {
    PacketRow {
        index: idx,
        ts: ms(t_ms),
        len,
        src: Some(v4(10, 0, 0, 1)),
        dst: Some(v4(93, 184, 216, 34)),
        proto: Some(L4Proto::Tcp),
        src_port: Some(sp),
        dst_port: Some(dp),
        summary: String::new(),
        flow: Some(FlowKey { src: v4(10, 0, 0, 1), dst: v4(93, 184, 216, 34), src_port: sp, dst_port: dp, proto: L4Proto::Tcp }),
        flow_dir: Some(FlowDir::AtoB),
        tcp_seq: None,
        tcp_ack: None,
        tcp_flags: Some(flags),
        payload: vec![0u8; payload_len],
        tcp_retransmission: retrans,
        tcp_out_of_order: false,
        dns_qname: None,
        dns_rcode: None,
        http_host: None,
        tls_sni: None,
        tls_version: None,
    }
}

fn two_tcp_packets() -> Vec<u8> {
    let mut buf: Vec<u8> = Vec::new();
    {
        let mut writer = PcapWriter::new(&mut buf).unwrap();
        let mut pkt0 = Vec::with_capacity(128);
        PacketBuilder::ethernet2([1, 2, 3, 4, 5, 6], [7, 8, 9, 10, 11, 12])
            .ipv4([10, 0, 0, 1], [10, 0, 0, 2], 64)
            .tcp(1234, 80, 1, 0)
            .write(&mut pkt0, b"GET")
            .unwrap();
        let mut pkt1 = Vec::with_capacity(128);
        PacketBuilder::ethernet2([7, 8, 9, 10, 11, 12], [1, 2, 3, 4, 5, 6])
            .ipv4([10, 0, 0, 2], [10, 0, 0, 1], 64)
            .tcp(80, 1234, 1, 0)
            .write(&mut pkt1, b"OK")
            .unwrap();
        let p0 = PcapPacket::new(Duration::from_secs(1), pkt0.len() as u32, &pkt0);
        let p1 = PcapPacket::new(Duration::from_secs(2), pkt1.len() as u32, &pkt1);
        writer.write_packet(&p0).unwrap();
        writer.write_packet(&p1).unwrap();
    }
    buf
}

fn health_of(rows: &[PacketRow]) -> HealthBadge {
    let mut flows = FlowIndex::build(rows);
    analyze_flows(&mut flows, rows);
    flows.flows[0].analysis.as_ref().unwrap().health
}

#[test]
fn health_green_for_clean_tcp() {
    let rows = vec![
        tcp_row(0, 0, 60, 1111, 80, TCP_FLAG_SYN, 0, false),
        tcp_row(1, 10, 60, 1111, 80, TCP_FLAG_SYN | TCP_FLAG_ACK, 0, false),
        tcp_row(2, 20, 500, 1111, 80, TCP_FLAG_ACK, 100, false),
        tcp_row(3, 100, 60, 1111, 80, TCP_FLAG_FIN | TCP_FLAG_ACK, 0, false),
    ];
    assert_eq!(health_of(&rows), HealthBadge::Green);
}

#[test]
fn health_red_for_rst() {
    let rows = vec![
        tcp_row(0, 0, 60, 1111, 80, TCP_FLAG_SYN, 0, false),
        tcp_row(1, 10, 60, 1111, 80, TCP_FLAG_RST, 0, false),
    ];
    assert_eq!(health_of(&rows), HealthBadge::Red);
}

#[test]
fn health_red_for_incomplete_handshake() {
    let rows = vec![
        tcp_row(0, 0, 60, 1111, 80, TCP_FLAG_SYN, 0, false),
        tcp_row(1, 1000, 60, 1111, 80, TCP_FLAG_SYN, 0, false),
    ];
    assert_eq!(health_of(&rows), HealthBadge::Red);
}

#[test]
fn health_yellow_for_retransmits() {
    let rows = vec![
        tcp_row(0, 0, 60, 1111, 80, TCP_FLAG_SYN, 0, false),
        tcp_row(1, 10, 60, 1111, 80, TCP_FLAG_SYN | TCP_FLAG_ACK, 0, false),
        tcp_row(2, 20, 500, 1111, 80, TCP_FLAG_ACK, 100, true),
    ];
    assert_eq!(health_of(&rows), HealthBadge::Yellow);
}

#[test]
fn asymmetry_b_to_a_heavy() {
    let mut fl = FlowStats::default();
    fl.a_to_b = DirStats { packets: 1, bytes: 100 };
    fl.b_to_a = DirStats { packets: 9, bytes: 900 };
    assert_eq!(compute_asymmetry(&fl), AsymmetryLabel::BtoAHeavy);
}

#[test]
fn asymmetry_a_to_b_heavy() {
    let mut fl = FlowStats::default();
    fl.a_to_b = DirStats { packets: 9, bytes: 900 };
    fl.b_to_a = DirStats { packets: 1, bytes: 100 };
    assert_eq!(compute_asymmetry(&fl), AsymmetryLabel::AtoBHeavy);
}

#[test]
fn asymmetry_balanced() {
    let mut fl = FlowStats::default();
    fl.a_to_b = DirStats { packets: 5, bytes: 500 };
    fl.b_to_a = DirStats { packets: 5, bytes: 500 };
    assert_eq!(compute_asymmetry(&fl), AsymmetryLabel::Balanced);
}

#[test]
fn asymmetry_thresholds_are_exclusive() {
    // exactly 70% one way is still balanced
    let mut fl = FlowStats::default();
    fl.a_to_b = DirStats { packets: 7, bytes: 700 };
    fl.b_to_a = DirStats { packets: 3, bytes: 300 };
    assert_eq!(compute_asymmetry(&fl), AsymmetryLabel::Balanced);
    fl.a_to_b = DirStats { packets: 3, bytes: 300 };
    fl.b_to_a = DirStats { packets: 7, bytes: 700 };
    assert_eq!(compute_asymmetry(&fl), AsymmetryLabel::Balanced);
    // no bytes at all is balanced
    fl.a_to_b = DirStats { packets: 0, bytes: 0 };
    fl.b_to_a = DirStats { packets: 0, bytes: 0 };
    assert_eq!(compute_asymmetry(&fl), AsymmetryLabel::Balanced);
}

#[test]
fn asymmetry_labels_use_dl_ul_when_local_side_is_inferred() {
    let mut fl = FlowStats::default();
    fl.key = FlowKey { src: v4(10, 0, 0, 2), dst: v4(93, 184, 216, 34), src_port: 50000, dst_port: 443, proto: L4Proto::Tcp };
    fl.analysis = Some(FlowAnalysis { health: HealthBadge::Green, asymmetry: AsymmetryLabel::AtoBHeavy, tcp_timing: None });
    assert_eq!(fl.asymmetry_compact_suffix(), Some("UL"));
    assert_eq!(fl.asymmetry_detail_label(), Some("upload-heavy"));

    fl.analysis = Some(FlowAnalysis { health: HealthBadge::Green, asymmetry: AsymmetryLabel::BtoAHeavy, tcp_timing: None });
    assert_eq!(fl.asymmetry_compact_suffix(), Some("DL"));
    assert_eq!(fl.asymmetry_detail_label(), Some("download-heavy"));
}

#[test]
fn asymmetry_labels_fallback_to_a_b_when_local_side_ambiguous() {
    let mut fl = FlowStats::default();
    fl.key = FlowKey { src: v4(93, 184, 216, 34), dst: v4(198, 51, 100, 42), src_port: 443, dst_port: 50000, proto: L4Proto::Tcp };
    fl.analysis = Some(FlowAnalysis { health: HealthBadge::Green, asymmetry: AsymmetryLabel::AtoBHeavy, tcp_timing: None });
    assert_eq!(fl.asymmetry_compact_suffix(), Some("A>B"));
    assert_eq!(fl.asymmetry_detail_label(), Some("A->B-heavy"));
}

#[test]
fn tcp_timing_extraction() {
    let rows = vec![
        tcp_row(0, 0, 60, 1111, 80, TCP_FLAG_SYN, 0, false),
        tcp_row(1, 50, 60, 1111, 80, TCP_FLAG_SYN | TCP_FLAG_ACK, 0, false),
        tcp_row(2, 80, 500, 1111, 80, TCP_FLAG_ACK, 100, false),
        tcp_row(3, 200, 500, 1111, 80, TCP_FLAG_ACK, 100, false),
    ];
    let mut flows = FlowIndex::build(&rows);
    analyze_flows(&mut flows, &rows);
    let timing = flows.flows[0].analysis.as_ref().unwrap().tcp_timing.unwrap();
    assert_eq!(timing.handshake_rtt_us, Some(50_000));
    assert_eq!(timing.server_think_us, Some(30_000));
    assert_eq!(timing.data_transfer_us, Some(120_000));
}

#[test]
fn tcp_timing_none_for_udp() {
    let row = PacketRow {
        index: 0,
        ts: 1_700_000_000_000_000_000,
        len: 60,
        src: Some(v4(10, 0, 0, 1)),
        dst: Some(v4(1, 1, 1, 1)),
        proto: Some(L4Proto::Udp),
        src_port: Some(55555),
        dst_port: Some(53),
        summary: String::new(),
        flow: Some(FlowKey { src: v4(10, 0, 0, 1), dst: v4(1, 1, 1, 1), src_port: 55555, dst_port: 53, proto: L4Proto::Udp }),
        flow_dir: Some(FlowDir::AtoB),
        tcp_seq: None,
        tcp_ack: None,
        tcp_flags: None,
        payload: Vec::new(),
        tcp_retransmission: false,
        tcp_out_of_order: false,
        dns_qname: None,
        dns_rcode: None,
        http_host: None,
        tls_sni: None,
        tls_version: None,
    };
    let mut flows = FlowIndex::build(&[row]);
    analyze_flows(&mut flows, &[]);
    assert!(flows.flows[0].analysis.as_ref().unwrap().tcp_timing.is_none());
}

#[test]
fn first_last_ts_set_after_build() {
    let rows = vec![
        tcp_row(0, 100, 60, 1111, 80, TCP_FLAG_SYN, 0, false),
        tcp_row(1, 200, 60, 1111, 80, TCP_FLAG_SYN | TCP_FLAG_ACK, 0, false),
        tcp_row(2, 500, 500, 1111, 80, TCP_FLAG_ACK, 100, false),
    ];
    let flows = FlowIndex::build(&rows);
    assert_eq!(flows.flows.len(), 1);
    let fl = &flows.flows[0];
    assert_eq!(fl.first_ts, Some(ms(100)));
    assert_eq!(fl.last_ts, Some(ms(500)));
}

#[test]
fn first_last_ts_single_packet() {
    let rows = vec![tcp_row(0, 42, 60, 1111, 80, TCP_FLAG_SYN, 0, false)];
    let flows = FlowIndex::build(&rows);
    let fl = &flows.flows[0];
    assert_eq!(fl.first_ts, fl.last_ts);
    assert!(fl.first_ts.is_some());
}

#[test]
fn first_last_ts_use_min_and_max_for_out_of_order_rows() {
    let rows = vec![
        tcp_row(0, 500, 60, 1111, 80, TCP_FLAG_ACK, 0, false),
        tcp_row(1, 100, 60, 1111, 80, TCP_FLAG_ACK, 0, false),
        tcp_row(2, 300, 60, 1111, 80, TCP_FLAG_ACK, 0, false),
    ];
    let flows = FlowIndex::build(&rows);
    assert_eq!(flows.flows[0].first_ts, Some(ms(100)));
    assert_eq!(flows.flows[0].last_ts, Some(ms(500)));
}

#[test]
fn flow_index_groups_bidirectional() {
    let rows = read_capture(&two_tcp_packets()).unwrap();
    assert_eq!(rows.len(), 2);
    assert!(rows.iter().all(|r| r.proto == Some(L4Proto::Tcp)));

    let idx = FlowIndex::build(&rows);
    assert_eq!(idx.flows.len(), 1);

    let f = &idx.flows[0];
    assert_eq!(f.total_packets, 2);
    assert_eq!(f.a_to_b.packets + f.b_to_a.packets, 2);
    assert_eq!(f.packet_indices, vec![0, 1]);
}

#[test]
fn flow_label_names_protocol_and_endpoints() {
    let mut fl = FlowStats::default();
    fl.key = FlowKey { src: v4(10, 0, 0, 1), dst: v4(10, 0, 0, 2), src_port: 1234, dst_port: 80, proto: L4Proto::Tcp };
    assert_eq!(fl.label(), "TCP 10.0.0.1:1234 ↔ 10.0.0.2:80");
}

#[test]
fn by_endpoints_finds_flows_in_either_direction() {
    let rows = vec![
        tcp_row(0, 0, 60, 1111, 80, TCP_FLAG_SYN, 0, false),
        tcp_row(1, 1, 60, 2222, 80, TCP_FLAG_SYN, 0, false),
    ];
    let idx = FlowIndex::build(&rows);
    assert_eq!(idx.by_endpoints(v4(10, 0, 0, 1), v4(93, 184, 216, 34)).len(), 2);
    assert_eq!(idx.by_endpoints(v4(93, 184, 216, 34), v4(10, 0, 0, 1)).len(), 2);
    assert_eq!(idx.by_endpoints(v4(10, 0, 0, 9), v4(93, 184, 216, 34)).len(), 0);
}
