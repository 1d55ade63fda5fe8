use babyshark::domains::build_ip_hostname_index;
use babyshark::flow::{
    AsymmetryLabel, DirStats, FlowAnalysis, FlowStats, HealthBadge, TcpTiming, TCP_FLAG_ACK, TCP_FLAG_FIN,
    TCP_FLAG_RST, TCP_FLAG_SYN,
};
use babyshark::pcap::{FlowDir, FlowKey, IpAddr, L4Proto, PacketRow};
use babyshark::timeline::{
    build_gantt_legend, build_scatter_legend, LegendColor,
    build_narrative, capture_time_range, col_phase, detect_patterns, extract_phases, friendly_label, host_matches_qname,
    normalize_name, scatter_cells, timeline_sorted_indices, tls_version_text, ts_to_col, CellColor, NarrativeStep, Phase,
    PhaseTimestamps,
};

fn v4(a: u8, b: u8, c: u8, d: u8) -> IpAddr {
    IpAddr::V4(u32::from_be_bytes([a, b, c, d]))
}

fn ms(t: i64) -> i64 {
    t * 1_000_000
}

fn mk_packet_row(index: usize, ts_ms: i64) -> PacketRow {
    PacketRow {
        index,
        ts: ms(ts_ms),
        len: 60,
        src: Some(v4(10, 0, 0, 1)),
        dst: Some(v4(10, 0, 0, 2)),
        proto: Some(L4Proto::Tcp),
        src_port: Some(1234),
        dst_port: Some(80),
        summary: String::new(),
        flow: None,
        flow_dir: Some(FlowDir::AtoB),
        tcp_seq: None,
        tcp_ack: None,
        tcp_flags: None,
        payload: Vec::new(),
        tcp_retransmission: false,
        tcp_out_of_order: false,
        dns_qname: None,
        dns_rcode: None,
        http_host: None,
        tls_sni: None,
        tls_version: None,
    }
}

fn flow(src: IpAddr, dst: IpAddr, sp: u16, dp: u16, proto: L4Proto, idx: Vec<usize>, first: Option<i64>, last: Option<i64>) -> FlowStats {
    FlowStats {
        key: FlowKey { src, dst, src_port: sp, dst_port: dp, proto },
        total_packets: idx.len() as u64,
        total_bytes: 60 * idx.len() as u64,
        a_to_b: DirStats { packets: idx.len() as u64, bytes: 60 * idx.len() as u64 },
        b_to_a: DirStats::default(),
        packet_indices: idx,
        analysis: None,
        first_ts: first,
        last_ts: last,
    }
}

/// An address → hostname index holding one entry, built through the library.
fn host_index(ip: IpAddr, host: &str) -> Vec<(IpAddr, String)> {
    let mut r = mk_packet_row(0, 0);
    r.dst = Some(ip);
    r.tls_sni = Some(host.to_string());
    build_ip_hostname_index(&[r])
}

fn handshake_rows() -> Vec<PacketRow> {
    let mut r0 = mk_packet_row(0, 0);
    r0.tcp_flags = Some(TCP_FLAG_SYN);
    let mut r1 = mk_packet_row(1, 50);
    r1.tcp_flags = Some(TCP_FLAG_SYN | TCP_FLAG_ACK);
    let mut r2 = mk_packet_row(2, 100);
    r2.tcp_flags = Some(TCP_FLAG_ACK);
    r2.payload = vec![0u8; 100];
    vec![r0, r1, r2]
}

#[test]
fn ts_to_col_boundaries() {
    let start = ms(0);
    let end = ms(1000);
    assert_eq!(ts_to_col(start, start, end, 10), 0);
    assert_eq!(ts_to_col(end, start, end, 10), 9);
    assert_eq!(ts_to_col(ms(500), start, end, 10), 5);
}

#[test]
fn ts_to_col_zero_cols() {
    assert_eq!(ts_to_col(ms(0), ms(0), ms(1000), 0), 0);
}

#[test]
fn ts_to_col_same_start_end() {
    let t = ms(100);
    assert_eq!(ts_to_col(t, t, t, 10), 0);
}

#[test]
fn ts_to_col_clamps_times_outside_the_range() {
    assert_eq!(ts_to_col(ms(-50), ms(0), ms(1000), 10), 0);
    assert_eq!(ts_to_col(ms(5000), ms(0), ms(1000), 10), 9);
}

#[test]
fn capture_time_range_returns_none_for_empty() {
    assert!(capture_time_range(&[]).is_none());
}

#[test]
fn capture_time_range_uses_min_max_for_out_of_order_rows() {
    let rows = vec![mk_packet_row(0, 500), mk_packet_row(1, 100), mk_packet_row(2, 300)];
    let (start, end) = capture_time_range(&rows).expect("capture range should exist");
    assert_eq!(start, ms(100));
    assert_eq!(end, ms(500));
}

#[test]
fn capture_time_range_is_none_when_no_time_passes() {
    let rows = vec![mk_packet_row(0, 7), mk_packet_row(1, 7)];
    assert!(capture_time_range(&rows).is_none());
}

#[test]
fn phase_coloring_for_tcp_handshake() {
    let phases = PhaseTimestamps { syn_ts: Some(ms(0)), syn_ack_ts: Some(ms(50)), first_data_ts: Some(ms(100)), fin_ts: Some(ms(600)), has_tls: false };
    assert_eq!(col_phase(ms(25), &phases, true), Phase::Handshake);
    assert_eq!(col_phase(ms(200), &phases, true), Phase::Data);
    assert_eq!(col_phase(ms(600), &phases, true), Phase::Close);
}

#[test]
fn phase_coloring_with_tls() {
    let phases = PhaseTimestamps { syn_ts: Some(ms(0)), syn_ack_ts: Some(ms(50)), first_data_ts: Some(ms(200)), fin_ts: None, has_tls: true };
    assert_eq!(col_phase(ms(100), &phases, true), Phase::Tls);
    assert_eq!(col_phase(ms(300), &phases, true), Phase::Data);
}

#[test]
fn phase_coloring_no_payload_falls_back_to_data() {
    let phases = PhaseTimestamps { syn_ts: Some(ms(0)), syn_ack_ts: Some(ms(50)), first_data_ts: None, fin_ts: Some(ms(600)), has_tls: false };
    assert_eq!(col_phase(ms(25), &phases, true), Phase::Handshake);
    assert_eq!(col_phase(ms(50), &phases, true), Phase::Handshake);
    assert_eq!(col_phase(ms(100), &phases, true), Phase::Data);
    assert_eq!(col_phase(ms(400), &phases, true), Phase::Data);
    assert_eq!(col_phase(ms(600), &phases, true), Phase::Close);
}

#[test]
fn non_tcp_bars_are_data_throughout() {
    let phases = PhaseTimestamps { syn_ts: None, syn_ack_ts: None, first_data_ts: None, fin_ts: Some(ms(1)), has_tls: false };
    assert_eq!(col_phase(ms(5), &phases, false), Phase::Data);
}

#[test]
fn extract_phases_reads_the_handshake() {
    let mut rows = handshake_rows();
    let mut fin = mk_packet_row(3, 300);
    fin.tcp_flags = Some(TCP_FLAG_FIN | TCP_FLAG_ACK);
    rows.push(fin);
    let fl = flow(v4(10, 0, 0, 1), v4(10, 0, 0, 2), 1234, 80, L4Proto::Tcp, vec![0, 1, 2, 3, 99], Some(0), Some(ms(300)));
    let p = extract_phases(&fl, &rows);
    assert_eq!(p.syn_ts, Some(ms(0)));
    assert_eq!(p.syn_ack_ts, Some(ms(50)));
    assert_eq!(p.first_data_ts, Some(ms(100)));
    assert_eq!(p.fin_ts, Some(ms(300)));
    assert!(!p.has_tls);
}

#[test]
fn friendly_label_uses_hostname() {
    let fl = flow(v4(10, 0, 0, 1), v4(93, 184, 216, 34), 50000, 443, L4Proto::Tcp, vec![], None, None);
    let ip_host = host_index(v4(93, 184, 216, 34), "example.com");
    let label = friendly_label(&fl, &ip_host, 25);
    assert!(label.contains("example.com"), "Label should contain hostname, got: {label}");
    assert!(label.contains("HTTPS"), "Label should show HTTPS for port 443, got: {label}");
    assert_eq!(label, format!("{:<25}", "example.com (HTTPS)"));
}

#[test]
fn friendly_label_falls_back_to_ip() {
    let fl = flow(v4(10, 0, 0, 1), v4(1, 2, 3, 4), 50000, 8080, L4Proto::Tcp, vec![], None, None);
    let label = friendly_label(&fl, &[], 25);
    assert!(label.contains("1.2.3.4"), "Label should contain IP when no hostname, got: {label}");
    assert_eq!(label, format!("{:<25}", "TCP 1.2.3.4:8080"));
}

#[test]
fn friendly_label_cuts_long_labels_with_an_ellipsis() {
    let fl = flow(v4(10, 0, 0, 1), v4(1, 2, 3, 4), 50000, 8080, L4Proto::Udp, vec![], None, None);
    assert_eq!(friendly_label(&fl, &[], 6), "UDP 1…");
    assert_eq!(friendly_label(&fl, &[], 1), "…");
    assert_eq!(friendly_label(&fl, &[], 0), "");
}

#[test]
fn build_gantt_row_phase_colored() {
    let rows = handshake_rows();
    let fl = flow(v4(10, 0, 0, 1), v4(10, 0, 0, 2), 1234, 80, L4Proto::Tcp, vec![0, 1, 2], Some(ms(0)), Some(ms(100)));
    let p = extract_phases(&fl, &rows);
    let start = ms(0);
    let end = ms(1000);
    let first = ts_to_col(fl.first_ts.unwrap(), start, end, 20);
    let last = ts_to_col(fl.last_ts.unwrap(), start, end, 20);
    assert!(last >= first);
    assert_eq!(col_phase(ms(10), &p, true), Phase::Handshake);
    assert_eq!(col_phase(ms(100), &p, true), Phase::Data);
}

#[test]
fn narrow_bar_width_does_not_panic() {
    let fl = flow(v4(10, 0, 0, 1), v4(10, 0, 0, 2), 1234, 80, L4Proto::Tcp, vec![], Some(ms(0)), Some(ms(1000)));
    assert!(scatter_cells(&fl, &[], ms(0), ms(1000), 1).is_empty());
    assert!(scatter_cells(&fl, &[], ms(0), ms(1000), 0).is_empty());
    assert_eq!(ts_to_col(ms(1000), ms(0), ms(1000), 1), 0);
}

#[test]
fn build_scatter_row_places_markers() {
    let mut r0 = mk_packet_row(0, 100);
    r0.flow_dir = Some(FlowDir::AtoB);
    let mut r1 = mk_packet_row(1, 500);
    r1.flow_dir = Some(FlowDir::BtoA);
    let rows = vec![r0, r1];
    let fl = flow(v4(10, 0, 0, 1), v4(10, 0, 0, 2), 1234, 80, L4Proto::Tcp, vec![0, 1], Some(ms(100)), Some(ms(500)));
    let cells = scatter_cells(&fl, &rows, ms(0), ms(1000), 20);
    assert_eq!(cells.len(), 20);
    let dots = cells.iter().filter(|c| c.glyph == '●').count();
    assert!(dots >= 2, "Scatter row should have at least 2 markers, got {dots}");
    assert_eq!(cells[2].color, CellColor::Cyan);
    assert_eq!(cells[10].color, CellColor::Magenta);
    assert_eq!(cells[0].color, CellColor::Muted);
}

#[test]
fn scatter_marks_retransmissions_and_mixed_columns() {
    let mut r0 = mk_packet_row(0, 100);
    r0.tcp_retransmission = true;
    let r1 = mk_packet_row(1, 101);
    let mut r2 = mk_packet_row(2, 500);
    r2.flow_dir = Some(FlowDir::BtoA);
    let r3 = mk_packet_row(3, 501);
    let rows = vec![r0, r1, r2, r3];
    let fl = flow(v4(10, 0, 0, 1), v4(10, 0, 0, 2), 1234, 80, L4Proto::Tcp, vec![0, 1, 2, 3], Some(ms(100)), Some(ms(501)));
    let cells = scatter_cells(&fl, &rows, ms(0), ms(1000), 10);
    assert_eq!(cells[1].color, CellColor::Red);
    assert_eq!(cells[5].color, CellColor::White);
    assert_eq!(cells[5].glyph, '█');
}

#[test]
fn narrative_for_tcp_flow_has_steps() {
    let rows = handshake_rows();
    let mut fl = flow(v4(10, 0, 0, 1), v4(93, 184, 216, 34), 50000, 443, L4Proto::Tcp, vec![0, 1, 2], Some(ms(0)), Some(ms(100)));
    fl.analysis = Some(FlowAnalysis {
        health: HealthBadge::Green,
        asymmetry: AsymmetryLabel::Balanced,
        tcp_timing: Some(TcpTiming { handshake_rtt_us: Some(50_000), server_think_us: None, data_transfer_us: None }),
    });
    let ip_host = host_index(v4(93, 184, 216, 34), "example.com");
    let n = build_narrative(&fl, &rows, &ip_host);
    assert_eq!(n.host, "example.com");
    assert!(n.is_tcp);
    assert_eq!(n.steps[0], NarrativeStep::Connected { rtt_us: Some(50_000) });
    assert_eq!(n.steps[1], NarrativeStep::Transferred { duration_us: None });
    assert_eq!(n.steps.len(), 2);
}

#[test]
fn narrative_uses_neutral_direction_when_local_side_is_ambiguous() {
    let rows = vec![mk_packet_row(0, 0)];
    let mut fl = flow(v4(93, 184, 216, 34), v4(198, 51, 100, 10), 443, 50000, L4Proto::Tcp, vec![0], Some(0), Some(0));
    fl.a_to_b = DirStats { packets: 1, bytes: 40 };
    fl.b_to_a = DirStats { packets: 1, bytes: 20 };
    fl.analysis = Some(FlowAnalysis { health: HealthBadge::Green, asymmetry: AsymmetryLabel::AtoBHeavy, tcp_timing: None });
    let n = build_narrative(&fl, &rows, &[]);
    assert!(n.steps.contains(&NarrativeStep::Skewed { a_to_b: true }));
    assert!(!n.steps.contains(&NarrativeStep::MostlyDownloading) && !n.steps.contains(&NarrativeStep::MostlyUploading));
}

#[test]
fn narrative_of_a_reset_connection() {
    let mut r0 = mk_packet_row(0, 0);
    r0.tcp_flags = Some(TCP_FLAG_SYN);
    let mut r1 = mk_packet_row(1, 10);
    r1.tcp_flags = Some(TCP_FLAG_RST);
    let rows = vec![r0, r1];
    let mut fl = flow(v4(10, 0, 0, 1), v4(10, 0, 0, 2), 1234, 80, L4Proto::Tcp, vec![0, 1], Some(0), Some(ms(10)));
    fl.analysis = Some(FlowAnalysis { health: HealthBadge::Red, asymmetry: AsymmetryLabel::Balanced, tcp_timing: None });
    let n = build_narrative(&fl, &rows, &[]);
    assert_eq!(n.host, "10.0.0.2");
    assert_eq!(n.steps, vec![NarrativeStep::HandshakeIncomplete, NarrativeStep::Aborted, NarrativeStep::Failed]);
}

#[test]
fn udp_narrative_has_no_steps() {
    let fl = flow(v4(10, 0, 0, 1), v4(1, 1, 1, 1), 5000, 53, L4Proto::Udp, vec![], None, None);
    let n = build_narrative(&fl, &[], &[]);
    assert!(!n.is_tcp);
    assert!(n.steps.is_empty());
}

#[test]
fn tls_versions_are_named() {
    assert_eq!(tls_version_text(Some(0x0304)), "TLS 1.3");
    assert_eq!(tls_version_text(Some(0x0301)), "TLS 1.0 (deprecated!)");
    assert_eq!(tls_version_text(Some(0x9999)), "TLS");
    assert_eq!(tls_version_text(None), "TLS");
}

fn dns_tls_fixture(qname: &str) -> (Vec<PacketRow>, Vec<FlowStats>) {
    let mut dns_row = mk_packet_row(0, 0);
    dns_row.proto = Some(L4Proto::Udp);
    dns_row.src_port = Some(53000);
    dns_row.dst_port = Some(53);
    dns_row.dns_qname = Some(qname.to_string());
    let mut tls_row = mk_packet_row(1, 2_000);
    tls_row.proto = Some(L4Proto::Tcp);
    tls_row.src_port = Some(51000);
    tls_row.dst_port = Some(443);
    tls_row.dst = Some(v4(93, 184, 216, 34));
    let flows = vec![
        flow(v4(10, 0, 0, 1), v4(1, 1, 1, 1), 53000, 53, L4Proto::Udp, vec![0], Some(ms(0)), Some(ms(0))),
        flow(v4(10, 0, 0, 1), v4(93, 184, 216, 34), 51000, 443, L4Proto::Tcp, vec![1], Some(ms(2_000)), Some(ms(2_000))),
    ];
    (vec![dns_row, tls_row], flows)
}

#[test]
fn detect_patterns_dns_tls_requires_matching_hostname() {
    let (rows, flows) = dns_tls_fixture("unrelated.example");
    let ip_host = host_index(v4(93, 184, 216, 34), "example.com");
    let lines = detect_patterns(&rows, &flows, &[0, 1], &ip_host);
    let text = lines.join("\n");
    assert!(!text.contains("preceded"), "Should not claim DNS preceded TLS without hostname match: {text}");
    assert_eq!(lines, vec!["1 DNS lookups and 1 encrypted connections are present".to_string()]);
}

#[test]
fn detect_patterns_dns_tls_reports_when_hostname_matches() {
    let (rows, flows) = dns_tls_fixture("example.com");
    let ip_host = host_index(v4(93, 184, 216, 34), "example.com");
    let lines = detect_patterns(&rows, &flows, &[0, 1], &ip_host);
    let text = lines.join("\n");
    assert!(text.contains("preceded"), "Expected DNS->TLS pattern callout, got: {text}");
    assert_eq!(lines, vec!["1 DNS lookups preceded 1 encrypted connections to matching hosts".to_string()]);
}

#[test]
fn detect_patterns_sees_bursts_and_retransmissions() {
    let mut flows = Vec::new();
    for i in 0..4 {
        let mut f = flow(v4(10, 0, 0, 1), v4(10, 0, 0, 9), 4000 + i, 80, L4Proto::Tcp, vec![], Some(ms(10 * i as i64)), None);
        if i == 0 {
            f.analysis = Some(FlowAnalysis { health: HealthBadge::Yellow, asymmetry: AsymmetryLabel::Balanced, tcp_timing: None });
        }
        flows.push(f);
    }
    let lines = detect_patterns(&[], &flows, &[0, 1, 2, 3], &[]);
    assert_eq!(lines.len(), 2);
    assert!(lines[0].starts_with("4 connections opened simultaneously"));
    assert!(lines[1].starts_with("1 flows have retransmissions"));
    assert!(detect_patterns(&[], &flows, &[0], &[]).is_empty());
}

#[test]
fn names_match_ignores_case_dots_and_subdomains() {
    assert_eq!(normalize_name("  WWW.Example.COM.. "), "www.example.com".chars().collect::<Vec<_>>());
    assert!(host_matches_qname("www.example.com", "example.com."));
    assert!(host_matches_qname("example.com", "WWW.example.com"));
    assert!(!host_matches_qname("badexample.com", "example.com"));
    assert!(!host_matches_qname("", ""));
}

#[test]
fn timeline_order_is_by_start_and_stable() {
    let flows = vec![
        flow(v4(1, 0, 0, 1), v4(1, 0, 0, 2), 1, 1, L4Proto::Tcp, vec![], Some(30), None),
        flow(v4(1, 0, 0, 1), v4(1, 0, 0, 2), 2, 2, L4Proto::Tcp, vec![], None, None),
        flow(v4(1, 0, 0, 1), v4(1, 0, 0, 2), 3, 3, L4Proto::Tcp, vec![], Some(10), None),
        flow(v4(1, 0, 0, 1), v4(1, 0, 0, 2), 4, 4, L4Proto::Tcp, vec![], Some(10), None),
    ];
    assert_eq!(timeline_sorted_indices(&[0, 1, 3, 2], &flows), vec![1, 3, 2, 0]);
    assert_eq!(timeline_sorted_indices(&[], &flows), Vec::<usize>::new());
}

#[test]
fn gantt_legend_contains_all_phases() {
    let line = build_gantt_legend(20);
    let text: String = line.iter().map(|s| s.text.as_str()).collect();
    assert!(text.contains("handshake"), "Legend missing 'handshake'");
    assert!(text.contains("TLS"), "Legend missing 'TLS'");
    assert!(text.contains("data"), "Legend missing 'data'");
    assert!(text.contains("close"), "Legend missing 'close'");
    assert!(text.contains("UDP"), "Legend missing 'UDP'");
}

#[test]
fn scatter_legend_contains_directions() {
    let line = build_scatter_legend(20);
    let text: String = line.iter().map(|s| s.text.as_str()).collect();
    assert!(text.contains("server"), "Legend missing direction labels");
    assert!(text.contains("retransmit"), "Legend missing 'retransmit'");
}

#[test]
fn legends_start_with_a_blank_as_wide_as_the_labels() {
    let line = build_gantt_legend(20);
    assert_eq!(line[0].text, " ".repeat(22));
    assert_eq!(line[0].color, LegendColor::Plain);
    assert_eq!(line[1].color, LegendColor::Phase(Phase::Handshake));
    let dots = build_scatter_legend(3);
    assert_eq!(dots.len(), 9);
    assert_eq!(dots[0].text, "     ");
    assert_eq!(dots[1].text, "●");
}
