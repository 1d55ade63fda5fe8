use babyshark::casefile::CaseFile;
use babyshark::domains::{DomainItem, DomainStats, DomainsSort};
use babyshark::flow::FlowIndex;
use babyshark::keys::{Key, KeyOutcome, KeyPress, OverviewAction};
use babyshark::navigation::{Modal, StreamTab, TimelineTab, View};
use babyshark::overview::{first_flagged, most_packets_flow, overview_actions, overview_rows, OverviewLine, OverviewRow};
use babyshark::pcap::{FlowDir, FlowKey, IpAddr, L4Proto, PacketRow};
use babyshark::summary::{build_overview, busiest_host_by_packets};
use babyshark::timeline::timeline_sorted_indices;
use babyshark::ui_state::UiState;
use babyshark::weird::{WeirdDetector, WeirdItem};

fn v4(a: u8, b: u8, c: u8, d: u8) -> IpAddr {
    IpAddr::V4(u32::from_be_bytes([a, b, c, d]))
}

fn row(idx: usize, client_port: u16, dir: FlowDir, payload: &[u8]) -> PacketRow {
    let (src, dst, sp, dp) = match dir {
        FlowDir::AtoB => (v4(10, 0, 0, 1), v4(10, 0, 0, 2), client_port, 80),
        FlowDir::BtoA => (v4(10, 0, 0, 2), v4(10, 0, 0, 1), 80, client_port),
    };
    PacketRow {
        index: idx,
        ts: idx as i64,
        len: 60 + payload.len(),
        src: Some(src),
        dst: Some(dst),
        proto: Some(L4Proto::Tcp),
        src_port: Some(sp),
        dst_port: Some(dp),
        summary: String::new(),
        flow: Some(FlowKey { src, dst, src_port: sp, dst_port: dp, proto: L4Proto::Tcp }),
        flow_dir: Some(dir),
        tcp_seq: Some(1),
        tcp_ack: None,
        tcp_flags: Some(0x18),
        payload: payload.to_vec(),
        tcp_retransmission: false,
        tcp_out_of_order: false,
        dns_qname: None,
        dns_rcode: None,
        http_host: None,
        tls_sni: None,
        tls_version: None,
    }
}

fn two_flows() -> (Vec<PacketRow>, FlowIndex) {
    let rows = vec![
        row(0, 1111, FlowDir::AtoB, b"GET / HTTP/1.1"),
        row(1, 1111, FlowDir::BtoA, b"HTTP/1.1 200 OK"),
        row(2, 2222, FlowDir::AtoB, b"hello"),
    ];
    let flows = FlowIndex::build(&rows);
    (rows, flows)
}

fn press(c: char) -> KeyPress {
    KeyPress { key: Key::Char(c), ctrl: false, alt: false }
}

fn key(k: Key) -> KeyPress {
    KeyPress { key: k, ctrl: false, alt: false }
}

fn new_casefile() -> CaseFile {
    CaseFile { pcap_path: "cap.pcap".to_string(), bookmarks: Vec::new() }
}

struct Screen {
    rows: Vec<PacketRow>,
    flows: FlowIndex,
    casefile: CaseFile,
    weird: Vec<WeirdItem>,
    doms: Vec<DomainItem>,
    actions: Vec<Option<OverviewAction>>,
}

impl Screen {
    fn new() -> Screen {
        let (rows, flows) = two_flows();
        Screen { rows, flows, casefile: new_casefile(), weird: Vec::new(), doms: Vec::new(), actions: Vec::new() }
    }

    fn send(&mut self, s: &mut UiState, k: KeyPress) -> KeyOutcome {
        let order = timeline_sorted_indices(&s.visible_flow_indices, &self.flows.flows);
        s.handle_key(k, &self.rows, &self.flows, &mut self.casefile, &self.weird, &self.doms, &self.actions, &order)
    }
}

#[test]
fn q_quits_without_touching_the_state() {
    let mut sc = Screen::new();
    let mut s = UiState::new(&sc.flows);
    assert_eq!(sc.send(&mut s, press('q')), KeyOutcome::Quit);
    assert_eq!(s.view, View::Overview);
}

#[test]
fn export_is_asked_only_from_the_flows_list() {
    let mut sc = Screen::new();
    let mut s = UiState::new(&sc.flows);
    assert_eq!(sc.send(&mut s, press('E')), KeyOutcome::Stay);
    assert_eq!(sc.send(&mut s, press('F')), KeyOutcome::Stay);
    assert_eq!(s.view, View::Flows);
    assert_eq!(sc.send(&mut s, press('E')), KeyOutcome::ExportReport);
}

#[test]
fn flows_list_goes_back_where_it_came_from() {
    let mut sc = Screen::new();
    let mut s = UiState::new(&sc.flows);
    sc.send(&mut s, press('W'));
    assert_eq!(s.view, View::Weird);
    sc.send(&mut s, press('F'));
    assert_eq!(s.view, View::Flows);
    assert_eq!(s.flows_back_view, View::Weird);
    sc.send(&mut s, key(Key::Esc));
    assert_eq!(s.view, View::Weird);
    sc.send(&mut s, key(Key::Esc));
    assert_eq!(s.view, View::Overview);
}

#[test]
fn enter_walks_from_flows_to_packets_and_f_to_the_stream() {
    let mut sc = Screen::new();
    let mut s = UiState::new(&sc.flows);
    sc.send(&mut s, press('F'));
    sc.send(&mut s, key(Key::Down));
    assert_eq!(s.selected_row, 1);
    sc.send(&mut s, key(Key::Enter));
    assert_eq!(s.view, View::Packets);
    sc.send(&mut s, press('f'));
    assert_eq!(s.view, View::Stream);
    assert_eq!(s.stream_tab, StreamTab::AtoB);
    sc.send(&mut s, key(Key::Tab));
    assert_eq!(s.stream_tab, StreamTab::BtoA);
    sc.send(&mut s, key(Key::BackTab));
    assert_eq!(s.stream_tab, StreamTab::AtoB);
    sc.send(&mut s, key(Key::Esc));
    assert_eq!(s.view, View::Packets);
}

#[test]
fn filter_dialog_types_into_the_query_and_enter_closes_it() {
    let mut sc = Screen::new();
    let mut s = UiState::new(&sc.flows);
    sc.send(&mut s, press('F'));
    sc.send(&mut s, press('/'));
    assert_eq!(s.modal, Modal::Filter);
    for c in "2222".chars() {
        sc.send(&mut s, press(c));
    }
    assert_eq!(s.filter.query, "2222");
    assert_eq!(s.visible_flow_indices.len(), 1);
    assert_eq!(sc.send(&mut s, key(Key::Enter)), KeyOutcome::Stay);
    assert_eq!(s.modal, Modal::Closed);
    sc.send(&mut s, press('/'));
    let ctrl_u = KeyPress { key: Key::Char('u'), ctrl: true, alt: false };
    sc.send(&mut s, ctrl_u);
    assert_eq!(s.filter.query, "");
    assert_eq!(s.visible_flow_indices.len(), 2);
}

#[test]
fn bookmark_dialog_saves_through_the_case_file() {
    let mut sc = Screen::new();
    let mut s = UiState::new(&sc.flows);
    sc.send(&mut s, press('F'));
    sc.send(&mut s, press('b'));
    assert_eq!(s.modal, Modal::Bookmark);
    for c in " slow ".chars() {
        sc.send(&mut s, press(c));
    }
    assert_eq!(sc.send(&mut s, key(Key::Enter)), KeyOutcome::SaveCaseFile);
    assert_eq!(sc.casefile.bookmarks.len(), 1);
    assert_eq!(sc.casefile.bookmarks[0].note, "slow");
}

#[test]
fn toggling_tcp_hides_every_tcp_flow() {
    let mut sc = Screen::new();
    let mut s = UiState::new(&sc.flows);
    sc.send(&mut s, press('F'));
    sc.send(&mut s, press('t'));
    assert!(!s.filter.show_tcp);
    assert!(s.visible_flow_indices.is_empty());
    sc.send(&mut s, press('t'));
    assert_eq!(s.visible_flow_indices.len(), 2);
}

#[test]
fn enter_on_a_weird_finding_drills_into_its_flows_and_c_clears_it() {
    let mut sc = Screen::new();
    sc.weird = vec![WeirdItem {
        detector: WeirdDetector::TcpResets,
        title: "TCP resets".to_string(),
        why: String::new(),
        flow_indices: vec![1, 1],
    }];
    let mut s = UiState::new(&sc.flows);
    sc.send(&mut s, press('W'));
    sc.send(&mut s, key(Key::Enter));
    assert_eq!(s.view, View::Flows);
    assert_eq!(s.flows_back_view, View::Weird);
    assert_eq!(s.flow_subset, Some(vec![1]));
    assert_eq!(s.subset_label.as_deref(), Some("weird:TCP resets"));
    assert_eq!(s.visible_flow_indices, vec![1]);
    sc.send(&mut s, press('c'));
    assert_eq!(s.flow_subset, None);
    assert_eq!(s.visible_flow_indices.len(), 2);
}

#[test]
fn enter_on_a_domain_drills_into_its_flows() {
    let mut sc = Screen::new();
    sc.doms = vec![DomainItem {
        domain: "example.com".to_string(),
        stats: DomainStats {
            queries: 0,
            responses: 0,
            failures: 0,
            dns_ips: Vec::new(),
            observed_ips: Vec::new(),
            connections: 1,
            bytes: 10,
        },
        flow_indices: vec![0],
    }];
    let mut s = UiState::new(&sc.flows);
    sc.send(&mut s, press('D'));
    assert_eq!(s.view, View::Domains);
    sc.send(&mut s, press('s'));
    assert_eq!(s.domains_sort, DomainsSort::Bytes);
    sc.send(&mut s, key(Key::Enter));
    assert_eq!(s.view, View::Flows);
    assert_eq!(s.subset_label.as_deref(), Some("domain:example.com"));
    assert_eq!(s.visible_flow_indices, vec![0]);
}

#[test]
fn enter_on_an_overview_link_follows_its_action() {
    let mut sc = Screen::new();
    let ov = build_overview(&sc.rows, &sc.flows, 8);
    let rows = overview_rows(false, false, &ov, &sc.flows, false);
    sc.actions = overview_actions(&rows);
    let weird_link = rows.iter().position(|r| r.line == OverviewLine::WeirdLink).unwrap();
    let mut s = UiState::new(&sc.flows);
    for _ in 0..weird_link {
        sc.send(&mut s, key(Key::Down));
    }
    assert_eq!(s.overview_selected_row, weird_link);
    sc.send(&mut s, key(Key::Enter));
    assert_eq!(s.view, View::Weird);
}

#[test]
fn enter_on_an_overview_port_shows_the_flows_on_that_port() {
    let mut sc = Screen::new();
    let ov = build_overview(&sc.rows, &sc.flows, 8);
    let rows = overview_rows(false, false, &ov, &sc.flows, false);
    sc.actions = overview_actions(&rows);
    let pos = rows.iter().position(|r| r.action == Some(OverviewAction::Port(2222))).unwrap();
    let mut s = UiState::new(&sc.flows);
    s.overview_selected_row = pos;
    sc.send(&mut s, key(Key::Enter));
    assert_eq!(s.view, View::Flows);
    assert_eq!(s.visible_flow_indices.len(), 1);
    let f = &sc.flows.flows[s.visible_flow_indices[0]];
    assert!(f.key.src_port == 2222 || f.key.dst_port == 2222);
}

#[test]
fn help_and_glossary_open_from_anywhere_and_esc_closes_them() {
    let mut sc = Screen::new();
    let mut s = UiState::new(&sc.flows);
    sc.send(&mut s, press('h'));
    assert_eq!(s.modal, Modal::Help);
    assert!(!s.show_onboarding);
    sc.send(&mut s, key(Key::Esc));
    assert_eq!(s.modal, Modal::Closed);
    sc.send(&mut s, press('g'));
    assert_eq!(s.modal, Modal::Glossary);
    sc.send(&mut s, key(Key::Esc));
    sc.send(&mut s, press('?'));
    assert_eq!(s.modal, Modal::Closed);
    sc.send(&mut s, press('F'));
    sc.send(&mut s, press('?'));
    assert_eq!(s.modal, Modal::Explain);
}

#[test]
fn learning_mode_toggles() {
    let mut sc = Screen::new();
    let mut s = UiState::new(&sc.flows);
    let before = s.learning_mode;
    sc.send(&mut s, press('L'));
    assert_eq!(s.learning_mode, !before);
    sc.send(&mut s, press('l'));
    assert_eq!(s.learning_mode, before);
}

#[test]
fn stream_search_moves_between_matches_with_n_and_shift_n() {
    let (rows, flows) = {
        let rows = vec![
            row(0, 1111, FlowDir::AtoB, b"abc abc"),
            row(1, 1111, FlowDir::BtoA, b"xyz abc"),
        ];
        let flows = FlowIndex::build(&rows);
        (rows, flows)
    };
    let mut sc = Screen { rows, flows, casefile: new_casefile(), weird: Vec::new(), doms: Vec::new(), actions: Vec::new() };
    let mut s = UiState::new(&sc.flows);
    sc.send(&mut s, press('F'));
    sc.send(&mut s, key(Key::Enter));
    sc.send(&mut s, press('f'));
    sc.send(&mut s, key(Key::Tab));
    sc.send(&mut s, key(Key::Tab));
    assert_eq!(s.stream_tab, StreamTab::Combined);
    sc.send(&mut s, press('/'));
    assert_eq!(s.modal, Modal::StreamSearch);
    for c in "abc".chars() {
        sc.send(&mut s, press(c));
    }
    sc.send(&mut s, key(Key::Enter));
    assert_eq!(s.modal, Modal::Closed);
    assert_eq!(s.stream_last_match, Some(0));
    sc.send(&mut s, press('n'));
    assert_eq!(s.stream_last_match, Some(4));
    sc.send(&mut s, press('n'));
    assert_eq!(s.stream_last_match, Some(18));
    sc.send(&mut s, press('n'));
    assert_eq!(s.stream_last_match, Some(0));
    sc.send(&mut s, press('N'));
    assert_eq!(s.stream_last_match, Some(18));
    sc.send(&mut s, press('N'));
    assert_eq!(s.stream_last_match, Some(4));
    sc.send(&mut s, press('N'));
    assert_eq!(s.stream_last_match, Some(0));
}

#[test]
fn overview_rows_follow_the_summary() {
    let sc = Screen::new();
    let ov = build_overview(&sc.rows, &sc.flows, 8);
    let rows = overview_rows(false, false, &ov, &sc.flows, false);
    assert_eq!(rows[0], OverviewRow { line: OverviewLine::InPlainEnglish, action: None });
    assert_eq!(rows[1].line, OverviewLine::Stats);
    assert_eq!(rows[2].line, OverviewLine::TopFlowBytes);
    assert!(rows.iter().all(|r| r.line != OverviewLine::Live && r.line != OverviewLine::DetectedWeird));
    let flows_link = rows.iter().find(|r| r.line == OverviewLine::FlowsLink).unwrap();
    assert_eq!(flows_link.action, Some(OverviewAction::GoFlows));
    let ports = rows.iter().filter(|r| matches!(r.line, OverviewLine::Port(_))).count();
    assert_eq!(ports, ov.top_ports.len().min(8));
    let hosts = rows.iter().filter(|r| matches!(r.line, OverviewLine::Host(_))).count();
    assert_eq!(hosts, ov.top_hosts.len().min(8));
    let top_flow_rows: Vec<&OverviewRow> = rows.iter().filter(|r| matches!(r.line, OverviewLine::Flow(_))).collect();
    assert_eq!(top_flow_rows.len(), ov.top_flows.len().min(6));
    for (i, r) in top_flow_rows.iter().enumerate() {
        match r.action {
            Some(OverviewAction::FlowIndex(p)) => assert!(sc.flows.flows[p].key == ov.top_flows[i].key),
            _ => panic!("a top flow row leads to its flow"),
        }
    }
}

#[test]
fn overview_rows_add_the_welcome_live_and_weird_lines_when_asked() {
    let sc = Screen::new();
    let ov = build_overview(&sc.rows, &sc.flows, 8);
    let plain = overview_rows(false, false, &ov, &sc.flows, false);
    let full = overview_rows(true, true, &ov, &sc.flows, true);
    assert_eq!(full.len(), plain.len() + 7 + 1 + 1);
    assert_eq!(full[0].line, OverviewLine::Onboarding(0));
    assert_eq!(full[6].line, OverviewLine::Onboarding(6));
    assert_eq!(full[7].line, OverviewLine::InPlainEnglish);
    assert_eq!(full[9].line, OverviewLine::Live);
    let hint = full.iter().position(|r| r.line == OverviewLine::TimelineHint).unwrap();
    assert_eq!(full[hint - 1].line, OverviewLine::FlowsLink);
    assert_eq!(full[hint].action, None);
    assert!(full.iter().any(|r| r.line == OverviewLine::DetectedWeird));
    let actions = overview_actions(&full);
    assert_eq!(actions.len(), full.len());
    assert!(actions.iter().zip(full.iter()).all(|(a, r)| *a == r.action));
}

#[test]
fn first_flagged_skips_findings_without_flows() {
    let item = |n: usize| WeirdItem {
        detector: WeirdDetector::TcpResets,
        title: String::new(),
        why: String::new(),
        flow_indices: (0..n).collect(),
    };
    assert_eq!(first_flagged(&[]), None);
    assert_eq!(first_flagged(&[item(0), item(0)]), None);
    assert_eq!(first_flagged(&[item(0), item(2), item(1)]), Some(1));
}

#[test]
fn most_packets_picks_the_first_busiest_flow() {
    let sc = Screen::new();
    assert_eq!(most_packets_flow(&[]), None);
    let busiest = most_packets_flow(&sc.flows.flows).unwrap();
    assert_eq!(sc.flows.flows[busiest].total_packets, 2);
}

#[test]
fn busiest_host_counts_packets_over_the_whole_capture() {
    let sc = Screen::new();
    let (ip, c) = busiest_host_by_packets(&sc.rows).unwrap();
    assert!(ip == v4(10, 0, 0, 1) || ip == v4(10, 0, 0, 2));
    assert_eq!(c.packets, 3);
    assert_eq!(busiest_host_by_packets(&[]), None);
}

#[test]
fn packets_window_keeps_the_selection_in_view() {
    let sc = Screen::new();
    let mut s = UiState::new(&sc.flows);
    s.packets_selected_row = 50;
    s.packets_scroll_row = 0;
    s.fit_packets_window(20, 5);
    assert_eq!(s.packets_viewport_rows, 5);
    assert_eq!(s.packets_selected_row, 19);
    assert_eq!(s.packets_scroll_row, 15);
    s.packets_selected_row = 3;
    s.fit_packets_window(20, 5);
    assert_eq!(s.packets_scroll_row, 3);
    s.fit_packets_window(0, 5);
    assert_eq!(s.packets_scroll_row, 0);
    assert_eq!(s.packets_selected_row, 3);
}

#[test]
fn list_selections_are_clamped_to_their_rows() {
    let sc = Screen::new();
    let mut s = UiState::new(&sc.flows);
    s.overview_selected_row = 40;
    s.fit_overview_selection(0);
    assert_eq!(s.overview_selected_row, 40);
    s.fit_overview_selection(12);
    assert_eq!(s.overview_selected_row, 11);
    s.domains_selected_row = 9;
    s.fit_domains_selection(3);
    assert_eq!(s.domains_selected_row, 2);
}

#[test]
fn typing_then_erasing_gives_back_each_dialog_text() {
    let mut sc = Screen::new();
    let mut s = UiState::new(&sc.flows);
    sc.send(&mut s, press('F'));
    sc.send(&mut s, press('/'));
    for c in "111".chars() {
        sc.send(&mut s, press(c));
    }
    let before = s.visible_flow_indices.clone();
    sc.send(&mut s, press('9'));
    assert!(s.visible_flow_indices.is_empty());
    sc.send(&mut s, key(Key::Backspace));
    assert_eq!(s.filter.query, "111");
    assert_eq!(s.visible_flow_indices, before);
    sc.send(&mut s, key(Key::Esc));

    sc.send(&mut s, press('b'));
    sc.send(&mut s, press('x'));
    sc.send(&mut s, key(Key::Backspace));
    assert_eq!(s.bookmark_note, "");
    assert_eq!(s.modal, Modal::Bookmark);
}

#[test]
fn timeline_opens_with_t_and_esc_returns_to_the_overview() {
    let mut sc = Screen::new();
    let mut s = UiState::new(&sc.flows);
    assert_eq!(s.timeline_tab, TimelineTab::Gantt);
    sc.send(&mut s, press('T'));
    assert_eq!(s.view, View::Timeline);
    assert!(!s.show_onboarding);
    sc.send(&mut s, key(Key::Tab));
    assert_eq!(s.timeline_tab, TimelineTab::Scatter);
    sc.send(&mut s, key(Key::BackTab));
    assert_eq!(s.timeline_tab, TimelineTab::Gantt);
    sc.send(&mut s, key(Key::Esc));
    assert_eq!(s.view, View::Overview);
}

#[test]
fn timeline_selection_moves_within_its_rows_and_pages() {
    let mut sc = Screen::new();
    let mut s = UiState::new(&sc.flows);
    sc.send(&mut s, press('T'));
    sc.send(&mut s, key(Key::Down));
    assert_eq!(s.timeline_selected_row, 1);
    sc.send(&mut s, key(Key::Down));
    assert_eq!(s.timeline_selected_row, 1);
    sc.send(&mut s, press('k'));
    assert_eq!(s.timeline_selected_row, 0);
    s.fit_timeline_window(2, 10);
    sc.send(&mut s, key(Key::PageDown));
    assert_eq!(s.timeline_selected_row, 1);
    sc.send(&mut s, key(Key::PageUp));
    assert_eq!(s.timeline_selected_row, 0);
}

#[test]
fn enter_on_a_timeline_row_opens_that_flows_packets() {
    let mut sc = Screen::new();
    let mut s = UiState::new(&sc.flows);
    sc.send(&mut s, press('T'));
    let order = timeline_sorted_indices(&s.visible_flow_indices, &sc.flows.flows);
    assert_eq!(order.len(), 2);
    sc.send(&mut s, key(Key::Down));
    sc.send(&mut s, key(Key::Enter));
    assert_eq!(s.view, View::Packets);
    assert_eq!(s.visible_flow_indices[s.selected_row], order[1]);
    assert_eq!(s.packets_selected_row, 0);
}

#[test]
fn timeline_window_keeps_the_selection_on_a_row() {
    let sc = Screen::new();
    let mut s = UiState::new(&sc.flows);
    s.timeline_selected_row = 9;
    s.fit_timeline_window(4, 12);
    assert_eq!(s.timeline_selected_row, 3);
    assert_eq!(s.timeline_viewport_rows, 12);
    s.fit_timeline_window(0, 12);
    assert_eq!(s.timeline_selected_row, 3);
}
