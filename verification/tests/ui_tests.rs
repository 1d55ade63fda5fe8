use babyshark::casefile::CaseFile;
use babyshark::flow::FlowIndex;
use babyshark::hexdump::STREAM_MATCH_HIGHLIGHT_CAP;
use babyshark::navigation::{Modal, StreamTab, View};
use babyshark::pcap::{FlowDir, FlowKey, IpAddr, L4Proto, PacketRow};
use babyshark::ui_state::{
    build_stream_bytes, compute_live_drop, drop_oldest_rows, ingest_live_batch, UiState, STREAM_SEARCH_MODAL_HELP,
    STREAM_SEARCH_STATUS_NO_MATCHES, STREAM_SEARCH_STATUS_TYPE_TO_SEARCH,
};

fn v4(a: u8, b: u8, c: u8, d: u8) -> IpAddr {
    IpAddr::V4(u32::from_be_bytes([a, b, c, d]))
}

fn empty() -> FlowIndex {
    FlowIndex { flows: Vec::new() }
}

fn data_row(idx: usize, dir: FlowDir, seq: u32, payload: &[u8]) -> PacketRow {
    let (src, dst, sp, dp) = match dir {
        FlowDir::AtoB => (v4(10, 0, 0, 1), v4(10, 0, 0, 2), 1234, 80),
        FlowDir::BtoA => (v4(10, 0, 0, 2), v4(10, 0, 0, 1), 80, 1234),
    };
    PacketRow {
        index: idx,
        ts: idx as i64,
        len: 60 + payload.len(),
        src: Some(src),
        dst: Some(dst),
        proto: Some(L4Proto::Tcp),
        src_port: Some(sp),
        dst_port: Some(dp),
        summary: String::new(),
        flow: Some(FlowKey { src, dst, src_port: sp, dst_port: dp, proto: L4Proto::Tcp }),
        flow_dir: Some(dir),
        tcp_seq: Some(seq),
        tcp_ack: None,
        tcp_flags: Some(0x18),
        payload: payload.to_vec(),
        tcp_retransmission: false,
        tcp_out_of_order: false,
        dns_qname: None,
        dns_rcode: None,
        http_host: None,
        tls_sni: None,
        tls_version: None,
    }
}

fn one_flow() -> (Vec<PacketRow>, FlowIndex) {
    let rows = vec![data_row(0, FlowDir::AtoB, 1, b"ping ping"), data_row(1, FlowDir::BtoA, 1, b"pong")];
    let flows = FlowIndex::build(&rows);
    (rows, flows)
}

#[test]
fn compute_live_drop_is_saturating() {
    assert_eq!(compute_live_drop(10, 10), 0);
    assert_eq!(compute_live_drop(9, 10), 0);
    assert_eq!(compute_live_drop(11, 10), 1);
}

#[test]
fn manual_scroll_does_not_clear_current_match() {
    let mut app = UiState::new(&empty());
    app.view = View::Stream;
    app.stream_last_match = Some(123);
    app.stream_scroll = 10;
    app.scroll_down();
    assert_eq!(app.stream_last_match, Some(123));
    app.scroll_up();
    assert_eq!(app.stream_last_match, Some(123));
}

#[test]
fn scrolling_saturates_at_the_ends() {
    let mut app = UiState::new(&empty());
    app.stream_scroll = 0;
    app.scroll_up();
    assert_eq!(app.stream_scroll, 0);
    app.stream_scroll = u16::MAX;
    app.scroll_down();
    assert_eq!(app.stream_scroll, u16::MAX);
}

#[test]
fn count_stream_matches_is_zero_when_query_empty() {
    let mut app = UiState::new(&empty());
    app.stream_search.clear();
    assert_eq!(app.count_stream_matches(b"abc"), 0);
    app.stream_search = "a".to_string();
    assert_eq!(app.count_stream_matches(b"aba"), 2);
}

#[test]
fn stream_title_shows_zero_matches_text_when_no_hits() {
    let app_stream_search = "xyz";
    let total = 0usize;
    let status = if total == 0 { format!("  search=\"{}\" (0 matches)", app_stream_search) } else { unreachable!() };
    assert!(status.contains("0 matches"));
}

#[test]
fn count_stream_matches_respects_highlight_cap() {
    let mut app = UiState::new(&empty());
    app.stream_search = "ab".to_string();
    let bytes = b"ab".repeat(300);
    assert_eq!(app.count_stream_matches(&bytes), 300);
    let bytes = b"ab".repeat(STREAM_MATCH_HIGHLIGHT_CAP + 10);
    assert_eq!(app.count_stream_matches(&bytes), STREAM_MATCH_HIGHLIGHT_CAP);
}

#[test]
fn search_modal_uses_plural_no_matches_wording() {
    assert_eq!(STREAM_SEARCH_STATUS_NO_MATCHES, "no matches");
}

#[test]
fn search_modal_status_type_to_search_is_stable() {
    assert_eq!(STREAM_SEARCH_STATUS_TYPE_TO_SEARCH, "type to search");
}

#[test]
fn stream_search_modal_help_mentions_navigation_keys() {
    assert!(STREAM_SEARCH_MODAL_HELP.contains("n/N"));
    assert!(STREAM_SEARCH_MODAL_HELP.contains("Tab"));
    assert!(STREAM_SEARCH_MODAL_HELP.contains("Shift-Tab"));
}

#[test]
fn stream_tab_prev_cycles_backward() {
    let flows = empty();
    let mut app = UiState::new(&flows);
    app.view = View::Stream;
    app.stream_tab = StreamTab::Combined;
    app.tab_prev(&[], &flows);
    assert!(matches!(app.stream_tab, StreamTab::BtoA));
    app.tab_prev(&[], &flows);
    assert!(matches!(app.stream_tab, StreamTab::AtoB));
    app.tab_prev(&[], &flows);
    assert!(matches!(app.stream_tab, StreamTab::Combined));
}

#[test]
fn stream_tab_next_cycles_forward() {
    let flows = empty();
    let mut app = UiState::new(&flows);
    app.view = View::Stream;
    app.stream_tab = StreamTab::Combined;
    app.tab_next(&[], &flows);
    assert!(matches!(app.stream_tab, StreamTab::AtoB));
    app.tab_next(&[], &flows);
    assert!(matches!(app.stream_tab, StreamTab::BtoA));
    app.tab_next(&[], &flows);
    assert!(matches!(app.stream_tab, StreamTab::Combined));
}

#[test]
fn canceling_stream_search_resets_scroll() {
    let mut app = UiState::new(&empty());
    app.modal = Modal::StreamSearch;
    app.stream_scroll = 42;
    app.close_modal_cancel();
    assert_eq!(app.stream_scroll, 0);
    assert_eq!(app.modal, Modal::Closed);
}

#[test]
fn applying_stream_search_without_flow_does_not_reset_scroll() {
    let flows = empty();
    let mut app = UiState::new(&flows);
    let mut cf = CaseFile { pcap_path: String::new(), bookmarks: Vec::new() };
    app.modal = Modal::StreamSearch;
    app.view = View::Stream;
    app.stream_scroll = 7;
    app.stream_search = "zzz".to_string();
    app.close_modal_apply(&[], &flows, &mut cf);
    assert_eq!(app.stream_scroll, 7);
}

#[test]
fn opening_stream_search_resets_scroll() {
    let flows = empty();
    let mut app = UiState::new(&flows);
    app.view = View::Stream;
    app.stream_scroll = 9;
    app.open_stream_search(&[], &flows);
    assert_eq!(app.stream_scroll, 0);
}

#[test]
fn typing_in_stream_search_resets_scroll_and_clears_current_match() {
    let flows = empty();
    let mut app = UiState::new(&flows);
    app.modal = Modal::StreamSearch;
    app.view = View::Stream;
    app.stream_scroll = 5;
    app.stream_last_match = Some(123);
    app.modal_push('a', &[], &flows);
    assert_eq!(app.stream_scroll, 0);
    assert_eq!(app.stream_last_match, None);
    assert_eq!(app.stream_search, "a");
}

#[test]
fn backspace_in_stream_search_resets_scroll_and_clears_current_match() {
    let flows = empty();
    let mut app = UiState::new(&flows);
    app.modal = Modal::StreamSearch;
    app.view = View::Stream;
    app.stream_scroll = 5;
    app.stream_last_match = Some(123);
    app.stream_search = "ab".to_string();
    app.modal_pop(&[], &flows);
    assert_eq!(app.stream_scroll, 0);
    assert_eq!(app.stream_last_match, None);
    assert_eq!(app.stream_search, "a");
}

#[test]
fn refresh_stream_match_count_does_not_recurse_infinitely() {
    let flows = empty();
    let mut app = UiState::new(&flows);
    app.view = View::Stream;
    app.refresh_stream_match_count(&[], &flows);
}

#[test]
fn refresh_stream_match_count_is_noop_without_selected_flow() {
    let flows = empty();
    let mut app = UiState::new(&flows);
    app.view = View::Stream;
    app.stream_search.clear();
    app.stream_match_count = 99;
    app.refresh_stream_match_count(&[], &flows);
    assert_eq!(app.stream_match_count, 99);
    assert!(matches!(app.view, View::Stream));
}

#[test]
fn tab_prev_is_noop_outside_stream_view() {
    let flows = empty();
    let mut app = UiState::new(&flows);
    app.view = View::Flows;
    app.stream_tab = StreamTab::Combined;
    app.tab_prev(&[], &flows);
    assert!(matches!(app.stream_tab, StreamTab::Combined));
}

#[test]
fn tab_next_is_noop_outside_stream_view() {
    let flows = empty();
    let mut app = UiState::new(&flows);
    app.view = View::Flows;
    app.stream_tab = StreamTab::Combined;
    app.tab_next(&[], &flows);
    assert!(matches!(app.stream_tab, StreamTab::Combined));
}

#[test]
fn new_state_shows_every_flow_and_starts_on_the_overview() {
    let (_rows, flows) = one_flow();
    let app = UiState::new(&flows);
    assert_eq!(app.view, View::Overview);
    assert_eq!(app.visible_flow_indices, vec![0]);
    assert_eq!(app.selected_flow_index(&flows), Some(0));
}

#[test]
fn stream_search_on_a_selected_flow_jumps_to_the_first_match() {
    let (rows, flows) = one_flow();
    let mut app = UiState::new(&flows);
    let mut cf = CaseFile { pcap_path: String::new(), bookmarks: Vec::new() };
    app.open_stream();
    app.open_stream_search(&rows, &flows);
    for c in "ping".chars() {
        app.modal_push(c, &rows, &flows);
    }
    assert_eq!(app.stream_match_count, 2);
    app.close_modal_apply(&rows, &flows, &mut cf);
    assert_eq!(app.modal, Modal::Closed);
    assert_eq!(app.stream_last_match, Some(0));
    assert_eq!(app.stream_match_count, 2);
    // switching to the B→A tab keeps the search: no match there
    app.tab_next(&rows, &flows);
    assert_eq!(app.stream_tab, StreamTab::BtoA);
    assert_eq!(app.stream_match_count, 0);
}

#[test]
fn filter_typing_recomputes_the_visible_flows() {
    let (rows, flows) = one_flow();
    let mut app = UiState::new(&flows);
    app.open_filter();
    for c in "udp".chars() {
        app.modal_push(c, &rows, &flows);
    }
    assert!(app.visible_flow_indices.is_empty());
    assert_eq!(app.selected_row, 0);
    app.modal_clear(&flows);
    assert_eq!(app.visible_flow_indices, vec![0]);
    app.toggle_tcp(&flows);
    assert!(app.visible_flow_indices.is_empty());
    app.toggle_tcp(&flows);
    assert_eq!(app.visible_flow_indices, vec![0]);
}

#[test]
fn bookmark_dialog_stores_the_trimmed_note_for_the_selected_flow() {
    let (rows, flows) = one_flow();
    let mut app = UiState::new(&flows);
    let mut cf = CaseFile { pcap_path: String::new(), bookmarks: Vec::new() };
    app.open_bookmark();
    for c in " slow ".chars() {
        app.modal_push(c, &rows, &flows);
    }
    assert!(app.close_modal_apply(&rows, &flows, &mut cf));
    assert_eq!(cf.bookmarks.len(), 1);
    assert_eq!(cf.bookmarks[0].note, "slow");
    assert_eq!(cf.bookmarks[0].flow_key, flows.flows[0].label());
}

#[test]
fn moving_the_selection_stays_inside_the_list() {
    let flows = empty();
    let mut app = UiState::new(&flows);
    app.move_down();
    assert_eq!(app.selected_row, 0);
    app.move_up();
    assert_eq!(app.selected_row, 0);
    let (_rows, one) = one_flow();
    let mut app = UiState::new(&one);
    app.move_down();
    assert_eq!(app.selected_row, 0);
}

#[test]
fn back_goes_up_one_level() {
    let mut app = UiState::new(&empty());
    app.view = View::Stream;
    app.back();
    assert_eq!(app.view, View::Packets);
    app.back();
    assert_eq!(app.view, View::Flows);
    app.back();
    assert_eq!(app.view, View::Flows);
}

#[test]
fn combined_stream_tab_joins_both_directions() {
    let (rows, flows) = one_flow();
    let b = build_stream_bytes(&rows, &flows.flows[0], StreamTab::Combined);
    assert_eq!(b, b"ping ping\n\n---\n\npong".to_vec());
}

#[test]
fn live_rows_are_numbered_and_capped() {
    let mut rows: Vec<PacketRow> = Vec::new();
    let batch: Vec<PacketRow> = (0..5).map(|i| data_row(99, FlowDir::AtoB, i, b"x")).collect();
    assert_eq!(ingest_live_batch(&mut rows, batch, usize::MAX), 0);
    assert_eq!(rows.iter().map(|r| r.index).collect::<Vec<_>>(), vec![0, 1, 2, 3, 4]);
    let dropped = drop_oldest_rows(&mut rows, 3);
    assert_eq!(dropped, 2);
    assert_eq!(rows.len(), 3);
    assert_eq!(rows.iter().map(|r| r.index).collect::<Vec<_>>(), vec![0, 1, 2]);
    assert_eq!(rows[0].tcp_seq, Some(2));
    assert_eq!(drop_oldest_rows(&mut rows, 10), 0);
}

#[test]
fn a_live_batch_keeps_the_newest_rows_numbered_from_zero() {
    let mut rows: Vec<PacketRow> = (0..3u32).map(|i| data_row(i as usize, FlowDir::AtoB, i, b"x")).collect();
    let batch: Vec<PacketRow> = (3..5u32).map(|i| data_row(99, FlowDir::AtoB, i, b"x")).collect();
    let dropped = ingest_live_batch(&mut rows, batch, 4);
    assert_eq!(dropped, 1);
    assert_eq!(rows.len(), 4);
    for (i, r) in rows.iter().enumerate() {
        assert_eq!(r.index, i);
        assert_eq!(r.tcp_seq, Some(i as u32 + 1));
    }

    let mut small: Vec<PacketRow> = vec![data_row(0, FlowDir::AtoB, 0, b"x")];
    let dropped = ingest_live_batch(&mut small, vec![data_row(7, FlowDir::BtoA, 1, b"y")], 20_000);
    assert_eq!(dropped, 0);
    assert_eq!(small.len(), 2);
    assert_eq!(small[1].index, 1);
    assert_eq!(small[1].tcp_seq, Some(1));
}
