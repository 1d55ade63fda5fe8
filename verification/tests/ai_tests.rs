use babyshark::ai::{
    api_key_present, api_key_status_label, base_url_from_setting, build_snapshot, model_from_setting, normalize_base_url,
    parsed_output_text, ResponsesApiResponse, ResponsesContentItem, ResponsesOutputItem, DEFAULT_MODEL, RESPONSES_API_URL,
};
use babyshark::capture::read_capture;
use babyshark::flow::{analyze_flows, FlowIndex};
use babyshark::ui_filter::FlowFilter;
use etherparse::PacketBuilder;
use pcap_file::pcap::{PcapPacket, PcapWriter};
use std::time::Duration;

fn two_tcp_packets() -> Vec<u8> {
    let mut buf: Vec<u8> = Vec::new();
    {
        let mut writer = PcapWriter::new(&mut buf).unwrap();
        let mut pkt0 = Vec::with_capacity(128);
        PacketBuilder::ethernet2([1, 2, 3, 4, 5, 6], [7, 8, 9, 10, 11, 12])
            .ipv4([10, 0, 0, 1], [10, 0, 0, 2], 64)
            .tcp(1234, 80, 1, 0)
            .write(&mut pkt0, b"GET")
            .unwrap();
        let mut pkt1 = Vec::with_capacity(128);
        PacketBuilder::ethernet2([7, 8, 9, 10, 11, 12], [1, 2, 3, 4, 5, 6])
            .ipv4([10, 0, 0, 2], [10, 0, 0, 1], 64)
            .tcp(80, 1234, 1, 0)
            .write(&mut pkt1, b"OK")
            .unwrap();
        let p0 = PcapPacket::new(Duration::from_secs(1), pkt0.len() as u32, &pkt0);
        let p1 = PcapPacket::new(Duration::from_secs(2), pkt1.len() as u32, &pkt1);
        writer.write_packet(&p0).unwrap();
        writer.write_packet(&p1).unwrap();
    }
    buf
}

fn item(kind: &str, text: &str) -> ResponsesContentItem {
    ResponsesContentItem { kind: Some(kind.to_string()), text: Some(text.to_string()) }
}

#[test]
fn snapshot_contains_top_level_capture_info() {
    let rows = read_capture(&two_tcp_packets()).unwrap();
    let mut flows = FlowIndex::build(&rows);
    analyze_flows(&mut flows, &rows);
    let snapshot = build_snapshot("/tmp/x.pcap", &rows, &flows, &FlowFilter::default(), None, flows.flows.first(), 5);

    assert_eq!(snapshot.meta.total_packets, 2);
    assert_eq!(snapshot.meta.total_flows, 1);
    assert!(!snapshot.top_flows.is_empty());
    assert!(snapshot.selected_flow.is_some());
}

#[test]
fn response_parser_prefers_output_text() {
    let resp = ResponsesApiResponse { output_text: Some("hello".to_string()), output: None, error: None };
    assert_eq!(parsed_output_text(&resp).as_deref(), Some("hello"));
}

#[test]
fn response_parser_falls_back_to_output_items() {
    let resp = ResponsesApiResponse {
        output_text: None,
        output: Some(vec![ResponsesOutputItem {
            content: Some(vec![item("output_text", "part one"), item("output_text", "part two")]),
        }]),
        error: None,
    };
    assert_eq!(parsed_output_text(&resp).as_deref(), Some("part one\n\npart two"));
}

#[test]
fn response_parser_skips_other_content_and_blank_text() {
    let resp = ResponsesApiResponse {
        output_text: Some("   ".to_string()),
        output: Some(vec![ResponsesOutputItem {
            content: Some(vec![item("reasoning", "hidden"), item("output_text", "  kept  "), item("output_text", " ")]),
        }]),
        error: None,
    };
    assert_eq!(parsed_output_text(&resp).as_deref(), Some("kept"));
    let empty = ResponsesApiResponse { output_text: None, output: None, error: None };
    assert_eq!(parsed_output_text(&empty), None);
}

#[test]
fn has_api_key_checks_non_empty_env_var() {
    assert!(!api_key_present(None));
    assert!(api_key_present(Some("sk-test")));
    assert!(!api_key_present(Some("   ")));
    assert_ne!(api_key_status_label(true), api_key_status_label(false));
}

#[test]
fn normalize_base_url_preserves_default_openai_url() {
    assert_eq!(normalize_base_url("https://api.openai.com/v1/responses"), RESPONSES_API_URL);
}

#[test]
fn default_base_url_appends_responses_when_needed() {
    assert_eq!(base_url_from_setting(Some("https://example.com/v1")), "https://example.com/v1/responses");
    assert_eq!(base_url_from_setting(Some("https://example.com/custom/responses/")), "https://example.com/custom/responses");
    assert_eq!(base_url_from_setting(None), RESPONSES_API_URL);
}

#[test]
fn normalizing_twice_changes_nothing() {
    for u in ["https://example.com/v1", "https://example.com/custom/responses/", "  x  "] {
        let once = normalize_base_url(u);
        assert_eq!(normalize_base_url(&once), once);
    }
}

#[test]
fn model_setting_falls_back_to_default() {
    assert_eq!(model_from_setting(None), DEFAULT_MODEL);
    assert_eq!(model_from_setting(Some("  ")), DEFAULT_MODEL);
    assert_eq!(model_from_setting(Some("gpt-x")), "gpt-x");
}
