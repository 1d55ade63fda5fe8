use babyshark::capture::read_capture;
use babyshark::flow::FlowIndex;
use babyshark::report::{render_report_md, truncate_bytes, ReportOptions};
use babyshark::ui_filter::FlowFilter;
use etherparse::PacketBuilder;
use pcap_file::pcap::{PcapPacket, PcapWriter};
use std::time::Duration;

fn two_tcp_packets() -> Vec<u8> {
    let mut buf: Vec<u8> = Vec::new();
    {
        let mut writer = PcapWriter::new(&mut buf).unwrap();
        let mut pkt0 = Vec::with_capacity(128);
        PacketBuilder::ethernet2([1, 2, 3, 4, 5, 6], [7, 8, 9, 10, 11, 12])
            .ipv4([10, 0, 0, 1], [10, 0, 0, 2], 64)
            .tcp(1234, 80, 1, 0)
            .write(&mut pkt0, b"GET")
            .unwrap();
        let mut pkt1 = Vec::with_capacity(128);
        PacketBuilder::ethernet2([7, 8, 9, 10, 11, 12], [1, 2, 3, 4, 5, 6])
            .ipv4([10, 0, 0, 2], [10, 0, 0, 1], 64)
            .tcp(80, 1234, 1, 0)
            .write(&mut pkt1, b"OK")
            .unwrap();
        let p0 = PcapPacket::new(Duration::from_secs(1), pkt0.len() as u32, &pkt0);
        let p1 = PcapPacket::new(Duration::from_secs(2), pkt1.len() as u32, &pkt1);
        writer.write_packet(&p0).unwrap();
        writer.write_packet(&p1).unwrap();
    }
    buf
}

#[test]
fn report_writes_markdown() {
    let rows = read_capture(&two_tcp_packets()).unwrap();
    let flows = FlowIndex::build(&rows);
    let filter = FlowFilter::default();
    let s = render_report_md(
        "/tmp/x.pcap",
        &rows,
        &flows,
        &filter,
        &[],
        flows.flows.first(),
        &ReportOptions { max_flows: 10, max_stream_bytes: 64 },
    );
    assert!(s.contains("# babyshark report"));
    assert!(s.contains("## Flows"));
    assert!(s.contains("Selected flow"));
}

#[test]
fn truncate_bytes_cuts_and_flags() {
    assert_eq!(truncate_bytes(b"abcdef", 4), (b"abcd".to_vec(), true));
    assert_eq!(truncate_bytes(b"ab", 4), (b"ab".to_vec(), false));
}

#[test]
fn default_report_options() {
    let o = ReportOptions::default();
    assert_eq!(o.max_flows, 50);
    assert_eq!(o.max_stream_bytes, 16 * 1024);
}
