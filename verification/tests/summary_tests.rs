use babyshark::capture::read_capture;
use babyshark::flow::FlowIndex;
use babyshark::pcap::L4Proto;
use babyshark::summary::build_overview;
use etherparse::PacketBuilder;
use pcap_file::pcap::{PcapPacket, PcapWriter};
use std::time::Duration;

fn two_tcp_packets() -> Vec<u8> {
    let mut buf: Vec<u8> = Vec::new();
    {
        let mut writer = PcapWriter::new(&mut buf).unwrap();
        let mut pkt0 = Vec::with_capacity(128);
        PacketBuilder::ethernet2([1, 2, 3, 4, 5, 6], [7, 8, 9, 10, 11, 12])
            .ipv4([10, 0, 0, 1], [10, 0, 0, 2], 64)
            .tcp(1234, 80, 1, 0)
            .write(&mut pkt0, b"GET")
            .unwrap();
        let mut pkt1 = Vec::with_capacity(128);
        PacketBuilder::ethernet2([7, 8, 9, 10, 11, 12], [1, 2, 3, 4, 5, 6])
            .ipv4([10, 0, 0, 2], [10, 0, 0, 1], 64)
            .tcp(80, 1234, 1, 0)
            .write(&mut pkt1, b"OK")
            .unwrap();
        let p0 = PcapPacket::new(Duration::from_secs(1), pkt0.len() as u32, &pkt0);
        let p1 = PcapPacket::new(Duration::from_secs(2), pkt1.len() as u32, &pkt1);
        writer.write_packet(&p0).unwrap();
        writer.write_packet(&p1).unwrap();
    }
    buf
}

#[test]
fn overview_counts_packets_ports_hosts() {
    let rows = read_capture(&two_tcp_packets()).unwrap();
    let flows = FlowIndex::build(&rows);
    let ov = build_overview(&rows, &flows, 10);

    assert_eq!(ov.total_packets, 2);
    assert_eq!(ov.protos.tcp, 2);
    assert_eq!(ov.protos.udp, 0);

    let ports: Vec<u16> = ov.top_ports.iter().map(|p| p.0).collect();
    assert!(ports.contains(&80));
    assert!(ports.contains(&1234));

    assert_eq!(ov.top_flows.len(), 1);
    assert_eq!(ov.top_flows[0].key.proto, L4Proto::Tcp);
}

#[test]
fn overview_limit_caps_the_lists() {
    let rows = read_capture(&two_tcp_packets()).unwrap();
    let flows = FlowIndex::build(&rows);
    let ov = build_overview(&rows, &flows, 1);
    assert_eq!(ov.top_ports.len(), 1);
    assert_eq!(ov.top_hosts.len(), 1);
}
