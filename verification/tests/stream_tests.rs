use babyshark::capture::read_capture;
use babyshark::flow::FlowIndex;
use babyshark::stream::build_stream;
use etherparse::PacketBuilder;
use pcap_file::pcap::{PcapPacket, PcapWriter};
use std::time::Duration;

fn two_tcp_packets() -> Vec<u8> {
    let mut buf: Vec<u8> = Vec::new();
    {
        let mut writer = PcapWriter::new(&mut buf).unwrap();
        let mut pkt0 = Vec::with_capacity(128);
        PacketBuilder::ethernet2([1, 2, 3, 4, 5, 6], [7, 8, 9, 10, 11, 12])
            .ipv4([10, 0, 0, 1], [10, 0, 0, 2], 64)
            .tcp(1234, 80, 1, 0)
            .write(&mut pkt0, b"GET")
            .unwrap();
        let mut pkt1 = Vec::with_capacity(128);
        PacketBuilder::ethernet2([7, 8, 9, 10, 11, 12], [1, 2, 3, 4, 5, 6])
            .ipv4([10, 0, 0, 2], [10, 0, 0, 1], 64)
            .tcp(80, 1234, 1, 0)
            .write(&mut pkt1, b"OK")
            .unwrap();
        let p0 = PcapPacket::new(Duration::from_secs(1), pkt0.len() as u32, &pkt0);
        let p1 = PcapPacket::new(Duration::from_secs(2), pkt1.len() as u32, &pkt1);
        writer.write_packet(&p0).unwrap();
        writer.write_packet(&p1).unwrap();
    }
    buf
}

fn out_of_order_tcp() -> Vec<u8> {
    let mut buf: Vec<u8> = Vec::new();
    {
        let mut writer = PcapWriter::new(&mut buf).unwrap();
        let mut pkt1 = Vec::with_capacity(128);
        PacketBuilder::ethernet2([1, 2, 3, 4, 5, 6], [7, 8, 9, 10, 11, 12])
            .ipv4([10, 0, 0, 1], [10, 0, 0, 2], 64)
            .tcp(1234, 80, 3, 0)
            .write(&mut pkt1, b"LLO")
            .unwrap();
        let mut pkt0 = Vec::with_capacity(128);
        PacketBuilder::ethernet2([1, 2, 3, 4, 5, 6], [7, 8, 9, 10, 11, 12])
            .ipv4([10, 0, 0, 1], [10, 0, 0, 2], 64)
            .tcp(1234, 80, 1, 0)
            .write(&mut pkt0, b"HE")
            .unwrap();
        let p1 = PcapPacket::new(Duration::from_secs(1), pkt1.len() as u32, &pkt1);
        let p0 = PcapPacket::new(Duration::from_secs(2), pkt0.len() as u32, &pkt0);
        writer.write_packet(&p1).unwrap();
        writer.write_packet(&p0).unwrap();
    }
    buf
}

#[test]
fn build_stream_concatenates_payloads_by_direction() {
    let rows = read_capture(&two_tcp_packets()).unwrap();
    let idx = FlowIndex::build(&rows);
    let flow = &idx.flows[0];
    let s = build_stream(&rows, flow);
    assert_eq!(String::from_utf8_lossy(&s.a_to_b), "GET");
    assert_eq!(String::from_utf8_lossy(&s.b_to_a), "OK");
}

#[test]
fn build_stream_reassembles_out_of_order_tcp() {
    let rows = read_capture(&out_of_order_tcp()).unwrap();
    let idx = FlowIndex::build(&rows);
    let flow = &idx.flows[0];
    let s = build_stream(&rows, flow);
    assert_eq!(String::from_utf8_lossy(&s.a_to_b), "HELLO");
}
