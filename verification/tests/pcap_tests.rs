use babyshark::capture::{read_capture, CaptureError};
use babyshark::pcap::{
    decode_packet, ip_in_nets, parse_cidr_list, row_from_layers, FlowDir, FlowKey, FrameLayers, IpAddr, L4Proto, TransportLayer,
};
use etherparse::PacketBuilder;
use pcap_file::pcap::{PcapPacket, PcapWriter};
use pcap_file::pcapng::blocks::enhanced_packet::EnhancedPacketBlock;
use pcap_file::pcapng::blocks::interface_description::InterfaceDescriptionBlock;
use pcap_file::pcapng::PcapNgWriter;
use pcap_file::DataLink;
use std::borrow::Cow;
use std::time::Duration;

fn v4(a: u8, b: u8, c: u8, d: u8) -> IpAddr {
    IpAddr::V4(u32::from_be_bytes([a, b, c, d]))
}

#[test]
fn parse_cidr_list_works() {
    let nets = parse_cidr_list("10.0.0.0/8, 192.168.0.0/16").unwrap();
    assert_eq!(nets.len(), 2);
}

#[test]
fn cidr_list_skips_blank_items_and_reports_bad_ones() {
    let nets = parse_cidr_list(" , 10.0.0.0/8,,").unwrap();
    assert_eq!(nets.len(), 1);
    assert_eq!(nets[0].prefix_len, 8);
    let err = parse_cidr_list("10.0.0.0/8, nope").err().unwrap();
    assert_eq!(err.item, "nope");
    assert!(parse_cidr_list("10.0.0.0/33").is_err());
}

#[test]
fn ip_in_nets_checks_prefixes() {
    let nets = parse_cidr_list("10.0.0.0/8, 192.168.1.0/24, fd00::/8").unwrap();
    assert!(ip_in_nets(v4(10, 1, 2, 3), &nets));
    assert!(ip_in_nets(v4(192, 168, 1, 200), &nets));
    assert!(!ip_in_nets(v4(192, 168, 2, 1), &nets));
    assert!(ip_in_nets(IpAddr::V6(0xfd00_0000_0000_0000_0000_0000_0000_0001), &nets));
    assert!(!ip_in_nets(IpAddr::V6(1), &nets));
    let all = parse_cidr_list("0.0.0.0/0").unwrap();
    assert!(ip_in_nets(v4(8, 8, 8, 8), &all));
    assert!(!ip_in_nets(IpAddr::V6(1), &all));
}

#[test]
fn read_empty_pcap_is_ok() {
    let mut buf: Vec<u8> = Vec::new();
    {
        let _writer = PcapWriter::new(&mut buf).unwrap();
    }
    let rows = read_capture(&buf).unwrap();
    assert!(rows.is_empty());
}

#[test]
fn read_capture_rejects_short_and_garbage_input() {
    assert_eq!(read_capture(b"ab").err(), Some(CaptureError::NoMagic));
    assert_eq!(read_capture(b"not a pcap file at all").err(), Some(CaptureError::Pcap));
    assert_eq!(read_capture(&[0x0a, 0x0d, 0x0d, 0x0a, 0, 0]).err(), Some(CaptureError::PcapNg));
}

#[test]
fn read_capture_numbers_rows_and_keeps_time() {
    let mut buf: Vec<u8> = Vec::new();
    {
        let mut writer = PcapWriter::new(&mut buf).unwrap();
        let mut pkt = Vec::new();
        PacketBuilder::ethernet2([1, 2, 3, 4, 5, 6], [7, 8, 9, 10, 11, 12])
            .ipv4([10, 0, 0, 1], [10, 0, 0, 2], 64)
            .udp(5353, 53)
            .write(&mut pkt, b"xy")
            .unwrap();
        writer.write_packet(&PcapPacket::new(Duration::new(3, 5_000), pkt.len() as u32, &pkt)).unwrap();
        writer.write_packet(&PcapPacket::new(Duration::new(4, 0), pkt.len() as u32, &pkt)).unwrap();
    }
    let rows = read_capture(&buf).unwrap();
    assert_eq!(rows.len(), 2);
    assert_eq!(rows[1].index, 1);
    assert_eq!(rows[0].ts, 3_000_005_000);
    assert_eq!(rows[0].proto, Some(L4Proto::Udp));
    assert_eq!(rows[0].dst_port, Some(53));
    assert_eq!(rows[0].payload, b"xy".to_vec());
}

#[test]
fn decode_packet_reads_tcp_layers_and_summary() {
    let mut pkt = Vec::new();
    PacketBuilder::ethernet2([1, 2, 3, 4, 5, 6], [7, 8, 9, 10, 11, 12])
        .ipv4([10, 0, 0, 2], [10, 0, 0, 1], 64)
        .tcp(80, 1234, 7, 0)
        .write(&mut pkt, b"OK")
        .unwrap();
    let r = decode_packet(5, 42, &pkt);
    assert_eq!(r.index, 5);
    assert_eq!(r.ts, 42);
    assert_eq!(r.len, pkt.len());
    assert_eq!(r.src, Some(v4(10, 0, 0, 2)));
    assert_eq!(r.proto, Some(L4Proto::Tcp));
    assert_eq!(r.tcp_seq, Some(7));
    // canonical key puts the lower endpoint first, so this packet runs B→A
    assert_eq!(r.flow_dir, Some(FlowDir::BtoA));
    assert_eq!(r.summary, "TCP 10.0.0.2:80 → 10.0.0.1:1234 payload");
}

#[test]
fn decode_packet_of_garbage_is_undecoded() {
    let r = decode_packet(0, 0, &[1, 2, 3]);
    assert_eq!(r.summary, "len=3 (undecoded)");
    assert!(r.proto.is_none());
}

#[test]
fn read_capture_decodes_pcapng_packets_at_the_epoch() {
    let mut pkt = Vec::new();
    PacketBuilder::ethernet2([1, 2, 3, 4, 5, 6], [7, 8, 9, 10, 11, 12])
        .ipv4([10, 0, 0, 1], [10, 0, 0, 2], 64)
        .tcp(40000, 443, 7, 1024)
        .write(&mut pkt, b"hello")
        .unwrap();
    let mut buf: Vec<u8> = Vec::new();
    {
        let mut writer = PcapNgWriter::new(&mut buf).unwrap();
        writer
            .write_pcapng_block(InterfaceDescriptionBlock { linktype: DataLink::ETHERNET, snaplen: 0xFFFF, options: vec![] })
            .unwrap();
        for secs in [5u64, 6u64] {
            writer
                .write_pcapng_block(EnhancedPacketBlock {
                    interface_id: 0,
                    timestamp: Duration::from_secs(secs),
                    original_len: pkt.len() as u32,
                    data: Cow::Borrowed(&pkt),
                    options: vec![],
                })
                .unwrap();
        }
    }
    let rows = read_capture(&buf).unwrap();
    assert_eq!(rows.len(), 2);
    assert_eq!(rows[0].index, 0);
    assert_eq!(rows[1].index, 1);
    assert_eq!(rows[0].ts, 0);
    assert_eq!(rows[0].proto, Some(L4Proto::Tcp));
    assert_eq!(rows[0].src_port, Some(40000));
    assert_eq!(rows[0].tcp_seq, Some(7));
    assert_eq!(rows[0].payload, b"hello".to_vec());
}

fn be32(v: u32) -> [u8; 4] {
    v.to_be_bytes()
}

fn section_header_be() -> Vec<u8> {
    let mut b = Vec::new();
    b.extend_from_slice(&be32(0x0A0D0D0A));
    b.extend_from_slice(&be32(28));
    b.extend_from_slice(&be32(0x1A2B3C4D));
    b.extend_from_slice(&[0, 1, 0, 0]);
    b.extend_from_slice(&[0xFF; 8]);
    b.extend_from_slice(&be32(28));
    b
}

fn name_resolution_block(body: &[u8]) -> Vec<u8> {
    let total = (12 + body.len()) as u32;
    let mut b = Vec::new();
    b.extend_from_slice(&be32(4));
    b.extend_from_slice(&be32(total));
    b.extend_from_slice(body);
    b.extend_from_slice(&be32(total));
    b
}

#[test]
fn read_capture_reads_a_padded_name_resolution_block() {
    let mut buf = section_header_be();
    let body: Vec<u8> = vec![0, 1, 0, 6, 10, 0, 0, 1, b'a', 0, 0, 0, 0, 0, 0, 0];
    buf.extend_from_slice(&name_resolution_block(&body));
    let rows = read_capture(&buf).unwrap();
    assert!(rows.is_empty());
}

#[test]
fn read_capture_refuses_a_name_record_without_its_padding() {
    let mut buf = section_header_be();
    let body: Vec<u8> = vec![0, 1, 0, 6, 10, 0, 0, 1, b'a', 0, 0, 0, 0, 0];
    buf.extend_from_slice(&name_resolution_block(&body));
    assert!(matches!(read_capture(&buf), Err(CaptureError::PcapNg)));
}

#[test]
fn row_from_layers_copies_the_tcp_layer_and_reads_hints() {
    let payload = b"GET / HTTP/1.1\r\nHost: example.com\r\n\r\n".to_vec();
    let layers = FrameLayers {
        addrs: Some((v4(10, 0, 0, 1), v4(10, 0, 0, 2))),
        transport: Some(TransportLayer {
            tcp: true,
            src_port: 40000,
            dst_port: 80,
            seq: 7,
            ack: 9,
            flags_hi: 0x51,
            flags_lo: 0x18,
            payload: payload.clone(),
        }),
    };
    let r = row_from_layers(3, 77, 100, Some(layers));
    assert_eq!(r.index, 3);
    assert_eq!(r.ts, 77);
    assert_eq!(r.len, 100);
    assert_eq!(r.src, Some(v4(10, 0, 0, 1)));
    assert_eq!(r.dst, Some(v4(10, 0, 0, 2)));
    assert_eq!(r.proto, Some(L4Proto::Tcp));
    assert_eq!(r.src_port, Some(40000));
    assert_eq!(r.dst_port, Some(80));
    assert_eq!(r.tcp_seq, Some(7));
    assert_eq!(r.tcp_ack, Some(9));
    assert_eq!(r.tcp_flags, Some(0x118));
    assert_eq!(r.payload, payload);
    assert_eq!(
        r.flow,
        Some(FlowKey { src: v4(10, 0, 0, 1), dst: v4(10, 0, 0, 2), src_port: 40000, dst_port: 80, proto: L4Proto::Tcp })
    );
    assert_eq!(r.http_host.as_deref(), Some("example.com"));
}

#[test]
fn row_from_layers_without_layers_is_undecoded() {
    let r = row_from_layers(0, 5, 60, None);
    assert_eq!(r.summary, "len=60 (undecoded)");
    assert!(r.src.is_none());
    assert!(r.flow.is_none());

    let udp = FrameLayers {
        addrs: None,
        transport: Some(TransportLayer { tcp: false, src_port: 5353, dst_port: 53, seq: 0, ack: 0, flags_hi: 0, flags_lo: 0, payload: Vec::new() }),
    };
    let r = row_from_layers(1, 0, 42, Some(udp));
    assert_eq!(r.proto, Some(L4Proto::Udp));
    assert_eq!(r.tcp_flags, None);
    assert!(r.flow.is_none());
}
