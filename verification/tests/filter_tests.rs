use babyshark::flow::{DirStats, FlowStats};
use babyshark::pcap::{FlowKey, IpAddr, L4Proto};
use babyshark::ui_filter::FlowFilter;

fn v4(a: u8, b: u8, c: u8, d: u8) -> IpAddr {
    IpAddr::V4(u32::from_be_bytes([a, b, c, d]))
}

fn mk_flow(proto: L4Proto) -> FlowStats {
    FlowStats {
        key: FlowKey { src: v4(10, 0, 0, 1), dst: v4(10, 0, 0, 2), src_port: 1234, dst_port: 80, proto },
        total_packets: 2,
        total_bytes: 20,
        a_to_b: DirStats { packets: 1, bytes: 10 },
        b_to_a: DirStats { packets: 1, bytes: 10 },
        packet_indices: vec![0, 1],
        analysis: None,
        first_ts: None,
        last_ts: None,
    }
}

#[test]
fn filter_query_matches_endpoints() {
    let f = mk_flow(L4Proto::Tcp);
    let mut flt = FlowFilter::default();
    flt.query = "10.0.0.1".into();
    assert!(flt.matches(&f));
    flt.query = "9999".into();
    assert!(!flt.matches(&f));
}

#[test]
fn filter_proto_toggles_work() {
    let tcp = mk_flow(L4Proto::Tcp);
    let udp = mk_flow(L4Proto::Udp);
    let mut flt = FlowFilter::default();

    flt.show_tcp = true;
    flt.show_udp = false;
    assert!(flt.matches(&tcp));
    assert!(!flt.matches(&udp));

    flt.show_tcp = false;
    flt.show_udp = true;
    assert!(!flt.matches(&tcp));
    assert!(flt.matches(&udp));
}

#[test]
fn blank_query_matches_every_shown_flow() {
    let f = mk_flow(L4Proto::Udp);
    let mut flt = FlowFilter::default();
    flt.query = "   ".into();
    assert!(flt.matches(&f));
}

#[test]
fn query_is_case_insensitive_and_matches_protocol_and_port() {
    let f = mk_flow(L4Proto::Tcp);
    let mut flt = FlowFilter::default();
    flt.query = "TCP".into();
    assert!(flt.matches(&f));
    flt.query = ":80".into();
    assert!(flt.matches(&f));
    flt.query = "udp".into();
    assert!(!flt.matches(&f));
}
