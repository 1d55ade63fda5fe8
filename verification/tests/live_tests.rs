use babyshark::live::{
    build_tshark_live_args, format_tshark_exit_status, friendly_live_capture_error, parse_tshark_ifaces_output,
    parse_tshark_version_output, row_from_tshark_fields, tshark_address_texts, tshark_fields,
};
use babyshark::pcap::{IpAddr, L4Proto, PacketRow};

fn groups(s: &str) -> Option<Vec<u16>> {
    if s.is_empty() {
        return Some(Vec::new());
    }
    s.split(':').map(|g| u16::from_str_radix(g, 16).ok()).collect()
}

/// Dotted IPv4 or colon-hex IPv6 text (with at most one `::`).
fn to_ip(s: &str) -> Option<IpAddr> {
    if s.contains(':') {
        let (head, tail) = match s.split_once("::") {
            Some((h, t)) => (groups(h)?, groups(t)?),
            None => (groups(s)?, Vec::new()),
        };
        if head.len() + tail.len() > 8 {
            return None;
        }
        let mut all = head.clone();
        all.extend(std::iter::repeat(0u16).take(8 - head.len() - tail.len()));
        all.extend(tail);
        Some(IpAddr::V6(all.iter().fold(0u128, |acc, g| (acc << 16) | *g as u128)))
    } else {
        let parts: Vec<u8> = s.split('.').map(|p| p.parse::<u8>().ok()).collect::<Option<Vec<u8>>>()?;
        if parts.len() != 4 {
            return None;
        }
        Some(IpAddr::V4(u32::from_be_bytes([parts[0], parts[1], parts[2], parts[3]])))
    }
}

fn parse_line(line: &str) -> Option<PacketRow> {
    let fields = tshark_fields(line)?;
    let (s, d) = tshark_address_texts(&fields);
    Some(row_from_tshark_fields(&fields, 0, to_ip(&s), to_ip(&d)))
}

#[test]
fn build_tshark_live_args_includes_write_pcap() {
    let args = build_tshark_live_args("en0", None, None, Some("out.pcapng"));
    let pos = args.iter().position(|a| a == "-w").unwrap();
    assert_eq!(args[pos + 1], "out.pcapng");
}

#[test]
fn live_args_pass_capture_and_display_filters() {
    let args = build_tshark_live_args("eth0", Some("port 53"), Some("dns"), None);
    let i = args.iter().position(|a| a == "-i").unwrap();
    assert_eq!(args[i + 1], "eth0");
    let f = args.iter().position(|a| a == "-f").unwrap();
    assert_eq!(args[f + 1], "port 53");
    let y = args.iter().position(|a| a == "-Y").unwrap();
    assert_eq!(args[y + 1], "dns");
    assert!(!args.iter().any(|a| a == "-w"));
}

#[test]
fn friendly_error_detects_permission_denied() {
    let msg = friendly_live_capture_error("Permission denied").unwrap();
    assert!(msg.to_lowercase().contains("permissions"));
}

#[test]
fn friendly_error_detects_unknown_device() {
    let msg = friendly_live_capture_error("No such device").unwrap();
    assert!(msg.to_lowercase().contains("--list-ifaces"));
}

#[test]
fn friendly_error_is_none_for_other_messages() {
    assert!(friendly_live_capture_error("something else").is_none());
}

#[test]
fn parse_version_first_line() {
    let s = "TShark (Wireshark) 4.2.4\nCopyright ...\n";
    assert_eq!(parse_tshark_version_output(s), Some("TShark (Wireshark) 4.2.4".to_string()));
}

#[test]
fn parse_version_of_blank_output_is_none() {
    assert_eq!(parse_tshark_version_output("\n\n"), None);
}

#[test]
fn parse_ifaces_basic() {
    let s = "1. en0\n2. lo0 (Loopback)\n3. awdl0 (Apple Wireless Direct Link interface)\n";
    let ifaces = parse_tshark_ifaces_output(s);
    assert_eq!(ifaces.len(), 3);
    assert_eq!(ifaces[0].index, 1);
    assert_eq!(ifaces[0].name, "en0");
    assert_eq!(ifaces[0].desc, None);
    assert_eq!(ifaces[1].name, "lo0");
    assert_eq!(ifaces[1].desc.as_deref(), Some("Loopback"));
}

#[test]
fn parse_tshark_fields_line_tcp() {
    let line = "1700000000.123\t60\t1.2.3.4\t5.6.7.8\t\t\t12345\t443\t\t\tTCP\t0x0012\t\t\t\t\t\t\t\t";
    let row = parse_line(line).unwrap();
    assert_eq!(row.len, 60);
    assert_eq!(row.proto, Some(L4Proto::Tcp));
    assert_eq!(row.src_port, Some(12345));
    assert_eq!(row.dst_port, Some(443));
    assert_eq!(row.tcp_flags, Some(0x12));
    assert!(row.summary.contains("TCP"));
}

#[test]
fn parse_tshark_fields_line_udp_ipv6() {
    let line = "1700000000.000\t42\t\t\t2001:db8::1\t2001:db8::2\t\t\t53\t5353\tUDP\t\t\t\t\t\t\t\t\t";
    let row = parse_line(line).unwrap();
    assert_eq!(row.proto, Some(L4Proto::Udp));
    assert_eq!(row.src, Some(IpAddr::V6(0x2001_0db8_0000_0000_0000_0000_0000_0001)));
    assert_eq!(row.src_port, Some(53));
    assert_eq!(row.dst_port, Some(5353));
}

#[test]
fn parse_tshark_fields_line_hostname_hints() {
    let line = "1700000001.000\t74\t10.0.0.2\t1.1.1.1\t\t\t55555\t443\t\t\tTLS\t0x0018\t\t\texample.com\t0\t\t\twww.example.org\texample.com";
    let row = parse_line(line).unwrap();
    assert_eq!(row.dns_qname.as_deref(), Some("example.com"));
    assert_eq!(row.dns_rcode, Some(0));
    assert_eq!(row.tls_sni.as_deref(), Some("www.example.org"));
    assert_eq!(row.http_host.as_deref(), Some("example.com"));
    assert!(!row.tcp_retransmission);
    assert!(!row.tcp_out_of_order);
}

#[test]
fn short_field_lines_are_rejected() {
    assert!(tshark_fields("1700000000.0\t60\t1.2.3.4").is_none());
}

#[test]
fn exit_status_wording() {
    assert_eq!(format_tshark_exit_status(false, Some(2), None), "[tshark exited: code 2]");
    assert_eq!(format_tshark_exit_status(true, Some(0), None), "[tshark exited: success]");
    assert_eq!(format_tshark_exit_status(false, None, Some(9)), "[tshark exited: signal 9]");
    assert_eq!(format_tshark_exit_status(false, None, None), "[tshark exited: unknown status]");
}

#[test]
fn a_printed_interface_listing_reads_back() {
    let entries: Vec<(usize, &str, Option<&str>)> =
        vec![(1, "en0", Some("Wi-Fi (home)")), (2, "lo0", None), (12, "bridge.100", Some("Thunderbolt Bridge"))];
    let mut printed = String::new();
    for (i, n, d) in &entries {
        match d {
            Some(d) => printed.push_str(&format!("{}. {} ({})\n", i, n, d)),
            None => printed.push_str(&format!("{}. {}\n", i, n)),
        }
    }
    let back = parse_tshark_ifaces_output(&printed);
    assert_eq!(back.len(), entries.len());
    for (e, (i, n, d)) in back.iter().zip(entries.iter()) {
        assert_eq!(e.index, *i);
        assert_eq!(e.name, *n);
        assert_eq!(e.desc.as_deref(), *d);
    }
}
