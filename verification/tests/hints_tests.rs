use babyshark::hints::{parse_dns_qname, parse_dns_rcode, parse_http_host, parse_tls_sni, parse_tls_version, populate_hints};
use babyshark::pcap::PacketRow;

fn payload_row(p: &[u8]) -> PacketRow {
    PacketRow {
        index: 0,
        ts: 0,
        len: p.len(),
        src: None,
        dst: None,
        proto: None,
        src_port: None,
        dst_port: None,
        summary: String::new(),
        flow: None,
        flow_dir: None,
        tcp_seq: None,
        tcp_ack: None,
        tcp_flags: None,
        payload: p.to_vec(),
        tcp_retransmission: false,
        tcp_out_of_order: false,
        dns_qname: None,
        dns_rcode: None,
        http_host: None,
        tls_sni: None,
        tls_version: None,
    }
}

fn wrap_handshake(hs_type: u8, hs_body: &[u8]) -> Vec<u8> {
    let hs_len = hs_body.len();
    let rec_len = hs_len + 4;
    let mut out = Vec::with_capacity(5 + rec_len);
    out.push(22);
    out.extend_from_slice(&[0x03, 0x03]);
    out.extend_from_slice(&(rec_len as u16).to_be_bytes());
    out.push(hs_type);
    out.push(((hs_len >> 16) & 0xff) as u8);
    out.push(((hs_len >> 8) & 0xff) as u8);
    out.push((hs_len & 0xff) as u8);
    out.extend_from_slice(hs_body);
    out
}

#[test]
fn http_host_is_extracted() {
    let p = b"GET / HTTP/1.1\r\nHost: Example.COM:443\r\n\r\n";
    assert_eq!(parse_http_host(p).as_deref(), Some("example.com"));
}

#[test]
fn http_host_needs_a_request_line() {
    assert_eq!(parse_http_host(b"HTTP/1.1 200 OK\r\nHost: a.com\r\n\r\n"), None);
    assert_eq!(parse_http_host(b"POST /x HTTP/1.1\r\nhost:   b.org  \r\n\r\n").as_deref(), Some("b.org"));
}

#[test]
fn dns_qname_empty_when_not_dns() {
    assert_eq!(parse_dns_qname(b"not dns"), None);
}

#[test]
fn dns_rcode_parses_nxdomain() {
    let p: Vec<u8> = vec![
        0x00, 0x01, 0x81, 0x83, 0x00, 0x01, 0x00, 0x00, 0x00, 0x00, 0x00, 0x00, 0x01, b'a', 0x03, b'c', b'o', b'm', 0x00,
        0x00, 0x01, 0x00, 0x01,
    ];
    let mut row = payload_row(&p);
    populate_hints(&mut row);
    assert_eq!(row.dns_qname.as_deref(), Some("a.com"));
    assert_eq!(row.dns_rcode, Some(3));
    assert_eq!(parse_dns_rcode(&p), Some(3));
}

#[test]
fn tls_version_extracts_from_server_hello() {
    let mut sh12 = Vec::new();
    sh12.extend_from_slice(&[0x03, 0x03]);
    sh12.extend_from_slice(&[0u8; 32]);
    sh12.push(0);
    sh12.extend_from_slice(&[0x13, 0x01]);
    sh12.push(0);
    sh12.extend_from_slice(&[0x00, 0x00]);
    let p12 = wrap_handshake(2, &sh12);
    assert_eq!(parse_tls_version(&p12), Some(0x0303));

    let mut sh13 = Vec::new();
    sh13.extend_from_slice(&[0x03, 0x03]);
    sh13.extend_from_slice(&[0u8; 32]);
    sh13.push(0);
    sh13.extend_from_slice(&[0x13, 0x01]);
    sh13.push(0);
    sh13.extend_from_slice(&[0x00, 0x06]);
    sh13.extend_from_slice(&[0x00, 0x2b, 0x00, 0x02, 0x03, 0x04]);
    let p13 = wrap_handshake(2, &sh13);
    assert_eq!(parse_tls_version(&p13), Some(0x0304));

    let ch = wrap_handshake(1, &[0u8; 34]);
    assert_eq!(parse_tls_version(&ch), None);

    assert_eq!(parse_tls_version(b"not tls"), None);
    assert_eq!(parse_tls_version(&[]), None);
}

#[test]
fn tls_sni_is_read_from_client_hello() {
    // ClientHello body: version, random, session id, ciphers, compression, extensions
    let name = b"www.example.org";
    let mut sni_ext = Vec::new();
    let list_len = (name.len() + 3) as u16;
    sni_ext.extend_from_slice(&[0x00, 0x00]);
    sni_ext.extend_from_slice(&(list_len + 2).to_be_bytes());
    sni_ext.extend_from_slice(&list_len.to_be_bytes());
    sni_ext.push(0);
    sni_ext.extend_from_slice(&(name.len() as u16).to_be_bytes());
    sni_ext.extend_from_slice(name);
    let mut ch = Vec::new();
    ch.extend_from_slice(&[0x03, 0x03]);
    ch.extend_from_slice(&[0u8; 32]);
    ch.push(0);
    ch.extend_from_slice(&[0x00, 0x02, 0x13, 0x01]);
    ch.extend_from_slice(&[0x01, 0x00]);
    ch.extend_from_slice(&(sni_ext.len() as u16).to_be_bytes());
    ch.extend_from_slice(&sni_ext);
    let p = wrap_handshake(1, &ch);
    assert_eq!(parse_tls_sni(&p).as_deref(), Some("www.example.org"));
    assert_eq!(parse_tls_sni(b"GET / HTTP/1.1\r\n"), None);
}
