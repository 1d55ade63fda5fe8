//! Packets: addresses, flow keys and the per-packet rows decoded from captured frames.
use vstd::prelude::*;
use crate::text::{dec_seq, hex_seq, push_decimal, push_hex, push_str, string_of};
use crate::hints::{
    dns_qname_spec, dns_rcode_spec, http_host_spec, opt_text, populate_hints, tls_sni_spec,
    tls_version_spec,
};

verus! {

/// An IP address; `V4` holds the four octets big-endian, `V6` the sixteen.
#[derive(Debug, Clone, Copy, PartialEq, Eq, Hash, Structural)]
pub enum IpAddr {
    V4(u32),
    V6(u128),
}

#[derive(Debug, Clone, Copy, PartialEq, Eq, Hash, Structural)]
pub enum L4Proto {
    Tcp,
    Udp,
    Other(u8),
}

#[derive(Debug, Clone, Copy, PartialEq, Eq, Hash, Structural)]
pub enum FlowDir {
    AtoB,
    BtoA,
}

#[derive(Debug, Clone, Copy, PartialEq, Eq, Hash, Structural)]
pub struct FlowKey {
    pub src: IpAddr,
    pub dst: IpAddr,
    pub src_port: u16,
    pub dst_port: u16,
    pub proto: L4Proto,
}

/// Address order: every IPv4 address before every IPv6 one, each family by value.
pub open spec fn ip_lt(a: IpAddr, b: IpAddr) -> bool {
    match (a, b) {
        (IpAddr::V4(x), IpAddr::V4(y)) => x < y,
        (IpAddr::V4(_), IpAddr::V6(_)) => true,
        (IpAddr::V6(_), IpAddr::V4(_)) => false,
        (IpAddr::V6(x), IpAddr::V6(y)) => x < y,
    }
}

/// Endpoint order: by address, then by port.
pub open spec fn endpoint_lt(a: IpAddr, pa: u16, b: IpAddr, pb: u16) -> bool {
    ip_lt(a, b) || (a == b && pa < pb)
}

pub open spec fn reversed(k: FlowKey) -> FlowKey {
    FlowKey { src: k.dst, dst: k.src, src_port: k.dst_port, dst_port: k.src_port, proto: k.proto }
}

/// The conversation key of `k`: the smaller endpoint first, and whether `k` had to be turned round.
pub open spec fn canonical_of(k: FlowKey) -> (FlowKey, bool) {
    if endpoint_lt(k.dst, k.dst_port, k.src, k.src_port) {
        (reversed(k), true)
    } else {
        (k, false)
    }
}

pub fn ip_less(a: IpAddr, b: IpAddr) -> (r: bool)
    ensures
        r == ip_lt(a, b),
{
    match (a, b) {
        (IpAddr::V4(x), IpAddr::V4(y)) => x < y,
        (IpAddr::V4(_), IpAddr::V6(_)) => true,
        (IpAddr::V6(_), IpAddr::V4(_)) => false,
        (IpAddr::V6(x), IpAddr::V6(y)) => x < y,
    }
}

pub fn endpoint_less(a: IpAddr, pa: u16, b: IpAddr, pb: u16) -> (r: bool)
    ensures
        r == endpoint_lt(a, pa, b, pb),
{
    ip_less(a, b) || (a == b && pa < pb)
}

impl FlowKey {
    /// Canonicalize direction so A→B and B→A collapse into one conversation key.
    /// Returns the canonical key and whether `self` was flipped to get it.
    pub fn canonical(&self) -> (r: (FlowKey, bool))
        ensures
            r == canonical_of(*self),
    {
        if endpoint_less(self.dst, self.dst_port, self.src, self.src_port) {
            (
                FlowKey {
                    src: self.dst,
                    dst: self.src,
                    src_port: self.dst_port,
                    dst_port: self.src_port,
                    proto: self.proto,
                },
                true,
            )
        } else {
            (*self, false)
        }
    }
}

/// A key and its reverse have the same conversation key, and exactly one of them
/// is flipped unless both endpoints coincide; the conversation key is its own
/// conversation key.
pub proof fn lemma_canonical_collapses_directions(k: FlowKey)
    ensures
        canonical_of(reversed(k)).0 == canonical_of(k).0,
        (k.src != k.dst || k.src_port != k.dst_port) ==> canonical_of(reversed(k)).1
            != canonical_of(k).1,
        canonical_of(canonical_of(k).0) == (canonical_of(k).0, false),
        canonical_of(k).1 ==> canonical_of(k).0 == reversed(k),
        !canonical_of(k).1 ==> canonical_of(k).0 == k,
{
}

/// The dotted-quad text of an IPv4 address.
pub open spec fn ipv4_text(v: u32) -> Seq<char> {
    dec_seq((v / 16777216) as nat) + seq!['.'] + dec_seq(((v / 65536) % 256) as nat) + seq!['.']
        + dec_seq(((v / 256) % 256) as nat) + seq!['.'] + dec_seq((v % 256) as nat)
}

/// The `i`-th 16-bit group of an IPv6 address, most significant first.
pub open spec fn ipv6_seg(b: u128, i: nat) -> u16 {
    ((b >> ((112 - 16 * i) as u128)) & 0xffff) as u16
}

pub open spec fn ipv6_segs(b: u128) -> Seq<u16> {
    Seq::new(8, |i: int| ipv6_seg(b, i as nat))
}

/// Groups in lower-case hex, joined by colons.
pub open spec fn hex_join(s: Seq<u16>) -> Seq<char>
    decreases s.len(),
{
    if s.len() == 0 {
        Seq::empty()
    } else if s.len() == 1 {
        hex_seq(s[0] as nat)
    } else {
        hex_join(s.drop_last()) + seq![':'] + hex_seq(s.last() as nat)
    }
}

/// Scan of the first `n` groups for runs of zero groups: the current run
/// (start, length) and the first longest run so far (start, length).
pub open spec fn zero_scan(s: Seq<u16>, n: nat) -> (nat, nat, nat, nat)
    decreases n,
{
    if n == 0 {
        (0, 0, 0, 0)
    } else {
        let (cs, cl, bs, bl) = zero_scan(s, (n - 1) as nat);
        if s[n - 1] == 0 {
            let start: nat = if cl == 0 { (n - 1) as nat } else { cs };
            if cl + 1 > bl {
                (start, cl + 1, start, cl + 1)
            } else {
                (start, cl + 1, bs, bl)
            }
        } else {
            (0, 0, bs, bl)
        }
    }
}

pub open spec fn is_ipv4_mapped(b: u128) -> bool {
    let s = ipv6_segs(b);
    s[0] == 0 && s[1] == 0 && s[2] == 0 && s[3] == 0 && s[4] == 0 && s[5] == 0xffff
}

/// The text of an IPv6 address: IPv4-mapped addresses as `::ffff:a.b.c.d`,
/// otherwise hex groups with the first longest run of two or more zero
/// groups written as `::`.
pub open spec fn ipv6_text(b: u128) -> Seq<char> {
    let s = ipv6_segs(b);
    if is_ipv4_mapped(b) {
        "::ffff:"@ + ipv4_text((b % 0x1_0000_0000) as u32)
    } else {
        let (_cs, _cl, bs, bl) = zero_scan(s, 8);
        if bl > 1 {
            hex_join(s.subrange(0, bs as int)) + "::"@ + hex_join(s.subrange((bs + bl) as int, 8))
        } else {
            hex_join(s)
        }
    }
}

pub open spec fn ip_text(ip: IpAddr) -> Seq<char> {
    match ip {
        IpAddr::V4(v) => ipv4_text(v),
        IpAddr::V6(b) => ipv6_text(b),
    }
}

pub(crate) fn ipv6_segments(b: u128) -> (r: Vec<u16>)
    ensures
        r@ == ipv6_segs(b),
{
    let mut r: Vec<u16> = Vec::new();
    let mut i: u32 = 0;
    while i < 8
        invariant
            i <= 8,
            r@.len() == i,
            forall|j: int| 0 <= j < i ==> r@[j] == ipv6_seg(b, j as nat),
        decreases 8 - i,
    {
        let g = ((b >> (112 - 16 * i)) & 0xffff) as u16;
        assert(g == ipv6_seg(b, i as nat));
        r.push(g);
        i = i + 1;
    }
    assert(r@ =~= ipv6_segs(b));
    r
}

/// Append groups `lo..hi` of `s` in hex, joined by colons.
fn push_hex_groups(v: &mut Vec<char>, s: &Vec<u16>, lo: usize, hi: usize)
    requires
        lo <= hi <= s@.len(),
    ensures
        final(v)@ == old(v)@ + hex_join(s@.subrange(lo as int, hi as int)),
{
    let mut i: usize = lo;
    while i < hi
        invariant
            lo <= i <= hi,
            hi <= s@.len(),
            v@ == old(v)@ + hex_join(s@.subrange(lo as int, i as int)),
        decreases hi - i,
    {
        let ghost before = v@;
        if i > lo {
            v.push(':');
        }
        push_hex(v, s[i] as u64);
        proof {
            let sub = s@.subrange(lo as int, i + 1);
            assert(sub.drop_last() =~= s@.subrange(lo as int, i as int));
            if i == lo {
                assert(sub.len() == 1);
            }
        }
        i = i + 1;
    }
}

/// Append the text of an IPv6 address.
fn push_ipv6(v: &mut Vec<char>, b: u128)
    ensures
        final(v)@ == old(v)@ + ipv6_text(b),
{
    let s = ipv6_segments(b);
    if s[0] == 0 && s[1] == 0 && s[2] == 0 && s[3] == 0 && s[4] == 0 && s[5] == 0xffff {
        push_str(v, "::ffff:");
        push_ipv4(v, (b % 0x1_0000_0000) as u32);
        return;
    }
    let mut cs: usize = 0;
    let mut cl: usize = 0;
    let mut bs: usize = 0;
    let mut bl: usize = 0;
    let mut n: usize = 0;
    while n < 8
        invariant
            n <= 8,
            s@.len() == 8,
            zero_scan(s@, n as nat) == (cs as nat, cl as nat, bs as nat, bl as nat),
            cl <= n,
            bl <= n,
            bs + bl <= n,
            cs + cl == n || cl == 0,
        decreases 8 - n,
    {
        if s[n] == 0 {
            if cl == 0 {
                cs = n;
            }
            cl = cl + 1;
            if cl > bl {
                bs = cs;
                bl = cl;
            }
        } else {
            cs = 0;
            cl = 0;
        }
        n = n + 1;
    }
    if bl > 1 {
        push_hex_groups(v, &s, 0, bs);
        push_str(v, "::");
        push_hex_groups(v, &s, bs + bl, 8);
    } else {
        push_hex_groups(v, &s, 0, 8);
        assert(s@.subrange(0, 8) =~= s@);
    }
}

fn push_ipv4(v: &mut Vec<char>, x: u32)
    ensures
        final(v)@ == old(v)@ + ipv4_text(x),
{
    push_decimal(v, (x / 16777216) as u64);
    v.push('.');
    push_decimal(v, ((x / 65536) % 256) as u64);
    v.push('.');
    push_decimal(v, ((x / 256) % 256) as u64);
    v.push('.');
    push_decimal(v, (x % 256) as u64);
    assert(v@ =~= old(v)@ + ipv4_text(x));
}

/// Append the textual form of `ip`.
pub fn push_ip(v: &mut Vec<char>, ip: IpAddr)
    ensures
        final(v)@ == old(v)@ + ip_text(ip),
{
    match ip {
        IpAddr::V4(x) => push_ipv4(v, x),
        IpAddr::V6(b) => push_ipv6(v, b),
    }
}

/// One captured packet, decoded as far as the network and transport layers.
pub struct PacketRow {
    pub index: usize,
    /// Capture time, nanoseconds since the Unix epoch.
    pub ts: i64,
    pub len: usize,
    pub src: Option<IpAddr>,
    pub dst: Option<IpAddr>,
    pub proto: Option<L4Proto>,
    pub src_port: Option<u16>,
    pub dst_port: Option<u16>,
    pub summary: String,
    pub flow: Option<FlowKey>,
    pub flow_dir: Option<FlowDir>,
    pub tcp_seq: Option<u32>,
    pub tcp_ack: Option<u32>,
    pub tcp_flags: Option<u16>,
    pub payload: Vec<u8>,
    pub tcp_retransmission: bool,
    pub tcp_out_of_order: bool,
    pub dns_qname: Option<String>,
    pub dns_rcode: Option<u16>,
    pub http_host: Option<String>,
    pub tls_sni: Option<String>,
    pub tls_version: Option<u16>,
}

pub open spec fn proto_debug_text(p: L4Proto) -> Seq<char> {
    match p {
        L4Proto::Tcp => "Tcp"@,
        L4Proto::Udp => "Udp"@,
        L4Proto::Other(n) => "Other("@ + dec_seq(n as nat) + ")"@,
    }
}

/// The one-line packet summary shown in the packets list.
pub open spec fn summary_text(
    src: Option<IpAddr>,
    dst: Option<IpAddr>,
    proto: Option<L4Proto>,
    sp: Option<u16>,
    dp: Option<u16>,
    has_payload: bool,
    len: nat,
) -> Seq<char> {
    match (src, dst, proto, sp, dp) {
        (Some(s), Some(d), Some(L4Proto::Tcp), Some(a), Some(b)) => "TCP "@ + ip_text(s) + ":"@
            + dec_seq(a as nat) + " → "@ + ip_text(d) + ":"@ + dec_seq(b as nat) + (if has_payload {
            " payload"@
        } else {
            ""@
        }),
        (Some(s), Some(d), Some(L4Proto::Udp), Some(a), Some(b)) => "UDP "@ + ip_text(s) + ":"@
            + dec_seq(a as nat) + " → "@ + ip_text(d) + ":"@ + dec_seq(b as nat) + " len="@
            + dec_seq(len),
        (Some(s), Some(d), Some(p), _, _) => proto_debug_text(p) + " "@ + ip_text(s) + " → "@
            + ip_text(d) + " len="@ + dec_seq(len),
        _ => "len="@ + dec_seq(len),
    }
}

pub open spec fn row_summary_text(r: &PacketRow) -> Seq<char> {
    summary_text(r.src, r.dst, r.proto, r.src_port, r.dst_port, r.payload@.len() > 0, r.len as nat)
}

/// The summary line for a decoded row.
pub fn summarize(row: &PacketRow) -> (s: String)
    ensures
        s@ == row_summary_text(row),
{
    let mut v: Vec<char> = Vec::new();
    match (row.src, row.dst, row.proto, row.src_port, row.dst_port) {
        (Some(s), Some(d), Some(L4Proto::Tcp), Some(a), Some(b)) => {
            push_str(&mut v, "TCP ");
            push_ip(&mut v, s);
            push_str(&mut v, ":");
            push_decimal(&mut v, a as u64);
            push_str(&mut v, " → ");
            push_ip(&mut v, d);
            push_str(&mut v, ":");
            push_decimal(&mut v, b as u64);
            if row.payload.len() > 0 {
                push_str(&mut v, " payload");
            } else {
                push_str(&mut v, "");
            }
        },
        (Some(s), Some(d), Some(L4Proto::Udp), Some(a), Some(b)) => {
            push_str(&mut v, "UDP ");
            push_ip(&mut v, s);
            push_str(&mut v, ":");
            push_decimal(&mut v, a as u64);
            push_str(&mut v, " → ");
            push_ip(&mut v, d);
            push_str(&mut v, ":");
            push_decimal(&mut v, b as u64);
            push_str(&mut v, " len=");
            push_decimal(&mut v, row.len as u64);
        },
        (Some(s), Some(d), Some(p), _, _) => {
            match p {
                L4Proto::Tcp => push_str(&mut v, "Tcp"),
                L4Proto::Udp => push_str(&mut v, "Udp"),
                L4Proto::Other(n) => {
                    push_str(&mut v, "Other(");
                    push_decimal(&mut v, n as u64);
                    push_str(&mut v, ")");
                },
            }
            push_str(&mut v, " ");
            push_ip(&mut v, s);
            push_str(&mut v, " → ");
            push_ip(&mut v, d);
            push_str(&mut v, " len=");
            push_decimal(&mut v, row.len as u64);
        },
        _ => {
            push_str(&mut v, "len=");
            push_decimal(&mut v, row.len as u64);
        },
    }
    string_of(&v)
}

/// The transport layer that the packet slicer found: ports, TCP sequence and
/// acknowledgement numbers, the two TCP header bytes that hold the flags, and the payload.
pub struct TransportLayer {
    pub tcp: bool,
    pub src_port: u16,
    pub dst_port: u16,
    pub seq: u32,
    pub ack: u32,
    pub flags_hi: u8,
    pub flags_lo: u8,
    pub payload: Vec<u8>,
}

/// What the packet slicer found in a frame: the IP addresses and the TCP/UDP layer.
pub struct FrameLayers {
    pub addrs: Option<(IpAddr, IpAddr)>,
    pub transport: Option<TransportLayer>,
}

pub ghost struct TransportModel {
    pub tcp: bool,
    pub src_port: u16,
    pub dst_port: u16,
    pub seq: u32,
    pub ack: u32,
    pub flags_hi: u8,
    pub flags_lo: u8,
    pub payload: Seq<u8>,
}

pub ghost struct FrameModel {
    pub addrs: Option<(IpAddr, IpAddr)>,
    pub transport: Option<TransportModel>,
}

pub open spec fn transport_model(t: TransportLayer) -> TransportModel {
    TransportModel {
        tcp: t.tcp,
        src_port: t.src_port,
        dst_port: t.dst_port,
        seq: t.seq,
        ack: t.ack,
        flags_hi: t.flags_hi,
        flags_lo: t.flags_lo,
        payload: t.payload@,
    }
}

pub open spec fn frame_model(f: Option<FrameLayers>) -> Option<FrameModel> {
    match f {
        None => None,
        Some(l) => Some(
            FrameModel {
                addrs: l.addrs,
                transport: match l.transport {
                    None => None,
                    Some(t) => Some(transport_model(t)),
                },
            },
        ),
    }
}

/// What `etherparse::SlicedPacket::from_ethernet` finds in a frame (when it accepts it).
pub uninterp spec fn ethernet_frame(data: Seq<u8>) -> Option<FrameModel>;

/// What `etherparse::SlicedPacket::from_ip` finds in a raw IP packet (when it accepts it).
pub uninterp spec fn ip_packet(data: Seq<u8>) -> Option<FrameModel>;

#[verifier::external_type_specification]
#[verifier::external_body]
pub struct ExSlicedPacket<'a>(etherparse::SlicedPacket<'a>);

/// Reads the source and destination address of the IPv4 or IPv6 header of a sliced packet.
#[verifier::external_body]
fn net_addrs(s: &etherparse::SlicedPacket) -> Option<(IpAddr, IpAddr)> {
    match &s.net {
        Some(etherparse::NetSlice::Ipv4(v)) => Some(
            (IpAddr::V4(u32::from_be_bytes(v.header().source())), IpAddr::V4(u32::from_be_bytes(v.header().destination()))),
        ),
        Some(etherparse::NetSlice::Ipv6(v)) => Some(
            (IpAddr::V6(u128::from_be_bytes(v.header().source())), IpAddr::V6(u128::from_be_bytes(v.header().destination()))),
        ),
        None => None,
    }
}

/// Reads ports, sequence numbers, flag bytes and payload of the TCP or UDP layer of a sliced packet.
#[verifier::external_body]
fn transport_layer(s: &etherparse::SlicedPacket) -> Option<TransportLayer> {
    match &s.transport {
        Some(etherparse::TransportSlice::Tcp(t)) => Some(TransportLayer { tcp: true, src_port: t.source_port(), dst_port: t.destination_port(), seq: t.sequence_number(), ack: t.acknowledgment_number(), flags_hi: t.header_slice()[12], flags_lo: t.header_slice()[13], payload: t.payload().to_vec() }),
        Some(etherparse::TransportSlice::Udp(u)) => Some(TransportLayer { tcp: false, src_port: u.source_port(), dst_port: u.destination_port(), seq: 0, ack: 0, flags_hi: 0, flags_lo: 0, payload: u.payload().to_vec() }),
        _ => None,
    }
}

/// `etherparse::SlicedPacket::from_ethernet`: slices an Ethernet II frame down to
/// its IP and TCP/UDP layers; the outcome depends on the bytes alone.
#[verifier::external_body]
fn slice_ethernet(data: &[u8]) -> (r: Option<FrameLayers>)
    ensures
        frame_model(r) == ethernet_frame(data@),
{
    let s = etherparse::SlicedPacket::from_ethernet(data).ok()?;
    Some(FrameLayers { addrs: net_addrs(&s), transport: transport_layer(&s) })
}

/// `etherparse::SlicedPacket::from_ip`: slices a packet that starts with its IP
/// header; the outcome depends on the bytes alone.
#[verifier::external_body]
fn slice_ip(data: &[u8]) -> (r: Option<FrameLayers>)
    ensures
        frame_model(r) == ip_packet(data@),
{
    let s = etherparse::SlicedPacket::from_ip(data).ok()?;
    Some(FrameLayers { addrs: net_addrs(&s), transport: transport_layer(&s) })
}

/// The layers of a captured frame: read as Ethernet II first, as raw IP otherwise.
pub open spec fn decoded_layers(data: Seq<u8>) -> Option<FrameModel> {
    match ethernet_frame(data) {
        Some(f) => Some(f),
        None => ip_packet(data),
    }
}

/// The TCP flags of a header: the low four bits of byte 12 and all of byte 13.
pub open spec fn tcp_flags_of(hi: u8, lo: u8) -> u16 {
    ((hi % 16) as u16 * 256 + lo as u16) as u16
}

/// The directed key of a packet, when it has both addresses, a protocol and both ports.
pub open spec fn packet_flow_key(
    src: Option<IpAddr>,
    dst: Option<IpAddr>,
    proto: Option<L4Proto>,
    sp: Option<u16>,
    dp: Option<u16>,
) -> Option<FlowKey> {
    match (src, dst, proto, sp, dp) {
        (Some(s), Some(d), Some(p), Some(a), Some(b)) => Some(
            FlowKey { src: s, dst: d, src_port: a, dst_port: b, proto: p },
        ),
        _ => None,
    }
}

pub open spec fn flow_dir_of(k: Option<FlowKey>) -> Option<FlowDir> {
    match k {
        None => None,
        Some(key) => Some(
            if canonical_of(key).1 {
                FlowDir::BtoA
            } else {
                FlowDir::AtoB
            },
        ),
    }
}

/// Set the directed flow key and the direction of a row from its addresses, protocol and ports.
pub fn assign_flow(row: &mut PacketRow)
    ensures
        final(row).flow == packet_flow_key(old(row).src, old(row).dst, old(row).proto, old(row).src_port, old(row).dst_port),
        final(row).flow_dir == flow_dir_of(final(row).flow),
        final(row).index == old(row).index,
        final(row).ts == old(row).ts,
        final(row).len == old(row).len,
        final(row).src == old(row).src,
        final(row).dst == old(row).dst,
        final(row).proto == old(row).proto,
        final(row).src_port == old(row).src_port,
        final(row).dst_port == old(row).dst_port,
        final(row).summary@ == old(row).summary@,
        final(row).tcp_seq == old(row).tcp_seq,
        final(row).tcp_ack == old(row).tcp_ack,
        final(row).tcp_flags == old(row).tcp_flags,
        final(row).payload@ == old(row).payload@,
        final(row).tcp_retransmission == old(row).tcp_retransmission,
        final(row).tcp_out_of_order == old(row).tcp_out_of_order,
        final(row).dns_qname == old(row).dns_qname,
        final(row).dns_rcode == old(row).dns_rcode,
        final(row).http_host == old(row).http_host,
        final(row).tls_sni == old(row).tls_sni,
        final(row).tls_version == old(row).tls_version,
{
    match (row.src, row.dst, row.proto, row.src_port, row.dst_port) {
        (Some(s), Some(d), Some(p), Some(a), Some(b)) => {
            let fk = FlowKey { src: s, dst: d, src_port: a, dst_port: b, proto: p };
            let (_canon, flipped) = fk.canonical();
            row.flow_dir = Some(
                if flipped {
                    FlowDir::BtoA
                } else {
                    FlowDir::AtoB
                },
            );
            row.flow = Some(fk);
        },
        _ => {
            row.flow = None;
            row.flow_dir = None;
        },
    }
}

/// The text of a row whose frame could not be decoded.
pub open spec fn undecoded_summary(len: nat) -> Seq<char> {
    "len="@ + dec_seq(len) + " (undecoded)"@
}

/// What the row `index` at time `ts` of a frame of `len` bytes is, given the
/// layers the slicer found in it (none when it found none): see `row_from_layers`.
pub open spec fn layers_decode_to(r: PacketRow, index: usize, ts: i64, len: nat, layers: Option<FrameModel>) -> bool {
    &&& r.index == index
    &&& r.ts == ts
    &&& r.len == len
    &&& !r.tcp_retransmission
    &&& !r.tcp_out_of_order
    &&& match layers {
        None => r.src is None && r.dst is None && r.proto is None && r.src_port is None
                && r.dst_port is None && r.payload@.len() == 0 && r.tcp_seq is None && r.tcp_ack is None
                && r.tcp_flags is None && r.summary@ == undecoded_summary(len),
            Some(f) => {
                &&& r.src == (match f.addrs { Some((a, _b)) => Some(a), None => None })
                &&& r.dst == (match f.addrs { Some((_a, b)) => Some(b), None => None })
                &&& match f.transport {
                    None => r.proto is None && r.src_port is None && r.dst_port is None
                        && r.payload@.len() == 0 && r.tcp_seq is None && r.tcp_ack is None
                        && r.tcp_flags is None,
                    Some(t) => r.proto == Some(if t.tcp { L4Proto::Tcp } else { L4Proto::Udp })
                        && r.src_port == Some(t.src_port) && r.dst_port == Some(t.dst_port)
                        && r.payload@ == t.payload
                        && r.tcp_seq == (if t.tcp { Some(t.seq) } else { None })
                        && r.tcp_ack == (if t.tcp { Some(t.ack) } else { None })
                        && r.tcp_flags == (if t.tcp { Some(tcp_flags_of(t.flags_hi, t.flags_lo)) } else { None }),
                }
                &&& r.summary@ == row_summary_text(&r)
            },
        }
    &&& r.flow == packet_flow_key(r.src, r.dst, r.proto, r.src_port, r.dst_port)
    &&& r.flow_dir == flow_dir_of(r.flow)
    &&& opt_text(r.dns_qname) == dns_qname_spec(r.payload@)
    &&& r.dns_rcode == dns_rcode_spec(r.payload@)
    &&& opt_text(r.http_host) == http_host_spec(r.payload@)
    &&& opt_text(r.tls_sni) == tls_sni_spec(r.payload@)
    &&& r.tls_version == tls_version_spec(r.payload@)
}

/// What decoding the frame `data` as row `index` at time `ts` gives: see `decode_packet`.
pub open spec fn decodes_to(r: PacketRow, index: usize, ts: i64, data: Seq<u8>) -> bool {
    layers_decode_to(r, index, ts, data.len(), decoded_layers(data))
}

/// The row `index` at time `ts` of a frame of `len` bytes whose layers the
/// slicer found (or did not): addresses, ports, TCP fields and payload copied
/// over, then the flow key, direction, payload hints and summary.
pub fn row_from_layers(index: usize, ts: i64, len: usize, layers: Option<FrameLayers>) -> (r: PacketRow)
    ensures
        layers_decode_to(r, index, ts, len as nat, frame_model(layers)),
{
    let mut row = PacketRow {
        index,
        ts,
        len,
        src: None,
        dst: None,
        proto: None,
        src_port: None,
        dst_port: None,
        summary: String::new(),
        flow: None,
        flow_dir: None,
        tcp_seq: None,
        tcp_ack: None,
        tcp_flags: None,
        payload: Vec::new(),
        tcp_retransmission: false,
        tcp_out_of_order: false,
        dns_qname: None,
        dns_rcode: None,
        http_host: None,
        tls_sni: None,
        tls_version: None,
    };
    match layers {
        None => {
            let mut v: Vec<char> = Vec::new();
            push_str(&mut v, "len=");
            push_decimal(&mut v, len as u64);
            push_str(&mut v, " (undecoded)");
            row.summary = string_of(&v);
            populate_hints(&mut row);
            row
        },
        Some(l) => {
            match l.addrs {
                Some((a, b)) => {
                    row.src = Some(a);
                    row.dst = Some(b);
                },
                None => {},
            }
            match l.transport {
                Some(t) => {
                    row.src_port = Some(t.src_port);
                    row.dst_port = Some(t.dst_port);
                    if t.tcp {
                        row.proto = Some(L4Proto::Tcp);
                        row.tcp_seq = Some(t.seq);
                        row.tcp_ack = Some(t.ack);
                        row.tcp_flags = Some(((t.flags_hi % 16) as u16) * 256 + t.flags_lo as u16);
                    } else {
                        row.proto = Some(L4Proto::Udp);
                    }
                    row.payload = t.payload;
                },
                None => {},
            }
            assign_flow(&mut row);
            populate_hints(&mut row);
            row.summary = summarize(&row);
            row
        },
    }
}

/// Decode the network and transport layers of a captured frame into a packet row,
/// with its flow key, direction, summary and payload hints.
pub fn decode_packet(index: usize, ts: i64, data: &[u8]) -> (r: PacketRow)
    ensures
        decodes_to(r, index, ts, data@),
{
    let layers = match slice_ethernet(data) {
        Some(l) => Some(l),
        None => slice_ip(data),
    };
    assert(frame_model(layers) == decoded_layers(data@));
    row_from_layers(index, ts, data.len(), layers)
}


// ------------------------------------------------------------ address blocks

/// An address block: an address and a prefix length (at most 32 for IPv4,
/// 128 for IPv6).
#[derive(Debug, Clone, Copy, PartialEq, Eq, Structural)]
pub struct IpNetwork {
    pub addr: IpAddr,
    pub prefix_len: u8,
}

pub open spec fn prefix_ok(n: IpNetwork) -> bool {
    match n.addr {
        IpAddr::V4(_) => n.prefix_len <= 32,
        IpAddr::V6(_) => n.prefix_len <= 128,
    }
}

/// What `ipnet::IpNet`'s `FromStr` makes of a text: `a.b.c.d/len` or an IPv6
/// address and a length, nothing else.
pub uninterp spec fn ipnet_parse(s: Seq<char>) -> Option<IpNetwork>;

/// `s.parse::<ipnet::IpNet>()`, read back as an address and a prefix length;
/// the parser only accepts lengths up to 32 (IPv4) or 128 (IPv6).
#[verifier::external_body]
fn parse_ip_net(s: &str) -> (r: Option<IpNetwork>)
    ensures
        r == ipnet_parse(s@),
        r matches Some(n) ==> prefix_ok(n),
{
    match s.parse::<ipnet::IpNet>() {
        Ok(ipnet::IpNet::V4(n)) => Some(IpNetwork { addr: IpAddr::V4(u32::from(n.addr())), prefix_len: n.prefix_len() }),
        Ok(ipnet::IpNet::V6(n)) => Some(IpNetwork { addr: IpAddr::V6(u128::from(n.addr())), prefix_len: n.prefix_len() }),
        Err(_) => None,
    }
}

pub open spec fn v4_netmask(p: u8) -> u32 {
    if p == 0 { 0 } else { (0xffff_ffffu32 << ((32 - p) as u32)) as u32 }
}

pub open spec fn v4_hostmask(p: u8) -> u32 {
    if p >= 32 { 0 } else { (0xffff_ffffu32 >> (p as u32)) as u32 }
}

pub open spec fn v6_netmask(p: u8) -> u128 {
    if p == 0 { 0 } else { (0xffff_ffff_ffff_ffff_ffff_ffff_ffff_ffffu128 << ((128 - p) as u32)) as u128 }
}

pub open spec fn v6_hostmask(p: u8) -> u128 {
    if p >= 128 { 0 } else { (0xffff_ffff_ffff_ffff_ffff_ffff_ffff_ffffu128 >> (p as u32)) as u128 }
}

/// A block holds an address of its family between its network address (host
/// bits cleared) and its broadcast address (host bits set).
pub open spec fn net_contains(n: IpNetwork, ip: IpAddr) -> bool {
    match (n.addr, ip) {
        (IpAddr::V4(a), IpAddr::V4(b)) => (a & v4_netmask(n.prefix_len)) <= b && b <= (a | v4_hostmask(n.prefix_len)),
        (IpAddr::V6(a), IpAddr::V6(b)) => (a & v6_netmask(n.prefix_len)) <= b && b <= (a | v6_hostmask(n.prefix_len)),
        _ => false,
    }
}

fn net_contains_exec(n: &IpNetwork, ip: IpAddr) -> (r: bool)
    requires
        prefix_ok(*n),
    ensures
        r == net_contains(*n, ip),
{
    match (n.addr, ip) {
        (IpAddr::V4(a), IpAddr::V4(b)) => {
            let p = n.prefix_len;
            let nm: u32 = if p == 0 { 0 } else { 0xffff_ffffu32 << ((32 - p) as u32) };
            let hm: u32 = if p >= 32 { 0 } else { 0xffff_ffffu32 >> (p as u32) };
            (a & nm) <= b && b <= (a | hm)
        },
        (IpAddr::V6(a), IpAddr::V6(b)) => {
            let p = n.prefix_len;
            let nm: u128 = if p == 0 { 0 } else { 0xffff_ffff_ffff_ffff_ffff_ffff_ffff_ffffu128 << ((128 - p) as u32) };
            let hm: u128 = if p >= 128 { 0 } else { 0xffff_ffff_ffff_ffff_ffff_ffff_ffff_ffffu128 >> (p as u32) };
            (a & nm) <= b && b <= (a | hm)
        },
        _ => false,
    }
}

/// Whether any of the blocks holds `ip`.
pub fn ip_in_nets(ip: IpAddr, nets: &[IpNetwork]) -> (r: bool)
    requires
        forall|i: int| 0 <= i < nets@.len() ==> prefix_ok(#[trigger] nets@[i]),
    ensures
        r == exists|i: int| 0 <= i < nets@.len() && net_contains(#[trigger] nets@[i], ip),
{
    let mut k: usize = 0;
    while k < nets.len()
        invariant
            k <= nets@.len(),
            forall|i: int| 0 <= i < nets@.len() ==> prefix_ok(#[trigger] nets@[i]),
            forall|i: int| 0 <= i < k ==> !net_contains(#[trigger] nets@[i], ip),
        decreases nets@.len() - k,
    {
        if net_contains_exec(&nets[k], ip) {
            assert(net_contains(nets@[k as int], ip));
            return true;
        }
        k = k + 1;
    }
    false
}

/// The non-blank, trimmed pieces of a comma-separated list.
pub open spec fn list_items(parts: Seq<Seq<char>>) -> Seq<Seq<char>>
    decreases parts.len(),
{
    if parts.len() == 0 {
        Seq::empty()
    } else {
        let rest = list_items(parts.drop_last());
        let t = crate::text::trim_seq(parts.last());
        if t.len() > 0 { rest.push(t) } else { rest }
    }
}

/// The blocks parsed from `items`, or the first item that does not parse.
pub open spec fn parse_items(items: Seq<Seq<char>>) -> Result<Seq<IpNetwork>, Seq<char>>
    decreases items.len(),
{
    if items.len() == 0 {
        Ok(Seq::empty())
    } else {
        match ipnet_parse(items[0]) {
            None => Err(items[0]),
            Some(n) => match parse_items(items.drop_first()) {
                Ok(r) => Ok(seq![n] + r),
                Err(e) => Err(e),
            },
        }
    }
}

/// A list item that is not an address block.
#[derive(Debug)]
pub struct CidrError {
    pub item: String,
}

/// Parse a comma-separated list of address blocks (`10.0.0.0/8, fd00::/8`);
/// blank items are skipped, and the first item that does not parse is the error.
pub fn parse_cidr_list(s: &str) -> (r: Result<Vec<IpNetwork>, CidrError>)
    ensures
        match parse_items(list_items(crate::text::split_seq(s@, seq![',']))) {
            Ok(v) => r is Ok && r->Ok_0@ == v,
            Err(e) => r is Err && r->Err_0.item@ == e,
        },
        r matches Ok(v) ==> forall|i: int| 0 <= i < v@.len() ==> prefix_ok(#[trigger] v@[i]),
{
    let cs = crate::text::chars_of(s);
    let mut sep: Vec<char> = Vec::new();
    sep.push(',');
    assert(sep@ =~= seq![',']);
    let parts = crate::text::split(cs.as_slice(), sep.as_slice());
    let ghost pv = crate::text::texts(parts@);
    assert(pv =~= crate::text::split_seq(s@, seq![',']));
    // the non-blank trimmed items
    let mut items: Vec<Vec<char>> = Vec::new();
    let mut k: usize = 0;
    while k < parts.len()
        invariant
            k <= parts@.len(),
            pv == crate::text::texts(parts@),
            crate::text::texts(items@) == list_items(pv.take(k as int)),
        decreases parts@.len() - k,
    {
        assert(pv.take(k + 1).drop_last() =~= pv.take(k as int));
        assert(pv[k as int] == parts@[k as int]@);
        let t = crate::text::trim(parts[k].as_slice());
        let ghost before = items@;
        if t.len() > 0 {
            items.push(t);
            assert(crate::text::texts(items@) =~= crate::text::texts(before).push(t@));
        }
        k = k + 1;
    }
    assert(pv.take(pv.len() as int) =~= pv);
    let ghost iv = crate::text::texts(items@);
    let mut nets: Vec<IpNetwork> = Vec::new();
    let mut k: usize = 0;
    assert(iv.skip(0) =~= iv);
    while k < items.len()
        invariant
            k <= items@.len(),
            iv == crate::text::texts(items@),
            iv == list_items(crate::text::split_seq(s@, seq![','])),
            forall|i: int| 0 <= i < nets@.len() ==> prefix_ok(#[trigger] nets@[i]),
            parse_items(iv) == match parse_items(iv.skip(k as int)) {
                Ok(rest) => Ok(nets@ + rest),
                Err(e) => Err(e),
            },
        decreases items@.len() - k,
    {
        let ghost rest = iv.skip(k as int);
        assert(rest[0] == items@[k as int]@);
        assert(rest.drop_first() =~= iv.skip(k + 1));
        let text = crate::text::str_of_chars(&items[k]);
        match parse_ip_net(text.as_str()) {
            None => {
                return Err(CidrError { item: text });
            },
            Some(n) => {
                let ghost before = nets@;
                nets.push(n);
                proof {
                    match parse_items(iv.skip(k + 1)) {
                        Ok(r2) => {
                            assert(before + (seq![n] + r2) =~= nets@ + r2);
                        },
                        Err(_) => {},
                    }
                }
            },
        }
        k = k + 1;
    }
    assert(iv.skip(k as int) =~= Seq::<Seq<char>>::empty());
    assert(nets@ + Seq::<IpNetwork>::empty() =~= nets@);
    Ok(nets)
}

} // verus!
