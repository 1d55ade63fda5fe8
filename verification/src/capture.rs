//! Reading a capture: classic pcap or pcapng bytes into decoded packet rows.
use vstd::prelude::*;
use crate::pcap::{decode_packet, decodes_to, PacketRow};

verus! {

/// A `pcap_file` classic pcap reader over a capture's bytes.
#[verifier::external_body]
pub struct ClassicReader<'a> {
    inner: pcap_file::pcap::PcapReader<&'a [u8]>,
}

/// A `pcap_file` pcapng reader over a capture's bytes.
#[verifier::external_body]
pub struct PcapNgBlocks<'a> {
    inner: pcap_file::pcapng::PcapNgReader<&'a [u8]>,
}

/// A pcapng reader together with the bytes it was opened on.
pub struct PcapNgInput<'a> {
    blocks: PcapNgBlocks<'a>,
    data: &'a [u8],
}

#[verifier::external_type_specification]
#[verifier::external_body]
pub struct ExPcapError(pcap_file::PcapError);

/// What `pcap_file::pcap::PcapReader::new` makes of the bytes: none when the
/// global header does not parse; otherwise what the reader then has left (see
/// `classic_left`).
pub uninterp spec fn classic_open(data: Seq<u8>) -> Option<(Seq<(u64, u32, Seq<u8>)>, bool)>;

/// What a classic pcap reader has left: the packets (whole seconds,
/// nanoseconds, captured bytes) that `next_packet` returns in turn, and whether
/// a failing call, rather than the end of the data, comes after them.
pub uninterp spec fn classic_left(r: ClassicReader<'_>) -> (Seq<(u64, u32, Seq<u8>)>, bool);

/// What `pcap_file::pcapng::PcapNgReader::new` makes of the bytes: none when
/// the section header does not parse; otherwise what the reader then has left
/// (see `pcapng_left`).
pub uninterp spec fn pcapng_open(data: Seq<u8>) -> Option<(Seq<Option<Seq<u8>>>, bool)>;

/// What a pcapng reader has left: the blocks that `next_block` returns in turn
/// (the captured bytes of an enhanced packet block, nothing for other blocks),
/// and whether a failing call, rather than the end of the data, comes after them.
pub uninterp spec fn pcapng_left(r: PcapNgBlocks<'_>) -> (Seq<Option<Seq<u8>>>, bool);

/// The packets of a classic pcap file: none when the header or a record does not parse.
pub open spec fn pcap_classic_packets(data: Seq<u8>) -> Option<Seq<(u64, u32, Seq<u8>)>> {
    match classic_open(data) {
        Some((ps, failed)) => if failed { None } else { Some(ps) },
        None => None,
    }
}

/// The captured bytes of the enhanced packet blocks among `bs`, in order.
pub open spec fn packet_blocks(bs: Seq<Option<Seq<u8>>>) -> Seq<Seq<u8>>
    decreases bs.len(),
{
    if bs.len() == 0 {
        Seq::empty()
    } else {
        match bs.last() {
            Some(d) => packet_blocks(bs.drop_last()).push(d),
            None => packet_blocks(bs.drop_last()),
        }
    }
}

/// The enhanced packet blocks of a pcapng file: none when a block does not parse.
pub open spec fn pcapng_packets(data: Seq<u8>) -> Option<Seq<Seq<u8>>> {
    match pcapng_open(data) {
        Some((bs, failed)) => if failed { None } else { Some(packet_blocks(bs)) },
        None => None,
    }
}

pub open spec fn raw_view(v: Seq<(u64, u32, Vec<u8>)>) -> Seq<(u64, u32, Seq<u8>)> {
    v.map_values(|p: (u64, u32, Vec<u8>)| (p.0, p.1, p.2@))
}

pub open spec fn bytes_view(v: Seq<Vec<u8>>) -> Seq<Seq<u8>> {
    v.map_values(|p: Vec<u8>| p@)
}

/// A 16-bit field at `i`, little- or big-endian.
pub open spec fn field16(d: Seq<u8>, i: int, le: bool) -> int {
    if le { d[i] + 256 * d[i + 1] } else { 256 * d[i] + d[i + 1] }
}

/// A 32-bit field at `i`, little- or big-endian.
pub open spec fn field32(d: Seq<u8>, i: int, le: bool) -> int {
    if le {
        field16(d, i, true) + 65536 * field16(d, i + 2, true)
    } else {
        65536 * field16(d, i, false) + field16(d, i + 2, false)
    }
}

/// The name resolution records from `p` to `end`: each record (type, length,
/// value padded to four bytes) whose length fits also has room for its padding,
/// up to the end record.
pub open spec fn records_fit(d: Seq<u8>, p: int, end: int, le: bool) -> bool
    decreases end - p,
{
    if p < 0 || end > d.len() || end - p < 4 {
        true
    } else {
        let ty = field16(d, p, le);
        let len = field16(d, p + 2, le);
        let pad = (4 - len % 4) % 4;
        if end - p - 4 < len || ty == 0 {
            true
        } else if end - p - 4 < len + pad {
            false
        } else {
            records_fit(d, p + 4 + len + pad, end, le)
        }
    }
}

/// The block type of a pcapng section header.
pub const SECTION_HEADER: u64 = 0x0A0D0D0A;
/// A section header's byte-order magic, read big-endian, in a big-endian section.
pub const MAGIC_BIG: u64 = 0x1A2B3C4D;
/// The same magic, read big-endian, in a little-endian section.
pub const MAGIC_LITTLE: u64 = 0x4D3C2B1A;

/// The blocks from `pos` on, framed as `pcap_file` frames them (a section
/// header sets the byte order of what follows): every name resolution block's
/// records fit. The walk stops where the framing breaks, as reading does.
pub open spec fn blocks_fit(d: Seq<u8>, pos: int, le: bool) -> bool
    decreases d.len() - pos,
{
    if pos < 0 || d.len() - pos < 12 {
        true
    } else {
        let shb = field32(d, pos, le) == SECTION_HEADER;
        let magic = field32(d, pos + 8, false);
        if shb && magic != MAGIC_BIG && magic != MAGIC_LITTLE {
            true
        } else {
            let ble = if shb { magic == MAGIC_LITTLE } else { le };
            let blen = field32(d, pos + 4, ble);
            if blen % 4 != 0 || blen < 12 || d.len() - pos < blen || field32(d, pos + blen - 4, ble) != blen {
                true
            } else if !shb && field32(d, pos, le) == 4 && !records_fit(d, pos + 8, pos + blen - 4, le) {
                false
            } else {
                blocks_fit(d, pos + blen, ble)
            }
        }
    }
}

/// Every name resolution record of a pcapng file has room for its padding.
pub open spec fn pcapng_records_fit(data: Seq<u8>) -> bool {
    blocks_fit(data, 0, false)
}

/// Records that start a multiple of four bytes before their end always fit:
/// each record starts four-aligned, so a length that fits leaves room for its
/// padding.
proof fn lemma_aligned_records_fit(d: Seq<u8>, p: int, end: int, le: bool)
    requires
        (end - p) % 4 == 0,
    ensures
        records_fit(d, p, end, le),
    decreases end - p,
{
    if p < 0 || end > d.len() || end - p < 4 {
    } else {
        let len = field16(d, p + 2, le);
        let pad = (4 - len % 4) % 4;
        assert((len + pad) % 4 == 0);
        assert((end - p - 4) % 4 == 0);
        if end - p - 4 >= len {
            assert(end - p - 4 >= len + pad);
            lemma_aligned_records_fit(d, p + 4 + len + pad, end, le);
        }
    }
}

proof fn lemma_blocks_fit(d: Seq<u8>, pos: int, le: bool)
    ensures
        blocks_fit(d, pos, le),
    decreases d.len() - pos,
{
    if pos < 0 || d.len() - pos < 12 {
    } else {
        let shb = field32(d, pos, le) == SECTION_HEADER;
        let magic = field32(d, pos + 8, false);
        if shb && magic != MAGIC_BIG && magic != MAGIC_LITTLE {
        } else {
            let ble = if shb { magic == MAGIC_LITTLE } else { le };
            let blen = field32(d, pos + 4, ble);
            if blen % 4 != 0 || blen < 12 || d.len() - pos < blen || field32(d, pos + blen - 4, ble) != blen {
            } else {
                lemma_aligned_records_fit(d, pos + 8, pos + blen - 4, le);
                lemma_blocks_fit(d, pos + blen, ble);
            }
        }
    }
}

/// The name resolution records of any bytes fit their blocks: the framing
/// admits only block lengths that are multiples of four, so the record parser
/// never slices past a block's body.
pub proof fn lemma_pcapng_records_fit(data: Seq<u8>)
    ensures
        pcapng_records_fit(data),
{
    lemma_blocks_fit(data, 0, false);
}

/// `pcap_file::pcap::PcapReader::new` over the bytes: reads the global header.
#[verifier::external_body]
fn open_classic(data: &[u8]) -> (r: Result<ClassicReader<'_>, pcap_file::PcapError>)
    ensures
        match r {
            Ok(rd) => classic_open(data@) == Some(classic_left(rd)),
            Err(_) => classic_open(data@) is None,
        },
{
    match pcap_file::pcap::PcapReader::new(data) {
        Ok(inner) => Ok(ClassicReader { inner }),
        Err(e) => Err(e),
    }
}

/// One call of `next_packet` on a reader that had `before` left and has
/// `after` left: the first packet when there is one, a failure when one comes
/// next, the end otherwise.
pub open spec fn classic_step(
    before: (Seq<(u64, u32, Seq<u8>)>, bool),
    after: (Seq<(u64, u32, Seq<u8>)>, bool),
    p: Option<Result<(u64, u32, Vec<u8>), pcap_file::PcapError>>,
) -> bool {
    if before.0.len() > 0 {
        match p {
            Some(Ok(q)) => (q.0, q.1, q.2@) == before.0[0] && after == (before.0.drop_first(), before.1),
            _ => false,
        }
    } else if before.1 {
        match p {
            Some(Err(_)) => true,
            _ => false,
        }
    } else {
        p is None
    }
}

/// `PcapReader::next_packet`: the next packet's timestamp and captured bytes,
/// a failure, or the end of the data, as the reader has left.
#[verifier::external_body]
fn next_classic(r: &mut ClassicReader<'_>) -> (p: Option<Result<(u64, u32, Vec<u8>), pcap_file::PcapError>>)
    ensures
        classic_step(classic_left(*old(r)), classic_left(*final(r)), p),
{
    match r.inner.next_packet() {
        Some(Ok(q)) => Some(Ok((q.timestamp.as_secs(), q.timestamp.subsec_nanos(), q.data.into_owned()))),
        Some(Err(e)) => Some(Err(e)),
        None => None,
    }
}

/// `pcap_file::pcapng::PcapNgReader::new` over the bytes: reads the section
/// header. The bytes hold no name resolution record that runs past its block,
/// on which the crate's record parser would slice out of bounds.
#[verifier::external_body]
fn open_pcapng(data: &[u8]) -> (r: Result<PcapNgInput<'_>, pcap_file::PcapError>)
    requires
        pcapng_records_fit(data@),
    ensures
        match r {
            Ok(rd) => rd.data@ == data@ && pcapng_open(data@) == Some(pcapng_left(rd.blocks)),
            Err(_) => pcapng_open(data@) is None,
        },
{
    match pcap_file::pcapng::PcapNgReader::new(data) {
        Ok(inner) => Ok(PcapNgInput { blocks: PcapNgBlocks { inner }, data }),
        Err(e) => Err(e),
    }
}

/// The block a reader returned is the one it had left.
pub open spec fn block_matches(expected: Option<Seq<u8>>, got: Option<Vec<u8>>) -> bool {
    match got {
        Some(v) => expected == Some(v@),
        None => expected is None,
    }
}

/// One call of `next_block` on a reader that had `before` left and has
/// `after` left: the first block when there is one, a failure when one comes
/// next, the end otherwise.
pub open spec fn pcapng_step(
    before: (Seq<Option<Seq<u8>>>, bool),
    after: (Seq<Option<Seq<u8>>>, bool),
    b: Option<Result<Option<Vec<u8>>, pcap_file::PcapError>>,
) -> bool {
    if before.0.len() > 0 {
        match b {
            Some(Ok(d)) => block_matches(before.0[0], d) && after == (before.0.drop_first(), before.1),
            _ => false,
        }
    } else if before.1 {
        match b {
            Some(Err(_)) => true,
            _ => false,
        }
    } else {
        b is None
    }
}

/// `PcapNgReader::next_block`: the captured bytes of the next block when it is
/// an enhanced packet block (nothing for another block), a failure, or the end
/// of the data, as the reader has left. The reader's bytes hold no name
/// resolution record that runs past its block.
#[verifier::external_body]
fn next_pcapng(r: &mut PcapNgInput<'_>) -> (b: Option<Result<Option<Vec<u8>>, pcap_file::PcapError>>)
    requires
        pcapng_records_fit(old(r).data@),
    ensures
        final(r).data@ == old(r).data@,
        pcapng_step(pcapng_left(old(r).blocks), pcapng_left(final(r).blocks), b),
{
    match r.blocks.inner.next_block() {
        Some(Ok(pcap_file::pcapng::Block::EnhancedPacket(epb))) => Some(Ok(Some(epb.data.into_owned()))),
        Some(Ok(_)) => Some(Ok(None)),
        Some(Err(e)) => Some(Err(e)),
        None => None,
    }
}

/// Every packet of a classic pcap file, or none when it does not parse.
fn read_classic_packets(data: &[u8]) -> (r: Option<Vec<(u64, u32, Vec<u8>)>>)
    ensures
        match r {
            Some(v) => pcap_classic_packets(data@) == Some(raw_view(v@)),
            None => pcap_classic_packets(data@) is None,
        },
{
    let mut reader = match open_classic(data) {
        Ok(rd) => rd,
        Err(_) => return None,
    };
    let ghost all = classic_left(reader);
    let mut out: Vec<(u64, u32, Vec<u8>)> = Vec::new();
    loop
        invariant
            classic_open(data@) == Some(all),
            classic_left(reader).1 == all.1,
            raw_view(out@) + classic_left(reader).0 == all.0,
        decreases classic_left(reader).0.len(),
    {
        let ghost left = classic_left(reader).0;
        match next_classic(&mut reader) {
            Some(Ok(q)) => {
                let ghost before = out@;
                out.push(q);
                assert(raw_view(out@) =~= raw_view(before).push((q.0, q.1, q.2@)));
                assert(raw_view(out@) + left.drop_first() =~= raw_view(before) + left);
            },
            Some(Err(_)) => {
                return None;
            },
            None => {
                assert(raw_view(out@) + left =~= raw_view(out@));
                return Some(out);
            },
        }
    }
}

/// The data of every enhanced packet block of a pcapng file, or none when it
/// does not parse.
fn read_pcapng_packets(data: &[u8]) -> (r: Option<Vec<Vec<u8>>>)
    requires
        pcapng_records_fit(data@),
    ensures
        match r {
            Some(v) => pcapng_packets(data@) == Some(bytes_view(v@)),
            None => pcapng_packets(data@) is None,
        },
{
    let mut reader = match open_pcapng(data) {
        Ok(rd) => rd,
        Err(_) => return None,
    };
    let ghost all = pcapng_left(reader.blocks);
    let ghost mut seen: Seq<Option<Seq<u8>>> = Seq::empty();
    let mut out: Vec<Vec<u8>> = Vec::new();
    loop
        invariant
            pcapng_records_fit(data@),
            reader.data@ == data@,
            pcapng_open(data@) == Some(all),
            pcapng_left(reader.blocks).1 == all.1,
            seen + pcapng_left(reader.blocks).0 == all.0,
            bytes_view(out@) == packet_blocks(seen),
        decreases pcapng_left(reader.blocks).0.len(),
    {
        let ghost left = pcapng_left(reader.blocks).0;
        match next_pcapng(&mut reader) {
            Some(Ok(d)) => {
                let ghost before = out@;
                proof {
                    assert(seen.push(left[0]).drop_last() =~= seen);
                    assert(seen.push(left[0]) + left.drop_first() =~= seen + left);
                }
                match d {
                    Some(v) => {
                        out.push(v);
                        assert(bytes_view(out@) =~= bytes_view(before).push(out@[out@.len() - 1]@));
                    },
                    None => {},
                }
                proof {
                    seen = seen.push(left[0]);
                }
            },
            Some(Err(_)) => {
                return None;
            },
            None => {
                assert(seen + left =~= seen);
                return Some(out);
            },
        }
    }
}

/// Why a capture could not be read.
#[derive(Debug, Clone, Copy, PartialEq, Eq, Structural)]
pub enum CaptureError {
    /// Fewer than four bytes: no file magic to read.
    NoMagic,
    /// A classic pcap header or record did not parse.
    Pcap,
    /// A pcapng block did not parse.
    PcapNg,
}

/// A capture time in nanoseconds since the epoch; the epoch itself when it
/// does not fit.
pub open spec fn capture_ts(secs: u64, nanos: u32) -> i64 {
    if secs * 1_000_000_000 + nanos <= i64::MAX { (secs * 1_000_000_000 + nanos) as i64 } else { 0 }
}

pub open spec fn is_pcapng(data: Seq<u8>) -> bool {
    data.len() >= 4 && data[0] == 0x0a && data[1] == 0x0d && data[2] == 0x0d && data[3] == 0x0a
}

/// `rows` decodes the classic pcap `pkts` in order.
pub open spec fn decodes_classic(rows: Seq<PacketRow>, pkts: Seq<(u64, u32, Seq<u8>)>) -> bool {
    &&& rows.len() == pkts.len()
    &&& forall|i: int| 0 <= i < rows.len() ==> decodes_to(#[trigger] rows[i], i as usize, capture_ts(pkts[i].0, pkts[i].1), pkts[i].2)
}

/// `rows` decodes the pcapng `pkts` in order; their time is the epoch.
pub open spec fn decodes_pcapng(rows: Seq<PacketRow>, pkts: Seq<Seq<u8>>) -> bool {
    &&& rows.len() == pkts.len()
    &&& forall|i: int| 0 <= i < rows.len() ==> decodes_to(#[trigger] rows[i], i as usize, 0, pkts[i])
}

fn to_nanos(secs: u64, nanos: u32) -> (t: i64)
    ensures
        t == capture_ts(secs, nanos),
{
    let n: u128 = secs as u128 * 1_000_000_000 + nanos as u128;
    if n <= i64::MAX as u128 { n as i64 } else { 0 }
}

/// Read a capture file's bytes: pcapng when it starts with the pcapng magic,
/// classic pcap otherwise; each packet decoded into a row numbered from zero.
pub fn read_capture(data: &[u8]) -> (r: Result<Vec<PacketRow>, CaptureError>)
    ensures
        data@.len() < 4 ==> r == Err::<Vec<PacketRow>, CaptureError>(CaptureError::NoMagic),
        data@.len() >= 4 && is_pcapng(data@) ==> match pcapng_packets(data@) {
            Some(p) => r is Ok && decodes_pcapng(r->Ok_0@, p),
            None => r == Err::<Vec<PacketRow>, CaptureError>(CaptureError::PcapNg),
        },
        data@.len() >= 4 && !is_pcapng(data@) ==> match pcap_classic_packets(data@) {
            Some(p) => r is Ok && decodes_classic(r->Ok_0@, p),
            None => r == Err::<Vec<PacketRow>, CaptureError>(CaptureError::Pcap),
        },
{
    if data.len() < 4 {
        return Err(CaptureError::NoMagic);
    }
    if data[0] == 0x0a && data[1] == 0x0d && data[2] == 0x0d && data[3] == 0x0a {
        proof {
            lemma_pcapng_records_fit(data@);
        }
        let pkts = match read_pcapng_packets(data) {
            Some(p) => p,
            None => return Err(CaptureError::PcapNg),
        };
        let ghost pv = bytes_view(pkts@);
        let mut rows: Vec<PacketRow> = Vec::new();
        let mut i: usize = 0;
        while i < pkts.len()
            invariant
                i <= pkts@.len(),
                pv == bytes_view(pkts@),
                rows@.len() == i,
                forall|j: int| 0 <= j < i ==> decodes_to(#[trigger] rows@[j], j as usize, 0, pv[j]),
            decreases pkts@.len() - i,
        {
            let row = decode_packet(i, 0, pkts[i].as_slice());
            assert(pv[i as int] == pkts@[i as int]@);
            rows.push(row);
            i = i + 1;
        }
        return Ok(rows);
    }
    let pkts = match read_classic_packets(data) {
        Some(p) => p,
        None => return Err(CaptureError::Pcap),
    };
    let ghost pv = raw_view(pkts@);
    let mut rows: Vec<PacketRow> = Vec::new();
    let mut i: usize = 0;
    while i < pkts.len()
        invariant
            i <= pkts@.len(),
            pv == raw_view(pkts@),
            rows@.len() == i,
            forall|j: int| 0 <= j < i ==> decodes_to(#[trigger] rows@[j], j as usize, capture_ts(pv[j].0, pv[j].1), pv[j].2),
        decreases pkts@.len() - i,
    {
        let ts = to_nanos(pkts[i].0, pkts[i].1);
        let row = decode_packet(i, ts, pkts[i].2.as_slice());
        assert(pv[i as int] == (pkts@[i as int].0, pkts@[i as int].1, pkts@[i as int].2@));
        rows.push(row);
        i = i + 1;
    }
    Ok(rows)
}

} // verus!
