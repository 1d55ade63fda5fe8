//! The markdown report: capture, filter, the top flows, bookmarks and the
//! selected flow's streams.
use vstd::prelude::*;
use crate::casefile::FlowBookmark;
use crate::flow::{flow_label_text, picked, FlowIndex, FlowStats};
use crate::pcap::{ip_text, push_ip, L4Proto, PacketRow};
use crate::stream::{build_stream, stream_bytes};
use crate::text::{bytes_to_text_lossy, chars_of, dec_seq, push_all, push_decimal, push_str, str_of_chars, trim, trim_seq, utf8_lossy};
use crate::ui_filter::{filter_matches, FlowFilter};
use crate::pcap::FlowDir;

verus! {

pub struct ReportOptions {
    pub max_flows: usize,
    pub max_stream_bytes: usize,
}

impl Default for ReportOptions {
    /// At most 50 flows and 16 KiB of each stream direction.
    fn default() -> (o: Self)
        ensures
            o.max_flows == 50,
            o.max_stream_bytes == 16 * 1024,
    {
        ReportOptions { max_flows: 50, max_stream_bytes: 16 * 1024 }
    }
}

/// The first `max` bytes, and whether anything was cut.
pub fn truncate_bytes(bytes: &[u8], max: usize) -> (r: (Vec<u8>, bool))
    ensures
        r.0@ == (if bytes@.len() <= max { bytes@ } else { bytes@.take(max as int) }),
        r.1 == (bytes@.len() > max),
{
    let n = if bytes.len() <= max { bytes.len() } else { max };
    let mut out: Vec<u8> = Vec::new();
    let mut i: usize = 0;
    while i < n
        invariant
            i <= n <= bytes@.len(),
            out@ == bytes@.take(i as int),
        decreases n - i,
    {
        out.push(bytes[i]);
        i = i + 1;
        assert(out@ =~= bytes@.take(i as int));
    }
    assert(bytes@.len() <= max ==> bytes@.take(n as int) =~= bytes@);
    (out, bytes.len() > max)
}

pub open spec fn on_off(b: bool) -> Seq<char> {
    if b {
        "on"@
    } else {
        "off"@
    }
}

pub open spec fn proto_word(p: L4Proto) -> Seq<char> {
    match p {
        L4Proto::Tcp => "TCP"@,
        L4Proto::Udp => "UDP"@,
        L4Proto::Other(_) => "L4"@,
    }
}

/// One row of the flows table; `pos` is the flow's position in the index.
pub open spec fn flow_row_text(pos: nat, f: FlowStats) -> Seq<char> {
    "| "@ + dec_seq(pos + 1) + " | "@ + proto_word(f.key.proto) + " | "@ + dec_seq(f.total_packets as nat)
        + " | "@ + dec_seq(f.total_bytes as nat) + " | `"@ + ip_text(f.key.src) + ":"@ + dec_seq(
        f.key.src_port as nat,
    ) + " ↔ "@ + ip_text(f.key.dst) + ":"@ + dec_seq(f.key.dst_port as nat) + "` |\n"@
}

pub open spec fn shown_by(filter: FlowFilter, f: FlowStats) -> bool {
    filter_matches(filter.query@, filter.show_tcp, filter.show_udp, f.key)
}

/// Table rows for the first `max` flows among the first `n` that pass the filter,
/// and how many of the `n` passed.
pub open spec fn table_rows(fs: Seq<FlowStats>, filter: FlowFilter, max: nat, n: nat) -> (Seq<char>, nat)
    decreases n,
{
    if n == 0 {
        (Seq::empty(), 0)
    } else {
        let (text, count) = table_rows(fs, filter, max, (n - 1) as nat);
        if shown_by(filter, fs[n - 1]) {
            (if count < max { text + flow_row_text((n - 1) as nat, fs[n - 1]) } else { text }, count + 1)
        } else {
            (text, count)
        }
    }
}

pub open spec fn flows_section(fs: Seq<FlowStats>, filter: FlowFilter, max: nat) -> Seq<char> {
    let (text, count) = table_rows(fs, filter, max, fs.len());
    "## Flows (top)\n\n"@ + "| # | proto | pkts | bytes | endpoints |\n"@ + "|---:|:-----|-----:|------:|:----------|\n"@ + text
        + (if count == 0 { "\n_No flows matched the current filter._\n"@ } else { Seq::empty() }) + "\n"@
}

pub open spec fn bookmark_lines(bs: Seq<FlowBookmark>) -> Seq<char>
    decreases bs.len(),
{
    if bs.len() == 0 {
        Seq::empty()
    } else {
        bookmark_lines(bs.drop_last()) + "- **"@ + bs.last().flow_label@ + "** — "@ + bs.last().note@ + "\n"@
    }
}

pub open spec fn bookmarks_section(bs: Seq<FlowBookmark>) -> Seq<char> {
    if bs.len() == 0 {
        Seq::empty()
    } else {
        "## Bookmarks\n\n"@ + bookmark_lines(bs) + "\n"@
    }
}

pub open spec fn stream_block(title: Seq<char>, data: Seq<u8>, max: nat) -> Seq<char> {
    let shown = if data.len() <= max { data } else { data.take(max as int) };
    "### Stream ("@ + title + ")\n\n```\n"@ + utf8_lossy(shown) + (if data.len() > max {
        "\n\n[truncated]\n"@
    } else {
        Seq::empty()
    }) + "\n```\n\n"@
}

pub open spec fn selected_section(rows: Seq<PacketRow>, sel: Option<&FlowStats>, max: nat) -> Seq<char> {
    match sel {
        None => Seq::empty(),
        Some(fl) => {
            let ps = picked(rows, fl.packet_indices@);
            "## Selected flow\n\n"@ + "- "@ + flow_label_text(fl.key) + "\n"@ + "- packets: "@ + dec_seq(
                fl.total_packets as nat,
            ) + "\n"@ + "- bytes: "@ + dec_seq(fl.total_bytes as nat) + "\n\n"@ + stream_block(
                "A→B"@,
                stream_bytes(ps, FlowDir::AtoB),
                max,
            ) + stream_block("B→A"@, stream_bytes(ps, FlowDir::BtoA), max)
        },
    }
}

/// The whole report.
pub open spec fn report_text(
    pcap: Seq<char>,
    rows: Seq<PacketRow>,
    fs: Seq<FlowStats>,
    filter: FlowFilter,
    bs: Seq<FlowBookmark>,
    sel: Option<&FlowStats>,
    opts: ReportOptions,
) -> Seq<char> {
    "# babyshark report\n\n"@ + "PCAP: `"@ + pcap + "`\n\n"@ + "Packets: **"@ + dec_seq(rows.len()) + "**\n\n"@
        + "## Filter\n\n"@ + "- query: `"@ + trim_seq(filter.query@) + "`\n"@ + "- tcp: "@ + on_off(filter.show_tcp)
        + "\n"@ + "- udp: "@ + on_off(filter.show_udp) + "\n\n"@ + flows_section(fs, filter, opts.max_flows as nat)
        + bookmarks_section(bs) + selected_section(rows, sel, opts.max_stream_bytes as nat)
}

fn push_proto_word(v: &mut Vec<char>, p: L4Proto)
    ensures
        final(v)@ == old(v)@ + proto_word(p),
{
    match p {
        L4Proto::Tcp => push_str(v, "TCP"),
        L4Proto::Udp => push_str(v, "UDP"),
        L4Proto::Other(_) => push_str(v, "L4"),
    }
}

fn push_flow_row(v: &mut Vec<char>, pos: usize, f: &FlowStats)
    requires
        pos < usize::MAX,
    ensures
        final(v)@ == old(v)@ + flow_row_text(pos as nat, *f),
{
    let ghost v0 = v@;
    push_str(v, "| ");
    push_decimal(v, (pos + 1) as u64);
    push_str(v, " | ");
    push_proto_word(v, f.key.proto);
    push_str(v, " | ");
    push_decimal(v, f.total_packets);
    push_str(v, " | ");
    push_decimal(v, f.total_bytes);
    push_str(v, " | `");
    push_ip(v, f.key.src);
    push_str(v, ":");
    push_decimal(v, f.key.src_port as u64);
    push_str(v, " ↔ ");
    push_ip(v, f.key.dst);
    push_str(v, ":");
    push_decimal(v, f.key.dst_port as u64);
    push_str(v, "` |\n");
    assert(v@ =~= v0 + flow_row_text(pos as nat, *f));
}

fn push_flows_section(v: &mut Vec<char>, flows: &FlowIndex, filter: &FlowFilter, max: usize)
    ensures
        final(v)@ == old(v)@ + flows_section(flows.flows@, *filter, max as nat),
{
    let ghost fs = flows.flows@;
    let ghost v0 = v@;
    push_str(v, "## Flows (top)\n\n");
    push_str(v, "| # | proto | pkts | bytes | endpoints |\n");
    push_str(v, "|---:|:-----|-----:|------:|:----------|\n");
    let ghost v1 = v@;
    let mut shown: usize = 0;
    let mut i: usize = 0;
    while i < flows.flows.len()
        invariant
            i <= fs.len(),
            fs == flows.flows@,
            shown <= i,
            table_rows(fs, *filter, max as nat, i as nat) == (v@.subrange(v1.len() as int, v@.len() as int), shown as nat),
            v@.subrange(0, v1.len() as int) == v1,
            v1.len() <= v@.len(),
        decreases fs.len() - i,
    {
        let f = &flows.flows[i];
        let ghost before = v@;
        if filter.matches(f) {
            if shown < max {
                push_flow_row(v, i, f);
                assert(v@.subrange(v1.len() as int, v@.len() as int) =~= before.subrange(v1.len() as int, before.len() as int) + flow_row_text(i as nat, *f));
                assert(v@.subrange(0, v1.len() as int) =~= before.subrange(0, v1.len() as int));
            }
            shown = shown + 1;
        }
        i = i + 1;
    }
    let ghost v2 = v@;
    assert(v2 =~= v1 + v2.subrange(v1.len() as int, v2.len() as int));
    if shown == 0 {
        push_str(v, "\n_No flows matched the current filter._\n");
    }
    push_str(v, "\n");
    assert(v@ =~= v0 + flows_section(fs, *filter, max as nat));
}

fn push_bookmarks_section(v: &mut Vec<char>, bookmarks: &[FlowBookmark])
    ensures
        final(v)@ == old(v)@ + bookmarks_section(bookmarks@),
{
    if bookmarks.len() == 0 {
        assert(v@ =~= v@ + bookmarks_section(bookmarks@));
        return;
    }
    let ghost v0 = v@;
    push_str(v, "## Bookmarks\n\n");
    let ghost v1 = v@;
    let mut i: usize = 0;
    while i < bookmarks.len()
        invariant
            i <= bookmarks@.len(),
            v@ == v1 + bookmark_lines(bookmarks@.take(i as int)),
        decreases bookmarks@.len() - i,
    {
        let b = &bookmarks[i];
        push_str(v, "- **");
        push_str(v, b.flow_label.as_str());
        push_str(v, "** — ");
        push_str(v, b.note.as_str());
        push_str(v, "\n");
        assert(bookmarks@.take(i + 1).drop_last() =~= bookmarks@.take(i as int));
        assert(bookmarks@.take(i + 1).last() == *b);
        assert(v@ =~= v1 + bookmark_lines(bookmarks@.take(i + 1)));
        i = i + 1;
    }
    assert(bookmarks@.take(bookmarks@.len() as int) =~= bookmarks@);
    push_str(v, "\n");
    assert(v@ =~= v0 + bookmarks_section(bookmarks@));
}

fn push_stream_block(v: &mut Vec<char>, title: &str, data: &Vec<u8>, max: usize)
    ensures
        final(v)@ == old(v)@ + stream_block(title@, data@, max as nat),
{
    let ghost v0 = v@;
    push_str(v, "### Stream (");
    push_str(v, title);
    push_str(v, ")\n\n```\n");
    let (shown, cut) = truncate_bytes(data.as_slice(), max);
    let text = bytes_to_text_lossy(shown.as_slice());
    push_str(v, text.as_str());
    if cut {
        push_str(v, "\n\n[truncated]\n");
    }
    push_str(v, "\n```\n\n");
    assert(v@ =~= v0 + stream_block(title@, data@, max as nat));
}

fn push_selected_section(v: &mut Vec<char>, rows: &[PacketRow], sel: Option<&FlowStats>, max: usize)
    ensures
        final(v)@ == old(v)@ + selected_section(rows@, sel, max as nat),
{
    match sel {
        None => {
            assert(v@ =~= v@ + selected_section(rows@, sel, max as nat));
        },
        Some(fl) => {
            let ghost v0 = v@;
            push_str(v, "## Selected flow\n\n");
            push_str(v, "- ");
            let label = fl.label();
            push_str(v, label.as_str());
            push_str(v, "\n");
            push_str(v, "- packets: ");
            push_decimal(v, fl.total_packets);
            push_str(v, "\n");
            push_str(v, "- bytes: ");
            push_decimal(v, fl.total_bytes);
            push_str(v, "\n\n");
            let s = build_stream(rows, fl);
            push_stream_block(v, "A→B", &s.a_to_b, max);
            push_stream_block(v, "B→A", &s.b_to_a, max);
            assert(v@ =~= v0 + selected_section(rows@, sel, max as nat));
        },
    }
}

/// The markdown report for a capture shown as `pcap_display`.
pub fn render_report_md(
    pcap_display: &str,
    rows: &[PacketRow],
    flows: &FlowIndex,
    filter: &FlowFilter,
    bookmarks: &[FlowBookmark],
    selected_flow: Option<&FlowStats>,
    opts: &ReportOptions,
) -> (md: String)
    ensures
        md@ == report_text(pcap_display@, rows@, flows.flows@, *filter, bookmarks@, selected_flow, *opts),
{
    let mut v: Vec<char> = Vec::new();
    push_str(&mut v, "# babyshark report\n\n");
    push_str(&mut v, "PCAP: `");
    push_str(&mut v, pcap_display);
    push_str(&mut v, "`\n\n");
    push_str(&mut v, "Packets: **");
    push_decimal(&mut v, rows.len() as u64);
    push_str(&mut v, "**\n\n");
    push_str(&mut v, "## Filter\n\n");
    push_str(&mut v, "- query: `");
    let qc = chars_of(filter.query.as_str());
    let q = trim(qc.as_slice());
    push_all(&mut v, q.as_slice());
    push_str(&mut v, "`\n");
    push_str(&mut v, "- tcp: ");
    push_str(&mut v, if filter.show_tcp { "on" } else { "off" });
    push_str(&mut v, "\n");
    push_str(&mut v, "- udp: ");
    push_str(&mut v, if filter.show_udp { "on" } else { "off" });
    push_str(&mut v, "\n\n");
    let ghost v1 = v@;
    push_flows_section(&mut v, flows, filter, opts.max_flows);
    push_bookmarks_section(&mut v, bookmarks);
    push_selected_section(&mut v, rows, selected_flow, opts.max_stream_bytes);
    assert(v@ =~= report_text(pcap_display@, rows@, flows.flows@, *filter, bookmarks@, selected_flow, *opts));
    str_of_chars(&v)
}

} // verus!
