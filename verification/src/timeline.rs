//! The timeline view: the phases of a TCP flow over time, where a timestamp
//! falls on the time axis, how a flow is labelled, the plain-language story
//! of a flow and the patterns seen across the visible flows.
use vstd::prelude::*;
use crate::domains::{hostname_for, index_lookup, index_view};
use crate::flow::{
    any_rst, any_where, earliest, first_ts_where, flags_of, flags_or_zero, is_syn, latest,
    lemma_any_where_push, lemma_picked_step, picked, proto_name, rst_row, syn_ack_row, syn_row,
    AsymmetryLabel, FlowStats, HealthBadge, LocalSide, local_side, infer_local_side,
    TCP_FLAG_ACK, TCP_FLAG_FIN, TCP_FLAG_RST, TCP_FLAG_SYN,
};
use crate::pcap::{ip_text, push_ip, IpAddr, L4Proto, PacketRow};
use crate::text::{
    ascii_lower_seq, chars_of, dec_seq, ends_with, ends_with_seq, push_decimal, push_str, string_of,
    to_ascii_lower, trim, trim_seq,
};

verus! {

/// The phase of a TCP connection that a moment of its lifetime belongs to.
#[derive(Debug, Clone, Copy, PartialEq, Eq, Structural)]
pub enum Phase {
    Handshake,
    Tls,
    Data,
    Close,
}

/// Timestamps (nanoseconds) marking the phase boundaries of a TCP flow.
#[derive(Debug, Clone, Copy, PartialEq, Eq, Structural)]
pub struct PhaseTimestamps {
    pub syn_ts: Option<i64>,
    pub syn_ack_ts: Option<i64>,
    pub first_data_ts: Option<i64>,
    pub fin_ts: Option<i64>,
    pub has_tls: bool,
}

/// A segment that carries data for the timeline: a payload, and no SYN
/// (without ACK), FIN or RST.
pub open spec fn phase_data_row(r: PacketRow) -> bool {
    let f = flags_of(r);
    !(is_syn(f) || f & TCP_FLAG_FIN != 0 || f & TCP_FLAG_RST != 0) && r.payload@.len() > 0
}

pub open spec fn close_row(r: PacketRow) -> bool {
    flags_of(r) & TCP_FLAG_FIN != 0 || flags_of(r) & TCP_FLAG_RST != 0
}

pub open spec fn tls_row(r: PacketRow) -> bool {
    r.tls_version is Some
}

/// The first SYN, SYN-ACK, data segment and FIN/RST of the rows, and whether
/// any of them carried TLS.
pub open spec fn phases_of(ps: Seq<PacketRow>) -> PhaseTimestamps {
    PhaseTimestamps {
        syn_ts: first_ts_where(ps, |r: PacketRow| syn_row(r)),
        syn_ack_ts: first_ts_where(ps, |r: PacketRow| syn_ack_row(r)),
        first_data_ts: first_ts_where(ps, |r: PacketRow| phase_data_row(r)),
        fin_ts: first_ts_where(ps, |r: PacketRow| close_row(r)),
        has_tls: any_where(ps, |r: PacketRow| tls_row(r)),
    }
}

/// The phase timestamps of a flow, over the rows its packet indices point at.
pub fn extract_phases(fl: &FlowStats, rows: &[PacketRow]) -> (p: PhaseTimestamps)
    ensures
        p == phases_of(picked(rows@, fl.packet_indices@)),
{
    let ghost idx = fl.packet_indices@;
    let ghost p_syn = |r: PacketRow| syn_row(r);
    let ghost p_syn_ack = |r: PacketRow| syn_ack_row(r);
    let ghost p_data = |r: PacketRow| phase_data_row(r);
    let ghost p_close = |r: PacketRow| close_row(r);
    let ghost p_tls = |r: PacketRow| tls_row(r);
    let mut syn_ts: Option<i64> = None;
    let mut syn_ack_ts: Option<i64> = None;
    let mut first_data_ts: Option<i64> = None;
    let mut fin_ts: Option<i64> = None;
    let mut has_tls = false;
    let mut k: usize = 0;
    while k < fl.packet_indices.len()
        invariant
            k <= idx.len(),
            idx == fl.packet_indices@,
            p_syn == (|r: PacketRow| syn_row(r)),
            p_syn_ack == (|r: PacketRow| syn_ack_row(r)),
            p_data == (|r: PacketRow| phase_data_row(r)),
            p_close == (|r: PacketRow| close_row(r)),
            p_tls == (|r: PacketRow| tls_row(r)),
            syn_ts == first_ts_where(picked(rows@, idx.take(k as int)), p_syn),
            syn_ack_ts == first_ts_where(picked(rows@, idx.take(k as int)), p_syn_ack),
            first_data_ts == first_ts_where(picked(rows@, idx.take(k as int)), p_data),
            fin_ts == first_ts_where(picked(rows@, idx.take(k as int)), p_close),
            has_tls == any_where(picked(rows@, idx.take(k as int)), p_tls),
        decreases idx.len() - k,
    {
        let pi = fl.packet_indices[k];
        let ghost before = picked(rows@, idx.take(k as int));
        proof {
            lemma_picked_step(rows@, idx, k as int);
        }
        if pi < rows.len() {
            let r = &rows[pi];
            let ghost after = before.push(*r);
            assert(after.drop_last() =~= before);
            assert(after.last() == *r);
            proof {
                lemma_any_where_push(before, *r, p_tls);
            }
            let flags = flags_or_zero(r);
            let is_syn_flag = (flags & TCP_FLAG_SYN) != 0 && (flags & TCP_FLAG_ACK) == 0;
            let is_syn_ack_flag = (flags & TCP_FLAG_SYN) != 0 && (flags & TCP_FLAG_ACK) != 0;
            let is_fin = (flags & TCP_FLAG_FIN) != 0;
            let is_rst = (flags & TCP_FLAG_RST) != 0;
            let is_pure_control = is_syn_flag || is_fin || is_rst;
            if is_syn_flag && syn_ts.is_none() {
                syn_ts = Some(r.ts);
            }
            if is_syn_ack_flag && syn_ack_ts.is_none() {
                syn_ack_ts = Some(r.ts);
            }
            if !is_pure_control && r.payload.len() > 0 && first_data_ts.is_none() {
                first_data_ts = Some(r.ts);
            }
            if (is_fin || is_rst) && fin_ts.is_none() {
                fin_ts = Some(r.ts);
            }
            if r.tls_version.is_some() {
                has_tls = true;
            }
            assert(p_data(*r) == (!is_pure_control && r.payload@.len() > 0));
        }
        k = k + 1;
    }
    assert(idx.take(idx.len() as int) =~= idx);
    PhaseTimestamps { syn_ts, syn_ack_ts, first_data_ts, fin_ts, has_tls }
}

/// The phase of the moment `t` (nanoseconds): close from the FIN/RST on; TLS
/// after the SYN-ACK up to the first data when the flow carried TLS; data from
/// the first data segment, or after the SYN-ACK when no data was captured;
/// handshake before that. Non-TCP flows are data throughout.
pub open spec fn phase_at(t: i64, p: PhaseTimestamps, is_tcp: bool) -> Phase {
    if !is_tcp {
        Phase::Data
    } else if p.fin_ts is Some && t >= p.fin_ts->0 {
        Phase::Close
    } else if p.first_data_ts is Some && p.has_tls && p.syn_ack_ts is Some && t > p.syn_ack_ts->0
        && t <= p.first_data_ts->0 {
        Phase::Tls
    } else if p.first_data_ts is Some && t >= p.first_data_ts->0 {
        Phase::Data
    } else if p.has_tls && p.syn_ack_ts is Some && t > p.syn_ack_ts->0 {
        Phase::Tls
    } else if p.syn_ack_ts is Some && t > p.syn_ack_ts->0 {
        Phase::Data
    } else {
        Phase::Handshake
    }
}

/// The phase shown at moment `col_ts` of a flow's bar.
pub fn col_phase(col_ts: i64, phases: &PhaseTimestamps, is_tcp: bool) -> (ph: Phase)
    ensures
        ph == phase_at(col_ts, *phases, is_tcp),
{
    if !is_tcp {
        return Phase::Data;
    }
    if let Some(fin) = phases.fin_ts {
        if col_ts >= fin {
            return Phase::Close;
        }
    }
    if let Some(first_data) = phases.first_data_ts {
        if phases.has_tls {
            if let Some(syn_ack) = phases.syn_ack_ts {
                if col_ts > syn_ack && col_ts <= first_data {
                    return Phase::Tls;
                }
            }
        }
        if col_ts >= first_data {
            return Phase::Data;
        }
    }
    if phases.has_tls {
        if let Some(syn_ack) = phases.syn_ack_ts {
            if col_ts > syn_ack {
                return Phase::Tls;
            }
        }
    }
    if let Some(syn_ack) = phases.syn_ack_ts {
        if col_ts > syn_ack {
            return Phase::Data;
        }
    }
    Phase::Handshake
}

/// Whole microseconds in `d` nanoseconds, truncated toward zero.
pub open spec fn trunc_micros(d: int) -> int {
    if d >= 0 { d / 1000 } else { -((-d) / 1000) }
}

/// The column of moment `ts` on a bar of `cols` columns spanning `start..end`:
/// proportional to the whole microseconds elapsed, clamped to the bar.
pub open spec fn ts_col(ts: i64, start: i64, end: i64, cols: nat) -> nat {
    if cols == 0 || start >= end {
        0
    } else {
        let total = if trunc_micros(end - start) < 1 { 1 } else { trunc_micros(end - start) };
        let off = if trunc_micros(ts - start) < 0 { 0 } else { trunc_micros(ts - start) };
        let col = (off * cols / total) as nat;
        if col < cols - 1 { col } else { (cols - 1) as nat }
    }
}

/// Map a timestamp to a column index within the bar area.
pub fn ts_to_col(ts: i64, start: i64, end: i64, cols: usize) -> (c: usize)
    ensures
        c == ts_col(ts, start, end, cols as nat),
        cols > 0 ==> c < cols,
{
    if cols == 0 || start >= end {
        return 0;
    }
    let d: i128 = end as i128 - start as i128;
    let t: i128 = d / 1000;
    let total: i128 = if t < 1 { 1 } else { t };
    let e: i128 = ts as i128 - start as i128;
    let off: i128 = if e >= 0 { e / 1000 } else { 0 };
    assert(off == (if trunc_micros(ts - start) < 0 { 0 } else { trunc_micros(ts - start) }));
    assert(0 <= off < 0x100_0000_0000_0000);
    let cols_w: u128 = cols as u128;
    let off_w: u128 = off as u128;
    assert(off_w * cols_w < 0x100_0000_0000_0000 * 0x1_0000_0000_0000_0000) by (nonlinear_arith)
        requires
            off_w < 0x100_0000_0000_0000,
            cols_w < 0x1_0000_0000_0000_0000,
    ;
    let col: u128 = off_w * cols_w / (total as u128);
    if col < cols_w - 1 {
        col as usize
    } else {
        cols - 1
    }
}

/// The first and last timestamps of the capture; none when it is empty or
/// spans no time.
pub fn capture_time_range(rows: &[PacketRow]) -> (r: Option<(i64, i64)>)
    ensures
        r == (match (earliest(rows@), latest(rows@)) {
            (Some(a), Some(b)) => if a == b { None } else { Some((a, b)) },
            _ => None,
        }),
{
    let mut min_ts: Option<i64> = None;
    let mut max_ts: Option<i64> = None;
    let mut i: usize = 0;
    while i < rows.len()
        invariant
            i <= rows@.len(),
            min_ts == earliest(rows@.take(i as int)),
            max_ts == latest(rows@.take(i as int)),
        decreases rows@.len() - i,
    {
        assert(rows@.take(i + 1).drop_last() =~= rows@.take(i as int));
        let t = rows[i].ts;
        min_ts = Some(match min_ts {
            Some(m) => if t < m { t } else { m },
            None => t,
        });
        max_ts = Some(match max_ts {
            Some(m) => if t > m { t } else { m },
            None => t,
        });
        i = i + 1;
    }
    assert(rows@.take(rows@.len() as int) =~= rows@);
    match (min_ts, max_ts) {
        (Some(a), Some(b)) => if a == b { None } else { Some((a, b)) },
        _ => None,
    }
}


// ------------------------------------------------------------ host names

/// `s` without its trailing dots.
pub open spec fn strip_dots(s: Seq<char>) -> Seq<char>
    decreases s.len(),
{
    if s.len() > 0 && s.last() == '.' {
        strip_dots(s.drop_last())
    } else {
        s
    }
}

/// A name as compared: trimmed, without trailing dots, ASCII lower case.
pub open spec fn normalized(s: Seq<char>) -> Seq<char> {
    ascii_lower_seq(strip_dots(trim_seq(s)))
}

/// Normalize a host or query name for comparison.
pub fn normalize_name(name: &str) -> (r: Vec<char>)
    ensures
        r@ == normalized(name@),
{
    let cs = chars_of(name);
    let t = trim(cs.as_slice());
    let mut n = t.len();
    assert(t@.take(n as int) =~= t@);
    while n > 0 && t[n - 1] == '.'
        invariant
            n <= t@.len(),
            strip_dots(t@) == strip_dots(t@.take(n as int)),
        decreases n,
    {
        assert(t@.take(n as int).drop_last() =~= t@.take(n - 1));
        n = n - 1;
    }
    let mut kept: Vec<char> = Vec::new();
    let mut i: usize = 0;
    while i < n
        invariant
            n <= t@.len(),
            i <= n,
            kept@ == t@.take(i as int),
        decreases n - i,
    {
        kept.push(t[i]);
        i = i + 1;
        assert(kept@ =~= t@.take(i as int));
    }
    to_ascii_lower(kept.as_slice())
}

/// A host and a DNS query name match when, normalized and non-empty, they are
/// equal or one is a subdomain of the other.
pub open spec fn names_match(host: Seq<char>, qname: Seq<char>) -> bool {
    let h = normalized(host);
    let q = normalized(qname);
    h.len() > 0 && q.len() > 0 && (h == q || ends_with_seq(h, seq!['.'] + q) || ends_with_seq(q, seq!['.'] + h))
}

/// Whether `host` and `qname` name the same site (see `names_match`).
pub fn host_matches_qname(host: &str, qname: &str) -> (r: bool)
    ensures
        r == names_match(host@, qname@),
{
    let h = normalize_name(host);
    let q = normalize_name(qname);
    if h.len() == 0 || q.len() == 0 {
        return false;
    }
    if crate::text::chars_eq(h.as_slice(), q.as_slice()) {
        return true;
    }
    let mut dq: Vec<char> = Vec::new();
    dq.push('.');
    crate::text::push_all(&mut dq, q.as_slice());
    assert(dq@ =~= seq!['.'] + q@);
    if ends_with(h.as_slice(), dq.as_slice()) {
        return true;
    }
    let mut dh: Vec<char> = Vec::new();
    dh.push('.');
    crate::text::push_all(&mut dh, h.as_slice());
    assert(dh@ =~= seq!['.'] + h@);
    ends_with(q.as_slice(), dh.as_slice())
}

/// Matching a host against a query name does not depend on which is which.
pub proof fn lemma_names_match_symmetric(a: Seq<char>, b: Seq<char>)
    ensures
        names_match(a, b) == names_match(b, a),
{
}

/// A name that is not blank once normalized matches itself.
pub proof fn lemma_names_match_reflexive(a: Seq<char>)
    requires
        normalized(a).len() > 0,
    ensures
        names_match(a, a),
{
}

/// The hostname shown for a flow: that of its destination, else of its source.
pub open spec fn label_host(idx: Seq<(IpAddr, Seq<char>)>, src: IpAddr, dst: IpAddr) -> Option<Seq<char>> {
    match index_lookup(idx, dst) {
        Some(h) => Some(h),
        None => index_lookup(idx, src),
    }
}

/// The service a well-known destination port suggests.
pub open spec fn port_hint(p: u16) -> Seq<char> {
    if p == 443 {
        "HTTPS"@
    } else if p == 80 {
        "HTTP"@
    } else if p == 53 {
        "DNS"@
    } else {
        ""@
    }
}

/// `host (SERVICE)` for a well-known port, `PROTO host:port` otherwise, and
/// `PROTO ip:port` without a hostname.
pub open spec fn full_label(idx: Seq<(IpAddr, Seq<char>)>, f: FlowStats) -> Seq<char> {
    match label_host(idx, f.key.src, f.key.dst) {
        Some(h) => if port_hint(f.key.dst_port).len() == 0 {
            proto_name(f.key.proto) + " "@ + h + ":"@ + dec_seq(f.key.dst_port as nat)
        } else {
            h + " ("@ + port_hint(f.key.dst_port) + ")"@
        },
        None => proto_name(f.key.proto) + " "@ + ip_text(f.key.dst) + ":"@ + dec_seq(f.key.dst_port as nat),
    }
}

/// `s` fitted to `w` characters: padded with spaces, or cut with an ellipsis.
pub open spec fn fit_width(s: Seq<char>, w: nat) -> Seq<char> {
    if s.len() <= w {
        s + Seq::new((w - s.len()) as nat, |i: int| ' ')
    } else if w == 0 {
        Seq::empty()
    } else if w == 1 {
        seq!['…']
    } else {
        s.take(w - 1).push('…')
    }
}

fn push_port_hint(v: &mut Vec<char>, p: u16)
    ensures
        final(v)@ == old(v)@ + port_hint(p),
{
    if p == 443 {
        push_str(v, "HTTPS");
    } else if p == 80 {
        push_str(v, "HTTP");
    } else if p == 53 {
        push_str(v, "DNS");
    } else {
        push_str(v, "");
    }
}

/// The flow's label for the timeline, `width` characters wide.
pub fn friendly_label(fl: &FlowStats, idx: &[(IpAddr, String)], width: usize) -> (s: String)
    ensures
        s@ == fit_width(full_label(index_view(idx@), *fl), width as nat),
{
    let host = match hostname_for(idx, fl.key.dst) {
        Some(h) => Some(h),
        None => hostname_for(idx, fl.key.src),
    };
    let mut full: Vec<char> = Vec::new();
    match host {
        Some(h) => {
            let mut hint: Vec<char> = Vec::new();
            push_port_hint(&mut hint, fl.key.dst_port);
            if hint.len() == 0 {
                crate::flow::push_proto_name(&mut full, fl.key.proto);
                push_str(&mut full, " ");
                push_str(&mut full, h.as_str());
                push_str(&mut full, ":");
                push_decimal(&mut full, fl.key.dst_port as u64);
            } else {
                push_str(&mut full, h.as_str());
                push_str(&mut full, " (");
                crate::text::push_all(&mut full, hint.as_slice());
                push_str(&mut full, ")");
            }
        },
        None => {
            crate::flow::push_proto_name(&mut full, fl.key.proto);
            push_str(&mut full, " ");
            push_ip(&mut full, fl.key.dst);
            push_str(&mut full, ":");
            push_decimal(&mut full, fl.key.dst_port as u64);
        },
    }
    assert(full@ == full_label(index_view(idx@), *fl));
    let n = full.len();
    let mut out: Vec<char> = Vec::new();
    if n <= width {
        let mut i: usize = 0;
        while i < n
            invariant
                n == full@.len(),
                i <= n,
                out@ == full@.take(i as int),
            decreases n - i,
        {
            out.push(full[i]);
            i = i + 1;
            assert(out@ =~= full@.take(i as int));
        }
        assert(full@.take(n as int) =~= full@);
        let mut k: usize = n;
        while k < width
            invariant
                n <= k <= width,
                out@ == full@ + Seq::new((k - n) as nat, |i: int| ' '),
            decreases width - k,
        {
            out.push(' ');
            k = k + 1;
            assert(out@ =~= full@ + Seq::new((k - n) as nat, |i: int| ' '));
        }
    } else if width == 1 {
        out.push('…');
    } else if width > 1 {
        let mut i: usize = 0;
        while i < width - 1
            invariant
                width - 1 < n,
                n == full@.len(),
                i <= width - 1,
                out@ == full@.take(i as int),
            decreases width - 1 - i,
        {
            out.push(full[i]);
            i = i + 1;
            assert(out@ =~= full@.take(i as int));
        }
        out.push('…');
    }
    string_of(out.as_slice())
}


// ------------------------------------------------------------ narrative

/// One step of the plain-language story of a TCP flow. Durations are in
/// microseconds; the front end words them.
#[derive(Debug, Clone, Copy, PartialEq, Eq, Structural)]
pub enum NarrativeStep {
    /// The handshake completed, with its round trip when it was measured.
    Connected { rtt_us: Option<i64> },
    /// A SYN went out and no SYN-ACK came back.
    HandshakeIncomplete,
    /// TLS was negotiated, with the first version seen.
    Encrypted { version: Option<u16> },
    /// Data was transferred, with the transfer time when it was measured.
    Transferred { duration_us: Option<i64> },
    MostlyDownloading,
    MostlyUploading,
    /// Skewed in a direction that could not be tied to the local side.
    Skewed { a_to_b: bool },
    Aborted,
    ClosedCleanly,
    RetransmitWarning,
    Failed,
}

/// The story of a flow: who it talked to, and, for TCP, what happened.
pub struct Narrative {
    pub host: String,
    pub is_tcp: bool,
    pub steps: Vec<NarrativeStep>,
}

/// The first TLS version among the rows.
pub open spec fn first_tls_version(ps: Seq<PacketRow>) -> Option<u16>
    decreases ps.len(),
{
    if ps.len() == 0 {
        None
    } else {
        match first_tls_version(ps.drop_last()) {
            Some(v) => Some(v),
            None => ps.last().tls_version,
        }
    }
}

pub open spec fn handshake_rtt(f: FlowStats) -> Option<i64> {
    match f.analysis {
        Some(a) => match a.tcp_timing {
            Some(t) => t.handshake_rtt_us,
            None => None,
        },
        None => None,
    }
}

pub open spec fn transfer_time(f: FlowStats) -> Option<i64> {
    match f.analysis {
        Some(a) => match a.tcp_timing {
            Some(t) => t.data_transfer_us,
            None => None,
        },
        None => None,
    }
}

/// The direction step: downloading or uploading when the local side is
/// known, a neutral skew otherwise, nothing for balanced or unanalysed flows.
pub open spec fn direction_steps(f: FlowStats) -> Seq<NarrativeStep> {
    match f.analysis {
        None => Seq::empty(),
        Some(a) => match a.asymmetry {
            AsymmetryLabel::Balanced => Seq::empty(),
            AsymmetryLabel::AtoBHeavy => match local_side(f.key.src, f.key.dst) {
                Some(LocalSide::A) => seq![NarrativeStep::MostlyUploading],
                Some(LocalSide::B) => seq![NarrativeStep::MostlyDownloading],
                None => seq![NarrativeStep::Skewed { a_to_b: true }],
            },
            AsymmetryLabel::BtoAHeavy => match local_side(f.key.src, f.key.dst) {
                Some(LocalSide::A) => seq![NarrativeStep::MostlyDownloading],
                Some(LocalSide::B) => seq![NarrativeStep::MostlyUploading],
                None => seq![NarrativeStep::Skewed { a_to_b: false }],
            },
        },
    }
}

pub open spec fn connect_steps(f: FlowStats, ph: PhaseTimestamps) -> Seq<NarrativeStep> {
    if ph.syn_ts is Some && ph.syn_ack_ts is Some {
        seq![NarrativeStep::Connected { rtt_us: handshake_rtt(f) }]
    } else if ph.syn_ts is Some {
        seq![NarrativeStep::HandshakeIncomplete]
    } else {
        Seq::empty()
    }
}

pub open spec fn tls_steps(ph: PhaseTimestamps, ver: Option<u16>) -> Seq<NarrativeStep> {
    if ph.has_tls { seq![NarrativeStep::Encrypted { version: ver }] } else { Seq::empty() }
}

pub open spec fn data_steps(f: FlowStats, ph: PhaseTimestamps) -> Seq<NarrativeStep> {
    if ph.first_data_ts is Some {
        seq![NarrativeStep::Transferred { duration_us: transfer_time(f) }]
    } else {
        Seq::empty()
    }
}

pub open spec fn close_steps(ph: PhaseTimestamps, rst: bool) -> Seq<NarrativeStep> {
    if ph.fin_ts is Some {
        if rst { seq![NarrativeStep::Aborted] } else { seq![NarrativeStep::ClosedCleanly] }
    } else {
        Seq::empty()
    }
}

pub open spec fn health_steps(f: FlowStats) -> Seq<NarrativeStep> {
    match f.analysis {
        Some(a) => match a.health {
            HealthBadge::Green => Seq::empty(),
            HealthBadge::Yellow => seq![NarrativeStep::RetransmitWarning],
            HealthBadge::Red => seq![NarrativeStep::Failed],
        },
        None => Seq::empty(),
    }
}

/// The steps of a TCP flow's story, in order: connection, encryption,
/// transfer, direction, close, and the health warning.
pub open spec fn narrative_steps(f: FlowStats, ps: Seq<PacketRow>) -> Seq<NarrativeStep> {
    let ph = phases_of(ps);
    connect_steps(f, ph) + tls_steps(ph, first_tls_version(ps)) + data_steps(f, ph) + direction_steps(f)
        + close_steps(ph, any_rst(ps)) + health_steps(f)
}

/// The host a flow's story names: its hostname, else its destination address.
pub open spec fn story_host(idx: Seq<(IpAddr, Seq<char>)>, f: FlowStats) -> Seq<char> {
    match label_host(idx, f.key.src, f.key.dst) {
        Some(h) => h,
        None => ip_text(f.key.dst),
    }
}

fn first_tls_version_of(fl: &FlowStats, rows: &[PacketRow]) -> (v: Option<u16>)
    ensures
        v == first_tls_version(picked(rows@, fl.packet_indices@)),
{
    let ghost idx = fl.packet_indices@;
    let mut v: Option<u16> = None;
    let mut k: usize = 0;
    while k < fl.packet_indices.len()
        invariant
            k <= idx.len(),
            idx == fl.packet_indices@,
            v == first_tls_version(picked(rows@, idx.take(k as int))),
        decreases idx.len() - k,
    {
        let pi = fl.packet_indices[k];
        let ghost before = picked(rows@, idx.take(k as int));
        proof {
            lemma_picked_step(rows@, idx, k as int);
        }
        if pi < rows.len() {
            assert(before.push(rows@[pi as int]).drop_last() =~= before);
            if v.is_none() {
                v = rows[pi].tls_version;
            }
        }
        k = k + 1;
    }
    assert(idx.take(idx.len() as int) =~= idx);
    v
}

fn any_rst_of(fl: &FlowStats, rows: &[PacketRow]) -> (b: bool)
    ensures
        b == any_rst(picked(rows@, fl.packet_indices@)),
{
    let ghost idx = fl.packet_indices@;
    let ghost p = |r: PacketRow| rst_row(r);
    let mut b = false;
    let mut k: usize = 0;
    while k < fl.packet_indices.len()
        invariant
            k <= idx.len(),
            idx == fl.packet_indices@,
            p == (|r: PacketRow| rst_row(r)),
            b == any_where(picked(rows@, idx.take(k as int)), p),
        decreases idx.len() - k,
    {
        let pi = fl.packet_indices[k];
        let ghost before = picked(rows@, idx.take(k as int));
        proof {
            lemma_picked_step(rows@, idx, k as int);
        }
        if pi < rows.len() {
            proof {
                lemma_any_where_push(before, rows@[pi as int], p);
            }
            let f = flags_or_zero(&rows[pi]);
            if (f & TCP_FLAG_RST) != 0 {
                b = true;
            }
        }
        k = k + 1;
    }
    assert(idx.take(idx.len() as int) =~= idx);
    b
}

fn push_direction_step(steps: &mut Vec<NarrativeStep>, fl: &FlowStats)
    ensures
        final(steps)@ == old(steps)@ + direction_steps(*fl),
{
    let ghost before = steps@;
    match fl.analysis {
        None => {},
        Some(a) => match a.asymmetry {
            AsymmetryLabel::Balanced => {},
            AsymmetryLabel::AtoBHeavy => match infer_local_side(fl.key.src, fl.key.dst) {
                Some(LocalSide::A) => steps.push(NarrativeStep::MostlyUploading),
                Some(LocalSide::B) => steps.push(NarrativeStep::MostlyDownloading),
                None => steps.push(NarrativeStep::Skewed { a_to_b: true }),
            },
            AsymmetryLabel::BtoAHeavy => match infer_local_side(fl.key.src, fl.key.dst) {
                Some(LocalSide::A) => steps.push(NarrativeStep::MostlyDownloading),
                Some(LocalSide::B) => steps.push(NarrativeStep::MostlyUploading),
                None => steps.push(NarrativeStep::Skewed { a_to_b: false }),
            },
        },
    }
    assert(steps@ =~= before + direction_steps(*fl));
}

fn tcp_steps(fl: &FlowStats, rows: &[PacketRow]) -> (steps: Vec<NarrativeStep>)
    ensures
        steps@ == narrative_steps(*fl, picked(rows@, fl.packet_indices@)),
{
    let phases = extract_phases(fl, rows);
    let ver = if phases.has_tls { first_tls_version_of(fl, rows) } else { None };
    let rst = if phases.fin_ts.is_some() { any_rst_of(fl, rows) } else { false };
    let mut steps = steps_from(fl, &phases, ver, rst);
    proof {
        let ps = picked(rows@, fl.packet_indices@);
        assert(tls_steps(phases, ver) == tls_steps(phases, first_tls_version(ps)));
        assert(close_steps(phases, rst) == close_steps(phases, any_rst(ps)));
    }
    steps
}

fn steps_from(fl: &FlowStats, phases: &PhaseTimestamps, ver: Option<u16>, rst: bool) -> (steps: Vec<NarrativeStep>)
    ensures
        steps@ == connect_steps(*fl, *phases) + tls_steps(*phases, ver) + data_steps(*fl, *phases) + direction_steps(*fl)
            + close_steps(*phases, rst) + health_steps(*fl),
{
    let mut steps: Vec<NarrativeStep> = Vec::new();
    let (rtt, dur) = match fl.analysis {
        Some(a) => match a.tcp_timing {
            Some(t) => (t.handshake_rtt_us, t.data_transfer_us),
            None => (None, None),
        },
        None => (None, None),
    };
    if phases.syn_ts.is_some() && phases.syn_ack_ts.is_some() {
        steps.push(NarrativeStep::Connected { rtt_us: rtt });
    } else if phases.syn_ts.is_some() {
        steps.push(NarrativeStep::HandshakeIncomplete);
    }
    assert(steps@ =~= connect_steps(*fl, *phases));
    let ghost s1 = steps@;
    if phases.has_tls {
        steps.push(NarrativeStep::Encrypted { version: ver });
    }
    assert(steps@ =~= s1 + tls_steps(*phases, ver));
    let ghost s2 = steps@;
    if phases.first_data_ts.is_some() {
        steps.push(NarrativeStep::Transferred { duration_us: dur });
    }
    assert(steps@ =~= s2 + data_steps(*fl, *phases));
    push_direction_step(&mut steps, fl);
    let ghost s4 = steps@;
    if phases.fin_ts.is_some() {
        if rst {
            steps.push(NarrativeStep::Aborted);
        } else {
            steps.push(NarrativeStep::ClosedCleanly);
        }
    }
    assert(steps@ =~= s4 + close_steps(*phases, rst));
    let ghost s5 = steps@;
    match fl.analysis {
        Some(a) => match a.health {
            HealthBadge::Green => {},
            HealthBadge::Yellow => steps.push(NarrativeStep::RetransmitWarning),
            HealthBadge::Red => steps.push(NarrativeStep::Failed),
        },
        None => {},
    }
    assert(steps@ =~= s5 + health_steps(*fl));
    steps
}

fn story_host_of(fl: &FlowStats, idx: &[(IpAddr, String)]) -> (h: String)
    ensures
        h@ == story_host(index_view(idx@), *fl),
{
    let host_hit = match hostname_for(idx, fl.key.dst) {
        Some(h) => Some(h),
        None => hostname_for(idx, fl.key.src),
    };
    match host_hit {
        Some(h) => string_of(chars_of(h.as_str()).as_slice()),
        None => {
            let mut v: Vec<char> = Vec::new();
            push_ip(&mut v, fl.key.dst);
            string_of(v.as_slice())
        },
    }
}

/// The story of a flow for the details pane.
pub fn build_narrative(fl: &FlowStats, rows: &[PacketRow], idx: &[(IpAddr, String)]) -> (n: Narrative)
    ensures
        n.host@ == story_host(index_view(idx@), *fl),
        n.is_tcp == (fl.key.proto == L4Proto::Tcp),
        n.is_tcp ==> n.steps@ == narrative_steps(*fl, picked(rows@, fl.packet_indices@)),
        !n.is_tcp ==> n.steps@.len() == 0,
{
    let host = story_host_of(fl, idx);
    let is_tcp = match fl.key.proto {
        L4Proto::Tcp => true,
        _ => false,
    };
    let steps = if is_tcp { tcp_steps(fl, rows) } else { Vec::new() };
    Narrative { host, is_tcp, steps }
}

/// The name of a TLS version for the story.
pub fn tls_version_text(v: Option<u16>) -> (s: &'static str)
    ensures
        s@ == (match v {
            Some(0x0304u16) => "TLS 1.3"@,
            Some(0x0303u16) => "TLS 1.2"@,
            Some(0x0302u16) => "TLS 1.1 (deprecated!)"@,
            Some(0x0301u16) => "TLS 1.0 (deprecated!)"@,
            _ => "TLS"@,
        }),
{
    match v {
        Some(0x0304u16) => "TLS 1.3",
        Some(0x0303u16) => "TLS 1.2",
        Some(0x0302u16) => "TLS 1.1 (deprecated!)",
        Some(0x0301u16) => "TLS 1.0 (deprecated!)",
        _ => "TLS",
    }
}


// ------------------------------------------------------------ patterns

/// The start time of the flow at position `i`, if there is one.
pub open spec fn flow_ts(fs: Seq<FlowStats>, i: usize) -> Option<i64> {
    if (i as int) < fs.len() { fs[i as int].first_ts } else { None }
}

/// Two flow starts at most 100 whole milliseconds apart.
pub open spec fn starts_close(a: i64, b: i64) -> bool {
    let d = b - a;
    (if d >= 0 { d } else { -d }) / 1_000_000 <= 100
}

/// The scan for a burst of connections over the first `n` consecutive pairs of
/// `order`: (connections in the burst, inside a burst, scan stopped). A burst
/// grows while consecutive starts are close; a gap ends the scan once three
/// connections were seen, and resets it otherwise. Pairs with a missing start
/// are passed over.
pub open spec fn burst_scan(fs: Seq<FlowStats>, order: Seq<usize>, n: nat) -> (nat, bool, bool)
    decreases n,
{
    if n == 0 || n >= order.len() {
        (0, false, false)
    } else {
        let prev = burst_scan(fs, order, (n - 1) as nat);
        if prev.2 {
            prev
        } else {
            match (flow_ts(fs, order[n - 1]), flow_ts(fs, order[n as int])) {
                (Some(a), Some(b)) => if starts_close(a, b) {
                    if !prev.1 { (2, true, false) } else { (prev.0 + 1, true, false) }
                } else if prev.0 >= 3 {
                    (prev.0, prev.1, true)
                } else {
                    (0, false, false)
                },
                _ => prev,
            }
        }
    }
}

/// The query names of a flow's DNS rows, normalized; blank names are left out.
pub open spec fn flow_qnames(ps: Seq<PacketRow>) -> Seq<Seq<char>>
    decreases ps.len(),
{
    if ps.len() == 0 {
        Seq::empty()
    } else {
        let rest = flow_qnames(ps.drop_last());
        match ps.last().dns_qname {
            Some(q) => if normalized(q@).len() > 0 { rest.push(normalized(q@)) } else { rest },
            None => rest,
        }
    }
}

/// A DNS lookup of the timeline: (flow position, start time, query names).
pub open spec fn dns_entry(rows: Seq<PacketRow>, fs: Seq<FlowStats>, i: usize) -> Option<(usize, i64, Seq<Seq<char>>)> {
    if (i as int) < fs.len() && fs[i as int].key.proto == L4Proto::Udp && fs[i as int].key.dst_port == 53 {
        match fs[i as int].first_ts {
            Some(ts) => {
                let q = flow_qnames(picked(rows, fs[i as int].packet_indices@));
                if q.len() > 0 { Some((i, ts, q)) } else { None }
            },
            None => None,
        }
    } else {
        None
    }
}

pub open spec fn dns_entries(rows: Seq<PacketRow>, fs: Seq<FlowStats>, order: Seq<usize>) -> Seq<(usize, i64, Seq<Seq<char>>)>
    decreases order.len(),
{
    if order.len() == 0 {
        Seq::empty()
    } else {
        let rest = dns_entries(rows, fs, order.drop_last());
        match dns_entry(rows, fs, order.last()) {
            Some(e) => rest.push(e),
            None => rest,
        }
    }
}

/// A lookup precedes a connection started at `ts` to `host`: it started at most
/// 30 whole seconds before and asked for a matching name.
pub open spec fn dns_fits(e: (usize, i64, Seq<Seq<char>>), ts: i64, host: Seq<char>) -> bool {
    &&& e.1 <= ts
    &&& (ts - e.1) / 1_000_000 <= 30_000
    &&& exists|k: int| 0 <= k < e.2.len() && names_match(host, #[trigger] e.2[k])
}

/// The flow position of the first lookup that precedes the connection.
pub open spec fn first_fit(es: Seq<(usize, i64, Seq<Seq<char>>)>, ts: i64, host: Seq<char>) -> Option<usize>
    decreases es.len(),
{
    if es.len() == 0 {
        None
    } else if dns_fits(es[0], ts, host) {
        Some(es[0].0)
    } else {
        first_fit(es.drop_first(), ts, host)
    }
}

pub open spec fn is_tls_flow(fs: Seq<FlowStats>, i: usize) -> bool {
    (i as int) < fs.len() && fs[i as int].key.proto == L4Proto::Tcp && fs[i as int].key.dst_port == 443
}

/// The lookup that an encrypted connection follows, when it has a start time and a hostname.
pub open spec fn tls_match(
    rows: Seq<PacketRow>,
    fs: Seq<FlowStats>,
    order: Seq<usize>,
    idx: Seq<(IpAddr, Seq<char>)>,
    i: usize,
) -> Option<usize> {
    match fs[i as int].first_ts {
        Some(ts) => match label_host(idx, fs[i as int].key.src, fs[i as int].key.dst) {
            Some(h) => first_fit(dns_entries(rows, fs, order), ts, h),
            None => None,
        },
        None => None,
    }
}

/// Over the first `n` flows of `order`: (encrypted connections, those preceded
/// by a matching lookup, the distinct lookups that preceded one).
pub open spec fn tls_scan(
    rows: Seq<PacketRow>,
    fs: Seq<FlowStats>,
    order: Seq<usize>,
    idx: Seq<(IpAddr, Seq<char>)>,
    n: nat,
) -> (nat, nat, Seq<usize>)
    decreases n,
{
    if n == 0 || n > order.len() {
        (0, 0, Seq::empty())
    } else {
        let prev = tls_scan(rows, fs, order, idx, (n - 1) as nat);
        let i = order[n - 1];
        if is_tls_flow(fs, i) {
            match tls_match(rows, fs, order, idx, i) {
                Some(j) => (prev.0 + 1, prev.1 + 1, if prev.2.contains(j) { prev.2 } else { prev.2.push(j) }),
                None => (prev.0 + 1, prev.1, prev.2),
            }
        } else {
            prev
        }
    }
}

pub open spec fn yellow_flow(fs: Seq<FlowStats>, i: usize) -> bool {
    (i as int) < fs.len() && fs[i as int].analysis is Some && fs[i as int].analysis->0.health == HealthBadge::Yellow
}

pub open spec fn yellow_count(fs: Seq<FlowStats>, order: Seq<usize>, n: nat) -> nat
    decreases n,
{
    if n == 0 || n > order.len() {
        0
    } else {
        yellow_count(fs, order, (n - 1) as nat) + (if yellow_flow(fs, order[n - 1]) { 1nat } else { 0nat })
    }
}

pub open spec fn burst_line(b: nat) -> Seq<Seq<char>> {
    if b >= 3 {
        seq![dec_seq(b) + " connections opened simultaneously — likely a page load or app startup"@]
    } else {
        Seq::empty()
    }
}

pub open spec fn dns_tls_line(total: nat, matched: nat, distinct: nat, lookups: nat) -> Seq<Seq<char>> {
    if matched > 0 {
        seq![dec_seq(distinct) + " DNS lookups preceded "@ + dec_seq(matched) + " encrypted connections to matching hosts"@]
    } else if lookups > 0 && total > 0 {
        seq![dec_seq(lookups) + " DNS lookups and "@ + dec_seq(total) + " encrypted connections are present"@]
    } else {
        Seq::empty()
    }
}

pub open spec fn retransmit_line(y: nat) -> Seq<Seq<char>> {
    if y > 0 {
        seq![dec_seq(y) + " flows have retransmissions (yellow dots in Scatter) — possible network congestion"@]
    } else {
        Seq::empty()
    }
}

/// The pattern callouts for the flows of `order` (at least two of them): a
/// burst of simultaneous connections, lookups followed by encrypted
/// connections, and flows with retransmissions.
pub open spec fn pattern_lines(
    rows: Seq<PacketRow>,
    fs: Seq<FlowStats>,
    order: Seq<usize>,
    idx: Seq<(IpAddr, Seq<char>)>,
) -> Seq<Seq<char>> {
    if order.len() < 2 {
        Seq::empty()
    } else {
        let t = tls_scan(rows, fs, order, idx, order.len());
        burst_line(burst_scan(fs, order, (order.len() - 1) as nat).0)
            + dns_tls_line(t.0, t.1, t.2.len(), dns_entries(rows, fs, order).len())
            + retransmit_line(yellow_count(fs, order, order.len()))
    }
}

fn flow_ts_of(flows: &Vec<FlowStats>, i: usize) -> (t: Option<i64>)
    ensures
        t == flow_ts(flows@, i),
{
    if i < flows.len() { flows[i].first_ts } else { None }
}

fn starts_close_exec(a: i64, b: i64) -> (r: bool)
    ensures
        r == starts_close(a, b),
{
    let d: i128 = b as i128 - a as i128;
    let ad: i128 = if d >= 0 { d } else { -d };
    ad / 1_000_000 <= 100
}

/// Connections in the burst found by the scan over `order`.
fn burst_count(flows: &Vec<FlowStats>, order: &[usize]) -> (c: usize)
    requires
        order@.len() >= 2,
    ensures
        c == burst_scan(flows@, order@, (order@.len() - 1) as nat).0,
{
    let mut count: usize = 0;
    let mut in_burst = false;
    let last = order.len() - 1;
    let mut w: usize = 0;
    while w < last
        invariant
            order@.len() >= 2,
            last == order@.len() - 1,
            w <= last,
            count <= w + 1,
            burst_scan(flows@, order@, w as nat) == (count as nat, in_burst, false),
        decreases order@.len() - w,
    {
        let fa = flow_ts_of(flows, order[w]);
        let fb = flow_ts_of(flows, order[w + 1]);
        match (fa, fb) {
            (Some(a), Some(b)) => {
                if starts_close_exec(a, b) {
                    if !in_burst {
                        in_burst = true;
                        count = 2;
                    } else {
                        count = count + 1;
                    }
                } else if count >= 3 {
                    proof {
                        assert(burst_scan(flows@, order@, (w + 1) as nat) == (count as nat, in_burst, true));
                        lemma_burst_stopped(flows@, order@, (w + 1) as nat, (order@.len() - 1) as nat);
                    }
                    return count;
                } else {
                    in_burst = false;
                    count = 0;
                }
            },
            _ => {},
        }
        w = w + 1;
    }
    count
}

proof fn lemma_burst_stopped(fs: Seq<FlowStats>, order: Seq<usize>, n: nat, m: nat)
    requires
        n <= m < order.len(),
        burst_scan(fs, order, n).2,
    ensures
        burst_scan(fs, order, m) == burst_scan(fs, order, n),
    decreases m - n,
{
    if m > n {
        lemma_burst_stopped(fs, order, n, (m - 1) as nat);
    }
}


/// A DNS lookup found among the flows.
pub struct DnsLookup {
    pub flow: usize,
    pub ts: i64,
    pub names: Vec<String>,
}

pub open spec fn strings_view(v: Seq<String>) -> Seq<Seq<char>> {
    v.map_values(|s: String| s@)
}

pub open spec fn lookups_view(v: Seq<DnsLookup>) -> Seq<(usize, i64, Seq<Seq<char>>)> {
    v.map_values(|e: DnsLookup| (e.flow, e.ts, strings_view(e.names@)))
}

fn flow_qnames_of(fl: &FlowStats, rows: &[PacketRow]) -> (v: Vec<String>)
    ensures
        strings_view(v@) == flow_qnames(picked(rows@, fl.packet_indices@)),
{
    let ghost idx = fl.packet_indices@;
    let mut v: Vec<String> = Vec::new();
    let mut k: usize = 0;
    while k < fl.packet_indices.len()
        invariant
            k <= idx.len(),
            idx == fl.packet_indices@,
            strings_view(v@) == flow_qnames(picked(rows@, idx.take(k as int))),
        decreases idx.len() - k,
    {
        let pi = fl.packet_indices[k];
        let ghost before = picked(rows@, idx.take(k as int));
        let ghost v0 = v@;
        proof {
            lemma_picked_step(rows@, idx, k as int);
        }
        if pi < rows.len() {
            assert(before.push(rows@[pi as int]).drop_last() =~= before);
            match &rows[pi].dns_qname {
                Some(q) => {
                    let n = normalize_name(q.as_str());
                    if n.len() > 0 {
                        v.push(string_of(n.as_slice()));
                        assert(strings_view(v@) =~= strings_view(v0).push(n@));
                    }
                },
                None => {},
            }
        }
        k = k + 1;
    }
    assert(idx.take(idx.len() as int) =~= idx);
    v
}

fn collect_dns(rows: &[PacketRow], flows: &Vec<FlowStats>, order: &[usize]) -> (es: Vec<DnsLookup>)
    ensures
        lookups_view(es@) == dns_entries(rows@, flows@, order@),
{
    let mut es: Vec<DnsLookup> = Vec::new();
    let mut k: usize = 0;
    while k < order.len()
        invariant
            k <= order@.len(),
            lookups_view(es@) == dns_entries(rows@, flows@, order@.take(k as int)),
        decreases order@.len() - k,
    {
        assert(order@.take(k + 1).drop_last() =~= order@.take(k as int));
        let i = order[k];
        let ghost e0 = es@;
        if i < flows.len() && flows[i].key.proto == L4Proto::Udp && flows[i].key.dst_port == 53 {
            match flows[i].first_ts {
                Some(ts) => {
                    let names = flow_qnames_of(&flows[i], rows);
                    if names.len() > 0 {
                        es.push(DnsLookup { flow: i, ts, names });
                        assert(lookups_view(es@) =~= lookups_view(e0).push(lookups_view(es@).last()));
                    }
                },
                None => {},
            }
        }
        assert(lookups_view(es@) =~= dns_entries(rows@, flows@, order@.take(k + 1)));
        k = k + 1;
    }
    assert(order@.take(order@.len() as int) =~= order@);
    es
}

fn lookup_fits(e: &DnsLookup, ts: i64, host: &str) -> (r: bool)
    ensures
        r == dns_fits((e.flow, e.ts, strings_view(e.names@)), ts, host@),
{
    if e.ts > ts {
        return false;
    }
    let d: i128 = ts as i128 - e.ts as i128;
    if d / 1_000_000 > 30_000 {
        return false;
    }
    let ghost ns = strings_view(e.names@);
    let mut k: usize = 0;
    while k < e.names.len()
        invariant
            k <= e.names@.len(),
            ns == strings_view(e.names@),
            e.ts <= ts,
            d == ts - e.ts,
            d / 1_000_000 <= 30_000,
            forall|j: int| 0 <= j < k ==> !names_match(host@, #[trigger] ns[j]),
        decreases e.names@.len() - k,
    {
        if host_matches_qname(host, e.names[k].as_str()) {
            assert(names_match(host@, ns[k as int]));
            assert(d == ts - e.ts);
            assert(exists|j: int| 0 <= j < ns.len() && names_match(host@, #[trigger] ns[j]));
            let ghost tup = (e.flow, e.ts, ns);
            assert(tup.1 <= ts);
            assert((ts - tup.1) / 1_000_000 <= 30_000);
            assert(names_match(host@, tup.2[k as int]));
            assert(dns_fits(tup, ts, host@));
            return true;
        }
        k = k + 1;
    }
    false
}

fn first_fit_of(es: &Vec<DnsLookup>, ts: i64, host: &str) -> (r: Option<usize>)
    ensures
        r == first_fit(lookups_view(es@), ts, host@),
{
    let ghost ev = lookups_view(es@);
    let mut k: usize = 0;
    assert(ev.skip(0) =~= ev);
    while k < es.len()
        invariant
            k <= es@.len(),
            ev == lookups_view(es@),
            first_fit(ev, ts, host@) == first_fit(ev.skip(k as int), ts, host@),
        decreases es@.len() - k,
    {
        let ghost rest = ev.skip(k as int);
        assert(rest[0] == (es@[k as int].flow, es@[k as int].ts, strings_view(es@[k as int].names@)));
        if lookup_fits(&es[k], ts, host) {
            return Some(es[k].flow);
        }
        assert(rest.drop_first() =~= ev.skip(k + 1));
        k = k + 1;
    }
    None
}

fn usize_listed(v: &Vec<usize>, x: usize) -> (r: bool)
    ensures
        r == v@.contains(x),
{
    let mut k: usize = 0;
    while k < v.len()
        invariant
            k <= v@.len(),
            forall|j: int| 0 <= j < k ==> v@[j] != x,
        decreases v@.len() - k,
    {
        if v[k] == x {
            assert(v@[k as int] == x);
            return true;
        }
        k = k + 1;
    }
    false
}

/// The pattern callouts for the flows of `order` (positions in `flows`), with
/// `idx` giving hostnames; see `pattern_lines`.
pub fn detect_patterns(rows: &[PacketRow], flows: &Vec<FlowStats>, order: &[usize], idx: &[(IpAddr, String)]) -> (lines: Vec<String>)
    ensures
        strings_view(lines@) == pattern_lines(rows@, flows@, order@, index_view(idx@)),
{
    let mut lines: Vec<String> = Vec::new();
    if order.len() < 2 {
        assert(strings_view(lines@) =~= Seq::<Seq<char>>::empty());
        return lines;
    }
    // a burst of simultaneous connections
    let b = burst_count(flows, order);
    let ghost l0 = lines@;
    if b >= 3 {
        let mut t: Vec<char> = Vec::new();
        push_decimal(&mut t, b as u64);
        push_str(&mut t, " connections opened simultaneously — likely a page load or app startup");
        lines.push(string_of(t.as_slice()));
    }
    assert(strings_view(lines@) =~= strings_view(l0) + burst_line(b as nat));
    // lookups followed by encrypted connections
    let es = collect_dns(rows, flows, order);
    let ghost ev = lookups_view(es@);
    let mut total: usize = 0;
    let mut matched: usize = 0;
    let mut distinct: Vec<usize> = Vec::new();
    let mut k: usize = 0;
    while k < order.len()
        invariant
            k <= order@.len(),
            ev == lookups_view(es@),
            ev == dns_entries(rows@, flows@, order@),
            total <= k && matched <= k,
            tls_scan(rows@, flows@, order@, index_view(idx@), k as nat) == (total as nat, matched as nat, distinct@),
        decreases order@.len() - k,
    {
        let i = order[k];
        if i < flows.len() && flows[i].key.proto == L4Proto::Tcp && flows[i].key.dst_port == 443 {
            total = total + 1;
            let hit = match flows[i].first_ts {
                Some(ts) => {
                    let host = match hostname_for(idx, flows[i].key.dst) {
                        Some(h) => Some(h),
                        None => hostname_for(idx, flows[i].key.src),
                    };
                    match host {
                        Some(h) => first_fit_of(&es, ts, h.as_str()),
                        None => None,
                    }
                },
                None => None,
            };
            match hit {
                Some(j) => {
                    matched = matched + 1;
                    if !usize_listed(&distinct, j) {
                        distinct.push(j);
                    }
                },
                None => {},
            }
        }
        k = k + 1;
    }
    let ghost l1 = lines@;
    if matched > 0 {
        let mut t: Vec<char> = Vec::new();
        push_decimal(&mut t, distinct.len() as u64);
        push_str(&mut t, " DNS lookups preceded ");
        push_decimal(&mut t, matched as u64);
        push_str(&mut t, " encrypted connections to matching hosts");
        lines.push(string_of(t.as_slice()));
    } else if es.len() > 0 && total > 0 {
        let mut t: Vec<char> = Vec::new();
        push_decimal(&mut t, es.len() as u64);
        push_str(&mut t, " DNS lookups and ");
        push_decimal(&mut t, total as u64);
        push_str(&mut t, " encrypted connections are present");
        lines.push(string_of(t.as_slice()));
    }
    assert(strings_view(lines@) =~= strings_view(l1) + dns_tls_line(total as nat, matched as nat, distinct@.len(), ev.len()));
    // flows with retransmissions
    let mut y: usize = 0;
    let mut k: usize = 0;
    while k < order.len()
        invariant
            k <= order@.len(),
            y <= k,
            y == yellow_count(flows@, order@, k as nat),
        decreases order@.len() - k,
    {
        let i = order[k];
        if i < flows.len() {
            match flows[i].analysis {
                Some(a) => {
                    if a.health == HealthBadge::Yellow {
                        y = y + 1;
                    }
                },
                None => {},
            }
        }
        k = k + 1;
    }
    let ghost l2 = lines@;
    if y > 0 {
        let mut t: Vec<char> = Vec::new();
        push_decimal(&mut t, y as u64);
        push_str(&mut t, " flows have retransmissions (yellow dots in Scatter) — possible network congestion");
        lines.push(string_of(t.as_slice()));
    }
    assert(strings_view(lines@) =~= strings_view(l2) + retransmit_line(y as nat));
    lines
}


// ------------------------------------------------------------ scatter rows

/// The colour of a scatter cell.
#[derive(Debug, Clone, Copy, PartialEq, Eq, Structural)]
pub enum CellColor {
    Muted,
    Cyan,
    Magenta,
    Red,
    White,
}

/// One column of a scatter row.
#[derive(Debug, Clone, Copy, PartialEq, Eq, Structural)]
pub struct ScatterCell {
    pub glyph: char,
    pub color: CellColor,
}

/// The direction kind of a row: 1 for A→B (or unknown), 2 for B→A.
pub open spec fn dir_kind(r: PacketRow) -> u8 {
    match r.flow_dir {
        Some(crate::pcap::FlowDir::BtoA) => 2,
        _ => 1,
    }
}

/// The kind of a column after one more row lands in it: retransmissions win,
/// an empty column takes the row's direction, and mixed directions collide.
pub open spec fn next_kind(k: u8, r: PacketRow) -> u8 {
    if r.tcp_retransmission || r.tcp_out_of_order {
        3
    } else if k == 0 {
        dir_kind(r)
    } else if k != 3 && k != dir_kind(r) {
        4
    } else {
        k
    }
}

/// (kind, packets) of column `c` after the rows `ps`.
pub open spec fn column_state(ps: Seq<PacketRow>, start: i64, end: i64, width: nat, c: nat) -> (u8, nat)
    decreases ps.len(),
{
    if ps.len() == 0 {
        (0, 0)
    } else {
        let prev = column_state(ps.drop_last(), start, end, width, c);
        if ts_col(ps.last().ts, start, end, width) == c {
            (next_kind(prev.0, ps.last()), prev.1 + 1)
        } else {
            prev
        }
    }
}

/// How a column is drawn: blank, a dot, a block for several packets, red for
/// retransmissions, white for mixed directions.
pub open spec fn cell_of(kind: u8, count: nat) -> ScatterCell {
    if kind == 1 {
        ScatterCell { glyph: if count > 1 { '█' } else { '●' }, color: CellColor::Cyan }
    } else if kind == 2 {
        ScatterCell { glyph: if count > 1 { '█' } else { '●' }, color: CellColor::Magenta }
    } else if kind == 3 {
        ScatterCell { glyph: '●', color: CellColor::Red }
    } else if kind == 4 {
        ScatterCell { glyph: '█', color: CellColor::White }
    } else {
        ScatterCell { glyph: ' ', color: CellColor::Muted }
    }
}

/// The cells of a flow's scatter row over a bar of `width` columns spanning
/// `start..end`; none for bars narrower than two columns.
pub fn scatter_cells(fl: &FlowStats, rows: &[PacketRow], start: i64, end: i64, width: usize) -> (cells: Vec<ScatterCell>)
    ensures
        width < 2 ==> cells@.len() == 0,
        width >= 2 ==> cells@.len() == width,
        width >= 2 ==> forall|c: int| 0 <= c < width ==> #[trigger] cells@[c] == cell_of(
            column_state(picked(rows@, fl.packet_indices@), start, end, width as nat, c as nat).0,
            column_state(picked(rows@, fl.packet_indices@), start, end, width as nat, c as nat).1,
        ),
{
    let mut cells: Vec<ScatterCell> = Vec::new();
    if width < 2 {
        return cells;
    }
    let ghost idx = fl.packet_indices@;
    let mut grid: Vec<u8> = Vec::new();
    let mut counts: Vec<usize> = Vec::new();
    let mut c: usize = 0;
    while c < width
        invariant
            c <= width,
            grid@.len() == c && counts@.len() == c,
            forall|j: int| 0 <= j < c ==> grid@[j] == 0 && counts@[j] == 0,
        decreases width - c,
    {
        grid.push(0);
        counts.push(0);
        c = c + 1;
    }
    let mut k: usize = 0;
    while k < fl.packet_indices.len()
        invariant
            width >= 2,
            k <= idx.len(),
            idx == fl.packet_indices@,
            grid@.len() == width && counts@.len() == width,
            forall|j: int| 0 <= j < width ==> (#[trigger] grid@[j], counts@[j] as nat) == column_state(
                picked(rows@, idx.take(k as int)), start, end, width as nat, j as nat),
            forall|j: int| 0 <= j < width ==> #[trigger] counts@[j] <= k,
        decreases idx.len() - k,
    {
        let pi = fl.packet_indices[k];
        let ghost before = picked(rows@, idx.take(k as int));
        proof {
            lemma_picked_step(rows@, idx, k as int);
        }
        if pi < rows.len() {
            let r = &rows[pi];
            let ghost after = before.push(*r);
            assert(after.drop_last() =~= before);
            let col = ts_to_col(r.ts, start, end, width);
            let kind: u8 = match r.flow_dir {
                Some(crate::pcap::FlowDir::BtoA) => 2,
                _ => 1,
            };
            let g = grid[col];
            let ng: u8 = if r.tcp_retransmission || r.tcp_out_of_order {
                3
            } else if g == 0 {
                kind
            } else if g != 3 && g != kind {
                4
            } else {
                g
            };
            grid.set(col, ng);
            let n = counts[col];
            counts.set(col, n + 1);
            assert forall|j: int| 0 <= j < width implies (#[trigger] grid@[j], counts@[j] as nat) == column_state(
                after, start, end, width as nat, j as nat) by {
                assert(column_state(before, start, end, width as nat, j as nat) == column_state(
                    after.drop_last(), start, end, width as nat, j as nat));
            }
        }
        k = k + 1;
    }
    assert(idx.take(idx.len() as int) =~= idx);
    let mut c: usize = 0;
    while c < width
        invariant
            c <= width,
            grid@.len() == width && counts@.len() == width,
            forall|j: int| 0 <= j < width ==> (#[trigger] grid@[j], counts@[j] as nat) == column_state(
                picked(rows@, idx), start, end, width as nat, j as nat),
            idx == fl.packet_indices@,
            cells@.len() == c,
            forall|j: int| 0 <= j < c ==> #[trigger] cells@[j] == cell_of(grid@[j], counts@[j] as nat),
        decreases width - c,
    {
        let g = grid[c];
        let many = counts[c] > 1;
        let cell = if g == 1 {
            ScatterCell { glyph: if many { '█' } else { '●' }, color: CellColor::Cyan }
        } else if g == 2 {
            ScatterCell { glyph: if many { '█' } else { '●' }, color: CellColor::Magenta }
        } else if g == 3 {
            ScatterCell { glyph: '●', color: CellColor::Red }
        } else if g == 4 {
            ScatterCell { glyph: '█', color: CellColor::White }
        } else {
            ScatterCell { glyph: ' ', color: CellColor::Muted }
        };
        cells.push(cell);
        c = c + 1;
    }
    assert forall|j: int| 0 <= j < width implies #[trigger] cells@[j] == cell_of(
        column_state(picked(rows@, fl.packet_indices@), start, end, width as nat, j as nat).0,
        column_state(picked(rows@, fl.packet_indices@), start, end, width as nat, j as nat).1,
    ) by {
        assert((grid@[j], counts@[j] as nat) == column_state(picked(rows@, idx), start, end, width as nat, j as nat));
    }
    cells
}


// ------------------------------------------------------------ timeline order

/// Start times in timeline order: a flow without one comes first.
pub open spec fn start_lt(a: Option<i64>, b: Option<i64>) -> bool {
    match (a, b) {
        (None, Some(_)) => true,
        (Some(x), Some(y)) => x < y,
        _ => false,
    }
}

/// Position `a` of `v` goes before position `b`: an earlier start, or the same
/// start and an earlier position (the order is stable).
pub open spec fn goes_before(fs: Seq<FlowStats>, v: Seq<usize>, a: int, b: int) -> bool {
    start_lt(flow_ts(fs, v[a]), flow_ts(fs, v[b])) || (flow_ts(fs, v[a]) == flow_ts(fs, v[b]) && a < b)
}

/// `p` lists the positions `0..n` of `v`, each once, in timeline order.
pub open spec fn timeline_positions(fs: Seq<FlowStats>, v: Seq<usize>, p: Seq<usize>, n: nat) -> bool {
    &&& p.len() == n
    &&& forall|t: int| 0 <= t < p.len() ==> (#[trigger] p[t]) < n
    &&& forall|x: usize| (x as nat) < n ==> #[trigger] p.contains(x)
    &&& forall|s: int, t: int| 0 <= s < t < p.len() ==> goes_before(fs, v, #[trigger] p[s] as int, #[trigger] p[t] as int)
}

/// `r` is `v` sorted by flow start time, ties kept in their order.
pub open spec fn timeline_sorted(fs: Seq<FlowStats>, v: Seq<usize>, r: Seq<usize>) -> bool {
    exists|p: Seq<usize>| timeline_positions(fs, v, p, v.len())
        && r.len() == v.len()
        && forall|t: int| 0 <= t < r.len() ==> #[trigger] r[t] == v[p[t] as int]
}

fn start_lt_exec(a: Option<i64>, b: Option<i64>) -> (r: bool)
    ensures
        r == start_lt(a, b),
{
    match (a, b) {
        (None, Some(_)) => true,
        (Some(x), Some(y)) => x < y,
        _ => false,
    }
}

/// The visible flows in timeline order (by start time, ties in list order).
pub fn timeline_sorted_indices(visible: &[usize], flows: &Vec<FlowStats>) -> (r: Vec<usize>)
    ensures
        timeline_sorted(flows@, visible@, r@),
{
    let ghost fs = flows@;
    let ghost v = visible@;
    let mut p: Vec<usize> = Vec::new();
    let mut k: usize = 0;
    while k < visible.len()
        invariant
            k <= v.len(),
            v == visible@,
            fs == flows@,
            timeline_positions(fs, v, p@, k as nat),
        decreases v.len() - k,
    {
        let key = flow_ts_of(flows, visible[k]);
        let mut q: usize = 0;
        while q < p.len() && !start_lt_exec(key, flow_ts_of(flows, visible[p[q]]))
            invariant
                q <= p@.len(),
                p@.len() == k,
                k < v.len(),
                v == visible@,
                fs == flows@,
                timeline_positions(fs, v, p@, k as nat),
                key == flow_ts(fs, v[k as int]),
                forall|t: int| 0 <= t < q ==> goes_before(fs, v, #[trigger] p@[t] as int, k as int),
            decreases p@.len() - q,
        {
            q = q + 1;
        }
        let ghost old_p = p@;
        proof {
            if q < old_p.len() {
                assert(start_lt(key, flow_ts(fs, v[old_p[q as int] as int])));
            }
        }
        p.insert(q, k);
        assert(p@ == old_p.insert(q as int, k));
        proof {
            assert forall|s: int, t: int| 0 <= s < t < p@.len() implies goes_before(fs, v, #[trigger] p@[s] as int, #[trigger] p@[t] as int) by {
                if t < q {
                    assert(p@[s] == old_p[s] && p@[t] == old_p[t]);
                } else if t == q {
                    assert(p@[s] == old_p[s]);
                } else if s == q {
                    assert(p@[t] == old_p[t - 1]);
                    assert(start_lt(key, flow_ts(fs, v[old_p[q as int] as int])));
                    if t - 1 > q {
                        assert(goes_before(fs, v, old_p[q as int] as int, old_p[t - 1] as int));
                    }
                } else if s < q {
                    assert(p@[s] == old_p[s] && p@[t] == old_p[t - 1]);
                } else {
                    assert(p@[s] == old_p[s - 1] && p@[t] == old_p[t - 1]);
                }
            }
            assert forall|x: usize| (x as nat) < k + 1 implies #[trigger] p@.contains(x) by {
                if x == k {
                    assert(p@[q as int] == k);
                } else {
                    assert(old_p.contains(x));
                    let w = choose|w: int| 0 <= w < old_p.len() && old_p[w] == x;
                    if w < q {
                        assert(p@[w] == x);
                    } else {
                        assert(p@[w + 1] == x);
                    }
                }
            }
            assert forall|t: int| 0 <= t < p@.len() implies (#[trigger] p@[t]) < k + 1 by {
                if t < q {
                    assert(p@[t] == old_p[t]);
                } else if t > q {
                    assert(p@[t] == old_p[t - 1]);
                }
            }
        }
        k = k + 1;
    }
    let mut r: Vec<usize> = Vec::new();
    let mut t: usize = 0;
    while t < p.len()
        invariant
            t <= p@.len(),
            v == visible@,
            fs == flows@,
            timeline_positions(fs, v, p@, v.len()),
            r@.len() == t,
            forall|j: int| 0 <= j < t ==> #[trigger] r@[j] == v[p@[j] as int],
        decreases p@.len() - t,
    {
        r.push(visible[p[t]]);
        t = t + 1;
    }
    assert(timeline_positions(fs, v, p@, v.len()) && r@.len() == v.len()
        && forall|j: int| 0 <= j < r@.len() ==> #[trigger] r@[j] == v[p@[j] as int]);
    r
}

// ------------------------------------------------------------ legends

/// The colour of a legend piece.
#[derive(Debug, Clone, Copy, PartialEq, Eq, Structural)]
pub enum LegendColor {
    Plain,
    Muted,
    /// The colour of a phase of the Gantt bars.
    Phase(Phase),
    /// The colour of a UDP (or other non-TCP) bar.
    Udp,
    /// The colour of a scatter cell.
    Cell(CellColor),
}

/// One piece of a legend line.
pub struct LegendSpan {
    pub text: String,
    pub color: LegendColor,
}

pub open spec fn legend_view(v: Seq<LegendSpan>) -> Seq<(Seq<char>, LegendColor)> {
    v.map_values(|l: LegendSpan| (l.text@, l.color))
}

/// A swatch and its label.
pub open spec fn swatch(glyph: Seq<char>, color: LegendColor, label: Seq<char>) -> Seq<(Seq<char>, LegendColor)> {
    seq![(glyph, color), (label, LegendColor::Muted)]
}

/// The Gantt legend: a blank as wide as the labels and badges, then a
/// coloured block and a name for each phase and for UDP.
pub open spec fn gantt_legend_spec(label_width: nat) -> Seq<(Seq<char>, LegendColor)> {
    seq![(Seq::new(label_width + 2, |i: int| ' '), LegendColor::Plain)]
        + swatch("█"@, LegendColor::Phase(Phase::Handshake), " handshake  "@)
        + swatch("█"@, LegendColor::Phase(Phase::Tls), " TLS  "@)
        + swatch("█"@, LegendColor::Phase(Phase::Data), " data  "@)
        + swatch("█"@, LegendColor::Phase(Phase::Close), " close  "@)
        + swatch("█"@, LegendColor::Udp, " UDP"@)
}

/// The scatter legend: a blank as wide as the labels and badges, then each
/// kind of dot and what it means.
pub open spec fn scatter_legend_spec(label_width: nat) -> Seq<(Seq<char>, LegendColor)> {
    seq![(Seq::new(label_width + 2, |i: int| ' '), LegendColor::Plain)]
        + swatch("●"@, LegendColor::Cell(CellColor::Cyan), " you→server  "@)
        + swatch("●"@, LegendColor::Cell(CellColor::Magenta), " server→you  "@)
        + swatch("●"@, LegendColor::Cell(CellColor::Red), " retransmit  "@)
        + swatch("█"@, LegendColor::Cell(CellColor::White), " burst"@)
}

fn blank_of(n: usize) -> (s: String)
    ensures
        s@ == Seq::new(n as nat, |i: int| ' '),
{
    let mut v: Vec<char> = Vec::new();
    let mut i: usize = 0;
    while i < n
        invariant
            i <= n,
            v@ == Seq::new(i as nat, |j: int| ' '),
        decreases n - i,
    {
        v.push(' ');
        i = i + 1;
        assert(v@ =~= Seq::new(i as nat, |j: int| ' '));
    }
    string_of(v.as_slice())
}

fn push_swatch(v: &mut Vec<LegendSpan>, glyph: &str, color: LegendColor, label: &str)
    ensures
        legend_view(final(v)@) == legend_view(old(v)@) + swatch(glyph@, color, label@),
{
    let ghost before = legend_view(v@);
    v.push(LegendSpan { text: glyph.to_owned(), color });
    v.push(LegendSpan { text: label.to_owned(), color: LegendColor::Muted });
    assert(legend_view(v@) =~= before + swatch(glyph@, color, label@));
}

/// The legend line above the Gantt bars.
pub fn build_gantt_legend(label_width: usize) -> (v: Vec<LegendSpan>)
    requires
        label_width + 2 <= usize::MAX,
    ensures
        legend_view(v@) == gantt_legend_spec(label_width as nat),
{
    let mut v: Vec<LegendSpan> = Vec::new();
    v.push(LegendSpan { text: blank_of(label_width + 2), color: LegendColor::Plain });
    push_swatch(&mut v, "█", LegendColor::Phase(Phase::Handshake), " handshake  ");
    push_swatch(&mut v, "█", LegendColor::Phase(Phase::Tls), " TLS  ");
    push_swatch(&mut v, "█", LegendColor::Phase(Phase::Data), " data  ");
    push_swatch(&mut v, "█", LegendColor::Phase(Phase::Close), " close  ");
    push_swatch(&mut v, "█", LegendColor::Udp, " UDP");
    assert(legend_view(v@) =~= gantt_legend_spec(label_width as nat));
    v
}

/// The legend line above the scatter rows.
pub fn build_scatter_legend(label_width: usize) -> (v: Vec<LegendSpan>)
    requires
        label_width + 2 <= usize::MAX,
    ensures
        legend_view(v@) == scatter_legend_spec(label_width as nat),
{
    let mut v: Vec<LegendSpan> = Vec::new();
    v.push(LegendSpan { text: blank_of(label_width + 2), color: LegendColor::Plain });
    push_swatch(&mut v, "●", LegendColor::Cell(CellColor::Cyan), " you→server  ");
    push_swatch(&mut v, "●", LegendColor::Cell(CellColor::Magenta), " server→you  ");
    push_swatch(&mut v, "●", LegendColor::Cell(CellColor::Red), " retransmit  ");
    push_swatch(&mut v, "█", LegendColor::Cell(CellColor::White), " burst");
    assert(legend_view(v@) =~= scatter_legend_spec(label_width as nat));
    v
}

} // verus!
