//! AI summary export: a redacted snapshot of the capture, the request settings,
//! and the markdown around the model's answer.
use vstd::prelude::*;
use crate::domains::{build_domains_summary, domains_summary_of, flows_bytes, DomainItem, DomainsSort};
use crate::explain::{explain_flow, explain_parts};
use crate::flow::{detail_label_spec, flow_label_text, picked, total_len, FlowIndex, FlowStats, HealthBadge};
use crate::pcap::{L4Proto, PacketRow};
use crate::summary::{build_overview, proto_counts, tallies_fit};
use crate::ui_filter::FlowFilter;
use crate::weird::{build_weird_summary, weird_summary_of, WeirdItem};
use crate::text::{
    chars_of, ends_with_seq, is_unicode_whitespace, push_all, push_str, str_of_chars, trim,
    trim_end_seq, trim_seq, trim_start_seq,
};

verus! {

pub const DEFAULT_MODEL: &'static str = "gpt-5-mini";
pub const RESPONSES_API_URL: &'static str = "https://api.openai.com/v1/responses";

/// `trim_end_matches('/')`.
pub open spec fn trim_end_slashes(s: Seq<char>) -> Seq<char>
    decreases s.len(),
{
    if s.len() > 0 && s.last() == '/' {
        trim_end_slashes(s.drop_last())
    } else {
        s
    }
}

/// A Responses API endpoint from a base URL: trimmed, trailing slashes dropped,
/// and `/responses` appended unless it already ends so.
pub open spec fn normalize_url(s: Seq<char>) -> Seq<char> {
    let t = trim_end_slashes(trim_seq(s));
    if ends_with_seq(t, "/responses"@) {
        t
    } else {
        t + "/responses"@
    }
}

pub fn normalize_base_url(input: &str) -> (r: String)
    ensures
        r@ == normalize_url(input@),
{
    let cs = chars_of(input);
    let t0 = trim(cs.as_slice());
    let mut n: usize = t0.len();
    assert(t0@.take(n as int) =~= t0@);
    while n > 0 && t0[n - 1] == '/'
        invariant
            n <= t0@.len(),
            trim_end_slashes(t0@) == trim_end_slashes(t0@.take(n as int)),
        decreases n,
    {
        assert(t0@.take(n as int).drop_last() =~= t0@.take(n - 1));
        n = n - 1;
    }
    let mut t: Vec<char> = Vec::new();
    let mut k: usize = 0;
    while k < n
        invariant
            k <= n <= t0@.len(),
            t@ == t0@.take(k as int),
        decreases n - k,
    {
        t.push(t0[k]);
        k = k + 1;
        assert(t@ =~= t0@.take(k as int));
    }
    let suffix = chars_of("/responses");
    if crate::text::ends_with(t.as_slice(), suffix.as_slice()) {
        str_of_chars(&t)
    } else {
        push_all(&mut t, suffix.as_slice());
        str_of_chars(&t)
    }
}

proof fn lemma_trim_start_first(s: Seq<char>)
    ensures
        trim_start_seq(s).len() > 0 ==> !is_unicode_whitespace(trim_start_seq(s)[0]),
    decreases s.len(),
{
    if s.len() > 0 && is_unicode_whitespace(s[0]) {
        lemma_trim_start_first(s.drop_first());
    }
}

proof fn lemma_trim_end_prefix(s: Seq<char>)
    ensures
        trim_end_seq(s).len() <= s.len(),
        forall|i: int| 0 <= i < trim_end_seq(s).len() ==> trim_end_seq(s)[i] == s[i],
    decreases s.len(),
{
    if s.len() > 0 && is_unicode_whitespace(s.last()) {
        lemma_trim_end_prefix(s.drop_last());
        assert forall|i: int| 0 <= i < trim_end_seq(s).len() implies trim_end_seq(s)[i] == s[i] by {
            assert(s.drop_last()[i] == s[i]);
        }
    }
}

proof fn lemma_slashes_prefix(s: Seq<char>)
    ensures
        trim_end_slashes(s).len() <= s.len(),
        forall|i: int| 0 <= i < trim_end_slashes(s).len() ==> trim_end_slashes(s)[i] == s[i],
    decreases s.len(),
{
    if s.len() > 0 && s.last() == '/' {
        lemma_slashes_prefix(s.drop_last());
        assert forall|i: int| 0 <= i < trim_end_slashes(s).len() implies trim_end_slashes(s)[i] == s[i] by {
            assert(s.drop_last()[i] == s[i]);
        }
    }
}

proof fn lemma_clean_ends(r: Seq<char>)
    requires
        r.len() > 0,
        !is_unicode_whitespace(r[0]),
        r.last() == 's',
    ensures
        trim_seq(r) == r,
        trim_end_slashes(r) == r,
{
    assert(trim_start_seq(r) == r);
    assert(!is_unicode_whitespace('s'));
    assert(trim_end_seq(r) == r);
}

/// Normalising an already normalised URL changes nothing.
pub proof fn lemma_normalize_idempotent(s: Seq<char>)
    ensures
        normalize_url(normalize_url(s)) == normalize_url(s),
{
    reveal_strlit("/responses");
    let u = trim_seq(s);
    let t = trim_end_slashes(u);
    lemma_trim_start_first(s);
    lemma_trim_end_prefix(trim_start_seq(s));
    lemma_slashes_prefix(u);
    if t.len() > 0 {
        assert(t[0] == u[0]);
        assert(u[0] == trim_start_seq(s)[0]);
    }
    let r = normalize_url(s);
    if ends_with_seq(t, "/responses"@) {
        assert(r == t);
        assert(r.last() == "/responses"@[9]);
        lemma_clean_ends(r);
    } else {
        assert(r == t + "/responses"@);
        if t.len() > 0 {
            assert(r[0] == t[0]);
        } else {
            assert(r[0] == '/');
            assert(!is_unicode_whitespace('/'));
        }
        assert(r.last() == 's');
        lemma_clean_ends(r);
        assert(ends_with_seq(r, "/responses"@)) by {
            assert forall|k: int| 0 <= k < 10 implies r[r.len() - 10 + k] == "/responses"@[k] by {}
        }
    }
}

/// The model to ask: the configured one when it is not blank, else the default.
pub open spec fn model_choice(configured: Option<Seq<char>>) -> Seq<char> {
    match configured {
        Some(m) => if trim_seq(m).len() > 0 { m } else { DEFAULT_MODEL@ },
        None => DEFAULT_MODEL@,
    }
}

pub open spec fn opt_str_view(o: Option<&str>) -> Option<Seq<char>> {
    match o {
        Some(s) => Some(s@),
        None => None,
    }
}

fn blank(s: &str) -> (r: bool)
    ensures
        r == (trim_seq(s@).len() == 0),
{
    let cs = chars_of(s);
    trim(cs.as_slice()).len() == 0
}

/// The model from its configured value (an environment variable, when set).
pub fn model_from_setting(configured: Option<&str>) -> (r: String)
    ensures
        r@ == model_choice(opt_str_view(configured)),
{
    match configured {
        Some(m) => if !blank(m) { m.to_owned() } else { DEFAULT_MODEL.to_owned() },
        None => DEFAULT_MODEL.to_owned(),
    }
}

/// The endpoint: the configured base URL, normalised, when it is not blank; else
/// the public Responses API URL.
pub open spec fn base_url_choice(configured: Option<Seq<char>>) -> Seq<char> {
    match configured {
        Some(u) => if trim_seq(u).len() > 0 { normalize_url(u) } else { RESPONSES_API_URL@ },
        None => RESPONSES_API_URL@,
    }
}

pub fn base_url_from_setting(configured: Option<&str>) -> (r: String)
    ensures
        r@ == base_url_choice(opt_str_view(configured)),
{
    match configured {
        Some(u) => if !blank(u) { normalize_base_url(u) } else { RESPONSES_API_URL.to_owned() },
        None => RESPONSES_API_URL.to_owned(),
    }
}

/// An API key counts when it is set and not blank.
pub fn api_key_present(value: Option<&str>) -> (r: bool)
    ensures
        r == (match value {
            Some(v) => trim_seq(v@).len() > 0,
            None => false,
        }),
{
    match value {
        Some(v) => !blank(v),
        None => false,
    }
}

/// `detected` or `missing`, for the help screen.
pub fn api_key_status_label(has_key: bool) -> (r: &'static str)
    ensures
        r@ == (if has_key { "detected"@ } else { "missing"@ }),
{
    if has_key {
        "detected"
    } else {
        "missing"
    }
}

// ------------------------------------------------------------ the model's answer

pub struct ResponsesContentItem {
    pub kind: Option<String>,
    pub text: Option<String>,
}

pub struct ResponsesOutputItem {
    pub content: Option<Vec<ResponsesContentItem>>,
}

pub struct ResponsesError {
    pub message: String,
}

/// The parts of a Responses API reply that the export reads.
pub struct ResponsesApiResponse {
    pub output_text: Option<String>,
    pub output: Option<Vec<ResponsesOutputItem>>,
    pub error: Option<ResponsesError>,
}

/// The trimmed text of an `output_text` content part, when it has non-blank text.
pub open spec fn content_text(c: ResponsesContentItem) -> Option<Seq<char>> {
    match (c.kind, c.text) {
        (Some(k), Some(t)) => if k@ == "output_text"@ && trim_seq(t@).len() > 0 {
            Some(trim_seq(t@))
        } else {
            None
        },
        _ => None,
    }
}

pub open spec fn content_texts(cs: Seq<ResponsesContentItem>) -> Seq<Seq<char>>
    decreases cs.len(),
{
    if cs.len() == 0 {
        Seq::empty()
    } else {
        content_texts(cs.drop_last()) + match content_text(cs.last()) {
            Some(t) => seq![t],
            None => Seq::empty(),
        }
    }
}

pub open spec fn item_texts(c: Option<Vec<ResponsesContentItem>>) -> Seq<Seq<char>> {
    match c {
        Some(v) => content_texts(v@),
        None => Seq::empty(),
    }
}

pub open spec fn output_texts(items: Seq<ResponsesOutputItem>) -> Seq<Seq<char>>
    decreases items.len(),
{
    if items.len() == 0 {
        Seq::empty()
    } else {
        output_texts(items.drop_last()) + item_texts(items.last().content)
    }
}

/// The reply's text: its non-blank `output_text`, trimmed; else the non-blank
/// `output_text` parts of its output items, trimmed and joined by blank lines.
pub open spec fn reply_text(r: ResponsesApiResponse) -> Option<Seq<char>> {
    match r.output_text {
        Some(t) if trim_seq(t@).len() > 0 => Some(trim_seq(t@)),
        _ => match r.output {
            None => None,
            Some(items) => {
                let parts = output_texts(items@);
                if parts.len() == 0 {
                    None
                } else {
                    Some(crate::text::join_seq(parts, "\n\n"@))
                }
            },
        },
    }
}

fn push_content_texts(acc: &mut Vec<Vec<char>>, cs: &Vec<ResponsesContentItem>)
    ensures
        crate::text::texts(final(acc)@) == crate::text::texts(old(acc)@) + content_texts(cs@),
{
    let ghost a0 = crate::text::texts(acc@);
    let mut i: usize = 0;
    while i < cs.len()
        invariant
            i <= cs@.len(),
            crate::text::texts(acc@) == a0 + content_texts(cs@.take(i as int)),
        decreases cs@.len() - i,
    {
        let c = &cs[i];
        assert(cs@.take(i + 1).drop_last() =~= cs@.take(i as int));
        assert(cs@.take(i + 1).last() == *c);
        let ghost before = crate::text::texts(acc@);
        match (&c.kind, &c.text) {
            (Some(k), Some(t)) => {
                let kc = chars_of(k.as_str());
                let want = chars_of("output_text");
                let tt = trim(chars_of(t.as_str()).as_slice());
                if crate::text::chars_eq(kc.as_slice(), want.as_slice()) && tt.len() > 0 {
                    acc.push(tt);
                    assert(crate::text::texts(acc@) =~= before + seq![trim_seq(t@)]);
                } else {
                    assert(crate::text::texts(acc@) =~= before + Seq::<Seq<char>>::empty());
                }
            },
            _ => {
                assert(crate::text::texts(acc@) =~= before + Seq::<Seq<char>>::empty());
            },
        }
        i = i + 1;
    }
    assert(cs@.take(cs@.len() as int) =~= cs@);
}

/// The text of a Responses API reply, if it has any.
pub fn parsed_output_text(resp: &ResponsesApiResponse) -> (r: Option<String>)
    ensures
        match r {
            Some(t) => reply_text(*resp) == Some(t@),
            None => reply_text(*resp) is None,
        },
{
    match &resp.output_text {
        Some(t) => {
            let tt = trim(chars_of(t.as_str()).as_slice());
            if tt.len() > 0 {
                return Some(str_of_chars(&tt));
            }
        },
        None => {},
    }
    match &resp.output {
        None => None,
        Some(items) => {
            let mut joined: Vec<Vec<char>> = Vec::new();
            let mut i: usize = 0;
            while i < items.len()
                invariant
                    i <= items@.len(),
                    crate::text::texts(joined@) == output_texts(items@.take(i as int)),
                decreases items@.len() - i,
            {
                assert(items@.take(i + 1).drop_last() =~= items@.take(i as int));
                assert(items@.take(i + 1).last() == items@[i as int]);
                match &items[i].content {
                    Some(cs) => push_content_texts(&mut joined, cs),
                    None => {
                        assert(crate::text::texts(joined@) =~= crate::text::texts(joined@) + Seq::<Seq<char>>::empty());
                    },
                }
                i = i + 1;
            }
            assert(items@.take(items@.len() as int) =~= items@);
            if joined.len() == 0 {
                None
            } else {
                let j = crate::text::join_parts(&joined, "\n\n");
                Some(str_of_chars(&j))
            }
        },
    }
}

/// The exported markdown: capture, model, the model's summary (ending in a line
/// break) and the snapshot it was given.
pub open spec fn summary_md_text(capture: Seq<char>, model: Seq<char>, summary: Seq<char>, snapshot_json: Seq<char>) -> Seq<char> {
    "# babyshark AI summary\n\n"@ + "Capture: `"@ + capture + "`\n\n"@ + "Model: `"@ + model + "`\n\n"@ + summary
        + (if summary.len() > 0 && summary.last() == '\n' { Seq::empty() } else { seq!['\n'] })
        + "\n## Snapshot JSON\n\n```json\n"@ + snapshot_json + "\n```\n"@
}

pub fn render_ai_summary_md(capture: &str, model: &str, summary: &str, snapshot_json: &str) -> (md: String)
    ensures
        md@ == summary_md_text(capture@, model@, summary@, snapshot_json@),
{
    let mut v: Vec<char> = Vec::new();
    push_str(&mut v, "# babyshark AI summary\n\n");
    push_str(&mut v, "Capture: `");
    push_str(&mut v, capture);
    push_str(&mut v, "`\n\n");
    push_str(&mut v, "Model: `");
    push_str(&mut v, model);
    push_str(&mut v, "`\n\n");
    let sc = chars_of(summary);
    push_all(&mut v, sc.as_slice());
    if !(sc.len() > 0 && sc[sc.len() - 1] == '\n') {
        v.push('\n');
    }
    push_str(&mut v, "\n## Snapshot JSON\n\n```json\n");
    push_str(&mut v, snapshot_json);
    push_str(&mut v, "\n```\n");
    str_of_chars(&v)
}

// ------------------------------------------------------------ snapshot

pub struct SnapshotMeta {
    pub capture: String,
    pub filtered_flows: usize,
    pub total_flows: usize,
    pub total_packets: usize,
    pub total_bytes: u64,
    pub duration_ms: i64,
    pub live_capture: bool,
}

pub struct SnapshotFilter {
    pub query: String,
    pub show_tcp: bool,
    pub show_udp: bool,
    pub subset: Option<String>,
}

pub struct SnapshotProtoMix {
    pub tcp_packets: u64,
    pub udp_packets: u64,
    pub other_packets: u64,
}

pub struct SnapshotTopDomain {
    pub domain: String,
    pub connections: u64,
    pub bytes: u64,
    pub failures: u64,
}

pub struct SnapshotWeirdItem {
    pub title: String,
    pub affected_flows: usize,
    pub why: String,
}

pub struct SnapshotFlow {
    pub label: String,
    pub total_packets: u64,
    pub total_bytes: u64,
    pub health: Option<String>,
    pub direction: Option<String>,
    pub tls_version: Option<String>,
    pub explanation: Option<String>,
}

pub struct TrafficSnapshot {
    pub meta: SnapshotMeta,
    pub filter: SnapshotFilter,
    pub protocol_mix: SnapshotProtoMix,
    pub top_domains: Vec<SnapshotTopDomain>,
    pub weird_findings: Vec<SnapshotWeirdItem>,
    pub top_flows: Vec<SnapshotFlow>,
    pub selected_flow: Option<SnapshotFlow>,
    pub notes: Vec<String>,
}

pub struct AiSummaryOptions {
    pub model: String,
    pub top_n: usize,
}

pub open spec fn opt_string(o: Option<String>) -> Option<Seq<char>> {
    match o {
        Some(s) => Some(s@),
        None => None,
    }
}

/// Four upper-case hex digits.
pub open spec fn hex4_upper(v: u16) -> Seq<char> {
    seq![
        crate::text::hex_digit_upper((v / 4096) as nat),
        crate::text::hex_digit_upper(((v / 256) % 16) as nat),
        crate::text::hex_digit_upper(((v / 16) % 16) as nat),
        crate::text::hex_digit_upper((v % 16) as nat)
    ]
}

pub open spec fn tls_version_name(v: u16) -> Seq<char> {
    if v == 0x0300 {
        "SSL 3.0"@
    } else if v == 0x0301 {
        "TLS 1.0"@
    } else if v == 0x0302 {
        "TLS 1.1"@
    } else if v == 0x0303 {
        "TLS 1.2"@
    } else if v == 0x0304 {
        "TLS 1.3"@
    } else {
        "0x"@ + hex4_upper(v)
    }
}

/// The first TLS version seen among the rows.
pub open spec fn first_tls_version(ps: Seq<PacketRow>) -> Option<u16>
    decreases ps.len(),
{
    if ps.len() == 0 {
        None
    } else {
        match first_tls_version(ps.drop_last()) {
            Some(v) => Some(v),
            None => ps.last().tls_version,
        }
    }
}

pub open spec fn health_word(h: HealthBadge) -> Seq<char> {
    match h {
        HealthBadge::Green => "healthy"@,
        HealthBadge::Yellow => "warning"@,
        HealthBadge::Red => "problem"@,
    }
}

/// The snapshot entry of a flow.
pub open spec fn flow_snapshot_matches(sf: SnapshotFlow, rows: Seq<PacketRow>, fl: FlowStats) -> bool {
    let ps = picked(rows, fl.packet_indices@);
    &&& sf.label@ == flow_label_text(fl.key)
    &&& sf.total_packets == fl.total_packets
    &&& sf.total_bytes == fl.total_bytes
    &&& opt_string(sf.health) == (match fl.analysis {
        Some(a) => Some(health_word(a.health)),
        None => None,
    })
    &&& opt_string(sf.direction) == detail_label_spec(fl.key, fl.analysis)
    &&& opt_string(sf.tls_version) == (match first_tls_version(ps) {
        Some(v) => Some(tls_version_name(v)),
        None => None,
    })
    &&& opt_string(sf.explanation) == Some(explain_parts(fl.key, ps).0)
}

fn push_hex_upper_digit(v: &mut Vec<char>, d: u16)
    requires
        d < 16,
    ensures
        final(v)@ == old(v)@.push(crate::text::hex_digit_upper(d as nat)),
{
    if d < 10 {
        v.push((48u8 + d as u8) as char);
    } else {
        v.push((55u8 + d as u8) as char);
    }
}

fn tls_version_label(v: u16) -> (r: String)
    ensures
        r@ == tls_version_name(v),
{
    if v == 0x0300 {
        "SSL 3.0".to_owned()
    } else if v == 0x0301 {
        "TLS 1.0".to_owned()
    } else if v == 0x0302 {
        "TLS 1.1".to_owned()
    } else if v == 0x0303 {
        "TLS 1.2".to_owned()
    } else if v == 0x0304 {
        "TLS 1.3".to_owned()
    } else {
        let mut c: Vec<char> = Vec::new();
        push_str(&mut c, "0x");
        let ghost c0 = c@;
        push_hex_upper_digit(&mut c, v / 4096);
        push_hex_upper_digit(&mut c, (v / 256) % 16);
        push_hex_upper_digit(&mut c, (v / 16) % 16);
        push_hex_upper_digit(&mut c, v % 16);
        assert(c@ =~= "0x"@ + hex4_upper(v));
        str_of_chars(&c)
    }
}

fn detect_tls_version(rows: &[PacketRow], fl: &FlowStats) -> (r: Option<String>)
    ensures
        opt_string(r) == (match first_tls_version(picked(rows@, fl.packet_indices@)) {
            Some(v) => Some(tls_version_name(v)),
            None => None,
        }),
{
    let ghost idx = fl.packet_indices@;
    let mut found: Option<u16> = None;
    let mut k: usize = 0;
    while k < fl.packet_indices.len()
        invariant
            k <= idx.len(),
            idx == fl.packet_indices@,
            found == first_tls_version(picked(rows@, idx.take(k as int))),
        decreases idx.len() - k,
    {
        let pi = fl.packet_indices[k];
        let ghost before = picked(rows@, idx.take(k as int));
        assert(idx.take(k + 1).drop_last() =~= idx.take(k as int));
        if pi < rows.len() {
            assert(before.push(rows@[pi as int]).drop_last() =~= before);
            if found.is_none() {
                found = rows[pi].tls_version;
            }
        }
        k = k + 1;
    }
    assert(idx.take(idx.len() as int) =~= idx);
    match found {
        Some(v) => Some(tls_version_label(v)),
        None => None,
    }
}

fn snapshot_flow(rows: &[PacketRow], fl: &FlowStats) -> (sf: SnapshotFlow)
    ensures
        flow_snapshot_matches(sf, rows@, *fl),
{
    let explanation = explain_flow(rows, fl);
    let health = match fl.analysis {
        Some(a) => Some(
            match a.health {
                HealthBadge::Green => "healthy".to_owned(),
                HealthBadge::Yellow => "warning".to_owned(),
                HealthBadge::Red => "problem".to_owned(),
            },
        ),
        None => None,
    };
    let direction = match fl.asymmetry_detail_label() {
        Some(s) => Some(s.to_owned()),
        None => None,
    };
    SnapshotFlow {
        label: fl.label(),
        total_packets: fl.total_packets,
        total_bytes: fl.total_bytes,
        health,
        direction,
        tls_version: detect_tls_version(rows, fl),
        explanation: Some(explanation.likely),
    }
}

/// Milliseconds from the first row to the last (truncated; 0 when negative or
/// with no rows).
pub open spec fn duration_ms_spec(rows: Seq<PacketRow>) -> i64 {
    if rows.len() == 0 {
        0
    } else {
        let d = rows.last().ts - rows[0].ts;
        if d >= 0 {
            (d / 1_000_000) as i64
        } else {
            0
        }
    }
}

pub open spec fn no_hostnames(rows: Seq<PacketRow>) -> bool {
    forall|i: int| 0 <= i < rows.len() ==> (#[trigger] rows[i]).tls_sni is None && rows[i].http_host is None
        && rows[i].dns_qname is None
}

pub open spec fn some_tcp(rows: Seq<PacketRow>) -> bool {
    exists|i: int| 0 <= i < rows.len() && (#[trigger] rows[i]).proto == Some(L4Proto::Tcp)
}

pub open spec fn no_tcp_hints(rows: Seq<PacketRow>) -> bool {
    forall|i: int| 0 <= i < rows.len() ==> !(#[trigger] rows[i]).tcp_retransmission && !rows[i].tcp_out_of_order
}

pub open spec fn tcp_without_tls_version(rows: Seq<PacketRow>) -> bool {
    exists|i: int| 0 <= i < rows.len() && (#[trigger] rows[i]).proto == Some(L4Proto::Tcp) && rows[i].tls_version is None
}

/// The caveats that go with the snapshot.
pub open spec fn notes_spec(rows: Seq<PacketRow>) -> Seq<Seq<char>> {
    crate::explain::when(no_hostnames(rows), "Very little hostname metadata was visible in this capture."@)
        + crate::explain::when(some_tcp(rows) && no_tcp_hints(rows), "No live TCP analysis hints were present; retransmit detection may be limited."@)
        + crate::explain::when(tcp_without_tls_version(rows), "Most encrypted flows do not expose payload contents; conclusions rely on metadata and timing."@)
}

/// Positions of the flows (among the first `n`) that pass the filter.
pub open spec fn visible_flows(fs: Seq<FlowStats>, filter: FlowFilter, n: nat) -> Seq<int>
    decreases n,
{
    if n == 0 {
        Seq::empty()
    } else {
        let rest = visible_flows(fs, filter, (n - 1) as nat);
        if crate::report::shown_by(filter, fs[n - 1]) {
            rest.push(n - 1)
        } else {
            rest
        }
    }
}

/// The weird items that flag at least one flow, in order.
pub open spec fn flagged_items(w: Seq<WeirdItem>) -> Seq<WeirdItem>
    decreases w.len(),
{
    if w.len() == 0 {
        Seq::empty()
    } else {
        let rest = flagged_items(w.drop_last());
        if w.last().flow_indices@.len() > 0 {
            rest.push(w.last())
        } else {
            rest
        }
    }
}

pub open spec fn clamp_top(n: usize) -> nat {
    if n < 1 {
        1
    } else if n > 10 {
        10
    } else {
        n as nat
    }
}

pub open spec fn min_nat(a: nat, b: nat) -> nat {
    if a < b {
        a
    } else {
        b
    }
}

pub open spec fn top_domain_matches(t: SnapshotTopDomain, d: DomainItem) -> bool {
    &&& t.domain@ == d.domain@
    &&& t.connections == d.stats.connections
    &&& t.bytes == d.stats.bytes
    &&& t.failures == d.stats.failures
}

pub open spec fn weird_entry_matches(t: SnapshotWeirdItem, w: WeirdItem) -> bool {
    &&& t.title@ == w.title@
    &&& t.affected_flows == w.flow_indices@.len()
    &&& t.why@ == w.why@
}

/// The counters of the summaries fit: the byte total and every host's and
/// port's byte count in 64 bits, and the row count well inside them.
pub open spec fn counters_fit(rows: Seq<PacketRow>, fs: Seq<FlowStats>) -> bool {
    &&& total_len(rows) <= u64::MAX
    &&& tallies_fit(rows)
    &&& 3 * rows.len() + 2 < u64::MAX
    &&& flows_bytes(fs, fs.len()) <= u64::MAX
}

proof fn lemma_flagged_step(w: Seq<WeirdItem>, i: int)
    requires
        0 <= i < w.len(),
    ensures
        flagged_items(w.take(i + 1)) == (if w[i].flow_indices@.len() > 0 {
            flagged_items(w.take(i)).push(w[i])
        } else {
            flagged_items(w.take(i))
        }),
{
    assert(w.take(i + 1).drop_last() =~= w.take(i));
}

/// A redacted summary of the capture for the model: totals, filter, protocol
/// mix, the top domains (by connections), the weird findings that flag flows,
/// the first visible flows, the selected flow and caveats; at most `top_n`
/// (clamped to 1..=10) of each list.
pub fn build_snapshot(
    capture: &str,
    rows: &[PacketRow],
    flows: &FlowIndex,
    filter: &FlowFilter,
    subset_label: Option<&str>,
    selected_flow: Option<&FlowStats>,
    top_n: usize,
) -> (s: TrafficSnapshot)
    requires
        counters_fit(rows@, flows.flows@),
    ensures
        s.meta.capture@ == capture@,
        s.meta.filtered_flows == visible_flows(flows.flows@, *filter, flows.flows@.len()).len(),
        s.meta.total_flows == flows.flows@.len(),
        s.meta.total_packets == rows@.len(),
        s.meta.total_bytes == total_len(rows@),
        s.meta.duration_ms == duration_ms_spec(rows@),
        s.meta.live_capture == crate::text::starts_with_seq(capture@, "live:"@),
        s.filter.query@ == filter.query@,
        s.filter.show_tcp == filter.show_tcp,
        s.filter.show_udp == filter.show_udp,
        opt_string(s.filter.subset) == opt_str_view(subset_label),
        s.protocol_mix.tcp_packets == proto_counts(rows@).0,
        s.protocol_mix.udp_packets == proto_counts(rows@).1,
        s.protocol_mix.other_packets == proto_counts(rows@).2,
        exists|items: Seq<DomainItem>| #[trigger] domains_summary_of(items, rows@, flows.flows@, DomainsSort::Connections)
            && s.top_domains@.len() == min_nat(clamp_top(top_n), items.len())
            && forall|j: int| 0 <= j < s.top_domains@.len() ==> top_domain_matches(#[trigger] s.top_domains@[j], items[j]),
        exists|w: Seq<WeirdItem>| #[trigger] weird_summary_of(w, flows.flows@, rows@)
            && s.weird_findings@.len() == min_nat(clamp_top(top_n), flagged_items(w).len())
            && forall|j: int| 0 <= j < s.weird_findings@.len() ==> weird_entry_matches(#[trigger] s.weird_findings@[j], flagged_items(w)[j]),
        s.top_flows@.len() == min_nat(clamp_top(top_n), visible_flows(flows.flows@, *filter, flows.flows@.len()).len()),
        forall|j: int| 0 <= j < s.top_flows@.len() ==> flow_snapshot_matches(#[trigger] s.top_flows@[j], rows@, flows.flows@[visible_flows(flows.flows@, *filter, flows.flows@.len())[j]]),
        match selected_flow {
            Some(fl) => s.selected_flow matches Some(sf) && flow_snapshot_matches(sf, rows@, *fl),
            None => s.selected_flow is None,
        },
        crate::explain::strings(s.notes@) == notes_spec(rows@),
{
    let n: usize = if top_n < 1 {
        1
    } else if top_n > 10 {
        10
    } else {
        top_n
    };
    let ghost fs = flows.flows@;
    // visible flows
    let mut visible: Vec<usize> = Vec::new();
    let mut i: usize = 0;
    while i < flows.flows.len()
        invariant
            i <= fs.len(),
            fs == flows.flows@,
            visible@.map_values(|x: usize| x as int) == visible_flows(fs, *filter, i as nat),
            forall|q: int| 0 <= q < visible@.len() ==> visible@[q] < fs.len(),
        decreases fs.len() - i,
    {
        let ghost before = visible@;
        if filter.matches(&flows.flows[i]) {
            visible.push(i);
            assert(visible@.map_values(|x: usize| x as int) =~= before.map_values(|x: usize| x as int).push(i as int));
        }
        i = i + 1;
    }
    let ghost vis = visible_flows(fs, *filter, fs.len());
    assert(visible@.len() == vis.len());
    let overview = build_overview(rows, flows, n);
    let weird = build_weird_summary(rows, flows);
    let domains = build_domains_summary(rows, flows, DomainsSort::Connections);
    let duration_ms: i64 = if rows.len() == 0 {
        0
    } else {
        let d = rows[rows.len() - 1].ts as i128 - rows[0].ts as i128;
        if d >= 0 {
            (d / 1_000_000) as i64
        } else {
            0
        }
    };
    // notes
    let mut all_quiet = true;
    let mut any_tcp = false;
    let mut no_hints = true;
    let mut tcp_no_tls = false;
    let mut r: usize = 0;
    while r < rows.len()
        invariant
            r <= rows@.len(),
            all_quiet == no_hostnames(rows@.take(r as int)),
            any_tcp == some_tcp(rows@.take(r as int)),
            no_hints == no_tcp_hints(rows@.take(r as int)),
            tcp_no_tls == tcp_without_tls_version(rows@.take(r as int)),
        decreases rows@.len() - r,
    {
        let row = &rows[r];
        let ghost pre = rows@.take(r as int);
        let ghost post = rows@.take(r + 1);
        assert(post =~= pre.push(*row));
        assert forall|q: int| 0 <= q < pre.len() implies #[trigger] post[q] == pre[q] by {}
        assert(post[r as int] == *row);
        if !(row.tls_sni.is_none() && row.http_host.is_none() && row.dns_qname.is_none()) {
            all_quiet = false;
        }
        if row.proto == Some(L4Proto::Tcp) {
            any_tcp = true;
            if row.tls_version.is_none() {
                tcp_no_tls = true;
            }
        }
        if row.tcp_retransmission || row.tcp_out_of_order {
            no_hints = false;
        }
        proof {
            if tcp_no_tls && !tcp_without_tls_version(pre) {
                assert(post[r as int].proto == Some(L4Proto::Tcp) && post[r as int].tls_version is None);
            }
            if tcp_without_tls_version(post) {
                let w = choose|w: int| 0 <= w < post.len() && (#[trigger] post[w]).proto == Some(L4Proto::Tcp) && post[w].tls_version is None;
                if w < pre.len() {
                    assert(pre[w] == post[w]);
                }
            }
            if any_tcp && !some_tcp(pre) {
                assert(post[r as int].proto == Some(L4Proto::Tcp));
            }
            if some_tcp(post) {
                let w = choose|w: int| 0 <= w < post.len() && (#[trigger] post[w]).proto == Some(L4Proto::Tcp);
                if w < pre.len() {
                    assert(pre[w] == post[w]);
                }
            }
            if no_tcp_hints(pre) && !no_hints {
                assert(!no_tcp_hints(post)) by {
                    assert(post[r as int].tcp_retransmission || post[r as int].tcp_out_of_order);
                }
            }
            if !no_tcp_hints(pre) {
                let w = choose|w: int| 0 <= w < pre.len() && !(!(#[trigger] pre[w]).tcp_retransmission && !pre[w].tcp_out_of_order);
                assert(post[w] == pre[w]);
            }
            if no_hostnames(pre) && !all_quiet {
                assert(!no_hostnames(post)) by {
                    assert(!(post[r as int].tls_sni is None && post[r as int].http_host is None && post[r as int].dns_qname is None));
                }
            }
            if !no_hostnames(pre) {
                let w = choose|w: int| 0 <= w < pre.len() && !((#[trigger] pre[w]).tls_sni is None && pre[w].http_host is None && pre[w].dns_qname is None);
                assert(post[w] == pre[w]);
            }
        }
        r = r + 1;
    }
    assert(rows@.take(rows@.len() as int) =~= rows@);
    let mut notes: Vec<String> = Vec::new();
    let ghost n0 = crate::explain::strings(notes@);
    if all_quiet {
        notes.push("Very little hostname metadata was visible in this capture.".to_owned());
    }
    if any_tcp && no_hints {
        notes.push("No live TCP analysis hints were present; retransmit detection may be limited.".to_owned());
    }
    if tcp_no_tls {
        notes.push("Most encrypted flows do not expose payload contents; conclusions rely on metadata and timing.".to_owned());
    }
    assert(crate::explain::strings(notes@) =~= notes_spec(rows@));
    // top domains
    let mut top_domains: Vec<SnapshotTopDomain> = Vec::new();
    let mut j: usize = 0;
    while j < domains.items.len() && j < n
        invariant
            j <= domains.items@.len(),
            j <= n,
            top_domains@.len() == j,
            forall|q: int| 0 <= q < j ==> top_domain_matches(#[trigger] top_domains@[q], domains.items@[q]),
        decreases n - j,
    {
        let it = &domains.items[j];
        top_domains.push(SnapshotTopDomain {
            domain: it.domain.clone(),
            connections: it.stats.connections,
            bytes: it.stats.bytes,
            failures: it.stats.failures,
        });
        j = j + 1;
    }
    // weird findings
    let ghost ws = weird.items@;
    let mut findings: Vec<SnapshotWeirdItem> = Vec::new();
    let mut j: usize = 0;
    while j < weird.items.len()
        invariant
            j <= ws.len(),
            ws == weird.items@,
            findings@.len() == min_nat(n as nat, flagged_items(ws.take(j as int)).len()),
            forall|q: int| 0 <= q < findings@.len() ==> weird_entry_matches(#[trigger] findings@[q], flagged_items(ws.take(j as int))[q]),
        decreases ws.len() - j,
    {
        proof {
            lemma_flagged_step(ws, j as int);
        }
        let it = &weird.items[j];
        if it.flow_indices.len() > 0 && findings.len() < n {
            findings.push(SnapshotWeirdItem { title: it.title.clone(), affected_flows: it.flow_indices.len(), why: it.why.clone() });
        }
        j = j + 1;
    }
    assert(ws.take(ws.len() as int) =~= ws);
    // top flows
    let mut top_flows: Vec<SnapshotFlow> = Vec::new();
    let mut j: usize = 0;
    while j < visible.len() && j < n
        invariant
            j <= visible@.len(),
            j <= n,
            top_flows@.len() == j,
            visible@.map_values(|x: usize| x as int) == vis,
            forall|q: int| 0 <= q < visible@.len() ==> visible@[q] < fs.len(),
            fs == flows.flows@,
            forall|q: int| 0 <= q < j ==> flow_snapshot_matches(#[trigger] top_flows@[q], rows@, fs[vis[q]]),
        decreases n - j,
    {
        assert(vis[j as int] == visible@[j as int] as int);
        top_flows.push(snapshot_flow(rows, &flows.flows[visible[j]]));
        j = j + 1;
    }
    let selected = match selected_flow {
        Some(fl) => Some(snapshot_flow(rows, fl)),
        None => None,
    };
    let live_prefix = chars_of("live:");
    let cap_cs = chars_of(capture);
    let live = crate::text::starts_with(cap_cs.as_slice(), live_prefix.as_slice());
    let subset = match subset_label {
        Some(x) => Some(x.to_owned()),
        None => None,
    };
    proof {
        assert(domains_summary_of(domains.items@, rows@, fs, DomainsSort::Connections));
        assert(weird_summary_of(ws, fs, rows@));
    }
    TrafficSnapshot {
        meta: SnapshotMeta {
            capture: capture.to_owned(),
            filtered_flows: visible.len(),
            total_flows: flows.flows.len(),
            total_packets: rows.len(),
            total_bytes: overview.total_bytes,
            duration_ms,
            live_capture: live,
        },
        filter: SnapshotFilter { query: filter.query.clone(), show_tcp: filter.show_tcp, show_udp: filter.show_udp, subset },
        protocol_mix: SnapshotProtoMix {
            tcp_packets: overview.protos.tcp,
            udp_packets: overview.protos.udp,
            other_packets: overview.protos.other,
        },
        top_domains,
        weird_findings: findings,
        top_flows,
        selected_flow: selected,
        notes,
    }
}

} // verus!
