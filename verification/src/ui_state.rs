//! The browser's navigation and search state: which view and modal are open,
//! which flows are visible and selected, and where the stream view stands.
//! Every key press is a transition of this state; the terminal front end draws
//! it and performs what a transition asks for.
use vstd::prelude::*;
use vstd::utf8::encode_utf8;
use crate::casefile::{bookmarks_view, upsert_spec, CaseFile};
use crate::flow::{flow_label_text, picked, FlowIndex, FlowStats};
use crate::hexdump::{first_match_and_scroll, STREAM_MATCH_HIGHLIGHT_CAP};
use crate::pcap::{FlowDir, PacketRow};
use crate::search::{first_match_from, scan_matches};
use crate::stream::{build_stream, stream_bytes};
use crate::domains::DomainsSort;
use crate::ui_filter::{filter_matches, FlowFilter};
use crate::text::{chars_of, str_of_chars, string_push, trim, trim_seq};
use crate::navigation;
use crate::navigation::{back_view, next_tab, prev_tab, Modal, StreamTab, TimelineTab};

verus! {

pub const STREAM_SEARCH_MODAL_TITLE: &'static str = "Stream search";
pub const STREAM_SEARCH_MODAL_HELP: &'static str = "Enter = apply   Esc = cancel   Ctrl+u = clear   (n/N next/prev, Tab/Shift-Tab switch stream)";
pub const STREAM_SEARCH_STATUS_TYPE_TO_SEARCH: &'static str = "type to search";
pub const STREAM_SEARCH_STATUS_MATCH_FOUND: &'static str = "match found (n/N to navigate)";
pub const STREAM_SEARCH_STATUS_NO_MATCHES: &'static str = "no matches";
/// Live capture keeps at most this many rows.
pub const LIVE_CAP: usize = 20_000;
/// Live capture rebuilds the flow index after this many new rows.
pub const REBUILD_EVERY: usize = 200;

pub struct UiState {
    pub show_onboarding: bool,
    pub learning_mode: bool,
    pub view: navigation::View,
    pub flows_back_view: navigation::View,
    pub overview_selected_row: usize,
    /// Selection in the flows list, an index into `visible_flow_indices`.
    pub selected_row: usize,
    pub visible_flow_indices: Vec<usize>,
    pub packets_selected_row: usize,
    pub packets_scroll_row: usize,
    pub packets_viewport_rows: usize,
    pub weird_selected_row: usize,
    pub domains_selected_row: usize,
    pub domains_sort: DomainsSort,
    /// Flows a drill-down restricts the list to (positions in the flow index).
    pub flow_subset: Option<Vec<usize>>,
    pub subset_label: Option<String>,
    pub filter: FlowFilter,
    pub bookmark_note: String,
    pub modal: Modal,
    pub stream_tab: StreamTab,
    pub stream_scroll: u16,
    pub stream_search: String,
    pub stream_last_match: Option<usize>,
    pub stream_match_count: usize,
    pub timeline_tab: TimelineTab,
    /// Selection in the timeline, a position in the flows ordered by start time.
    pub timeline_selected_row: usize,
    /// How many timeline rows the screen shows (for paging).
    pub timeline_viewport_rows: usize,
}

/// A bookmark the front end should store: flow key (its label) and note.
pub struct BookmarkRequest {
    pub key: String,
    pub note: String,
}

// ------------------------------------------------------------ visible flows

/// Positions among the first `n` flows that pass the filter and, when a subset
/// is active, belong to it.
pub open spec fn visible_spec(fs: Seq<FlowStats>, filter: FlowFilter, subset: Option<Seq<usize>>, n: nat) -> Seq<usize>
    decreases n,
{
    if n == 0 {
        Seq::empty()
    } else {
        let rest = visible_spec(fs, filter, subset, (n - 1) as nat);
        let i = (n - 1) as usize;
        let pass = filter_matches(filter.query@, filter.show_tcp, filter.show_udp, fs[n - 1].key) && match subset {
            Some(s) => s.contains(i),
            None => true,
        };
        if pass {
            rest.push(i)
        } else {
            rest
        }
    }
}

pub open spec fn subset_view(s: Option<Vec<usize>>) -> Option<Seq<usize>> {
    match s {
        Some(v) => Some(v@),
        None => None,
    }
}

/// The selection kept inside the list (the last row when it fell off the end).
pub open spec fn clamp_row(row: usize, len: nat) -> usize {
    if row >= len {
        if len == 0 { 0 } else { (len - 1) as usize }
    } else {
        row
    }
}

/// The stream shown under a tab: one direction, or both with a divider.
pub open spec fn tab_bytes(ps: Seq<PacketRow>, tab: StreamTab) -> Seq<u8> {
    match tab {
        StreamTab::AtoB => stream_bytes(ps, FlowDir::AtoB),
        StreamTab::BtoA => stream_bytes(ps, FlowDir::BtoA),
        StreamTab::Combined => stream_bytes(ps, FlowDir::AtoB) + "\n\n---\n\n"@.map_values(|c: char| c as u8) + stream_bytes(ps, FlowDir::BtoA),
    }
}

/// How many matches the stream search highlights (none for an empty query).
pub open spec fn match_count_spec(bytes: Seq<u8>, needle: Seq<u8>) -> nat {
    if needle.len() == 0 {
        0
    } else {
        scan_matches(bytes, needle, 0, STREAM_MATCH_HIGHLIGHT_CAP as nat).len()
    }
}

/// The rows a live buffer of `current_len` rows drops to stay within `cap`.
pub fn compute_live_drop(current_len: usize, cap: usize) -> (r: usize)
    ensures
        r == (if current_len > cap { current_len - cap } else { 0 }),
{
    current_len.saturating_sub(cap)
}

/// Keep a live buffer within `cap` rows: the oldest rows are dropped and the
/// rest renumbered from zero. Returns how many rows were dropped.
pub fn drop_oldest_rows(rows: &mut Vec<PacketRow>, cap: usize) -> (dropped: usize)
    ensures
        dropped == (if old(rows)@.len() > cap { old(rows)@.len() - cap } else { 0 }),
        dropped == 0 ==> final(rows)@ == old(rows)@,
        final(rows)@.len() == old(rows)@.len() - dropped,
        dropped > 0 ==> forall|i: int|
            0 <= i < final(rows)@.len() ==> #[trigger] final(rows)@[i] == (PacketRow { index: i as usize, ..old(rows)@[i + dropped] }),
{
    let drop = compute_live_drop(rows.len(), cap);
    if drop == 0 {
        return 0;
    }
    let ghost orig = rows@;
    let mut kept = rows.split_off(drop);
    let n = kept.len();
    let mut i: usize = 0;
    while i < n
        invariant
            n == kept@.len(),
            n == orig.len() - drop,
            drop <= orig.len(),
            i <= n,
            forall|j: int| 0 <= j < i ==> #[trigger] kept@[j] == (PacketRow { index: j as usize, ..orig[j + drop] }),
            forall|j: int| i <= j < n ==> #[trigger] kept@[j] == orig[j + drop],
        decreases n - i,
    {
        kept[i].index = i;
        i = i + 1;
    }
    *rows = kept;
    drop
}

/// The live buffer after a batch: each new row numbered after those held.
pub open spec fn appended_live(held: Seq<PacketRow>, batch: Seq<PacketRow>) -> Seq<PacketRow> {
    held + Seq::new(batch.len(), |j: int| PacketRow { index: (held.len() + j) as usize, ..batch[j] })
}

/// The live buffer after a batch and the cap: the newest `cap` rows, renumbered
/// from zero, when the batch overflows it.
pub open spec fn live_kept(held: Seq<PacketRow>, batch: Seq<PacketRow>, cap: nat) -> Seq<PacketRow> {
    let a = appended_live(held, batch);
    if a.len() > cap {
        Seq::new(cap, |i: int| PacketRow { index: i as usize, ..a[i + (a.len() - cap)] })
    } else {
        a
    }
}

/// Every row's number is its position.
pub open spec fn numbered(rows: Seq<PacketRow>) -> bool {
    forall|i: int| 0 <= i < rows.len() ==> (#[trigger] rows[i]).index == i
}

/// Take a batch of rows from a live capture: append them, numbered after the
/// rows held, then drop the oldest to stay within `cap`. Returns how many rows
/// were dropped.
pub fn ingest_live_batch(rows: &mut Vec<PacketRow>, batch: Vec<PacketRow>, cap: usize) -> (dropped: usize)
    requires
        old(rows)@.len() + batch@.len() <= usize::MAX,
    ensures
        dropped == (if old(rows)@.len() + batch@.len() > cap { old(rows)@.len() + batch@.len() - cap } else { 0 }),
        final(rows)@ == live_kept(old(rows)@, batch@, cap as nat),
{
    let ghost held = rows@;
    let ghost b0 = batch@;
    let mut batch = batch;
    let n: usize = rows.len();
    let k: usize = batch.len();
    let mut j: usize = 0;
    while j < k
        invariant
            batch@.len() == k,
            k == b0.len(),
            n + k <= usize::MAX,
            j <= k,
            forall|i: int| 0 <= i < j ==> #[trigger] batch@[i] == (PacketRow { index: (n + i) as usize, ..b0[i] }),
            forall|i: int| j <= i < k ==> #[trigger] batch@[i] == b0[i],
        decreases k - j,
    {
        batch[j].index = n + j;
        j = j + 1;
    }
    rows.append(&mut batch);
    assert(rows@ =~= appended_live(held, b0));
    let d = drop_oldest_rows(rows, cap);
    assert(rows@ =~= live_kept(held, b0, cap as nat));
    d
}

/// A batch taken into a numbered live buffer leaves the last `min(n + k, cap)`
/// of the held rows followed by the batch, each numbered by its position.
pub proof fn lemma_live_batch_keeps_newest(held: Seq<PacketRow>, batch: Seq<PacketRow>, cap: nat)
    requires
        numbered(held),
        held.len() + batch.len() <= usize::MAX,
    ensures
        live_kept(held, batch, cap).len() == (if held.len() + batch.len() > cap { cap } else { held.len() + batch.len() }),
        numbered(live_kept(held, batch, cap)),
        forall|i: int| 0 <= i < live_kept(held, batch, cap).len() ==> #[trigger] live_kept(held, batch, cap)[i] == (PacketRow {
            index: i as usize,
            ..(held + batch)[i + (held.len() + batch.len() - live_kept(held, batch, cap).len())]
        }),
{
    let a = appended_live(held, batch);
    let kept = live_kept(held, batch, cap);
    assert forall|i: int| 0 <= i < a.len() implies #[trigger] a[i] == (PacketRow { index: i as usize, ..(held + batch)[i] }) by {
        if i < held.len() {
            assert(held[i].index == i);
        }
    }
    assert forall|i: int| 0 <= i < kept.len() implies (#[trigger] kept[i]).index == i by {
        if a.len() <= cap {
            assert(kept[i] == a[i]);
        }
    }
}

/// The stream bytes of a flow under a tab.
pub fn build_stream_bytes(rows: &[PacketRow], fl: &FlowStats, tab: StreamTab) -> (b: Vec<u8>)
    ensures
        b@ == tab_bytes(picked(rows@, fl.packet_indices@), tab),
{
    let s = build_stream(rows, fl);
    match tab {
        StreamTab::Combined => {
            let mut c = s.a_to_b;
            let ghost a = c@;
            let divider: [u8; 7] = [10u8, 10u8, 45u8, 45u8, 45u8, 10u8, 10u8];
            let mut k: usize = 0;
            while k < 7
                invariant
                    k <= 7,
                    c@ == a + divider@.take(k as int),
                decreases 7 - k,
            {
                c.push(divider[k]);
                k = k + 1;
                assert(c@ =~= a + divider@.take(k as int));
            }
            proof {
                reveal_strlit("\n\n---\n\n");
                assert(divider@.take(7) =~= "\n\n---\n\n"@.map_values(|ch: char| ch as u8));
            }
            let mut k: usize = 0;
            let ghost c0 = c@;
            while k < s.b_to_a.len()
                invariant
                    k <= s.b_to_a@.len(),
                    c@ == c0 + s.b_to_a@.take(k as int),
                decreases s.b_to_a@.len() - k,
            {
                c.push(s.b_to_a[k]);
                k = k + 1;
                assert(c@ =~= c0 + s.b_to_a@.take(k as int));
            }
            assert(s.b_to_a@.take(s.b_to_a@.len() as int) =~= s.b_to_a@);
            c
        },
        StreamTab::AtoB => s.a_to_b,
        StreamTab::BtoA => s.b_to_a,
    }
}

/// Removes the last character of `s`, if it has one.
fn pop_char(s: &mut String)
    ensures
        final(s)@ == (if old(s)@.len() > 0 { old(s)@.drop_last() } else { old(s)@ }),
{
    let cs = chars_of(s.as_str());
    if cs.len() == 0 {
        return;
    }
    let mut v: Vec<char> = Vec::new();
    let last = cs.len() - 1;
    let mut k: usize = 0;
    while k < last
        invariant
            last == cs@.len() - 1,
            k <= last,
            v@ == cs@.take(k as int),
        decreases cs@.len() - k,
    {
        v.push(cs[k]);
        k = k + 1;
        assert(v@ =~= cs@.take(k as int));
    }
    assert(v@ =~= cs@.drop_last());
    *s = str_of_chars(&v);
}

/// The search text as the bytes it is matched against.
pub open spec fn needle_of(s: UiState) -> Seq<u8> {
    encode_utf8(s.stream_search@)
}

/// The selected flow's position among `n` flows, when the selection points at one.
pub open spec fn selected_spec(s: UiState, n: nat) -> Option<usize> {
    if s.selected_row < s.visible_flow_indices@.len() && s.visible_flow_indices@[s.selected_row as int] < n {
        Some(s.visible_flow_indices@[s.selected_row as int])
    } else {
        None
    }
}

/// The stream of the selected flow under the current tab, when a flow is selected.
pub open spec fn selected_stream(s: UiState, rows: Seq<PacketRow>, fs: Seq<FlowStats>) -> Option<Seq<u8>> {
    match selected_spec(s, fs.len()) {
        Some(i) => Some(tab_bytes(picked(rows, fs[i as int].packet_indices@), s.stream_tab)),
        None => None,
    }
}

/// The match count taken from `bytes`, and the view moved to the first match when there is one.
pub open spec fn jump_to_first(s: UiState, bytes: Seq<u8>) -> UiState {
    let counted = UiState { stream_match_count: match_count_spec(bytes, needle_of(s)) as usize, ..s };
    if needle_of(s).len() > 0 {
        match first_match_from(bytes, needle_of(s), 0) {
            Some(p) => UiState {
                stream_last_match: Some(p as usize),
                stream_scroll: ((p / 16) % 65536) as u16,
                ..counted
            },
            None => counted,
        }
    } else {
        counted
    }
}

/// The match count refreshed, in the stream view with a flow selected; otherwise no change.
pub open spec fn refreshed(s: UiState, rows: Seq<PacketRow>, fs: Seq<FlowStats>) -> UiState {
    if s.view == navigation::View::Stream {
        match selected_stream(s, rows, fs) {
            Some(b) => UiState { stream_match_count: match_count_spec(b, needle_of(s)) as usize, ..s },
            None => s,
        }
    } else {
        s
    }
}

/// Switching the stream tab to `t`: only in the stream view; elsewhere the
/// current match and the count are dropped and the tab stays.
pub open spec fn switched_tab(s: UiState, t: StreamTab, rows: Seq<PacketRow>, fs: Seq<FlowStats>) -> UiState {
    if s.view != navigation::View::Stream {
        UiState { stream_last_match: None, stream_match_count: 0, ..s }
    } else {
        let u = UiState { stream_tab: t, stream_scroll: 0, ..s };
        match selected_stream(u, rows, fs) {
            Some(b) => jump_to_first(u, b),
            None => u,
        }
    }
}

/// `after` is `before` with the visible flows recomputed and the selection kept inside them.
pub open spec fn recomputed(before: UiState, after: UiState, fs: Seq<FlowStats>) -> bool {
    &&& after.visible_flow_indices@ == visible_spec(fs, before.filter, subset_view(before.flow_subset), fs.len())
    &&& after == (UiState {
        visible_flow_indices: after.visible_flow_indices,
        selected_row: clamp_row(before.selected_row, after.visible_flow_indices@.len()),
        ..before
    })
}

/// `after` is `before` with a new filter (`query`, `tcp`, `udp`) and the visible flows recomputed.
pub open spec fn refiltered(before: UiState, after: UiState, query: Seq<char>, tcp: bool, udp: bool, fs: Seq<FlowStats>) -> bool {
    &&& after.filter.query@ == query
    &&& after.filter.show_tcp == tcp
    &&& after.filter.show_udp == udp
    &&& recomputed(UiState { filter: after.filter, ..before }, after, fs)
}

/// `after` is `before` with a new search text `text`, the current match and
/// the scroll reset, and the match count refreshed.
pub open spec fn researched(before: UiState, after: UiState, text: Seq<char>, rows: Seq<PacketRow>, fs: Seq<FlowStats>) -> bool {
    &&& after.stream_search@ == text
    &&& after == refreshed(
        UiState { stream_search: after.stream_search, stream_last_match: None, stream_scroll: 0, ..before },
        rows,
        fs,
    )
}

/// `s` without its last character, when it has one.
pub open spec fn popped(s: Seq<char>) -> Seq<char> {
    if s.len() > 0 { s.drop_last() } else { s }
}

/// Applying the stream search: the current match and the count are reset and,
/// in the stream view with a flow selected, taken from that flow's stream.
pub open spec fn search_applied(s: UiState, rows: Seq<PacketRow>, fs: Seq<FlowStats>) -> UiState {
    let u = UiState { stream_last_match: None, stream_match_count: 0, ..s };
    if s.view == navigation::View::Stream {
        match selected_stream(u, rows, fs) {
            Some(b) => jump_to_first(u, b),
            None => u,
        }
    } else {
        u
    }
}

/// The flow label a bookmark dialog stores under, when it is open and a flow is selected.
pub open spec fn bookmark_label(s: UiState, fs: Seq<FlowStats>) -> Option<Seq<char>> {
    if s.modal == Modal::Bookmark {
        match selected_spec(s, fs.len()) {
            Some(i) => Some(flow_label_text(fs[i as int].key)),
            None => None,
        }
    } else {
        None
    }
}

/// Down one row in the flows list, stopping at the last row.
pub open spec fn moved_down(s: UiState) -> UiState {
    UiState {
        selected_row: if s.visible_flow_indices@.len() == 0 {
            0
        } else if s.selected_row + 1 < s.visible_flow_indices@.len() {
            (s.selected_row + 1) as usize
        } else {
            (s.visible_flow_indices@.len() - 1) as usize
        },
        ..s
    }
}

/// Up one row in the flows list, stopping at the first row.
pub open spec fn moved_up(s: UiState) -> UiState {
    UiState {
        selected_row: if s.visible_flow_indices@.len() == 0 || s.selected_row == 0 {
            0
        } else {
            (s.selected_row - 1) as usize
        },
        ..s
    }
}

pub open spec fn packets_opened(s: UiState) -> UiState {
    UiState { view: navigation::View::Packets, packets_selected_row: 0, packets_scroll_row: 0, ..s }
}

pub open spec fn stream_opened(s: UiState) -> UiState {
    UiState { view: navigation::View::Stream, stream_scroll: 0, stream_last_match: None, stream_match_count: 0, ..s }
}

pub open spec fn went_back(s: UiState) -> UiState {
    UiState { view: back_view(s.view), stream_scroll: 0, ..s }
}

pub open spec fn scrolled_down(s: UiState) -> UiState {
    UiState { stream_scroll: if s.stream_scroll < u16::MAX { (s.stream_scroll + 1) as u16 } else { u16::MAX }, ..s }
}

pub open spec fn scrolled_up(s: UiState) -> UiState {
    UiState { stream_scroll: if s.stream_scroll > 0 { (s.stream_scroll - 1) as u16 } else { 0 }, ..s }
}

/// The bookmark dialog opened with an empty note.
pub open spec fn bookmark_opened(before: UiState, after: UiState) -> bool {
    &&& after.bookmark_note@.len() == 0
    &&& after == (UiState { modal: Modal::Bookmark, bookmark_note: after.bookmark_note, ..before })
}

/// The stream search opened: the text stays, the view returns to the top with
/// no current match, and the matches are counted again.
pub open spec fn search_opened(s: UiState, rows: Seq<PacketRow>, fs: Seq<FlowStats>) -> UiState {
    refreshed(UiState { modal: Modal::StreamSearch, stream_last_match: None, stream_match_count: 0, stream_scroll: 0, ..s }, rows, fs)
}

/// A dialog closed without applying it; a cancelled stream search drops its
/// current match and returns to the top.
pub open spec fn cancelled(s: UiState) -> UiState {
    if s.modal == Modal::StreamSearch {
        UiState { stream_last_match: None, stream_match_count: 0, stream_scroll: 0, modal: Modal::Closed, ..s }
    } else {
        UiState { modal: Modal::Closed, ..s }
    }
}

/// The open dialog applied and closed (see `close_modal_apply`).
pub open spec fn applied(
    before: UiState,
    after: UiState,
    rows: Seq<PacketRow>,
    fs: Seq<FlowStats>,
    cf_before: CaseFile,
    cf_after: CaseFile,
    changed: bool,
) -> bool {
    &&& before.modal == Modal::Filter ==> recomputed(UiState { modal: Modal::Closed, ..before }, after, fs)
    &&& before.modal == Modal::StreamSearch ==> after == (UiState { modal: Modal::Closed, ..search_applied(before, rows, fs) })
    &&& before.modal != Modal::Filter && before.modal != Modal::StreamSearch ==> after == (UiState { modal: Modal::Closed, ..before })
    &&& changed == bookmark_label(before, fs) is Some
    &&& match bookmark_label(before, fs) {
        Some(k) => bookmarks_view(cf_after.bookmarks@) == upsert_spec(bookmarks_view(cf_before.bookmarks@), k, k, trim_seq(before.bookmark_note@)),
        None => bookmarks_view(cf_after.bookmarks@) == bookmarks_view(cf_before.bookmarks@),
    }
    &&& cf_after.pcap_path@ == cf_before.pcap_path@
}

/// `c` typed into the open dialog.
pub open spec fn typed(before: UiState, after: UiState, c: char, rows: Seq<PacketRow>, fs: Seq<FlowStats>) -> bool {
    match before.modal {
        Modal::Filter => refiltered(before, after, before.filter.query@.push(c), before.filter.show_tcp, before.filter.show_udp, fs),
        Modal::Bookmark => after.bookmark_note@ == before.bookmark_note@.push(c)
            && after == (UiState { bookmark_note: after.bookmark_note, ..before }),
        Modal::StreamSearch => researched(before, after, before.stream_search@.push(c), rows, fs),
        _ => after == before,
    }
}

/// The last character typed into the open dialog deleted.
pub open spec fn erased(before: UiState, after: UiState, rows: Seq<PacketRow>, fs: Seq<FlowStats>) -> bool {
    match before.modal {
        Modal::Filter => refiltered(before, after, popped(before.filter.query@), before.filter.show_tcp, before.filter.show_udp, fs),
        Modal::Bookmark => after.bookmark_note@ == popped(before.bookmark_note@)
            && after == (UiState { bookmark_note: after.bookmark_note, ..before }),
        Modal::StreamSearch => researched(before, after, popped(before.stream_search@), rows, fs),
        _ => after == before,
    }
}

/// The text of the open dialog cleared.
pub open spec fn cleared(before: UiState, after: UiState, fs: Seq<FlowStats>) -> bool {
    match before.modal {
        Modal::Filter => refiltered(before, after, Seq::empty(), before.filter.show_tcp, before.filter.show_udp, fs),
        Modal::Bookmark => after.bookmark_note@.len() == 0 && after == (UiState { bookmark_note: after.bookmark_note, ..before }),
        Modal::StreamSearch => after.stream_search@.len() == 0 && after == (UiState {
            stream_search: after.stream_search,
            stream_last_match: None,
            stream_match_count: 0,
            stream_scroll: 0,
            ..before
        }),
        _ => after == before,
    }
}

/// The visible flows depend on the filter only through its query text and its
/// two toggles.
proof fn lemma_visible_same_filter(fs: Seq<FlowStats>, f1: FlowFilter, f2: FlowFilter, subset: Option<Seq<usize>>, n: nat)
    requires
        f1.query@ == f2.query@,
        f1.show_tcp == f2.show_tcp,
        f1.show_udp == f2.show_udp,
    ensures
        visible_spec(fs, f1, subset, n) == visible_spec(fs, f2, subset, n),
    decreases n,
{
    if n > 0 {
        lemma_visible_same_filter(fs, f1, f2, subset, (n - 1) as nat);
    }
}

/// A flow passes the filter and, when a subset is active, belongs to it.
pub open spec fn shown(fs: Seq<FlowStats>, filter: FlowFilter, subset: Option<Seq<usize>>, i: usize) -> bool {
    &&& filter_matches(filter.query@, filter.show_tcp, filter.show_udp, fs[i as int].key)
    &&& match subset {
        Some(s) => s.contains(i),
        None => true,
    }
}

/// The flows list holds exactly the flows that pass the filter and the active
/// subset, each once, in index order.
pub proof fn lemma_visible_members(fs: Seq<FlowStats>, filter: FlowFilter, subset: Option<Seq<usize>>, n: nat)
    requires
        n <= fs.len(),
        fs.len() <= usize::MAX,
    ensures
        forall|i: usize| #[trigger] visible_spec(fs, filter, subset, n).contains(i) <==> (i < n && shown(fs, filter, subset, i)),
        forall|p: int, q: int| 0 <= p < q < visible_spec(fs, filter, subset, n).len()
            ==> (#[trigger] visible_spec(fs, filter, subset, n)[p]) < (#[trigger] visible_spec(fs, filter, subset, n)[q]),
    decreases n,
{
    if n > 0 {
        lemma_visible_members(fs, filter, subset, (n - 1) as nat);
        let rest = visible_spec(fs, filter, subset, (n - 1) as nat);
        let v = visible_spec(fs, filter, subset, n);
        assert forall|i: usize| #[trigger] v.contains(i) <==> (i < n && shown(fs, filter, subset, i)) by {
            if v.contains(i) {
                let k = choose|k: int| 0 <= k < v.len() && v[k] == i;
                if k < rest.len() {
                    assert(rest[k] == i);
                    assert(rest.contains(i));
                } else {
                    assert(i == (n - 1) as usize);
                    assert(i as int == n - 1);
                }
            }
            if i < n && shown(fs, filter, subset, i) {
                if i < n - 1 {
                    assert(rest.contains(i));
                    let k = choose|k: int| 0 <= k < rest.len() && rest[k] == i;
                    assert(v[k] == i);
                } else {
                    assert(v[v.len() - 1] == i);
                }
            }
        }
        assert forall|p: int, q: int| 0 <= p < q < v.len() implies (#[trigger] v[p]) < (#[trigger] v[q]) by {
            if q == rest.len() && v.len() > rest.len() {
                assert(rest.contains(v[p]));
            }
        }
    }
}

/// Typing a character into the filter dialog and deleting it again gives back
/// the same filter and the same visible flows.
pub proof fn lemma_filter_type_then_erase(
    s0: UiState,
    s1: UiState,
    s2: UiState,
    c: char,
    rows: Seq<PacketRow>,
    fs: Seq<FlowStats>,
)
    requires
        s0.modal == Modal::Filter,
        typed(s0, s1, c, rows, fs),
        erased(s1, s2, rows, fs),
    ensures
        s2.modal == Modal::Filter,
        s2.filter.query@ == s0.filter.query@,
        s2.filter.show_tcp == s0.filter.show_tcp,
        s2.filter.show_udp == s0.filter.show_udp,
        s2.flow_subset == s0.flow_subset,
        s2.visible_flow_indices@ == visible_spec(fs, s0.filter, subset_view(s0.flow_subset), fs.len()),
{
    assert(s0.filter.query@.push(c).drop_last() =~= s0.filter.query@);
    lemma_visible_same_filter(fs, s2.filter, s0.filter, subset_view(s0.flow_subset), fs.len());
}

/// Typing a character into the bookmark note and deleting it again gives back
/// the state as it was, note included.
pub proof fn lemma_note_type_then_erase(
    s0: UiState,
    s1: UiState,
    s2: UiState,
    c: char,
    rows: Seq<PacketRow>,
    fs: Seq<FlowStats>,
)
    requires
        s0.modal == Modal::Bookmark,
        typed(s0, s1, c, rows, fs),
        erased(s1, s2, rows, fs),
    ensures
        s2.bookmark_note@ == s0.bookmark_note@,
        s2 == (UiState { bookmark_note: s2.bookmark_note, ..s0 }),
{
    assert(s0.bookmark_note@.push(c).drop_last() =~= s0.bookmark_note@);
}

/// Typing a character into the stream search and deleting it again gives back
/// the same search text, with the current match and the scroll reset.
pub proof fn lemma_search_type_then_erase(
    s0: UiState,
    s1: UiState,
    s2: UiState,
    c: char,
    rows: Seq<PacketRow>,
    fs: Seq<FlowStats>,
)
    requires
        s0.modal == Modal::StreamSearch,
        typed(s0, s1, c, rows, fs),
        erased(s1, s2, rows, fs),
    ensures
        s2.modal == Modal::StreamSearch,
        s2.stream_search@ == s0.stream_search@,
        s2.stream_last_match is None,
        s2.stream_scroll == 0,
        s2.view == s0.view,
        s2.stream_tab == s0.stream_tab,
{
    assert(s0.stream_search@.push(c).drop_last() =~= s0.stream_search@);
}

/// Changing the protocol toggles and changing them back (as toggling one twice
/// does) gives back the same filter and visible flows.
pub proof fn lemma_toggle_twice(
    s0: UiState,
    s1: UiState,
    s2: UiState,
    tcp: bool,
    udp: bool,
    fs: Seq<FlowStats>,
)
    requires
        refiltered(s0, s1, s0.filter.query@, tcp, udp, fs),
        refiltered(s1, s2, s1.filter.query@, s0.filter.show_tcp, s0.filter.show_udp, fs),
    ensures
        s2.filter.query@ == s0.filter.query@,
        s2.filter.show_tcp == s0.filter.show_tcp,
        s2.filter.show_udp == s0.filter.show_udp,
        s2.flow_subset == s0.flow_subset,
        s2.visible_flow_indices@ == visible_spec(fs, s0.filter, subset_view(s0.flow_subset), fs.len()),
{
    lemma_visible_same_filter(fs, s2.filter, s0.filter, subset_view(s0.flow_subset), fs.len());
}

impl UiState {
    /// The starting state for a capture: the overview, nothing selected, every
    /// flow visible under the default filter.
    pub fn new(flows: &FlowIndex) -> (s: UiState)
        ensures
            s.view == navigation::View::Overview,
            s.flows_back_view == navigation::View::Overview,
            s.modal == Modal::Closed,
            s.stream_tab == StreamTab::AtoB,
            s.stream_scroll == 0,
            s.stream_search@.len() == 0,
            s.stream_last_match is None,
            s.stream_match_count == 0,
            s.timeline_tab == TimelineTab::Gantt,
            s.timeline_selected_row == 0,
            s.timeline_viewport_rows == 0,
            s.selected_row == 0,
            s.overview_selected_row == 0,
            s.packets_selected_row == 0,
            s.packets_scroll_row == 0,
            s.weird_selected_row == 0,
            s.domains_selected_row == 0,
            s.domains_sort == DomainsSort::Connections,
            s.flow_subset is None,
            s.subset_label is None,
            s.bookmark_note@.len() == 0,
            s.show_onboarding,
            !s.learning_mode,
            s.filter.query@.len() == 0 && s.filter.show_tcp && s.filter.show_udp,
            s.visible_flow_indices@ == visible_spec(flows.flows@, s.filter, None, flows.flows@.len()),
    {
        let mut s = UiState {
            show_onboarding: true,
            learning_mode: false,
            view: navigation::View::Overview,
            flows_back_view: navigation::View::Overview,
            overview_selected_row: 0,
            selected_row: 0,
            visible_flow_indices: Vec::new(),
            packets_selected_row: 0,
            packets_scroll_row: 0,
            packets_viewport_rows: 0,
            weird_selected_row: 0,
            domains_selected_row: 0,
            domains_sort: DomainsSort::Connections,
            flow_subset: None,
            subset_label: None,
            filter: FlowFilter { query: String::new(), show_tcp: true, show_udp: true },
            bookmark_note: String::new(),
            modal: Modal::Closed,
            stream_tab: StreamTab::AtoB,
            stream_scroll: 0,
            stream_search: String::new(),
            stream_last_match: None,
            stream_match_count: 0,
            timeline_tab: TimelineTab::Gantt,
            timeline_selected_row: 0,
            timeline_viewport_rows: 0,
        };
        s.recompute_visible(flows);
        s
    }

    /// Recompute the visible flows from the filter and the subset, and keep the
    /// selection inside the list.
    pub fn recompute_visible(&mut self, flows: &FlowIndex)
        ensures
            recomputed(*old(self), *final(self), flows.flows@),
    {
        let ghost fs = flows.flows@;
        let mut v: Vec<usize> = Vec::new();
        let mut i: usize = 0;
        while i < flows.flows.len()
            invariant
                i <= fs.len(),
                fs == flows.flows@,
                *self == *old(self),
                v@ == visible_spec(fs, self.filter, subset_view(self.flow_subset), i as nat),
            decreases fs.len() - i,
        {
            let ok = self.filter.matches(&flows.flows[i]);
            let in_subset = match &self.flow_subset {
                Some(sub) => {
                    let mut found = false;
                    let mut k: usize = 0;
                    while k < sub.len()
                        invariant
                            k <= sub@.len(),
                            found == sub@.take(k as int).contains(i),
                        decreases sub@.len() - k,
                    {
                        proof {
                            assert(sub@.take(k + 1) =~= sub@.take(k as int).push(sub@[k as int]));
                            crate::domains::lemma_contains_push(sub@.take(k as int), sub@[k as int], i);
                        }
                        if sub[k] == i {
                            found = true;
                        }
                        k = k + 1;
                    }
                    assert(sub@.take(sub@.len() as int) =~= sub@);
                    found
                },
                None => true,
            };
            if ok && in_subset {
                v.push(i);
            }
            i = i + 1;
        }
        self.visible_flow_indices = v;
        if self.selected_row >= self.visible_flow_indices.len() {
            self.selected_row = if self.visible_flow_indices.len() == 0 { 0 } else { self.visible_flow_indices.len() - 1 };
        }
    }

    /// The selected flow's position in the flow index, when there is one.
    pub fn selected_flow_index(&self, flows: &FlowIndex) -> (r: Option<usize>)
        ensures
            r == selected_spec(*self, flows.flows@.len()),
    {
        if self.selected_row < self.visible_flow_indices.len() {
            let i = self.visible_flow_indices[self.selected_row];
            if i < flows.flows.len() {
                return Some(i);
            }
        }
        None
    }

    /// Move the selection one row down, stopping at the last row.
    pub fn move_down(&mut self)
        ensures
            *final(self) == moved_down(*old(self)),
    {
        if self.visible_flow_indices.len() == 0 {
            self.selected_row = 0;
            return;
        }
        let last = self.visible_flow_indices.len() - 1;
        self.selected_row = if self.selected_row < last { self.selected_row + 1 } else { last };
    }

    /// Move the selection one row up, stopping at the first row.
    pub fn move_up(&mut self)
        ensures
            *final(self) == moved_up(*old(self)),
    {
        if self.visible_flow_indices.len() == 0 {
            self.selected_row = 0;
            return;
        }
        self.selected_row = if self.selected_row > 0 { self.selected_row - 1 } else { 0 };
    }

    /// Open the packets of the selected flow, at the top.
    pub fn open_packets(&mut self)
        ensures
            *final(self) == packets_opened(*old(self)),
    {
        self.view = navigation::View::Packets;
        self.packets_selected_row = 0;
        self.packets_scroll_row = 0;
    }

    /// Open the stream of the selected flow, at the top and with no current match.
    pub fn open_stream(&mut self)
        ensures
            *final(self) == stream_opened(*old(self)),
    {
        self.view = navigation::View::Stream;
        self.stream_scroll = 0;
        self.stream_last_match = None;
        self.stream_match_count = 0;
    }

    /// Go back one level: stream to packets, packets and the pivot views to flows.
    pub fn back(&mut self)
        ensures
            *final(self) == went_back(*old(self)),
    {
        self.view = match self.view {
            navigation::View::Flows => navigation::View::Flows,
            navigation::View::Weird => navigation::View::Flows,
            navigation::View::Domains => navigation::View::Flows,
            navigation::View::Packets => navigation::View::Flows,
            navigation::View::Stream => navigation::View::Packets,
            navigation::View::Overview => navigation::View::Overview,
            navigation::View::Timeline => navigation::View::Overview,
        };
        self.stream_scroll = 0;
    }

    /// Matches of the search text in `bytes`, up to the highlight cap.
    pub fn count_stream_matches(&self, bytes: &[u8]) -> (n: usize)
        ensures
            n == match_count_spec(bytes@, needle_of(*self)),
    {
        let needle = self.stream_search.as_str().as_bytes();
        if needle.len() == 0 {
            0
        } else {
            crate::search::find_all_subslice_positions(bytes, needle, STREAM_MATCH_HIGHLIGHT_CAP).len()
        }
    }

    /// Recount the search matches in the stream view when a flow is selected.
    pub fn refresh_stream_match_count(&mut self, rows: &[PacketRow], flows: &FlowIndex)
        ensures
            *final(self) == refreshed(*old(self), rows@, flows.flows@),
    {
        if self.view == navigation::View::Stream {
            match self.selected_flow_index(flows) {
                Some(i) => {
                    let bytes = build_stream_bytes(rows, &flows.flows[i], self.stream_tab);
                    self.stream_match_count = self.count_stream_matches(&bytes);
                },
                None => {},
            }
        }
    }

    /// Show tab `t` of the stream, keeping the search: the view jumps to the
    /// first match in the new stream.
    fn switch_tab(&mut self, t: StreamTab, rows: &[PacketRow], flows: &FlowIndex)
        ensures
            *final(self) == switched_tab(*old(self), t, rows@, flows.flows@),
    {
        if self.view != navigation::View::Stream {
            self.stream_last_match = None;
            self.stream_match_count = 0;
            return;
        }
        self.stream_tab = t;
        self.stream_scroll = 0;
        match self.selected_flow_index(flows) {
            Some(i) => {
                let bytes = build_stream_bytes(rows, &flows.flows[i], self.stream_tab);
                self.stream_match_count = self.count_stream_matches(&bytes);
                let found = first_match_and_scroll(&bytes, self.stream_search.as_str().as_bytes());
                match found {
                    Some((pos, scroll)) => {
                        self.stream_last_match = Some(pos);
                        self.stream_scroll = scroll;
                    },
                    None => {},
                }
            },
            None => {},
        }
    }

    /// The next stream tab (A→B, B→A, combined, and around).
    pub fn tab_next(&mut self, rows: &[PacketRow], flows: &FlowIndex)
        ensures
            *final(self) == switched_tab(*old(self), next_tab(old(self).stream_tab), rows@, flows.flows@),
    {
        let t = match self.stream_tab {
            StreamTab::Combined => StreamTab::AtoB,
            StreamTab::AtoB => StreamTab::BtoA,
            StreamTab::BtoA => StreamTab::Combined,
        };
        self.switch_tab(t, rows, flows);
    }

    /// The previous stream tab.
    pub fn tab_prev(&mut self, rows: &[PacketRow], flows: &FlowIndex)
        ensures
            *final(self) == switched_tab(*old(self), prev_tab(old(self).stream_tab), rows@, flows.flows@),
    {
        let t = match self.stream_tab {
            StreamTab::Combined => StreamTab::BtoA,
            StreamTab::AtoB => StreamTab::Combined,
            StreamTab::BtoA => StreamTab::AtoB,
        };
        self.switch_tab(t, rows, flows);
    }

    /// Scroll the stream one row down; the current match stays.
    pub fn scroll_down(&mut self)
        ensures
            *final(self) == scrolled_down(*old(self)),
    {
        if self.stream_scroll < u16::MAX {
            self.stream_scroll = self.stream_scroll + 1;
        }
    }

    /// Scroll the stream one row up; the current match stays.
    pub fn scroll_up(&mut self)
        ensures
            *final(self) == scrolled_up(*old(self)),
    {
        if self.stream_scroll > 0 {
            self.stream_scroll = self.stream_scroll - 1;
        }
    }

    /// Show or hide TCP flows.
    pub fn toggle_tcp(&mut self, flows: &FlowIndex)
        ensures
            refiltered(*old(self), *final(self), old(self).filter.query@, !old(self).filter.show_tcp, old(self).filter.show_udp, flows.flows@),
    {
        self.filter.show_tcp = !self.filter.show_tcp;
        self.recompute_visible(flows);
    }

    /// Show or hide UDP flows.
    pub fn toggle_udp(&mut self, flows: &FlowIndex)
        ensures
            refiltered(*old(self), *final(self), old(self).filter.query@, old(self).filter.show_tcp, !old(self).filter.show_udp, flows.flows@),
    {
        self.filter.show_udp = !self.filter.show_udp;
        self.recompute_visible(flows);
    }

    /// Open the filter dialog.
    pub fn open_filter(&mut self)
        ensures
            *final(self) == (UiState { modal: Modal::Filter, ..*old(self) }),
    {
        self.modal = Modal::Filter;
    }

    /// Open the bookmark dialog with an empty note.
    pub fn open_bookmark(&mut self)
        ensures
            bookmark_opened(*old(self), *final(self)),
    {
        self.modal = Modal::Bookmark;
        self.bookmark_note = String::new();
    }

    /// Open the stream search: the search text stays, the view returns to the
    /// top with no current match, and the matches are counted again.
    pub fn open_stream_search(&mut self, rows: &[PacketRow], flows: &FlowIndex)
        ensures
            *final(self) == search_opened(*old(self), rows@, flows.flows@),
    {
        self.modal = Modal::StreamSearch;
        self.stream_last_match = None;
        self.stream_match_count = 0;
        self.stream_scroll = 0;
        self.refresh_stream_match_count(rows, flows);
    }

    /// Close the open dialog and apply it: the filter is applied, the bookmark
    /// note is stored (trimmed) for the selected flow in `casefile`, and the
    /// stream search jumps to its first match. Returns whether `casefile`
    /// changed and should be saved.
    pub fn close_modal_apply(&mut self, rows: &[PacketRow], flows: &FlowIndex, casefile: &mut CaseFile) -> (changed: bool)
        ensures
            applied(*old(self), *final(self), rows@, flows.flows@, *old(casefile), *final(casefile), changed),
    {
        let mut changed = false;
        match self.modal {
            Modal::Filter => {
                self.recompute_visible(flows);
            },
            Modal::Bookmark => {
                match self.selected_flow_index(flows) {
                    Some(i) => {
                        let key = flows.flows[i].label();
                        let note_chars = chars_of(self.bookmark_note.as_str());
                        let note = str_of_chars(&trim(note_chars.as_slice()));
                        casefile.upsert_bookmark(key.as_str(), key.as_str(), note.as_str());
                        changed = true;
                    },
                    None => {},
                }
            },
            Modal::StreamSearch => {
                self.stream_last_match = None;
                self.stream_match_count = 0;
                if self.view == navigation::View::Stream {
                    match self.selected_flow_index(flows) {
                        Some(i) => {
                            let bytes = build_stream_bytes(rows, &flows.flows[i], self.stream_tab);
                            self.stream_match_count = self.count_stream_matches(&bytes);
                            let found = first_match_and_scroll(&bytes, self.stream_search.as_str().as_bytes());
                            match found {
                                Some((pos, scroll)) => {
                                    self.stream_last_match = Some(pos);
                                    self.stream_scroll = scroll;
                                },
                                None => {},
                            }
                        },
                        None => {},
                    }
                }
            },
            _ => {},
        }
        self.modal = Modal::Closed;
        changed
    }

    /// Close the open dialog without applying it; a cancelled stream search
    /// drops its current match and returns to the top.
    pub fn close_modal_cancel(&mut self)
        ensures
            *final(self) == cancelled(*old(self)),
    {
        if self.modal == Modal::StreamSearch {
            self.stream_last_match = None;
            self.stream_match_count = 0;
            self.stream_scroll = 0;
        }
        self.modal = Modal::Closed;
    }

    /// Type `c` into the open dialog.
    pub fn modal_push(&mut self, c: char, rows: &[PacketRow], flows: &FlowIndex)
        ensures
            typed(*old(self), *final(self), c, rows@, flows.flows@),
    {
        match self.modal {
            Modal::Filter => {
                string_push(&mut self.filter.query, c);
                self.recompute_visible(flows);
            },
            Modal::Bookmark => {
                string_push(&mut self.bookmark_note, c);
            },
            Modal::StreamSearch => {
                string_push(&mut self.stream_search, c);
                self.stream_last_match = None;
                self.stream_scroll = 0;
                self.refresh_stream_match_count(rows, flows);
            },
            _ => {},
        }
    }

    /// Delete the last character typed into the open dialog.
    pub fn modal_pop(&mut self, rows: &[PacketRow], flows: &FlowIndex)
        ensures
            erased(*old(self), *final(self), rows@, flows.flows@),
    {
        match self.modal {
            Modal::Filter => {
                pop_char(&mut self.filter.query);
                self.recompute_visible(flows);
            },
            Modal::Bookmark => {
                pop_char(&mut self.bookmark_note);
            },
            Modal::StreamSearch => {
                pop_char(&mut self.stream_search);
                self.stream_last_match = None;
                self.stream_scroll = 0;
                self.refresh_stream_match_count(rows, flows);
            },
            _ => {},
        }
    }

    /// Clear the text of the open dialog.
    pub fn modal_clear(&mut self, flows: &FlowIndex)
        ensures
            cleared(*old(self), *final(self), flows.flows@),
    {
        match self.modal {
            Modal::Filter => {
                self.filter.query = String::new();
                self.recompute_visible(flows);
            },
            Modal::Bookmark => {
                self.bookmark_note = String::new();
            },
            Modal::StreamSearch => {
                self.stream_search = String::new();
                self.stream_last_match = None;
                self.stream_match_count = 0;
                self.stream_scroll = 0;
            },
            _ => {},
        }
    }
}

} // verus!
