//! What each key does: a key press is a transition of the browser state, and
//! what it asks of the front end (quit, export a report, save the case file)
//! comes back as an outcome.
use vstd::prelude::*;
use crate::casefile::{bookmarks_view, upsert_spec, CaseFile};
use crate::domains::{DomainItem, DomainsSort};
use crate::flow::{FlowIndex, FlowStats};
use crate::hexdump::{next_match_and_scroll, next_start, prev_end, prev_match_and_scroll};
use crate::navigation;
use crate::navigation::{back_view, next_tab, other_timeline_tab, prev_tab, Modal, StreamTab, TimelineTab};
use crate::pcap::{ip_text, push_ip, IpAddr, PacketRow};
use crate::search::{first_match_from, last_match_ending_by, min_nat};
use crate::text::{dec_seq, push_decimal, push_str, string_of};
use crate::ui_state::{
    applied, bookmark_opened, build_stream_bytes, cancelled, cleared, erased, moved_down, moved_up, needle_of,
    packets_opened, recomputed, refiltered, scrolled_down, scrolled_up, search_opened, selected_spec,
    selected_stream, shown, stream_opened, subset_view, switched_tab, typed, visible_spec, went_back, UiState,
    lemma_visible_members,
};
use crate::ui_filter::filter_matches;
use crate::ai::opt_string;
use crate::weird::WeirdItem;

verus! {

/// A key of the terminal, as the browser reads it.
#[derive(Debug, Clone, Copy, PartialEq, Eq, Structural)]
pub enum Key {
    Char(char),
    Esc,
    Enter,
    Backspace,
    Tab,
    BackTab,
    PageUp,
    PageDown,
    Up,
    Down,
    Other,
}

/// A key press with its modifiers.
#[derive(Debug, Clone, Copy, PartialEq, Eq, Structural)]
pub struct KeyPress {
    pub key: Key,
    pub ctrl: bool,
    pub alt: bool,
}

/// What a key press asks of the front end besides the new state.
#[derive(Debug, Clone, Copy, PartialEq, Eq, Structural)]
pub enum KeyOutcome {
    Stay,
    Quit,
    ExportReport,
    SaveCaseFile,
}

/// What selecting an overview row does.
#[derive(Debug, Clone, Copy, PartialEq, Eq, Structural)]
pub enum OverviewAction {
    GoFlows,
    GoWeird,
    Port(u16),
    Host(IpAddr),
    FlowIndex(usize),
}

// ------------------------------------------------------------ drill-down subsets

/// `r` holds the values of `v`, each once, ascending.
pub open spec fn sorted_set_of(r: Seq<usize>, v: Seq<usize>) -> bool {
    &&& forall|i: int, j: int| 0 <= i < j < r.len() ==> (#[trigger] r[i]) < (#[trigger] r[j])
    &&& forall|x: usize| #[trigger] r.contains(x) <==> v.contains(x)
}

fn insert_sorted(v: &mut Vec<usize>, x: usize)
    requires
        forall|i: int, j: int| 0 <= i < j < old(v)@.len() ==> (#[trigger] old(v)@[i]) < (#[trigger] old(v)@[j]),
    ensures
        forall|i: int, j: int| 0 <= i < j < final(v)@.len() ==> (#[trigger] final(v)@[i]) < (#[trigger] final(v)@[j]),
        forall|y: usize| #[trigger] final(v)@.contains(y) <==> (old(v)@.contains(y) || y == x),
{
    let mut p: usize = 0;
    while p < v.len() && v[p] < x
        invariant
            p <= v.len(),
            forall|q: int| 0 <= q < p ==> #[trigger] v[q] < x,
        decreases v.len() - p,
    {
        p = p + 1;
    }
    if p < v.len() && v[p] == x {
        return;
    }
    let ghost old_v = v@;
    v.insert(p, x);
    assert(v@ == old_v.insert(p as int, x));
    assert forall|i: int, j: int| 0 <= i < j < v@.len() implies (#[trigger] v@[i]) < (#[trigger] v@[j]) by {
        if j < p {
            assert(v@[i] == old_v[i] && v@[j] == old_v[j]);
        } else if j == p {
            assert(v@[i] == old_v[i]);
        } else if i == p {
            assert(v@[j] == old_v[j - 1]);
            assert(old_v[p as int] >= x);
            assert(old_v[p as int] != x);
            if j - 1 > p {
                assert(old_v[p as int] < old_v[j - 1]);
            }
        } else if i < p {
            assert(v@[i] == old_v[i] && v@[j] == old_v[j - 1]);
        } else {
            assert(v@[i] == old_v[i - 1] && v@[j] == old_v[j - 1]);
        }
    }
    assert forall|y: usize| #[trigger] v@.contains(y) <==> (old_v.contains(y) || y == x) by {
        if v@.contains(y) {
            let k = choose|k: int| 0 <= k < v@.len() && v@[k] == y;
            if k < p {
                assert(old_v[k] == y);
            } else if k > p {
                assert(old_v[k - 1] == y);
            }
        }
        if old_v.contains(y) {
            let k = choose|k: int| 0 <= k < old_v.len() && old_v[k] == y;
            if k < p {
                assert(v@[k] == y);
            } else {
                assert(v@[k + 1] == y);
            }
        }
        if y == x {
            assert(v@[p as int] == x);
        }
    }
}

/// The values of `v`, each once, ascending.
pub fn sorted_unique(v: &[usize]) -> (r: Vec<usize>)
    ensures
        sorted_set_of(r@, v@),
{
    let mut r: Vec<usize> = Vec::new();
    let mut k: usize = 0;
    while k < v.len()
        invariant
            k <= v@.len(),
            forall|i: int, j: int| 0 <= i < j < r@.len() ==> (#[trigger] r@[i]) < (#[trigger] r@[j]),
            forall|y: usize| #[trigger] r@.contains(y) <==> v@.take(k as int).contains(y),
        decreases v@.len() - k,
    {
        let ghost before = r@;
        insert_sorted(&mut r, v[k]);
        assert forall|y: usize| #[trigger] r@.contains(y) <==> v@.take(k + 1).contains(y) by {
            assert(v@.take(k + 1) =~= v@.take(k as int).push(v@[k as int]));
            crate::domains::lemma_contains_push(v@.take(k as int), v@[k as int], y);
        }
        k = k + 1;
    }
    assert(v@.take(v@.len() as int) =~= v@);
    r
}


// ------------------------------------------------------------ search navigation

/// Where `n` moves the search: the next match after the current one, wrapping
/// to the first.
pub open spec fn found_next(bytes: Seq<u8>, needle: Seq<u8>, last: Option<usize>) -> Option<nat> {
    if needle.len() == 0 {
        None
    } else {
        match first_match_from(bytes, needle, min_nat(next_start(last, needle.len()), bytes.len())) {
            Some(p) => Some(p),
            None => first_match_from(bytes, needle, 0),
        }
    }
}

/// Where `N` moves the search: the last match that starts before the current
/// one, wrapping to the last match of all.
pub open spec fn found_prev(bytes: Seq<u8>, needle: Seq<u8>, last: Option<usize>) -> Option<nat> {
    if needle.len() == 0 {
        None
    } else {
        match last_match_ending_by(bytes, needle, min_nat(prev_end(last, needle.len(), bytes.len()), bytes.len())) {
            Some(p) => Some(p),
            None => last_match_ending_by(bytes, needle, bytes.len()),
        }
    }
}

/// The view moved to match `found`, when there is one.
pub open spec fn jumped(s: UiState, found: Option<nat>) -> UiState {
    match found {
        Some(p) => UiState { stream_last_match: Some(p as usize), stream_scroll: ((p / 16) % 65536) as u16, ..s },
        None => s,
    }
}

/// `n` in the stream view: to the next match of the selected flow's stream.
pub open spec fn next_match_step(s: UiState, rows: Seq<PacketRow>, fs: Seq<FlowStats>) -> UiState {
    match selected_stream(s, rows, fs) {
        Some(b) => jumped(s, found_next(b, needle_of(s), s.stream_last_match)),
        None => s,
    }
}

/// `N` in the stream view: to the previous match.
pub open spec fn prev_match_step(s: UiState, rows: Seq<PacketRow>, fs: Seq<FlowStats>) -> UiState {
    match selected_stream(s, rows, fs) {
        Some(b) => jumped(s, found_prev(b, needle_of(s), s.stream_last_match)),
        None => s,
    }
}

/// The next match can be looked for: the position after the current match fits.
pub open spec fn next_search_fits(s: UiState) -> bool {
    s.stream_last_match matches Some(p) ==> p + needle_of(s).len() <= usize::MAX
}

// ------------------------------------------------------------ packets list

pub open spec fn viewport(s: UiState) -> nat {
    if s.packets_viewport_rows == 0 { 1 } else { s.packets_viewport_rows as nat }
}

/// The scroll that keeps row `sel` inside the viewport after moving down.
pub open spec fn scroll_down_to(sel: nat, scroll: nat, vp: nat) -> nat {
    if sel >= scroll + vp { (if sel >= vp - 1 { sel - (vp - 1) } else { 0 }) as nat } else { scroll }
}

/// The packet count of the selected flow, when one is selected.
pub open spec fn selected_len(s: UiState, fs: Seq<FlowStats>) -> Option<nat> {
    match selected_spec(s, fs.len()) {
        Some(i) => Some(fs[i as int].packet_indices@.len()),
        None => None,
    }
}

/// The packets list fitted to a screen of `rows` rows showing `n` packets: the
/// selection clamped to the last packet, the scroll moved up to the selection
/// or down until the selection is in view, then clamped to the last packet.
pub open spec fn window_fitted(s: UiState, n: nat, rows: usize) -> UiState {
    let sel: nat = if n > 0 && s.packets_selected_row > n - 1 { (n - 1) as nat } else { s.packets_selected_row as nat };
    let vp: nat = if rows == 0 { 1 } else { rows as nat };
    let up: nat = if s.packets_scroll_row > sel { sel } else { s.packets_scroll_row as nat };
    let down: nat = scroll_down_to(sel, up, vp);
    let scroll: nat = if n == 0 { 0 } else if down > n - 1 { (n - 1) as nat } else { down };
    UiState { packets_viewport_rows: rows, packets_selected_row: sel as usize, packets_scroll_row: scroll as usize, ..s }
}

/// Down in the packets list: one row, within the flow's packets.
pub open spec fn packets_down_step(s: UiState, fs: Seq<FlowStats>) -> UiState {
    match selected_len(s, fs) {
        Some(len) => if len > 0 {
            let sel: nat = if s.packets_selected_row + 1 < len { (s.packets_selected_row + 1) as nat } else { (len - 1) as nat };
            UiState {
                packets_selected_row: sel as usize,
                packets_scroll_row: scroll_down_to(sel, s.packets_scroll_row as nat, viewport(s)) as usize,
                ..s
            }
        } else {
            s
        },
        None => s,
    }
}

/// Page down in the packets list: a viewport less one row (at least one).
pub open spec fn packets_page_down_step(s: UiState, fs: Seq<FlowStats>) -> UiState {
    match selected_len(s, fs) {
        Some(len) => if len > 0 {
            let step: nat = if viewport(s) > 1 { (viewport(s) - 1) as nat } else { 1 };
            let sel: nat = if s.packets_selected_row + step < len { (s.packets_selected_row + step) as nat } else { (len - 1) as nat };
            UiState {
                packets_selected_row: sel as usize,
                packets_scroll_row: scroll_down_to(sel, s.packets_scroll_row as nat, viewport(s)) as usize,
                ..s
            }
        } else {
            s
        },
        None => s,
    }
}

/// Up in the packets list: one row, keeping it inside the viewport.
pub open spec fn packets_up_step(s: UiState, fs: Seq<FlowStats>) -> UiState {
    match selected_spec(s, fs.len()) {
        Some(_) => {
            let sel: nat = if s.packets_selected_row > 0 { (s.packets_selected_row - 1) as nat } else { 0 };
            let scroll: nat = if sel < s.packets_scroll_row {
                sel
            } else {
                scroll_down_to(sel, s.packets_scroll_row as nat, viewport(s))
            };
            UiState { packets_selected_row: sel as usize, packets_scroll_row: scroll as usize, ..s }
        },
        None => s,
    }
}

/// Page up in the packets list.
pub open spec fn packets_page_up_step(s: UiState) -> UiState {
    let step: nat = if viewport(s) > 1 { (viewport(s) - 1) as nat } else { 1 };
    let sel: nat = if s.packets_selected_row >= step { (s.packets_selected_row - step) as nat } else { 0 };
    UiState {
        packets_selected_row: sel as usize,
        packets_scroll_row: (if sel < s.packets_scroll_row { sel } else { s.packets_scroll_row as nat }) as usize,
        ..s
    }
}

pub open spec fn sat_inc(x: usize) -> usize {
    if x < usize::MAX { (x + 1) as usize } else { usize::MAX }
}

pub open spec fn sat_dec(x: usize) -> usize {
    if x > 0 { (x - 1) as usize } else { 0 }
}

fn sat_inc_exec(x: usize) -> (r: usize)
    ensures
        r == sat_inc(x),
{
    if x < usize::MAX { x + 1 } else { usize::MAX }
}

fn sat_dec_exec(x: usize) -> (r: usize)
    ensures
        r == sat_dec(x),
{
    if x > 0 { x - 1 } else { 0 }
}

impl UiState {
    fn viewport_rows(&self) -> (vp: usize)
        ensures
            vp == viewport(*self),
            vp >= 1,
    {
        if self.packets_viewport_rows == 0 { 1 } else { self.packets_viewport_rows }
    }

    fn selected_packet_count(&self, flows: &FlowIndex) -> (n: Option<usize>)
        ensures
            match n {
                Some(k) => selected_len(*self, flows.flows@) == Some(k as nat),
                None => selected_len(*self, flows.flows@) is None,
            },
    {
        match self.selected_flow_index(flows) {
            Some(i) => Some(flows.flows[i].packet_indices.len()),
            None => None,
        }
    }

    /// Down in the packets list.
    pub fn packets_down(&mut self, flows: &FlowIndex)
        ensures
            *final(self) == packets_down_step(*old(self), flows.flows@),
    {
        match self.selected_packet_count(flows) {
            Some(len) => {
                if len > 0 {
                    let sel = if self.packets_selected_row < len - 1 { self.packets_selected_row + 1 } else { len - 1 };
                    let vp = self.viewport_rows();
                    self.packets_selected_row = sel;
                    if sel >= self.packets_scroll_row && sel - self.packets_scroll_row >= vp {
                        self.packets_scroll_row = if sel >= vp - 1 { sel - (vp - 1) } else { 0 };
                    }
                }
            },
            None => {},
        }
    }

    /// Page down in the packets list.
    pub fn packets_page_down(&mut self, flows: &FlowIndex)
        ensures
            *final(self) == packets_page_down_step(*old(self), flows.flows@),
    {
        match self.selected_packet_count(flows) {
            Some(len) => {
                if len > 0 {
                    let vp = self.viewport_rows();
                    let step = if vp > 1 { vp - 1 } else { 1 };
                    let sel = if self.packets_selected_row < len - 1 && step < len - self.packets_selected_row {
                        self.packets_selected_row + step
                    } else {
                        len - 1
                    };
                    self.packets_selected_row = sel;
                    if sel >= self.packets_scroll_row && sel - self.packets_scroll_row >= vp {
                        self.packets_scroll_row = if sel >= vp - 1 { sel - (vp - 1) } else { 0 };
                    }
                }
            },
            None => {},
        }
    }

    /// Up in the packets list.
    pub fn packets_up(&mut self, flows: &FlowIndex)
        ensures
            *final(self) == packets_up_step(*old(self), flows.flows@),
    {
        match self.selected_flow_index(flows) {
            Some(_) => {
                let sel = if self.packets_selected_row > 0 { self.packets_selected_row - 1 } else { 0 };
                let vp = self.viewport_rows();
                self.packets_selected_row = sel;
                if sel < self.packets_scroll_row {
                    self.packets_scroll_row = sel;
                } else if sel - self.packets_scroll_row >= vp {
                    self.packets_scroll_row = if sel >= vp - 1 { sel - (vp - 1) } else { 0 };
                }
            },
            None => {},
        }
    }

    /// Page up in the packets list.
    pub fn packets_page_up(&mut self)
        ensures
            *final(self) == packets_page_up_step(*old(self)),
    {
        let vp = self.viewport_rows();
        let step = if vp > 1 { vp - 1 } else { 1 };
        let sel = if self.packets_selected_row >= step { self.packets_selected_row - step } else { 0 };
        self.packets_selected_row = sel;
        if sel < self.packets_scroll_row {
            self.packets_scroll_row = sel;
        }
    }

    /// Keep the overview selection on one of its `n` rows (when there are any).
    pub fn fit_overview_selection(&mut self, n: usize)
        ensures
            *final(self) == (if n > 0 && old(self).overview_selected_row > n - 1 {
                UiState { overview_selected_row: (n - 1) as usize, ..*old(self) }
            } else {
                *old(self)
            }),
    {
        if n > 0 && self.overview_selected_row > n - 1 {
            self.overview_selected_row = n - 1;
        }
    }

    /// Keep the domains selection on one of its `n` rows (when there are any).
    pub fn fit_domains_selection(&mut self, n: usize)
        ensures
            *final(self) == (if n > 0 && old(self).domains_selected_row > n - 1 {
                UiState { domains_selected_row: (n - 1) as usize, ..*old(self) }
            } else {
                *old(self)
            }),
    {
        if n > 0 && self.domains_selected_row > n - 1 {
            self.domains_selected_row = n - 1;
        }
    }

    /// Fit the packets list to a screen of `rows` list rows showing `n` packets:
    /// the selection stays on a packet and the scroll keeps it in view.
    pub fn fit_packets_window(&mut self, n: usize, rows: usize)
        ensures
            *final(self) == window_fitted(*old(self), n as nat, rows),
    {
        self.packets_viewport_rows = rows;
        if n > 0 && self.packets_selected_row > n - 1 {
            self.packets_selected_row = n - 1;
        }
        let vp = self.viewport_rows();
        let sel = self.packets_selected_row;
        if self.packets_scroll_row > sel {
            self.packets_scroll_row = sel;
        }
        if sel >= self.packets_scroll_row && sel - self.packets_scroll_row >= vp {
            self.packets_scroll_row = if sel >= vp - 1 { sel - (vp - 1) } else { 0 };
        }
        if n == 0 {
            self.packets_scroll_row = 0;
        } else if self.packets_scroll_row > n - 1 {
            self.packets_scroll_row = n - 1;
        }
    }

    /// `n`: to the next match in the stream of the selected flow.
    pub fn next_match(&mut self, rows: &[PacketRow], flows: &FlowIndex)
        requires
            next_search_fits(*old(self)),
        ensures
            *final(self) == next_match_step(*old(self), rows@, flows.flows@),
    {
        match self.selected_flow_index(flows) {
            Some(i) => {
                let bytes = build_stream_bytes(rows, &flows.flows[i], self.stream_tab);
                let found = next_match_and_scroll(bytes.as_slice(), self.stream_search.as_str().as_bytes(), self.stream_last_match);
                match found {
                    Some((pos, scroll)) => {
                        self.stream_last_match = Some(pos);
                        self.stream_scroll = scroll;
                    },
                    None => {},
                }
            },
            None => {},
        }
    }

    /// `N`: to the previous match in the stream of the selected flow.
    pub fn prev_match(&mut self, rows: &[PacketRow], flows: &FlowIndex)
        ensures
            *final(self) == prev_match_step(*old(self), rows@, flows.flows@),
    {
        match self.selected_flow_index(flows) {
            Some(i) => {
                let bytes = build_stream_bytes(rows, &flows.flows[i], self.stream_tab);
                let found = prev_match_and_scroll(bytes.as_slice(), self.stream_search.as_str().as_bytes(), self.stream_last_match);
                match found {
                    Some((pos, scroll)) => {
                        self.stream_last_match = Some(pos);
                        self.stream_scroll = scroll;
                    },
                    None => {},
                }
            },
            None => {},
        }
    }
}


// ------------------------------------------------------------ drill-downs and overview actions

/// `after` shows the flows list restricted to the flows of `src` (kept sorted
/// and without repeats), labelled `label`, coming from `back`, with the first
/// row selected.
pub open spec fn drilled(before: UiState, after: UiState, src: Seq<usize>, label: Seq<char>, back: navigation::View, fs: Seq<FlowStats>) -> bool {
    &&& after.flow_subset is Some
    &&& sorted_set_of(after.flow_subset->0@, src)
    &&& opt_string(after.subset_label) == Some(label)
    &&& recomputed(
        UiState {
            flow_subset: after.flow_subset,
            subset_label: after.subset_label,
            flows_back_view: back,
            view: navigation::View::Flows,
            selected_row: 0,
            ..before
        },
        after,
        fs,
    )
}

/// Drilling into a finding or a domain shows, in the flows list, exactly the
/// flows it names that pass the filter.
pub proof fn lemma_drill_shows_its_flows(
    s0: UiState,
    s1: UiState,
    src: Seq<usize>,
    label: Seq<char>,
    back: navigation::View,
    fs: Seq<FlowStats>,
)
    requires
        drilled(s0, s1, src, label, back, fs),
        fs.len() <= usize::MAX,
    ensures
        s1.view == navigation::View::Flows,
        s1.flows_back_view == back,
        forall|i: usize| #[trigger] s1.visible_flow_indices@.contains(i) <==> (i < fs.len() && src.contains(i)
            && filter_matches(s0.filter.query@, s0.filter.show_tcp, s0.filter.show_udp, fs[i as int].key)),
{
    let sub = subset_view(s1.flow_subset);
    lemma_visible_members(fs, s0.filter, sub, fs.len());
    assert forall|i: usize| #[trigger] s1.visible_flow_indices@.contains(i) <==> (i < fs.len() && src.contains(i)
        && filter_matches(s0.filter.query@, s0.filter.show_tcp, s0.filter.show_udp, fs[i as int].key)) by {
        assert(visible_spec(fs, s0.filter, sub, fs.len()).contains(i) <==> (i < fs.len() && shown(fs, s0.filter, sub, i)));
        assert(s1.flow_subset->0@.contains(i) <==> src.contains(i));
    }
}

/// Clearing the subset (`c`) shows again every flow that passes the filter.
pub proof fn lemma_clear_shows_all_filtered(s1: UiState, s2: UiState, fs: Seq<FlowStats>)
    requires
        recomputed(UiState { flow_subset: None, subset_label: None, ..s1 }, s2, fs),
        fs.len() <= usize::MAX,
    ensures
        s2.flow_subset is None,
        forall|i: usize| #[trigger] s2.visible_flow_indices@.contains(i) <==> (i < fs.len()
            && filter_matches(s1.filter.query@, s1.filter.show_tcp, s1.filter.show_udp, fs[i as int].key)),
{
    lemma_visible_members(fs, s1.filter, None, fs.len());
}

/// The first position of `x` in `v`.
pub open spec fn first_pos(v: Seq<usize>, x: usize) -> Option<nat>
    decreases v.len(),
{
    if v.len() == 0 {
        None
    } else if v[0] == x {
        Some(0)
    } else {
        match first_pos(v.drop_first(), x) {
            Some(p) => Some(p + 1),
            None => None,
        }
    }
}

/// The flows list filtered by `query`, with no subset, coming from the overview.
pub open spec fn queried(before: UiState, after: UiState, query: Seq<char>, fs: Seq<FlowStats>) -> bool {
    &&& after.filter.query@ == query
    &&& after.filter.show_tcp == before.filter.show_tcp
    &&& after.filter.show_udp == before.filter.show_udp
    &&& recomputed(
        UiState {
            flow_subset: None,
            subset_label: None,
            filter: after.filter,
            flows_back_view: navigation::View::Overview,
            view: navigation::View::Flows,
            selected_row: 0,
            ..before
        },
        after,
        fs,
    )
}

/// What selecting an overview row with action `a` does.
pub open spec fn overview_done(before: UiState, after: UiState, a: OverviewAction, fs: Seq<FlowStats>) -> bool {
    match a {
        OverviewAction::GoFlows => after == (UiState { flows_back_view: navigation::View::Overview, view: navigation::View::Flows, ..before }),
        OverviewAction::GoWeird => after == (UiState { view: navigation::View::Weird, ..before }),
        OverviewAction::Port(p) => queried(before, after, ":"@ + dec_seq(p as nat), fs),
        OverviewAction::Host(ip) => queried(before, after, ip_text(ip), fs),
        OverviewAction::FlowIndex(i) => {
            &&& after.visible_flow_indices@ == visible_spec(fs, before.filter, None, fs.len())
            &&& after == (UiState {
                flow_subset: None,
                subset_label: None,
                flows_back_view: navigation::View::Overview,
                view: navigation::View::Flows,
                visible_flow_indices: after.visible_flow_indices,
                selected_row: match first_pos(after.visible_flow_indices@, i) {
                    Some(p) => p as usize,
                    None => 0,
                },
                ..before
            })
        },
    }
}

pub open spec fn min_usize(a: usize, b: usize) -> usize {
    if a < b { a } else { b }
}

/// Enter outside a dialog: flows open their packets, and so does a timeline
/// row for its flow; a weird finding or a domain restricts the flows list to
/// its flows; an overview row does its action.
pub open spec fn entered(
    before: UiState,
    after: UiState,
    fs: Seq<FlowStats>,
    weird: Seq<WeirdItem>,
    doms: Seq<DomainItem>,
    actions: Seq<Option<OverviewAction>>,
    order: Seq<usize>,
) -> bool {
    let v = before.view;
    if v == navigation::View::Flows {
        after == packets_opened(before)
    } else if v == navigation::View::Timeline {
        timeline_entered(before, after, order)
    } else if v == navigation::View::Weird {
        if weird.len() == 0 {
            after == before
        } else {
            let sel = min_usize(before.weird_selected_row, (weird.len() - 1) as usize);
            drilled(UiState { weird_selected_row: sel, ..before }, after, weird[sel as int].flow_indices@,
                "weird:"@ + weird[sel as int].title@, navigation::View::Weird, fs)
        }
    } else if v == navigation::View::Domains {
        if doms.len() == 0 {
            after == before
        } else {
            let sel = min_usize(before.domains_selected_row, (doms.len() - 1) as usize);
            drilled(UiState { domains_selected_row: sel, ..before }, after, doms[sel as int].flow_indices@,
                "domain:"@ + doms[sel as int].domain@, navigation::View::Domains, fs)
        }
    } else if v == navigation::View::Overview {
        if actions.len() == 0 {
            after == before
        } else {
            match actions[min_usize(before.overview_selected_row, (actions.len() - 1) as usize) as int] {
                Some(a) => overview_done(before, after, a, fs),
                None => after == before,
            }
        }
    } else {
        after == before
    }
}

/// The first position of `x` in `v`.
fn first_position(v: &Vec<usize>, x: usize) -> (r: Option<usize>)
    ensures
        match r {
            Some(p) => first_pos(v@, x) == Some(p as nat),
            None => first_pos(v@, x) is None,
        },
{
    let ghost vis = v@;
    let mut k: usize = 0;
    assert(vis.skip(0) =~= vis);
    while k < v.len() && v[k] != x
        invariant
            k <= vis.len(),
            vis == v@,
            first_pos(vis, x) == match first_pos(vis.skip(k as int), x) {
                Some(p) => Some((p + k) as nat),
                None => None,
            },
        decreases vis.len() - k,
    {
        assert(vis.skip(k as int).drop_first() =~= vis.skip(k + 1));
        k = k + 1;
    }
    if k < v.len() {
        assert(vis.skip(k as int)[0] == x);
        Some(k)
    } else {
        assert(vis.skip(k as int).len() == 0);
        None
    }
}

impl UiState {
    fn switch_timeline_tab(&mut self)
        ensures
            *final(self) == (UiState { timeline_tab: other_timeline_tab(old(self).timeline_tab), ..*old(self) }),
    {
        self.timeline_tab = match self.timeline_tab {
            TimelineTab::Gantt => TimelineTab::Scatter,
            TimelineTab::Scatter => TimelineTab::Gantt,
        };
    }

    fn timeline_page_rows(&self) -> (r: usize)
        ensures
            r == timeline_page(*self),
            r >= 1,
    {
        let vp = if self.timeline_viewport_rows == 0 { 1 } else { self.timeline_viewport_rows };
        if vp > 1 { vp - 1 } else { 1 }
    }

    fn timeline_move_down(&mut self, step: usize)
        ensures
            *final(self) == timeline_down(*old(self), step as nat),
    {
        let n = self.visible_flow_indices.len();
        if n == 0 {
            self.timeline_selected_row = 0;
        } else if step < n && self.timeline_selected_row < n - step {
            self.timeline_selected_row = self.timeline_selected_row + step;
        } else {
            self.timeline_selected_row = n - 1;
        }
    }

    fn timeline_move_up(&mut self, step: usize)
        ensures
            *final(self) == timeline_up(*old(self), step as nat),
    {
        if self.timeline_selected_row >= step {
            self.timeline_selected_row = self.timeline_selected_row - step;
        } else {
            self.timeline_selected_row = 0;
        }
    }

    /// Fit the timeline to a screen of `rows` rows showing `n` flows: the
    /// selection stays on one of them.
    pub fn fit_timeline_window(&mut self, n: usize, rows: usize)
        ensures
            *final(self) == (UiState {
                timeline_viewport_rows: rows,
                timeline_selected_row: if n > 0 && old(self).timeline_selected_row > n - 1 {
                    (n - 1) as usize
                } else {
                    old(self).timeline_selected_row
                },
                ..*old(self)
            }),
    {
        self.timeline_viewport_rows = rows;
        if n > 0 && self.timeline_selected_row > n - 1 {
            self.timeline_selected_row = n - 1;
        }
    }
}

impl UiState {
    /// Restrict the flows list to the flows of `src`, labelled `label`.
    pub fn drill_into(&mut self, src: &[usize], label: String, back: navigation::View, flows: &FlowIndex)
        ensures
            drilled(*old(self), *final(self), src@, label@, back, flows.flows@),
    {
        self.flow_subset = Some(sorted_unique(src));
        self.subset_label = Some(label);
        self.flows_back_view = back;
        self.view = navigation::View::Flows;
        self.selected_row = 0;
        self.recompute_visible(flows);
    }

    fn show_queried(&mut self, query: String, flows: &FlowIndex)
        ensures
            queried(*old(self), *final(self), query@, flows.flows@),
    {
        self.flow_subset = None;
        self.subset_label = None;
        self.filter.query = query;
        self.flows_back_view = navigation::View::Overview;
        self.view = navigation::View::Flows;
        self.selected_row = 0;
        self.recompute_visible(flows);
    }

    /// Do what an overview row's action says.
    pub fn apply_overview_action(&mut self, a: OverviewAction, flows: &FlowIndex)
        ensures
            overview_done(*old(self), *final(self), a, flows.flows@),
    {
        match a {
            OverviewAction::GoFlows => {
                self.flows_back_view = navigation::View::Overview;
                self.view = navigation::View::Flows;
            },
            OverviewAction::GoWeird => {
                self.view = navigation::View::Weird;
            },
            OverviewAction::Port(p) => {
                let mut q: Vec<char> = Vec::new();
                push_str(&mut q, ":");
                push_decimal(&mut q, p as u64);
                proof {
                    reveal_strlit(":");
                }
                self.show_queried(string_of(q.as_slice()), flows);
            },
            OverviewAction::Host(ip) => {
                let mut q: Vec<char> = Vec::new();
                push_ip(&mut q, ip);
                self.show_queried(string_of(q.as_slice()), flows);
            },
            OverviewAction::FlowIndex(i) => {
                self.flow_subset = None;
                self.subset_label = None;
                self.flows_back_view = navigation::View::Overview;
                self.view = navigation::View::Flows;
                self.recompute_visible(flows);
                match first_position(&self.visible_flow_indices, i) {
                    Some(p) => self.selected_row = p,
                    None => self.selected_row = 0,
                }
            },
        }
    }

    /// Enter outside a dialog.
    pub fn enter(
        &mut self,
        flows: &FlowIndex,
        weird: &[WeirdItem],
        doms: &[DomainItem],
        actions: &[Option<OverviewAction>],
        timeline: &[usize],
    )
        ensures
            entered(*old(self), *final(self), flows.flows@, weird@, doms@, actions@, timeline@),
    {
        if self.view == navigation::View::Flows {
            self.open_packets();
        } else if self.view == navigation::View::Timeline {
            let sel = self.timeline_selected_row;
            if sel < timeline.len() {
                match first_position(&self.visible_flow_indices, timeline[sel]) {
                    Some(p) => {
                        self.selected_row = p;
                        self.open_packets();
                    },
                    None => {},
                }
            }
        } else if self.view == navigation::View::Weird {
            if weird.len() > 0 {
                let sel = if self.weird_selected_row < weird.len() - 1 { self.weird_selected_row } else { weird.len() - 1 };
                self.weird_selected_row = sel;
                let mut label: Vec<char> = Vec::new();
                push_str(&mut label, "weird:");
                push_str(&mut label, weird[sel].title.as_str());
                self.drill_into(weird[sel].flow_indices.as_slice(), string_of(label.as_slice()), navigation::View::Weird, flows);
            }
        } else if self.view == navigation::View::Domains {
            if doms.len() > 0 {
                let sel = if self.domains_selected_row < doms.len() - 1 { self.domains_selected_row } else { doms.len() - 1 };
                self.domains_selected_row = sel;
                let mut label: Vec<char> = Vec::new();
                push_str(&mut label, "domain:");
                push_str(&mut label, doms[sel].domain.as_str());
                self.drill_into(doms[sel].flow_indices.as_slice(), string_of(label.as_slice()), navigation::View::Domains, flows);
            }
        } else if self.view == navigation::View::Overview {
            if actions.len() > 0 {
                let sel = if self.overview_selected_row < actions.len() - 1 { self.overview_selected_row } else { actions.len() - 1 };
                match actions[sel] {
                    Some(a) => self.apply_overview_action(a, flows),
                    None => {},
                }
            }
        }
    }
}


// ------------------------------------------------------------ key presses

/// A key in an open dialog: Esc cancels it, Enter applies it (the case file
/// changes, and is to be saved, only for a stored bookmark), Backspace
/// deletes, Ctrl+U clears, and a plain character is typed.
pub open spec fn modal_key_done(
    before: UiState,
    after: UiState,
    k: KeyPress,
    rows: Seq<PacketRow>,
    fs: Seq<FlowStats>,
    cf_before: CaseFile,
    cf_after: CaseFile,
    out: KeyOutcome,
) -> bool {
    match k.key {
        Key::Enter => applied(before, after, rows, fs, cf_before, cf_after, out == KeyOutcome::SaveCaseFile)
            && (out == KeyOutcome::Stay || out == KeyOutcome::SaveCaseFile),
        _ => cf_after == cf_before && out == KeyOutcome::Stay && match k.key {
            Key::Esc => after == cancelled(before),
            Key::Backspace => erased(before, after, rows, fs),
            Key::Char(c) => if c == 'u' && k.ctrl {
                cleared(before, after, fs)
            } else if !k.ctrl && !k.alt {
                typed(before, after, c, rows, fs)
            } else {
                after == before
            },
            _ => after == before,
        },
    }
}

pub open spec fn next_sort(s: DomainsSort) -> DomainsSort {
    match s {
        DomainsSort::Connections => DomainsSort::Bytes,
        DomainsSort::Bytes => DomainsSort::Failures,
        DomainsSort::Failures => DomainsSort::Connections,
    }
}

// ------------------------------------------------------------ timeline

/// Rows the timeline screen shows, at least one.
pub open spec fn timeline_viewport(s: UiState) -> nat {
    if s.timeline_viewport_rows == 0 { 1 } else { s.timeline_viewport_rows as nat }
}

/// A page of the timeline: its rows less one, at least one.
pub open spec fn timeline_page(s: UiState) -> nat {
    if timeline_viewport(s) > 1 { (timeline_viewport(s) - 1) as nat } else { 1 }
}

/// The timeline selection `step` rows down, stopping at the last of its rows
/// (one per visible flow).
pub open spec fn timeline_down(s: UiState, step: nat) -> UiState {
    let n = s.visible_flow_indices@.len();
    UiState {
        timeline_selected_row: (if n == 0 {
            0
        } else if s.timeline_selected_row + step < n {
            s.timeline_selected_row + step
        } else {
            n - 1
        }) as usize,
        ..s
    }
}

/// The timeline selection `step` rows up, stopping at the first row.
pub open spec fn timeline_up(s: UiState, step: nat) -> UiState {
    UiState {
        timeline_selected_row: (if s.timeline_selected_row >= step { s.timeline_selected_row - step } else { 0 }) as usize,
        ..s
    }
}

/// Enter in the timeline: the packets of the selected row's flow, which
/// `order` (the visible flows by start time) names.
pub open spec fn timeline_entered(before: UiState, after: UiState, order: Seq<usize>) -> bool {
    let sel = before.timeline_selected_row;
    if sel < order.len() {
        match first_pos(before.visible_flow_indices@, order[sel as int]) {
            Some(p) => after == packets_opened(UiState { selected_row: p as usize, ..before }),
            None => after == before,
        }
    } else {
        after == before
    }
}

/// Down (or `j`) in each screen.
pub open spec fn down_step(s: UiState, fs: Seq<FlowStats>) -> UiState {
    match s.view {
        navigation::View::Overview => UiState { overview_selected_row: sat_inc(s.overview_selected_row), ..s },
        navigation::View::Flows => moved_down(s),
        navigation::View::Weird => UiState { weird_selected_row: sat_inc(s.weird_selected_row), ..s },
        navigation::View::Domains => UiState { domains_selected_row: sat_inc(s.domains_selected_row), ..s },
        navigation::View::Packets => packets_down_step(s, fs),
        navigation::View::Stream => scrolled_down(s),
        navigation::View::Timeline => timeline_down(s, 1),
    }
}

/// Up (or `k`) in each screen.
pub open spec fn up_step(s: UiState, fs: Seq<FlowStats>) -> UiState {
    match s.view {
        navigation::View::Overview => UiState { overview_selected_row: sat_dec(s.overview_selected_row), ..s },
        navigation::View::Flows => moved_up(s),
        navigation::View::Weird => UiState { weird_selected_row: sat_dec(s.weird_selected_row), ..s },
        navigation::View::Domains => UiState { domains_selected_row: sat_dec(s.domains_selected_row), ..s },
        navigation::View::Packets => packets_up_step(s, fs),
        navigation::View::Stream => scrolled_up(s),
        navigation::View::Timeline => timeline_up(s, 1),
    }
}

/// A digit `1`..`9` selects that row (counting from one) of the weird,
/// domains or overview screen.
pub open spec fn digit_step(s: UiState, c: char) -> UiState {
    let n = (c as u32 - 48) as usize;
    if s.view == navigation::View::Weird {
        UiState { weird_selected_row: (n - 1) as usize, ..s }
    } else if s.view == navigation::View::Domains {
        UiState { domains_selected_row: (n - 1) as usize, ..s }
    } else if s.view == navigation::View::Overview {
        UiState { overview_selected_row: (n - 1) as usize, ..s }
    } else {
        s
    }
}

pub open spec fn onboarded(s: UiState) -> UiState {
    UiState { show_onboarding: false, ..s }
}

/// A character key outside a dialog (other than `q`, and `E` in the flows list).
pub open spec fn char_key_done(before: UiState, after: UiState, c: char, rows: Seq<PacketRow>, fs: Seq<FlowStats>) -> bool {
    let v = before.view;
    if c == 'o' || c == 'O' {
        after == onboarded(UiState { view: navigation::View::Overview, ..before })
    } else if c == 'F' {
        after == onboarded(UiState { flows_back_view: v, view: navigation::View::Flows, ..before })
    } else if c == 'W' || c == 'w' {
        after == onboarded(UiState { view: navigation::View::Weird, ..before })
    } else if c == 'D' || c == 'd' {
        after == onboarded(UiState { view: navigation::View::Domains, ..before })
    } else if c == 'T' {
        after == onboarded(UiState { view: navigation::View::Timeline, ..before })
    } else if c == 'f' {
        after == onboarded(if v == navigation::View::Packets {
            stream_opened(before)
        } else {
            UiState { flows_back_view: v, view: navigation::View::Flows, ..before }
        })
    } else if c == '?' {
        after == (if v == navigation::View::Flows || v == navigation::View::Packets || v == navigation::View::Stream {
            UiState { modal: Modal::Explain, ..before }
        } else {
            before
        })
    } else if c == 'g' {
        after == onboarded(UiState { modal: Modal::Glossary, ..before })
    } else if c == 'h' {
        after == onboarded(UiState { modal: Modal::Help, ..before })
    } else if c == 'L' || c == 'l' {
        after == onboarded(UiState { learning_mode: !before.learning_mode, ..before })
    } else if c == 'x' {
        after == (if v == navigation::View::Overview { onboarded(before) } else { before })
    } else if c == '/' {
        after == (if v == navigation::View::Flows {
            UiState { modal: Modal::Filter, ..before }
        } else if v == navigation::View::Stream {
            search_opened(before, rows, fs)
        } else {
            before
        })
    } else if c == 'n' {
        after == (if v == navigation::View::Stream { next_match_step(before, rows, fs) } else { before })
    } else if c == 'N' {
        after == (if v == navigation::View::Stream { prev_match_step(before, rows, fs) } else { before })
    } else if c == 't' {
        if v == navigation::View::Flows {
            refiltered(before, after, before.filter.query@, !before.filter.show_tcp, before.filter.show_udp, fs)
        } else {
            after == before
        }
    } else if c == 'u' {
        if v == navigation::View::Flows {
            refiltered(before, after, before.filter.query@, before.filter.show_tcp, !before.filter.show_udp, fs)
        } else {
            after == before
        }
    } else if c == 'b' {
        if v == navigation::View::Flows { bookmark_opened(before, after) } else { after == before }
    } else if c == 'c' {
        if v == navigation::View::Flows || v == navigation::View::Weird || v == navigation::View::Domains {
            recomputed(UiState { flow_subset: None, subset_label: None, ..before }, after, fs)
        } else {
            after == before
        }
    } else if c == 's' {
        after == (if v == navigation::View::Domains { UiState { domains_sort: next_sort(before.domains_sort), ..before } } else { before })
    } else if '1' <= c && c <= '9' {
        after == digit_step(before, c)
    } else if c == 'j' {
        after == down_step(before, fs)
    } else if c == 'k' {
        after == up_step(before, fs)
    } else {
        after == before
    }
}

/// A key outside a dialog: `q` quits, `E` in the flows list asks for a report,
/// and every other key changes the state as `char_key_done`, Enter
/// (`entered`) and the navigation keys say.
pub open spec fn view_key_done(
    before: UiState,
    after: UiState,
    k: KeyPress,
    rows: Seq<PacketRow>,
    fs: Seq<FlowStats>,
    weird: Seq<WeirdItem>,
    doms: Seq<DomainItem>,
    actions: Seq<Option<OverviewAction>>,
    order: Seq<usize>,
    out: KeyOutcome,
) -> bool {
    let v = before.view;
    match k.key {
        Key::Char(c) => if c == 'q' {
            out == KeyOutcome::Quit && after == before
        } else if c == 'E' && v == navigation::View::Flows {
            out == KeyOutcome::ExportReport && after == before
        } else {
            out == KeyOutcome::Stay && char_key_done(before, after, c, rows, fs)
        },
        _ => out == KeyOutcome::Stay && match k.key {
            Key::Esc | Key::Backspace => after == (if v == navigation::View::Flows {
                UiState { view: before.flows_back_view, ..before }
            } else if v == navigation::View::Weird || v == navigation::View::Domains || v == navigation::View::Timeline {
                UiState { view: navigation::View::Overview, ..before }
            } else {
                went_back(before)
            }),
            Key::Enter => entered(before, after, fs, weird, doms, actions, order),
            Key::Tab => after == (if v == navigation::View::Stream {
                switched_tab(before, next_tab(before.stream_tab), rows, fs)
            } else if v == navigation::View::Timeline {
                UiState { timeline_tab: other_timeline_tab(before.timeline_tab), ..before }
            } else {
                before
            }),
            Key::BackTab => after == (if v == navigation::View::Stream {
                switched_tab(before, prev_tab(before.stream_tab), rows, fs)
            } else if v == navigation::View::Timeline {
                UiState { timeline_tab: other_timeline_tab(before.timeline_tab), ..before }
            } else {
                before
            }),
            Key::PageDown => after == (if v == navigation::View::Packets {
                packets_page_down_step(before, fs)
            } else if v == navigation::View::Timeline {
                timeline_down(before, timeline_page(before))
            } else {
                before
            }),
            Key::PageUp => after == (if v == navigation::View::Packets {
                packets_page_up_step(before)
            } else if v == navigation::View::Timeline {
                timeline_up(before, timeline_page(before))
            } else {
                before
            }),
            Key::Down => after == down_step(before, fs),
            Key::Up => after == up_step(before, fs),
            _ => after == before,
        },
    }
}

/// A key press can be handled: `n` in the stream view needs the position after
/// the current match to fit.
pub open spec fn key_fits(s: UiState, k: KeyPress) -> bool {
    s.modal == Modal::Closed && s.view == navigation::View::Stream && k.key == Key::Char('n') ==> next_search_fits(s)
}

impl UiState {
    /// A key in an open dialog.
    pub fn modal_key(&mut self, k: KeyPress, rows: &[PacketRow], flows: &FlowIndex, casefile: &mut CaseFile) -> (out: KeyOutcome)
        ensures
            modal_key_done(*old(self), *final(self), k, rows@, flows.flows@, *old(casefile), *final(casefile), out),
    {
        match k.key {
            Key::Esc => {
                self.close_modal_cancel();
                KeyOutcome::Stay
            },
            Key::Enter => {
                if self.close_modal_apply(rows, flows, casefile) {
                    KeyOutcome::SaveCaseFile
                } else {
                    KeyOutcome::Stay
                }
            },
            Key::Backspace => {
                self.modal_pop(rows, flows);
                KeyOutcome::Stay
            },
            Key::Char(c) => {
                if c == 'u' && k.ctrl {
                    self.modal_clear(flows);
                } else if !k.ctrl && !k.alt {
                    self.modal_push(c, rows, flows);
                }
                KeyOutcome::Stay
            },
            _ => KeyOutcome::Stay,
        }
    }

    fn down_key(&mut self, flows: &FlowIndex)
        ensures
            *final(self) == down_step(*old(self), flows.flows@),
    {
        match self.view {
            navigation::View::Overview => self.overview_selected_row = sat_inc_exec(self.overview_selected_row),
            navigation::View::Flows => self.move_down(),
            navigation::View::Weird => self.weird_selected_row = sat_inc_exec(self.weird_selected_row),
            navigation::View::Domains => self.domains_selected_row = sat_inc_exec(self.domains_selected_row),
            navigation::View::Packets => self.packets_down(flows),
            navigation::View::Stream => self.scroll_down(),
            navigation::View::Timeline => self.timeline_move_down(1),
        }
    }

    fn up_key(&mut self, flows: &FlowIndex)
        ensures
            *final(self) == up_step(*old(self), flows.flows@),
    {
        match self.view {
            navigation::View::Overview => self.overview_selected_row = sat_dec_exec(self.overview_selected_row),
            navigation::View::Flows => self.move_up(),
            navigation::View::Weird => self.weird_selected_row = sat_dec_exec(self.weird_selected_row),
            navigation::View::Domains => self.domains_selected_row = sat_dec_exec(self.domains_selected_row),
            navigation::View::Packets => self.packets_up(flows),
            navigation::View::Stream => self.scroll_up(),
            navigation::View::Timeline => self.timeline_move_up(1),
        }
    }

    fn go(&mut self, v: navigation::View)
        ensures
            *final(self) == onboarded(UiState { view: v, ..*old(self) }),
    {
        self.view = v;
        self.show_onboarding = false;
    }

    fn char_key(&mut self, c: char, rows: &[PacketRow], flows: &FlowIndex)
        requires
            old(self).view == navigation::View::Stream && c == 'n' ==> next_search_fits(*old(self)),
        ensures
            char_key_done(*old(self), *final(self), c, rows@, flows.flows@),
    {
        let v = self.view;
        if c == 'o' || c == 'O' {
            self.go(navigation::View::Overview);
        } else if c == 'F' {
            self.flows_back_view = v;
            self.go(navigation::View::Flows);
        } else if c == 'W' || c == 'w' {
            self.go(navigation::View::Weird);
        } else if c == 'D' || c == 'd' {
            self.go(navigation::View::Domains);
        } else if c == 'T' {
            self.go(navigation::View::Timeline);
        } else if c == 'f' {
            if v == navigation::View::Packets {
                self.open_stream();
            } else {
                self.flows_back_view = v;
                self.view = navigation::View::Flows;
            }
            self.show_onboarding = false;
        } else if c == '?' {
            if v == navigation::View::Flows || v == navigation::View::Packets || v == navigation::View::Stream {
                self.modal = Modal::Explain;
            }
        } else if c == 'g' {
            self.modal = Modal::Glossary;
            self.show_onboarding = false;
        } else if c == 'h' {
            self.modal = Modal::Help;
            self.show_onboarding = false;
        } else if c == 'L' || c == 'l' {
            self.learning_mode = !self.learning_mode;
            self.show_onboarding = false;
        } else if c == 'x' {
            if v == navigation::View::Overview {
                self.show_onboarding = false;
            }
        } else if c == '/' {
            if v == navigation::View::Flows {
                self.open_filter();
            } else if v == navigation::View::Stream {
                self.open_stream_search(rows, flows);
            }
        } else if c == 'n' {
            if v == navigation::View::Stream {
                self.next_match(rows, flows);
            }
        } else if c == 'N' {
            if v == navigation::View::Stream {
                self.prev_match(rows, flows);
            }
        } else if c == 't' {
            if v == navigation::View::Flows {
                self.toggle_tcp(flows);
            }
        } else if c == 'u' {
            if v == navigation::View::Flows {
                self.toggle_udp(flows);
            }
        } else if c == 'b' {
            if v == navigation::View::Flows {
                self.open_bookmark();
            }
        } else if c == 'c' {
            if v == navigation::View::Flows || v == navigation::View::Weird || v == navigation::View::Domains {
                self.flow_subset = None;
                self.subset_label = None;
                self.recompute_visible(flows);
            }
        } else if c == 's' {
            if v == navigation::View::Domains {
                self.domains_sort = match self.domains_sort {
                    DomainsSort::Connections => DomainsSort::Bytes,
                    DomainsSort::Bytes => DomainsSort::Failures,
                    DomainsSort::Failures => DomainsSort::Connections,
                };
            }
        } else if '1' <= c && c <= '9' {
            let n: usize = (c as u32 - 48) as usize;
            if v == navigation::View::Weird {
                self.weird_selected_row = n - 1;
            } else if v == navigation::View::Domains {
                self.domains_selected_row = n - 1;
            } else if v == navigation::View::Overview {
                self.overview_selected_row = n - 1;
            }
        } else if c == 'j' {
            self.down_key(flows);
        } else if c == 'k' {
            self.up_key(flows);
        }
    }

    fn nav_key(
        &mut self,
        k: KeyPress,
        rows: &[PacketRow],
        flows: &FlowIndex,
        weird: &[WeirdItem],
        doms: &[DomainItem],
        actions: &[Option<OverviewAction>],
        timeline: &[usize],
    )
        requires
            !(k.key is Char),
        ensures
            view_key_done(*old(self), *final(self), k, rows@, flows.flows@, weird@, doms@, actions@, timeline@, KeyOutcome::Stay),
    {
        let v = self.view;
        match k.key {
            Key::Esc | Key::Backspace => {
                if v == navigation::View::Flows {
                    self.view = self.flows_back_view;
                } else if v == navigation::View::Weird || v == navigation::View::Domains || v == navigation::View::Timeline {
                    self.view = navigation::View::Overview;
                } else {
                    self.back();
                }
            },
            Key::Enter => self.enter(flows, weird, doms, actions, timeline),
            Key::Tab => {
                if v == navigation::View::Stream {
                    self.tab_next(rows, flows);
                } else if v == navigation::View::Timeline {
                    self.switch_timeline_tab();
                }
            },
            Key::BackTab => {
                if v == navigation::View::Stream {
                    self.tab_prev(rows, flows);
                } else if v == navigation::View::Timeline {
                    self.switch_timeline_tab();
                }
            },
            Key::PageDown => {
                if v == navigation::View::Packets {
                    self.packets_page_down(flows);
                } else if v == navigation::View::Timeline {
                    let step = self.timeline_page_rows();
                    self.timeline_move_down(step);
                }
            },
            Key::PageUp => {
                if v == navigation::View::Packets {
                    self.packets_page_up();
                } else if v == navigation::View::Timeline {
                    let step = self.timeline_page_rows();
                    self.timeline_move_up(step);
                }
            },
            Key::Down => self.down_key(flows),
            Key::Up => self.up_key(flows),
            _ => {},
        }
    }

    /// Handle a key press: in an open dialog as `modal_key_done` says, otherwise
    /// as `view_key_done` says. `weird`, `doms` and `actions` are the weird
    /// findings, the domains and the overview rows' actions on screen, and
    /// `timeline` the timeline's flows in their order on screen.
    pub fn handle_key(
        &mut self,
        k: KeyPress,
        rows: &[PacketRow],
        flows: &FlowIndex,
        casefile: &mut CaseFile,
        weird: &[WeirdItem],
        doms: &[DomainItem],
        actions: &[Option<OverviewAction>],
        timeline: &[usize],
    ) -> (out: KeyOutcome)
        requires
            key_fits(*old(self), k),
        ensures
            old(self).modal != Modal::Closed ==> modal_key_done(*old(self), *final(self), k, rows@, flows.flows@, *old(casefile), *final(casefile), out),
            old(self).modal == Modal::Closed ==> *final(casefile) == *old(casefile)
                && view_key_done(*old(self), *final(self), k, rows@, flows.flows@, weird@, doms@, actions@, timeline@, out),
    {
        if self.modal != Modal::Closed {
            return self.modal_key(k, rows, flows, casefile);
        }
        match k.key {
            Key::Char(c) => {
                if c == 'q' {
                    KeyOutcome::Quit
                } else if c == 'E' && self.view == navigation::View::Flows {
                    KeyOutcome::ExportReport
                } else {
                    self.char_key(c, rows, flows);
                    KeyOutcome::Stay
                }
            },
            _ => {
                self.nav_key(k, rows, flows, weird, doms, actions, timeline);
                KeyOutcome::Stay
            },
        }
    }
}

} // verus!
