//! The overview screen's rows: which lines it shows, in order, and what
//! selecting each one does.
use vstd::prelude::*;
use crate::flow::{FlowIndex, FlowStats};
use crate::keys::OverviewAction;
use crate::pcap::{FlowKey, IpAddr};
use crate::summary::{HostCounts, OverviewSummary};
use crate::weird::WeirdItem;

verus! {

/// What an overview row shows; the front end words and styles it.
#[derive(Debug, Clone, Copy, PartialEq, Eq, Structural)]
pub enum OverviewLine {
    /// The `n`-th line of the welcome block (the last one is blank).
    Onboarding(u8),
    InPlainEnglish,
    Stats,
    Live,
    TopFlowBytes,
    TopFlowPackets,
    Blank,
    WhatToSelect,
    DomainsHint,
    WeirdLink,
    FlowsLink,
    TimelineHint,
    DetectedWeird,
    TrafficMixHeading,
    TrafficMix,
    TopPortsHeading,
    /// The `i`-th top port.
    Port(usize),
    TopHostsHeading,
    /// The `i`-th top host.
    Host(usize),
    TopFlowsHeading,
    /// The `i`-th top flow.
    Flow(usize),
}

#[derive(Debug, Clone, Copy, PartialEq, Eq, Structural)]
pub struct OverviewRow {
    pub line: OverviewLine,
    pub action: Option<OverviewAction>,
}

/// The first position of a flow with key `k`.
pub open spec fn key_position(fs: Seq<FlowStats>, k: FlowKey) -> Option<nat>
    decreases fs.len(),
{
    if fs.len() == 0 {
        None
    } else if fs[0].key == k {
        Some(0)
    } else {
        match key_position(fs.drop_first(), k) {
            Some(p) => Some(p + 1),
            None => None,
        }
    }
}

pub open spec fn plain(l: OverviewLine) -> OverviewRow {
    OverviewRow { line: l, action: None }
}

pub open spec fn at_most(n: nat, cap: nat) -> nat {
    if n < cap { n } else { cap }
}

pub open spec fn port_rows(ports: Seq<(u16, HostCounts)>) -> Seq<OverviewRow> {
    Seq::new(at_most(ports.len(), 8), |i: int| OverviewRow { line: OverviewLine::Port(i as usize), action: Some(OverviewAction::Port(ports[i].0)) })
}

pub open spec fn host_rows(hosts: Seq<(IpAddr, HostCounts)>) -> Seq<OverviewRow> {
    Seq::new(at_most(hosts.len(), 8), |i: int| OverviewRow { line: OverviewLine::Host(i as usize), action: Some(OverviewAction::Host(hosts[i].0)) })
}

pub open spec fn flow_rows(top: Seq<FlowStats>, fs: Seq<FlowStats>) -> Seq<OverviewRow> {
    Seq::new(at_most(top.len(), 6), |i: int| OverviewRow {
        line: OverviewLine::Flow(i as usize),
        action: match key_position(fs, top[i].key) {
            Some(p) => Some(OverviewAction::FlowIndex(p as usize)),
            None => None,
        },
    })
}

/// The fixed part of the overview: the welcome block (when shown), the
/// plain-English summary (with the live line during a live capture), the links
/// to the other screens (with the first weird finding when one flags flows),
/// the traffic mix, and the heading of the top ports.
pub open spec fn overview_head(onboarding: bool, live: bool, weird_flagged: bool) -> Seq<OverviewRow> {
    (if onboarding {
        Seq::new(7, |i: int| plain(OverviewLine::Onboarding(i as u8)))
    } else {
        Seq::empty()
    }) + seq![plain(OverviewLine::InPlainEnglish), plain(OverviewLine::Stats)]
        + (if live { seq![plain(OverviewLine::Live)] } else { Seq::empty() })
        + seq![
        plain(OverviewLine::TopFlowBytes),
        plain(OverviewLine::TopFlowPackets),
        plain(OverviewLine::Blank),
        plain(OverviewLine::WhatToSelect),
        plain(OverviewLine::DomainsHint),
        OverviewRow { line: OverviewLine::WeirdLink, action: Some(OverviewAction::GoWeird) },
        OverviewRow { line: OverviewLine::FlowsLink, action: Some(OverviewAction::GoFlows) },
        plain(OverviewLine::TimelineHint),
    ] + (if weird_flagged { seq![plain(OverviewLine::DetectedWeird)] } else { Seq::empty() }) + seq![
        plain(OverviewLine::Blank),
        plain(OverviewLine::TrafficMixHeading),
        plain(OverviewLine::TrafficMix),
        plain(OverviewLine::Blank),
        plain(OverviewLine::TopPortsHeading),
    ]
}

/// The selectable lists: up to 8 top ports, 8 top hosts and 6 top flows.
pub open spec fn overview_lists(ov: OverviewSummary, fs: Seq<FlowStats>) -> Seq<OverviewRow> {
    port_rows(ov.top_ports@) + seq![plain(OverviewLine::Blank), plain(OverviewLine::TopHostsHeading)]
        + host_rows(ov.top_hosts@) + seq![plain(OverviewLine::Blank), plain(OverviewLine::TopFlowsHeading)]
        + flow_rows(ov.top_flows@, fs)
}

/// The overview rows, in order.
pub open spec fn overview_rows_spec(onboarding: bool, live: bool, ov: OverviewSummary, fs: Seq<FlowStats>, weird_flagged: bool) -> Seq<OverviewRow> {
    overview_head(onboarding, live, weird_flagged) + overview_lists(ov, fs)
}

fn push_plain(v: &mut Vec<OverviewRow>, l: OverviewLine)
    ensures
        final(v)@ == old(v)@.push(plain(l)),
{
    v.push(OverviewRow { line: l, action: None });
}

fn key_position_of(fs: &Vec<FlowStats>, k: FlowKey) -> (r: Option<usize>)
    ensures
        match r {
            Some(p) => key_position(fs@, k) == Some(p as nat),
            None => key_position(fs@, k) is None,
        },
{
    let ghost v = fs@;
    let mut i: usize = 0;
    assert(v.skip(0) =~= v);
    while i < fs.len()
        invariant
            i <= v.len(),
            v == fs@,
            key_position(v, k) == match key_position(v.skip(i as int), k) {
                Some(p) => Some((p + i) as nat),
                None => None,
            },
        decreases v.len() - i,
    {
        if fs[i].key == k {
            assert(v.skip(i as int)[0] == fs@[i as int]);
            return Some(i);
        }
        assert(v.skip(i as int).drop_first() =~= v.skip(i + 1));
        i = i + 1;
    }
    assert(v.skip(i as int).len() == 0);
    None
}

fn head_rows(onboarding: bool, live: bool, weird_flagged: bool) -> (rows: Vec<OverviewRow>)
    ensures
        rows@ == overview_head(onboarding, live, weird_flagged),
{
    let mut rows: Vec<OverviewRow> = Vec::new();
    if onboarding {
        let mut i: u8 = 0;
        while i < 7
            invariant
                i <= 7,
                rows@ == Seq::new(i as nat, |j: int| plain(OverviewLine::Onboarding(j as u8))),
            decreases 7 - i,
        {
            push_plain(&mut rows, OverviewLine::Onboarding(i));
            i = i + 1;
            assert(rows@ =~= Seq::new(i as nat, |j: int| plain(OverviewLine::Onboarding(j as u8))));
        }
    }
    let ghost r0 = rows@;
    push_plain(&mut rows, OverviewLine::InPlainEnglish);
    push_plain(&mut rows, OverviewLine::Stats);
    assert(rows@ =~= r0 + seq![plain(OverviewLine::InPlainEnglish), plain(OverviewLine::Stats)]);
    let ghost r1 = rows@;
    if live {
        push_plain(&mut rows, OverviewLine::Live);
    }
    assert(rows@ =~= r1 + (if live { seq![plain(OverviewLine::Live)] } else { Seq::empty() }));
    let ghost r2 = rows@;
    push_plain(&mut rows, OverviewLine::TopFlowBytes);
    push_plain(&mut rows, OverviewLine::TopFlowPackets);
    push_plain(&mut rows, OverviewLine::Blank);
    push_plain(&mut rows, OverviewLine::WhatToSelect);
    push_plain(&mut rows, OverviewLine::DomainsHint);
    rows.push(OverviewRow { line: OverviewLine::WeirdLink, action: Some(OverviewAction::GoWeird) });
    rows.push(OverviewRow { line: OverviewLine::FlowsLink, action: Some(OverviewAction::GoFlows) });
    push_plain(&mut rows, OverviewLine::TimelineHint);
    assert(rows@ =~= r2 + seq![
        plain(OverviewLine::TopFlowBytes),
        plain(OverviewLine::TopFlowPackets),
        plain(OverviewLine::Blank),
        plain(OverviewLine::WhatToSelect),
        plain(OverviewLine::DomainsHint),
        OverviewRow { line: OverviewLine::WeirdLink, action: Some(OverviewAction::GoWeird) },
        OverviewRow { line: OverviewLine::FlowsLink, action: Some(OverviewAction::GoFlows) },
        plain(OverviewLine::TimelineHint),
    ]);
    let ghost r3 = rows@;
    if weird_flagged {
        push_plain(&mut rows, OverviewLine::DetectedWeird);
    }
    assert(rows@ =~= r3 + (if weird_flagged { seq![plain(OverviewLine::DetectedWeird)] } else { Seq::empty() }));
    let ghost r4 = rows@;
    push_plain(&mut rows, OverviewLine::Blank);
    push_plain(&mut rows, OverviewLine::TrafficMixHeading);
    push_plain(&mut rows, OverviewLine::TrafficMix);
    push_plain(&mut rows, OverviewLine::Blank);
    push_plain(&mut rows, OverviewLine::TopPortsHeading);
    assert(rows@ =~= r4 + seq![
        plain(OverviewLine::Blank),
        plain(OverviewLine::TrafficMixHeading),
        plain(OverviewLine::TrafficMix),
        plain(OverviewLine::Blank),
        plain(OverviewLine::TopPortsHeading),
    ]);
    rows
}

fn push_lists(rows: &mut Vec<OverviewRow>, ov: &OverviewSummary, flows: &FlowIndex)
    ensures
        final(rows)@ == old(rows)@ + overview_lists(*ov, flows.flows@),
{
    let ghost r1 = rows@;
    let np = if ov.top_ports.len() < 8 { ov.top_ports.len() } else { 8 };
    let mut i: usize = 0;
    while i < np
        invariant
            np == at_most(ov.top_ports@.len(), 8),
            i <= np,
            rows@ == r1 + port_rows(ov.top_ports@).take(i as int),
        decreases np - i,
    {
        rows.push(OverviewRow { line: OverviewLine::Port(i), action: Some(OverviewAction::Port(ov.top_ports[i].0)) });
        i = i + 1;
        assert(rows@ =~= r1 + port_rows(ov.top_ports@).take(i as int));
    }
    assert(port_rows(ov.top_ports@).take(np as int) =~= port_rows(ov.top_ports@));
    push_plain(rows, OverviewLine::Blank);
    push_plain(rows, OverviewLine::TopHostsHeading);
    let ghost r2 = rows@;
    let nh = if ov.top_hosts.len() < 8 { ov.top_hosts.len() } else { 8 };
    let mut i: usize = 0;
    while i < nh
        invariant
            nh == at_most(ov.top_hosts@.len(), 8),
            i <= nh,
            rows@ == r2 + host_rows(ov.top_hosts@).take(i as int),
        decreases nh - i,
    {
        rows.push(OverviewRow { line: OverviewLine::Host(i), action: Some(OverviewAction::Host(ov.top_hosts[i].0)) });
        i = i + 1;
        assert(rows@ =~= r2 + host_rows(ov.top_hosts@).take(i as int));
    }
    assert(host_rows(ov.top_hosts@).take(nh as int) =~= host_rows(ov.top_hosts@));
    push_plain(rows, OverviewLine::Blank);
    push_plain(rows, OverviewLine::TopFlowsHeading);
    let ghost r3 = rows@;
    let nf = if ov.top_flows.len() < 6 { ov.top_flows.len() } else { 6 };
    let mut i: usize = 0;
    while i < nf
        invariant
            nf == at_most(ov.top_flows@.len(), 6),
            i <= nf,
            rows@ == r3 + flow_rows(ov.top_flows@, flows.flows@).take(i as int),
        decreases nf - i,
    {
        let action = match key_position_of(&flows.flows, ov.top_flows[i].key) {
            Some(p) => Some(OverviewAction::FlowIndex(p)),
            None => None,
        };
        rows.push(OverviewRow { line: OverviewLine::Flow(i), action });
        i = i + 1;
        assert(rows@ =~= r3 + flow_rows(ov.top_flows@, flows.flows@).take(i as int));
    }
    assert(flow_rows(ov.top_flows@, flows.flows@).take(nf as int) =~= flow_rows(ov.top_flows@, flows.flows@));
    assert(rows@ =~= r1 + overview_lists(*ov, flows.flows@));
}

/// The overview rows for the current summary (see `overview_head` and `overview_lists`).
pub fn overview_rows(onboarding: bool, live: bool, ov: &OverviewSummary, flows: &FlowIndex, weird_flagged: bool) -> (rows: Vec<OverviewRow>)
    ensures
        rows@ == overview_rows_spec(onboarding, live, *ov, flows.flows@, weird_flagged),
{
    let mut rows = head_rows(onboarding, live, weird_flagged);
    push_lists(&mut rows, ov, flows);
    rows
}

/// The actions of the overview rows, in order.
pub fn overview_actions(rows: &[OverviewRow]) -> (a: Vec<Option<OverviewAction>>)
    ensures
        a@ == rows@.map_values(|r: OverviewRow| r.action),
{
    let mut a: Vec<Option<OverviewAction>> = Vec::new();
    let mut i: usize = 0;
    while i < rows.len()
        invariant
            i <= rows@.len(),
            a@ == rows@.take(i as int).map_values(|r: OverviewRow| r.action),
        decreases rows@.len() - i,
    {
        a.push(rows[i].action);
        i = i + 1;
        assert(a@ =~= rows@.take(i as int).map_values(|r: OverviewRow| r.action));
    }
    assert(rows@.take(rows@.len() as int) =~= rows@);
    a
}


/// The first weird finding that flags flows, which the overview mentions.
pub fn first_flagged(items: &[WeirdItem]) -> (r: Option<usize>)
    ensures
        match r {
            Some(i) => i < items@.len() && items@[i as int].flow_indices@.len() > 0
                && forall|j: int| 0 <= j < i ==> (#[trigger] items@[j]).flow_indices@.len() == 0,
            None => forall|j: int| 0 <= j < items@.len() ==> (#[trigger] items@[j]).flow_indices@.len() == 0,
        },
{
    let mut i: usize = 0;
    while i < items.len()
        invariant
            i <= items@.len(),
            forall|j: int| 0 <= j < i ==> (#[trigger] items@[j]).flow_indices@.len() == 0,
        decreases items@.len() - i,
    {
        if items[i].flow_indices.len() > 0 {
            return Some(i);
        }
        i = i + 1;
    }
    None
}

/// The first flow with the most packets.
pub fn most_packets_flow(fs: &[FlowStats]) -> (r: Option<usize>)
    ensures
        r is None <==> fs@.len() == 0,
        match r {
            Some(i) => i < fs@.len()
                && (forall|j: int| 0 <= j < fs@.len() ==> (#[trigger] fs@[j]).total_packets <= fs@[i as int].total_packets)
                && (forall|j: int| 0 <= j < i ==> (#[trigger] fs@[j]).total_packets < fs@[i as int].total_packets),
            None => true,
        },
{
    if fs.len() == 0 {
        return None;
    }
    let mut best: usize = 0;
    let mut i: usize = 1;
    while i < fs.len()
        invariant
            1 <= i <= fs@.len(),
            best < i,
            forall|j: int| 0 <= j < i ==> (#[trigger] fs@[j]).total_packets <= fs@[best as int].total_packets,
            forall|j: int| 0 <= j < best ==> (#[trigger] fs@[j]).total_packets < fs@[best as int].total_packets,
        decreases fs@.len() - i,
    {
        if fs[i].total_packets > fs[best].total_packets {
            best = i;
        }
        i = i + 1;
    }
    Some(best)
}

} // verus!
