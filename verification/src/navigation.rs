//! Where the browser stands: the screen shown, the stream tab and the open
//! dialog, and how the navigation keys move between them.
use vstd::prelude::*;

verus! {

/// The screen the browser shows.
#[derive(Debug, Clone, Copy, PartialEq, Eq, Structural)]
pub enum View {
    Overview,
    Flows,
    Weird,
    Domains,
    Packets,
    Stream,
    Timeline,
}

/// Which direction of a flow the stream view shows.
#[derive(Debug, Clone, Copy, PartialEq, Eq, Structural)]
pub enum StreamTab {
    AtoB,
    BtoA,
    Combined,
}

/// How the timeline draws each flow: phase-coloured bars or per-packet dots.
#[derive(Debug, Clone, Copy, PartialEq, Eq, Structural)]
pub enum TimelineTab {
    Gantt,
    Scatter,
}

/// The other timeline tab: Tab and Shift-Tab both switch between the two.
pub open spec fn other_timeline_tab(t: TimelineTab) -> TimelineTab {
    match t {
        TimelineTab::Gantt => TimelineTab::Scatter,
        TimelineTab::Scatter => TimelineTab::Gantt,
    }
}

/// The dialog open over the screen, if any.
#[derive(Debug, Clone, Copy, PartialEq, Eq, Structural)]
pub enum Modal {
    Closed,
    Filter,
    Bookmark,
    StreamSearch,
    Explain,
    Glossary,
    Help,
}

/// The tab after `t`, cycling.
pub open spec fn next_tab(t: StreamTab) -> StreamTab {
    match t {
        StreamTab::Combined => StreamTab::AtoB,
        StreamTab::AtoB => StreamTab::BtoA,
        StreamTab::BtoA => StreamTab::Combined,
    }
}

/// The tab before `t`, cycling.
pub open spec fn prev_tab(t: StreamTab) -> StreamTab {
    match t {
        StreamTab::Combined => StreamTab::BtoA,
        StreamTab::AtoB => StreamTab::Combined,
        StreamTab::BtoA => StreamTab::AtoB,
    }
}

/// The screen that going back leads to.
pub open spec fn back_view(v: View) -> View {
    match v {
        View::Flows => View::Flows,
        View::Weird => View::Flows,
        View::Domains => View::Flows,
        View::Packets => View::Flows,
        View::Stream => View::Packets,
        View::Overview => View::Overview,
        View::Timeline => View::Overview,
    }
}

/// Tab and Shift-Tab undo each other, and three Tabs come back to the same tab.
pub proof fn lemma_tabs_cycle(t: StreamTab)
    ensures
        prev_tab(next_tab(t)) == t,
        next_tab(prev_tab(t)) == t,
        next_tab(next_tab(next_tab(t))) == t,
{
}

/// Switching the timeline tab twice comes back to the same tab.
pub proof fn lemma_timeline_tabs_cycle(t: TimelineTab)
    ensures
        other_timeline_tab(other_timeline_tab(t)) == t,
        other_timeline_tab(t) != t,
{
}

} // verus!
