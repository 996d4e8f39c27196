//! The bounded log of notable happenings.

use std::collections::VecDeque;
use vstd::prelude::*;

use crate::ids::{SystemId, Tick};

verus! {

/// What an event is about.
#[derive(Debug, Clone, Copy, PartialEq, Eq, Structural)]
pub enum EventCategory {
    Combat,
    Piracy,
    Navy,
    System,
}

/// Something that happened, when, and where if that is meaningful.
#[derive(Debug, Clone)]
pub struct SimEvent {
    pub tick: Tick,
    pub category: EventCategory,
    pub system: Option<SystemId>,
    pub message: String,
}

/// A [`SimEvent`] as a mathematical value.
#[verifier::ext_equal]
pub struct EventView {
    pub tick: Tick,
    pub category: EventCategory,
    pub system: Option<SystemId>,
    pub message: Seq<char>,
}

impl View for SimEvent {
    type V = EventView;

    open spec fn view(&self) -> EventView {
        EventView {
            tick: self.tick,
            category: self.category,
            system: self.system,
            message: self.message@,
        }
    }
}

/// How many events are retained; older ones drop off.
pub const EVENT_CAP: usize = 2000;

/// The views of a list of events.
pub open spec fn event_views(events: Seq<SimEvent>) -> Seq<EventView> {
    Seq::new(events.len(), |i: int| events[i]@)
}

/// The log after recording `e`: it joins at the end, and the oldest event leaves
/// once the log is over its bound.
pub open spec fn logged(events: Seq<EventView>, e: EventView) -> Seq<EventView> {
    let longer = events.push(e);
    if longer.len() > EVENT_CAP {
        longer.subrange(1, longer.len() as int)
    } else {
        longer
    }
}

/// Record an event.
pub fn log(events: &mut VecDeque<SimEvent>, e: SimEvent)
    ensures
        event_views(final(events)@) == logged(event_views(old(events)@), e@),
{
    let ghost before = events@;
    events.push_back(e);
    assert(event_views(events@) =~= event_views(before).push(e@));
    if events.len() > EVENT_CAP {
        let ghost longer = events@;
        let _oldest = events.pop_front();
        assert(event_views(events@) =~= event_views(longer).subrange(1, longer.len() as int));
    }
}

/// The newest event is always in the log, at its end; the log stays within its bound;
/// and nothing of it changes but that an oldest event may leave.
pub proof fn lemma_log_keeps_the_newest(events: Seq<EventView>, e: EventView)
    requires
        events.len() <= EVENT_CAP,
    ensures
        logged(events, e).len() <= EVENT_CAP,
        logged(events, e).last() == e,
        events.len() < EVENT_CAP ==> logged(events, e) == events.push(e),
        events.len() == EVENT_CAP ==> logged(events, e) == events.subrange(
            1,
            events.len() as int,
        ).push(e),
{
    if events.len() == EVENT_CAP {
        assert(logged(events, e) =~= events.subrange(1, events.len() as int).push(e));
    }
}

} // verus!
