//! Events: the values that processes and the scheduler exchange.

use crate::fixed::Fixed;
use vstd::prelude::*;

verus! {

/// What an event carries.
#[derive(Debug, PartialEq)]
pub enum EventPayload {
    SimulationStart,
    SimulationEnd,
    Step,
    /// Makes a process perform its action whatever its trigger mode.
    Trigger,
    /// An amount of resource offered to the target.
    Resource(Fixed),
    /// The amount of an offer that the sender of this event took.
    ResourceAccepted(Fixed),
    /// The amount of an offer that the sender of this event turned down.
    ResourceRejected(Fixed),
    Custom(String),
    /// Asks the target for as much as it can give, up to the flow rate.
    PullRequest,
    /// Asks the target for the full flow rate or nothing.
    PullAllRequest,
}

/// The mathematical value of an `EventPayload`.
pub enum PayloadView {
    SimulationStart,
    SimulationEnd,
    Step,
    Trigger,
    Resource(int),
    ResourceAccepted(int),
    ResourceRejected(int),
    Custom(Seq<char>),
    PullRequest,
    PullAllRequest,
}

impl View for EventPayload {
    type V = PayloadView;

    open spec fn view(&self) -> PayloadView {
        match self {
            EventPayload::SimulationStart => PayloadView::SimulationStart,
            EventPayload::SimulationEnd => PayloadView::SimulationEnd,
            EventPayload::Step => PayloadView::Step,
            EventPayload::Trigger => PayloadView::Trigger,
            EventPayload::Resource(a) => PayloadView::Resource(a@),
            EventPayload::ResourceAccepted(a) => PayloadView::ResourceAccepted(a@),
            EventPayload::ResourceRejected(a) => PayloadView::ResourceRejected(a@),
            EventPayload::Custom(s) => PayloadView::Custom(s@),
            EventPayload::PullRequest => PayloadView::PullRequest,
            EventPayload::PullAllRequest => PayloadView::PullAllRequest,
        }
    }
}

impl Clone for EventPayload {
    fn clone(&self) -> (r: Self)
        ensures
            r == *self,
    {
        match self {
            EventPayload::SimulationStart => EventPayload::SimulationStart,
            EventPayload::SimulationEnd => EventPayload::SimulationEnd,
            EventPayload::Step => EventPayload::Step,
            EventPayload::Trigger => EventPayload::Trigger,
            EventPayload::Resource(a) => EventPayload::Resource(*a),
            EventPayload::ResourceAccepted(a) => EventPayload::ResourceAccepted(*a),
            EventPayload::ResourceRejected(a) => EventPayload::ResourceRejected(*a),
            EventPayload::Custom(s) => EventPayload::Custom(s.clone()),
            EventPayload::PullRequest => EventPayload::PullRequest,
            EventPayload::PullAllRequest => EventPayload::PullAllRequest,
        }
    }
}

/// The view of an optional port name.
pub open spec fn port_view(port: Option<String>) -> Option<Seq<char>> {
    match port {
        Some(p) => Some(p@),
        None => None,
    }
}

/// A message from one process to another, due at a point in simulated time.
#[derive(Debug)]
pub struct Event {
    pub source_id: String,
    pub source_port: Option<String>,
    pub target_id: String,
    pub target_port: Option<String>,
    pub time: Fixed,
    pub payload: EventPayload,
    /// Set by the scheduler when the event is queued; breaks ties in time.
    pub sequence_number: u64,
}

/// The mathematical value of an `Event`.
pub struct EventView {
    pub source_id: Seq<char>,
    pub source_port: Option<Seq<char>>,
    pub target_id: Seq<char>,
    pub target_port: Option<Seq<char>>,
    pub time: int,
    pub payload: PayloadView,
    pub sequence_number: u64,
}

impl View for Event {
    type V = EventView;

    open spec fn view(&self) -> EventView {
        EventView {
            source_id: self.source_id@,
            source_port: port_view(self.source_port),
            target_id: self.target_id@,
            target_port: port_view(self.target_port),
            time: self.time@,
            payload: self.payload@,
            sequence_number: self.sequence_number,
        }
    }
}

/// The views of a sequence of events, in order.
pub open spec fn events_view(events: Seq<Event>) -> Seq<EventView> {
    events.map_values(|e: Event| e@)
}

/// The order of the queue: earlier time first, and among events of one time
/// the lower sequence number first.
pub open spec fn precedes(a: EventView, b: EventView) -> bool {
    a.time < b.time || (a.time == b.time && a.sequence_number < b.sequence_number)
}

/// `a` does not come after `b` in the order of the queue.
pub open spec fn not_after(a: EventView, b: EventView) -> bool {
    a.time < b.time || (a.time == b.time && a.sequence_number <= b.sequence_number)
}

/// An event as `Event::new` makes it: no ports, sequence number zero.
pub open spec fn plain_event(
    source_id: Seq<char>,
    target_id: Seq<char>,
    time: int,
    payload: PayloadView,
) -> EventView {
    EventView {
        source_id,
        source_port: None,
        target_id,
        target_port: None,
        time,
        payload,
        sequence_number: 0,
    }
}

/// An event with both ports named.
pub open spec fn event_with_ports(
    source_id: Seq<char>,
    source_port: Seq<char>,
    target_id: Seq<char>,
    target_port: Seq<char>,
    time: int,
    payload: PayloadView,
) -> EventView {
    EventView {
        source_id,
        source_port: Some(source_port),
        target_id,
        target_port: Some(target_port),
        time,
        payload,
        sequence_number: 0,
    }
}

impl Clone for Event {
    fn clone(&self) -> (r: Self)
        ensures
            r == *self,
    {
        Event {
            source_id: self.source_id.clone(),
            source_port: clone_port(&self.source_port),
            target_id: self.target_id.clone(),
            target_port: clone_port(&self.target_port),
            time: self.time,
            payload: self.payload.clone(),
            sequence_number: self.sequence_number,
        }
    }
}

/// A copy of an optional port name.
pub fn clone_port(port: &Option<String>) -> (r: Option<String>)
    ensures
        r == *port,
{
    match port {
        Some(p) => Some(p.clone()),
        None => None,
    }
}

impl Event {
    pub fn new(source_id: &str, target_id: &str, time: Fixed, payload: EventPayload) -> (r: Event)
        ensures
            r@ == plain_event(source_id@, target_id@, time@, payload@),
    {
        Event {
            source_id: source_id.to_owned(),
            target_id: target_id.to_owned(),
            time,
            payload,
            source_port: None,
            target_port: None,
            sequence_number: 0,
        }
    }

    pub fn with_source_port(self, source_port: &str) -> (r: Event)
        ensures
            r@ == (EventView { source_port: Some(source_port@), ..self@ }),
    {
        let mut event = self;
        event.source_port = Some(source_port.to_owned());
        event
    }

    pub fn with_target_port(self, target_port: &str) -> (r: Event)
        ensures
            r@ == (EventView { target_port: Some(target_port@), ..self@ }),
    {
        let mut event = self;
        event.target_port = Some(target_port.to_owned());
        event
    }

    pub fn with_ports(self, source_port: &str, target_port: &str) -> (r: Event)
        ensures
            r@ == (EventView {
                source_port: Some(source_port@),
                target_port: Some(target_port@),
                ..self@
            }),
    {
        let mut event = self;
        event.source_port = Some(source_port.to_owned());
        event.target_port = Some(target_port.to_owned());
        event
    }

    /// Whether this event leaves the queue before `other`.
    pub fn precedes(&self, other: &Event) -> (r: bool)
        ensures
            r == precedes(self@, other@),
    {
        self.time.raw() < other.time.raw() || (self.time.raw() == other.time.raw()
            && self.sequence_number < other.sequence_number)
    }
}

} // verus!
