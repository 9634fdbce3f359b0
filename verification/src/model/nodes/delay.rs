//! Delays: transit nodes that hold what arrives before passing it on.

use crate::fixed::{representable, Fixed, SCALE};
use crate::model::connection::{Connection, ConnectionView};
use crate::model::nodes::resource::{
    default_rate, no_events, offer, offer_along, push_event, request_from_each, requests,
};
use crate::model::nodes::{DelayAction, TriggerMode};
use crate::model::process_context::{connections_view, ContextView, ProcessContext};
use crate::model::process_state::{available, available_between, DelayState, ProcessState};
use crate::model::process_trait::{
    no_names, one_name, reacted, within_bounds, ProcessModel, Processor, Reaction,
    SerializableProcess,
};
use crate::simulator::event::{
    events_view, plain_event, Event, EventPayload, EventView, PayloadView,
};
use crate::utils::errors::{out_of_bounds, SimulationError};
use vstd::prelude::*;

verus! {

/// A transit node with one input port, `in`, and one output port, `out`,
/// which must carry exactly one connection. The flow rate of that
/// connection is the time a resource spends in transit.
#[derive(Debug)]
pub struct Delay {
    id: String,
    state: DelayState,
    trigger_mode: TriggerMode,
    action: DelayAction,
    /// How much leaves at a time in `Queue` mode.
    release_amount: Fixed,
    /// The earliest time of the next release in `Queue` mode.
    next_release_time: Fixed,
}

/// The mathematical value of a `Delay`.
pub struct DelayModel {
    pub id: Seq<char>,
    pub received: int,
    pub released: int,
    pub pending: int,
    pub trigger_mode: TriggerMode,
    pub action: DelayAction,
    pub release_amount: int,
    pub next_release_time: int,
}

impl View for Delay {
    type V = DelayModel;

    closed spec fn view(&self) -> DelayModel {
        DelayModel {
            id: self.id@,
            received: self.state.resources_received@,
            released: self.state.resources_released@,
            pending: self.state.pending_outgoing_resources@,
            trigger_mode: self.trigger_mode,
            action: self.action,
            release_amount: self.release_amount@,
            next_release_time: self.next_release_time@,
        }
    }
}

/// The bounds a delay keeps between events: it has released no more than it
/// received, nothing is negative, the amount released at a time is
/// positive, and every number fits the number type.
pub open spec fn delay_valid(m: DelayModel) -> bool {
    &&& 0 <= m.released <= m.received <= i64::MAX
    &&& 0 <= m.pending <= i64::MAX
    &&& 0 < m.release_amount <= i64::MAX
    &&& representable(m.next_release_time)
}

/// Whether every event of a sequence is due at a time that fits the number
/// type.
pub open spec fn events_fit(events: Seq<EventView>) -> bool {
    forall|i: int| 0 <= i < events.len() ==> representable(#[trigger] events[i].time)
}

impl DelayModel {
    /// What the delay holds: received less released.
    pub open spec fn current(self) -> int {
        self.received - self.released
    }

    /// What the delay can still commit to new offers.
    pub open spec fn available(self) -> int {
        available(self.current(), self.pending)
    }

    /// Whether a queue may release at `time`: no release is outstanding, a
    /// full release is on hand, and the waiting time is over.
    pub open spec fn can_release(self, time: int) -> bool {
        &&& self.pending < self.release_amount
        &&& self.available() >= self.release_amount
        &&& time >= self.next_release_time
    }

    /// The queue after it released along `c` at `time`.
    pub open spec fn after_release(self, c: ConnectionView, time: int) -> DelayModel {
        DelayModel {
            pending: self.pending + self.release_amount,
            next_release_time: time + c.rate_or(default_rate()),
            ..self
        }
    }
}

/// The delay after an offer of `amount` from `sender`, and the events it
/// emits: a rejection where it does not have exactly one output connection;
/// otherwise the acceptance, followed in `Delay` mode by the same amount
/// sent on after the delay, and in `Queue` mode by one release if the queue
/// may release now. A queue that was empty before the arrival first starts
/// its waiting time anew.
pub open spec fn delay_receive(
    m: DelayModel,
    sender: Seq<char>,
    context: ContextView,
    amount: int,
) -> (DelayModel, Seq<EventView>) {
    let time = context.current_time;
    let outputs = context.outputs_for_port(Some("out"@));
    if outputs.len() != 1 {
        (m, seq![plain_event(m.id, sender, time, PayloadView::ResourceRejected(amount))])
    } else {
        let c = outputs[0];
        let due = time + c.rate_or(default_rate());
        let taken = DelayModel { received: m.received + amount, ..m };
        let acceptance = plain_event(m.id, sender, time, PayloadView::ResourceAccepted(amount));
        match m.action {
            DelayAction::Delay => (
                DelayModel { pending: m.pending + amount, ..taken },
                seq![acceptance, offer(m.id, c, due, amount)],
            ),
            DelayAction::Queue => {
                let waiting = if taken.available() == amount {
                    DelayModel { next_release_time: due, ..taken }
                } else {
                    taken
                };
                if waiting.can_release(time) {
                    (
                        waiting.after_release(c, time),
                        seq![acceptance, offer(m.id, c, time, m.release_amount)],
                    )
                } else {
                    (waiting, seq![acceptance])
                }
            },
        }
    }
}

/// What a delay does on a `Step`: nothing in `Delay` mode; in `Queue` mode
/// one release, if it has exactly one output connection and may release.
pub open spec fn delay_step(m: DelayModel, context: ContextView) -> (DelayModel, Seq<EventView>) {
    let time = context.current_time;
    let outputs = context.outputs_for_port(Some("out"@));
    if m.action == DelayAction::Queue && outputs.len() == 1 && m.can_release(time) {
        (m.after_release(outputs[0], time), seq![offer(m.id, outputs[0], time, m.release_amount)])
    } else {
        (m, Seq::empty())
    }
}

/// The next state and the events that one event calls for, before the
/// bounds are checked.
pub open spec fn delay_apply(m: DelayModel, event: EventView, context: ContextView) -> (
    DelayModel,
    Seq<EventView>,
) {
    match event.payload {
        PayloadView::Step => delay_step(m, context),
        PayloadView::PullRequest | PayloadView::PullAllRequest => (
            m,
            requests(
                m.id,
                context.current_time,
                context.inputs_for_port(Some("in"@)),
                PayloadView::PullRequest,
            ),
        ),
        PayloadView::Resource(amount) => delay_receive(m, event.source_id, context, amount),
        PayloadView::ResourceAccepted(amount) => (
            DelayModel { pending: m.pending - amount, released: m.released + amount, ..m },
            Seq::empty(),
        ),
        PayloadView::ResourceRejected(amount) => (
            DelayModel { pending: m.pending - amount, ..m },
            Seq::empty(),
        ),
        _ => (m, Seq::empty()),
    }
}

/// A proposal, if the delay it leads to is within its bounds and its events
/// are due at times that fit the number type.
pub open spec fn delay_checked(proposal: (DelayModel, Seq<EventView>)) -> Reaction<DelayModel> {
    within_bounds(proposal, delay_valid(proposal.0) && events_fit(proposal.1))
}

/// How a delay reacts to an offer: a negative amount fails.
pub open spec fn delay_take(m: DelayModel, sender: Seq<char>, context: ContextView, amount: int) -> Reaction<
    DelayModel,
> {
    if amount < 0 {
        Err(out_of_bounds())
    } else {
        delay_checked(delay_receive(m, sender, context, amount))
    }
}

/// How a delay reacts to one event.
pub open spec fn delay_react(m: DelayModel, event: EventView, context: ContextView) -> Reaction<
    DelayModel,
> {
    match event.payload {
        PayloadView::Resource(amount) => delay_take(m, event.source_id, context, amount),
        _ => delay_checked(delay_apply(m, event, context)),
    }
}

/// A delay as `Delay::new` makes it: it passes each arrival on after the
/// delay.
pub open spec fn default_delay(id: Seq<char>) -> DelayModel {
    DelayModel {
        id,
        received: 0,
        released: 0,
        pending: 0,
        trigger_mode: TriggerMode::Automatic,
        action: DelayAction::Delay,
        release_amount: SCALE as int,
        next_release_time: 0,
    }
}

/// Decides whether a state is within the bounds of a delay.
fn state_within_bounds(state: &DelayState, release_amount: Fixed) -> (r: bool)
    ensures
        r == (0 <= state.resources_released@ <= state.resources_received@ && 0
            <= state.pending_outgoing_resources@ && 0 < release_amount@),
{
    state.resources_released.raw() >= 0 && state.resources_released.raw()
        <= state.resources_received.raw() && state.pending_outgoing_resources.raw() >= 0
        && release_amount.raw() > 0
}

/// Collects the settings of a delay before it is made.
#[derive(Debug)]
pub struct DelayBuilder {
    id: String,
    state: DelayState,
    trigger_mode: TriggerMode,
    action: DelayAction,
    release_amount: Fixed,
}

impl View for DelayBuilder {
    type V = DelayModel;

    closed spec fn view(&self) -> DelayModel {
        DelayModel {
            id: self.id@,
            received: self.state.resources_received@,
            released: self.state.resources_released@,
            pending: self.state.pending_outgoing_resources@,
            trigger_mode: self.trigger_mode,
            action: self.action,
            release_amount: self.release_amount@,
            next_release_time: 0,
        }
    }
}

impl Default for DelayBuilder {
    fn default() -> (r: Self)
        ensures
            r@ == default_delay(Seq::empty()),
    {
        DelayBuilder {
            id: String::new(),
            state: DelayState::default(),
            trigger_mode: TriggerMode::Automatic,
            action: DelayAction::Delay,
            release_amount: Fixed::one(),
        }
    }
}

impl DelayBuilder {
    pub fn id(self, id: &str) -> (r: Self)
        ensures
            r@ == (DelayModel { id: id@, ..self@ }),
    {
        let mut builder = self;
        builder.id = id.to_owned();
        builder
    }

    pub fn state(self, state: DelayState) -> (r: Self)
        ensures
            r@ == (DelayModel {
                received: state.resources_received@,
                released: state.resources_released@,
                pending: state.pending_outgoing_resources@,
                ..self@
            }),
    {
        let mut builder = self;
        builder.state = state;
        builder
    }

    pub fn trigger_mode(self, trigger_mode: TriggerMode) -> (r: Self)
        ensures
            r@ == (DelayModel { trigger_mode, ..self@ }),
    {
        let mut builder = self;
        builder.trigger_mode = trigger_mode;
        builder
    }

    pub fn action(self, action: DelayAction) -> (r: Self)
        ensures
            r@ == (DelayModel { action, ..self@ }),
    {
        let mut builder = self;
        builder.action = action;
        builder
    }

    pub fn release_amount(self, release_amount: Fixed) -> (r: Self)
        ensures
            r@ == (DelayModel { release_amount: release_amount@, ..self@ }),
    {
        let mut builder = self;
        builder.release_amount = release_amount;
        builder
    }

    /// The delay with the settings collected, or the failure if they are
    /// outside the bounds of a delay.
    pub fn build(self) -> (r: Result<Delay, SimulationError>)
        ensures
            delay_valid(self@) ==> (r matches Ok(delay) && delay@ == self@ && delay.wf()),
            !delay_valid(self@) ==> (r matches Err(e) && e@ == out_of_bounds()),
    {
        if state_within_bounds(&self.state, self.release_amount) {
            Ok(
                Delay {
                    id: self.id,
                    state: self.state,
                    trigger_mode: self.trigger_mode,
                    action: self.action,
                    release_amount: self.release_amount,
                    next_release_time: Fixed::zero(),
                },
            )
        } else {
            Err(SimulationError::out_of_bounds())
        }
    }
}

impl Delay {
    /// Whether the delay is within its bounds.
    pub open spec fn wf(&self) -> bool {
        delay_valid(self@)
    }

    pub fn new(id: &str) -> (r: Delay)
        ensures
            r@ == default_delay(id@),
            r.wf(),
    {
        Delay {
            id: id.to_owned(),
            state: DelayState::default(),
            trigger_mode: TriggerMode::Automatic,
            action: DelayAction::Delay,
            release_amount: Fixed::one(),
            next_release_time: Fixed::zero(),
        }
    }

    pub fn builder() -> (r: DelayBuilder)
        ensures
            r@ == default_delay(Seq::empty()),
    {
        DelayBuilder::default()
    }

    pub fn id(&self) -> (r: &str)
        ensures
            r@ == self@.id,
    {
        self.id.as_str()
    }

    /// Whether the process goes by the identifier `id`.
    pub fn has_id(&self, id: &String) -> (r: bool)
        ensures
            r == (self@.id == id@),
    {
        self.id == *id
    }

    pub fn state(&self) -> (r: DelayState)
        ensures
            r.resources_received@ == self@.received,
            r.resources_released@ == self@.released,
            r.pending_outgoing_resources@ == self@.pending,
    {
        self.state
    }

    pub fn trigger_mode(&self) -> (r: TriggerMode)
        ensures
            r == self@.trigger_mode,
    {
        self.trigger_mode
    }

    pub fn action(&self) -> (r: DelayAction)
        ensures
            r == self@.action,
    {
        self.action
    }

    pub fn release_amount(&self) -> (r: Fixed)
        ensures
            r@ == self@.release_amount,
    {
        self.release_amount
    }

    pub fn next_release_time(&self) -> (r: Fixed)
        ensures
            r@ == self@.next_release_time,
    {
        self.next_release_time
    }

    /// Whether a queue holding `state`, with its waiting time over at
    /// `next_release_time`, may release at `current_time`.
    fn may_release(&self, state: &DelayState, next_release_time: Fixed, current_time: Fixed) -> (r:
        bool)
        requires
            0 <= state.resources_released@ <= state.resources_received@,
            0 <= state.pending_outgoing_resources@,
        ensures
            r == (DelayModel {
                received: state.resources_received@,
                released: state.resources_released@,
                pending: state.pending_outgoing_resources@,
                next_release_time: next_release_time@,
                ..self@
            }).can_release(current_time@),
    {
        let held = Fixed::from_raw(
            state.resources_received.raw() - state.resources_released.raw(),
        );
        let free = available_between(held, state.pending_outgoing_resources);
        state.pending_outgoing_resources.raw() < self.release_amount.raw() && free.raw()
            >= self.release_amount.raw() && current_time.raw() >= next_release_time.raw()
    }

    /// Whether the queue may release at `current_time`.
    pub fn can_release_from_queue(&self, current_time: Fixed) -> (r: bool)
        requires
            self.wf(),
        ensures
            r == self@.can_release(current_time@),
    {
        self.may_release(&self.state, self.next_release_time, current_time)
    }

    /// The offer that carries `amount` along the output connection, due at
    /// `time`.
    pub fn create_transfer_event(&self, connection: &Connection, amount: Fixed, time: Fixed) -> (r:
        Event)
        ensures
            r@ == offer(self@.id, connection@, time@, amount@),
    {
        offer_along(&self.id, connection, time, amount)
    }

    /// Releases from the queue along `connection` at `time`, starting from
    /// `state` with the waiting time over at `next_release_time`, and adds
    /// the release to `events`.
    fn release(
        &mut self,
        state: DelayState,
        connection: &Connection,
        time: Fixed,
        events: Vec<Event>,
    ) -> (r: Result<Vec<Event>, SimulationError>)
        requires
            old(self).wf(),
            0 <= state.resources_released@ <= state.resources_received@,
            0 <= state.pending_outgoing_resources@,
            events_fit(events_view(events@)),
            representable(time@),
        ensures
            final(self).wf(),
            ({
                let waiting = DelayModel {
                    received: state.resources_received@,
                    released: state.resources_released@,
                    pending: state.pending_outgoing_resources@,
                    ..old(self)@
                };
                reacted(
                    old(self)@,
                    delay_checked(
                        (
                            waiting.after_release(connection@, time@),
                            events_view(events@).push(
                                offer(old(self)@.id, connection@, time@, old(self)@.release_amount),
                            ),
                        ),
                    ),
                    final(self)@,
                    r,
                )
            }),
    {
        let ghost earlier = events_view(events@);
        let ghost released = earlier.push(
            offer(self@.id, connection@, time@, self@.release_amount),
        );
        let promised = state.pending_outgoing_resources.checked_add(self.release_amount);
        let next = time.checked_add(connection.rate_or(Fixed::one()));
        match (promised, next) {
            (Some(pending), Some(next_release_time)) => {
                let mut events = events;
                let event = self.create_transfer_event(connection, self.release_amount, time);
                push_event(&mut events, event);
                self.state = DelayState { pending_outgoing_resources: pending, ..state };
                self.next_release_time = next_release_time;
                assert(events_fit(released)) by {
                    assert forall|i: int| 0 <= i < released.len() implies representable(
                        #[trigger] released[i].time,
                    ) by {
                        if i < released.len() - 1 {
                            assert(released[i] == earlier[i]);
                        }
                    }
                }
                Ok(events)
            },
            _ => Err(SimulationError::out_of_bounds()),
        }
    }

    /// Takes an offer, if the delay has exactly one output connection, and
    /// sends on what its mode calls for.
    pub fn handle_resource(&mut self, event: &Event, context: &ProcessContext, amount: Fixed) -> (r:
        Result<Vec<Event>, SimulationError>)
        requires
            old(self).wf(),
        ensures
            final(self).wf(),
            reacted(
                old(self)@,
                delay_take(old(self)@, event@.source_id, context@, amount@),
                final(self)@,
                r,
            ),
    {
        if amount.is_negative() {
            return Err(SimulationError::out_of_bounds());
        }
        let time = context.current_time();
        let outputs = context.outputs_for_port(Some("out"));
        if outputs.len() != 1 {
            let rejection = Event::new(
                self.id.as_str(),
                event.source_id.as_str(),
                time,
                EventPayload::ResourceRejected(amount),
            );
            let mut events = no_events();
            push_event(&mut events, rejection);
            assert(events_view(events@) =~= seq![rejection@]);
            return Ok(events);
        }
        let connection = outputs[0];
        assert(context@.outputs_for_port(Some("out"@))[0] == connection@);
        let received = match self.state.resources_received.checked_add(amount) {
            Some(received) => received,
            None => {
                return Err(SimulationError::out_of_bounds());
            },
        };
        let acceptance = Event::new(
            self.id.as_str(),
            event.source_id.as_str(),
            time,
            EventPayload::ResourceAccepted(amount),
        );
        let mut events = no_events();
        push_event(&mut events, acceptance);
        assert(events_view(events@) =~= seq![acceptance@]);
        let due = time.checked_add(connection.rate_or(Fixed::one()));
        match self.action {
            DelayAction::Delay => {
                let pending = self.state.pending_outgoing_resources.checked_add(amount);
                match (pending, due) {
                    (Some(pending), Some(due)) => {
                        let passed_on = self.create_transfer_event(connection, amount, due);
                        push_event(&mut events, passed_on);
                        assert(events_view(events@) =~= seq![acceptance@, passed_on@]);
                        assert(events_fit(seq![acceptance@, passed_on@]));
                        self.state = DelayState {
                            resources_received: received,
                            pending_outgoing_resources: pending,
                            ..self.state
                        };
                        Ok(events)
                    },
                    _ => {
                        assert(!events_fit(
                            seq![
                                acceptance@,
                                offer(
                                    self@.id,
                                    connection@,
                                    time@ + connection@.rate_or(default_rate()),
                                    amount@,
                                ),
                            ],
                        ) || !representable(self@.pending + amount@)) by {
                            let pair = seq![
                                acceptance@,
                                offer(
                                    self@.id,
                                    connection@,
                                    time@ + connection@.rate_or(default_rate()),
                                    amount@,
                                ),
                            ];
                            if events_fit(pair) {
                                assert(representable(pair[1].time));
                            }
                        }
                        Err(SimulationError::out_of_bounds())
                    },
                }
            },
            DelayAction::Queue => {
                let taken = DelayState { resources_received: received, ..self.state };
                let held = Fixed::from_raw(received.raw() - taken.resources_released.raw());
                let free = available_between(held, taken.pending_outgoing_resources);
                let next_release_time = if free.raw() == amount.raw() {
                    match due {
                        Some(due) => due,
                        None => {
                            return Err(SimulationError::out_of_bounds());
                        },
                    }
                } else {
                    self.next_release_time
                };
                if self.may_release(&taken, next_release_time, time) {
                    let before = self.next_release_time;
                    self.next_release_time = next_release_time;
                    assert(seq![acceptance@].push(
                        offer(self@.id, connection@, time@, self@.release_amount),
                    ) =~= seq![
                        acceptance@,
                        offer(self@.id, connection@, time@, self@.release_amount),
                    ]);
                    let r = self.release(taken, connection, time, events);
                    if r.is_err() {
                        self.next_release_time = before;
                    }
                    r
                } else {
                    self.state = taken;
                    self.next_release_time = next_release_time;
                    Ok(events)
                }
            },
        }
    }

    /// Passes a pull request on to the source of every input connection.
    pub fn handle_pull_request(&mut self, context: &ProcessContext) -> (r: Result<
        Vec<Event>,
        SimulationError,
    >)
        ensures
            final(self)@ == old(self)@,
            r matches Ok(events) && events_view(events@) == requests(
                old(self)@.id,
                context@.current_time,
                context@.inputs_for_port(Some("in"@)),
                PayloadView::PullRequest,
            ),
    {
        let inputs = context.inputs_for_port(Some("in"));
        Ok(request_from_each(&self.id, context.current_time(), &inputs, &EventPayload::PullRequest))
    }

    /// Moves to `state` if it is within the delay's bounds.
    fn settle(&mut self, state: Option<DelayState>) -> (r: Result<Vec<Event>, SimulationError>)
        requires
            old(self).wf(),
        ensures
            final(self).wf(),
            match state {
                Some(s) => reacted(
                    old(self)@,
                    delay_checked(
                        (
                            DelayModel {
                                received: s.resources_received@,
                                released: s.resources_released@,
                                pending: s.pending_outgoing_resources@,
                                ..old(self)@
                            },
                            Seq::empty(),
                        ),
                    ),
                    final(self)@,
                    r,
                ),
                None => r matches Err(e) && e@ == out_of_bounds() && final(self)@ == old(self)@,
            },
    {
        match state {
            Some(s) => {
                if state_within_bounds(&s, self.release_amount) {
                    self.state = s;
                    Ok(no_events())
                } else {
                    Err(SimulationError::out_of_bounds())
                }
            },
            None => Err(SimulationError::out_of_bounds()),
        }
    }

    /// Handles one event.
    pub fn on_event(&mut self, event: &Event, context: &ProcessContext) -> (r: Result<
        Vec<Event>,
        SimulationError,
    >)
        requires
            old(self).wf(),
        ensures
            final(self).wf(),
            reacted(old(self)@, delay_react(old(self)@, event@, context@), final(self)@, r),
    {
        match &event.payload {
            EventPayload::Step => {
                let time = context.current_time();
                match self.action {
                    DelayAction::Delay => Ok(no_events()),
                    DelayAction::Queue => {
                        let outputs = context.outputs_for_port(Some("out"));
                        if outputs.len() == 1 && self.can_release_from_queue(time) {
                            let state = self.state;
                            let r = self.release(state, outputs[0], time, no_events());
                            assert(Seq::<EventView>::empty().push(
                                offer(old(self)@.id, outputs@[0]@, time@, old(self)@.release_amount),
                            ) =~= seq![
                                offer(old(self)@.id, outputs@[0]@, time@, old(self)@.release_amount),
                            ]);
                            r
                        } else {
                            Ok(no_events())
                        }
                    },
                }
            },
            EventPayload::PullRequest => self.handle_pull_request(context),
            EventPayload::PullAllRequest => self.handle_pull_request(context),
            EventPayload::Resource(amount) => self.handle_resource(event, context, *amount),
            EventPayload::ResourceAccepted(amount) => {
                let state = match (
                    self.state.pending_outgoing_resources.checked_sub(*amount),
                    self.state.resources_released.checked_add(*amount),
                ) {
                    (Some(pending), Some(released)) => Some(
                        DelayState {
                            resources_received: self.state.resources_received,
                            resources_released: released,
                            pending_outgoing_resources: pending,
                        },
                    ),
                    _ => None,
                };
                self.settle(state)
            },
            EventPayload::ResourceRejected(amount) => {
                let state = match self.state.pending_outgoing_resources.checked_sub(*amount) {
                    Some(pending) => Some(
                        DelayState { pending_outgoing_resources: pending, ..self.state },
                    ),
                    None => None,
                };
                self.settle(state)
            },
            _ => Ok(no_events()),
        }
    }

    pub fn get_state(&self) -> (r: ProcessState)
        ensures
            r matches ProcessState::Delay(s) && s.resources_received@ == self@.received
                && s.resources_released@ == self@.released && s.pending_outgoing_resources@
                == self@.pending,
    {
        ProcessState::Delay(self.state)
    }

    /// Forgets what the delay has received and released, and its waiting
    /// time.
    pub fn reset(&mut self)
        requires
            old(self).wf(),
        ensures
            final(self).wf(),
            final(self)@ == (DelayModel {
                received: 0,
                released: 0,
                pending: 0,
                next_release_time: 0,
                ..old(self)@
            }),
    {
        self.state = DelayState::default();
        self.next_release_time = Fixed::zero();
    }
}

impl Clone for Delay {
    fn clone(&self) -> (r: Self)
        ensures
            r == *self,
    {
        Delay {
            id: self.id.clone(),
            state: self.state,
            trigger_mode: self.trigger_mode,
            action: self.action,
            release_amount: self.release_amount,
            next_release_time: self.next_release_time,
        }
    }
}

impl Processor for Delay {
    open spec fn model(&self) -> ProcessModel {
        ProcessModel::Delay(self@)
    }

    fn id(&self) -> (r: &str) {
        self.id()
    }

    fn on_event(&mut self, event: &Event, context: &ProcessContext) -> (r: Result<
        Vec<Event>,
        SimulationError,
    >) {
        self.on_event(event, context)
    }

    fn get_state(&self) -> (r: ProcessState) {
        self.get_state()
    }

    fn get_input_ports(&self) -> (r: Vec<String>) {
        one_name("in")
    }

    fn get_output_ports(&self) -> (r: Vec<String>) {
        one_name("out")
    }

    fn reset(&mut self) {
        self.reset()
    }
}

impl SerializableProcess for Delay {
    open spec fn kind_name(&self) -> Seq<char> {
        "Delay"@
    }

    fn get_type(&self) -> (r: &'static str) {
        "Delay"
    }
}

} // verus!
