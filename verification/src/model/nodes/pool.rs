//! Pools: accumulators of resource, bounded or not.

use crate::fixed::{max_int, min_int, Fixed, EPSILON_RAW};
use crate::model::connection::{Connection, ConnectionView};
use crate::fixed::SCALE;
use crate::model::nodes::resource::{
    default_rate, no_events, offer, offer_along, offer_each_rate, offers_at_rate, push_event,
    replies, reply_to, request_from_each, requests, sum_rates, total_rate,
};
use crate::model::nodes::{acts_on_step, step_triggers, Action, Overflow, TriggerMode};
use crate::model::process_context::{
    connections_view, find_connection_to, first_to, ContextView, ProcessContext,
};
use crate::model::process_state::{available, available_between, PoolState, ProcessState};
use crate::model::process_trait::{
    no_names, one_name, reacted, within_bounds, ProcessModel, Processor, Reaction,
    SerializableProcess,
};
use crate::simulator::event::{
    events_view, event_with_ports, Event, EventPayload, EventView, PayloadView,
};
use crate::utils::errors::{out_of_bounds, SimulationError};
use vstd::prelude::*;

verus! {

/// An accumulator of resource with one input port, `in`, and one output
/// port, `out`. A negative capacity means that the pool is unbounded.
#[derive(Debug)]
pub struct Pool {
    id: String,
    state: PoolState,
    trigger_mode: TriggerMode,
    action: Action,
    overflow: Overflow,
    capacity: Fixed,
}

/// The mathematical value of a `Pool`.
pub struct PoolModel {
    pub id: Seq<char>,
    pub resources: int,
    pub pending: int,
    pub trigger_mode: TriggerMode,
    pub action: Action,
    pub overflow: Overflow,
    pub capacity: int,
}

impl View for Pool {
    type V = PoolModel;

    closed spec fn view(&self) -> PoolModel {
        PoolModel {
            id: self.id@,
            resources: self.state.resources@,
            pending: self.state.pending_outgoing_resources@,
            trigger_mode: self.trigger_mode,
            action: self.action,
            overflow: self.overflow,
            capacity: self.capacity@,
        }
    }
}

/// The bounds a pool keeps between events: nothing negative, nothing beyond
/// the number type, and no more resources than the capacity allows, within
/// the tolerance.
pub open spec fn pool_valid(m: PoolModel) -> bool {
    &&& 0 <= m.resources <= i64::MAX
    &&& 0 <= m.pending <= i64::MAX
    &&& i64::MIN <= m.capacity <= i64::MAX
    &&& (m.capacity >= 0 ==> m.resources <= m.capacity + EPSILON_RAW)
}

/// Pushing along each of `connections` in turn: each is offered what is
/// still available, up to its flow rate, and an offer is sent only where
/// that is positive. Gives the promised amount afterwards and the offers.
pub open spec fn push_any(
    id: Seq<char>,
    time: int,
    resources: int,
    pending: int,
    connections: Seq<ConnectionView>,
) -> (int, Seq<EventView>)
    decreases connections.len(),
{
    if connections.len() == 0 {
        (pending, Seq::empty())
    } else {
        let (promised, events) = push_any(id, time, resources, pending, connections.drop_last());
        let c = connections.last();
        let amount = min_int(available(resources, promised), c.rate_or(default_rate()));
        if amount > 0 {
            (promised + amount, events.push(offer(id, c, time, amount)))
        } else {
            (promised, events)
        }
    }
}

/// What a pool does when it acts on its own: on a `Trigger`, or on a `Step`
/// that its trigger mode answers.
pub open spec fn pool_act(m: PoolModel, context: ContextView) -> (PoolModel, Seq<EventView>) {
    let outputs = context.outputs_for_port(Some("out"@));
    let inputs = context.inputs_for_port(Some("in"@));
    match m.action {
        Action::PushAny => {
            let (promised, events) = push_any(
                m.id,
                context.current_time,
                m.resources,
                m.pending,
                outputs,
            );
            (PoolModel { pending: promised, ..m }, events)
        },
        Action::PushAll => {
            if available(m.resources, m.pending) >= total_rate(outputs) {
                (
                    PoolModel { pending: m.pending + total_rate(outputs), ..m },
                    offers_at_rate(m.id, context.current_time, outputs),
                )
            } else {
                (m, Seq::empty())
            }
        },
        Action::PullAny => (
            m,
            requests(m.id, context.current_time, inputs, PayloadView::PullRequest),
        ),
        Action::PullAll => (
            m,
            requests(m.id, context.current_time, inputs, PayloadView::PullAllRequest),
        ),
    }
}

/// The flow rate at which `requester` may pull: that of the first output
/// connection leading to it, one whole unit if that names none, and zero if
/// there is no such connection.
pub open spec fn pull_rate(outputs: Seq<ConnectionView>, requester: Seq<char>) -> int {
    match first_to(outputs, requester) {
        Some(c) => c.rate_or(default_rate()),
        None => 0,
    }
}

/// A pool that promises `amount` to `requester` and offers it, if `amount`
/// is positive; the pool unchanged and silent otherwise.
pub open spec fn pool_grant(m: PoolModel, requester: Seq<char>, time: int, amount: int) -> (
    PoolModel,
    Seq<EventView>,
) {
    if amount > 0 {
        (
            PoolModel { pending: m.pending + amount, ..m },
            seq![
                event_with_ports(m.id, "out"@, requester, "in"@, time, PayloadView::Resource(amount)),
            ],
        )
    } else {
        (m, Seq::empty())
    }
}

/// The answer to a `PullRequest`: what is available, up to the flow rate.
pub open spec fn pool_answer_pull(m: PoolModel, requester: Seq<char>, context: ContextView) -> (
    PoolModel,
    Seq<EventView>,
) {
    let rate = pull_rate(context.outputs_for_port(Some("out"@)), requester);
    pool_grant(
        m,
        requester,
        context.current_time,
        min_int(available(m.resources, m.pending), rate),
    )
}

/// The answer to a `PullAllRequest`: the whole flow rate if the pool holds
/// that much, and nothing otherwise.
pub open spec fn pool_answer_pull_all(m: PoolModel, requester: Seq<char>, context: ContextView) -> (
    PoolModel,
    Seq<EventView>,
) {
    let rate = pull_rate(context.outputs_for_port(Some("out"@)), requester);
    pool_grant(
        m,
        requester,
        context.current_time,
        if m.resources >= rate {
            rate
        } else {
            0
        },
    )
}

/// How much of an offer of `amount` the pool takes.
pub open spec fn accepted_amount(m: PoolModel, amount: int) -> int {
    if m.capacity < 0 || m.resources + amount <= m.capacity {
        amount
    } else {
        match m.overflow {
            Overflow::Block => 0,
            Overflow::Drain => max_int(0, m.capacity - m.resources),
        }
    }
}

/// The pool after an offer of `amount` from `sender`, and its replies.
pub open spec fn pool_receive(m: PoolModel, sender: Seq<char>, time: int, amount: int) -> (
    PoolModel,
    Seq<EventView>,
) {
    let accepted = accepted_amount(m, amount);
    (
        PoolModel { resources: m.resources + accepted, ..m },
        replies(m.id, sender, time, accepted, amount - accepted),
    )
}

/// The pool after a receiver took `amount` of an offer: the amount leaves
/// both the holdings and the promises.
pub open spec fn pool_settle(m: PoolModel, amount: int) -> PoolModel {
    PoolModel { resources: m.resources - amount, pending: m.pending - amount, ..m }
}

/// The pool after a receiver turned `amount` of an offer down: the promise
/// lapses and the holdings stay.
pub open spec fn pool_release(m: PoolModel, amount: int) -> PoolModel {
    PoolModel { pending: m.pending - amount, ..m }
}

/// The next state and the events that one event calls for, before the
/// bounds are checked.
pub open spec fn pool_apply(m: PoolModel, event: EventView, context: ContextView) -> (
    PoolModel,
    Seq<EventView>,
) {
    match event.payload {
        PayloadView::Step => if acts_on_step(m.trigger_mode, context.current_step) {
            pool_act(m, context)
        } else {
            (m, Seq::empty())
        },
        PayloadView::Trigger => pool_act(m, context),
        PayloadView::PullRequest => pool_answer_pull(m, event.source_id, context),
        PayloadView::PullAllRequest => pool_answer_pull_all(m, event.source_id, context),
        PayloadView::Resource(amount) => pool_receive(
            m,
            event.source_id,
            context.current_time,
            amount,
        ),
        PayloadView::ResourceAccepted(amount) => (pool_settle(m, amount), Seq::empty()),
        PayloadView::ResourceRejected(amount) => (pool_release(m, amount), Seq::empty()),
        _ => (m, Seq::empty()),
    }
}

/// How a pool reacts to an offer of `amount` from `sender`: a negative
/// amount fails.
pub open spec fn pool_take(m: PoolModel, sender: Seq<char>, time: int, amount: int) -> Reaction<
    PoolModel,
> {
    let proposal = pool_receive(m, sender, time, amount);
    within_bounds(proposal, amount >= 0 && pool_valid(proposal.0))
}

/// How a pool reacts to one event. An offer of a negative amount fails, and
/// so does any event that would take the pool out of its bounds.
pub open spec fn pool_react(m: PoolModel, event: EventView, context: ContextView) -> Reaction<
    PoolModel,
> {
    match event.payload {
        PayloadView::Resource(amount) => pool_take(
            m,
            event.source_id,
            context.current_time,
            amount,
        ),
        _ => {
            let proposal = pool_apply(m, event, context);
            within_bounds(proposal, pool_valid(proposal.0))
        },
    }
}

/// A proposal, if the pool it leads to is within its bounds.
pub open spec fn pool_checked(proposal: (PoolModel, Seq<EventView>)) -> Reaction<PoolModel> {
    within_bounds(proposal, pool_valid(proposal.0))
}

/// A pool as `Pool::new` makes it: empty, unbounded, passive.
pub open spec fn default_pool(id: Seq<char>) -> PoolModel {
    PoolModel {
        id,
        resources: 0,
        pending: 0,
        trigger_mode: TriggerMode::Passive,
        action: Action::PullAny,
        overflow: Overflow::Block,
        capacity: -SCALE,
    }
}

/// Decides whether a state is within the bounds of a pool of `capacity`.
pub fn state_within_bounds(state: &PoolState, capacity: Fixed) -> (r: bool)
    ensures
        r == (0 <= state.resources@ && 0 <= state.pending_outgoing_resources@ && (capacity@ >= 0
            ==> state.resources@ <= capacity@ + EPSILON_RAW)),
{
    let resources = state.resources.raw();
    let pending = state.pending_outgoing_resources.raw();
    resources >= 0 && pending >= 0 && (capacity.raw() < 0 || resources - EPSILON_RAW
        <= capacity.raw())
}

/// Collects the settings of a pool before it is made.
#[derive(Debug)]
pub struct PoolBuilder {
    id: String,
    state: PoolState,
    trigger_mode: TriggerMode,
    action: Action,
    overflow: Overflow,
    capacity: Fixed,
}

impl View for PoolBuilder {
    type V = PoolModel;

    closed spec fn view(&self) -> PoolModel {
        PoolModel {
            id: self.id@,
            resources: self.state.resources@,
            pending: self.state.pending_outgoing_resources@,
            trigger_mode: self.trigger_mode,
            action: self.action,
            overflow: self.overflow,
            capacity: self.capacity@,
        }
    }
}

impl Default for PoolBuilder {
    fn default() -> (r: Self)
        ensures
            r@ == default_pool(Seq::empty()),
    {
        PoolBuilder {
            id: String::new(),
            state: PoolState::default(),
            trigger_mode: TriggerMode::Passive,
            action: Action::PullAny,
            overflow: Overflow::Block,
            capacity: Fixed::from_raw(-SCALE),
        }
    }
}

impl PoolBuilder {
    pub fn id(self, id: &str) -> (r: Self)
        ensures
            r@ == (PoolModel { id: id@, ..self@ }),
    {
        let mut builder = self;
        builder.id = id.to_owned();
        builder
    }

    pub fn state(self, state: PoolState) -> (r: Self)
        ensures
            r@ == (PoolModel {
                resources: state.resources@,
                pending: state.pending_outgoing_resources@,
                ..self@
            }),
    {
        let mut builder = self;
        builder.state = state;
        builder
    }

    pub fn trigger_mode(self, trigger_mode: TriggerMode) -> (r: Self)
        ensures
            r@ == (PoolModel { trigger_mode, ..self@ }),
    {
        let mut builder = self;
        builder.trigger_mode = trigger_mode;
        builder
    }

    pub fn action(self, action: Action) -> (r: Self)
        ensures
            r@ == (PoolModel { action, ..self@ }),
    {
        let mut builder = self;
        builder.action = action;
        builder
    }

    pub fn overflow(self, overflow: Overflow) -> (r: Self)
        ensures
            r@ == (PoolModel { overflow, ..self@ }),
    {
        let mut builder = self;
        builder.overflow = overflow;
        builder
    }

    pub fn capacity(self, capacity: Fixed) -> (r: Self)
        ensures
            r@ == (PoolModel { capacity: capacity@, ..self@ }),
    {
        let mut builder = self;
        builder.capacity = capacity;
        builder
    }

    /// The pool with the settings collected, or the failure if its state is
    /// outside the bounds of a pool.
    pub fn build(self) -> (r: Result<Pool, SimulationError>)
        ensures
            pool_valid(self@) ==> (r matches Ok(pool) && pool@ == self@ && pool.wf()),
            !pool_valid(self@) ==> (r matches Err(e) && e@ == out_of_bounds()),
    {
        if state_within_bounds(&self.state, self.capacity) {
            Ok(
                Pool {
                    id: self.id,
                    state: self.state,
                    trigger_mode: self.trigger_mode,
                    action: self.action,
                    overflow: self.overflow,
                    capacity: self.capacity,
                },
            )
        } else {
            Err(SimulationError::out_of_bounds())
        }
    }
}

impl Pool {
    /// Whether the pool is within its bounds. Every pool that the library
    /// hands out is, and every operation keeps it so.
    pub open spec fn wf(&self) -> bool {
        pool_valid(self@)
    }

    pub fn new(id: &str) -> (r: Pool)
        ensures
            r@ == default_pool(id@),
            r.wf(),
    {
        Pool {
            id: id.to_owned(),
            state: PoolState::default(),
            trigger_mode: TriggerMode::Passive,
            action: Action::PullAny,
            overflow: Overflow::Block,
            capacity: Fixed::from_raw(-SCALE),
        }
    }

    pub fn builder() -> (r: PoolBuilder)
        ensures
            r@ == default_pool(Seq::empty()),
    {
        PoolBuilder::default()
    }

    pub fn id(&self) -> (r: &str)
        ensures
            r@ == self@.id,
    {
        self.id.as_str()
    }

    /// Whether the process goes by the identifier `id`.
    pub fn has_id(&self, id: &String) -> (r: bool)
        ensures
            r == (self@.id == id@),
    {
        self.id == *id
    }

    pub fn state(&self) -> (r: PoolState)
        ensures
            r.resources@ == self@.resources,
            r.pending_outgoing_resources@ == self@.pending,
    {
        self.state
    }

    pub fn trigger_mode(&self) -> (r: TriggerMode)
        ensures
            r == self@.trigger_mode,
    {
        self.trigger_mode
    }

    pub fn action(&self) -> (r: Action)
        ensures
            r == self@.action,
    {
        self.action
    }

    pub fn overflow(&self) -> (r: Overflow)
        ensures
            r == self@.overflow,
    {
        self.overflow
    }

    pub fn capacity(&self) -> (r: Fixed)
        ensures
            r@ == self@.capacity,
    {
        self.capacity
    }

    /// Replaces the state, unless the new one is outside the bounds of this
    /// pool.
    pub fn set_state(&mut self, state: PoolState) -> (r: Result<(), SimulationError>)
        requires
            old(self).wf(),
        ensures
            final(self).wf(),
            ({
                let wanted = PoolModel {
                    resources: state.resources@,
                    pending: state.pending_outgoing_resources@,
                    ..old(self)@
                };
                if pool_valid(wanted) {
                    r is Ok && final(self)@ == wanted
                } else {
                    r matches Err(e) && e@ == out_of_bounds() && final(self)@ == old(self)@
                }
            }),
    {
        if state_within_bounds(&state, self.capacity) {
            self.state = state;
            Ok(())
        } else {
            Err(SimulationError::out_of_bounds())
        }
    }

    /// What the pool can still commit to new offers.
    pub fn available_resources(&self) -> (r: Fixed)
        requires
            self.wf(),
        ensures
            r@ == available(self@.resources, self@.pending),
    {
        available_between(self.state.resources, self.state.pending_outgoing_resources)
    }

    /// Performs the pool's action.
    pub fn handle_automatic_action(&mut self, context: &ProcessContext) -> (r: Result<
        Vec<Event>,
        SimulationError,
    >)
        requires
            old(self).wf(),
        ensures
            final(self).wf(),
            reacted(old(self)@, pool_checked(pool_act(old(self)@, context@)), final(self)@, r),
    {
        let time = context.current_time();
        match self.action {
            Action::PushAny => {
                let outputs = context.outputs_for_port(Some("out"));
                let resources = self.state.resources;
                let mut promised = self.state.pending_outgoing_resources;
                let mut events = no_events();
                let mut i: usize = 0;
                while i < outputs.len()
                    invariant
                        i <= outputs.len(),
                        self.wf(),
                        resources@ == self@.resources,
                        self@.pending <= promised@ <= max_int(self@.pending, resources@),
                        (promised@, events_view(events@)) == push_any(
                            self@.id,
                            time@,
                            resources@,
                            self@.pending,
                            connections_view(outputs@).take(i as int),
                        ),
                    decreases outputs.len() - i,
                {
                    let ghost all = connections_view(outputs@);
                    assert(all.take(i + 1).drop_last() =~= all.take(i as int));
                    assert(all.take(i + 1).last() == outputs@[i as int]@);
                    let amount = available_between(resources, promised).min(
                        outputs[i].rate_or(Fixed::one()),
                    );
                    if amount.is_positive() {
                        promised = Fixed::from_raw(promised.raw() + amount.raw());
                        let event = offer_along(&self.id, outputs[i], time, amount);
                        push_event(&mut events, event);
                    }
                    i += 1;
                }
                assert(connections_view(outputs@).take(i as int) =~= connections_view(outputs@));
                self.state.pending_outgoing_resources = promised;
                Ok(events)
            },
            Action::PushAll => {
                let outputs = context.outputs_for_port(Some("out"));
                let total = sum_rates(&outputs);
                let free = self.available_resources();
                if (free.raw() as i128) >= total {
                    let promised: i128 = (self.state.pending_outgoing_resources.raw() as i128)
                        + total;
                    if promised < 0 || promised > (i64::MAX as i128) {
                        Err(SimulationError::out_of_bounds())
                    } else {
                        let events = offer_each_rate(&self.id, time, &outputs);
                        self.state.pending_outgoing_resources = Fixed::from_raw(promised as i64);
                        Ok(events)
                    }
                } else {
                    Ok(no_events())
                }
            },
            Action::PullAny => {
                let inputs = context.inputs_for_port(Some("in"));
                Ok(request_from_each(&self.id, time, &inputs, &EventPayload::PullRequest))
            },
            Action::PullAll => {
                let inputs = context.inputs_for_port(Some("in"));
                Ok(request_from_each(&self.id, time, &inputs, &EventPayload::PullAllRequest))
            },
        }
    }

    /// Promises `amount` to `requester` and offers it, if it is positive.
    fn grant(&mut self, requester: &String, time: Fixed, amount: Fixed) -> (r: Result<
        Vec<Event>,
        SimulationError,
    >)
        requires
            old(self).wf(),
        ensures
            final(self).wf(),
            reacted(
                old(self)@,
                pool_checked(pool_grant(old(self)@, requester@, time@, amount@)),
                final(self)@,
                r,
            ),
    {
        if amount.is_positive() {
            match self.state.pending_outgoing_resources.checked_add(amount) {
                Some(promised) => {
                    self.state.pending_outgoing_resources = promised;
                    let event = Event::new(
                        self.id.as_str(),
                        requester.as_str(),
                        time,
                        EventPayload::Resource(amount),
                    ).with_ports("out", "in");
                    let mut events = no_events();
                    push_event(&mut events, event);
                    assert(events_view(events@) =~= seq![event@]);
                    Ok(events)
                },
                None => Err(SimulationError::out_of_bounds()),
            }
        } else {
            Ok(no_events())
        }
    }

    /// The flow rate at which the sender of `event` may pull.
    fn rate_for(&self, event: &Event, context: &ProcessContext) -> (r: Fixed)
        ensures
            r@ == pull_rate(context@.outputs_for_port(Some("out"@)), event@.source_id),
    {
        let outputs = context.outputs_for_port(Some("out"));
        match find_connection_to(&outputs, &event.source_id) {
            Some(connection) => connection.rate_or(Fixed::one()),
            None => Fixed::zero(),
        }
    }

    /// Answers a request for whatever is available.
    pub fn handle_pull_request(&mut self, event: &Event, context: &ProcessContext) -> (r: Result<
        Vec<Event>,
        SimulationError,
    >)
        requires
            old(self).wf(),
        ensures
            final(self).wf(),
            reacted(
                old(self)@,
                pool_checked(pool_answer_pull(old(self)@, event@.source_id, context@)),
                final(self)@,
                r,
            ),
    {
        let rate = self.rate_for(event, context);
        let amount = self.available_resources().min(rate);
        self.grant(&event.source_id, context.current_time(), amount)
    }

    /// Answers a request for the full flow rate or nothing.
    pub fn handle_pull_all_request(&mut self, event: &Event, context: &ProcessContext) -> (r:
        Result<Vec<Event>, SimulationError>)
        requires
            old(self).wf(),
        ensures
            final(self).wf(),
            reacted(
                old(self)@,
                pool_checked(pool_answer_pull_all(old(self)@, event@.source_id, context@)),
                final(self)@,
                r,
            ),
    {
        let rate = self.rate_for(event, context);
        let amount = if self.state.resources.raw() >= rate.raw() {
            rate
        } else {
            Fixed::zero()
        };
        self.grant(&event.source_id, context.current_time(), amount)
    }

    /// Takes what it can of an offer and replies to its sender.
    pub fn handle_resource(&mut self, event: &Event, context: &ProcessContext, amount: Fixed) -> (r:
        Result<Vec<Event>, SimulationError>)
        requires
            old(self).wf(),
        ensures
            final(self).wf(),
            reacted(
                old(self)@,
                pool_take(old(self)@, event@.source_id, context@.current_time, amount@),
                final(self)@,
                r,
            ),
    {
        if amount.is_negative() {
            return Err(SimulationError::out_of_bounds());
        }
        let resources = self.state.resources;
        let fits = match resources.checked_add(amount) {
            Some(sum) => sum.raw() <= self.capacity.raw(),
            None => false,
        };
        let accepted = if self.capacity.is_negative() || fits {
            amount
        } else {
            match self.overflow {
                Overflow::Block => Fixed::zero(),
                Overflow::Drain => {
                    Fixed::from_raw(self.capacity.raw() - resources.raw()).max(Fixed::zero())
                },
            }
        };
        match resources.checked_add(accepted) {
            Some(held) => {
                let rejected = Fixed::from_raw(amount.raw() - accepted.raw());
                self.state.resources = held;
                Ok(reply_to(&self.id, &event.source_id, context.current_time(), accepted, rejected))
            },
            None => Err(SimulationError::out_of_bounds()),
        }
    }

    /// Moves to `state` if it is within the pool's bounds.
    fn settle(&mut self, state: Option<PoolState>) -> (r: Result<Vec<Event>, SimulationError>)
        requires
            old(self).wf(),
        ensures
            final(self).wf(),
            match state {
                Some(s) => reacted(
                    old(self)@,
                    pool_checked(
                        (
                            PoolModel {
                                resources: s.resources@,
                                pending: s.pending_outgoing_resources@,
                                ..old(self)@
                            },
                            Seq::empty(),
                        ),
                    ),
                    final(self)@,
                    r,
                ),
                None => r matches Err(e) && e@ == out_of_bounds() && final(self)@ == old(
                    self,
                )@,
            },
    {
        match state {
            Some(s) => {
                if state_within_bounds(&s, self.capacity) {
                    self.state = s;
                    Ok(no_events())
                } else {
                    Err(SimulationError::out_of_bounds())
                }
            },
            None => Err(SimulationError::out_of_bounds()),
        }
    }

    /// Handles one event.
    pub fn on_event(&mut self, event: &Event, context: &ProcessContext) -> (r: Result<
        Vec<Event>,
        SimulationError,
    >)
        requires
            old(self).wf(),
        ensures
            final(self).wf(),
            reacted(old(self)@, pool_react(old(self)@, event@, context@), final(self)@, r),
    {
        match &event.payload {
            EventPayload::Step => {
                if step_triggers(self.trigger_mode, context.current_step()) {
                    self.handle_automatic_action(context)
                } else {
                    Ok(no_events())
                }
            },
            EventPayload::Trigger => self.handle_automatic_action(context),
            EventPayload::PullRequest => self.handle_pull_request(event, context),
            EventPayload::PullAllRequest => self.handle_pull_all_request(event, context),
            EventPayload::Resource(amount) => self.handle_resource(event, context, *amount),
            EventPayload::ResourceAccepted(amount) => {
                let state = match (
                    self.state.resources.checked_sub(*amount),
                    self.state.pending_outgoing_resources.checked_sub(*amount),
                ) {
                    (Some(resources), Some(pending)) => Some(
                        PoolState { resources, pending_outgoing_resources: pending },
                    ),
                    _ => None,
                };
                self.settle(state)
            },
            EventPayload::ResourceRejected(amount) => {
                let state = match self.state.pending_outgoing_resources.checked_sub(*amount) {
                    Some(pending) => Some(
                        PoolState {
                            resources: self.state.resources,
                            pending_outgoing_resources: pending,
                        },
                    ),
                    None => None,
                };
                self.settle(state)
            },
            _ => Ok(no_events()),
        }
    }

    pub fn get_state(&self) -> (r: ProcessState)
        ensures
            r matches ProcessState::Pool(s) && s.resources@ == self@.resources
                && s.pending_outgoing_resources@ == self@.pending,
    {
        ProcessState::Pool(self.state)
    }

    /// Forgets what the pool holds and what it has promised.
    pub fn reset(&mut self)
        requires
            old(self).wf(),
        ensures
            final(self).wf(),
            final(self)@ == (PoolModel { resources: 0, pending: 0, ..old(self)@ }),
    {
        self.state = PoolState::default();
    }
}

impl Clone for Pool {
    fn clone(&self) -> (r: Self)
        ensures
            r == *self,
    {
        Pool {
            id: self.id.clone(),
            state: self.state,
            trigger_mode: self.trigger_mode,
            action: self.action,
            overflow: self.overflow,
            capacity: self.capacity,
        }
    }
}

impl Processor for Pool {
    open spec fn model(&self) -> ProcessModel {
        ProcessModel::Pool(self@)
    }

    fn id(&self) -> (r: &str) {
        self.id()
    }

    fn on_event(&mut self, event: &Event, context: &ProcessContext) -> (r: Result<
        Vec<Event>,
        SimulationError,
    >) {
        self.on_event(event, context)
    }

    fn get_state(&self) -> (r: ProcessState) {
        self.get_state()
    }

    fn get_input_ports(&self) -> (r: Vec<String>) {
        one_name("in")
    }

    fn get_output_ports(&self) -> (r: Vec<String>) {
        one_name("out")
    }

    fn reset(&mut self) {
        self.reset()
    }
}

impl SerializableProcess for Pool {
    open spec fn kind_name(&self) -> Seq<char> {
        "Pool"@
    }

    fn get_type(&self) -> (r: &'static str) {
        "Pool"
    }
}

} // verus!
