//! Drains: consumers that take whatever they are offered.

use crate::fixed::Fixed;
use crate::model::nodes::resource::{no_events, push_event, request_from_each, requests};
use crate::model::nodes::{acts_on_step, step_triggers, Action, TriggerMode};
use crate::model::process_context::{ContextView, ProcessContext};
use crate::model::process_state::{DrainState, ProcessState};
use crate::model::process_trait::{
    no_names, one_name, reacted, within_bounds, ProcessModel, Processor, Reaction,
    SerializableProcess,
};
use crate::simulator::event::{
    events_view, plain_event, Event, EventPayload, EventView, PayloadView,
};
use crate::utils::errors::{not_implemented, out_of_bounds, SimulationError};
use vstd::prelude::*;

verus! {

/// A consumer with one input port, `in`, and no output port. It takes every
/// offer in full and counts what it has taken.
#[derive(Debug)]
pub struct Drain {
    id: String,
    state: DrainState,
    trigger_mode: TriggerMode,
    action: Action,
}

/// The mathematical value of a `Drain`.
pub struct DrainModel {
    pub id: Seq<char>,
    pub consumed: int,
    pub trigger_mode: TriggerMode,
    pub action: Action,
}

impl View for Drain {
    type V = DrainModel;

    closed spec fn view(&self) -> DrainModel {
        DrainModel {
            id: self.id@,
            consumed: self.state.resources_consumed@,
            trigger_mode: self.trigger_mode,
            action: self.action,
        }
    }
}

/// The bounds a drain keeps: what it has consumed is not negative and fits
/// the number type.
pub open spec fn drain_valid(m: DrainModel) -> bool {
    0 <= m.consumed <= i64::MAX
}

/// What a drain does when it acts on its own: it asks the source of every
/// input connection for resources. The two pushing actions are not defined
/// for a drain.
pub open spec fn drain_act(m: DrainModel, context: ContextView) -> Reaction<DrainModel> {
    let inputs = context.inputs_for_port(Some("in"@));
    match m.action {
        Action::PullAny => Ok(
            (m, requests(m.id, context.current_time, inputs, PayloadView::PullRequest)),
        ),
        Action::PullAll => Ok(
            (m, requests(m.id, context.current_time, inputs, PayloadView::PullAllRequest)),
        ),
        _ => Err(not_implemented()),
    }
}

/// The drain after an offer of `amount` from `sender`, with its acceptance.
pub open spec fn drain_receive(m: DrainModel, sender: Seq<char>, time: int, amount: int) -> (
    DrainModel,
    Seq<EventView>,
) {
    (
        DrainModel { consumed: m.consumed + amount, ..m },
        seq![plain_event(m.id, sender, time, PayloadView::ResourceAccepted(amount))],
    )
}

/// How a drain reacts to one event. An offer of a negative amount fails.
pub open spec fn drain_react(m: DrainModel, event: EventView, context: ContextView) -> Reaction<
    DrainModel,
> {
    match event.payload {
        PayloadView::Step => if acts_on_step(m.trigger_mode, context.current_step) {
            drain_act(m, context)
        } else {
            Ok((m, Seq::empty()))
        },
        PayloadView::Resource(amount) => {
            let proposal = drain_receive(m, event.source_id, context.current_time, amount);
            within_bounds(proposal, amount >= 0 && drain_valid(proposal.0))
        },
        _ => Ok((m, Seq::empty())),
    }
}

/// A drain as `Drain::new` makes it: automatic, pulling.
pub open spec fn default_drain(id: Seq<char>) -> DrainModel {
    DrainModel { id, consumed: 0, trigger_mode: TriggerMode::Automatic, action: Action::PullAny }
}

/// Collects the settings of a drain before it is made.
#[derive(Debug)]
pub struct DrainBuilder {
    id: String,
    state: DrainState,
    trigger_mode: TriggerMode,
    action: Action,
}

impl View for DrainBuilder {
    type V = DrainModel;

    closed spec fn view(&self) -> DrainModel {
        DrainModel {
            id: self.id@,
            consumed: self.state.resources_consumed@,
            trigger_mode: self.trigger_mode,
            action: self.action,
        }
    }
}

impl Default for DrainBuilder {
    fn default() -> (r: Self)
        ensures
            r@ == default_drain(Seq::empty()),
    {
        DrainBuilder {
            id: String::new(),
            state: DrainState::default(),
            trigger_mode: TriggerMode::Automatic,
            action: Action::PullAny,
        }
    }
}

impl DrainBuilder {
    pub fn id(self, id: &str) -> (r: Self)
        ensures
            r@ == (DrainModel { id: id@, ..self@ }),
    {
        let mut builder = self;
        builder.id = id.to_owned();
        builder
    }

    pub fn state(self, state: DrainState) -> (r: Self)
        ensures
            r@ == (DrainModel { consumed: state.resources_consumed@, ..self@ }),
    {
        let mut builder = self;
        builder.state = state;
        builder
    }

    pub fn trigger_mode(self, trigger_mode: TriggerMode) -> (r: Self)
        ensures
            r@ == (DrainModel { trigger_mode, ..self@ }),
    {
        let mut builder = self;
        builder.trigger_mode = trigger_mode;
        builder
    }

    pub fn action(self, action: Action) -> (r: Self)
        ensures
            r@ == (DrainModel { action, ..self@ }),
    {
        let mut builder = self;
        builder.action = action;
        builder
    }

    /// The drain with the settings collected, or the failure if its state is
    /// outside the bounds of a drain.
    pub fn build(self) -> (r: Result<Drain, SimulationError>)
        ensures
            drain_valid(self@) ==> (r matches Ok(drain) && drain@ == self@ && drain.wf()),
            !drain_valid(self@) ==> (r matches Err(e) && e@ == out_of_bounds()),
    {
        if self.state.resources_consumed.is_negative() {
            Err(SimulationError::out_of_bounds())
        } else {
            Ok(
                Drain {
                    id: self.id,
                    state: self.state,
                    trigger_mode: self.trigger_mode,
                    action: self.action,
                },
            )
        }
    }
}

impl Drain {
    /// Whether the drain is within its bounds.
    pub open spec fn wf(&self) -> bool {
        drain_valid(self@)
    }

    pub fn new(id: &str) -> (r: Drain)
        ensures
            r@ == default_drain(id@),
            r.wf(),
    {
        Drain {
            id: id.to_owned(),
            state: DrainState::default(),
            trigger_mode: TriggerMode::Automatic,
            action: Action::PullAny,
        }
    }

    pub fn builder() -> (r: DrainBuilder)
        ensures
            r@ == default_drain(Seq::empty()),
    {
        DrainBuilder::default()
    }

    pub fn id(&self) -> (r: &str)
        ensures
            r@ == self@.id,
    {
        self.id.as_str()
    }

    /// Whether the process goes by the identifier `id`.
    pub fn has_id(&self, id: &String) -> (r: bool)
        ensures
            r == (self@.id == id@),
    {
        self.id == *id
    }

    pub fn state(&self) -> (r: DrainState)
        ensures
            r.resources_consumed@ == self@.consumed,
    {
        self.state
    }

    pub fn trigger_mode(&self) -> (r: TriggerMode)
        ensures
            r == self@.trigger_mode,
    {
        self.trigger_mode
    }

    pub fn action(&self) -> (r: Action)
        ensures
            r == self@.action,
    {
        self.action
    }

    /// Performs the drain's action.
    pub fn handle_automatic_action(&mut self, context: &ProcessContext) -> (r: Result<
        Vec<Event>,
        SimulationError,
    >)
        requires
            old(self).wf(),
        ensures
            final(self).wf(),
            reacted(old(self)@, drain_act(old(self)@, context@), final(self)@, r),
    {
        match self.action {
            Action::PullAny => self.handle_pull_any(context),
            Action::PullAll => self.handle_pull_all(context),
            Action::PushAny => Err(SimulationError::not_implemented()),
            Action::PushAll => Err(SimulationError::not_implemented()),
        }
    }

    /// Asks the source of every input connection for what it can give.
    pub fn handle_pull_any(&mut self, context: &ProcessContext) -> (r: Result<
        Vec<Event>,
        SimulationError,
    >)
        ensures
            final(self)@ == old(self)@,
            r matches Ok(events) && events_view(events@) == requests(
                old(self)@.id,
                context@.current_time,
                context@.inputs_for_port(Some("in"@)),
                PayloadView::PullRequest,
            ),
    {
        let inputs = context.inputs_for_port(Some("in"));
        Ok(request_from_each(&self.id, context.current_time(), &inputs, &EventPayload::PullRequest))
    }

    /// Asks the source of every input connection for its full flow rate.
    pub fn handle_pull_all(&mut self, context: &ProcessContext) -> (r: Result<
        Vec<Event>,
        SimulationError,
    >)
        ensures
            final(self)@ == old(self)@,
            r matches Ok(events) && events_view(events@) == requests(
                old(self)@.id,
                context@.current_time,
                context@.inputs_for_port(Some("in"@)),
                PayloadView::PullAllRequest,
            ),
    {
        let inputs = context.inputs_for_port(Some("in"));
        Ok(
            request_from_each(
                &self.id,
                context.current_time(),
                &inputs,
                &EventPayload::PullAllRequest,
            ),
        )
    }

    /// Consumes an offer in full and tells its sender so.
    pub fn handle_resource(&mut self, event: &Event, context: &ProcessContext, amount: Fixed) -> (r:
        Result<Vec<Event>, SimulationError>)
        requires
            old(self).wf(),
        ensures
            final(self).wf(),
            ({
                let proposal = drain_receive(
                    old(self)@,
                    event@.source_id,
                    context@.current_time,
                    amount@,
                );
                reacted(
                    old(self)@,
                    within_bounds(proposal, amount@ >= 0 && drain_valid(proposal.0)),
                    final(self)@,
                    r,
                )
            }),
    {
        if amount.is_negative() {
            return Err(SimulationError::out_of_bounds());
        }
        match self.state.resources_consumed.checked_add(amount) {
            Some(consumed) => {
                self.state.resources_consumed = consumed;
                let reply = Event::new(
                    self.id.as_str(),
                    event.source_id.as_str(),
                    context.current_time(),
                    EventPayload::ResourceAccepted(amount),
                );
                let mut events = no_events();
                push_event(&mut events, reply);
                assert(events_view(events@) =~= seq![reply@]);
                Ok(events)
            },
            None => Err(SimulationError::out_of_bounds()),
        }
    }

    /// Handles one event.
    pub fn on_event(&mut self, event: &Event, context: &ProcessContext) -> (r: Result<
        Vec<Event>,
        SimulationError,
    >)
        requires
            old(self).wf(),
        ensures
            final(self).wf(),
            reacted(old(self)@, drain_react(old(self)@, event@, context@), final(self)@, r),
    {
        match &event.payload {
            EventPayload::Step => {
                if step_triggers(self.trigger_mode, context.current_step()) {
                    self.handle_automatic_action(context)
                } else {
                    Ok(no_events())
                }
            },
            EventPayload::Resource(amount) => self.handle_resource(event, context, *amount),
            _ => Ok(no_events()),
        }
    }

    pub fn get_state(&self) -> (r: ProcessState)
        ensures
            r matches ProcessState::Drain(s) && s.resources_consumed@ == self@.consumed,
    {
        ProcessState::Drain(self.state)
    }

    /// Forgets what the drain has consumed.
    pub fn reset(&mut self)
        ensures
            final(self).wf(),
            final(self)@ == (DrainModel { consumed: 0, ..old(self)@ }),
    {
        self.state = DrainState::default();
    }
}

impl Clone for Drain {
    fn clone(&self) -> (r: Self)
        ensures
            r == *self,
    {
        Drain {
            id: self.id.clone(),
            state: self.state,
            trigger_mode: self.trigger_mode,
            action: self.action,
        }
    }
}

impl Processor for Drain {
    open spec fn model(&self) -> ProcessModel {
        ProcessModel::Drain(self@)
    }

    fn id(&self) -> (r: &str) {
        self.id()
    }

    fn on_event(&mut self, event: &Event, context: &ProcessContext) -> (r: Result<
        Vec<Event>,
        SimulationError,
    >) {
        self.on_event(event, context)
    }

    fn get_state(&self) -> (r: ProcessState) {
        self.get_state()
    }

    fn get_input_ports(&self) -> (r: Vec<String>) {
        one_name("in")
    }

    fn get_output_ports(&self) -> (r: Vec<String>) {
        no_names()
    }

    fn reset(&mut self) {
        self.reset()
    }
}

impl SerializableProcess for Drain {
    open spec fn kind_name(&self) -> Seq<char> {
        "Drain"@
    }

    fn get_type(&self) -> (r: &'static str) {
        "Drain"
    }
}

} // verus!
