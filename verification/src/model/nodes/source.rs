//! Sources: producers with an endless supply.

use crate::fixed::Fixed;
use crate::model::connection::ConnectionView;
use crate::model::nodes::resource::{
    default_rate, no_events, offer_each_rate, offers_at_rate, push_event,
};
use crate::model::nodes::{acts_on_step, step_triggers, Action, TriggerMode};
use crate::model::process_context::{find_connection_to, first_to, ContextView, ProcessContext};
use crate::model::process_state::{ProcessState, SourceState};
use crate::model::process_trait::{
    no_names, one_name, reacted, within_bounds, ProcessModel, Processor, Reaction,
    SerializableProcess,
};
use crate::simulator::event::{
    events_view, event_with_ports, Event, EventPayload, EventView, PayloadView,
};
use crate::utils::errors::{not_implemented, out_of_bounds, SimulationError};
use vstd::prelude::*;

verus! {

/// A producer with no input port and one output port, `out`. It never runs
/// dry and counts what its receivers have taken.
#[derive(Debug)]
pub struct Source {
    id: String,
    state: SourceState,
    trigger_mode: TriggerMode,
    action: Action,
}

/// The mathematical value of a `Source`.
pub struct SourceModel {
    pub id: Seq<char>,
    pub produced: int,
    pub trigger_mode: TriggerMode,
    pub action: Action,
}

impl View for Source {
    type V = SourceModel;

    closed spec fn view(&self) -> SourceModel {
        SourceModel {
            id: self.id@,
            produced: self.state.resources_produced@,
            trigger_mode: self.trigger_mode,
            action: self.action,
        }
    }
}

/// The bounds a source keeps: what it has produced is not negative and fits
/// the number type.
pub open spec fn source_valid(m: SourceModel) -> bool {
    0 <= m.produced <= i64::MAX
}

/// What a source does when it acts on its own. Only `PushAny` is defined for
/// a source: one offer of the flow rate along each output connection.
pub open spec fn source_act(m: SourceModel, context: ContextView) -> Reaction<SourceModel> {
    match m.action {
        Action::PushAny => Ok(
            (m, offers_at_rate(m.id, context.current_time, context.outputs_for_port(Some("out"@)))),
        ),
        _ => Err(not_implemented()),
    }
}

/// The amount a source hands to `requester`: the flow rate of the first
/// output connection leading to it, and one whole unit where there is no
/// such connection or it names no rate.
pub open spec fn source_rate(outputs: Seq<ConnectionView>, requester: Seq<char>) -> int {
    match first_to(outputs, requester) {
        Some(c) => c.rate_or(default_rate()),
        None => default_rate(),
    }
}

/// The offer with which a source answers a pull request: addressed to the
/// port the request came from, `in` if it named none.
pub open spec fn source_answer(m: SourceModel, request: EventView, context: ContextView) -> EventView {
    event_with_ports(
        m.id,
        "out"@,
        request.source_id,
        match request.source_port {
            Some(p) => p,
            None => "in"@,
        },
        context.current_time,
        PayloadView::Resource(
            source_rate(context.outputs_for_port(Some("out"@)), request.source_id),
        ),
    )
}

/// How a source reacts to one event.
pub open spec fn source_react(m: SourceModel, event: EventView, context: ContextView) -> Reaction<
    SourceModel,
> {
    match event.payload {
        PayloadView::Step => if acts_on_step(m.trigger_mode, context.current_step) {
            source_act(m, context)
        } else {
            Ok((m, Seq::empty()))
        },
        PayloadView::Trigger => source_act(m, context),
        PayloadView::PullRequest | PayloadView::PullAllRequest => Ok(
            (m, seq![source_answer(m, event, context)]),
        ),
        PayloadView::ResourceAccepted(amount) => {
            let next = SourceModel { produced: m.produced + amount, ..m };
            within_bounds((next, Seq::empty()), source_valid(next))
        },
        _ => Ok((m, Seq::empty())),
    }
}

/// A source as `Source::new` makes it: automatic, pushing.
pub open spec fn default_source(id: Seq<char>) -> SourceModel {
    SourceModel { id, produced: 0, trigger_mode: TriggerMode::Automatic, action: Action::PushAny }
}

/// Collects the settings of a source before it is made.
#[derive(Debug)]
pub struct SourceBuilder {
    id: String,
    state: SourceState,
    trigger_mode: TriggerMode,
    action: Action,
}

impl View for SourceBuilder {
    type V = SourceModel;

    closed spec fn view(&self) -> SourceModel {
        SourceModel {
            id: self.id@,
            produced: self.state.resources_produced@,
            trigger_mode: self.trigger_mode,
            action: self.action,
        }
    }
}

impl Default for SourceBuilder {
    fn default() -> (r: Self)
        ensures
            r@ == default_source(Seq::empty()),
    {
        SourceBuilder {
            id: String::new(),
            state: SourceState::default(),
            trigger_mode: TriggerMode::Automatic,
            action: Action::PushAny,
        }
    }
}

impl SourceBuilder {
    pub fn id(self, id: &str) -> (r: Self)
        ensures
            r@ == (SourceModel { id: id@, ..self@ }),
    {
        let mut builder = self;
        builder.id = id.to_owned();
        builder
    }

    pub fn state(self, state: SourceState) -> (r: Self)
        ensures
            r@ == (SourceModel { produced: state.resources_produced@, ..self@ }),
    {
        let mut builder = self;
        builder.state = state;
        builder
    }

    pub fn trigger_mode(self, trigger_mode: TriggerMode) -> (r: Self)
        ensures
            r@ == (SourceModel { trigger_mode, ..self@ }),
    {
        let mut builder = self;
        builder.trigger_mode = trigger_mode;
        builder
    }

    pub fn action(self, action: Action) -> (r: Self)
        ensures
            r@ == (SourceModel { action, ..self@ }),
    {
        let mut builder = self;
        builder.action = action;
        builder
    }

    /// The source with the settings collected, or the failure if its state
    /// is outside the bounds of a source.
    pub fn build(self) -> (r: Result<Source, SimulationError>)
        ensures
            source_valid(self@) ==> (r matches Ok(source) && source@ == self@ && source.wf()),
            !source_valid(self@) ==> (r matches Err(e) && e@ == out_of_bounds()),
    {
        if self.state.resources_produced.is_negative() {
            Err(SimulationError::out_of_bounds())
        } else {
            Ok(
                Source {
                    id: self.id,
                    state: self.state,
                    trigger_mode: self.trigger_mode,
                    action: self.action,
                },
            )
        }
    }
}

impl Source {
    /// Whether the source is within its bounds.
    pub open spec fn wf(&self) -> bool {
        source_valid(self@)
    }

    pub fn new(id: &str) -> (r: Source)
        ensures
            r@ == default_source(id@),
            r.wf(),
    {
        Source {
            id: id.to_owned(),
            state: SourceState::default(),
            trigger_mode: TriggerMode::Automatic,
            action: Action::PushAny,
        }
    }

    pub fn builder() -> (r: SourceBuilder)
        ensures
            r@ == default_source(Seq::empty()),
    {
        SourceBuilder::default()
    }

    pub fn id(&self) -> (r: &str)
        ensures
            r@ == self@.id,
    {
        self.id.as_str()
    }

    /// Whether the process goes by the identifier `id`.
    pub fn has_id(&self, id: &String) -> (r: bool)
        ensures
            r == (self@.id == id@),
    {
        self.id == *id
    }

    pub fn state(&self) -> (r: SourceState)
        ensures
            r.resources_produced@ == self@.produced,
    {
        self.state
    }

    pub fn trigger_mode(&self) -> (r: TriggerMode)
        ensures
            r == self@.trigger_mode,
    {
        self.trigger_mode
    }

    pub fn action(&self) -> (r: Action)
        ensures
            r == self@.action,
    {
        self.action
    }

    /// Performs the source's action.
    pub fn handle_automatic_action(&mut self, context: &ProcessContext) -> (r: Result<
        Vec<Event>,
        SimulationError,
    >)
        requires
            old(self).wf(),
        ensures
            final(self).wf(),
            reacted(old(self)@, source_act(old(self)@, context@), final(self)@, r),
    {
        match self.action {
            Action::PushAny => self.handle_push_any(context),
            Action::PushAll => self.handle_push_all(context),
            Action::PullAny => Err(SimulationError::not_implemented()),
            Action::PullAll => Err(SimulationError::not_implemented()),
        }
    }

    /// Offers the flow rate along every output connection.
    pub fn handle_push_any(&mut self, context: &ProcessContext) -> (r: Result<
        Vec<Event>,
        SimulationError,
    >)
        ensures
            final(self)@ == old(self)@,
            r matches Ok(events) && events_view(events@) == offers_at_rate(
                old(self)@.id,
                context@.current_time,
                context@.outputs_for_port(Some("out"@)),
            ),
    {
        let outputs = context.outputs_for_port(Some("out"));
        Ok(offer_each_rate(&self.id, context.current_time(), &outputs))
    }

    /// Reserved: pushing all-or-nothing needs a finite stock, which a source
    /// does not have. Always fails.
    pub fn handle_push_all(&mut self, context: &ProcessContext) -> (r: Result<
        Vec<Event>,
        SimulationError,
    >)
        ensures
            final(self)@ == old(self)@,
            r matches Err(e) && e@ == not_implemented(),
    {
        Err(SimulationError::not_implemented())
    }

    /// Answers a pull request with one offer of the flow rate.
    pub fn handle_pull_request(&mut self, event: &Event, context: &ProcessContext) -> (r: Result<
        Vec<Event>,
        SimulationError,
    >)
        ensures
            final(self)@ == old(self)@,
            r matches Ok(events) && events_view(events@) == seq![
                source_answer(old(self)@, event@, context@),
            ],
    {
        let outputs = context.outputs_for_port(Some("out"));
        let amount = match find_connection_to(&outputs, &event.source_id) {
            Some(connection) => connection.rate_or(Fixed::one()),
            None => Fixed::one(),
        };
        let answer = Event::new(
            self.id.as_str(),
            event.source_id.as_str(),
            context.current_time(),
            EventPayload::Resource(amount),
        ).with_source_port("out");
        let answer = match &event.source_port {
            Some(port) => answer.with_target_port(port.as_str()),
            None => answer.with_target_port("in"),
        };
        let mut events = no_events();
        push_event(&mut events, answer);
        assert(events_view(events@) =~= seq![answer@]);
        Ok(events)
    }

    /// Handles one event.
    pub fn on_event(&mut self, event: &Event, context: &ProcessContext) -> (r: Result<
        Vec<Event>,
        SimulationError,
    >)
        requires
            old(self).wf(),
        ensures
            final(self).wf(),
            reacted(old(self)@, source_react(old(self)@, event@, context@), final(self)@, r),
    {
        match &event.payload {
            EventPayload::Step => {
                if step_triggers(self.trigger_mode, context.current_step()) {
                    self.handle_automatic_action(context)
                } else {
                    Ok(no_events())
                }
            },
            EventPayload::Trigger => self.handle_automatic_action(context),
            EventPayload::PullRequest => self.handle_pull_request(event, context),
            EventPayload::PullAllRequest => self.handle_pull_request(event, context),
            EventPayload::ResourceAccepted(amount) => {
                match self.state.resources_produced.checked_add(*amount) {
                    Some(produced) => {
                        if produced.is_negative() {
                            Err(SimulationError::out_of_bounds())
                        } else {
                            self.state.resources_produced = produced;
                            Ok(no_events())
                        }
                    },
                    None => Err(SimulationError::out_of_bounds()),
                }
            },
            _ => Ok(no_events()),
        }
    }

    pub fn get_state(&self) -> (r: ProcessState)
        ensures
            r matches ProcessState::Source(s) && s.resources_produced@ == self@.produced,
    {
        ProcessState::Source(self.state)
    }

    /// Forgets what the source has produced.
    pub fn reset(&mut self)
        ensures
            final(self).wf(),
            final(self)@ == (SourceModel { produced: 0, ..old(self)@ }),
    {
        self.state = SourceState::default();
    }
}

impl Clone for Source {
    fn clone(&self) -> (r: Self)
        ensures
            r == *self,
    {
        Source {
            id: self.id.clone(),
            state: self.state,
            trigger_mode: self.trigger_mode,
            action: self.action,
        }
    }
}

impl Processor for Source {
    open spec fn model(&self) -> ProcessModel {
        ProcessModel::Source(self@)
    }

    fn id(&self) -> (r: &str) {
        self.id()
    }

    fn on_event(&mut self, event: &Event, context: &ProcessContext) -> (r: Result<
        Vec<Event>,
        SimulationError,
    >) {
        self.on_event(event, context)
    }

    fn get_state(&self) -> (r: ProcessState) {
        self.get_state()
    }

    fn get_input_ports(&self) -> (r: Vec<String>) {
        no_names()
    }

    fn get_output_ports(&self) -> (r: Vec<String>) {
        one_name("out")
    }

    fn reset(&mut self) {
        self.reset()
    }
}

impl SerializableProcess for Source {
    open spec fn kind_name(&self) -> Seq<char> {
        "Source"@
    }

    fn get_type(&self) -> (r: &'static str) {
        "Source"
    }
}

} // verus!
