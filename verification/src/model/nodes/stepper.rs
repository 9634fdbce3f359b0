//! Steppers: the heartbeat of a simulation.

use crate::fixed::{representable, Fixed, SCALE};
use crate::model::nodes::resource::{no_events, push_event};
use crate::model::nodes::TriggerMode;
use crate::model::process_context::{ContextView, ProcessContext};
use crate::model::process_state::{ProcessState, StepperState};
use crate::model::process_trait::{
    no_names, one_name, reacted, within_bounds, ProcessModel, Processor, Reaction,
    SerializableProcess,
};
use crate::simulator::event::{
    events_view, event_with_ports, Event, EventPayload, EventView, PayloadView,
};
use crate::utils::errors::{ErrorView, SimulationError};
use vstd::prelude::*;

verus! {

/// A process that sends a `Step` to every process at fixed intervals. Where
/// a model has none, time moves only when some process schedules an event
/// in the future.
#[derive(Debug)]
pub struct Stepper {
    id: String,
    state: StepperState,
    dt: Fixed,
    trigger_mode: TriggerMode,
}

/// The mathematical value of a `Stepper`.
pub struct StepperModel {
    pub id: Seq<char>,
    pub current_step: usize,
    pub dt: int,
    pub trigger_mode: TriggerMode,
}

impl View for Stepper {
    type V = StepperModel;

    closed spec fn view(&self) -> StepperModel {
        StepperModel {
            id: self.id@,
            current_step: self.state.current_step,
            dt: self.dt@,
            trigger_mode: self.trigger_mode,
        }
    }
}

/// The bounds a stepper keeps: its interval is positive.
pub open spec fn stepper_valid(m: StepperModel) -> bool {
    0 < m.dt <= i64::MAX
}

/// The `Step` that a stepper sends to every process, due one interval after
/// `time`.
pub open spec fn next_step(m: StepperModel, time: int) -> EventView {
    event_with_ports(m.id, "step"@, "broadcast"@, ""@, time + m.dt, PayloadView::Step)
}

/// How a stepper reacts to one event: the start of the simulation and every
/// `Step` make it send the next `Step`, which fails only where the time of
/// that step does not fit the number type.
pub open spec fn stepper_react(m: StepperModel, event: EventView, context: ContextView) -> Reaction<
    StepperModel,
> {
    match event.payload {
        PayloadView::SimulationStart | PayloadView::Step => within_bounds(
            (m, seq![next_step(m, context.current_time)]),
            representable(context.current_time + m.dt),
        ),
        _ => Ok((m, Seq::empty())),
    }
}

/// A stepper as the builder makes it by default: one whole unit of time per
/// step.
pub open spec fn default_stepper(id: Seq<char>) -> StepperModel {
    StepperModel { id, current_step: 0, dt: SCALE as int, trigger_mode: TriggerMode::Automatic }
}

/// Collects the settings of a stepper before it is made.
#[derive(Debug)]
pub struct StepperBuilder {
    id: String,
    trigger_mode: TriggerMode,
}

impl Default for StepperBuilder {
    fn default() -> (r: Self)
        ensures
            r.model() == default_stepper(Seq::empty()),
    {
        StepperBuilder { id: String::new(), trigger_mode: TriggerMode::Automatic }
    }
}

impl StepperBuilder {
    /// The stepper that `build` will make.
    pub closed spec fn model(&self) -> StepperModel {
        StepperModel { id: self.id@, trigger_mode: self.trigger_mode, ..default_stepper(self.id@) }
    }

    pub fn id(self, id: &str) -> (r: Self)
        ensures
            r.model() == (StepperModel { id: id@, ..self.model() }),
    {
        let mut builder = self;
        builder.id = id.to_owned();
        builder
    }

    pub fn trigger_mode(self, trigger_mode: TriggerMode) -> (r: Self)
        ensures
            r.model() == (StepperModel { trigger_mode, ..self.model() }),
    {
        let mut builder = self;
        builder.trigger_mode = trigger_mode;
        builder
    }

    pub fn build(self) -> (r: Result<Stepper, SimulationError>)
        ensures
            r matches Ok(stepper) && stepper@ == self.model() && stepper.wf(),
    {
        Ok(
            Stepper {
                id: self.id,
                state: StepperState::default(),
                dt: Fixed::one(),
                trigger_mode: self.trigger_mode,
            },
        )
    }
}

impl Stepper {
    /// Whether the stepper is within its bounds.
    pub open spec fn wf(&self) -> bool {
        stepper_valid(self@)
    }

    pub fn new(id: &str) -> (r: Stepper)
        ensures
            r@ == default_stepper(id@),
            r.wf(),
    {
        Stepper {
            id: id.to_owned(),
            state: StepperState::default(),
            dt: Fixed::one(),
            trigger_mode: TriggerMode::Automatic,
        }
    }

    pub fn builder() -> (r: StepperBuilder)
        ensures
            r.model() == default_stepper(Seq::empty()),
    {
        StepperBuilder::default()
    }

    pub fn id(&self) -> (r: &str)
        ensures
            r@ == self@.id,
    {
        self.id.as_str()
    }

    /// Whether the process goes by the identifier `id`.
    pub fn has_id(&self, id: &String) -> (r: bool)
        ensures
            r == (self@.id == id@),
    {
        self.id == *id
    }

    pub fn dt(&self) -> (r: Fixed)
        ensures
            r@ == self@.dt,
    {
        self.dt
    }

    pub fn trigger_mode(&self) -> (r: TriggerMode)
        ensures
            r == self@.trigger_mode,
    {
        self.trigger_mode
    }

    /// Sets the interval between steps, which must be positive.
    pub fn set_dt(&mut self, dt: Fixed) -> (r: Result<(), SimulationError>)
        requires
            old(self).wf(),
        ensures
            final(self).wf(),
            dt@ > 0 ==> r is Ok && final(self)@ == (StepperModel { dt: dt@, ..old(self)@ }),
            dt@ <= 0 ==> (r matches Err(e) && e@ == ErrorView::InvalidDt(dt@)) && final(self)@
                == old(self)@,
    {
        if dt.raw() <= 0 {
            return Err(SimulationError::InvalidDt(dt));
        }
        self.dt = dt;
        Ok(())
    }

    /// Handles one event.
    pub fn on_event(&mut self, event: &Event, context: &ProcessContext) -> (r: Result<
        Vec<Event>,
        SimulationError,
    >)
        requires
            old(self).wf(),
        ensures
            final(self).wf(),
            final(self)@ == old(self)@,
            reacted(old(self)@, stepper_react(old(self)@, event@, context@), final(self)@, r),
    {
        match &event.payload {
            EventPayload::SimulationStart | EventPayload::Step => {
                match context.current_time().checked_add(self.dt) {
                    Some(due) => {
                        let step = Event::new(
                            self.id.as_str(),
                            "broadcast",
                            due,
                            EventPayload::Step,
                        ).with_ports("step", "");
                        let mut events = no_events();
                        push_event(&mut events, step);
                        assert(events_view(events@) =~= seq![step@]);
                        Ok(events)
                    },
                    None => Err(SimulationError::out_of_bounds()),
                }
            },
            _ => Ok(no_events()),
        }
    }

    pub fn get_state(&self) -> (r: ProcessState)
        ensures
            r matches ProcessState::Stepper(s) && s.current_step == self@.current_step,
    {
        ProcessState::Stepper(self.state)
    }

    /// Returns the step counter to zero.
    pub fn reset(&mut self)
        requires
            old(self).wf(),
        ensures
            final(self).wf(),
            final(self)@ == (StepperModel { current_step: 0, ..old(self)@ }),
    {
        self.state = StepperState::default();
    }
}

impl Clone for Stepper {
    fn clone(&self) -> (r: Self)
        ensures
            r == *self,
    {
        Stepper {
            id: self.id.clone(),
            state: self.state,
            dt: self.dt,
            trigger_mode: self.trigger_mode,
        }
    }
}

impl Processor for Stepper {
    open spec fn model(&self) -> ProcessModel {
        ProcessModel::Stepper(self@)
    }

    fn id(&self) -> (r: &str) {
        self.id()
    }

    fn on_event(&mut self, event: &Event, context: &ProcessContext) -> (r: Result<
        Vec<Event>,
        SimulationError,
    >) {
        self.on_event(event, context)
    }

    fn get_state(&self) -> (r: ProcessState) {
        self.get_state()
    }

    fn get_input_ports(&self) -> (r: Vec<String>) {
        one_name("step")
    }

    fn get_output_ports(&self) -> (r: Vec<String>) {
        one_name("step")
    }

    fn reset(&mut self) {
        self.reset()
    }
}

impl SerializableProcess for Stepper {
    open spec fn kind_name(&self) -> Seq<char> {
        "Stepper"@
    }

    fn get_type(&self) -> (r: &'static str) {
        "Stepper"
    }
}

} // verus!
