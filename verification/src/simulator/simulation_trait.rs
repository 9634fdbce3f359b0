//! The operations by which a simulation is driven and inspected.

use crate::fixed::Fixed;
use crate::model::connection::Connection;
use crate::model::process::Process;
use crate::model::process_state::ProcessState;
use crate::simulator::event::{events_view, Event};
use crate::simulator::semantics::{index_of, Run, SimulationModel};
use crate::simulator::simulation::{done, ran, Simulation};
use crate::simulator::simulation_state::SimulationState;
use crate::utils::errors::{ErrorView, SimulationError};
use vstd::prelude::*;

verus! {

/// Driving a simulation: by single events, by steps, and by queueing
/// events from outside.
pub trait Simulate: Sized {
    /// The mathematical value of the simulation.
    spec fn model(&self) -> SimulationModel;

    /// Handles exactly one event.
    fn next(&mut self) -> (r: Result<Vec<Event>, SimulationError>)
        requires
            old(self).model().valid(),
        ensures
            final(self).model().valid(),
            ran(old(self).model().next(), final(self).model(), r),
    ;

    /// Handles every event that is due at the time of the earliest event.
    fn step(&mut self) -> (r: Result<Vec<Event>, SimulationError>)
        requires
            old(self).model().valid(),
        ensures
            final(self).model().valid(),
            ran(old(self).model().step(), final(self).model(), r),
    ;

    /// Steps while the current time has not passed `until`.
    fn step_until(&mut self, until: Fixed) -> (r: Result<Vec<Event>, SimulationError>)
        requires
            old(self).model().valid(),
        ensures
            final(self).model().valid(),
            ran(
                old(self).model().until(until@, old(self).model().budget()),
                final(self).model(),
                r,
            ),
    ;

    /// Steps `n` times.
    fn step_n(&mut self, n: usize) -> (r: Result<Vec<Event>, SimulationError>)
        requires
            old(self).model().valid(),
        ensures
            final(self).model().valid(),
            ran(old(self).model().steps(n as nat), final(self).model(), r),
    ;

    /// Queues an event under the next sequence number.
    fn schedule_event(&mut self, event: Event) -> (r: Result<(), SimulationError>)
        requires
            old(self).model().valid(),
        ensures
            final(self).model().valid(),
            done(old(self).model().schedule(event@), final(self).model(), r),
    ;

    /// Queues events one after the other, up to the first failure.
    fn schedule_events(&mut self, events: Vec<Event>) -> (r: Result<(), SimulationError>)
        requires
            old(self).model().valid(),
        ensures
            final(self).model().valid(),
            done(old(self).model().schedule_all(events_view(events@)), final(self).model(), r),
    ;

    /// Hands an event to its target and returns what the target emits.
    fn process_event(&mut self, event: &Event) -> (r: Result<Vec<Event>, SimulationError>)
        requires
            old(self).model().valid(),
        ensures
            final(self).model().valid(),
            ran(old(self).model().process_event(event@), final(self).model(), r),
    ;

    /// Hands an event to every process and returns what they emit.
    fn process_broadcast_event(&mut self, event: &Event) -> (r: Result<
        Vec<Event>,
        SimulationError,
    >)
        requires
            old(self).model().valid(),
        ensures
            final(self).model().valid(),
            ran(old(self).model().broadcast(event@), final(self).model(), r),
    ;

    /// Handles, one by one, the events that are due at `time`.
    fn process_events_at(&mut self, time: Fixed) -> (r: Result<Vec<Event>, SimulationError>)
        requires
            old(self).model().valid(),
        ensures
            final(self).model().valid(),
            ran(
                old(self).model().drained_at(time@, old(self).model().budget()),
                final(self).model(),
                r,
            ),
    ;
}

/// Inspecting a simulation and returning it to its start.
pub trait StatefulSimulation {
    /// The mathematical value of the simulation.
    spec fn state_model(&self) -> SimulationModel;

    /// The clocks and the state of every process.
    fn get_simulation_state(&self) -> (r: SimulationState)
        ensures
            r.step == self.state_model().clock.current_step,
            r.time@ == self.state_model().clock.current_time,
            r.process_states@ == Seq::new(
                self.state_model().processes.len(),
                |i: int|
                    (self.state_model().processes[i].id(), self.state_model().processes[i].state()),
            ),
    ;

    /// The state of the process that goes by `process_id`.
    fn get_process_state(&self, process_id: &str) -> (r: Result<ProcessState, SimulationError>)
        ensures
            self.state_model().has_process(process_id@) ==> (r matches Ok(state) && state@
                == self.state_model().processes[index_of(
                self.state_model().processes,
                process_id@,
            )].state()),
            !self.state_model().has_process(process_id@) ==> (r matches Err(e) && e@
                == ErrorView::ProcessNotFound(process_id@)),
    ;

    /// Returns the simulation to where it was before it ran.
    fn reset(&mut self) -> (r: Result<(), SimulationError>)
        requires
            old(self).state_model().valid(),
        ensures
            final(self).state_model().valid(),
            r is Ok,
            final(self).state_model() == old(self).state_model().reset(),
    ;
}

impl Simulate for Simulation {
    open spec fn model(&self) -> SimulationModel {
        self@
    }

    fn next(&mut self) -> (r: Result<Vec<Event>, SimulationError>) {
        Simulation::next(self)
    }

    fn step(&mut self) -> (r: Result<Vec<Event>, SimulationError>) {
        Simulation::step(self)
    }

    fn step_until(&mut self, until: Fixed) -> (r: Result<Vec<Event>, SimulationError>) {
        Simulation::step_until(self, until)
    }

    fn step_n(&mut self, n: usize) -> (r: Result<Vec<Event>, SimulationError>) {
        Simulation::step_n(self, n)
    }

    fn schedule_event(&mut self, event: Event) -> (r: Result<(), SimulationError>) {
        Simulation::schedule_event(self, event)
    }

    fn schedule_events(&mut self, events: Vec<Event>) -> (r: Result<(), SimulationError>) {
        Simulation::schedule_events(self, events)
    }

    fn process_event(&mut self, event: &Event) -> (r: Result<Vec<Event>, SimulationError>) {
        Simulation::process_event(self, event)
    }

    fn process_broadcast_event(&mut self, event: &Event) -> (r: Result<
        Vec<Event>,
        SimulationError,
    >) {
        Simulation::process_broadcast_event(self, event)
    }

    fn process_events_at(&mut self, time: Fixed) -> (r: Result<Vec<Event>, SimulationError>) {
        Simulation::process_events_at(self, time)
    }
}

impl StatefulSimulation for Simulation {
    open spec fn state_model(&self) -> SimulationModel {
        self@
    }

    fn get_simulation_state(&self) -> (r: SimulationState) {
        Simulation::get_simulation_state(self)
    }

    fn get_process_state(&self, process_id: &str) -> (r: Result<ProcessState, SimulationError>) {
        Simulation::get_process_state(self, process_id)
    }

    fn reset(&mut self) -> (r: Result<(), SimulationError>) {
        Simulation::reset(self)
    }
}

} // verus!
