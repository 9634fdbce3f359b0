//! The scheduler: it owns the processes, the connections and the queue of
//! events, and drives the simulation.

use crate::fixed::Fixed;
use crate::model::connection::Connection;
use crate::model::nodes::event_priority::{
    borrowed_view, lemma_batch_keeps_identity, sort_by_priority, split_steps,
};
use crate::model::nodes::resource::{no_events, push_event};
use crate::model::process::Process;
use crate::model::process_state::ProcessState;
use crate::model::process_trait::{names_view, ProcessModel, Processor};
use crate::simulator::event::{events_view, Event, EventPayload, EventView};
use crate::simulator::event_queue::EventQueue;
use crate::simulator::semantics::{
    addressed_elsewhere, addressed_to, all_valid, connection_error, distinct_ids, due_count,
    event_error, index_of, lemma_group_not_empty, lemma_index_of, lemma_parts_len, lemma_preceded_by_none,
    lemma_preceded_twice, lemma_preceding_nothing, lemma_round_of_nothing, lemma_round_unfolds,
    lemma_drained_unfolds, lemma_due_head, lemma_rounds_unfold, lemma_steps_failure_stays,
    lemma_steps_unfold, lemma_until_unfolds, port_error, preceded_by,
    broadcast_id, Run, SimulationModel,
};
use crate::simulator::simulation_context::SimulationContext;
use crate::simulator::simulation_state::{ProcessStates, SimulationState};
use crate::utils::errors::{ErrorView, SimulationError};
use vstd::prelude::*;

verus! {

/// A simulation: processes, connections, clocks and the queue of events.
#[derive(Debug)]
pub struct Simulation {
    processes: Vec<Process>,
    context: SimulationContext,
    event_queue: EventQueue,
    event_sequence_number: u64,
    connection_sequence_number: u64,
}

/// The views of a sequence of processes, in order.
pub open spec fn processes_view(processes: Seq<Process>) -> Seq<ProcessModel> {
    Seq::new(processes.len(), |i: int| processes[i]@)
}

impl View for Simulation {
    type V = SimulationModel;

    closed spec fn view(&self) -> SimulationModel {
        SimulationModel {
            processes: processes_view(self.processes@),
            clock: self.context@,
            queue: self.event_queue@,
            event_sequence_number: self.event_sequence_number,
            connection_sequence_number: self.connection_sequence_number,
        }
    }
}

impl Default for Simulation {
    fn default() -> (r: Self)
        ensures
            r.wf(),
            r@.processes.len() == 0,
            r@.queue.len() == 0,
            r@.clock == SimulationContext::default_view(),
            r@.event_sequence_number == 0,
            r@.connection_sequence_number == 0,
    {
        Simulation::empty()
    }
}

/// An operation that hands back events should have led to `expected`; the
/// simulation is now `after` and the operation has returned `result`.
pub open spec fn ran(
    expected: Run,
    after: SimulationModel,
    result: Result<Vec<Event>, SimulationError>,
) -> bool {
    &&& after == expected.model
    &&& match expected.error {
        None => result matches Ok(events) && events_view(events@) == expected.events,
        Some(error) => result matches Err(e) && e@ == error,
    }
}

/// An operation that hands back nothing should have led to `expected`; the
/// simulation is now `after` and the operation has returned `result`.
pub open spec fn done(expected: Run, after: SimulationModel, result: Result<(), SimulationError>) -> bool {
    &&& after == expected.model
    &&& match expected.error {
        None => result is Ok,
        Some(error) => result matches Err(e) && e@ == error,
    }
}

/// Whether `name` is among `names`.
pub fn has_name(names: &Vec<String>, name: &String) -> (r: bool)
    ensures
        r == names_view(names@).contains(name@),
{
    let mut i: usize = 0;
    while i < names.len()
        invariant
            i <= names.len(),
            forall|k: int| 0 <= k < i ==> names_view(names@)[k] != name@,
        decreases names.len() - i,
    {
        if names[i] == *name {
            assert(names_view(names@)[i as int] == name@);
            return true;
        }
        i += 1;
    }
    false
}

/// What is wrong with a port named for `process`, if anything.
pub fn check_port(process: &Process, port: &Option<String>, input: bool) -> (r: Result<
    (),
    SimulationError,
>)
    ensures
        match port_error(process@, crate::simulator::event::port_view(*port), input) {
            Some(error) => r matches Err(e) && e@ == error,
            None => r is Ok,
        },
{
    match port {
        Some(name) => {
            let declared = if input {
                process.get_input_ports()
            } else {
                process.get_output_ports()
            };
            if has_name(&declared, name) {
                Ok(())
            } else {
                Err(
                    SimulationError::InvalidPort {
                        process: process.id().to_owned(),
                        port: name.clone(),
                        port_type: if input {
                            "input".to_owned()
                        } else {
                            "output".to_owned()
                        },
                    },
                )
            }
        },
        None => Ok(()),
    }
}

impl Simulation {
    /// Whether the simulation is within its bounds: every process within
    /// the bounds of its kind, no identifier used twice, the queue in
    /// order.
    pub open spec fn wf(&self) -> bool {
        self@.valid()
    }

    /// A simulation without processes, connections or events.
    pub fn empty() -> (r: Simulation)
        ensures
            r.wf(),
            r@.processes.len() == 0,
            r@.queue.len() == 0,
            r@.clock == SimulationContext::default_view(),
            r@.event_sequence_number == 0,
            r@.connection_sequence_number == 0,
    {
        let r = Simulation {
            processes: Vec::new(),
            context: SimulationContext::default(),
            event_queue: EventQueue::new(),
            event_sequence_number: 0,
            connection_sequence_number: 0,
        };
        r
    }

    pub fn get_context(&self) -> (r: &SimulationContext)
        ensures
            r@ == self@.clock,
    {
        &self.context
    }

    /// The events still to be handled, in the order in which they will be.
    pub fn get_events(&self) -> (r: &[Event])
        ensures
            events_view(r@) == self@.queue,
    {
        self.event_queue.as_slice()
    }

    pub fn current_step(&self) -> (r: u64)
        ensures
            r == self@.clock.current_step,
    {
        self.context.current_step()
    }

    pub fn current_time(&self) -> (r: Fixed)
        ensures
            r@ == self@.clock.current_time,
    {
        self.context.current_time()
    }

    /// The processes, in the order in which they were added.
    pub fn processes(&self) -> (r: &Vec<Process>)
        ensures
            processes_view(r@) == self@.processes,
    {
        &self.processes
    }

    /// The identifiers of the processes, in the order in which they were
    /// added.
    pub fn process_ids(&self) -> (r: Vec<String>)
        ensures
            names_view(r@) == Seq::new(self@.processes.len(), |i: int| self@.processes[i].id()),
    {
        let mut ids: Vec<String> = Vec::new();
        let mut i: usize = 0;
        while i < self.processes.len()
            invariant
                i <= self.processes.len(),
                ids.len() == i,
                forall|k: int| 0 <= k < i ==> (#[trigger] ids@[k])@ == self@.processes[k].id(),
            decreases self.processes.len() - i,
        {
            ids.push(self.processes[i].id().to_owned());
            i += 1;
        }
        assert(names_view(ids@) =~= Seq::new(
            self@.processes.len(),
            |i: int| self@.processes[i].id(),
        ));
        ids
    }

    pub fn process_count(&self) -> (r: usize)
        ensures
            r == self@.processes.len(),
    {
        self.processes.len()
    }

    /// The position of the first process that goes by `id`, or the number
    /// of processes where there is none.
    pub fn position(&self, id: &String) -> (r: usize)
        ensures
            r == index_of(self@.processes, id@),
            r <= self@.processes.len(),
    {
        let ghost all = self@.processes;
        let mut i: usize = 0;
        assert(all.skip(0) =~= all);
        while i < self.processes.len()
            invariant
                i <= self.processes.len(),
                all == self@.processes,
                index_of(all, id@) == i + index_of(all.skip(i as int), id@),
            decreases self.processes.len() - i,
        {
            assert(all.skip(i as int)[0] == self.processes@[i as int]@);
            assert(all.skip(i as int).drop_first() =~= all.skip(i + 1));
            if self.processes[i].has_id(id) {
                return i;
            }
            i += 1;
        }
        i
    }

    pub fn has_process(&self, id: &str) -> (r: bool)
        ensures
            r == self@.has_process(id@),
    {
        let wanted = id.to_owned();
        self.position(&wanted) < self.processes.len()
    }

    /// Adds a process, unless its identifier is taken.
    pub fn add_process(&mut self, process: Process) -> (r: Result<(), SimulationError>)
        requires
            old(self).wf(),
            process.wf(),
        ensures
            final(self).wf(),
            done(old(self)@.with_process(process@), final(self)@, r),
    {
        let id = process.id().to_owned();
        let at = self.position(&id);
        if at < self.processes.len() {
            return Err(SimulationError::DuplicateProcess(id));
        }
        proof {
            lemma_index_of(self@.processes, id@);
        }
        let ghost before = self@.processes;
        self.processes.push(process);
        assert(self@.processes =~= before.push(process@));
        Ok(())
    }

    /// Adds processes one after the other, up to the first failure.
    pub fn add_processes(&mut self, processes: Vec<Process>) -> (r: Result<(), SimulationError>)
        requires
            old(self).wf(),
            forall|i: int| 0 <= i < processes@.len() ==> (#[trigger] processes@[i]).wf(),
        ensures
            final(self).wf(),
            done(old(self)@.with_processes(processes_view(processes@)), final(self)@, r),
    {
        let ghost all = processes_view(processes@);
        let mut i: usize = 0;
        while i < processes.len()
            invariant
                i <= processes.len(),
                self.wf(),
                all == processes_view(processes@),
                forall|i: int| 0 <= i < processes@.len() ==> (#[trigger] processes@[i]).wf(),
                old(self)@.with_processes(all.take(i as int)) == self@.unchanged(),
            decreases processes.len() - i,
        {
            assert(all.take(i + 1).drop_last() =~= all.take(i as int));
            assert(all.take(i + 1).last() == processes@[i as int]@);
            match self.add_process(processes[i].clone()) {
                Ok(()) => {},
                Err(e) => {
                    proof {
                        lemma_addition_failure_stays(old(self)@, all, i as int + 1);
                    }
                    return Err(e);
                },
            }
            i += 1;
        }
        assert(all.take(i as int) =~= all);
        Ok(())
    }

    /// Puts `process` in the place of the process that goes by `id`, or
    /// behind all others where there is none.
    pub fn update_process(&mut self, id: &str, process: Process) -> (r: Result<
        (),
        SimulationError,
    >)
        requires
            old(self).wf(),
            process.wf(),
        ensures
            final(self).wf(),
            done(old(self)@.with_process_at(id@, process@), final(self)@, r),
    {
        let wanted = id.to_owned();
        let own = process.id().to_owned();
        let taken = self.position(&own);
        if !(own == wanted) && taken < self.processes.len() {
            return Err(SimulationError::DuplicateProcess(own));
        }
        let at = self.position(&wanted);
        proof {
            lemma_index_of(self@.processes, id@);
            lemma_index_of(self@.processes, own@);
        }
        let ghost before = self@.processes;
        if at < self.processes.len() {
            self.processes[at] = process;
            assert(self@.processes =~= before.update(at as int, process@));
            assert(distinct_ids(self@.processes)) by {
                assert forall|i: int, j: int| 0 <= i < j < self@.processes.len() implies (
                #[trigger] self@.processes[i]).id() != (#[trigger] self@.processes[j]).id() by {
                    if i != at && j != at {
                        assert(before[i].id() != before[j].id());
                    } else if own@ == id@ {
                        assert(before[i].id() != before[j].id());
                    } else {
                        assert(before[i].id() != own@ || i == at);
                        assert(before[j].id() != own@ || j == at);
                    }
                }
            }
        } else {
            self.processes.push(process);
            assert(self@.processes =~= before.push(process@));
        }
        Ok(())
    }

    /// Takes the process that goes by `id` out of the simulation.
    pub fn remove_process(&mut self, id: &str) -> (r: Result<Process, SimulationError>)
        requires
            old(self).wf(),
        ensures
            final(self).wf(),
            ({
                let at = index_of(old(self)@.processes, id@);
                if old(self)@.has_process(id@) {
                    &&& r matches Ok(process)
                    &&& process@ == old(self)@.processes[at]
                    &&& process.wf()
                    &&& final(self)@ == (SimulationModel {
                        processes: old(self)@.processes.remove(at),
                        ..old(self)@
                    })
                } else {
                    &&& r matches Err(e)
                    &&& e@ == ErrorView::ProcessNotFound(id@)
                    &&& final(self)@ == old(self)@
                }
            }),
    {
        let wanted = id.to_owned();
        let at = self.position(&wanted);
        if at < self.processes.len() {
            let ghost before = self@.processes;
            let process = self.processes.remove(at);
            assert(self@.processes =~= before.remove(at as int));
            assert(process@ == before[at as int]);
            assert(before[at as int].valid());
            assert(all_valid(self@.processes)) by {
                assert forall|i: int| 0 <= i < self@.processes.len() implies (
                #[trigger] self@.processes[i]).valid() by {
                    if i < at {
                        assert(self@.processes[i] == before[i]);
                    } else {
                        assert(self@.processes[i] == before[i + 1]);
                    }
                }
            }
            assert(distinct_ids(self@.processes)) by {
                assert forall|i: int, j: int| 0 <= i < j < self@.processes.len() implies (
                #[trigger] self@.processes[i]).id() != (#[trigger] self@.processes[j]).id() by {
                    let a = if i < at {
                        i
                    } else {
                        i + 1
                    };
                    let b = if j < at {
                        j
                    } else {
                        j + 1
                    };
                    assert(self@.processes[i] == before[a]);
                    assert(self@.processes[j] == before[b]);
                    assert(before[a].id() != before[b].id());
                }
            }
            Ok(process)
        } else {
            Err(SimulationError::ProcessNotFound(wanted))
        }
    }

    /// The process that goes by `id`.
    pub fn get_process(&self, id: &str) -> (r: Result<&Process, SimulationError>)
        ensures
            self@.has_process(id@) ==> (r matches Ok(process) && process@
                == self@.processes[index_of(self@.processes, id@)]),
            !self@.has_process(id@) ==> (r matches Err(e) && e@ == ErrorView::ProcessNotFound(
                id@,
            )),
    {
        let wanted = id.to_owned();
        let at = self.position(&wanted);
        if at < self.processes.len() {
            Ok(&self.processes[at])
        } else {
            Err(SimulationError::ProcessNotFound(wanted))
        }
    }

    /// The state of the process that goes by `process_id`.
    pub fn get_process_state(&self, process_id: &str) -> (r: Result<ProcessState, SimulationError>)
        ensures
            self@.has_process(process_id@) ==> (r matches Ok(state) && state@
                == self@.processes[index_of(self@.processes, process_id@)].state()),
            !self@.has_process(process_id@) ==> (r matches Err(e) && e@
                == ErrorView::ProcessNotFound(process_id@)),
    {
        match self.get_process(process_id) {
            Ok(process) => Ok(process.get_state()),
            Err(e) => Err(e),
        }
    }
}

impl Simulation {
    /// What is wrong with a connection that is to be registered, if
    /// anything.
    pub fn validate_connection(&self, connection: &Connection) -> (r: Result<(), SimulationError>)
        ensures
            match connection_error(self@.processes, connection@) {
                Some(error) => r matches Err(e) && e@ == error,
                None => r is Ok,
            },
    {
        let source = self.position(&connection.source_id);
        if source >= self.processes.len() {
            return Err(SimulationError::ProcessNotFound(connection.source_id.clone()));
        }
        match check_port(&self.processes[source], &connection.source_port, false) {
            Ok(()) => {},
            Err(e) => {
                return Err(e);
            },
        }
        let target = self.position(&connection.target_id);
        if target >= self.processes.len() {
            return Err(SimulationError::ProcessNotFound(connection.target_id.clone()));
        }
        check_port(&self.processes[target], &connection.target_port, true)
    }

    /// Registers a connection under the next sequence number.
    pub fn add_connection(&mut self, connection: Connection) -> (r: Result<(), SimulationError>)
        requires
            old(self).wf(),
        ensures
            final(self).wf(),
            done(old(self)@.with_connection(connection@), final(self)@, r),
    {
        match self.validate_connection(&connection) {
            Ok(()) => {},
            Err(e) => {
                return Err(e);
            },
        }
        if self.connection_sequence_number == u64::MAX {
            return Err(SimulationError::sequence_exhausted());
        }
        let mut connection = connection;
        connection.sequence_number = self.connection_sequence_number;
        self.connection_sequence_number = self.connection_sequence_number + 1;
        self.context.add_connection(connection);
        Ok(())
    }

    /// Registers connections one after the other, up to the first failure.
    pub fn add_connections(&mut self, connections: Vec<Connection>) -> (r: Result<
        (),
        SimulationError,
    >)
        requires
            old(self).wf(),
        ensures
            final(self).wf(),
            done(
                old(self)@.with_connections(
                    crate::simulator::simulation_context::owned_connections_view(connections@),
                ),
                final(self)@,
                r,
            ),
    {
        let ghost all = crate::simulator::simulation_context::owned_connections_view(
            connections@,
        );
        let mut i: usize = 0;
        while i < connections.len()
            invariant
                i <= connections.len(),
                self.wf(),
                all == crate::simulator::simulation_context::owned_connections_view(connections@),
                old(self)@.with_connections(all.take(i as int)) == self@.unchanged(),
            decreases connections.len() - i,
        {
            assert(all.take(i + 1).drop_last() =~= all.take(i as int));
            assert(all.take(i + 1).last() == connections@[i as int]@);
            match self.add_connection(connections[i].clone()) {
                Ok(()) => {},
                Err(e) => {
                    proof {
                        lemma_connection_failure_stays(old(self)@, all, i as int + 1);
                    }
                    return Err(e);
                },
            }
            i += 1;
        }
        assert(all.take(i as int) =~= all);
        Ok(())
    }

    /// Puts `connection` in the place of the first connection with id
    /// `connection_id`, under the sequence number of the one it replaces.
    pub fn update_connection(&mut self, connection_id: &str, connection: Connection) -> (r: Result<
        (),
        SimulationError,
    >)
        requires
            old(self).wf(),
        ensures
            final(self).wf(),
            done(
                old(self)@.with_connection_at(connection_id@, connection@),
                final(self)@,
                r,
            ),
    {
        match self.validate_connection(&connection) {
            Ok(()) => {},
            Err(e) => {
                return Err(e);
            },
        }
        let wanted = connection_id.to_owned();
        match self.context.find_connection(&wanted) {
            Some(at) => {
                let mut connection = connection;
                connection.sequence_number = self.context.connection_at(at).sequence_number;
                self.context.replace_connection(at, connection);
                Ok(())
            },
            None => Err(SimulationError::ConnectionNotFound(wanted)),
        }
    }

    /// Removes every connection with id `connection_id`.
    pub fn remove_connection(&mut self, connection_id: &str) -> (r: Result<(), SimulationError>)
        requires
            old(self).wf(),
        ensures
            final(self).wf(),
            done(old(self)@.without_connection(connection_id@), final(self)@, r),
    {
        let wanted = connection_id.to_owned();
        match self.context.find_connection(&wanted) {
            Some(_) => {
                self.context.remove_connections(&wanted);
                Ok(())
            },
            None => Err(SimulationError::ConnectionNotFound(wanted)),
        }
    }

    /// The first connection with id `connection_id`.
    pub fn get_connection(&self, connection_id: &str) -> (r: Result<&Connection, SimulationError>)
        ensures
            ({
                let at = crate::simulator::simulation_context::position_of(
                    self@.clock.connections,
                    connection_id@,
                );
                if at < self@.clock.connections.len() {
                    r matches Ok(connection) && connection@ == self@.clock.connections[at]
                } else {
                    r matches Err(e) && e@ == ErrorView::ConnectionNotFound(connection_id@)
                }
            }),
    {
        let wanted = connection_id.to_owned();
        match self.context.find_connection(&wanted) {
            Some(at) => Ok(self.context.connection_at(at)),
            None => Err(SimulationError::ConnectionNotFound(wanted)),
        }
    }

    /// What is wrong with an event that is to be queued, if anything.
    pub fn validate_event(&self, event: &Event) -> (r: Result<(), SimulationError>)
        ensures
            match event_error(self@.processes, event@) {
                Some(error) => r matches Err(e) && e@ == error,
                None => r is Ok,
            },
    {
        if event.target_id == "broadcast".to_owned() || event.source_id == "simulation".to_owned() {
            return Ok(());
        }
        let target = self.position(&event.target_id);
        if target >= self.processes.len() {
            return Err(SimulationError::ProcessNotFound(event.target_id.clone()));
        }
        match check_port(&self.processes[target], &event.target_port, true) {
            Ok(()) => {},
            Err(e) => {
                return Err(e);
            },
        }
        let source = self.position(&event.source_id);
        if source >= self.processes.len() {
            return Err(SimulationError::ProcessNotFound(event.source_id.clone()));
        }
        check_port(&self.processes[source], &event.source_port, false)
    }

    /// Queues an event under the next sequence number.
    pub fn schedule_event(&mut self, event: Event) -> (r: Result<(), SimulationError>)
        requires
            old(self).wf(),
        ensures
            final(self).wf(),
            done(old(self)@.schedule(event@), final(self)@, r),
            r is Ok ==> final(self)@.budget() == old(self)@.budget(),
    {
        match self.validate_event(&event) {
            Ok(()) => {},
            Err(e) => {
                return Err(e);
            },
        }
        if self.event_sequence_number == u64::MAX {
            return Err(SimulationError::sequence_exhausted());
        }
        let mut event = event;
        event.sequence_number = self.event_sequence_number;
        self.event_sequence_number = self.event_sequence_number + 1;
        proof {
            crate::simulator::event_queue::lemma_enqueue_len(self@.queue, event@);
        }
        self.event_queue.push(event);
        Ok(())
    }

    /// Queues events one after the other, up to the first failure.
    pub fn schedule_events(&mut self, events: Vec<Event>) -> (r: Result<(), SimulationError>)
        requires
            old(self).wf(),
        ensures
            final(self).wf(),
            done(old(self)@.schedule_all(events_view(events@)), final(self)@, r),
            r is Ok ==> final(self)@.budget() == old(self)@.budget(),
    {
        let ghost all = events_view(events@);
        let mut i: usize = 0;
        while i < events.len()
            invariant
                i <= events.len(),
                self.wf(),
                all == events_view(events@),
                old(self)@.schedule_all(all.take(i as int)) == self@.unchanged(),
                self@.budget() == old(self)@.budget(),
            decreases events.len() - i,
        {
            assert(all.take(i + 1).drop_last() =~= all.take(i as int));
            assert(all.take(i + 1).last() == events@[i as int]@);
            match self.schedule_event(events[i].clone()) {
                Ok(()) => {},
                Err(e) => {
                    proof {
                        lemma_scheduling_failure_stays(old(self)@, all, i as int + 1);
                    }
                    return Err(e);
                },
            }
            i += 1;
        }
        assert(all.take(i as int) =~= all);
        Ok(())
    }

    /// Hands a batch to the process at position `at`.
    pub fn deliver(&mut self, at: usize, batch: &[Event]) -> (r: Result<
        Vec<Event>,
        SimulationError,
    >)
        requires
            old(self).wf(),
            at < old(self)@.processes.len(),
        ensures
            final(self).wf(),
            ran(old(self)@.deliver(at as int, events_view(batch@)), final(self)@, r),
            final(self)@.budget() == old(self)@.budget(),
            final(self)@.processes.len() == old(self)@.processes.len(),
    {
        let id = self.processes[at].id().to_owned();
        let context = self.context.context_for_process(id.as_str());
        let ghost before = self@.processes;
        assert(before[at as int].valid());
        proof {
            lemma_batch_keeps_identity(before[at as int], events_view(batch@), context@);
        }
        let r = self.processes[at].on_events(batch, &context);
        assert(self@.processes =~= before.update(at as int, self.processes@[at as int]@));
        assert(all_valid(self@.processes)) by {
            assert forall|i: int| 0 <= i < self@.processes.len() implies (
            #[trigger] self@.processes[i]).valid() by {
                if i != at {
                    assert(self@.processes[i] == before[i]);
                }
            }
        }
        assert(distinct_ids(self@.processes)) by {
            assert forall|i: int, j: int| 0 <= i < j < self@.processes.len() implies (
            #[trigger] self@.processes[i]).id() != (#[trigger] self@.processes[j]).id() by {
                assert(self@.processes[i].id() == before[i].id());
                assert(self@.processes[j].id() == before[j].id());
            }
        }
        r
    }

    /// Hands an event to its target and returns what the target emits.
    pub fn process_event(&mut self, event: &Event) -> (r: Result<Vec<Event>, SimulationError>)
        requires
            old(self).wf(),
        ensures
            final(self).wf(),
            ran(old(self)@.process_event(event@), final(self)@, r),
            final(self)@.budget() == old(self)@.budget(),
    {
        let at = self.position(&event.target_id);
        if at < self.processes.len() {
            let batch = one_event(event);
            self.deliver(at, batch.as_slice())
        } else {
            Err(SimulationError::ProcessNotFound(event.target_id.clone()))
        }
    }

    /// Hands an event to every process in turn and returns what they emit.
    pub fn process_broadcast_event(&mut self, event: &Event) -> (r: Result<
        Vec<Event>,
        SimulationError,
    >)
        requires
            old(self).wf(),
        ensures
            final(self).wf(),
            ran(old(self)@.broadcast(event@), final(self)@, r),
            final(self)@.budget() == old(self)@.budget(),
    {
        let batch = one_event(event);
        let mut emitted = no_events();
        let mut i: usize = 0;
        while i < self.processes.len()
            invariant
                i <= self.processes.len(),
                self.wf(),
                self@.processes.len() == old(self)@.processes.len(),
                self@.budget() == old(self)@.budget(),
                events_view(batch@) == seq![event@],
                old(self)@.broadcast_to(event@, i as nat) == (Run {
                    model: self@,
                    events: events_view(emitted@),
                    error: None,
                }),
            decreases self.processes.len() - i,
        {
            let ghost so_far = events_view(emitted@);
            match self.deliver(i, batch.as_slice()) {
                Ok(mut produced) => {
                    let ghost added = events_view(produced@);
                    emitted.append(&mut produced);
                    assert(events_view(emitted@) =~= so_far + added);
                },
                Err(e) => {
                    proof {
                        lemma_broadcast_failure_stays(
                            old(self)@,
                            event@,
                            i as nat + 1,
                            old(self)@.processes.len(),
                        );
                    }
                    return Err(e);
                },
            }
            i += 1;
        }
        Ok(emitted)
    }
}

/// Copies of the events of a batch that are addressed to `target`, and of
/// those that are not.
pub fn split_by_target(events: &Vec<Event>, target: &String) -> (r: (Vec<Event>, Vec<Event>))
    ensures
        events_view(r.0@) == addressed_to(events_view(events@), target@),
        events_view(r.1@) == addressed_elsewhere(events_view(events@), target@),
{
    let mut group = no_events();
    let mut rest = no_events();
    let ghost all = events_view(events@);
    let mut i: usize = 0;
    while i < events.len()
        invariant
            i <= events.len(),
            all == events_view(events@),
            events_view(group@) == addressed_to(all.take(i as int), target@),
            events_view(rest@) == addressed_elsewhere(all.take(i as int), target@),
        decreases events.len() - i,
    {
        assert(all.take(i + 1).drop_last() =~= all.take(i as int));
        assert(all.take(i + 1).last() == events@[i as int]@);
        if events[i].target_id == *target {
            push_event(&mut group, events[i].clone());
        } else {
            push_event(&mut rest, events[i].clone());
        }
        i += 1;
    }
    assert(all.take(i as int) =~= all);
    (group, rest)
}

/// Copies of the events of a group that are handled when the group is
/// delivered to `target`.
pub fn handled_events(target: &String, group: Vec<Event>) -> (r: Vec<Event>)
    ensures
        events_view(r@) == SimulationModel::group_handled(target@, events_view(group@)),
{
    if *target == "broadcast".to_owned() {
        return group;
    }
    let sorted = sort_by_priority(group.as_slice());
    let (steps, others) = split_steps(&sorted);
    let chosen = if steps.len() > 0 {
        steps
    } else {
        others
    };
    let mut handled = no_events();
    let mut i: usize = 0;
    while i < chosen.len()
        invariant
            i <= chosen.len(),
            events_view(handled@) == borrowed_view(chosen@).take(i as int),
        decreases chosen.len() - i,
    {
        push_event(&mut handled, chosen[i].clone());
        assert(borrowed_view(chosen@).take(i + 1) =~= borrowed_view(chosen@).take(i as int).push(
            chosen@[i as int]@,
        ));
        i += 1;
    }
    assert(borrowed_view(chosen@).take(i as int) =~= borrowed_view(chosen@));
    handled
}

impl Simulation {
    /// A simulation with the given processes and connections. Nothing runs
    /// yet: the processes hear of the start with the first step.
    pub fn new(processes: Vec<Process>, connections: Vec<Connection>) -> (r: Result<
        Simulation,
        SimulationError,
    >)
        requires
            forall|i: int| 0 <= i < processes@.len() ==> (#[trigger] processes@[i]).wf(),
        ensures
            ({
                let empty = SimulationModel {
                    processes: Seq::empty(),
                    clock: SimulationContext::default_view(),
                    queue: Seq::empty(),
                    event_sequence_number: 0,
                    connection_sequence_number: 0,
                };
                let peopled = empty.with_processes(processes_view(processes@));
                let joined = peopled.model.with_connections(
                    crate::simulator::simulation_context::owned_connections_view(connections@),
                );
                if peopled.error is Some {
                    r matches Err(e) && Some(e@) == peopled.error
                } else if joined.error is Some {
                    r matches Err(e) && Some(e@) == joined.error
                } else {
                    r matches Ok(simulation) && simulation@ == joined.model && simulation.wf()
                }
            }),
    {
        let mut simulation = Simulation::empty();
        assert(simulation@.processes =~= Seq::empty());
        assert(simulation@.queue =~= Seq::empty());
        match simulation.add_processes(processes) {
            Ok(()) => {},
            Err(e) => {
                return Err(e);
            },
        }
        match simulation.add_connections(connections) {
            Ok(()) => {},
            Err(e) => {
                return Err(e);
            },
        }
        Ok(simulation)
    }

    /// Opens the simulation if it has not begun.
    fn open(&mut self) -> (r: Result<(), SimulationError>)
        requires
            old(self).wf(),
        ensures
            final(self).wf(),
            done(old(self)@.started(), final(self)@, r),
            r is Ok ==> final(self)@.budget() == old(self)@.budget(),
    {
        if self.context.current_step() == 0 {
            let start = Event::new(
                "simulation",
                "broadcast",
                self.context.current_time(),
                EventPayload::SimulationStart,
            );
            match self.process_broadcast_event(&start) {
                Ok(events) => self.schedule_events(events),
                Err(e) => Err(e),
            }
        } else {
            Ok(())
        }
    }

    /// Tells every process that the queue has run empty, if it has.
    fn close(&mut self) -> (r: Result<(), SimulationError>)
        requires
            old(self).wf(),
        ensures
            final(self).wf(),
            done(old(self)@.finished(), final(self)@, r),
            final(self)@.budget() == old(self)@.budget(),
    {
        if self.event_queue.is_empty() {
            let end = Event::new(
                "simulation",
                "broadcast",
                self.context.current_time(),
                EventPayload::SimulationEnd,
            );
            match self.process_broadcast_event(&end) {
                Ok(_) => Ok(()),
                Err(e) => Err(e),
            }
        } else {
            Ok(())
        }
    }

    /// Sets the clocks for an event due at `time`.
    fn advance_to(&mut self, time: Fixed)
        requires
            old(self).wf(),
        ensures
            final(self).wf(),
            final(self)@ == old(self)@.advanced_to(time@),
    {
        if time.raw() != self.context.current_time().raw() {
            self.context.increment_current_step();
            self.context.set_current_time(time);
        }
    }

    /// Takes out of the queue every event at its head that is due at the
    /// time of `first_event`, and returns them behind `first_event`.
    pub fn collect_simultaneous_events(&mut self, first_event: Event) -> (r: Vec<Event>)
        requires
            old(self).wf(),
        ensures
            final(self).wf(),
            ({
                let due = due_count(old(self)@.queue, first_event@.time) as int;
                &&& due <= old(self)@.queue.len()
                &&& events_view(r@) == seq![first_event@] + old(self)@.queue.take(due)
                &&& final(self)@ == old(self)@.without_first(due)
            }),
    {
        let time = first_event.time;
        let ghost first = first_event@;
        let ghost queue = self@.queue;
        let waiting = self.event_queue.len();
        let mut events = no_events();
        push_event(&mut events, first_event);
        assert(events_view(events@) =~= seq![first] + queue.take(0));
        assert(queue.skip(0) =~= queue);
        let mut taken: usize = 0;
        let mut more = true;
        while more
            invariant
                self.wf(),
                taken <= queue.len(),
                queue.len() == waiting,
                self@ == old(self)@.without_first(taken as int),
                queue == old(self)@.queue,
                time@ == first.time,
                events_view(events@) == seq![first] + queue.take(taken as int),
                due_count(queue, first.time) == taken + due_count(self@.queue, first.time),
                !more ==> due_count(self@.queue, first.time) == 0,
            decreases self@.queue.len() + (if more { 1nat } else { 0nat }),
        {
            let due = match self.event_queue.peek() {
                Some(event) => event.time.raw() == time.raw(),
                None => false,
            };
            if due {
                let ghost before = self@.queue;
                let ghost so_far = events_view(events@);
                match self.event_queue.pop() {
                    Some(event) => {
                        push_event(&mut events, event);
                        assert(before == queue.skip(taken as int));
                        assert(before.drop_first() =~= queue.skip(taken + 1));
                        assert(queue.take(taken + 1) =~= queue.take(taken as int).push(
                            queue[taken as int],
                        ));
                        assert(events_view(events@) =~= seq![first] + queue.take(taken + 1));
                        taken = taken + 1;
                    },
                    None => {},
                }
            } else {
                more = false;
            }
        }
        events
    }

    /// Hands the events that a batch holds for one target to that target.
    pub fn deliver_group(&mut self, target: &String, group: &Vec<Event>) -> (r: Result<
        Vec<Event>,
        SimulationError,
    >)
        requires
            old(self).wf(),
        ensures
            final(self).wf(),
            ran(old(self)@.group_delivered(target@, events_view(group@)), final(self)@, r),
            final(self)@.budget() == old(self)@.budget(),
    {
        if *target == "broadcast".to_owned() {
            let ghost all = events_view(group@);
            let mut emitted = no_events();
            let mut i: usize = 0;
            while i < group.len()
                invariant
                    i <= group.len(),
                    self.wf(),
                    target@ == broadcast_id(),
                    all == events_view(group@),
                    self@.budget() == old(self)@.budget(),
                    old(self)@.broadcast_each(all.take(i as int)) == (Run {
                        model: self@,
                        events: events_view(emitted@),
                        error: None,
                    }),
                decreases group.len() - i,
            {
                assert(all.take(i + 1).drop_last() =~= all.take(i as int));
                assert(all.take(i + 1).last() == group@[i as int]@);
                let ghost so_far = events_view(emitted@);
                match self.process_broadcast_event(&group[i]) {
                    Ok(mut produced) => {
                        let ghost added = events_view(produced@);
                        emitted.append(&mut produced);
                        assert(events_view(emitted@) =~= so_far + added);
                    },
                    Err(e) => {
                        proof {
                            lemma_broadcasts_failure_stays(old(self)@, all, i as int + 1);
                        }
                        return Err(e);
                    },
                }
                i += 1;
            }
            assert(all.take(i as int) =~= all);
            Ok(emitted)
        } else {
            let at = self.position(target);
            if at < self.processes.len() {
                self.deliver(at, group.as_slice())
            } else {
                Err(SimulationError::ProcessNotFound(target.clone()))
            }
        }
    }

    /// Handles the events that a batch holds for the target of its first
    /// event, and returns the events handled and the rest of the batch.
    pub fn process_first_group(&mut self, events: Vec<Event>) -> (r: Result<
        (Vec<Event>, Vec<Event>),
        SimulationError,
    >)
        requires
            old(self).wf(),
            events@.len() > 0,
        ensures
            final(self).wf(),
            final(self)@ == old(self)@.first_group(events_view(events@)).model,
            match old(self)@.first_group(events_view(events@)).error {
                None => {
                    &&& r matches Ok((handled, rest))
                    &&& events_view(handled@) == old(self)@.first_group(
                        events_view(events@),
                    ).events
                    &&& events_view(rest@) == addressed_elsewhere(
                        events_view(events@),
                        events_view(events@)[0].target_id,
                    )
                    &&& rest@.len() < events@.len()
                    &&& final(self)@.budget() == old(self)@.budget()
                },
                Some(error) => r matches Err(e) && e@ == error,
            },
    {
        let ghost batch = events_view(events@);
        assert(batch[0] == events@[0]@);
        let target = events[0].target_id.clone();
        let (group, rest) = split_by_target(&events, &target);
        proof {
            reveal(SimulationModel::first_group);
            lemma_parts_len(batch, target@);
            lemma_group_not_empty(batch, 0);
        }
        let queued = match self.deliver_group(&target, &group) {
            Ok(emitted) => self.schedule_events(emitted),
            Err(e) => Err(e),
        };
        match queued {
            Ok(()) => Ok((handled_events(&target, group), rest)),
            Err(e) => Err(e),
        }
    }

    /// Handles a batch of events that are due at one time, target by
    /// target, and returns the events handled.
    pub fn process_event_batch(&mut self, events: Vec<Event>) -> (r: Result<
        Vec<Event>,
        SimulationError,
    >)
        requires
            old(self).wf(),
        ensures
            final(self).wf(),
            ran(old(self)@.round(events_view(events@)), final(self)@, r),
            r is Ok ==> final(self)@.budget() == old(self)@.budget(),
    {
        let ghost whole = old(self)@.round(events_view(events@));
        let mut remaining = events;
        let mut processed = no_events();
        proof {
            lemma_preceded_by_none(whole);
        }
        while remaining.len() > 0
            invariant
                self.wf(),
                self@.budget() == old(self)@.budget(),
                whole == old(self)@.round(events_view(events@)),
                whole == preceded_by(
                    events_view(processed@),
                    self@.round(events_view(remaining@)),
                ),
            decreases remaining.len(),
        {
            let ghost so_far = events_view(processed@);
            let ghost before = self@;
            let ghost batch = events_view(remaining@);
            proof {
                lemma_round_unfolds(before, batch);
            }
            match self.process_first_group(remaining) {
                Ok((mut handled, rest)) => {
                    let ghost added = events_view(handled@);
                    processed.append(&mut handled);
                    remaining = rest;
                    proof {
                        assert(events_view(processed@) =~= so_far + added);
                        lemma_preceded_twice(so_far, added, self@.round(events_view(remaining@)));
                    }
                },
                Err(e) => {
                    return Err(e);
                },
            }
        }
        proof {
            lemma_round_of_nothing(self@, events_view(remaining@));
            lemma_preceding_nothing(events_view(processed@), self@);
        }
        Ok(processed)
    }
}

impl Simulation {
    /// Hands an event to every process if it is addressed to all, and to
    /// its target otherwise, and queues what comes back.
    fn dispatch(&mut self, event: &Event) -> (r: Result<(), SimulationError>)
        requires
            old(self).wf(),
        ensures
            final(self).wf(),
            done(
                SimulationModel::scheduled(old(self)@.dispatched(event@)),
                final(self)@,
                r,
            ),
            r is Ok ==> final(self)@.budget() == old(self)@.budget(),
    {
        let emitted = if event.target_id == "broadcast".to_owned() {
            self.process_broadcast_event(event)
        } else {
            self.process_event(event)
        };
        match emitted {
            Ok(events) => self.schedule_events(events),
            Err(e) => Err(e),
        }
    }

    /// Handles exactly one event, and returns it; returns nothing where the
    /// queue is empty.
    pub fn next(&mut self) -> (r: Result<Vec<Event>, SimulationError>)
        requires
            old(self).wf(),
        ensures
            final(self).wf(),
            ran(old(self)@.next(), final(self)@, r),
    {
        match self.open() {
            Ok(()) => {},
            Err(e) => {
                return Err(e);
            },
        }
        let ghost opened = self@;
        match self.event_queue.pop() {
            Some(event) => {
                assert(self@ == opened.without_first(1)) by {
                    assert(opened.queue.drop_first() =~= opened.queue.skip(1));
                }
                self.advance_to(event.time);
                match self.dispatch(&event) {
                    Ok(()) => {},
                    Err(e) => {
                        return Err(e);
                    },
                }
                match self.close() {
                    Ok(()) => {
                        let mut processed = no_events();
                        push_event(&mut processed, event);
                        assert(events_view(processed@) =~= seq![event@]);
                        Ok(processed)
                    },
                    Err(e) => Err(e),
                }
            },
            None => match self.close() {
                Ok(()) => Ok(no_events()),
                Err(e) => Err(e),
            },
        }
    }
}

impl Simulation {
    /// Takes out of the queue the events that are due at the time of its
    /// first event.
    fn take_due(&mut self) -> (r: Vec<Event>)
        requires
            old(self).wf(),
            old(self)@.queue.len() > 0,
        ensures
            final(self).wf(),
            ({
                let due = due_count(old(self)@.queue, old(self)@.queue[0].time) as int;
                &&& 1 <= due <= old(self)@.queue.len()
                &&& r@.len() == due
                &&& events_view(r@) == old(self)@.queue.take(due)
                &&& final(self)@ == old(self)@.without_first(due)
                &&& final(self)@.budget() + due == old(self)@.budget()
            }),
    {
        proof {
            lemma_due_head(self@.queue);
        }
        let ghost before = self@;
        match self.event_queue.pop() {
            Some(first) => {
                let ghost popped = self@;
                assert(popped.queue == before.queue.drop_first());
                let events = self.collect_simultaneous_events(first);
                let ghost behind = due_count(popped.queue, first@.time) as int;
                assert(events_view(events@).len() == events@.len());
                assert(self@.queue == before.queue.skip(1 + behind));
                assert(self@.queue.len() + 1 + behind == before.queue.len());
                events
            },
            None => no_events(),
        }
    }

    /// Whether an event is due at the current time.
    fn more_due(&self) -> (r: bool)
        ensures
            r == (due_count(self@.queue, self@.clock.current_time) > 0),
    {
        match self.event_queue.peek() {
            Some(event) => event.time.raw() == self.context.current_time().raw(),
            None => false,
        }
    }

    /// Handles a batch, and then every further batch of events that have
    /// become due at the current time.
    fn run_rounds(&mut self, batch: Vec<Event>, Ghost(fuel): Ghost<nat>) -> (r: Result<
        Vec<Event>,
        SimulationError,
    >)
        requires
            old(self).wf(),
            fuel >= old(self)@.budget() + batch@.len(),
            batch@.len() > 0,
        ensures
            final(self).wf(),
            ran(old(self)@.rounds(events_view(batch@), fuel), final(self)@, r),
            r is Ok ==> final(self)@.budget() <= old(self)@.budget(),
    {
        let ghost whole = old(self)@.rounds(events_view(batch@), fuel);
        let ghost mut left = fuel;
        let mut batch = batch;
        let mut processed = no_events();
        let mut failure: Option<SimulationError> = None;
        let mut more = true;
        proof {
            lemma_preceded_by_none(whole);
        }
        while more
            invariant
                self.wf(),
                more ==> failure is None,
                more ==> batch@.len() > 0,
                more ==> left >= self@.budget() + batch@.len(),
                more ==> self@.budget() <= old(self)@.budget(),
                more ==> whole == preceded_by(
                    events_view(processed@),
                    self@.rounds(events_view(batch@), left),
                ),
                !more ==> whole.model == self@,
                !more ==> match failure {
                    Some(e) => whole.error == Some(e@),
                    None => whole.error is None && whole.events == events_view(processed@)
                        && self@.budget() <= old(self)@.budget(),
                },
            decreases
                    (if more {
                        left + 1
                    } else {
                        0
                    }),
        {
            let ghost so_far = events_view(processed@);
            let ghost before = self@;
            proof {
                lemma_rounds_unfold(before, events_view(batch@), left);
            }
            match self.process_event_batch(batch) {
                Ok(mut handled) => {
                    let ghost added = events_view(handled@);
                    processed.append(&mut handled);
                    assert(events_view(processed@) =~= so_far + added);
                    if self.more_due() {
                        let ghost first = self@;
                        batch = self.take_due();
                        proof {
                            let due = due_count(first.queue, first.clock.current_time);
                            assert(first.queue[0].time == first.clock.current_time);
                            left = (left - 1) as nat;
                            lemma_preceded_twice(
                                so_far,
                                added,
                                self@.rounds(events_view(batch@), left),
                            );
                        }
                    } else {
                        batch = no_events();
                        more = false;
                        proof {
                            assert(so_far + added =~= events_view(processed@));
                        }
                    }
                },
                Err(e) => {
                    batch = no_events();
                    failure = Some(e);
                    more = false;
                },
            }
        }
        match failure {
            Some(e) => Err(e),
            None => Ok(processed),
        }
    }

    /// Handles every event that is due at the time of the earliest event,
    /// and returns the events handled.
    pub fn step(&mut self) -> (r: Result<Vec<Event>, SimulationError>)
        requires
            old(self).wf(),
        ensures
            final(self).wf(),
            ran(old(self)@.step(), final(self)@, r),
            r matches Ok(events) ==> events@.len() == 0 || final(self)@.budget() < old(
                self,
            )@.budget(),
    {
        match self.open() {
            Ok(()) => {},
            Err(e) => {
                return Err(e);
            },
        }
        let time = match self.event_queue.peek() {
            Some(event) => event.time,
            None => {
                return match self.close() {
                    Ok(()) => Ok(no_events()),
                    Err(e) => Err(e),
                };
            },
        };
        self.advance_to(time);
        let ghost fuel = self@.budget();
        let batch = self.take_due();
        let processed = match self.run_rounds(batch, Ghost(fuel)) {
            Ok(processed) => processed,
            Err(e) => {
                return Err(e);
            },
        };
        match self.close() {
            Ok(()) => Ok(processed),
            Err(e) => Err(e),
        }
    }

    /// Steps `n` times and returns all events handled.
    pub fn step_n(&mut self, n: usize) -> (r: Result<Vec<Event>, SimulationError>)
        requires
            old(self).wf(),
        ensures
            final(self).wf(),
            ran(old(self)@.steps(n as nat), final(self)@, r),
    {
        let mut processed = no_events();
        let mut i: usize = 0;
        proof {
            lemma_steps_unfold(old(self)@, 0);
        }
        while i < n
            invariant
                i <= n,
                self.wf(),
                old(self)@.steps(i as nat) == (Run {
                    model: self@,
                    events: events_view(processed@),
                    error: None,
                }),
            decreases n - i,
        {
            let ghost so_far = events_view(processed@);
            proof {
                lemma_steps_unfold(old(self)@, (i + 1) as nat);
            }
            match self.step() {
                Ok(mut events) => {
                    let ghost added = events_view(events@);
                    processed.append(&mut events);
                    assert(events_view(processed@) =~= so_far + added);
                },
                Err(e) => {
                    proof {
                        lemma_steps_failure_stays(old(self)@, (i + 1) as nat, n as nat);
                    }
                    return Err(e);
                },
            }
            i += 1;
        }
        Ok(processed)
    }

    /// Steps while the current time has not passed `until`, and returns
    /// all events handled. Stops early when the queue has run empty.
    pub fn step_until(&mut self, until: Fixed) -> (r: Result<Vec<Event>, SimulationError>)
        requires
            old(self).wf(),
        ensures
            final(self).wf(),
            ran(old(self)@.until(until@, old(self)@.budget()), final(self)@, r),
    {
        let ghost whole = old(self)@.until(until@, old(self)@.budget());
        let ghost mut left = old(self)@.budget();
        let mut processed = no_events();
        let mut failure: Option<SimulationError> = None;
        let mut more = true;
        proof {
            lemma_preceded_by_none(whole);
        }
        while more
            invariant
                self.wf(),
                more ==> failure is None,
                more ==> left >= self@.budget(),
                more ==> whole == preceded_by(events_view(processed@), self@.until(until@, left)),
                !more ==> whole.model == self@,
                !more ==> match failure {
                    Some(e) => whole.error == Some(e@),
                    None => whole.error is None && whole.events == events_view(processed@),
                },
            decreases
                    (if more {
                        left + 1
                    } else {
                        0
                    }),
        {
            let ghost so_far = events_view(processed@);
            let ghost before = self@;
            proof {
                lemma_until_unfolds(before, until@, left);
            }
            let now = self.context.current_time();
            let limit = until.checked_add(Fixed::epsilon());
            assert(limit is None ==> until@ + 1 > i64::MAX);
            let due = match limit {
                Some(limit) => now.raw() < limit.raw(),
                None => true,
            };
            assert(due == before.before_or_at(until@));
            if due {
                match self.step() {
                    Ok(mut events) => {
                        let handled = events.len();
                        let ghost added = events_view(events@);
                        assert(added.len() == events@.len());
                        processed.append(&mut events);
                        assert(events_view(processed@) =~= so_far + added);
                        if handled == 0 {
                            more = false;
                        } else {
                            proof {
                                left = (left - 1) as nat;
                                lemma_preceded_twice(so_far, added, self@.until(until@, left));
                            }
                        }
                    },
                    Err(e) => {
                        failure = Some(e);
                        more = false;
                    },
                }
            } else {
                more = false;
                proof {
                    lemma_preceding_nothing(so_far, before);
                }
            }
        }
        match failure {
            Some(e) => Err(e),
            None => Ok(processed),
        }
    }

    /// Handles, one by one, the events at the head of the queue that are
    /// due at `time`, queues what comes back, and returns the events
    /// handled.
    pub fn process_events_at(&mut self, time: Fixed) -> (r: Result<Vec<Event>, SimulationError>)
        requires
            old(self).wf(),
        ensures
            final(self).wf(),
            ran(old(self)@.drained_at(time@, old(self)@.budget()), final(self)@, r),
    {
        let ghost whole = old(self)@.drained_at(time@, old(self)@.budget());
        let ghost mut left = old(self)@.budget();
        let mut processed = no_events();
        let mut failure: Option<SimulationError> = None;
        let mut more = true;
        proof {
            lemma_preceded_by_none(whole);
        }
        while more
            invariant
                self.wf(),
                more ==> failure is None,
                more ==> left >= self@.budget(),
                more ==> whole == preceded_by(
                    events_view(processed@),
                    self@.drained_at(time@, left),
                ),
                !more ==> whole.model == self@,
                !more ==> match failure {
                    Some(e) => whole.error == Some(e@),
                    None => whole.error is None && whole.events == events_view(processed@),
                },
            decreases
                    (if more {
                        left + 1
                    } else {
                        0
                    }),
        {
            let ghost so_far = events_view(processed@);
            let ghost before = self@;
            proof {
                lemma_drained_unfolds(before, time@, left);
            }
            let due = match self.event_queue.peek() {
                Some(event) => event.time.raw() == time.raw(),
                None => false,
            };
            if due {
                match self.event_queue.pop() {
                    Some(event) => {
                        assert(self@ == before.without_first(1)) by {
                            assert(before.queue.drop_first() =~= before.queue.skip(1));
                        }
                        match self.dispatch(&event) {
                            Ok(()) => {
                                push_event(&mut processed, event);
                                proof {
                                    left = (left - 1) as nat;
                                    assert(events_view(processed@) =~= so_far + seq![event@]);
                                    lemma_preceded_twice(
                                        so_far,
                                        seq![event@],
                                        self@.drained_at(time@, left),
                                    );
                                }
                            },
                            Err(e) => {
                                failure = Some(e);
                                more = false;
                            },
                        }
                    },
                    None => {
                        more = false;
                    },
                }
            } else {
                more = false;
                proof {
                    lemma_preceding_nothing(so_far, before);
                }
            }
        }
        match failure {
            Some(e) => Err(e),
            None => Ok(processed),
        }
    }
}

impl Simulation {
    /// The clocks and the state of every process.
    pub fn get_simulation_state(&self) -> (r: SimulationState)
        ensures
            r.step == self@.clock.current_step,
            r.time@ == self@.clock.current_time,
            r.process_states@ == Seq::new(
                self@.processes.len(),
                |i: int| (self@.processes[i].id(), self@.processes[i].state()),
            ),
    {
        let mut states = ProcessStates::new();
        let mut i: usize = 0;
        while i < self.processes.len()
            invariant
                i <= self.processes.len(),
                states@ == Seq::new(
                    i as nat,
                    |k: int| (self@.processes[k].id(), self@.processes[k].state()),
                ),
            decreases self.processes.len() - i,
        {
            let ghost before = states@;
            states.push(self.processes[i].id().to_owned(), self.processes[i].get_state());
            assert(states@ =~= Seq::new(
                (i + 1) as nat,
                |k: int| (self@.processes[k].id(), self@.processes[k].state()),
            ));
            i += 1;
        }
        SimulationState {
            step: self.context.current_step(),
            time: self.context.current_time(),
            process_states: states,
        }
    }

    /// Returns the simulation to where it was before it ran: every process
    /// in its default state, the clocks at the start, the queue empty.
    pub fn reset(&mut self) -> (r: Result<(), SimulationError>)
        requires
            old(self).wf(),
        ensures
            final(self).wf(),
            r is Ok,
            final(self)@ == old(self)@.reset(),
    {
        let ghost before = self@.processes;
        let mut i: usize = 0;
        while i < self.processes.len()
            invariant
                i <= self.processes.len(),
                self@.processes.len() == before.len(),
                before == old(self)@.processes,
                all_valid(before),
                distinct_ids(before),
                self.context == old(self).context,
                self.event_sequence_number == old(self).event_sequence_number,
                self.connection_sequence_number == old(self).connection_sequence_number,
                forall|k: int| 0 <= k < i ==> (#[trigger] self@.processes[k]) == before[k].reset(),
                forall|k: int| i <= k < before.len() ==> (#[trigger] self@.processes[k]) == before[k],
            decreases self.processes.len() - i,
        {
            let ghost current = self@.processes;
            assert(current[i as int] == before[i as int]);
            assert(before[i as int].valid());
            self.processes[i].reset();
            assert forall|k: int| 0 <= k < before.len() && k != i implies (
            #[trigger] self@.processes[k]) == current[k] by {}
            i += 1;
        }
        self.context.reset();
        self.event_queue.clear();
        assert(self@.processes =~= Seq::new(before.len(), |i: int| before[i].reset()));
        assert(all_valid(self@.processes)) by {
            assert forall|k: int| 0 <= k < self@.processes.len() implies (
            #[trigger] self@.processes[k]).valid() by {
                assert(before[k].valid());
                assert(self@.processes[k] == before[k].reset());
            }
        }
        assert(distinct_ids(self@.processes)) by {
            assert forall|a: int, b: int| 0 <= a < b < self@.processes.len() implies (
            #[trigger] self@.processes[a]).id() != (#[trigger] self@.processes[b]).id() by {
                assert(before[a].id() != before[b].id());
                assert(self@.processes[a] == before[a].reset());
                assert(self@.processes[b] == before[b].reset());
            }
        }
        Ok(())
    }
}

/// Once one of a run of broadcasts has failed, the events behind it are
/// not handed out.
pub proof fn lemma_broadcasts_failure_stays(m: SimulationModel, events: Seq<EventView>, n: int)
    requires
        0 <= n <= events.len(),
        m.broadcast_each(events.take(n)).error is Some,
    ensures
        m.broadcast_each(events) == m.broadcast_each(events.take(n)),
    decreases events.len() - n,
{
    if n == events.len() {
        assert(events.take(n) =~= events);
    } else {
        assert(events.take(n + 1).drop_last() =~= events.take(n));
        lemma_broadcasts_failure_stays(m, events, n + 1);
    }
}

/// A batch that holds a copy of one event.
pub fn one_event(event: &Event) -> (r: Vec<Event>)
    ensures
        events_view(r@) == seq![event@],
{
    let mut batch = no_events();
    push_event(&mut batch, event.clone());
    assert(events_view(batch@) =~= seq![event@]);
    batch
}

/// Once a broadcast has failed at some process, the processes behind it
/// are not reached.
pub proof fn lemma_broadcast_failure_stays(m: SimulationModel, event: EventView, n: nat, all: nat)
    requires
        n <= all,
        m.broadcast_to(event, n).error is Some,
    ensures
        m.broadcast_to(event, all) == m.broadcast_to(event, n),
    decreases all - n,
{
    if n < all {
        lemma_broadcast_failure_stays(m, event, n + 1, all);
    }
}

/// Once queueing has failed, more events change nothing.
pub proof fn lemma_scheduling_failure_stays(m: SimulationModel, events: Seq<EventView>, n: int)
    requires
        0 <= n <= events.len(),
        m.schedule_all(events.take(n)).error is Some,
    ensures
        m.schedule_all(events) == m.schedule_all(events.take(n)),
    decreases events.len() - n,
{
    if n == events.len() {
        assert(events.take(n) =~= events);
    } else {
        assert(events.take(n + 1).drop_last() =~= events.take(n));
        lemma_scheduling_failure_stays(m, events, n + 1);
    }
}

/// Once registering connections has failed, more connections change
/// nothing.
pub proof fn lemma_connection_failure_stays(
    m: SimulationModel,
    connections: Seq<crate::model::connection::ConnectionView>,
    n: int,
)
    requires
        0 <= n <= connections.len(),
        m.with_connections(connections.take(n)).error is Some,
    ensures
        m.with_connections(connections) == m.with_connections(connections.take(n)),
    decreases connections.len() - n,
{
    if n == connections.len() {
        assert(connections.take(n) =~= connections);
    } else {
        assert(connections.take(n + 1).drop_last() =~= connections.take(n));
        lemma_connection_failure_stays(m, connections, n + 1);
    }
}

/// Once adding processes has failed, more processes change nothing.
pub proof fn lemma_addition_failure_stays(m: SimulationModel, processes: Seq<ProcessModel>, n: int)
    requires
        0 <= n <= processes.len(),
        m.with_processes(processes.take(n)).error is Some,
    ensures
        m.with_processes(processes) == m.with_processes(processes.take(n)),
    decreases processes.len() - n,
{
    if n == processes.len() {
        assert(processes.take(n) =~= processes);
    } else {
        assert(processes.take(n + 1).drop_last() =~= processes.take(n));
        lemma_addition_failure_stays(m, processes, n + 1);
    }
}

} // verus!
