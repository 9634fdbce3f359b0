//! What the scheduler does, stated over mathematical values.
//!
//! Every operation of the scheduler is a function from the simulation
//! before to the simulation after, together with the events it hands back
//! or the failure that stopped it. The executable scheduler is proved to
//! compute these functions.

use crate::fixed::EPSILON_RAW;
use crate::model::connection::ConnectionView;
use crate::model::nodes::event_priority::{handled_of, react_to_batch};
use crate::model::process_context::ContextView;
use crate::model::process_trait::ProcessModel;
use crate::simulator::event::{plain_event, EventView, PayloadView};
use crate::simulator::event_queue::{enqueue, in_order};
use crate::simulator::simulation_context::{position_of, without_id, ClockView};
use crate::utils::errors::{sequence_exhausted, ErrorView};
use vstd::prelude::*;

verus! {

/// The mathematical value of a simulation.
pub struct SimulationModel {
    /// The processes, in the order in which they were added.
    pub processes: Seq<ProcessModel>,
    /// The clocks and the connections.
    pub clock: ClockView,
    /// The events still to be handled, in the order in which they will be.
    pub queue: Seq<EventView>,
    /// The sequence number that the next event queued will get.
    pub event_sequence_number: u64,
    /// The sequence number that the next connection added will get.
    pub connection_sequence_number: u64,
}

/// Where an operation of the scheduler leads: the simulation afterwards,
/// the events handed back, and the failure that stopped the operation, if
/// any. Where there is a failure, the events say nothing.
pub struct Run {
    pub model: SimulationModel,
    pub events: Seq<EventView>,
    pub error: Option<ErrorView>,
}

/// The position of the first process with identifier `id`, or the number of
/// processes where there is none.
pub open spec fn index_of(processes: Seq<ProcessModel>, id: Seq<char>) -> int
    decreases processes.len(),
{
    if processes.len() == 0 {
        0
    } else if processes[0].id() == id {
        0
    } else {
        1 + index_of(processes.drop_first(), id)
    }
}

/// Whether no two processes share an identifier.
pub open spec fn distinct_ids(processes: Seq<ProcessModel>) -> bool {
    forall|i: int, j: int|
        0 <= i < j < processes.len() ==> #[trigger] processes[i].id() != #[trigger] processes[j].id()
}

/// Whether every process is within the bounds of its kind.
pub open spec fn all_valid(processes: Seq<ProcessModel>) -> bool {
    forall|i: int| 0 <= i < processes.len() ==> (#[trigger] processes[i]).valid()
}

/// The name under which an event is addressed to every process.
pub open spec fn broadcast_id() -> Seq<char> {
    "broadcast"@
}

/// The name under which the scheduler itself sends events.
pub open spec fn simulation_id() -> Seq<char> {
    "simulation"@
}

/// The event with which the scheduler opens a simulation.
pub open spec fn start_event(time: int) -> EventView {
    plain_event(simulation_id(), broadcast_id(), time, PayloadView::SimulationStart)
}

/// The event with which the scheduler tells that the queue has run empty.
pub open spec fn end_event(time: int) -> EventView {
    plain_event(simulation_id(), broadcast_id(), time, PayloadView::SimulationEnd)
}

/// What is wrong with a port named for `process`, if anything: a port is
/// in order where none is named or the process declares it.
pub open spec fn port_error(process: ProcessModel, port: Option<Seq<char>>, input: bool) -> Option<
    ErrorView,
> {
    match port {
        Some(p) => {
            let declared = if input {
                process.input_ports()
            } else {
                process.output_ports()
            };
            if declared.contains(p) {
                None
            } else {
                Some(
                    ErrorView::InvalidPort {
                        process: process.id(),
                        port: p,
                        port_type: if input {
                            "input"@
                        } else {
                            "output"@
                        },
                    },
                )
            }
        },
        None => None,
    }
}

/// What is wrong with an event that is to be queued, if anything. Events
/// to every process and events from the scheduler are always in order; of
/// every other event the target is checked first, then the source.
pub open spec fn event_error(processes: Seq<ProcessModel>, e: EventView) -> Option<ErrorView> {
    if e.target_id == broadcast_id() || e.source_id == simulation_id() {
        None
    } else {
        let target = index_of(processes, e.target_id);
        let source = index_of(processes, e.source_id);
        if target == processes.len() {
            Some(ErrorView::ProcessNotFound(e.target_id))
        } else if port_error(processes[target], e.target_port, true) is Some {
            port_error(processes[target], e.target_port, true)
        } else if source == processes.len() {
            Some(ErrorView::ProcessNotFound(e.source_id))
        } else {
            port_error(processes[source], e.source_port, false)
        }
    }
}

/// What is wrong with a connection that is to be registered, if anything:
/// the source is checked first, then the target.
pub open spec fn connection_error(processes: Seq<ProcessModel>, c: ConnectionView) -> Option<
    ErrorView,
> {
    let source = index_of(processes, c.source_id);
    let target = index_of(processes, c.target_id);
    if source == processes.len() {
        Some(ErrorView::ProcessNotFound(c.source_id))
    } else if port_error(processes[source], c.source_port, false) is Some {
        port_error(processes[source], c.source_port, false)
    } else if target == processes.len() {
        Some(ErrorView::ProcessNotFound(c.target_id))
    } else {
        port_error(processes[target], c.target_port, true)
    }
}

/// The events among `events` that are addressed to `target`, in order.
pub open spec fn addressed_to(events: Seq<EventView>, target: Seq<char>) -> Seq<EventView>
    decreases events.len(),
{
    if events.len() == 0 {
        Seq::empty()
    } else if events.last().target_id == target {
        addressed_to(events.drop_last(), target).push(events.last())
    } else {
        addressed_to(events.drop_last(), target)
    }
}

/// The events among `events` that are not addressed to `target`, in order.
pub open spec fn addressed_elsewhere(events: Seq<EventView>, target: Seq<char>) -> Seq<EventView>
    decreases events.len(),
{
    if events.len() == 0 {
        Seq::empty()
    } else if events.last().target_id == target {
        addressed_elsewhere(events.drop_last(), target)
    } else {
        addressed_elsewhere(events.drop_last(), target).push(events.last())
    }
}

/// The two parts into which a target divides a batch are together as long
/// as the batch.
pub proof fn lemma_parts_len(events: Seq<EventView>, target: Seq<char>)
    ensures
        addressed_to(events, target).len() + addressed_elsewhere(events, target).len()
            == events.len(),
    decreases events.len(),
{
    if events.len() > 0 {
        lemma_parts_len(events.drop_last(), target);
    }
}

/// The events addressed to the target of some event of the batch are at
/// least one.
pub proof fn lemma_group_not_empty(events: Seq<EventView>, i: int)
    requires
        0 <= i < events.len(),
    ensures
        addressed_to(events, events[i].target_id).len() > 0,
    decreases events.len(),
{
    if i < events.len() - 1 {
        assert(events.drop_last()[i] == events[i]);
        lemma_group_not_empty(events.drop_last(), i);
    }
}

/// How many events at the head of the queue are due at `time`.
pub open spec fn due_count(queue: Seq<EventView>, time: int) -> nat
    decreases queue.len(),
{
    if queue.len() > 0 && queue[0].time == time {
        1 + due_count(queue.drop_first(), time)
    } else {
        0
    }
}

/// No more events are due than the queue holds.
pub proof fn lemma_due_count_bound(queue: Seq<EventView>, time: int)
    ensures
        due_count(queue, time) <= queue.len(),
    decreases queue.len(),
{
    if queue.len() > 0 && queue[0].time == time {
        lemma_due_count_bound(queue.drop_first(), time);
    }
}

/// A run with `events` put before the events it hands back.
pub open spec fn preceded_by(events: Seq<EventView>, run: Run) -> Run {
    Run { events: events + run.events, ..run }
}

impl SimulationModel {
    /// The bounds a simulation keeps: every process is within the bounds of
    /// its kind, no two processes share an identifier, and the queue is in
    /// order.
    pub open spec fn valid(self) -> bool {
        &&& all_valid(self.processes)
        &&& distinct_ids(self.processes)
        &&& in_order(self.queue)
    }

    /// The simulation without failure and without events to hand back.
    pub open spec fn unchanged(self) -> Run {
        Run { model: self, events: Seq::empty(), error: None }
    }

    /// The simulation stopped by `error`.
    pub open spec fn failed(self, error: ErrorView) -> Run {
        Run { model: self, events: Seq::empty(), error: Some(error) }
    }

    /// What the process `id` sees of the simulation.
    pub open spec fn context_of(self, id: Seq<char>) -> ContextView {
        self.clock.context_for_process(id)
    }

    /// How many more events can certainly be taken from the queue: each
    /// event queued uses up a sequence number, and each event taken leaves
    /// the queue shorter.
    pub open spec fn budget(self) -> nat {
        ((u64::MAX - self.event_sequence_number) + self.queue.len()) as nat
    }

    /// Hands a batch to the process at position `i`.
    pub open spec fn deliver(self, i: int, batch: Seq<EventView>) -> Run {
        let outcome = react_to_batch(
            self.processes[i],
            batch,
            self.context_of(self.processes[i].id()),
        );
        Run {
            model: SimulationModel { processes: self.processes.update(i, outcome.model), ..self },
            events: outcome.events,
            error: outcome.error,
        }
    }

    /// Hands an event to each of the first `n` processes in turn, up to the
    /// first failure, and collects what they emit.
    pub open spec fn broadcast_to(self, event: EventView, n: nat) -> Run
        decreases n,
    {
        if n == 0 {
            self.unchanged()
        } else {
            let before = self.broadcast_to(event, (n - 1) as nat);
            if before.error is Some {
                before
            } else {
                let last = before.model.deliver(n - 1, seq![event]);
                Run { model: last.model, events: before.events + last.events, error: last.error }
            }
        }
    }

    /// Hands an event to every process.
    pub open spec fn broadcast(self, event: EventView) -> Run {
        self.broadcast_to(event, self.processes.len())
    }

    /// Hands an event to its target.
    pub open spec fn process_event(self, event: EventView) -> Run {
        let i = index_of(self.processes, event.target_id);
        if i < self.processes.len() {
            self.deliver(i, seq![event])
        } else {
            self.failed(ErrorView::ProcessNotFound(event.target_id))
        }
    }

    /// Hands an event to every process if it is addressed to all, and to
    /// its target otherwise.
    pub open spec fn dispatched(self, event: EventView) -> Run {
        if event.target_id == broadcast_id() {
            self.broadcast(event)
        } else {
            self.process_event(event)
        }
    }

    /// Queues an event under the next sequence number, if the event is in
    /// order and a sequence number is left.
    pub open spec fn schedule(self, event: EventView) -> Run {
        match event_error(self.processes, event) {
            Some(error) => self.failed(error),
            None => if self.event_sequence_number == u64::MAX {
                self.failed(sequence_exhausted())
            } else {
                SimulationModel {
                    queue: enqueue(
                        self.queue,
                        EventView { sequence_number: self.event_sequence_number, ..event },
                    ),
                    event_sequence_number: (self.event_sequence_number + 1) as u64,
                    ..self
                }.unchanged()
            },
        }
    }

    /// Queues events one after the other, up to the first failure.
    pub open spec fn schedule_all(self, events: Seq<EventView>) -> Run
        decreases events.len(),
    {
        if events.len() == 0 {
            self.unchanged()
        } else {
            let before = self.schedule_all(events.drop_last());
            if before.error is Some {
                before
            } else {
                before.model.schedule(events.last())
            }
        }
    }

    /// Queues what a run handed back, unless the run failed.
    pub open spec fn scheduled(run: Run) -> Run {
        if run.error is Some {
            Run { events: Seq::empty(), ..run }
        } else {
            run.model.schedule_all(run.events)
        }
    }

    /// Opens the simulation if it has not begun: while the step counter is
    /// at zero, every process is told of the start, and what the processes
    /// emit is queued.
    pub open spec fn started(self) -> Run {
        if self.clock.current_step == 0 {
            Self::scheduled(self.broadcast(start_event(self.clock.current_time)))
        } else {
            self.unchanged()
        }
    }

    /// Tells every process that the queue has run empty, if it has. What
    /// the processes emit in answer is dropped.
    pub open spec fn finished(self) -> Run {
        if self.queue.len() == 0 {
            Run { events: Seq::empty(), ..self.broadcast(end_event(self.clock.current_time)) }
        } else {
            self.unchanged()
        }
    }

    /// The simulation with its clocks set for an event due at `time`: where
    /// that is not the current time, one more step is counted and the time
    /// moves there.
    pub open spec fn advanced_to(self, time: int) -> SimulationModel {
        if time != self.clock.current_time {
            SimulationModel {
                clock: ClockView {
                    current_step: if self.clock.current_step < u64::MAX {
                        (self.clock.current_step + 1) as u64
                    } else {
                        u64::MAX
                    },
                    current_time: time,
                    ..self.clock
                },
                ..self
            }
        } else {
            self
        }
    }

    /// The simulation without the first `n` events of its queue.
    pub open spec fn without_first(self, n: int) -> SimulationModel {
        SimulationModel { queue: self.queue.skip(n), ..self }
    }

    /// Handles exactly one event: opens the simulation if need be, takes
    /// the earliest event, hands it to its target and queues what comes
    /// back; then tells the processes if the queue has run empty. Hands
    /// back the event handled, if there was one.
    pub open spec fn next(self) -> Run {
        let opened = self.started();
        if opened.error is Some {
            opened
        } else if opened.model.queue.len() == 0 {
            opened.model.finished()
        } else {
            let event = opened.model.queue[0];
            let taken = opened.model.without_first(1).advanced_to(event.time);
            let queued = Self::scheduled(taken.dispatched(event));
            if queued.error is Some {
                queued
            } else {
                Run { events: seq![event], ..queued.model.finished() }
            }
        }
    }

    /// Hands an event to every process for each event of the sequence, up
    /// to the first failure, and collects what the processes emit.
    pub open spec fn broadcast_each(self, events: Seq<EventView>) -> Run
        decreases events.len(),
    {
        if events.len() == 0 {
            self.unchanged()
        } else {
            let before = self.broadcast_each(events.drop_last());
            if before.error is Some {
                before
            } else {
                let last = before.model.broadcast(events.last());
                Run { model: last.model, events: before.events + last.events, error: last.error }
            }
        }
    }

    /// Hands the events that a batch holds for one target to that target:
    /// one by one to every process where they are addressed to all, and as
    /// one batch otherwise.
    pub open spec fn group_delivered(self, target: Seq<char>, group: Seq<EventView>) -> Run {
        if target == broadcast_id() {
            self.broadcast_each(group)
        } else {
            let i = index_of(self.processes, target);
            if i < self.processes.len() {
                self.deliver(i, group)
            } else {
                self.failed(ErrorView::ProcessNotFound(target))
            }
        }
    }

    /// The events of a group that are handled when the group is delivered:
    /// all of them where they go to every process, and otherwise those that
    /// the order of handling lets through.
    pub open spec fn group_handled(target: Seq<char>, group: Seq<EventView>) -> Seq<EventView> {
        if target == broadcast_id() {
            group
        } else {
            handled_of(group)
        }
    }

    /// Handles the events that a batch holds for the target of its first
    /// event: delivers them and queues what comes back. Hands back the
    /// events handled.
    #[verifier::opaque]
    pub open spec fn first_group(self, batch: Seq<EventView>) -> Run {
        let target = batch[0].target_id;
        let group = addressed_to(batch, target);
        Run {
            events: Self::group_handled(target, group),
            ..Self::scheduled(self.group_delivered(target, group))
        }
    }

    /// Handles a batch of events that are due at one time: target by
    /// target, in the order in which the targets first occur, each target's
    /// events are delivered and what comes back is queued. Hands back the
    /// events handled.
    #[verifier::opaque]
    pub open spec fn round(self, batch: Seq<EventView>) -> Run
        decreases batch.len(),
    {
        if batch.len() == 0 {
            self.unchanged()
        } else {
            let first = self.first_group(batch);
            if first.error is Some {
                first
            } else {
                proof {
                    lemma_parts_len(batch, batch[0].target_id);
                    lemma_group_not_empty(batch, 0);
                }
                preceded_by(
                    first.events,
                    first.model.round(addressed_elsewhere(batch, batch[0].target_id)),
                )
            }
        }
    }

    /// Handles a batch, and then every further batch of events that have
    /// become due at the current time, until none is left or one fails.
    /// `fuel` bounds the number of batches; the budget of the simulation is
    /// always enough.
    #[verifier::opaque]
    pub open spec fn rounds(self, batch: Seq<EventView>, fuel: nat) -> Run
        decreases fuel,
    {
        let first = self.round(batch);
        let due = due_count(first.model.queue, first.model.clock.current_time);
        if first.error is Some || fuel == 0 || due == 0 {
            first
        } else {
            let later = first.model.without_first(due as int).rounds(
                first.model.queue.take(due as int),
                (fuel - 1) as nat,
            );
            preceded_by(first.events, later)
        }
    }

    /// Handles every event that is due at the time of the earliest event:
    /// opens the simulation if need be, moves the clocks to the earliest
    /// event, handles batch after batch until no event is due at that time,
    /// and tells the processes if the queue has run empty. Hands back the
    /// events handled.
    pub open spec fn step(self) -> Run {
        let opened = self.started();
        if opened.error is Some {
            opened
        } else if opened.model.queue.len() == 0 {
            opened.model.finished()
        } else {
            let time = opened.model.queue[0].time;
            let moved = opened.model.advanced_to(time);
            let due = due_count(moved.queue, time);
            let handled = moved.without_first(due as int).rounds(
                moved.queue.take(due as int),
                moved.budget(),
            );
            if handled.error is Some {
                handled
            } else {
                Run { events: handled.events, ..handled.model.finished() }
            }
        }
    }

    /// Steps `n` times, up to the first failure, and hands back all events
    /// handled.
    #[verifier::opaque]
    pub open spec fn steps(self, n: nat) -> Run
        decreases n,
    {
        if n == 0 {
            self.unchanged()
        } else {
            let before = self.steps((n - 1) as nat);
            if before.error is Some {
                before
            } else {
                preceded_by(before.events, before.model.step())
            }
        }
    }

    /// Whether the current time has not passed `until`, within the
    /// tolerance.
    pub open spec fn before_or_at(self, until: int) -> bool {
        self.clock.current_time < until + EPSILON_RAW
    }

    /// Steps while the current time has not passed `until`, and stops when
    /// a step fails or handles nothing, which is when the queue has run
    /// empty. `fuel` bounds the number of steps; the budget of the
    /// simulation is always enough.
    #[verifier::opaque]
    pub open spec fn until(self, until: int, fuel: nat) -> Run
        decreases fuel,
    {
        if !self.before_or_at(until) {
            self.unchanged()
        } else {
            let first = self.step();
            if first.error is Some || first.events.len() == 0 || fuel == 0 {
                first
            } else {
                preceded_by(first.events, first.model.until(until, (fuel - 1) as nat))
            }
        }
    }

    /// Handles the events at the head of the queue that are due at `time`,
    /// one by one, queueing what comes back, until none is left or one
    /// fails. `fuel` bounds the number of events; the budget of the
    /// simulation is always enough.
    #[verifier::opaque]
    pub open spec fn drained_at(self, time: int, fuel: nat) -> Run
        decreases fuel,
    {
        if self.queue.len() > 0 && self.queue[0].time == time && fuel > 0 {
            let event = self.queue[0];
            let queued = Self::scheduled(self.without_first(1).dispatched(event));
            if queued.error is Some {
                queued
            } else {
                preceded_by(seq![event], queued.model.drained_at(time, (fuel - 1) as nat))
            }
        } else {
            self.unchanged()
        }
    }
}

/// What the first process found under an identifier goes by.
pub proof fn lemma_index_of(processes: Seq<ProcessModel>, id: Seq<char>)
    ensures
        0 <= index_of(processes, id) <= processes.len(),
        index_of(processes, id) < processes.len() ==> processes[index_of(processes, id)].id()
            == id,
        forall|k: int| 0 <= k < index_of(processes, id) ==> (#[trigger] processes[k]).id() != id,
    decreases processes.len(),
{
    if processes.len() > 0 && processes[0].id() != id {
        let rest = processes.drop_first();
        lemma_index_of(rest, id);
        assert forall|k: int| 0 <= k < index_of(processes, id) implies (
        #[trigger] processes[k]).id() != id by {
            if k > 0 {
                assert(processes[k] == rest[k - 1]);
            }
        }
    }
}

impl SimulationModel {
    /// Whether a process goes by the identifier `id`.
    pub open spec fn has_process(self, id: Seq<char>) -> bool {
        index_of(self.processes, id) < self.processes.len()
    }

    /// Adds a process behind those already there, unless its identifier is
    /// taken.
    pub open spec fn with_process(self, process: ProcessModel) -> Run {
        if self.has_process(process.id()) {
            self.failed(ErrorView::DuplicateProcess(process.id()))
        } else {
            SimulationModel { processes: self.processes.push(process), ..self }.unchanged()
        }
    }

    /// Adds processes one after the other, up to the first failure.
    pub open spec fn with_processes(self, processes: Seq<ProcessModel>) -> Run
        decreases processes.len(),
    {
        if processes.len() == 0 {
            self.unchanged()
        } else {
            let before = self.with_processes(processes.drop_last());
            if before.error is Some {
                before
            } else {
                before.model.with_process(processes.last())
            }
        }
    }

    /// Puts `process` in the place of the process that goes by `id`, or
    /// behind all others where there is none. Fails where that would give
    /// two processes one identifier.
    pub open spec fn with_process_at(self, id: Seq<char>, process: ProcessModel) -> Run {
        if process.id() != id && self.has_process(process.id()) {
            self.failed(ErrorView::DuplicateProcess(process.id()))
        } else if self.has_process(id) {
            SimulationModel {
                processes: self.processes.update(index_of(self.processes, id), process),
                ..self
            }.unchanged()
        } else {
            SimulationModel { processes: self.processes.push(process), ..self }.unchanged()
        }
    }

    /// Registers a connection under the next sequence number, if the
    /// connection is in order and a sequence number is left.
    pub open spec fn with_connection(self, connection: ConnectionView) -> Run {
        match connection_error(self.processes, connection) {
            Some(error) => self.failed(error),
            None => if self.connection_sequence_number == u64::MAX {
                self.failed(sequence_exhausted())
            } else {
                SimulationModel {
                    clock: ClockView {
                        connections: self.clock.connections.push(
                            ConnectionView {
                                sequence_number: self.connection_sequence_number,
                                ..connection
                            },
                        ),
                        ..self.clock
                    },
                    connection_sequence_number: (self.connection_sequence_number + 1) as u64,
                    ..self
                }.unchanged()
            },
        }
    }

    /// Registers connections one after the other, up to the first failure.
    pub open spec fn with_connections(self, connections: Seq<ConnectionView>) -> Run
        decreases connections.len(),
    {
        if connections.len() == 0 {
            self.unchanged()
        } else {
            let before = self.with_connections(connections.drop_last());
            if before.error is Some {
                before
            } else {
                before.model.with_connection(connections.last())
            }
        }
    }

    /// Puts `connection` in the place of the first connection with id `id`,
    /// under the sequence number of the connection it replaces.
    pub open spec fn with_connection_at(self, id: Seq<char>, connection: ConnectionView) -> Run {
        let at = position_of(self.clock.connections, id);
        match connection_error(self.processes, connection) {
            Some(error) => self.failed(error),
            None => if at == self.clock.connections.len() {
                self.failed(ErrorView::ConnectionNotFound(id))
            } else {
                SimulationModel {
                    clock: ClockView {
                        connections: self.clock.connections.update(
                            at,
                            ConnectionView {
                                sequence_number: self.clock.connections[at].sequence_number,
                                ..connection
                            },
                        ),
                        ..self.clock
                    },
                    ..self
                }.unchanged()
            },
        }
    }

    /// Removes every connection with id `id`; fails where there is none.
    pub open spec fn without_connection(self, id: Seq<char>) -> Run {
        if position_of(self.clock.connections, id) == self.clock.connections.len() {
            self.failed(ErrorView::ConnectionNotFound(id))
        } else {
            SimulationModel {
                clock: ClockView {
                    connections: without_id(self.clock.connections, id),
                    ..self.clock
                },
                ..self
            }.unchanged()
        }
    }

    /// The simulation as it was before it ran: every process in its default
    /// state, the clocks at the start, the queue empty. Connections and
    /// sequence numbers stay.
    pub open spec fn reset(self) -> SimulationModel {
        SimulationModel {
            processes: Seq::new(self.processes.len(), |i: int| self.processes[i].reset()),
            clock: ClockView { current_step: 0, current_time: 0, ..self.clock },
            queue: Seq::empty(),
            ..self
        }
    }
}

/// Putting events before a run twice is putting both runs of events
/// before it at once.
pub proof fn lemma_preceded_twice(a: Seq<EventView>, b: Seq<EventView>, run: Run)
    ensures
        preceded_by(a, preceded_by(b, run)) == preceded_by(a + b, run),
{
    assert(a + (b + run.events) =~= (a + b) + run.events);
}

/// Putting no events before a run leaves the run as it is.
pub proof fn lemma_preceded_by_none(run: Run)
    ensures
        preceded_by(Seq::empty(), run) == run,
{
    assert(Seq::<EventView>::empty() + run.events =~= run.events);
}

/// A run that hands back nothing, with events put before it, hands back
/// those events.
pub proof fn lemma_preceding_nothing(events: Seq<EventView>, m: SimulationModel)
    ensures
        preceded_by(events, m.unchanged()).events == events,
{
    assert(events + Seq::<EventView>::empty() =~= events);
}

/// A round on a batch that is not empty is the handling of its first
/// group, followed, if that went well, by a round on the rest.
pub proof fn lemma_round_unfolds(m: SimulationModel, batch: Seq<EventView>)
    requires
        batch.len() > 0,
    ensures
        m.first_group(batch).error is Some ==> m.round(batch) == m.first_group(batch),
        m.first_group(batch).error is None ==> m.round(batch) == preceded_by(
            m.first_group(batch).events,
            m.first_group(batch).model.round(addressed_elsewhere(batch, batch[0].target_id)),
        ),
{
    reveal(SimulationModel::round);
}

/// A round on an empty batch changes nothing.
pub proof fn lemma_round_of_nothing(m: SimulationModel, batch: Seq<EventView>)
    requires
        batch.len() == 0,
    ensures
        m.round(batch) == m.unchanged(),
{
    reveal(SimulationModel::round);
}

/// The events that are due at the time of the first event of a queue are
/// that event and those that are due behind it.
pub proof fn lemma_due_head(queue: Seq<EventView>)
    requires
        queue.len() > 0,
    ensures
        ({
            let time = queue[0].time;
            let behind = due_count(queue.drop_first(), time) as int;
            &&& due_count(queue, time) == 1 + behind
            &&& behind <= queue.len() - 1
            &&& queue.take(1 + behind) == seq![queue[0]] + queue.drop_first().take(behind)
            &&& queue.skip(1 + behind) == queue.drop_first().skip(behind)
        }),
{
    let time = queue[0].time;
    let behind = due_count(queue.drop_first(), time) as int;
    lemma_due_count_bound(queue.drop_first(), time);
    assert(queue.take(1 + behind) =~= seq![queue[0]] + queue.drop_first().take(behind));
    assert(queue.skip(1 + behind) =~= queue.drop_first().skip(behind));
}

/// Rounds are one round, followed, if that went well and events have
/// become due at the current time, by rounds on those events.
pub proof fn lemma_rounds_unfold(m: SimulationModel, batch: Seq<EventView>, fuel: nat)
    ensures
        ({
            let first = m.round(batch);
            let due = due_count(first.model.queue, first.model.clock.current_time);
            if first.error is Some || fuel == 0 || due == 0 {
                m.rounds(batch, fuel) == first
            } else {
                m.rounds(batch, fuel) == preceded_by(
                    first.events,
                    first.model.without_first(due as int).rounds(
                        first.model.queue.take(due as int),
                        (fuel - 1) as nat,
                    ),
                )
            }
        }),
{
    reveal(SimulationModel::rounds);
}

/// Stepping `n + 1` times is stepping `n` times and, if that went well,
/// once more.
pub proof fn lemma_steps_unfold(m: SimulationModel, n: nat)
    ensures
        m.steps(0) == m.unchanged(),
        n > 0 && m.steps((n - 1) as nat).error is Some ==> m.steps(n) == m.steps((n - 1) as nat),
        n > 0 && m.steps((n - 1) as nat).error is None ==> m.steps(n) == preceded_by(
            m.steps((n - 1) as nat).events,
            m.steps((n - 1) as nat).model.step(),
        ),
{
    reveal_with_fuel(SimulationModel::steps, 2);
}

/// Once stepping has failed, more steps change nothing.
pub proof fn lemma_steps_failure_stays(m: SimulationModel, n: nat, all: nat)
    requires
        n <= all,
        m.steps(n).error is Some,
    ensures
        m.steps(all) == m.steps(n),
    decreases all - n,
{
    if n < all {
        lemma_steps_unfold(m, n + 1);
        lemma_steps_failure_stays(m, n + 1, all);
    }
}

/// Stepping until a time is nothing where the time has passed, and
/// otherwise one step, followed, if that step handled something, by
/// stepping on.
pub proof fn lemma_until_unfolds(m: SimulationModel, until: int, fuel: nat)
    ensures
        !m.before_or_at(until) ==> m.until(until, fuel) == m.unchanged(),
        m.before_or_at(until) && (m.step().error is Some || m.step().events.len() == 0 || fuel
            == 0) ==> m.until(until, fuel) == m.step(),
        m.before_or_at(until) && !(m.step().error is Some || m.step().events.len() == 0 || fuel
            == 0) ==> m.until(until, fuel) == preceded_by(
            m.step().events,
            m.step().model.until(until, (fuel - 1) as nat),
        ),
{
    reveal(SimulationModel::until);
}

/// Draining the events due at a time is nothing where no event is due,
/// and otherwise the handling of the first, followed by draining on.
pub proof fn lemma_drained_unfolds(m: SimulationModel, time: int, fuel: nat)
    ensures
        ({
            let due = m.queue.len() > 0 && m.queue[0].time == time && fuel > 0;
            let queued = SimulationModel::scheduled(m.without_first(1).dispatched(m.queue[0]));
            &&& !due ==> m.drained_at(time, fuel) == m.unchanged()
            &&& due && queued.error is Some ==> m.drained_at(time, fuel) == queued
            &&& due && queued.error is None ==> m.drained_at(time, fuel) == preceded_by(
                seq![m.queue[0]],
                queued.model.drained_at(time, (fuel - 1) as nat),
            )
        }),
{
    reveal(SimulationModel::drained_at);
}

} // verus!
