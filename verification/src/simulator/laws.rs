//! What holds of every simulation, between any two events.

use crate::model::laws::lemma_batch_keeps_bounds;
use crate::model::nodes::event_priority::lemma_batch_keeps_identity;
use crate::simulator::event::{events_view, not_after, precedes, Event, EventView};
use crate::simulator::event_queue::{enqueue, in_order, lemma_enqueue_in_order, lemma_enqueue_len, lemma_enqueue_members};
use crate::simulator::semantics::{
    all_valid, broadcast_id, distinct_ids, event_error, index_of, lemma_index_of, port_error,
    simulation_id, Run, SimulationModel,
};
use crate::simulator::simulation::ran;
use crate::utils::errors::SimulationError;
use vstd::prelude::*;

verus! {

/// Whether each event of a queue leaves it before every later one: no two
/// events tie.
pub open spec fn strictly_ordered(queue: Seq<EventView>) -> bool {
    forall|i: int, j: int| 0 <= i < j < queue.len() ==> precedes(queue[i], queue[j])
}

/// Whether every sequence number in a queue is below `next`.
pub open spec fn numbered_below(queue: Seq<EventView>, next: u64) -> bool {
    forall|i: int| 0 <= i < queue.len() ==> (#[trigger] queue[i]).sequence_number < next
}

/// Whether `event` comes before every event of the queue that is not due
/// before it.
pub open spec fn ahead_of(event: EventView, queue: Seq<EventView>) -> bool {
    forall|i: int|
        0 <= i < queue.len() && (#[trigger] queue[i]).time >= event.time ==> precedes(
            event,
            queue[i],
        )
}

impl SimulationModel {
    /// Whether the queue holds only events that the scheduler numbered: no
    /// two tie, and each has a sequence number that is used up.
    pub open spec fn well_ordered(self) -> bool {
        &&& strictly_ordered(self.queue)
        &&& numbered_below(self.queue, self.event_sequence_number)
    }

    /// Whether the simulation is as it is between any two events: within
    /// its bounds, with a queue that only the scheduler has filled.
    pub open spec fn quiescent(self) -> bool {
        self.valid() && self.well_ordered()
    }

    /// Whether two simulations agree in everything but their processes.
    pub open spec fn same_queue_as(self, other: SimulationModel) -> bool {
        &&& self.queue == other.queue
        &&& self.clock == other.clock
        &&& self.event_sequence_number == other.event_sequence_number
        &&& self.connection_sequence_number == other.connection_sequence_number
        &&& self.processes.len() == other.processes.len()
    }
}

/// An event with a fresh sequence number keeps a queue strictly ordered,
/// and leaves every sequence number below the next one.
pub proof fn lemma_enqueue_fresh(queue: Seq<EventView>, e: EventView, next: u64)
    requires
        strictly_ordered(queue),
        numbered_below(queue, e.sequence_number),
        e.sequence_number < next,
    ensures
        strictly_ordered(enqueue(queue, e)),
        numbered_below(enqueue(queue, e), next),
    decreases queue.len(),
{
    lemma_enqueue_members(queue, e);
    lemma_enqueue_len(queue, e);
    let whole = enqueue(queue, e);
    assert forall|i: int| 0 <= i < whole.len() implies (#[trigger] whole[i]).sequence_number
        < next by {
        if whole[i] != e {
            let k = choose|k: int| 0 <= k < queue.len() && queue[k] == whole[i];
            assert(queue[k].sequence_number < e.sequence_number);
        }
    }
    if queue.len() == 0 {
    } else if precedes(e, queue.last()) {
        let shorter = queue.drop_last();
        assert forall|i: int, j: int| 0 <= i < j < shorter.len() implies precedes(
            shorter[i],
            shorter[j],
        ) by {
            assert(shorter[i] == queue[i]);
            assert(shorter[j] == queue[j]);
        }
        assert forall|i: int| 0 <= i < shorter.len() implies (
        #[trigger] shorter[i]).sequence_number < e.sequence_number by {
            assert(shorter[i] == queue[i]);
        }
        lemma_enqueue_fresh(shorter, e, next);
        lemma_enqueue_len(shorter, e);
        lemma_enqueue_members(shorter, e);
        let fuller = enqueue(shorter, e);
        assert forall|i: int, j: int| 0 <= i < j < whole.len() implies precedes(
            whole[i],
            whole[j],
        ) by {
            assert(whole[i] == fuller[i]);
            if j < fuller.len() {
                assert(whole[j] == fuller[j]);
            } else if fuller[i] != e {
                let k = choose|k: int| 0 <= k < shorter.len() && shorter[k] == fuller[i];
                assert(shorter[k] == queue[k]);
                assert(precedes(queue[k], queue[queue.len() - 1]));
            }
        }
    } else {
        assert forall|i: int, j: int| 0 <= i < j < whole.len() implies precedes(
            whole[i],
            whole[j],
        ) by {
            assert(whole[i] == queue[i]);
            if j < queue.len() {
                assert(whole[j] == queue[j]);
            } else {
                let last = queue[queue.len() - 1];
                assert(last.sequence_number < e.sequence_number);
                assert(not_after(last, e));
                if i < queue.len() - 1 {
                    assert(precedes(queue[i], last));
                }
            }
        }
    }
}

/// An event with a later sequence number, put into a queue, leaves an
/// earlier event ahead of the queue.
pub proof fn lemma_enqueue_behind(queue: Seq<EventView>, first: EventView, e: EventView)
    requires
        ahead_of(first, queue),
        first.sequence_number < e.sequence_number,
    ensures
        ahead_of(first, enqueue(queue, e)),
{
    lemma_enqueue_members(queue, e);
    let whole = enqueue(queue, e);
    assert forall|i: int| 0 <= i < whole.len() && (#[trigger] whole[i]).time
        >= first.time implies precedes(first, whole[i]) by {
        if whole[i] != e {
            let k = choose|k: int| 0 <= k < queue.len() && queue[k] == whole[i];
            assert(precedes(first, queue[k]));
        }
    }
}

/// Handing a batch to a process leaves the simulation within its bounds
/// and touches nothing but that process.
pub proof fn lemma_deliver(m: SimulationModel, i: int, batch: Seq<EventView>)
    requires
        m.valid(),
        0 <= i < m.processes.len(),
    ensures
        m.deliver(i, batch).model.valid(),
        m.deliver(i, batch).model.same_queue_as(m),
{
    let context = m.context_of(m.processes[i].id());
    lemma_batch_keeps_bounds(m.processes[i], batch, context);
    lemma_batch_keeps_identity(m.processes[i], batch, context);
    let after = m.deliver(i, batch).model.processes;
    assert forall|k: int| 0 <= k < after.len() implies (#[trigger] after[k]).valid() by {
        if k != i {
            assert(after[k] == m.processes[k]);
        }
    }
    assert forall|a: int, b: int| 0 <= a < b < after.len() implies (#[trigger] after[a]).id() != (
    #[trigger] after[b]).id() by {
        assert(after[a].id() == m.processes[a].id());
        assert(after[b].id() == m.processes[b].id());
    }
}

/// Handing an event to the first `n` processes leaves the simulation
/// within its bounds and touches nothing but the processes.
pub proof fn lemma_broadcast_to(m: SimulationModel, event: EventView, n: nat)
    requires
        m.valid(),
        n <= m.processes.len(),
    ensures
        m.broadcast_to(event, n).model.valid(),
        m.broadcast_to(event, n).model.same_queue_as(m),
    decreases n,
{
    if n > 0 {
        lemma_broadcast_to(m, event, (n - 1) as nat);
        let before = m.broadcast_to(event, (n - 1) as nat);
        if before.error is None {
            lemma_deliver(before.model, n - 1, seq![event]);
        }
    }
}

/// Handing an event to its target, or to every process, leaves the
/// simulation within its bounds and touches nothing but the processes.
pub proof fn lemma_dispatched(m: SimulationModel, event: EventView)
    requires
        m.valid(),
    ensures
        m.dispatched(event).model.valid(),
        m.dispatched(event).model.same_queue_as(m),
        m.broadcast(event).model.valid(),
        m.broadcast(event).model.same_queue_as(m),
{
    lemma_broadcast_to(m, event, m.processes.len());
    lemma_index_of(m.processes, event.target_id);
    let i = index_of(m.processes, event.target_id);
    if i < m.processes.len() {
        lemma_deliver(m, i, seq![event]);
    }
}

/// Queueing events leaves a quiescent simulation quiescent, never lowers
/// the next sequence number, and leaves ahead of the queue every event
/// that was ahead of it and was numbered before.
pub proof fn lemma_schedule_all(m: SimulationModel, events: Seq<EventView>, first: EventView)
    requires
        m.quiescent(),
    ensures
        m.schedule_all(events).model.quiescent(),
        m.schedule_all(events).model.event_sequence_number >= m.event_sequence_number,
        m.schedule_all(events).model.processes == m.processes,
        m.schedule_all(events).model.clock == m.clock,
        ahead_of(first, m.queue) && first.sequence_number < m.event_sequence_number ==> ahead_of(
            first,
            m.schedule_all(events).model.queue,
        ),
    decreases events.len(),
{
    if events.len() > 0 {
        lemma_schedule_all(m, events.drop_last(), first);
        let before = m.schedule_all(events.drop_last());
        if before.error is None {
            let b = before.model;
            let last = b.schedule(events.last());
            if last.error is None {
                let numbered = EventView {
                    sequence_number: b.event_sequence_number,
                    ..events.last()
                };
                lemma_enqueue_fresh(b.queue, numbered, last.model.event_sequence_number);
                lemma_enqueue_in_order(b.queue, numbered);
                if ahead_of(first, m.queue) && first.sequence_number < m.event_sequence_number {
                    lemma_enqueue_behind(b.queue, first, numbered);
                }
            }
        }
    }
}

/// Opening a simulation leaves it quiescent, and leaves ahead of the queue
/// every event that was ahead of it and was numbered before.
pub proof fn lemma_started(m: SimulationModel, first: EventView)
    requires
        m.quiescent(),
    ensures
        m.started().model.quiescent(),
        m.started().model.event_sequence_number >= m.event_sequence_number,
        ahead_of(first, m.queue) && first.sequence_number < m.event_sequence_number ==> ahead_of(
            first,
            m.started().model.queue,
        ),
{
    if m.clock.current_step == 0 {
        let told = m.broadcast(crate::simulator::semantics::start_event(m.clock.current_time));
        lemma_dispatched(m, crate::simulator::semantics::start_event(m.clock.current_time));
        if told.error is None {
            lemma_schedule_all(told.model, told.events, first);
        }
    }
}

/// Telling the processes that the queue has run empty leaves a quiescent
/// simulation quiescent and its queue as it was.
pub proof fn lemma_finished(m: SimulationModel)
    requires
        m.quiescent(),
    ensures
        m.finished().model.quiescent(),
        m.finished().model.queue == m.queue,
        m.finished().model.event_sequence_number == m.event_sequence_number,
{
    lemma_dispatched(m, crate::simulator::semantics::end_event(m.clock.current_time));
}

/// Taking events from the head of the queue leaves a quiescent simulation
/// quiescent, and so does moving its clocks.
pub proof fn lemma_without_first(m: SimulationModel, n: int, time: int)
    requires
        m.quiescent(),
        0 <= n <= m.queue.len(),
    ensures
        m.without_first(n).quiescent(),
        m.without_first(n).advanced_to(time).quiescent(),
        m.advanced_to(time).quiescent(),
        m.advanced_to(time).queue == m.queue,
        m.advanced_to(time).event_sequence_number == m.event_sequence_number,
{
    let rest = m.queue.skip(n);
    assert forall|i: int, j: int| 0 <= i < j < rest.len() implies precedes(rest[i], rest[j]) by {
        assert(rest[i] == m.queue[i + n]);
        assert(rest[j] == m.queue[j + n]);
    }
    assert forall|i: int, j: int| 0 <= i < j < rest.len() implies not_after(rest[i], rest[j]) by {
        assert(precedes(rest[i], rest[j]));
    }
    assert forall|i: int| 0 <= i < rest.len() implies (#[trigger] rest[i]).sequence_number
        < m.event_sequence_number by {
        assert(rest[i] == m.queue[i + n]);
    }
}

/// Every simulation that is quiescent is quiescent again after one event:
/// each pool, each delay and every other process is within its bounds, and
/// the queue is in order.
pub proof fn lemma_next_keeps_quiescent(m: SimulationModel)
    requires
        m.quiescent(),
    ensures
        m.next().model.quiescent(),
{
    let arbitrary = crate::simulator::semantics::start_event(0);
    lemma_started(m, arbitrary);
    let opened = m.started();
    if opened.error is None {
        if opened.model.queue.len() == 0 {
            lemma_finished(opened.model);
        } else {
            let event = opened.model.queue[0];
            lemma_without_first(opened.model, 1, event.time);
            let taken = opened.model.without_first(1).advanced_to(event.time);
            lemma_dispatched(taken, event);
            let handed = taken.dispatched(event);
            if handed.error is None {
                lemma_schedule_all(handed.model, handed.events, arbitrary);
                let queued = handed.model.schedule_all(handed.events);
                if queued.error is None {
                    lemma_finished(queued.model);
                }
            }
        }
    }
}

/// Handing out a run of events to every process leaves the simulation
/// within its bounds and touches nothing but the processes.
pub proof fn lemma_broadcast_each(m: SimulationModel, events: Seq<EventView>)
    requires
        m.valid(),
    ensures
        m.broadcast_each(events).model.valid(),
        m.broadcast_each(events).model.same_queue_as(m),
    decreases events.len(),
{
    if events.len() > 0 {
        lemma_broadcast_each(m, events.drop_last());
        let before = m.broadcast_each(events.drop_last());
        if before.error is None {
            lemma_dispatched(before.model, events.last());
        }
    }
}

/// Handling the first group of a batch leaves a quiescent simulation
/// quiescent.
pub proof fn lemma_first_group(m: SimulationModel, batch: Seq<EventView>)
    requires
        m.quiescent(),
        batch.len() > 0,
    ensures
        m.first_group(batch).model.quiescent(),
{
    reveal(SimulationModel::first_group);
    let target = batch[0].target_id;
    let group = crate::simulator::semantics::addressed_to(batch, target);
    lemma_broadcast_each(m, group);
    lemma_index_of(m.processes, target);
    let i = index_of(m.processes, target);
    if target != broadcast_id() && i < m.processes.len() {
        lemma_deliver(m, i, group);
    }
    let handed = m.group_delivered(target, group);
    if handed.error is None {
        lemma_schedule_all(handed.model, handed.events, batch[0]);
    }
}

/// Handling a batch leaves a quiescent simulation quiescent.
pub proof fn lemma_round(m: SimulationModel, batch: Seq<EventView>)
    requires
        m.quiescent(),
    ensures
        m.round(batch).model.quiescent(),
    decreases batch.len(),
{
    reveal(SimulationModel::round);
    if batch.len() > 0 {
        lemma_first_group(m, batch);
        let first = m.first_group(batch);
        if first.error is None {
            crate::simulator::semantics::lemma_parts_len(batch, batch[0].target_id);
            crate::simulator::semantics::lemma_group_not_empty(batch, 0);
            lemma_round(
                first.model,
                crate::simulator::semantics::addressed_elsewhere(batch, batch[0].target_id),
            );
        }
    }
}

/// Handling batch after batch leaves a quiescent simulation quiescent.
pub proof fn lemma_rounds(m: SimulationModel, batch: Seq<EventView>, fuel: nat)
    requires
        m.quiescent(),
    ensures
        m.rounds(batch, fuel).model.quiescent(),
    decreases fuel,
{
    crate::simulator::semantics::lemma_rounds_unfold(m, batch, fuel);
    lemma_round(m, batch);
    let first = m.round(batch);
    let due = crate::simulator::semantics::due_count(
        first.model.queue,
        first.model.clock.current_time,
    );
    if !(first.error is Some || fuel == 0 || due == 0) {
        crate::simulator::semantics::lemma_due_count_bound(
            first.model.queue,
            first.model.clock.current_time,
        );
        lemma_without_first(first.model, due as int, 0);
        lemma_rounds(
            first.model.without_first(due as int),
            first.model.queue.take(due as int),
            (fuel - 1) as nat,
        );
    }
}

/// Every simulation that is quiescent is quiescent again after a step:
/// each pool, each delay and every other process is within its bounds, and
/// the queue is in order.
pub proof fn lemma_step_keeps_quiescent(m: SimulationModel)
    requires
        m.quiescent(),
    ensures
        m.step().model.quiescent(),
{
    let arbitrary = crate::simulator::semantics::start_event(0);
    lemma_started(m, arbitrary);
    let opened = m.started();
    if opened.error is None {
        if opened.model.queue.len() == 0 {
            lemma_finished(opened.model);
        } else {
            let time = opened.model.queue[0].time;
            lemma_without_first(opened.model, 0, time);
            let moved = opened.model.advanced_to(time);
            let due = crate::simulator::semantics::due_count(moved.queue, time);
            crate::simulator::semantics::lemma_due_count_bound(moved.queue, time);
            lemma_without_first(moved, due as int, time);
            lemma_rounds(
                moved.without_first(due as int),
                moved.queue.take(due as int),
                moved.budget(),
            );
            let handled = moved.without_first(due as int).rounds(
                moved.queue.take(due as int),
                moved.budget(),
            );
            if handled.error is None {
                lemma_finished(handled.model);
            }
        }
    }
}

/// Every simulation that is quiescent is quiescent again after any number
/// of steps.
pub proof fn lemma_steps_keep_quiescent(m: SimulationModel, n: nat)
    requires
        m.quiescent(),
    ensures
        m.steps(n).model.quiescent(),
    decreases n,
{
    crate::simulator::semantics::lemma_steps_unfold(m, n);
    if n > 0 {
        lemma_steps_keep_quiescent(m, (n - 1) as nat);
        let before = m.steps((n - 1) as nat);
        if before.error is None {
            lemma_step_keeps_quiescent(before.model);
        }
    }
}

/// Every simulation that is quiescent is quiescent again after stepping
/// until a time.
pub proof fn lemma_until_keeps_quiescent(m: SimulationModel, until: int, fuel: nat)
    requires
        m.quiescent(),
    ensures
        m.until(until, fuel).model.quiescent(),
    decreases fuel,
{
    crate::simulator::semantics::lemma_until_unfolds(m, until, fuel);
    lemma_step_keeps_quiescent(m);
    if m.before_or_at(until) && !(m.step().error is Some || m.step().events.len() == 0 || fuel
        == 0) {
        lemma_until_keeps_quiescent(m.step().model, until, (fuel - 1) as nat);
    }
}

/// Queueing an event leaves a quiescent simulation quiescent.
pub proof fn lemma_schedule_keeps_quiescent(m: SimulationModel, event: EventView)
    requires
        m.quiescent(),
    ensures
        m.schedule(event).model.quiescent(),
{
    reveal_with_fuel(SimulationModel::schedule_all, 2);
    assert(seq![event].drop_last() =~= Seq::<EventView>::empty());
    assert(m.schedule_all(seq![event]) == m.schedule(event));
    lemma_schedule_all(m, seq![event], event);
}

/// The order in which events leave the queue: the event that a step of one
/// event handles comes before every event that is then in the queue, but
/// for events that were queued for a time before its own.
pub proof fn lemma_next_event_is_ahead(m: SimulationModel)
    requires
        m.quiescent(),
        m.next().error is None,
        m.next().events.len() == 1,
    ensures
        ahead_of(m.next().events[0], m.next().model.queue),
        m.next().events[0].sequence_number < m.next().model.event_sequence_number,
{
    let arbitrary = crate::simulator::semantics::start_event(0);
    lemma_started(m, arbitrary);
    let opened = m.started();
    let event = opened.model.queue[0];
    lemma_without_first(opened.model, 1, event.time);
    let taken = opened.model.without_first(1).advanced_to(event.time);
    assert(ahead_of(event, taken.queue)) by {
        assert forall|i: int| 0 <= i < taken.queue.len() implies precedes(
            event,
            #[trigger] taken.queue[i],
        ) by {
            assert(taken.queue[i] == opened.model.queue[i + 1]);
        }
    }
    lemma_dispatched(taken, event);
    let handed = taken.dispatched(event);
    lemma_schedule_all(handed.model, handed.events, event);
    let queued = handed.model.schedule_all(handed.events);
    lemma_finished(queued.model);
}

/// Event ordering: of two events handled one after the other, the first
/// has the earlier time, or the same time and the lower sequence number,
/// unless the second was queued for a time before that of the first.
pub proof fn lemma_events_leave_in_order(m: SimulationModel)
    requires
        m.quiescent(),
        m.next().error is None,
        m.next().events.len() == 1,
        m.next().model.next().error is None,
        m.next().model.next().events.len() == 1,
    ensures
        ({
            let first = m.next().events[0];
            let second = m.next().model.next().events[0];
            second.time >= first.time ==> precedes(first, second)
        }),
{
    let first = m.next().events[0];
    let between = m.next().model;
    lemma_next_keeps_quiescent(m);
    lemma_next_event_is_ahead(m);
    lemma_started(between, first);
}

/// Determinism: two runs of an operation on the same simulation end in the
/// same simulation and hand back the same events, or fail alike.
pub proof fn lemma_runs_agree(
    expected: Run,
    after_a: SimulationModel,
    result_a: Result<Vec<Event>, SimulationError>,
    after_b: SimulationModel,
    result_b: Result<Vec<Event>, SimulationError>,
)
    requires
        ran(expected, after_a, result_a),
        ran(expected, after_b, result_b),
    ensures
        after_a == after_b,
        result_a is Ok <==> result_b is Ok,
        result_a matches Ok(a) ==> (result_b matches Ok(b) && events_view(a@) == events_view(b@)),
        result_a matches Err(a) ==> (result_b matches Err(b) && a@ == b@),
{
}

/// Port validity: an event that the scheduler queues, other than an event
/// to every process or from the scheduler itself, has a target that
/// exists and a target port that the target declares as an input, if it
/// names one; and a source that exists and a source port that the source
/// declares as an output, if it names one.
pub proof fn lemma_queued_events_have_valid_ports(m: SimulationModel, event: EventView)
    requires
        m.schedule(event).error is None,
        event.target_id != broadcast_id(),
        event.source_id != simulation_id(),
    ensures
        ({
            let target = index_of(m.processes, event.target_id);
            let source = index_of(m.processes, event.source_id);
            &&& 0 <= target < m.processes.len()
            &&& m.processes[target].id() == event.target_id
            &&& event.target_port matches Some(port) ==> m.processes[target].input_ports().contains(
                port,
            )
            &&& 0 <= source < m.processes.len()
            &&& m.processes[source].id() == event.source_id
            &&& event.source_port matches Some(port) ==> m.processes[source].output_ports().contains(
                port,
            )
        }),
{
    lemma_index_of(m.processes, event.target_id);
    lemma_index_of(m.processes, event.source_id);
}

} // verus!
