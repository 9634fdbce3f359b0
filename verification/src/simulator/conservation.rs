//! Conservation of resources across a whole simulation.
//!
//! Every amount is at each moment in exactly one place. It is on the books
//! of its sender until the sender hears of its acceptance; from the moment
//! the receiver takes it, it is on the books of the receiver, and the
//! acceptance under way in the queue is worth the same amount to the
//! sender. So the sum of all books, less what the acceptances in the queue
//! are worth, never changes.

use crate::model::laws::{
    acceptances_go_to, acknowledged, alike, books, credit, lemma_acceptances_go_back,
    lemma_emitted_from_own_ports, lemma_end_is_silent, lemma_only_senders_offer,
    lemma_reaction_conserves, lemma_reaction_keeps_process, lemma_single_batch, sends_offers,
    sent_by, without_acceptances, without_offers,
};
use crate::model::nodes::event_priority::{
    by_priority, comes_first, insert_by_priority, others_of, react_in_order, react_to_batch,
    steps_of,
};
use crate::model::process_context::ContextView;
use crate::model::process_trait::ProcessModel;
use crate::simulator::event::{precedes, EventView};
use crate::simulator::event_queue::{enqueue, lemma_enqueue_members};
use crate::simulator::laws::{
    lemma_broadcast_to, lemma_dispatched, lemma_finished, lemma_schedule_all, lemma_started,
    lemma_without_first,
};
use crate::simulator::semantics::{
    addressed_elsewhere, addressed_to, broadcast_id, end_event, index_of, lemma_index_of,
    start_event, SimulationModel,
};
use vstd::prelude::*;

verus! {

/// The sum of the books of all processes.
pub open spec fn total_books(processes: Seq<ProcessModel>) -> int
    decreases processes.len(),
{
    if processes.len() == 0 {
        0
    } else {
        total_books(processes.drop_last()) + books(processes.last())
    }
}

/// What an event is worth to the first `n` processes together.
pub open spec fn credit_of_first(processes: Seq<ProcessModel>, event: EventView, n: nat) -> int
    decreases n,
{
    if n == 0 {
        0
    } else {
        credit_of_first(processes, event, (n - 1) as nat) + credit(processes[n - 1], event)
    }
}

/// What an event in the queue is worth to those who will handle it: to
/// every process, if it is addressed to all, and to its target otherwise.
pub open spec fn worth(processes: Seq<ProcessModel>, event: EventView) -> int {
    if event.target_id == broadcast_id() {
        credit_of_first(processes, event, processes.len())
    } else if index_of(processes, event.target_id) < processes.len() {
        credit(processes[index_of(processes, event.target_id)], event)
    } else {
        0
    }
}

/// What a run of events is worth.
pub open spec fn worth_of(processes: Seq<ProcessModel>, events: Seq<EventView>) -> int
    decreases events.len(),
{
    if events.len() == 0 {
        0
    } else {
        worth_of(processes, events.drop_last()) + worth(processes, events.last())
    }
}

/// What is in a simulation: the books of all processes, less what the
/// events in the queue are worth.
pub open spec fn balance(m: SimulationModel) -> int {
    total_books(m.processes) - worth_of(m.processes, m.queue)
}

/// Whether an event, if it is an offer, names as its source a process that
/// sends offers.
pub open spec fn known_sender(processes: Seq<ProcessModel>, event: EventView) -> bool {
    event.payload is Resource ==> {
        &&& event.source_id != broadcast_id()
        &&& index_of(processes, event.source_id) < processes.len()
        &&& sends_offers(processes[index_of(processes, event.source_id)])
    }
}

/// Whether every offer among `events` comes from a process that sends
/// offers.
pub open spec fn senders_known(processes: Seq<ProcessModel>, events: Seq<EventView>) -> bool {
    forall|i: int| 0 <= i < events.len() ==> known_sender(processes, #[trigger] events[i])
}

/// Whether no process goes by the name that addresses all processes.
pub open spec fn none_is_everyone(processes: Seq<ProcessModel>) -> bool {
    forall|i: int| 0 <= i < processes.len() ==> (#[trigger] processes[i]).id() != broadcast_id()
}

/// Whether two sequences hold the same processes at different times.
pub open spec fn all_alike(a: Seq<ProcessModel>, b: Seq<ProcessModel>) -> bool {
    &&& a.len() == b.len()
    &&& forall|i: int| 0 <= i < a.len() ==> alike(#[trigger] a[i], b[i])
}

impl SimulationModel {
    /// Whether the simulation is closed: every offer in its queue comes
    /// from one of its sources, pools or delays, and no process goes by the
    /// name that addresses all.
    pub open spec fn closed(self) -> bool {
        senders_known(self.processes, self.queue) && none_is_everyone(self.processes)
    }
}

/// A process that changes changes the sum of the books by as much as its
/// own.
pub proof fn lemma_books_update(processes: Seq<ProcessModel>, i: int, next: ProcessModel)
    requires
        0 <= i < processes.len(),
    ensures
        total_books(processes.update(i, next)) == total_books(processes) - books(processes[i])
            + books(next),
    decreases processes.len(),
{
    let after = processes.update(i, next);
    if i == processes.len() - 1 {
        assert(after.drop_last() =~= processes.drop_last());
    } else {
        assert(after.drop_last() =~= processes.drop_last().update(i, next));
        lemma_books_update(processes.drop_last(), i, next);
    }
}

/// The same processes are found under the same identifiers.
pub proof fn lemma_alike_index(a: Seq<ProcessModel>, b: Seq<ProcessModel>, id: Seq<char>)
    requires
        all_alike(a, b),
    ensures
        index_of(a, id) == index_of(b, id),
    decreases a.len(),
{
    if a.len() > 0 {
        assert(alike(a[0], b[0]));
        if a[0].id() != id {
            assert forall|i: int| 0 <= i < a.drop_first().len() implies alike(
                #[trigger] a.drop_first()[i],
                b.drop_first()[i],
            ) by {
                assert(alike(a[i + 1], b[i + 1]));
            }
            lemma_alike_index(a.drop_first(), b.drop_first(), id);
        }
    }
}

/// An event is worth the same to the same processes at different times.
pub proof fn lemma_alike_credit(
    a: Seq<ProcessModel>,
    b: Seq<ProcessModel>,
    event: EventView,
    n: nat,
)
    requires
        all_alike(a, b),
        n <= a.len(),
    ensures
        credit_of_first(a, event, n) == credit_of_first(b, event, n),
    decreases n,
{
    if n > 0 {
        lemma_alike_credit(a, b, event, (n - 1) as nat);
        assert(alike(a[n - 1], b[n - 1]));
    }
}

/// An event is worth the same, and has as known a sender, with the same
/// processes at different times.
pub proof fn lemma_alike_worth(a: Seq<ProcessModel>, b: Seq<ProcessModel>, event: EventView)
    requires
        all_alike(a, b),
    ensures
        worth(a, event) == worth(b, event),
        known_sender(a, event) == known_sender(b, event),
{
    lemma_alike_index(a, b, event.target_id);
    lemma_alike_index(a, b, event.source_id);
    lemma_alike_credit(a, b, event, a.len());
    lemma_index_of(a, event.target_id);
    lemma_index_of(a, event.source_id);
    let t = index_of(a, event.target_id);
    if t < a.len() {
        assert(alike(a[t], b[t]));
    }
    let s = index_of(a, event.source_id);
    if s < a.len() {
        assert(alike(a[s], b[s]));
    }
}

/// A run of events is worth the same, and has as known senders, with the
/// same processes at different times.
pub proof fn lemma_alike_worth_of(a: Seq<ProcessModel>, b: Seq<ProcessModel>, events: Seq<EventView>)
    requires
        all_alike(a, b),
    ensures
        worth_of(a, events) == worth_of(b, events),
        senders_known(a, events) == senders_known(b, events),
    decreases events.len(),
{
    if events.len() > 0 {
        lemma_alike_worth_of(a, b, events.drop_last());
        lemma_alike_worth(a, b, events.last());
    }
    if senders_known(a, events) {
        assert forall|i: int| 0 <= i < events.len() implies known_sender(
            b,
            #[trigger] events[i],
        ) by {
            lemma_alike_worth(a, b, events[i]);
        }
    }
    if senders_known(b, events) {
        assert forall|i: int| 0 <= i < events.len() implies known_sender(
            a,
            #[trigger] events[i],
        ) by {
            lemma_alike_worth(a, b, events[i]);
        }
    }
}

/// Two runs of events are worth together what each is worth.
pub proof fn lemma_worth_of_sum(processes: Seq<ProcessModel>, a: Seq<EventView>, b: Seq<EventView>)
    ensures
        worth_of(processes, a + b) == worth_of(processes, a) + worth_of(processes, b),
    decreases b.len(),
{
    if b.len() == 0 {
        assert(a + b =~= a);
    } else {
        assert((a + b).drop_last() =~= a + b.drop_last());
        assert((a + b).last() == b.last());
        lemma_worth_of_sum(processes, a, b.drop_last());
    }
}

/// An event that is no acceptance gives credit to no one.
pub proof fn lemma_credit_of_others(processes: Seq<ProcessModel>, event: EventView, n: nat)
    requires
        !(event.payload is ResourceAccepted),
    ensures
        credit_of_first(processes, event, n) == 0,
    decreases n,
{
    if n > 0 {
        lemma_credit_of_others(processes, event, (n - 1) as nat);
    }
}

/// An event that is no acceptance is worth nothing to anyone.
pub proof fn lemma_worth_of_others(processes: Seq<ProcessModel>, event: EventView)
    requires
        !(event.payload is ResourceAccepted),
    ensures
        worth(processes, event) == 0,
{
    lemma_credit_of_others(processes, event, processes.len());
}

/// The replies to an offer whose sender is known are worth what they
/// acknowledge.
pub proof fn lemma_worth_of_replies(
    processes: Seq<ProcessModel>,
    emitted: Seq<EventView>,
    sender: Seq<char>,
)
    requires
        acceptances_go_to(emitted, sender),
        without_acceptances(emitted) || (sender != broadcast_id() && index_of(processes, sender)
            < processes.len() && sends_offers(processes[index_of(processes, sender)])),
    ensures
        worth_of(processes, emitted) == acknowledged(emitted),
    decreases emitted.len(),
{
    if emitted.len() > 0 {
        let earlier = emitted.drop_last();
        assert forall|i: int| 0 <= i < earlier.len() && (
        #[trigger] earlier[i]).payload is ResourceAccepted implies earlier[i].target_id
            == sender by {
            assert(earlier[i] == emitted[i]);
        }
        if without_acceptances(emitted) {
            assert forall|i: int| 0 <= i < earlier.len() implies !((
            #[trigger] earlier[i]).payload is ResourceAccepted) by {
                assert(earlier[i] == emitted[i]);
            }
        }
        lemma_worth_of_replies(processes, earlier, sender);
        let last = emitted[emitted.len() - 1];
        if !(last.payload is ResourceAccepted) {
            lemma_worth_of_others(processes, last);
        }
    }
}

/// Handing one event to one process conserves: afterwards the books, less
/// what the emitted events are worth, are the books before, less what the
/// event was worth to the process. The emitted offers come from a process
/// that sends offers.
pub proof fn lemma_deliver_conserves(m: SimulationModel, i: int, event: EventView)
    requires
        m.valid(),
        none_is_everyone(m.processes),
        0 <= i < m.processes.len(),
        known_sender(m.processes, event),
        m.deliver(i, seq![event]).error is None,
    ensures
        ({
            let after = m.deliver(i, seq![event]);
            &&& all_alike(m.processes, after.model.processes)
            &&& senders_known(after.model.processes, after.events)
            &&& total_books(after.model.processes) - worth_of(after.model.processes, after.events)
                == total_books(m.processes) - credit(m.processes[i], event)
        }),
{
    let process = m.processes[i];
    let context = m.context_of(process.id());
    let after = m.deliver(i, seq![event]);
    assert(process.valid());
    lemma_single_batch(process, event, context);
    lemma_reaction_conserves(process, event, context);
    lemma_reaction_keeps_process(process, event, context);
    lemma_acceptances_go_back(process, event, context);
    lemma_emitted_from_own_ports(process, event, context);
    let next = after.model.processes[i];
    let emitted = after.events;
    assert(process.react(event, context) == Ok::<
        (ProcessModel, Seq<EventView>),
        crate::utils::errors::ErrorView,
    >((next, emitted)));
    lemma_books_update(m.processes, i, next);
    assert forall|k: int| 0 <= k < m.processes.len() implies alike(
        #[trigger] m.processes[k],
        after.model.processes[k],
    ) by {}
    lemma_alike_index(m.processes, after.model.processes, event.source_id);
    lemma_index_of(m.processes, event.source_id);
    let sender = index_of(m.processes, event.source_id);
    if sender < m.processes.len() {
        assert(alike(m.processes[sender], after.model.processes[sender]));
    }
    lemma_worth_of_replies(after.model.processes, emitted, event.source_id);
    lemma_alike_index(m.processes, after.model.processes, process.id());
    lemma_index_of(m.processes, process.id());
    assert(index_of(m.processes, process.id()) == i) by {
        let found = index_of(m.processes, process.id());
        if found < i {
            assert(m.processes[found].id() != m.processes[i].id());
        }
    }
    if !sends_offers(process) {
        lemma_only_senders_offer(process, event, context);
    }
    assert forall|k: int| 0 <= k < emitted.len() implies known_sender(
        after.model.processes,
        #[trigger] emitted[k],
    ) by {
        if emitted[k].payload is Resource {
            assert(emitted[k].source_id == process.id());
            assert(sends_offers(process));
        }
    }
}

/// Handing an event to the first `n` processes conserves in the same way:
/// the event is worth to them together what it is worth to each.
pub proof fn lemma_broadcast_conserves(m: SimulationModel, event: EventView, n: nat)
    requires
        m.valid(),
        none_is_everyone(m.processes),
        n <= m.processes.len(),
        known_sender(m.processes, event),
        m.broadcast_to(event, n).error is None,
    ensures
        ({
            let after = m.broadcast_to(event, n);
            &&& all_alike(m.processes, after.model.processes)
            &&& senders_known(after.model.processes, after.events)
            &&& total_books(after.model.processes) - worth_of(after.model.processes, after.events)
                == total_books(m.processes) - credit_of_first(m.processes, event, n)
        }),
    decreases n,
{
    if n > 0 {
        let before = m.broadcast_to(event, (n - 1) as nat);
        lemma_broadcast_to(m, event, (n - 1) as nat);
        lemma_broadcast_conserves(m, event, (n - 1) as nat);
        let between = before.model;
        lemma_alike_worth(m.processes, between.processes, event);
        assert forall|k: int| 0 <= k < between.processes.len() implies (
        #[trigger] between.processes[k]).id() != broadcast_id() by {
            assert(alike(m.processes[k], between.processes[k]));
        }
        lemma_deliver_conserves(between, n - 1, event);
        let last = between.deliver(n - 1, seq![event]);
        let after = m.broadcast_to(event, n);
        assert forall|k: int| 0 <= k < m.processes.len() implies alike(
            #[trigger] m.processes[k],
            after.model.processes[k],
        ) by {
            assert(alike(m.processes[k], between.processes[k]));
            assert(alike(between.processes[k], last.model.processes[k]));
        }
        lemma_alike_worth_of(between.processes, last.model.processes, before.events);
        lemma_worth_of_sum(last.model.processes, before.events, last.events);
        assert(alike(m.processes[n - 1], between.processes[n - 1]));
        assert forall|k: int| 0 <= k < after.events.len() implies known_sender(
            after.model.processes,
            #[trigger] after.events[k],
        ) by {
            if k < before.events.len() {
                assert(after.events[k] == before.events[k]);
            } else {
                assert(after.events[k] == last.events[k - before.events.len()]);
            }
        }
    }
}

/// An event put into a queue adds its worth to that of the queue.
pub proof fn lemma_enqueue_worth(
    processes: Seq<ProcessModel>,
    queue: Seq<EventView>,
    event: EventView,
)
    ensures
        worth_of(processes, enqueue(queue, event)) == worth_of(processes, queue) + worth(
            processes,
            event,
        ),
    decreases queue.len(),
{
    if queue.len() == 0 {
        assert(seq![event].drop_last() =~= Seq::<EventView>::empty());
        reveal_with_fuel(worth_of, 2);
    } else if precedes(event, queue.last()) {
        lemma_enqueue_worth(processes, queue.drop_last(), event);
        let fuller = enqueue(queue.drop_last(), event);
        assert(fuller.push(queue.last()).drop_last() =~= fuller);
    } else {
        assert(queue.push(event).drop_last() =~= queue);
    }
}

/// The first event of a queue, taken out, takes its worth with it.
pub proof fn lemma_dequeue_worth(processes: Seq<ProcessModel>, queue: Seq<EventView>)
    requires
        queue.len() > 0,
    ensures
        worth_of(processes, queue.skip(1)) == worth_of(processes, queue) - worth(
            processes,
            queue[0],
        ),
    decreases queue.len(),
{
    if queue.len() == 1 {
        assert(queue.skip(1) =~= Seq::<EventView>::empty());
        assert(queue.drop_last() =~= Seq::<EventView>::empty());
        reveal_with_fuel(worth_of, 2);
    } else {
        assert(queue.skip(1).drop_last() =~= queue.drop_last().skip(1));
        assert(queue.skip(1).last() == queue.last());
        assert(queue.drop_last()[0] == queue[0]);
        lemma_dequeue_worth(processes, queue.drop_last());
    }
}

/// The sequence number of an event has no part in what it is worth.
pub proof fn lemma_credit_ignores_number(
    processes: Seq<ProcessModel>,
    event: EventView,
    number: u64,
    n: nat,
)
    ensures
        credit_of_first(processes, EventView { sequence_number: number, ..event }, n)
            == credit_of_first(processes, event, n),
    decreases n,
{
    if n > 0 {
        lemma_credit_ignores_number(processes, event, number, (n - 1) as nat);
    }
}

/// Queueing events adds their worth to that of the queue, and leaves a
/// closed simulation closed if their senders are known.
pub proof fn lemma_schedule_all_conserves(m: SimulationModel, events: Seq<EventView>)
    requires
        m.quiescent(),
        m.closed(),
        senders_known(m.processes, events),
        m.schedule_all(events).error is None,
    ensures
        ({
            let after = m.schedule_all(events).model;
            &&& after.processes == m.processes
            &&& after.closed()
            &&& worth_of(after.processes, after.queue) == worth_of(m.processes, m.queue)
                + worth_of(m.processes, events)
        }),
    decreases events.len(),
{
    if events.len() > 0 {
        let before = m.schedule_all(events.drop_last());
        assert forall|k: int| 0 <= k < events.drop_last().len() implies known_sender(
            m.processes,
            #[trigger] events.drop_last()[k],
        ) by {
            assert(events.drop_last()[k] == events[k]);
        }
        assert(before.error is None);
        lemma_schedule_all_conserves(m, events.drop_last());
        let b = before.model;
        let numbered = EventView { sequence_number: b.event_sequence_number, ..events.last() };
        lemma_credit_ignores_number(
            b.processes,
            events.last(),
            b.event_sequence_number,
            b.processes.len(),
        );
        assert(worth(b.processes, numbered) == worth(b.processes, events.last()));
        lemma_enqueue_worth(b.processes, b.queue, numbered);
        lemma_enqueue_members(b.queue, numbered);
        let after = m.schedule_all(events).model;
        assert(known_sender(m.processes, events[events.len() - 1]));
        assert forall|k: int| 0 <= k < after.queue.len() implies known_sender(
            after.processes,
            #[trigger] after.queue[k],
        ) by {
            if after.queue[k] != numbered {
                let j = choose|j: int| 0 <= j < b.queue.len() && b.queue[j] == after.queue[k];
                assert(known_sender(b.processes, b.queue[j]));
            }
        }
    }
}

/// The same processes at different times: none goes by the name that
/// addresses all, and the senders of the same events are known.
pub proof fn lemma_alike_closed(a: SimulationModel, b: SimulationModel)
    requires
        a.closed(),
        all_alike(a.processes, b.processes),
        b.queue == a.queue,
    ensures
        b.closed(),
        worth_of(b.processes, b.queue) == worth_of(a.processes, a.queue),
{
    lemma_alike_worth_of(a.processes, b.processes, a.queue);
    assert forall|k: int| 0 <= k < b.processes.len() implies (#[trigger] b.processes[k]).id()
        != broadcast_id() by {
        assert(alike(a.processes[k], b.processes[k]));
    }
}

/// Handing an event to its target, or to every process, and queueing what
/// comes back takes from the balance what the event was worth.
pub proof fn lemma_handling_conserves(m: SimulationModel, event: EventView)
    requires
        m.quiescent(),
        m.closed(),
        known_sender(m.processes, event),
        SimulationModel::scheduled(m.dispatched(event)).error is None,
    ensures
        ({
            let after = SimulationModel::scheduled(m.dispatched(event)).model;
            &&& after.quiescent()
            &&& after.closed()
            &&& balance(after) == balance(m) - worth(m.processes, event)
        }),
{
    let handed = m.dispatched(event);
    lemma_dispatched(m, event);
    lemma_index_of(m.processes, event.target_id);
    if event.target_id == broadcast_id() {
        lemma_broadcast_conserves(m, event, m.processes.len());
    } else {
        lemma_deliver_conserves(m, index_of(m.processes, event.target_id), event);
    }
    lemma_alike_closed(m, handed.model);
    lemma_alike_worth_of(m.processes, handed.model.processes, handed.events);
    lemma_schedule_all(handed.model, handed.events, event);
    lemma_schedule_all_conserves(handed.model, handed.events);
}

/// Telling a process of the end of the simulation changes nothing.
pub proof fn lemma_end_changes_nothing(m: SimulationModel, event: EventView, n: nat)
    requires
        m.valid(),
        event.payload is SimulationEnd,
        n <= m.processes.len(),
    ensures
        m.broadcast_to(event, n) == m.unchanged(),
    decreases n,
{
    if n > 0 {
        lemma_end_changes_nothing(m, event, (n - 1) as nat);
        let process = m.processes[n - 1];
        let context = m.context_of(process.id());
        assert(process.valid());
        lemma_single_batch(process, event, context);
        lemma_end_is_silent(process, event, context);
        assert(m.processes.update(n - 1, process) =~= m.processes);
        assert(Seq::<EventView>::empty() + Seq::<EventView>::empty() =~= Seq::<
            EventView,
        >::empty());
    }
}

/// Conservation: one event handled leaves the balance of a closed
/// simulation as it was, and the simulation closed. The balance is the sum
/// of what the pools hold, what the delays hold and what the drains have
/// consumed, less what the sources have produced and less the amounts of
/// the acceptances that are still under way.
pub proof fn lemma_next_conserves(m: SimulationModel)
    requires
        m.quiescent(),
        m.closed(),
        m.next().error is None,
    ensures
        m.next().model.quiescent(),
        m.next().model.closed(),
        balance(m.next().model) == balance(m),
{
    let start = start_event(m.clock.current_time);
    lemma_started(m, start);
    if m.clock.current_step == 0 {
        lemma_worth_of_others(m.processes, start);
        lemma_handling_conserves(m, start);
    }
    let opened = m.started().model;
    let end = end_event(opened.clock.current_time);
    if opened.queue.len() == 0 {
        lemma_end_changes_nothing(opened, end, opened.processes.len());
    } else {
        let event = opened.queue[0];
        lemma_without_first(opened, 1, event.time);
        lemma_dequeue_worth(opened.processes, opened.queue);
        let taken = opened.without_first(1).advanced_to(event.time);
        assert(known_sender(opened.processes, opened.queue[0]));
        assert forall|k: int| 0 <= k < taken.queue.len() implies known_sender(
            taken.processes,
            #[trigger] taken.queue[k],
        ) by {
            assert(taken.queue[k] == opened.queue[k + 1]);
        }
        lemma_handling_conserves(taken, event);
        let queued = SimulationModel::scheduled(taken.dispatched(event)).model;
        let last = end_event(queued.clock.current_time);
        lemma_end_changes_nothing(queued, last, queued.processes.len());
    }
}

/// What a run of events is worth to one process.
pub open spec fn credit_sum(m: ProcessModel, events: Seq<EventView>) -> int
    decreases events.len(),
{
    if events.len() == 0 {
        0
    } else {
        credit_sum(m, events.drop_last()) + credit(m, events.last())
    }
}

/// Whether a property holds of every event of a sequence.
pub open spec fn all_events(events: Seq<EventView>, property: spec_fn(EventView) -> bool) -> bool {
    forall|i: int| 0 <= i < events.len() ==> property(#[trigger] events[i])
}

/// What holds of every event of a batch holds of every event of the batch
/// in the order of handling, of its steps and of its other events.
pub proof fn lemma_sorting_keeps(batch: Seq<EventView>, property: spec_fn(EventView) -> bool)
    requires
        all_events(batch, property),
    ensures
        all_events(by_priority(batch), property),
        all_events(steps_of(batch), property),
        all_events(others_of(batch), property),
    decreases batch.len(),
{
    if batch.len() > 0 {
        let earlier = batch.drop_last();
        assert forall|i: int| 0 <= i < earlier.len() implies property(#[trigger] earlier[i]) by {
            assert(earlier[i] == batch[i]);
        }
        lemma_sorting_keeps(earlier, property);
        assert(property(batch[batch.len() - 1]));
        lemma_inserting_keeps(by_priority(earlier), batch.last(), property);
    }
}

/// What holds of every event of a sorted run and of one more event holds
/// of the run with that event put in.
pub proof fn lemma_inserting_keeps(
    sorted: Seq<EventView>,
    event: EventView,
    property: spec_fn(EventView) -> bool,
)
    requires
        all_events(sorted, property),
        property(event),
    ensures
        all_events(insert_by_priority(sorted, event), property),
    decreases sorted.len(),
{
    if sorted.len() > 0 && comes_first(event, sorted.last()) {
        let earlier = sorted.drop_last();
        assert forall|i: int| 0 <= i < earlier.len() implies property(#[trigger] earlier[i]) by {
            assert(earlier[i] == sorted[i]);
        }
        lemma_inserting_keeps(earlier, event, property);
        assert(property(sorted[sorted.len() - 1]));
    } else if sorted.len() > 0 {
        assert forall|i: int| 0 <= i < sorted.push(event).len() implies property(
            #[trigger] sorted.push(event)[i],
        ) by {
            if i < sorted.len() {
                assert(sorted.push(event)[i] == sorted[i]);
            }
        }
    }
}

/// What holds of every event of a batch holds of every event of each of
/// the two parts into which a target divides it.
pub proof fn lemma_parting_keeps(
    batch: Seq<EventView>,
    target: Seq<char>,
    property: spec_fn(EventView) -> bool,
)
    requires
        all_events(batch, property),
    ensures
        all_events(addressed_to(batch, target), property),
        all_events(addressed_elsewhere(batch, target), property),
        all_events(addressed_to(batch, target), |e: EventView| e.target_id == target),
    decreases batch.len(),
{
    if batch.len() > 0 {
        let earlier = batch.drop_last();
        assert forall|i: int| 0 <= i < earlier.len() implies property(#[trigger] earlier[i]) by {
            assert(earlier[i] == batch[i]);
        }
        lemma_parting_keeps(earlier, target, property);
        assert(property(batch[batch.len() - 1]));
    }
}

/// Sorting a batch does not change what it is worth to a process, and its
/// steps and its other events are together worth what it is worth.
pub proof fn lemma_sorting_keeps_credit(m: ProcessModel, batch: Seq<EventView>)
    ensures
        credit_sum(m, by_priority(batch)) == credit_sum(m, batch),
        credit_sum(m, steps_of(batch)) + credit_sum(m, others_of(batch)) == credit_sum(m, batch),
    decreases batch.len(),
{
    if batch.len() > 0 {
        lemma_sorting_keeps_credit(m, batch.drop_last());
        lemma_inserting_keeps_credit(m, by_priority(batch.drop_last()), batch.last());
        if batch.last().payload is Step {
            assert(steps_of(batch).drop_last() =~= steps_of(batch.drop_last()));
        } else {
            assert(others_of(batch).drop_last() =~= others_of(batch.drop_last()));
        }
    }
}

/// An event put into a sorted run adds what it is worth to a process.
pub proof fn lemma_inserting_keeps_credit(m: ProcessModel, sorted: Seq<EventView>, event: EventView)
    ensures
        credit_sum(m, insert_by_priority(sorted, event)) == credit_sum(m, sorted) + credit(
            m,
            event,
        ),
    decreases sorted.len(),
{
    if sorted.len() == 0 {
        assert(seq![event].drop_last() =~= Seq::<EventView>::empty());
        reveal_with_fuel(credit_sum, 2);
    } else if comes_first(event, sorted.last()) {
        lemma_inserting_keeps_credit(m, sorted.drop_last(), event);
        let fuller = insert_by_priority(sorted.drop_last(), event);
        assert(fuller.push(sorted.last()).drop_last() =~= fuller);
    } else {
        assert(sorted.push(event).drop_last() =~= sorted);
    }
}

/// The two parts into which a target divides a batch are together worth
/// what the batch is worth.
pub proof fn lemma_parting_keeps_worth(
    processes: Seq<ProcessModel>,
    batch: Seq<EventView>,
    target: Seq<char>,
)
    ensures
        worth_of(processes, addressed_to(batch, target)) + worth_of(
            processes,
            addressed_elsewhere(batch, target),
        ) == worth_of(processes, batch),
    decreases batch.len(),
{
    if batch.len() > 0 {
        lemma_parting_keeps_worth(processes, batch.drop_last(), target);
        if batch.last().target_id == target {
            assert(addressed_to(batch, target).drop_last() =~= addressed_to(
                batch.drop_last(),
                target,
            ));
        } else {
            assert(addressed_elsewhere(batch, target).drop_last() =~= addressed_elsewhere(
                batch.drop_last(),
                target,
            ));
        }
    }
}

/// Events that are addressed to one process are worth what they are worth
/// to that process.
pub proof fn lemma_worth_to_target(processes: Seq<ProcessModel>, i: int, events: Seq<EventView>)
    requires
        0 <= i < processes.len(),
        processes[i].id() != broadcast_id(),
        index_of(processes, processes[i].id()) == i,
        all_events(events, |e: EventView| e.target_id == processes[i].id()),
    ensures
        worth_of(processes, events) == credit_sum(processes[i], events),
    decreases events.len(),
{
    if events.len() > 0 {
        let earlier = events.drop_last();
        assert forall|k: int| 0 <= k < earlier.len() implies (|e: EventView|
            e.target_id == processes[i].id())(#[trigger] earlier[k]) by {
            assert(earlier[k] == events[k]);
        }
        lemma_worth_to_target(processes, i, earlier);
        assert((|e: EventView| e.target_id == processes[i].id())(events[events.len() - 1]));
    }
}

/// A run of events that a process handles conserves: afterwards its books,
/// less what the emitted events are worth, are its books before, less what
/// the events were worth to it; and the emitted offers are its own.
pub proof fn lemma_run_conserves(
    processes: Seq<ProcessModel>,
    i: int,
    events: Seq<EventView>,
    context: ContextView,
)
    requires
        0 <= i < processes.len(),
        processes[i].valid(),
        none_is_everyone(processes),
        index_of(processes, processes[i].id()) == i,
        senders_known(processes, events),
        react_in_order(processes[i], events, context).error is None,
    ensures
        ({
            let m = processes[i];
            let after = react_in_order(m, events, context);
            &&& alike(m, after.model)
            &&& after.model.valid()
            &&& senders_known(processes, after.events)
            &&& books(after.model) - worth_of(processes, after.events) == books(m) - credit_sum(
                m,
                events,
            )
        }),
    decreases events.len(),
{
    let m = processes[i];
    if events.len() > 0 {
        let earlier = events.drop_last();
        assert forall|k: int| 0 <= k < earlier.len() implies known_sender(
            processes,
            #[trigger] earlier[k],
        ) by {
            assert(earlier[k] == events[k]);
        }
        let before = react_in_order(m, earlier, context);
        assert(before.error is None);
        lemma_run_conserves(processes, i, earlier, context);
        let event = events[events.len() - 1];
        assert(known_sender(processes, event));
        let at = before.model;
        lemma_reaction_conserves(at, event, context);
        lemma_reaction_keeps_process(at, event, context);
        crate::model::laws::lemma_reaction_keeps_bounds(at, event, context);
        lemma_acceptances_go_back(at, event, context);
        lemma_emitted_from_own_ports(at, event, context);
        if !sends_offers(at) {
            lemma_only_senders_offer(at, event, context);
        }
        let after = react_in_order(m, events, context);
        let emitted = at.react(event, context)->Ok_0.1;
        lemma_worth_of_replies(processes, emitted, event.source_id);
        lemma_worth_of_sum(processes, before.events, emitted);
        assert forall|k: int| 0 <= k < after.events.len() implies known_sender(
            processes,
            #[trigger] after.events[k],
        ) by {
            if k < before.events.len() {
                assert(after.events[k] == before.events[k]);
            } else {
                let own = emitted[k - before.events.len()];
                assert(after.events[k] == own);
                if own.payload is Resource {
                    assert(own.source_id == at.id());
                    assert(sends_offers(at));
                }
            }
        }
    }
}

/// A batch that a process handles conserves, whether all of it is handled
/// or only its steps: the events handed back for later are worth to the
/// process what they were worth before.
pub proof fn lemma_batch_conserves(
    processes: Seq<ProcessModel>,
    i: int,
    batch: Seq<EventView>,
    context: ContextView,
)
    requires
        0 <= i < processes.len(),
        processes[i].valid(),
        none_is_everyone(processes),
        index_of(processes, processes[i].id()) == i,
        senders_known(processes, batch),
        all_events(batch, |e: EventView| e.target_id == processes[i].id()),
        react_to_batch(processes[i], batch, context).error is None,
    ensures
        ({
            let m = processes[i];
            let after = react_to_batch(m, batch, context);
            &&& alike(m, after.model)
            &&& senders_known(processes, after.events)
            &&& books(after.model) - worth_of(processes, after.events) == books(m) - worth_of(
                processes,
                batch,
            )
        }),
{
    let m = processes[i];
    let sorted = by_priority(batch);
    let steps = steps_of(sorted);
    let others = others_of(sorted);
    let known = |e: EventView| known_sender(processes, e);
    let mine = |e: EventView| e.target_id == processes[i].id();
    assert(all_events(batch, known)) by {
        assert forall|k: int| 0 <= k < batch.len() implies known(#[trigger] batch[k]) by {
            assert(known_sender(processes, batch[k]));
        }
    }
    lemma_sorting_keeps(batch, known);
    lemma_sorting_keeps(sorted, known);
    lemma_sorting_keeps(batch, mine);
    lemma_sorting_keeps(sorted, mine);
    lemma_sorting_keeps_credit(m, batch);
    lemma_sorting_keeps_credit(m, sorted);
    lemma_worth_to_target(processes, i, batch);
    lemma_worth_to_target(processes, i, others);
    assert(senders_known(processes, steps)) by {
        assert forall|k: int| 0 <= k < steps.len() implies known_sender(
            processes,
            #[trigger] steps[k],
        ) by {
            assert(known(steps[k]));
        }
    }
    assert(senders_known(processes, others)) by {
        assert forall|k: int| 0 <= k < others.len() implies known_sender(
            processes,
            #[trigger] others[k],
        ) by {
            assert(known(others[k]));
        }
    }
    let after = react_to_batch(m, batch, context);
    if steps.len() > 0 {
        lemma_run_conserves(processes, i, steps, context);
        let handled = react_in_order(m, steps, context);
        lemma_worth_of_sum(processes, handled.events, others);
        lemma_steps_are_worth_nothing(m, steps);
        assert forall|k: int| 0 <= k < after.events.len() implies known_sender(
            processes,
            #[trigger] after.events[k],
        ) by {
            if k < handled.events.len() {
                assert(after.events[k] == handled.events[k]);
            } else {
                assert(after.events[k] == others[k - handled.events.len()]);
            }
        }
    } else {
        lemma_run_conserves(processes, i, others, context);
        assert(steps =~= Seq::<EventView>::empty());
    }
}

/// Steps are worth nothing to anyone.
pub proof fn lemma_steps_are_worth_nothing(m: ProcessModel, events: Seq<EventView>)
    ensures
        credit_sum(m, steps_of(events)) == 0,
    decreases events.len(),
{
    if events.len() > 0 {
        lemma_steps_are_worth_nothing(m, events.drop_last());
        if events.last().payload is Step {
            assert(steps_of(events).drop_last() =~= steps_of(events.drop_last()));
        }
    }
}

/// A simulation with an empty queue is closed, if no process goes by the
/// name that addresses all: so is every simulation that has just been
/// made or reset.
pub proof fn lemma_empty_queue_is_closed(m: SimulationModel)
    requires
        m.queue.len() == 0,
        none_is_everyone(m.processes),
    ensures
        m.closed(),
        balance(m) == total_books(m.processes),
{
}

/// An event queued from outside leaves a closed simulation closed, if it
/// is no offer or comes from a process that sends offers; it takes from
/// the balance what it is worth.
pub proof fn lemma_schedule_conserves(m: SimulationModel, event: EventView)
    requires
        m.quiescent(),
        m.closed(),
        known_sender(m.processes, event),
        m.schedule(event).error is None,
    ensures
        m.schedule(event).model.closed(),
        balance(m.schedule(event).model) == balance(m) - worth(m.processes, event),
{
    reveal_with_fuel(SimulationModel::schedule_all, 2);
    reveal_with_fuel(worth_of, 2);
    let one = seq![event];
    assert(one.drop_last() =~= Seq::<EventView>::empty());
    assert(m.schedule_all(one) == m.schedule(event));
    lemma_schedule_all_conserves(m, one);
}

/// Handing a batch to its target conserves: afterwards the books, less
/// what the events handed back are worth, are the books before, less what
/// the batch was worth.
pub proof fn lemma_deliver_batch_conserves(m: SimulationModel, i: int, batch: Seq<EventView>)
    requires
        m.valid(),
        none_is_everyone(m.processes),
        0 <= i < m.processes.len(),
        senders_known(m.processes, batch),
        all_events(batch, |e: EventView| e.target_id == m.processes[i].id()),
        m.deliver(i, batch).error is None,
    ensures
        ({
            let after = m.deliver(i, batch);
            &&& all_alike(m.processes, after.model.processes)
            &&& senders_known(after.model.processes, after.events)
            &&& total_books(after.model.processes) - worth_of(after.model.processes, after.events)
                == total_books(m.processes) - worth_of(m.processes, batch)
        }),
{
    let process = m.processes[i];
    let context = m.context_of(process.id());
    let after = m.deliver(i, batch);
    assert(process.valid());
    lemma_index_of(m.processes, process.id());
    assert(index_of(m.processes, process.id()) == i) by {
        let found = index_of(m.processes, process.id());
        if found < i {
            assert(m.processes[found].id() != m.processes[i].id());
        }
    }
    lemma_batch_conserves(m.processes, i, batch, context);
    let next = after.model.processes[i];
    lemma_books_update(m.processes, i, next);
    assert forall|k: int| 0 <= k < m.processes.len() implies alike(
        #[trigger] m.processes[k],
        after.model.processes[k],
    ) by {}
    lemma_alike_worth_of(m.processes, after.model.processes, after.events);
}

/// Handing out a run of events to every process conserves.
pub proof fn lemma_broadcast_each_conserves(m: SimulationModel, events: Seq<EventView>)
    requires
        m.valid(),
        none_is_everyone(m.processes),
        senders_known(m.processes, events),
        all_events(events, |e: EventView| e.target_id == broadcast_id()),
        m.broadcast_each(events).error is None,
    ensures
        ({
            let after = m.broadcast_each(events);
            &&& all_alike(m.processes, after.model.processes)
            &&& senders_known(after.model.processes, after.events)
            &&& total_books(after.model.processes) - worth_of(after.model.processes, after.events)
                == total_books(m.processes) - worth_of(m.processes, events)
        }),
    decreases events.len(),
{
    if events.len() > 0 {
        let earlier = events.drop_last();
        let everyone = |e: EventView| e.target_id == broadcast_id();
        assert forall|k: int| 0 <= k < earlier.len() implies everyone(#[trigger] earlier[k]) by {
            assert(earlier[k] == events[k]);
        }
        assert forall|k: int| 0 <= k < earlier.len() implies known_sender(
            m.processes,
            #[trigger] earlier[k],
        ) by {
            assert(earlier[k] == events[k]);
        }
        let before = m.broadcast_each(earlier);
        assert(before.error is None);
        crate::simulator::laws::lemma_broadcast_each(m, earlier);
        lemma_broadcast_each_conserves(m, earlier);
        let between = before.model;
        let event = events[events.len() - 1];
        assert(everyone(event));
        assert(known_sender(m.processes, event));
        lemma_alike_worth(m.processes, between.processes, event);
        assert forall|k: int| 0 <= k < between.processes.len() implies (
        #[trigger] between.processes[k]).id() != broadcast_id() by {
            assert(alike(m.processes[k], between.processes[k]));
        }
        lemma_broadcast_conserves(between, event, between.processes.len());
        let last = between.broadcast(event);
        let after = m.broadcast_each(events);
        assert forall|k: int| 0 <= k < m.processes.len() implies alike(
            #[trigger] m.processes[k],
            after.model.processes[k],
        ) by {
            assert(alike(m.processes[k], between.processes[k]));
            assert(alike(between.processes[k], last.model.processes[k]));
        }
        lemma_alike_worth_of(between.processes, last.model.processes, before.events);
        lemma_worth_of_sum(last.model.processes, before.events, last.events);
        assert forall|k: int| 0 <= k < after.events.len() implies known_sender(
            after.model.processes,
            #[trigger] after.events[k],
        ) by {
            if k < before.events.len() {
                assert(after.events[k] == before.events[k]);
            } else {
                assert(after.events[k] == last.events[k - before.events.len()]);
            }
        }
    }
}

/// Handling the first group of a batch takes from the balance what the
/// group was worth.
pub proof fn lemma_first_group_conserves(m: SimulationModel, batch: Seq<EventView>)
    requires
        m.quiescent(),
        m.closed(),
        batch.len() > 0,
        senders_known(m.processes, batch),
        m.first_group(batch).error is None,
    ensures
        ({
            let after = m.first_group(batch).model;
            let group = addressed_to(batch, batch[0].target_id);
            &&& after.quiescent()
            &&& after.closed()
            &&& all_alike(m.processes, after.processes)
            &&& balance(after) == balance(m) - worth_of(m.processes, group)
        }),
{
    reveal(SimulationModel::first_group);
    let target = batch[0].target_id;
    let group = addressed_to(batch, target);
    let known = |e: EventView| known_sender(m.processes, e);
    assert(all_events(batch, known)) by {
        assert forall|k: int| 0 <= k < batch.len() implies known(#[trigger] batch[k]) by {
            assert(known_sender(m.processes, batch[k]));
        }
    }
    lemma_parting_keeps(batch, target, known);
    assert(senders_known(m.processes, group)) by {
        assert forall|k: int| 0 <= k < group.len() implies known_sender(
            m.processes,
            #[trigger] group[k],
        ) by {
            assert(known(group[k]));
        }
    }
    let addressed = |e: EventView| e.target_id == target;
    lemma_index_of(m.processes, target);
    let i = index_of(m.processes, target);
    crate::simulator::laws::lemma_broadcast_each(m, group);
    if target == broadcast_id() {
        assert(all_events(group, |e: EventView| e.target_id == broadcast_id())) by {
            assert forall|k: int| 0 <= k < group.len() implies (|e: EventView|
                e.target_id == broadcast_id())(#[trigger] group[k]) by {
                assert(addressed(group[k]));
            }
        }
        lemma_broadcast_each_conserves(m, group);
    } else {
        assert(all_events(group, |e: EventView| e.target_id == m.processes[i].id())) by {
            assert forall|k: int| 0 <= k < group.len() implies (|e: EventView|
                e.target_id == m.processes[i].id())(#[trigger] group[k]) by {
                assert(addressed(group[k]));
            }
        }
        crate::simulator::laws::lemma_deliver(m, i, group);
        lemma_deliver_batch_conserves(m, i, group);
    }
    let handed = m.group_delivered(target, group);
    lemma_alike_closed(m, handed.model);
    lemma_schedule_all(handed.model, handed.events, batch[0]);
    lemma_schedule_all_conserves(handed.model, handed.events);
}

/// Handling a batch takes from the balance what the batch was worth.
pub proof fn lemma_round_conserves(m: SimulationModel, batch: Seq<EventView>)
    requires
        m.quiescent(),
        m.closed(),
        senders_known(m.processes, batch),
        m.round(batch).error is None,
    ensures
        ({
            let after = m.round(batch).model;
            &&& after.quiescent()
            &&& after.closed()
            &&& all_alike(m.processes, after.processes)
            &&& balance(after) == balance(m) - worth_of(m.processes, batch)
        }),
    decreases batch.len(),
{
    reveal(SimulationModel::round);
    if batch.len() == 0 {
        assert forall|k: int| 0 <= k < m.processes.len() implies alike(
            #[trigger] m.processes[k],
            m.processes[k],
        ) by {}
    } else {
        let target = batch[0].target_id;
        let first = m.first_group(batch);
        let rest = addressed_elsewhere(batch, target);
        assert(first.error is None);
        lemma_first_group_conserves(m, batch);
        crate::simulator::semantics::lemma_parts_len(batch, target);
        crate::simulator::semantics::lemma_group_not_empty(batch, 0);
        let known = |e: EventView| known_sender(m.processes, e);
        assert(all_events(batch, known)) by {
            assert forall|k: int| 0 <= k < batch.len() implies known(#[trigger] batch[k]) by {
                assert(known_sender(m.processes, batch[k]));
            }
        }
        lemma_parting_keeps(batch, target, known);
        assert(senders_known(m.processes, rest)) by {
            assert forall|k: int| 0 <= k < rest.len() implies known_sender(
                m.processes,
                #[trigger] rest[k],
            ) by {
                assert(known(rest[k]));
            }
        }
        lemma_alike_worth_of(m.processes, first.model.processes, rest);
        lemma_round_conserves(first.model, rest);
        lemma_parting_keeps_worth(m.processes, batch, target);
        let after = m.round(batch).model;
        assert forall|k: int| 0 <= k < m.processes.len() implies alike(
            #[trigger] m.processes[k],
            after.processes[k],
        ) by {
            assert(alike(m.processes[k], first.model.processes[k]));
            assert(alike(first.model.processes[k], after.processes[k]));
        }
    }
}

/// The events at the head of a queue, taken out, take their worth with
/// them, and leave known the senders of those that stay.
pub proof fn lemma_taking_conserves(m: SimulationModel, n: int)
    requires
        m.closed(),
        0 <= n <= m.queue.len(),
    ensures
        m.without_first(n).closed(),
        senders_known(m.processes, m.queue.take(n)),
        balance(m.without_first(n)) == balance(m) + worth_of(m.processes, m.queue.take(n)),
{
    assert(m.queue.take(n) + m.queue.skip(n) =~= m.queue);
    lemma_worth_of_sum(m.processes, m.queue.take(n), m.queue.skip(n));
    assert forall|k: int| 0 <= k < m.queue.skip(n).len() implies known_sender(
        m.processes,
        #[trigger] m.queue.skip(n)[k],
    ) by {
        assert(m.queue.skip(n)[k] == m.queue[k + n]);
    }
    assert forall|k: int| 0 <= k < m.queue.take(n).len() implies known_sender(
        m.processes,
        #[trigger] m.queue.take(n)[k],
    ) by {
        assert(m.queue.take(n)[k] == m.queue[k]);
    }
}

/// Handling batch after batch takes from the balance what the first batch
/// was worth: every later batch comes out of the queue.
pub proof fn lemma_rounds_conserve(m: SimulationModel, batch: Seq<EventView>, fuel: nat)
    requires
        m.quiescent(),
        m.closed(),
        senders_known(m.processes, batch),
        m.rounds(batch, fuel).error is None,
    ensures
        ({
            let after = m.rounds(batch, fuel).model;
            &&& after.quiescent()
            &&& after.closed()
            &&& balance(after) == balance(m) - worth_of(m.processes, batch)
        }),
    decreases fuel,
{
    crate::simulator::semantics::lemma_rounds_unfold(m, batch, fuel);
    let first = m.round(batch);
    let due = crate::simulator::semantics::due_count(
        first.model.queue,
        first.model.clock.current_time,
    );
    if first.error is Some || fuel == 0 || due == 0 {
        lemma_round_conserves(m, batch);
    } else {
        lemma_round_conserves(m, batch);
        crate::simulator::semantics::lemma_due_count_bound(
            first.model.queue,
            first.model.clock.current_time,
        );
        lemma_without_first(first.model, due as int, 0);
        lemma_taking_conserves(first.model, due as int);
        lemma_rounds_conserve(
            first.model.without_first(due as int),
            first.model.queue.take(due as int),
            (fuel - 1) as nat,
        );
    }
}

/// Conservation: a step leaves the balance of a closed simulation as it
/// was, and the simulation closed.
pub proof fn lemma_step_conserves(m: SimulationModel)
    requires
        m.quiescent(),
        m.closed(),
        m.step().error is None,
    ensures
        m.step().model.quiescent(),
        m.step().model.closed(),
        balance(m.step().model) == balance(m),
{
    let start = start_event(m.clock.current_time);
    lemma_started(m, start);
    if m.clock.current_step == 0 {
        lemma_worth_of_others(m.processes, start);
        lemma_handling_conserves(m, start);
    }
    let opened = m.started().model;
    if opened.queue.len() == 0 {
        let end = end_event(opened.clock.current_time);
        lemma_end_changes_nothing(opened, end, opened.processes.len());
    } else {
        let time = opened.queue[0].time;
        lemma_without_first(opened, 0, time);
        let moved = opened.advanced_to(time);
        let due = crate::simulator::semantics::due_count(moved.queue, time);
        crate::simulator::semantics::lemma_due_count_bound(moved.queue, time);
        lemma_without_first(moved, due as int, time);
        lemma_taking_conserves(moved, due as int);
        lemma_rounds_conserve(
            moved.without_first(due as int),
            moved.queue.take(due as int),
            moved.budget(),
        );
        let handled = moved.without_first(due as int).rounds(
            moved.queue.take(due as int),
            moved.budget(),
        ).model;
        let end = end_event(handled.clock.current_time);
        lemma_end_changes_nothing(handled, end, handled.processes.len());
    }
}

/// Conservation: any number of steps leave the balance of a closed
/// simulation as it was.
pub proof fn lemma_steps_conserve(m: SimulationModel, n: nat)
    requires
        m.quiescent(),
        m.closed(),
        m.steps(n).error is None,
    ensures
        m.steps(n).model.quiescent(),
        m.steps(n).model.closed(),
        balance(m.steps(n).model) == balance(m),
    decreases n,
{
    crate::simulator::semantics::lemma_steps_unfold(m, n);
    if n > 0 {
        let before = m.steps((n - 1) as nat);
        assert(before.error is None);
        lemma_steps_conserve(m, (n - 1) as nat);
        lemma_step_conserves(before.model);
    }
}

/// Conservation: stepping until a time leaves the balance of a closed
/// simulation as it was.
pub proof fn lemma_until_conserves(m: SimulationModel, until: int, fuel: nat)
    requires
        m.quiescent(),
        m.closed(),
        m.until(until, fuel).error is None,
    ensures
        m.until(until, fuel).model.quiescent(),
        m.until(until, fuel).model.closed(),
        balance(m.until(until, fuel).model) == balance(m),
    decreases fuel,
{
    crate::simulator::semantics::lemma_until_unfolds(m, until, fuel);
    if m.before_or_at(until) {
        lemma_step_conserves(m);
        if !(m.step().error is Some || m.step().events.len() == 0 || fuel == 0) {
            lemma_until_conserves(m.step().model, until, (fuel - 1) as nat);
        }
    }
}

} // verus!
