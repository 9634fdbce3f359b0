//! The order in which a process handles events that reach it at one time.

use crate::model::nodes::resource::{no_events, push_event};
use crate::model::process_context::{ContextView, ProcessContext};
use crate::model::process_trait::{ProcessModel, Processor};
use crate::simulator::event::{events_view, precedes, Event, EventPayload, EventView, PayloadView};
use crate::utils::errors::{ErrorView, SimulationError};
use vstd::prelude::*;

verus! {

/// The class of a payload: steps first, then requests, then offers, then
/// the replies to offers, then everything else.
pub open spec fn priority(payload: PayloadView) -> nat {
    match payload {
        PayloadView::Step => 0,
        PayloadView::PullRequest | PayloadView::PullAllRequest => 1,
        PayloadView::Resource(_) => 2,
        PayloadView::ResourceAccepted(_) | PayloadView::ResourceRejected(_) => 3,
        _ => 4,
    }
}

/// Whether `a` is handled before `b`: its class is lower, or the classes
/// are equal and `a` leaves the queue first.
pub open spec fn comes_first(a: EventView, b: EventView) -> bool {
    priority(a.payload) < priority(b.payload) || (priority(a.payload) == priority(b.payload)
        && precedes(a, b))
}

/// `sorted` with `e` put behind the last event that `e` does not come
/// before.
pub open spec fn insert_by_priority(sorted: Seq<EventView>, e: EventView) -> Seq<EventView>
    decreases sorted.len(),
{
    if sorted.len() == 0 {
        seq![e]
    } else if comes_first(e, sorted.last()) {
        insert_by_priority(sorted.drop_last(), e).push(sorted.last())
    } else {
        sorted.push(e)
    }
}

/// The events of a batch in the order of handling: by class, within a class
/// by time and sequence number, and otherwise as they came.
pub open spec fn by_priority(batch: Seq<EventView>) -> Seq<EventView>
    decreases batch.len(),
{
    if batch.len() == 0 {
        Seq::empty()
    } else {
        insert_by_priority(by_priority(batch.drop_last()), batch.last())
    }
}

/// The `Step` events among `events`, in order.
pub open spec fn steps_of(events: Seq<EventView>) -> Seq<EventView>
    decreases events.len(),
{
    if events.len() == 0 {
        Seq::empty()
    } else if events.last().payload is Step {
        steps_of(events.drop_last()).push(events.last())
    } else {
        steps_of(events.drop_last())
    }
}

/// The events among `events` that are no `Step`, in order.
pub open spec fn others_of(events: Seq<EventView>) -> Seq<EventView>
    decreases events.len(),
{
    if events.len() == 0 {
        Seq::empty()
    } else if events.last().payload is Step {
        others_of(events.drop_last())
    } else {
        others_of(events.drop_last()).push(events.last())
    }
}

/// Where handling a run of events leads: the process after the last event
/// it handled without failure, what it emitted up to there, and the failure
/// that stopped it, if any.
pub struct BatchOutcome {
    pub model: ProcessModel,
    pub events: Seq<EventView>,
    pub error: Option<ErrorView>,
}

/// Handling `events` one after the other, up to the first failure.
pub open spec fn react_in_order(m: ProcessModel, events: Seq<EventView>, context: ContextView) -> BatchOutcome
    decreases events.len(),
{
    if events.len() == 0 {
        BatchOutcome { model: m, events: Seq::empty(), error: None }
    } else {
        let before = react_in_order(m, events.drop_last(), context);
        if before.error is Some {
            before
        } else {
            match before.model.react(events.last(), context) {
                Ok((next, emitted)) => BatchOutcome {
                    model: next,
                    events: before.events + emitted,
                    error: None,
                },
                Err(e) => BatchOutcome { error: Some(e), ..before },
            }
        }
    }
}

/// Handling a batch of events that are due at one time. Where the batch
/// holds a `Step`, only its steps are handled, and the other events are
/// handed back behind the emitted ones, to be scheduled again at the same
/// time. Otherwise all are handled, in the order of handling.
pub open spec fn react_to_batch(m: ProcessModel, batch: Seq<EventView>, context: ContextView) -> BatchOutcome {
    let sorted = by_priority(batch);
    let steps = steps_of(sorted);
    let others = others_of(sorted);
    if steps.len() > 0 {
        let handled = react_in_order(m, steps, context);
        BatchOutcome { events: handled.events + others, ..handled }
    } else {
        react_in_order(m, others, context)
    }
}

/// The events of a batch that are handled when the batch is delivered.
pub open spec fn handled_of(batch: Seq<EventView>) -> Seq<EventView> {
    let sorted = by_priority(batch);
    if steps_of(sorted).len() > 0 {
        steps_of(sorted)
    } else {
        others_of(sorted)
    }
}

/// A process that should have come to `expected` is now `after` and has
/// returned `result`.
pub open spec fn batch_reacted(
    expected: BatchOutcome,
    after: ProcessModel,
    result: Result<Vec<Event>, SimulationError>,
) -> bool {
    &&& after == expected.model
    &&& match expected.error {
        None => result matches Ok(emitted) && events_view(emitted@) == expected.events,
        Some(error) => result matches Err(e) && e@ == error,
    }
}

/// Handling an event changes neither the identifier nor the kind of a
/// process.
pub proof fn lemma_react_keeps_identity(m: ProcessModel, event: EventView, context: ContextView)
    ensures
        m.react(event, context) matches Ok((next, _)) ==> next.id() == m.id() && next.kind()
            == m.kind(),
{
}

/// Handling a run of events changes neither the identifier nor the kind of
/// a process, and leaves it within its bounds.
pub proof fn lemma_run_keeps_identity(m: ProcessModel, events: Seq<EventView>, context: ContextView)
    ensures
        react_in_order(m, events, context).model.id() == m.id(),
        react_in_order(m, events, context).model.kind() == m.kind(),
    decreases events.len(),
{
    if events.len() > 0 {
        lemma_run_keeps_identity(m, events.drop_last(), context);
        let before = react_in_order(m, events.drop_last(), context);
        lemma_react_keeps_identity(before.model, events.last(), context);
    }
}

/// Handling a batch changes neither the identifier nor the kind of a
/// process.
pub proof fn lemma_batch_keeps_identity(m: ProcessModel, batch: Seq<EventView>, context: ContextView)
    ensures
        react_to_batch(m, batch, context).model.id() == m.id(),
        react_to_batch(m, batch, context).model.kind() == m.kind(),
{
    let sorted = by_priority(batch);
    lemma_run_keeps_identity(m, steps_of(sorted), context);
    lemma_run_keeps_identity(m, others_of(sorted), context);
}

/// The views of a sequence of borrowed events, in order.
pub open spec fn borrowed_view(events: Seq<&Event>) -> Seq<EventView> {
    Seq::new(events.len(), |i: int| events[i]@)
}

/// Where `insert_by_priority` puts an event: at the position behind which
/// every event comes after it, and before which the nearest does not.
pub proof fn lemma_insert_position(sorted: Seq<EventView>, e: EventView, j: int)
    requires
        0 <= j <= sorted.len(),
        forall|k: int| j <= k < sorted.len() ==> comes_first(e, #[trigger] sorted[k]),
        j == 0 || !comes_first(e, sorted[j - 1]),
    ensures
        insert_by_priority(sorted, e) == sorted.insert(j, e),
    decreases sorted.len(),
{
    if sorted.len() == 0 {
        assert(seq![e] =~= sorted.insert(j, e));
    } else if j == sorted.len() {
        assert(sorted.push(e) =~= sorted.insert(j, e));
    } else {
        assert(comes_first(e, sorted[sorted.len() - 1]));
        let shorter = sorted.drop_last();
        assert forall|k: int| j <= k < shorter.len() implies comes_first(
            e,
            #[trigger] shorter[k],
        ) by {
            assert(shorter[k] == sorted[k]);
        }
        if j > 0 {
            assert(shorter[j - 1] == sorted[j - 1]);
        }
        lemma_insert_position(shorter, e, j);
        assert(shorter.insert(j, e).push(sorted.last()) =~= sorted.insert(j, e));
    }
}

/// Whether no event of a sequence comes first of an event before it.
pub open spec fn in_order_of_handling(events: Seq<EventView>) -> bool {
    forall|i: int, j: int| 0 <= i < j < events.len() ==> !comes_first(events[j], events[i])
}

/// An event put into a run that is in the order of handling leaves it in
/// that order, and adds just that event to it.
pub proof fn lemma_insert_keeps_order(sorted: Seq<EventView>, e: EventView)
    requires
        in_order_of_handling(sorted),
    ensures
        in_order_of_handling(insert_by_priority(sorted, e)),
        insert_by_priority(sorted, e).to_multiset() == sorted.to_multiset().insert(e),
    decreases sorted.len(),
{
    broadcast use vstd::seq_lib::to_multiset_build;

    if sorted.len() == 0 {
        assert(seq![e] =~= sorted.push(e));
    } else if comes_first(e, sorted.last()) {
        let shorter = sorted.drop_last();
        let last = sorted.last();
        assert forall|i: int, j: int| 0 <= i < j < shorter.len() implies !comes_first(
            shorter[j],
            shorter[i],
        ) by {
            assert(shorter[i] == sorted[i]);
            assert(shorter[j] == sorted[j]);
        }
        lemma_insert_keeps_order(shorter, e);
        let fuller = insert_by_priority(shorter, e);
        let whole = fuller.push(last);
        assert(shorter.push(last) =~= sorted);
        assert(whole.to_multiset() =~= sorted.to_multiset().insert(e));
        assert forall|i: int, j: int| 0 <= i < j < whole.len() implies !comes_first(
            whole[j],
            whole[i],
        ) by {
            if j < fuller.len() {
                assert(whole[i] == fuller[i]);
                assert(whole[j] == fuller[j]);
            } else {
                assert(whole[i] == fuller[i]);
                assert(fuller.to_multiset().count(fuller[i]) > 0) by {
                    broadcast use vstd::seq_lib::to_multiset_contains;

                    assert(fuller.contains(fuller[i]));
                }
                if fuller[i] != e {
                    assert(shorter.to_multiset().count(fuller[i]) > 0);
                    assert(shorter.contains(fuller[i])) by {
                        broadcast use vstd::seq_lib::to_multiset_contains;

                    }
                    let k = choose|k: int| 0 <= k < shorter.len() && shorter[k] == fuller[i];
                    assert(shorter[k] == sorted[k]);
                    assert(!comes_first(sorted[sorted.len() - 1], sorted[k]));
                }
            }
        }
    } else {
        let whole = sorted.push(e);
        assert forall|i: int, j: int| 0 <= i < j < whole.len() implies !comes_first(
            whole[j],
            whole[i],
        ) by {
            assert(whole[i] == sorted[i]);
            if j < sorted.len() {
                assert(whole[j] == sorted[j]);
            } else if i < sorted.len() - 1 {
                assert(!comes_first(sorted[sorted.len() - 1], sorted[i]));
            }
        }
    }
}

/// The order of handling is a sorting: it holds the events of the batch,
/// each as often as the batch, and no event in it comes first of an event
/// before it.
pub proof fn lemma_by_priority_sorts(batch: Seq<EventView>)
    ensures
        in_order_of_handling(by_priority(batch)),
        by_priority(batch).to_multiset() == batch.to_multiset(),
    decreases batch.len(),
{
    broadcast use vstd::seq_lib::to_multiset_build;

    if batch.len() > 0 {
        lemma_by_priority_sorts(batch.drop_last());
        lemma_insert_keeps_order(by_priority(batch.drop_last()), batch.last());
        assert(batch.drop_last().push(batch.last()) =~= batch);
    } else {
        assert(batch =~= Seq::<EventView>::empty());
    }
}

/// The class of a payload.
pub fn class_of(payload: &EventPayload) -> (r: u8)
    ensures
        r == priority(payload@),
{
    match payload {
        EventPayload::Step => 0,
        EventPayload::PullRequest => 1,
        EventPayload::PullAllRequest => 1,
        EventPayload::Resource(_) => 2,
        EventPayload::ResourceAccepted(_) => 3,
        EventPayload::ResourceRejected(_) => 3,
        _ => 4,
    }
}

/// Decides `comes_first`.
pub fn handled_before(a: &Event, b: &Event) -> (r: bool)
    ensures
        r == comes_first(a@, b@),
{
    let class_a = class_of(&a.payload);
    let class_b = class_of(&b.payload);
    class_a < class_b || (class_a == class_b && a.precedes(b))
}

/// The events of a batch in the order of handling.
pub fn sort_by_priority<'a>(events: &'a [Event]) -> (r: Vec<&'a Event>)
    ensures
        borrowed_view(r@) == by_priority(events_view(events@)),
{
    let mut sorted: Vec<&'a Event> = Vec::new();
    assert(borrowed_view(sorted@) =~= Seq::empty());
    let mut i: usize = 0;
    while i < events.len()
        invariant
            i <= events.len(),
            sorted.len() == i,
            borrowed_view(sorted@) == by_priority(events_view(events@).take(i as int)),
        decreases events.len() - i,
    {
        let ghost all = events_view(events@);
        assert(all.take(i + 1).drop_last() =~= all.take(i as int));
        assert(all.take(i + 1).last() == events@[i as int]@);
        let event = &events[i];
        let mut j: usize = sorted.len();
        while j > 0 && handled_before(event, sorted[j - 1])
            invariant
                j <= sorted.len(),
                forall|k: int|
                    j <= k < sorted.len() ==> comes_first(
                        event@,
                        #[trigger] borrowed_view(sorted@)[k],
                    ),
            decreases j,
        {
            j -= 1;
        }
        proof {
            lemma_insert_position(borrowed_view(sorted@), event@, j as int);
        }
        let ghost before = borrowed_view(sorted@);
        sorted.insert(j, event);
        assert(borrowed_view(sorted@) =~= before.insert(j as int, event@));
        i += 1;
    }
    assert(events_view(events@).take(i as int) =~= events_view(events@));
    sorted
}

/// Parts a sorted batch into its steps and its other events.
pub fn split_steps<'a>(sorted: &Vec<&'a Event>) -> (r: (Vec<&'a Event>, Vec<&'a Event>))
    ensures
        borrowed_view(r.0@) == steps_of(borrowed_view(sorted@)),
        borrowed_view(r.1@) == others_of(borrowed_view(sorted@)),
{
    let mut steps: Vec<&'a Event> = Vec::new();
    let mut others: Vec<&'a Event> = Vec::new();
    assert(borrowed_view(steps@) =~= Seq::empty());
    assert(borrowed_view(others@) =~= Seq::empty());
    let mut i: usize = 0;
    while i < sorted.len()
        invariant
            i <= sorted.len(),
            borrowed_view(steps@) == steps_of(borrowed_view(sorted@).take(i as int)),
            borrowed_view(others@) == others_of(borrowed_view(sorted@).take(i as int)),
        decreases sorted.len() - i,
    {
        let ghost all = borrowed_view(sorted@);
        assert(all.take(i + 1).drop_last() =~= all.take(i as int));
        assert(all.take(i + 1).last() == sorted@[i as int]@);
        let ghost steps_before = borrowed_view(steps@);
        let ghost others_before = borrowed_view(others@);
        match &sorted[i].payload {
            EventPayload::Step => {
                steps.push(sorted[i]);
                assert(borrowed_view(steps@) =~= steps_before.push(sorted@[i as int]@));
            },
            _ => {
                others.push(sorted[i]);
                assert(borrowed_view(others@) =~= others_before.push(sorted@[i as int]@));
            },
        }
        i += 1;
    }
    assert(borrowed_view(sorted@).take(i as int) =~= borrowed_view(sorted@));
    (steps, others)
}

/// Once a run of events has failed, handing the process more events changes
/// nothing: the outcome of the whole run is that of the part that failed.
pub proof fn lemma_failure_stays(
    m: ProcessModel,
    events: Seq<EventView>,
    context: ContextView,
    n: int,
)
    requires
        0 <= n <= events.len(),
        react_in_order(m, events.take(n), context).error is Some,
    ensures
        react_in_order(m, events, context) == react_in_order(m, events.take(n), context),
    decreases events.len() - n,
{
    if n == events.len() {
        assert(events.take(n) =~= events);
    } else {
        assert(events.take(n + 1).drop_last() =~= events.take(n));
        lemma_failure_stays(m, events, context, n + 1);
    }
}

/// Handles a batch of events that are due at one time, by the order of
/// handling: what `on_events` does for every kind of process.
pub fn process_events_with_priority<P: Processor>(
    process: &mut P,
    events: &[Event],
    context: &ProcessContext,
) -> (r: Result<Vec<Event>, SimulationError>)
    requires
        old(process).model().valid(),
    ensures
        final(process).model().valid(),
        batch_reacted(
            react_to_batch(old(process).model(), events_view(events@), context@),
            final(process).model(),
            r,
        ),
{
    process.on_events(events, context)
}

} // verus!
