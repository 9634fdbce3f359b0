//! The queue of events that are still to be handled.

use crate::simulator::event::{events_view, not_after, precedes, Event, EventView};
use vstd::prelude::*;

verus! {

/// The events still to be handled, earliest first; among events of one
/// time, the lower sequence number first, and events that agree in both in
/// the order in which they were put in.
#[derive(Debug)]
pub struct EventQueue {
    events: Vec<Event>,
}

impl View for EventQueue {
    type V = Seq<EventView>;

    closed spec fn view(&self) -> Seq<EventView> {
        events_view(self.events@)
    }
}

/// Whether no event of the sequence comes after a later one.
pub open spec fn in_order(queue: Seq<EventView>) -> bool {
    forall|i: int, j: int| 0 <= i < j < queue.len() ==> not_after(queue[i], queue[j])
}

/// `queue` with `e` put behind the last event that `e` does not precede.
pub open spec fn enqueue(queue: Seq<EventView>, e: EventView) -> Seq<EventView>
    decreases queue.len(),
{
    if queue.len() == 0 {
        seq![e]
    } else if precedes(e, queue.last()) {
        enqueue(queue.drop_last(), e).push(queue.last())
    } else {
        queue.push(e)
    }
}

/// Where `enqueue` puts an event.
pub proof fn lemma_enqueue_position(queue: Seq<EventView>, e: EventView, j: int)
    requires
        0 <= j <= queue.len(),
        forall|k: int| j <= k < queue.len() ==> precedes(e, #[trigger] queue[k]),
        j == 0 || !precedes(e, queue[j - 1]),
    ensures
        enqueue(queue, e) == queue.insert(j, e),
    decreases queue.len(),
{
    if queue.len() == 0 {
        assert(seq![e] =~= queue.insert(j, e));
    } else if j == queue.len() {
        assert(queue.push(e) =~= queue.insert(j, e));
    } else {
        assert(precedes(e, queue[queue.len() - 1]));
        let shorter = queue.drop_last();
        assert forall|k: int| j <= k < shorter.len() implies precedes(e, #[trigger] shorter[k]) by {
            assert(shorter[k] == queue[k]);
        }
        if j > 0 {
            assert(shorter[j - 1] == queue[j - 1]);
        }
        lemma_enqueue_position(shorter, e, j);
        assert(shorter.insert(j, e).push(queue.last()) =~= queue.insert(j, e));
    }
}

/// Putting an event into a queue leaves it one longer.
pub proof fn lemma_enqueue_len(queue: Seq<EventView>, e: EventView)
    ensures
        enqueue(queue, e).len() == queue.len() + 1,
    decreases queue.len(),
{
    if queue.len() > 0 && precedes(e, queue.last()) {
        lemma_enqueue_len(queue.drop_last(), e);
    }
}

/// Putting an event into a queue that is in order leaves it in order.
pub proof fn lemma_enqueue_in_order(queue: Seq<EventView>, e: EventView)
    requires
        in_order(queue),
    ensures
        in_order(enqueue(queue, e)),
    decreases queue.len(),
{
    if queue.len() == 0 {
    } else if precedes(e, queue.last()) {
        let shorter = queue.drop_last();
        assert forall|i: int, j: int| 0 <= i < j < shorter.len() implies not_after(
            shorter[i],
            shorter[j],
        ) by {
            assert(shorter[i] == queue[i]);
            assert(shorter[j] == queue[j]);
        }
        lemma_enqueue_in_order(shorter, e);
        lemma_enqueue_len(shorter, e);
        lemma_enqueue_members(shorter, e);
        let fuller = enqueue(shorter, e);
        let whole = fuller.push(queue.last());
        assert forall|i: int, j: int| 0 <= i < j < whole.len() implies not_after(
            whole[i],
            whole[j],
        ) by {
            if j < fuller.len() {
                assert(whole[i] == fuller[i]);
                assert(whole[j] == fuller[j]);
            } else {
                assert(whole[i] == fuller[i]);
                if fuller[i] != e {
                    let k = choose|k: int| 0 <= k < shorter.len() && shorter[k] == fuller[i];
                    assert(shorter[k] == queue[k]);
                    assert(not_after(queue[k], queue[queue.len() - 1]));
                }
            }
        }
    } else {
        let whole = queue.push(e);
        assert forall|i: int, j: int| 0 <= i < j < whole.len() implies not_after(
            whole[i],
            whole[j],
        ) by {
            if j < queue.len() {
                assert(whole[i] == queue[i]);
                assert(whole[j] == queue[j]);
            } else {
                assert(whole[i] == queue[i]);
                assert(not_after(queue[i], queue[queue.len() - 1]) || i == queue.len() - 1);
            }
        }
    }
}

/// Every event of a queue after `enqueue` is the new event or was in the
/// queue before.
pub proof fn lemma_enqueue_members(queue: Seq<EventView>, e: EventView)
    ensures
        forall|i: int|
            0 <= i < enqueue(queue, e).len() ==> (#[trigger] enqueue(queue, e)[i] == e
                || exists|k: int| 0 <= k < queue.len() && queue[k] == enqueue(queue, e)[i]),
    decreases queue.len(),
{
    if queue.len() == 0 {
    } else if precedes(e, queue.last()) {
        let shorter = queue.drop_last();
        lemma_enqueue_members(shorter, e);
        lemma_enqueue_len(shorter, e);
        let fuller = enqueue(shorter, e);
        let whole = fuller.push(queue.last());
        assert forall|i: int| 0 <= i < whole.len() implies (#[trigger] whole[i] == e || exists|
            k: int,
        |
            0 <= k < queue.len() && queue[k] == whole[i]) by {
            if i < fuller.len() {
                assert(whole[i] == fuller[i]);
                if fuller[i] != e {
                    let k = choose|k: int| 0 <= k < shorter.len() && shorter[k] == fuller[i];
                    assert(queue[k] == whole[i]);
                }
            } else {
                assert(queue[queue.len() - 1] == whole[i]);
            }
        }
    } else {
        let whole = queue.push(e);
        assert forall|i: int| 0 <= i < whole.len() implies (#[trigger] whole[i] == e || exists|
            k: int,
        |
            0 <= k < queue.len() && queue[k] == whole[i]) by {
            if i < queue.len() {
                assert(queue[i] == whole[i]);
            }
        }
    }
}

impl EventQueue {
    /// Whether the queue is in order.
    pub open spec fn wf(&self) -> bool {
        in_order(self@)
    }

    pub fn new() -> (r: EventQueue)
        ensures
            r@ == Seq::<EventView>::empty(),
            r.wf(),
    {
        let r = EventQueue { events: Vec::new() };
        assert(r@ =~= Seq::empty());
        r
    }

    pub fn len(&self) -> (r: usize)
        ensures
            r == self@.len(),
    {
        self.events.len()
    }

    pub fn is_empty(&self) -> (r: bool)
        ensures
            r == (self@.len() == 0),
    {
        self.events.len() == 0
    }

    /// The events in the order in which they will leave the queue.
    pub fn as_slice(&self) -> (r: &[Event])
        ensures
            events_view(r@) == self@,
    {
        self.events.as_slice()
    }

    /// The event that leaves the queue next.
    pub fn peek(&self) -> (r: Option<&Event>)
        ensures
            self@.len() == 0 ==> r is None,
            self@.len() > 0 ==> (r matches Some(e) && e@ == self@[0]),
    {
        if self.events.len() == 0 {
            None
        } else {
            Some(&self.events[0])
        }
    }

    /// Puts an event into the queue.
    pub fn push(&mut self, event: Event)
        requires
            old(self).wf(),
        ensures
            final(self).wf(),
            final(self)@ == enqueue(old(self)@, event@),
    {
        let mut j: usize = self.events.len();
        while j > 0 && event.precedes(&self.events[j - 1])
            invariant
                j <= self.events.len(),
                forall|k: int|
                    j <= k < self.events.len() ==> precedes(event@, #[trigger] self@[k]),
            decreases j,
        {
            j -= 1;
        }
        proof {
            lemma_enqueue_position(self@, event@, j as int);
            lemma_enqueue_in_order(self@, event@);
        }
        let ghost before = self@;
        self.events.insert(j, event);
        assert(self@ =~= before.insert(j as int, event@));
    }

    /// Takes the earliest event out of the queue.
    pub fn pop(&mut self) -> (r: Option<Event>)
        requires
            old(self).wf(),
        ensures
            final(self).wf(),
            old(self)@.len() == 0 ==> r is None && final(self)@ == old(self)@,
            old(self)@.len() > 0 ==> (r matches Some(e) && e@ == old(self)@[0]) && final(self)@
                == old(self)@.drop_first(),
    {
        if self.events.len() == 0 {
            None
        } else {
            let ghost before = self@;
            let event = self.events.remove(0);
            assert(self@ =~= before.drop_first());
            assert forall|i: int, j: int| 0 <= i < j < self@.len() implies not_after(
                self@[i],
                self@[j],
            ) by {
                assert(self@[i] == before[i + 1]);
                assert(self@[j] == before[j + 1]);
            }
            Some(event)
        }
    }

    /// Empties the queue.
    pub fn clear(&mut self)
        ensures
            final(self).wf(),
            final(self)@ == Seq::<EventView>::empty(),
    {
        self.events.clear();
        assert(self@ =~= Seq::empty());
    }
}

} // verus!
