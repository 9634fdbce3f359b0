//! What holds of every process, whatever event it handles.

use crate::model::connection::ConnectionView;
use crate::model::nodes::delay::{delay_valid, DelayModel};
use crate::model::nodes::event_priority::{react_in_order, react_to_batch, by_priority, steps_of, others_of};
use crate::model::nodes::pool::{pool_valid, push_any, PoolModel};
use crate::model::nodes::resource::{offers_at_rate, replies, requests};
use crate::model::process_context::ContextView;
use crate::model::process_trait::ProcessModel;
use crate::simulator::event::{EventView, PayloadView};
use crate::fixed::EPSILON_RAW;
use vstd::prelude::*;

verus! {

/// Whether every event of a sequence names `id` as its source, and as its
/// source port either none or one of `ports`.
pub open spec fn sent_by(events: Seq<EventView>, id: Seq<char>, ports: Seq<Seq<char>>) -> bool {
    forall|i: int|
        0 <= i < events.len() ==> (#[trigger] events[i]).source_id == id && (
        events[i].source_port matches Some(port) ==> ports.contains(port))
}

/// The sum of the amounts that the acceptances among `events` carry: what
/// receivers have booked and senders have yet to hear of.
pub open spec fn acknowledged(events: Seq<EventView>) -> int
    decreases events.len(),
{
    if events.len() == 0 {
        0
    } else {
        acknowledged(events.drop_last()) + match events.last().payload {
            PayloadView::ResourceAccepted(amount) => amount,
            _ => 0,
        }
    }
}

/// What a process holds on its books: a pool its resources, a delay what it
/// has received and not released, a drain what it has consumed; a source
/// owes what it has produced.
pub open spec fn books(m: ProcessModel) -> int {
    match m {
        ProcessModel::Source(s) => -s.produced,
        ProcessModel::Pool(p) => p.resources,
        ProcessModel::Drain(d) => d.consumed,
        ProcessModel::Delay(d) => d.received - d.released,
        ProcessModel::Stepper(_) => 0,
    }
}

/// What an event is worth to the process that handles it: the amount of an
/// acceptance, to a process of a kind that sends offers; nothing otherwise.
pub open spec fn credit(m: ProcessModel, event: EventView) -> int {
    match (m, event.payload) {
        (ProcessModel::Source(_), PayloadView::ResourceAccepted(amount)) => amount,
        (ProcessModel::Pool(_), PayloadView::ResourceAccepted(amount)) => amount,
        (ProcessModel::Delay(_), PayloadView::ResourceAccepted(amount)) => amount,
        _ => 0,
    }
}

/// One more event acknowledges what it carries, if it is an acceptance.
pub proof fn lemma_acknowledged_push(events: Seq<EventView>, event: EventView)
    ensures
        acknowledged(events.push(event)) == acknowledged(events) + match event.payload {
            PayloadView::ResourceAccepted(amount) => amount,
            _ => 0,
        },
{
    assert(events.push(event).drop_last() =~= events);
}

/// Offers at the flow rate come from the port `out` of their sender and
/// acknowledge nothing.
pub proof fn lemma_offers(id: Seq<char>, time: int, connections: Seq<ConnectionView>)
    ensures
        sent_by(offers_at_rate(id, time, connections), id, seq!["out"@]),
        acknowledged(offers_at_rate(id, time, connections)) == 0,
    decreases connections.len(),
{
    assert(seq!["out"@][0] == "out"@);
    if connections.len() > 0 {
        lemma_offers(id, time, connections.drop_last());
        lemma_acknowledged_push(
            offers_at_rate(id, time, connections.drop_last()),
            offers_at_rate(id, time, connections).last(),
        );
    }
}

/// Requests come from their sender, name no port, and acknowledge nothing
/// unless they are made of acceptances.
pub proof fn lemma_requests(
    id: Seq<char>,
    time: int,
    connections: Seq<ConnectionView>,
    payload: PayloadView,
    ports: Seq<Seq<char>>,
)
    requires
        !(payload is ResourceAccepted),
    ensures
        sent_by(requests(id, time, connections, payload), id, ports),
        acknowledged(requests(id, time, connections, payload)) == 0,
    decreases connections.len(),
{
    if connections.len() > 0 {
        lemma_requests(id, time, connections.drop_last(), payload, ports);
        lemma_acknowledged_push(
            requests(id, time, connections.drop_last(), payload),
            requests(id, time, connections, payload).last(),
        );
    }
}

/// What a pool pushes comes from its port `out` and acknowledges nothing,
/// and what it has promised afterwards lies between what it had promised
/// and what it holds.
pub proof fn lemma_push_any(
    id: Seq<char>,
    time: int,
    resources: int,
    pending: int,
    connections: Seq<ConnectionView>,
)
    requires
        0 <= pending,
        0 <= resources,
    ensures
        sent_by(push_any(id, time, resources, pending, connections).1, id, seq!["out"@]),
        acknowledged(push_any(id, time, resources, pending, connections).1) == 0,
        pending <= push_any(id, time, resources, pending, connections).0,
        push_any(id, time, resources, pending, connections).0 <= pending || push_any(
            id,
            time,
            resources,
            pending,
            connections,
        ).0 <= resources,
    decreases connections.len(),
{
    assert(seq!["out"@][0] == "out"@);
    if connections.len() > 0 {
        lemma_push_any(id, time, resources, pending, connections.drop_last());
        let earlier = push_any(id, time, resources, pending, connections.drop_last()).1;
        let all = push_any(id, time, resources, pending, connections).1;
        if all.len() > earlier.len() {
            lemma_acknowledged_push(earlier, all.last());
        }
    }
}

/// The replies to an offer come from the receiver, name no port, and
/// acknowledge what was accepted.
pub proof fn lemma_replies(
    id: Seq<char>,
    sender: Seq<char>,
    time: int,
    accepted: int,
    rejected: int,
    ports: Seq<Seq<char>>,
)
    requires
        accepted >= 0,
    ensures
        sent_by(replies(id, sender, time, accepted, rejected), id, ports),
        acknowledged(replies(id, sender, time, accepted, rejected)) == accepted,
{
    let events = replies(id, sender, time, accepted, rejected);
    reveal_with_fuel(acknowledged, 3);
    if accepted > 0 && rejected > 0 {
        assert(events.drop_last() =~= seq![events[0]]);
        assert(events.drop_last().drop_last() =~= Seq::<EventView>::empty());
    } else if accepted > 0 || rejected > 0 {
        assert(events.drop_last() =~= Seq::<EventView>::empty());
    }
}

/// A process that is within the bounds of its kind is still within them
/// after any event it handles without failure. For a pool these bounds are
/// that its resources and its promises are not negative and that its
/// resources do not exceed a capacity that is not negative, within the
/// tolerance; for a delay, that it has released no more than it received,
/// and that neither that nor its promises are negative.
pub proof fn lemma_reaction_keeps_bounds(m: ProcessModel, event: EventView, context: ContextView)
    requires
        m.valid(),
    ensures
        m.react(event, context) matches Ok((next, _)) ==> next.valid(),
        m.react(event, context) matches Ok((ProcessModel::Pool(p), _)) ==> 0 <= p.resources && 0
            <= p.pending && (p.capacity < 0 || p.resources <= p.capacity + EPSILON_RAW),
        m.react(event, context) matches Ok((ProcessModel::Delay(d), _)) ==> d.received
            >= d.released >= 0 && d.pending >= 0,
{
}

/// A process that is within its bounds is still within them after any run
/// of events, whether or not the run fails.
pub proof fn lemma_run_keeps_bounds(m: ProcessModel, events: Seq<EventView>, context: ContextView)
    requires
        m.valid(),
    ensures
        react_in_order(m, events, context).model.valid(),
    decreases events.len(),
{
    if events.len() > 0 {
        lemma_run_keeps_bounds(m, events.drop_last(), context);
        let before = react_in_order(m, events.drop_last(), context);
        lemma_reaction_keeps_bounds(before.model, events.last(), context);
    }
}

/// A process that is within its bounds is still within them after any
/// batch of events.
pub proof fn lemma_batch_keeps_bounds(m: ProcessModel, batch: Seq<EventView>, context: ContextView)
    requires
        m.valid(),
    ensures
        react_to_batch(m, batch, context).model.valid(),
{
    let sorted = by_priority(batch);
    lemma_run_keeps_bounds(m, steps_of(sorted), context);
    lemma_run_keeps_bounds(m, others_of(sorted), context);
}

/// Every event that a process emits when it handles an event names the
/// process as its source, and as its source port either none or one of the
/// output ports that the process declares.
pub proof fn lemma_emitted_from_own_ports(m: ProcessModel, event: EventView, context: ContextView)
    requires
        m.valid(),
    ensures
        m.react(event, context) matches Ok((_, emitted)) ==> sent_by(
            emitted,
            m.id(),
            m.output_ports(),
        ),
{
    let ports = m.output_ports();
    let time = context.current_time;
    let outputs = context.outputs_for_port(Some("out"@));
    let inputs = context.inputs_for_port(Some("in"@));
    match m {
        ProcessModel::Source(s) => {
            assert(seq!["out"@][0] == "out"@);
            lemma_offers(s.id, time, outputs);
        },
        ProcessModel::Pool(p) => {
            assert(seq!["out"@][0] == "out"@);
            lemma_offers(p.id, time, outputs);
            lemma_push_any(p.id, time, p.resources, p.pending, outputs);
            lemma_requests(p.id, time, inputs, PayloadView::PullRequest, ports);
            lemma_requests(p.id, time, inputs, PayloadView::PullAllRequest, ports);
            match event.payload {
                PayloadView::Resource(amount) => {
                    if amount >= 0 {
                        let accepted = crate::model::nodes::pool::accepted_amount(p, amount);
                        lemma_replies(
                            p.id,
                            event.source_id,
                            time,
                            accepted,
                            amount - accepted,
                            ports,
                        );
                    }
                },
                _ => {},
            }
        },
        ProcessModel::Drain(d) => {
            lemma_requests(d.id, time, inputs, PayloadView::PullRequest, ports);
            lemma_requests(d.id, time, inputs, PayloadView::PullAllRequest, ports);
        },
        ProcessModel::Delay(d) => {
            assert(seq!["out"@][0] == "out"@);
            lemma_requests(d.id, time, inputs, PayloadView::PullRequest, ports);
        },
        ProcessModel::Stepper(s) => {
            assert(seq!["step"@][0] == "step"@);
        },
    }
}

/// Conservation at one process: when a process handles an event, what it
/// holds on its books afterwards, less what its replies acknowledge, is
/// what it held before, less what the event was worth to it. No resource
/// comes from nothing and none is lost: an amount is on the books of its
/// sender, or on those of its receiver and acknowledged in an event still
/// under way.
pub proof fn lemma_reaction_conserves(m: ProcessModel, event: EventView, context: ContextView)
    requires
        m.valid(),
    ensures
        m.react(event, context) matches Ok((next, emitted)) ==> books(next) - acknowledged(
            emitted,
        ) == books(m) - credit(m, event),
{
    let ports = m.output_ports();
    let time = context.current_time;
    let outputs = context.outputs_for_port(Some("out"@));
    let inputs = context.inputs_for_port(Some("in"@));
    reveal_with_fuel(acknowledged, 3);
    match m {
        ProcessModel::Source(s) => {
            lemma_offers(s.id, time, outputs);
            if event.payload is PullRequest || event.payload is PullAllRequest {
                let answer = crate::model::nodes::source::source_answer(s, event, context);
                assert(seq![answer].drop_last() =~= Seq::<EventView>::empty());
            }
        },
        ProcessModel::Pool(p) => {
            lemma_offers(p.id, time, outputs);
            lemma_push_any(p.id, time, p.resources, p.pending, outputs);
            lemma_requests(p.id, time, inputs, PayloadView::PullRequest, ports);
            lemma_requests(p.id, time, inputs, PayloadView::PullAllRequest, ports);
            match event.payload {
                PayloadView::Resource(amount) => {
                    if amount >= 0 {
                        let accepted = crate::model::nodes::pool::accepted_amount(p, amount);
                        lemma_replies(
                            p.id,
                            event.source_id,
                            time,
                            accepted,
                            amount - accepted,
                            ports,
                        );
                    }
                },
                PayloadView::PullRequest => {
                    let granted = crate::model::nodes::pool::pool_answer_pull(
                        p,
                        event.source_id,
                        context,
                    );
                    if granted.1.len() > 0 {
                        assert(granted.1.drop_last() =~= Seq::<EventView>::empty());
                    }
                },
                PayloadView::PullAllRequest => {
                    let granted = crate::model::nodes::pool::pool_answer_pull_all(
                        p,
                        event.source_id,
                        context,
                    );
                    if granted.1.len() > 0 {
                        assert(granted.1.drop_last() =~= Seq::<EventView>::empty());
                    }
                },
                _ => {},
            }
        },
        ProcessModel::Drain(d) => {
            lemma_requests(d.id, time, inputs, PayloadView::PullRequest, ports);
            lemma_requests(d.id, time, inputs, PayloadView::PullAllRequest, ports);
            match event.payload {
                PayloadView::Resource(amount) => {
                    let taken = crate::model::nodes::drain::drain_receive(
                        d,
                        event.source_id,
                        time,
                        amount,
                    );
                    assert(taken.1.drop_last() =~= Seq::<EventView>::empty());
                },
                _ => {},
            }
        },
        ProcessModel::Delay(d) => {
            lemma_requests(d.id, time, inputs, PayloadView::PullRequest, ports);
            match event.payload {
                PayloadView::Resource(amount) => {
                    let taken = crate::model::nodes::delay::delay_receive(
                        d,
                        event.source_id,
                        context,
                        amount,
                    );
                    if taken.1.len() == 1 {
                        assert(taken.1.drop_last() =~= Seq::<EventView>::empty());
                    } else if taken.1.len() == 2 {
                        assert(taken.1.drop_last() =~= seq![taken.1[0]]);
                        assert(taken.1.drop_last().drop_last() =~= Seq::<EventView>::empty());
                    }
                },
                PayloadView::Step => {
                    let stepped = crate::model::nodes::delay::delay_step(d, context);
                    if stepped.1.len() > 0 {
                        assert(stepped.1.drop_last() =~= Seq::<EventView>::empty());
                    }
                },
                _ => {},
            }
        },
        ProcessModel::Stepper(s) => {
            if event.payload is SimulationStart || event.payload is Step {
                let step = crate::model::nodes::stepper::next_step(s, time);
                assert(seq![step].drop_last() =~= Seq::<EventView>::empty());
            }
        },
    }
}

/// Whether a process is of a kind that sends offers, and so is owed the
/// acceptances of its receivers.
pub open spec fn sends_offers(m: ProcessModel) -> bool {
    m is Source || m is Pool || m is Delay
}

/// Whether every acceptance among `events` goes to `sender`.
pub open spec fn acceptances_go_to(events: Seq<EventView>, sender: Seq<char>) -> bool {
    forall|i: int|
        0 <= i < events.len() && (#[trigger] events[i]).payload is ResourceAccepted
            ==> events[i].target_id == sender
}

/// Whether no event of a sequence is an offer.
pub open spec fn without_offers(events: Seq<EventView>) -> bool {
    forall|i: int| 0 <= i < events.len() ==> !((#[trigger] events[i]).payload is Resource)
}

/// A batch of one event is handled as that event is.
pub proof fn lemma_single_batch(m: ProcessModel, event: EventView, context: ContextView)
    ensures
        match m.react(event, context) {
            Ok((next, emitted)) => react_to_batch(m, seq![event], context)
                == (crate::model::nodes::event_priority::BatchOutcome {
                model: next,
                events: emitted,
                error: None,
            }),
            Err(error) => react_to_batch(m, seq![event], context).model == m && react_to_batch(
                m,
                seq![event],
                context,
            ).error == Some(error),
        },
{
    let batch = seq![event];
    let none = Seq::<EventView>::empty();
    reveal_with_fuel(by_priority, 2);
    reveal_with_fuel(crate::model::nodes::event_priority::insert_by_priority, 2);
    reveal_with_fuel(steps_of, 2);
    reveal_with_fuel(others_of, 2);
    reveal_with_fuel(react_in_order, 2);
    assert(batch.drop_last() =~= none);
    assert(by_priority(batch) =~= batch);
    assert(react_in_order(m, none, context).events =~= none);
    match m.react(event, context) {
        Ok((next, emitted)) => {
            assert(none + emitted =~= emitted);
            assert(emitted + none =~= emitted);
        },
        Err(_) => {},
    }
}

/// Whether no event of a sequence is an acceptance.
pub open spec fn without_acceptances(events: Seq<EventView>) -> bool {
    forall|i: int| 0 <= i < events.len() ==> !((#[trigger] events[i]).payload is ResourceAccepted)
}

/// Whether two processes are the same process at different times: they
/// agree in their identifier and in their kind.
pub open spec fn alike(a: ProcessModel, b: ProcessModel) -> bool {
    &&& a.id() == b.id()
    &&& a is Source <==> b is Source
    &&& a is Pool <==> b is Pool
    &&& a is Drain <==> b is Drain
    &&& a is Delay <==> b is Delay
    &&& a is Stepper <==> b is Stepper
}

/// A process is the same process after any event it handles.
pub proof fn lemma_reaction_keeps_process(m: ProcessModel, event: EventView, context: ContextView)
    ensures
        m.react(event, context) matches Ok((next, _)) ==> alike(m, next),
{
}

/// Only a reply to an offer is an acceptance, and it goes back to the
/// sender of the offer.
pub proof fn lemma_acceptances_go_back(m: ProcessModel, event: EventView, context: ContextView)
    requires
        m.valid(),
    ensures
        m.react(event, context) matches Ok((_, emitted)) ==> acceptances_go_to(
            emitted,
            event.source_id,
        ) && (event.payload is Resource || without_acceptances(emitted)),
{
    let ports = m.output_ports();
    let time = context.current_time;
    let outputs = context.outputs_for_port(Some("out"@));
    let inputs = context.inputs_for_port(Some("in"@));
    reveal_with_fuel(acknowledged, 3);
    match m {
        ProcessModel::Source(s) => {
            lemma_offers_are_offers(s.id, time, outputs);
            if event.payload is PullRequest || event.payload is PullAllRequest {
                let answer = crate::model::nodes::source::source_answer(s, event, context);
                assert(seq![answer].drop_last() =~= Seq::<EventView>::empty());
            }
        },
        ProcessModel::Pool(p) => {
            lemma_offers_are_offers(p.id, time, outputs);
            lemma_offers(p.id, time, outputs);
            lemma_push_any_offers(p.id, time, p.resources, p.pending, outputs);
            lemma_push_any(p.id, time, p.resources, p.pending, outputs);
            lemma_requests_are_requests(p.id, time, inputs, PayloadView::PullRequest);
            lemma_requests_are_requests(p.id, time, inputs, PayloadView::PullAllRequest);
            lemma_requests(p.id, time, inputs, PayloadView::PullRequest, ports);
            lemma_requests(p.id, time, inputs, PayloadView::PullAllRequest, ports);
            match event.payload {
                PayloadView::PullRequest => {
                    let granted = crate::model::nodes::pool::pool_answer_pull(
                        p,
                        event.source_id,
                        context,
                    );
                    if granted.1.len() > 0 {
                        assert(granted.1.drop_last() =~= Seq::<EventView>::empty());
                    }
                },
                PayloadView::PullAllRequest => {
                    let granted = crate::model::nodes::pool::pool_answer_pull_all(
                        p,
                        event.source_id,
                        context,
                    );
                    if granted.1.len() > 0 {
                        assert(granted.1.drop_last() =~= Seq::<EventView>::empty());
                    }
                },
                _ => {},
            }
        },
        ProcessModel::Drain(d) => {
            lemma_requests_are_requests(d.id, time, inputs, PayloadView::PullRequest);
            lemma_requests_are_requests(d.id, time, inputs, PayloadView::PullAllRequest);
            lemma_requests(d.id, time, inputs, PayloadView::PullRequest, ports);
            lemma_requests(d.id, time, inputs, PayloadView::PullAllRequest, ports);
        },
        ProcessModel::Delay(d) => {
            lemma_requests_are_requests(d.id, time, inputs, PayloadView::PullRequest);
            lemma_requests(d.id, time, inputs, PayloadView::PullRequest, ports);
            if event.payload is Step {
                let stepped = crate::model::nodes::delay::delay_step(d, context);
                if stepped.1.len() > 0 {
                    assert(stepped.1.drop_last() =~= Seq::<EventView>::empty());
                }
            }
        },
        ProcessModel::Stepper(s) => {
            if event.payload is SimulationStart || event.payload is Step {
                let step = crate::model::nodes::stepper::next_step(s, time);
                assert(seq![step].drop_last() =~= Seq::<EventView>::empty());
            }
        },
    }
}

/// Every event among offers at the flow rate is an offer.
pub proof fn lemma_offers_are_offers(id: Seq<char>, time: int, connections: Seq<ConnectionView>)
    ensures
        forall|i: int|
            0 <= i < offers_at_rate(id, time, connections).len() ==> (#[trigger] offers_at_rate(
                id,
                time,
                connections,
            )[i]).payload is Resource,
    decreases connections.len(),
{
    if connections.len() > 0 {
        lemma_offers_are_offers(id, time, connections.drop_last());
    }
}

/// Every event that a pool pushes is an offer.
pub proof fn lemma_push_any_offers(
    id: Seq<char>,
    time: int,
    resources: int,
    pending: int,
    connections: Seq<ConnectionView>,
)
    ensures
        forall|i: int|
            0 <= i < push_any(id, time, resources, pending, connections).1.len() ==> (
            #[trigger] push_any(id, time, resources, pending, connections).1[i]).payload
                is Resource,
    decreases connections.len(),
{
    if connections.len() > 0 {
        lemma_push_any_offers(id, time, resources, pending, connections.drop_last());
    }
}

/// Every event among requests carries the payload of the requests.
pub proof fn lemma_requests_are_requests(
    id: Seq<char>,
    time: int,
    connections: Seq<ConnectionView>,
    payload: PayloadView,
)
    ensures
        forall|i: int|
            0 <= i < requests(id, time, connections, payload).len() ==> (#[trigger] requests(
                id,
                time,
                connections,
                payload,
            )[i]).payload == payload,
    decreases connections.len(),
{
    if connections.len() > 0 {
        lemma_requests_are_requests(id, time, connections.drop_last(), payload);
    }
}

/// Only sources, pools and delays send offers: what a drain or a stepper
/// emits holds none.
pub proof fn lemma_only_senders_offer(m: ProcessModel, event: EventView, context: ContextView)
    requires
        m.valid(),
        !sends_offers(m),
    ensures
        m.react(event, context) matches Ok((_, emitted)) ==> without_offers(emitted),
{
    let time = context.current_time;
    let inputs = context.inputs_for_port(Some("in"@));
    match m {
        ProcessModel::Drain(d) => {
            lemma_requests_are_requests(d.id, time, inputs, PayloadView::PullRequest);
            lemma_requests_are_requests(d.id, time, inputs, PayloadView::PullAllRequest);
        },
        _ => {},
    }
}

/// No process answers the end of the simulation: it stays as it is and
/// emits nothing.
pub proof fn lemma_end_is_silent(m: ProcessModel, event: EventView, context: ContextView)
    requires
        m.valid(),
        event.payload is SimulationEnd,
    ensures
        m.react(event, context) == Ok::<(ProcessModel, Seq<EventView>), crate::utils::errors::ErrorView>(
            (m, Seq::empty()),
        ),
{
}

} // verus!
