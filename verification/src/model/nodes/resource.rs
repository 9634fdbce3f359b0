//! The two-phase transfer of resources: an offer, and the reply that takes
//! or refuses it.

use crate::fixed::Fixed;
use crate::fixed::SCALE;
use crate::model::connection::{Connection, ConnectionView};
use crate::model::process_context::connections_view;
use crate::simulator::event::{
    events_view, plain_event, event_with_ports, Event, EventPayload, EventView, PayloadView,
};
use vstd::prelude::*;

verus! {

/// Builders for the events of a transfer between a sender and a receiver.
pub struct ResourceDeliveryProtocol;

/// The flow rate of a connection that names none: one whole unit.
pub open spec fn default_rate() -> int {
    SCALE as int
}

/// A port name that may be missing, with the empty name standing for none.
pub open spec fn name_or_empty(port: Option<Seq<char>>) -> Seq<char> {
    match port {
        Some(p) => p,
        None => Seq::empty(),
    }
}

/// The offer of `amount` that process `id` sends along connection `c`: from
/// its port `out` to the port the connection ends at, `in` if it names none.
pub open spec fn offer(id: Seq<char>, c: ConnectionView, time: int, amount: int) -> EventView {
    event_with_ports(
        id,
        "out"@,
        c.target_id,
        c.target_port_or("in"@),
        time,
        PayloadView::Resource(amount),
    )
}

/// One offer along each of `connections`, each of the connection's own flow
/// rate.
pub open spec fn offers_at_rate(id: Seq<char>, time: int, connections: Seq<ConnectionView>) -> Seq<
    EventView,
>
    decreases connections.len(),
{
    if connections.len() == 0 {
        Seq::empty()
    } else {
        offers_at_rate(id, time, connections.drop_last()).push(
            offer(id, connections.last(), time, connections.last().rate_or(default_rate())),
        )
    }
}

/// The sum of the flow rates of `connections`.
pub open spec fn total_rate(connections: Seq<ConnectionView>) -> int
    decreases connections.len(),
{
    if connections.len() == 0 {
        0
    } else {
        total_rate(connections.drop_last()) + connections.last().rate_or(default_rate())
    }
}

/// One event with `payload` from process `id` to the source of each of
/// `connections`, without ports.
pub open spec fn requests(
    id: Seq<char>,
    time: int,
    connections: Seq<ConnectionView>,
    payload: PayloadView,
) -> Seq<EventView>
    decreases connections.len(),
{
    if connections.len() == 0 {
        Seq::empty()
    } else {
        requests(id, time, connections.drop_last(), payload).push(
            plain_event(id, connections.last().source_id, time, payload),
        )
    }
}

/// The replies of receiver `id` to an offer from `sender`: what it took, then
/// what it turned down, each only where the amount is positive.
pub open spec fn replies(
    id: Seq<char>,
    sender: Seq<char>,
    time: int,
    accepted: int,
    rejected: int,
) -> Seq<EventView> {
    let taken = if accepted > 0 {
        seq![plain_event(id, sender, time, PayloadView::ResourceAccepted(accepted))]
    } else {
        Seq::empty()
    };
    if rejected > 0 {
        taken.push(plain_event(id, sender, time, PayloadView::ResourceRejected(rejected)))
    } else {
        taken
    }
}

/// The replies of the delivery protocol, which names the ports of both
/// sides, the empty name standing for a missing one.
pub open spec fn replies_with_ports(
    time: int,
    receiver_id: Seq<char>,
    receiver_port: Option<Seq<char>>,
    sender_id: Seq<char>,
    sender_port: Option<Seq<char>>,
    accepted: int,
    rejected: int,
) -> Seq<EventView> {
    let taken = if accepted > 0 {
        seq![
            event_with_ports(
                receiver_id,
                name_or_empty(receiver_port),
                sender_id,
                name_or_empty(sender_port),
                time,
                PayloadView::ResourceAccepted(accepted),
            ),
        ]
    } else {
        Seq::empty()
    };
    if rejected > 0 {
        taken.push(
            event_with_ports(
                receiver_id,
                name_or_empty(receiver_port),
                sender_id,
                name_or_empty(sender_port),
                time,
                PayloadView::ResourceRejected(rejected),
            ),
        )
    } else {
        taken
    }
}

/// The name held in `port`, or the empty name.
fn or_empty<'a>(port: Option<&'a str>) -> (r: &'a str)
    ensures
        r@ == name_or_empty(crate::model::process_context::name_view(port)),
{
    match port {
        Some(p) => p,
        None => {
            proof {
                reveal_strlit("");
            }
            assert(""@ =~= Seq::<char>::empty());
            ""
        },
    }
}

impl ResourceDeliveryProtocol {
    /// The offer of `amount` from sender to receiver.
    pub fn send_resource(
        time: Fixed,
        sender_id: &str,
        sender_port: Option<&str>,
        receiver_id: &str,
        receiver_port: Option<&str>,
        amount: Fixed,
    ) -> (r: Event)
        ensures
            r@ == event_with_ports(
                sender_id@,
                name_or_empty(crate::model::process_context::name_view(sender_port)),
                receiver_id@,
                name_or_empty(crate::model::process_context::name_view(receiver_port)),
                time@,
                PayloadView::Resource(amount@),
            ),
    {
        Event::new(sender_id, receiver_id, time, EventPayload::Resource(amount)).with_source_port(
            or_empty(sender_port),
        ).with_target_port(or_empty(receiver_port))
    }

    /// The receiver's word to the sender that it took `amount`.
    pub fn accept_resource(
        time: Fixed,
        receiver_id: &str,
        receiver_port: Option<&str>,
        sender_id: &str,
        sender_port: Option<&str>,
        amount: Fixed,
    ) -> (r: Event)
        ensures
            r@ == event_with_ports(
                receiver_id@,
                name_or_empty(crate::model::process_context::name_view(receiver_port)),
                sender_id@,
                name_or_empty(crate::model::process_context::name_view(sender_port)),
                time@,
                PayloadView::ResourceAccepted(amount@),
            ),
    {
        Event::new(
            receiver_id,
            sender_id,
            time,
            EventPayload::ResourceAccepted(amount),
        ).with_source_port(or_empty(receiver_port)).with_target_port(or_empty(sender_port))
    }

    /// The receiver's word to the sender that it turned `amount` down.
    pub fn reject_resource(
        time: Fixed,
        receiver_id: &str,
        receiver_port: Option<&str>,
        sender_id: &str,
        sender_port: Option<&str>,
        amount: Fixed,
    ) -> (r: Event)
        ensures
            r@ == event_with_ports(
                receiver_id@,
                name_or_empty(crate::model::process_context::name_view(receiver_port)),
                sender_id@,
                name_or_empty(crate::model::process_context::name_view(sender_port)),
                time@,
                PayloadView::ResourceRejected(amount@),
            ),
    {
        Event::new(
            receiver_id,
            sender_id,
            time,
            EventPayload::ResourceRejected(amount),
        ).with_source_port(or_empty(receiver_port)).with_target_port(or_empty(sender_port))
    }

    /// Both replies to an offer: the acceptance if anything was taken, then
    /// the rejection if anything was turned down.
    pub fn respond_to_delivery(
        time: Fixed,
        receiver_id: &str,
        receiver_port: Option<&str>,
        sender_id: &str,
        sender_port: Option<&str>,
        accepted: Fixed,
        rejected: Fixed,
    ) -> (r: Vec<Event>)
        ensures
            events_view(r@) == replies_with_ports(
                time@,
                receiver_id@,
                crate::model::process_context::name_view(receiver_port),
                sender_id@,
                crate::model::process_context::name_view(sender_port),
                accepted@,
                rejected@,
            ),
    {
        let mut events: Vec<Event> = Vec::new();
        assert(events_view(events@) =~= Seq::empty());
        if accepted.is_positive() {
            let ghost before = events_view(events@);
            events.push(
                Self::accept_resource(
                    time,
                    receiver_id,
                    receiver_port,
                    sender_id,
                    sender_port,
                    accepted,
                ),
            );
            assert(events_view(events@) =~= before.push(events@.last()@));
        }
        if rejected.is_positive() {
            let ghost before = events_view(events@);
            events.push(
                Self::reject_resource(
                    time,
                    receiver_id,
                    receiver_port,
                    sender_id,
                    sender_port,
                    rejected,
                ),
            );
            assert(events_view(events@) =~= before.push(events@.last()@));
        }
        events
    }
}

/// Appends an event, saying what that does to the views.
pub fn push_event(events: &mut Vec<Event>, event: Event)
    ensures
        events_view(final(events)@) == events_view(old(events)@).push(event@),
        final(events)@ == old(events)@.push(event),
{
    events.push(event);
    assert(events_view(events@) =~= events_view(old(events)@).push(event@));
}

/// A list without events.
pub fn no_events() -> (r: Vec<Event>)
    ensures
        events_view(r@) == Seq::<EventView>::empty(),
        r@.len() == 0,
{
    let events: Vec<Event> = Vec::new();
    assert(events_view(events@) =~= Seq::empty());
    events
}

/// The offer of `amount` that process `id` sends along `connection`.
pub fn offer_along(id: &String, connection: &Connection, time: Fixed, amount: Fixed) -> (r: Event)
    ensures
        r@ == offer(id@, connection@, time@, amount@),
{
    let event = Event::new(
        id.as_str(),
        connection.target_id.as_str(),
        time,
        EventPayload::Resource(amount),
    ).with_source_port("out");
    match &connection.target_port {
        Some(port) => event.with_target_port(port.as_str()),
        None => event.with_target_port("in"),
    }
}

/// One event with `payload` to the source of each of `connections`.
pub fn request_from_each(
    id: &String,
    time: Fixed,
    connections: &Vec<&Connection>,
    payload: &EventPayload,
) -> (r: Vec<Event>)
    ensures
        events_view(r@) == requests(id@, time@, connections_view(connections@), payload@),
{
    let mut events = no_events();
    let mut i: usize = 0;
    while i < connections.len()
        invariant
            i <= connections.len(),
            events_view(events@) == requests(
                id@,
                time@,
                connections_view(connections@).take(i as int),
                payload@,
            ),
        decreases connections.len() - i,
    {
        let ghost all = connections_view(connections@);
        assert(all.take(i + 1).drop_last() =~= all.take(i as int));
        assert(all.take(i + 1).last() == connections@[i as int]@);
        let event = Event::new(
            id.as_str(),
            connections[i].source_id.as_str(),
            time,
            payload.clone(),
        );
        push_event(&mut events, event);
        i += 1;
    }
    assert(connections_view(connections@).take(i as int) =~= connections_view(connections@));
    events
}

/// One offer along each of `connections`, each of the connection's own flow
/// rate.
pub fn offer_each_rate(id: &String, time: Fixed, connections: &Vec<&Connection>) -> (r: Vec<Event>)
    ensures
        events_view(r@) == offers_at_rate(id@, time@, connections_view(connections@)),
{
    let mut events = no_events();
    let mut i: usize = 0;
    while i < connections.len()
        invariant
            i <= connections.len(),
            events_view(events@) == offers_at_rate(
                id@,
                time@,
                connections_view(connections@).take(i as int),
            ),
        decreases connections.len() - i,
    {
        let ghost all = connections_view(connections@);
        assert(all.take(i + 1).drop_last() =~= all.take(i as int));
        assert(all.take(i + 1).last() == connections@[i as int]@);
        let amount = connections[i].rate_or(Fixed::one());
        let event = offer_along(id, connections[i], time, amount);
        push_event(&mut events, event);
        i += 1;
    }
    assert(connections_view(connections@).take(i as int) =~= connections_view(connections@));
    events
}

/// The sum of the flow rates of `connections`, in a type wide enough for any
/// number of them.
pub fn sum_rates(connections: &Vec<&Connection>) -> (r: i128)
    ensures
        r == total_rate(connections_view(connections@)),
        -(connections@.len() * 0x8000_0000_0000_0000) <= r <= connections@.len()
            * 0x7fff_ffff_ffff_ffff,
{
    let mut total: i128 = 0;
    let mut i: usize = 0;
    while i < connections.len()
        invariant
            i <= connections.len(),
            total == total_rate(connections_view(connections@).take(i as int)),
            -(i * 0x8000_0000_0000_0000) <= total <= i * 0x7fff_ffff_ffff_ffff,
        decreases connections.len() - i,
    {
        let ghost all = connections_view(connections@);
        assert(all.take(i + 1).drop_last() =~= all.take(i as int));
        assert(all.take(i + 1).last() == connections@[i as int]@);
        let rate = connections[i].rate_or(Fixed::one());
        total = total + (rate.raw() as i128);
        i += 1;
    }
    assert(connections_view(connections@).take(i as int) =~= connections_view(connections@));
    total
}

/// The replies of receiver `id` to an offer from `sender`.
pub fn reply_to(id: &String, sender: &String, time: Fixed, accepted: Fixed, rejected: Fixed) -> (r:
    Vec<Event>)
    ensures
        events_view(r@) == replies(id@, sender@, time@, accepted@, rejected@),
{
    let mut events = no_events();
    if accepted.is_positive() {
        let event = Event::new(
            id.as_str(),
            sender.as_str(),
            time,
            EventPayload::ResourceAccepted(accepted),
        );
        push_event(&mut events, event);
    }
    if rejected.is_positive() {
        let event = Event::new(
            id.as_str(),
            sender.as_str(),
            time,
            EventPayload::ResourceRejected(rejected),
        );
        push_event(&mut events, event);
    }
    events
}

} // verus!
