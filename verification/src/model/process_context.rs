//! What a process sees of the simulation while it handles an event.

use crate::fixed::Fixed;
use crate::model::connection::{Connection, ConnectionView};
use crate::simulator::event::port_view;
use vstd::prelude::*;

verus! {

/// The clocks and the connections of one process, as the scheduler hands
/// them to the process with each event. The process reads it and changes
/// nothing in it.
#[derive(Debug)]
pub struct ProcessContext<'a> {
    pub current_step: u64,
    pub current_time: Fixed,
    pub inputs: Vec<&'a Connection>,
    pub outputs: Vec<&'a Connection>,
}

/// The mathematical value of a `ProcessContext`.
pub struct ContextView {
    pub current_step: u64,
    pub current_time: int,
    /// The connections that end at the process, in the order served.
    pub inputs: Seq<ConnectionView>,
    /// The connections that start at the process, in the order served.
    pub outputs: Seq<ConnectionView>,
}

/// The views of a sequence of borrowed connections, in order.
pub open spec fn connections_view(connections: Seq<&Connection>) -> Seq<ConnectionView> {
    Seq::new(connections.len(), |i: int| connections[i]@)
}

impl<'a> View for ProcessContext<'a> {
    type V = ContextView;

    open spec fn view(&self) -> ContextView {
        ContextView {
            current_step: self.current_step,
            current_time: self.current_time@,
            inputs: connections_view(self.inputs@),
            outputs: connections_view(self.outputs@),
        }
    }
}

/// The connections among `connections` that end at `port`, in order.
pub open spec fn ending_at(connections: Seq<ConnectionView>, port: Option<Seq<char>>) -> Seq<
    ConnectionView,
>
    decreases connections.len(),
{
    if connections.len() == 0 {
        Seq::empty()
    } else {
        let earlier = ending_at(connections.drop_last(), port);
        if connections.last().target_port == port {
            earlier.push(connections.last())
        } else {
            earlier
        }
    }
}

/// The connections among `connections` that start at `port`, in order.
pub open spec fn starting_at(connections: Seq<ConnectionView>, port: Option<Seq<char>>) -> Seq<
    ConnectionView,
>
    decreases connections.len(),
{
    if connections.len() == 0 {
        Seq::empty()
    } else {
        let earlier = starting_at(connections.drop_last(), port);
        if connections.last().source_port == port {
            earlier.push(connections.last())
        } else {
            earlier
        }
    }
}

/// The first connection among `connections` that leads to `target`.
pub open spec fn first_to(connections: Seq<ConnectionView>, target: Seq<char>) -> Option<
    ConnectionView,
>
    decreases connections.len(),
{
    if connections.len() == 0 {
        None
    } else if connections[0].target_id == target {
        Some(connections[0])
    } else {
        first_to(connections.drop_first(), target)
    }
}

impl ContextView {
    /// The input connections at `port`.
    pub open spec fn inputs_for_port(self, port: Option<Seq<char>>) -> Seq<ConnectionView> {
        ending_at(self.inputs, port)
    }

    /// The output connections at `port`.
    pub open spec fn outputs_for_port(self, port: Option<Seq<char>>) -> Seq<ConnectionView> {
        starting_at(self.outputs, port)
    }
}

/// The view of an optional borrowed port name.
pub open spec fn name_view(port: Option<&str>) -> Option<Seq<char>> {
    match port {
        Some(p) => Some(p@),
        None => None,
    }
}

/// Whether an optional port name is the given one.
pub fn port_matches(port: &Option<String>, wanted: &Option<String>) -> (r: bool)
    ensures
        r == (port_view(*port) == port_view(*wanted)),
{
    match (port, wanted) {
        (Some(a), Some(b)) => *a == *b,
        (None, None) => true,
        _ => false,
    }
}

/// An owned copy of an optional borrowed name.
pub fn owned_name(port: Option<&str>) -> (r: Option<String>)
    ensures
        port_view(r) == name_view(port),
{
    match port {
        Some(p) => Some(p.to_owned()),
        None => None,
    }
}

/// The first of `connections` that leads to `target`.
pub fn find_connection_to<'a>(connections: &Vec<&'a Connection>, target: &String) -> (r: Option<
    &'a Connection,
>)
    ensures
        match first_to(connections_view(connections@), target@) {
            Some(c) => r is Some && r->0@ == c,
            None => r is None,
        },
{
    let mut i: usize = 0;
    assert(connections_view(connections@).skip(0) =~= connections_view(connections@));
    while i < connections.len()
        invariant
            i <= connections.len(),
            first_to(connections_view(connections@), target@) == first_to(
                connections_view(connections@).skip(i as int),
                target@,
            ),
        decreases connections.len() - i,
    {
        let ghost rest = connections_view(connections@).skip(i as int);
        assert(rest[0] == connections@[i as int]@);
        assert(rest.drop_first() =~= connections_view(connections@).skip(i + 1));
        if connections[i].target_id == *target {
            return Some(connections[i]);
        }
        i += 1;
    }
    None
}

impl<'a> ProcessContext<'a> {
    pub fn new(
        current_step: u64,
        current_time: Fixed,
        inputs: Vec<&'a Connection>,
        outputs: Vec<&'a Connection>,
    ) -> (r: ProcessContext<'a>)
        ensures
            r@ == (ContextView {
                current_step,
                current_time: current_time@,
                inputs: connections_view(inputs@),
                outputs: connections_view(outputs@),
            }),
    {
        ProcessContext { current_step, current_time, inputs, outputs }
    }

    pub fn current_step(&self) -> (r: u64)
        ensures
            r == self@.current_step,
    {
        self.current_step
    }

    pub fn current_time(&self) -> (r: Fixed)
        ensures
            r@ == self@.current_time,
    {
        self.current_time
    }

    /// The input connections at `port`, in the order served.
    pub fn inputs_for_port(&self, port: Option<&str>) -> (r: Vec<&'a Connection>)
        ensures
            connections_view(r@) == self@.inputs_for_port(name_view(port)),
    {
        let wanted = owned_name(port);
        let mut found: Vec<&'a Connection> = Vec::new();
        let mut i: usize = 0;
        while i < self.inputs.len()
            invariant
                i <= self.inputs.len(),
                port_view(wanted) == name_view(port),
                connections_view(found@) == ending_at(
                    connections_view(self.inputs@).take(i as int),
                    name_view(port),
                ),
            decreases self.inputs.len() - i,
        {
            let ghost all = connections_view(self.inputs@);
            assert(all.take(i + 1).drop_last() =~= all.take(i as int));
            assert(all.take(i + 1).last() == self.inputs@[i as int]@);
            let ghost before = connections_view(found@);
            if port_matches(&self.inputs[i].target_port, &wanted) {
                found.push(self.inputs[i]);
                assert(connections_view(found@) =~= before.push(self.inputs@[i as int]@));
            }
            i += 1;
        }
        assert(connections_view(self.inputs@).take(i as int) =~= connections_view(self.inputs@));
        found
    }

    /// The output connections at `port`, in the order served.
    pub fn outputs_for_port(&self, port: Option<&str>) -> (r: Vec<&'a Connection>)
        ensures
            connections_view(r@) == self@.outputs_for_port(name_view(port)),
    {
        let wanted = owned_name(port);
        let mut found: Vec<&'a Connection> = Vec::new();
        let mut i: usize = 0;
        while i < self.outputs.len()
            invariant
                i <= self.outputs.len(),
                port_view(wanted) == name_view(port),
                connections_view(found@) == starting_at(
                    connections_view(self.outputs@).take(i as int),
                    name_view(port),
                ),
            decreases self.outputs.len() - i,
        {
            let ghost all = connections_view(self.outputs@);
            assert(all.take(i + 1).drop_last() =~= all.take(i as int));
            assert(all.take(i + 1).last() == self.outputs@[i as int]@);
            let ghost before = connections_view(found@);
            if port_matches(&self.outputs[i].source_port, &wanted) {
                found.push(self.outputs[i]);
                assert(connections_view(found@) =~= before.push(self.outputs@[i as int]@));
            }
            i += 1;
        }
        assert(connections_view(self.outputs@).take(i as int) =~= connections_view(self.outputs@));
        found
    }
}

impl<'a> Default for ProcessContext<'a> {
    fn default() -> (r: Self)
        ensures
            r@ == (ContextView {
                current_step: 0,
                current_time: 0,
                inputs: Seq::empty(),
                outputs: Seq::empty(),
            }),
    {
        let r = ProcessContext {
            current_step: 0,
            current_time: Fixed::zero(),
            inputs: Vec::new(),
            outputs: Vec::new(),
        };
        assert(r@.inputs =~= Seq::empty());
        assert(r@.outputs =~= Seq::empty());
        r
    }
}

} // verus!
