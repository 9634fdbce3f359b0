//! The clocks of a simulation and the index of its connections.

use crate::fixed::{Fixed, SCALE};
use crate::model::connection::{Connection, ConnectionView};
use crate::model::process_context::{
    connections_view, ending_at, name_view, starting_at, ContextView, ProcessContext,
};
use vstd::prelude::*;

verus! {

/// The clocks of a simulation and its connections, in the order in which
/// they were registered. That order is the order in which competing
/// connections are served.
#[derive(Debug)]
pub struct SimulationContext {
    pub(crate) current_step: u64,
    pub(crate) current_time: Fixed,
    pub(crate) dt: Fixed,
    pub(crate) connections: Vec<Connection>,
}

/// The mathematical value of a `SimulationContext`.
pub struct ClockView {
    pub current_step: u64,
    pub current_time: int,
    pub dt: int,
    pub connections: Seq<ConnectionView>,
}

/// The views of a sequence of connections, in order.
pub open spec fn owned_connections_view(connections: Seq<Connection>) -> Seq<ConnectionView> {
    Seq::new(connections.len(), |i: int| connections[i]@)
}

impl View for SimulationContext {
    type V = ClockView;

    closed spec fn view(&self) -> ClockView {
        ClockView {
            current_step: self.current_step,
            current_time: self.current_time@,
            dt: self.dt@,
            connections: owned_connections_view(self.connections@),
        }
    }
}

/// The connections among `connections` that end at process `id`, in order:
/// the inputs of that process.
pub open spec fn leading_to(connections: Seq<ConnectionView>, id: Seq<char>) -> Seq<ConnectionView>
    decreases connections.len(),
{
    if connections.len() == 0 {
        Seq::empty()
    } else {
        let earlier = leading_to(connections.drop_last(), id);
        if connections.last().target_id == id {
            earlier.push(connections.last())
        } else {
            earlier
        }
    }
}

/// The connections among `connections` that start at process `id`, in
/// order: the outputs of that process.
pub open spec fn leading_from(connections: Seq<ConnectionView>, id: Seq<char>) -> Seq<
    ConnectionView,
>
    decreases connections.len(),
{
    if connections.len() == 0 {
        Seq::empty()
    } else {
        let earlier = leading_from(connections.drop_last(), id);
        if connections.last().source_id == id {
            earlier.push(connections.last())
        } else {
            earlier
        }
    }
}

/// The connections among `connections` whose id is not `id`, in order.
pub open spec fn without_id(connections: Seq<ConnectionView>, id: Seq<char>) -> Seq<ConnectionView>
    decreases connections.len(),
{
    if connections.len() == 0 {
        Seq::empty()
    } else {
        let earlier = without_id(connections.drop_last(), id);
        if connections.last().id == id {
            earlier
        } else {
            earlier.push(connections.last())
        }
    }
}

/// The position of the first connection with id `id`, or the length of the
/// sequence where there is none.
pub open spec fn position_of(connections: Seq<ConnectionView>, id: Seq<char>) -> int
    decreases connections.len(),
{
    if connections.len() == 0 {
        0
    } else if connections[0].id == id {
        0
    } else {
        1 + position_of(connections.drop_first(), id)
    }
}

impl ClockView {
    /// What the process `id` sees of the simulation.
    pub open spec fn context_for_process(self, id: Seq<char>) -> ContextView {
        ContextView {
            current_step: self.current_step,
            current_time: self.current_time,
            inputs: leading_to(self.connections, id),
            outputs: leading_from(self.connections, id),
        }
    }

    /// The index of inputs: the connections that end at process `id` under
    /// the port `port`.
    pub open spec fn input_map(self, id: Seq<char>, port: Option<Seq<char>>) -> Seq<
        ConnectionView,
    > {
        ending_at(leading_to(self.connections, id), port)
    }

    /// The index of outputs: the connections that start at process `id`
    /// under the port `port`.
    pub open spec fn output_map(self, id: Seq<char>, port: Option<Seq<char>>) -> Seq<
        ConnectionView,
    > {
        starting_at(leading_from(self.connections, id), port)
    }
}

/// One more connection shows, or does not show, among the inputs and the
/// outputs of a process as its ends say.
pub proof fn lemma_index_of_one_more(
    connections: Seq<ConnectionView>,
    c: ConnectionView,
    id: Seq<char>,
    port: Option<Seq<char>>,
)
    ensures
        ending_at(leading_to(connections.push(c), id), port) == if c.target_id == id
            && c.target_port == port {
            ending_at(leading_to(connections, id), port).push(c)
        } else {
            ending_at(leading_to(connections, id), port)
        },
        starting_at(leading_from(connections.push(c), id), port) == if c.source_id == id
            && c.source_port == port {
            starting_at(leading_from(connections, id), port).push(c)
        } else {
            starting_at(leading_from(connections, id), port)
        },
{
    assert(connections.push(c).drop_last() =~= connections);
    if c.target_id == id {
        assert(leading_to(connections, id).push(c).drop_last() =~= leading_to(connections, id));
    }
    if c.source_id == id {
        assert(leading_from(connections, id).push(c).drop_last() =~= leading_from(
            connections,
            id,
        ));
    }
}

/// The two indexes agree with the connections: every connection shows in
/// the index of inputs under its target and its target port, and in the
/// index of outputs under its source and its source port.
pub proof fn lemma_indexes_hold_every_connection(clock: ClockView, i: int)
    requires
        0 <= i < clock.connections.len(),
    ensures
        clock.input_map(clock.connections[i].target_id, clock.connections[i].target_port).contains(
            clock.connections[i],
        ),
        clock.output_map(
            clock.connections[i].source_id,
            clock.connections[i].source_port,
        ).contains(clock.connections[i]),
    decreases clock.connections.len(),
{
    let all = clock.connections;
    let c = all[i];
    let earlier = all.drop_last();
    let shorter = ClockView { connections: earlier, ..clock };
    assert(earlier.push(all.last()) =~= all);
    lemma_index_of_one_more(earlier, all.last(), c.target_id, c.target_port);
    lemma_index_of_one_more(earlier, all.last(), c.source_id, c.source_port);
    let inputs = clock.input_map(c.target_id, c.target_port);
    let outputs = clock.output_map(c.source_id, c.source_port);
    if i == all.len() - 1 {
        assert(inputs[inputs.len() - 1] == c);
        assert(outputs[outputs.len() - 1] == c);
    } else {
        assert(earlier[i] == c);
        lemma_indexes_hold_every_connection(shorter, i);
        let before_in = shorter.input_map(c.target_id, c.target_port);
        let before_out = shorter.output_map(c.source_id, c.source_port);
        let at_in = choose|k: int| 0 <= k < before_in.len() && before_in[k] == c;
        let at_out = choose|k: int| 0 <= k < before_out.len() && before_out[k] == c;
        assert(inputs[at_in] == c);
        assert(outputs[at_out] == c);
    }
}

impl Default for SimulationContext {
    fn default() -> (r: Self)
        ensures
            r@ == (ClockView {
                current_step: 0,
                current_time: 0,
                dt: SCALE as int,
                connections: Seq::empty(),
            }),
    {
        let r = SimulationContext {
            current_step: 0,
            current_time: Fixed::zero(),
            dt: Fixed::one(),
            connections: Vec::new(),
        };
        assert(r@.connections =~= Seq::empty());
        r
    }
}

impl SimulationContext {
    /// The context of a simulation that has not begun: step zero, time
    /// zero, one whole unit of time per step, no connections.
    pub open spec fn default_view() -> ClockView {
        ClockView { current_step: 0, current_time: 0, dt: SCALE as int, connections: Seq::empty() }
    }

    pub fn current_step(&self) -> (r: u64)
        ensures
            r == self@.current_step,
    {
        self.current_step
    }

    pub fn set_current_step(&mut self, step: u64)
        ensures
            final(self)@ == (ClockView { current_step: step, ..old(self)@ }),
    {
        self.current_step = step;
    }

    /// Counts one step more. A counter at the largest number stays there.
    pub fn increment_current_step(&mut self)
        ensures
            final(self)@ == (ClockView {
                current_step: if old(self)@.current_step < u64::MAX {
                    (old(self)@.current_step + 1) as u64
                } else {
                    u64::MAX
                },
                ..old(self)@
            }),
    {
        if self.current_step < u64::MAX {
            self.current_step = self.current_step + 1;
        }
    }

    pub fn current_time(&self) -> (r: Fixed)
        ensures
            r@ == self@.current_time,
    {
        self.current_time
    }

    pub fn set_current_time(&mut self, time: Fixed)
        ensures
            final(self)@ == (ClockView { current_time: time@, ..old(self)@ }),
    {
        self.current_time = time;
    }

    /// The interval that the context assumes between steps.
    pub fn dt(&self) -> (r: Fixed)
        ensures
            r@ == self@.dt,
    {
        self.dt
    }

    /// The connections, in the order served.
    pub fn connections(&self) -> (r: &Vec<Connection>)
        ensures
            owned_connections_view(r@) == self@.connections,
    {
        &self.connections
    }

    /// Registers a connection behind those already there.
    pub fn add_connection(&mut self, connection: Connection)
        ensures
            final(self)@ == (ClockView {
                connections: old(self)@.connections.push(connection@),
                ..old(self)@
            }),
    {
        self.connections.push(connection);
        assert(owned_connections_view(self.connections@) =~= owned_connections_view(
            old(self).connections@,
        ).push(connection@));
    }

    /// The first connection with id `id`.
    pub fn find_connection(&self, id: &String) -> (r: Option<usize>)
        ensures
            match r {
                Some(at) => at < self@.connections.len() && at == position_of(
                    self@.connections,
                    id@,
                ),
                None => position_of(self@.connections, id@) == self@.connections.len(),
            },
    {
        let ghost all = owned_connections_view(self.connections@);
        let mut i: usize = 0;
        assert(all.skip(0) =~= all);
        while i < self.connections.len()
            invariant
                i <= self.connections.len(),
                all == owned_connections_view(self.connections@),
                position_of(all, id@) == i + position_of(all.skip(i as int), id@),
            decreases self.connections.len() - i,
        {
            assert(all.skip(i as int)[0] == self.connections@[i as int]@);
            assert(all.skip(i as int).drop_first() =~= all.skip(i + 1));
            if self.connections[i].id == *id {
                return Some(i);
            }
            i += 1;
        }
        None
    }

    /// The connection at position `at`.
    pub fn connection_at(&self, at: usize) -> (r: &Connection)
        requires
            at < self@.connections.len(),
        ensures
            r@ == self@.connections[at as int],
    {
        &self.connections[at]
    }

    /// Puts `connection` in the place of the connection at position `at`.
    pub fn replace_connection(&mut self, at: usize, connection: Connection)
        requires
            at < old(self)@.connections.len(),
        ensures
            final(self)@ == (ClockView {
                connections: old(self)@.connections.update(at as int, connection@),
                ..old(self)@
            }),
    {
        self.connections[at] = connection;
        assert(owned_connections_view(self.connections@) =~= owned_connections_view(
            old(self).connections@,
        ).update(at as int, connection@));
    }

    /// Removes every connection with id `id`.
    pub fn remove_connections(&mut self, id: &String)
        ensures
            final(self)@ == (ClockView {
                connections: without_id(old(self)@.connections, id@),
                ..old(self)@
            }),
    {
        let mut kept: Vec<Connection> = Vec::new();
        assert(owned_connections_view(kept@) =~= Seq::empty());
        let mut i: usize = 0;
        while i < self.connections.len()
            invariant
                i <= self.connections.len(),
                owned_connections_view(kept@) == without_id(
                    owned_connections_view(self.connections@).take(i as int),
                    id@,
                ),
            decreases self.connections.len() - i,
        {
            let ghost all = owned_connections_view(self.connections@);
            assert(all.take(i + 1).drop_last() =~= all.take(i as int));
            assert(all.take(i + 1).last() == self.connections@[i as int]@);
            let ghost before = owned_connections_view(kept@);
            if !(self.connections[i].id == *id) {
                kept.push(self.connections[i].clone());
                assert(owned_connections_view(kept@) =~= before.push(self.connections@[i as int]@));
            }
            i += 1;
        }
        assert(owned_connections_view(self.connections@).take(i as int)
            =~= owned_connections_view(self.connections@));
        self.connections = kept;
    }

    /// Returns the clocks to the start. The connections stay.
    pub fn reset(&mut self)
        ensures
            final(self)@ == (ClockView { current_step: 0, current_time: 0, ..old(self)@ }),
    {
        self.current_step = 0;
        self.current_time = Fixed::zero();
    }

    /// All input connections of a process, in the order served.
    pub fn process_inputs<'a>(&'a self, process_id: &str) -> (r: Vec<&'a Connection>)
        ensures
            connections_view(r@) == leading_to(self@.connections, process_id@),
    {
        let wanted = process_id.to_owned();
        let mut found: Vec<&'a Connection> = Vec::new();
        assert(connections_view(found@) =~= Seq::empty());
        let mut i: usize = 0;
        while i < self.connections.len()
            invariant
                i <= self.connections.len(),
                wanted@ == process_id@,
                connections_view(found@) == leading_to(
                    owned_connections_view(self.connections@).take(i as int),
                    process_id@,
                ),
            decreases self.connections.len() - i,
        {
            let ghost all = owned_connections_view(self.connections@);
            assert(all.take(i + 1).drop_last() =~= all.take(i as int));
            assert(all.take(i + 1).last() == self.connections@[i as int]@);
            let ghost before = connections_view(found@);
            if self.connections[i].target_id == wanted {
                found.push(&self.connections[i]);
                assert(connections_view(found@) =~= before.push(self.connections@[i as int]@));
            }
            i += 1;
        }
        assert(owned_connections_view(self.connections@).take(i as int)
            =~= owned_connections_view(self.connections@));
        found
    }

    /// All output connections of a process, in the order served.
    pub fn process_outputs<'a>(&'a self, process_id: &str) -> (r: Vec<&'a Connection>)
        ensures
            connections_view(r@) == leading_from(self@.connections, process_id@),
    {
        let wanted = process_id.to_owned();
        let mut found: Vec<&'a Connection> = Vec::new();
        assert(connections_view(found@) =~= Seq::empty());
        let mut i: usize = 0;
        while i < self.connections.len()
            invariant
                i <= self.connections.len(),
                wanted@ == process_id@,
                connections_view(found@) == leading_from(
                    owned_connections_view(self.connections@).take(i as int),
                    process_id@,
                ),
            decreases self.connections.len() - i,
        {
            let ghost all = owned_connections_view(self.connections@);
            assert(all.take(i + 1).drop_last() =~= all.take(i as int));
            assert(all.take(i + 1).last() == self.connections@[i as int]@);
            let ghost before = connections_view(found@);
            if self.connections[i].source_id == wanted {
                found.push(&self.connections[i]);
                assert(connections_view(found@) =~= before.push(self.connections@[i as int]@));
            }
            i += 1;
        }
        assert(owned_connections_view(self.connections@).take(i as int)
            =~= owned_connections_view(self.connections@));
        found
    }

    /// What the process `process_id` sees of the simulation.
    pub fn context_for_process<'a>(&'a self, process_id: &str) -> (r: ProcessContext<'a>)
        ensures
            r@ == self@.context_for_process(process_id@),
    {
        ProcessContext::new(
            self.current_step,
            self.current_time,
            self.process_inputs(process_id),
            self.process_outputs(process_id),
        )
    }

    /// The input connections of a process at one port (or at no port, for
    /// `None`).
    pub fn process_inputs_for_port<'a>(&'a self, process_id: &str, port: Option<&str>) -> (r: Vec<
        &'a Connection,
    >)
        ensures
            connections_view(r@) == self@.input_map(process_id@, name_view(port)),
    {
        self.context_for_process(process_id).inputs_for_port(port)
    }

    /// The output connections of a process at one port (or at no port, for
    /// `None`).
    pub fn process_outputs_for_port<'a>(&'a self, process_id: &str, port: Option<&str>) -> (r: Vec<
        &'a Connection,
    >)
        ensures
            connections_view(r@) == self@.output_map(process_id@, name_view(port)),
    {
        self.context_for_process(process_id).outputs_for_port(port)
    }
}

} // verus!
