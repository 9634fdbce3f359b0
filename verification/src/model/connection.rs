//! Connections: the directed edges along which resources flow.

use crate::fixed::Fixed;
use crate::simulator::event::{clone_port, port_view};
use vstd::prelude::*;

verus! {

/// A directed edge from a port of one process to a port of another.
///
/// For sources, pools and drains `flow_rate` is the amount moved per tick;
/// for a delay it is the time a resource spends in transit.
#[derive(Debug)]
pub struct Connection {
    pub id: String,
    pub source_id: String,
    pub source_port: Option<String>,
    pub target_id: String,
    pub target_port: Option<String>,
    pub flow_rate: Option<Fixed>,
    /// Set by the scheduler in order of registration; decides which of
    /// several connections is served first.
    pub sequence_number: u64,
}

/// The mathematical value of a `Connection`.
pub struct ConnectionView {
    pub id: Seq<char>,
    pub source_id: Seq<char>,
    pub source_port: Option<Seq<char>>,
    pub target_id: Seq<char>,
    pub target_port: Option<Seq<char>>,
    pub flow_rate: Option<int>,
    pub sequence_number: u64,
}

/// The view of an optional flow rate.
pub open spec fn rate_view(rate: Option<Fixed>) -> Option<int> {
    match rate {
        Some(r) => Some(r@),
        None => None,
    }
}

impl View for Connection {
    type V = ConnectionView;

    open spec fn view(&self) -> ConnectionView {
        ConnectionView {
            id: self.id@,
            source_id: self.source_id@,
            source_port: port_view(self.source_port),
            target_id: self.target_id@,
            target_port: port_view(self.target_port),
            flow_rate: rate_view(self.flow_rate),
            sequence_number: self.sequence_number,
        }
    }
}

impl ConnectionView {
    /// The flow rate, or `default` where the connection names none.
    pub open spec fn rate_or(self, default: int) -> int {
        match self.flow_rate {
            Some(r) => r,
            None => default,
        }
    }

    /// The target port, or `default` where the connection names none.
    pub open spec fn target_port_or(self, default: Seq<char>) -> Seq<char> {
        match self.target_port {
            Some(p) => p,
            None => default,
        }
    }
}

impl Clone for Connection {
    fn clone(&self) -> (r: Self)
        ensures
            r == *self,
    {
        Connection {
            id: self.id.clone(),
            source_id: self.source_id.clone(),
            source_port: clone_port(&self.source_port),
            target_id: self.target_id.clone(),
            target_port: clone_port(&self.target_port),
            flow_rate: self.flow_rate,
            sequence_number: self.sequence_number,
        }
    }
}

impl Default for Connection {
    fn default() -> (r: Self)
        ensures
            r@ == (ConnectionView {
                id: Seq::empty(),
                source_id: Seq::empty(),
                source_port: None,
                target_id: Seq::empty(),
                target_port: None,
                flow_rate: None,
                sequence_number: 0,
            }),
    {
        Connection {
            id: String::new(),
            source_id: String::new(),
            source_port: None,
            target_id: String::new(),
            target_port: None,
            flow_rate: None,
            sequence_number: 0,
        }
    }
}

impl Connection {
    pub fn new(
        id: String,
        source_id: String,
        source_port: Option<String>,
        target_id: String,
        target_port: Option<String>,
        flow_rate: Option<Fixed>,
    ) -> (r: Connection)
        ensures
            r@ == (ConnectionView {
                id: id@,
                source_id: source_id@,
                source_port: port_view(source_port),
                target_id: target_id@,
                target_port: port_view(target_port),
                flow_rate: rate_view(flow_rate),
                sequence_number: 0,
            }),
    {
        Connection { id, source_id, source_port, target_id, target_port, flow_rate, sequence_number: 0 }
    }

    pub fn source_id(&self) -> (r: &str)
        ensures
            r@ == self@.source_id,
    {
        self.source_id.as_str()
    }

    pub fn source_port(&self) -> (r: Option<&str>)
        ensures
            r is Some <==> self@.source_port is Some,
            r matches Some(p) ==> Some(p@) == self@.source_port,
    {
        match &self.source_port {
            Some(p) => Some(p.as_str()),
            None => None,
        }
    }

    pub fn target_id(&self) -> (r: &str)
        ensures
            r@ == self@.target_id,
    {
        self.target_id.as_str()
    }

    pub fn target_port(&self) -> (r: Option<&str>)
        ensures
            r is Some <==> self@.target_port is Some,
            r matches Some(p) ==> Some(p@) == self@.target_port,
    {
        match &self.target_port {
            Some(p) => Some(p.as_str()),
            None => None,
        }
    }

    /// The flow rate, or `default` where the connection names none.
    pub fn rate_or(&self, default: Fixed) -> (r: Fixed)
        ensures
            r@ == self@.rate_or(default@),
    {
        match self.flow_rate {
            Some(rate) => rate,
            None => default,
        }
    }
}

} // verus!
