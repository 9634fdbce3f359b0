//! The envelope that holds a process of any kind.

use crate::model::nodes::{Delay, Drain, Pool, Source, Stepper};
use crate::model::process_context::ProcessContext;
use crate::model::process_state::ProcessState;
use crate::model::process_trait::{ProcessModel, Processor, SerializableProcess};
use crate::simulator::event::{events_view, Event};
use crate::utils::errors::SimulationError;
use vstd::prelude::*;

verus! {

/// A process of one of the kinds the engine knows.
#[derive(Debug)]
pub enum ProcessKind {
    Source(Source),
    Pool(Pool),
    Drain(Drain),
    Delay(Delay),
    Stepper(Stepper),
}

/// A process as the scheduler holds it: behaviour of some kind under one
/// identity.
#[derive(Debug)]
pub struct Process {
    pub inner: ProcessKind,
}

impl ProcessKind {
    /// The mathematical value of the process held.
    pub open spec fn model(&self) -> ProcessModel {
        match self {
            ProcessKind::Source(p) => ProcessModel::Source(p@),
            ProcessKind::Pool(p) => ProcessModel::Pool(p@),
            ProcessKind::Drain(p) => ProcessModel::Drain(p@),
            ProcessKind::Delay(p) => ProcessModel::Delay(p@),
            ProcessKind::Stepper(p) => ProcessModel::Stepper(p@),
        }
    }
}

impl Clone for ProcessKind {
    fn clone(&self) -> (r: Self)
        ensures
            r == *self,
    {
        match self {
            ProcessKind::Source(p) => ProcessKind::Source(p.clone()),
            ProcessKind::Pool(p) => ProcessKind::Pool(p.clone()),
            ProcessKind::Drain(p) => ProcessKind::Drain(p.clone()),
            ProcessKind::Delay(p) => ProcessKind::Delay(p.clone()),
            ProcessKind::Stepper(p) => ProcessKind::Stepper(p.clone()),
        }
    }
}

impl Clone for Process {
    fn clone(&self) -> (r: Self)
        ensures
            r == *self,
    {
        Process { inner: self.inner.clone() }
    }
}

impl View for Process {
    type V = ProcessModel;

    open spec fn view(&self) -> ProcessModel {
        self.inner.model()
    }
}

impl Process {
    /// Whether the process is within the bounds of its kind.
    pub open spec fn wf(&self) -> bool {
        self@.valid()
    }

    pub fn new(inner: ProcessKind) -> (r: Process)
        ensures
            r == (Process { inner }),
    {
        Process { inner }
    }

    /// Whether the process goes by the identifier `id`.
    pub fn has_id(&self, id: &String) -> (r: bool)
        ensures
            r == (self@.id() == id@),
    {
        match &self.inner {
            ProcessKind::Source(p) => p.has_id(id),
            ProcessKind::Pool(p) => p.has_id(id),
            ProcessKind::Drain(p) => p.has_id(id),
            ProcessKind::Delay(p) => p.has_id(id),
            ProcessKind::Stepper(p) => p.has_id(id),
        }
    }

    /// The process held, to read.
    pub fn inner(&self) -> (r: &ProcessKind)
        ensures
            r.model() == self@,
    {
        &self.inner
    }
}

impl Processor for Process {
    open spec fn model(&self) -> ProcessModel {
        self@
    }

    fn id(&self) -> (r: &str) {
        match &self.inner {
            ProcessKind::Source(p) => p.id(),
            ProcessKind::Pool(p) => p.id(),
            ProcessKind::Drain(p) => p.id(),
            ProcessKind::Delay(p) => p.id(),
            ProcessKind::Stepper(p) => p.id(),
        }
    }

    fn on_event(&mut self, event: &Event, context: &ProcessContext) -> (r: Result<
        Vec<Event>,
        SimulationError,
    >) {
        match &mut self.inner {
            ProcessKind::Source(p) => p.on_event(event, context),
            ProcessKind::Pool(p) => p.on_event(event, context),
            ProcessKind::Drain(p) => p.on_event(event, context),
            ProcessKind::Delay(p) => p.on_event(event, context),
            ProcessKind::Stepper(p) => p.on_event(event, context),
        }
    }

    fn get_state(&self) -> (r: ProcessState) {
        match &self.inner {
            ProcessKind::Source(p) => p.get_state(),
            ProcessKind::Pool(p) => p.get_state(),
            ProcessKind::Drain(p) => p.get_state(),
            ProcessKind::Delay(p) => p.get_state(),
            ProcessKind::Stepper(p) => p.get_state(),
        }
    }

    fn get_input_ports(&self) -> (r: Vec<String>) {
        match &self.inner {
            ProcessKind::Source(p) => Processor::get_input_ports(p),
            ProcessKind::Pool(p) => Processor::get_input_ports(p),
            ProcessKind::Drain(p) => Processor::get_input_ports(p),
            ProcessKind::Delay(p) => Processor::get_input_ports(p),
            ProcessKind::Stepper(p) => Processor::get_input_ports(p),
        }
    }

    fn get_output_ports(&self) -> (r: Vec<String>) {
        match &self.inner {
            ProcessKind::Source(p) => Processor::get_output_ports(p),
            ProcessKind::Pool(p) => Processor::get_output_ports(p),
            ProcessKind::Drain(p) => Processor::get_output_ports(p),
            ProcessKind::Delay(p) => Processor::get_output_ports(p),
            ProcessKind::Stepper(p) => Processor::get_output_ports(p),
        }
    }

    fn reset(&mut self) {
        match &mut self.inner {
            ProcessKind::Source(p) => p.reset(),
            ProcessKind::Pool(p) => p.reset(),
            ProcessKind::Drain(p) => p.reset(),
            ProcessKind::Delay(p) => p.reset(),
            ProcessKind::Stepper(p) => p.reset(),
        }
    }
}

impl SerializableProcess for Process {
    open spec fn kind_name(&self) -> Seq<char> {
        self@.kind()
    }

    fn get_type(&self) -> (r: &'static str) {
        match &self.inner {
            ProcessKind::Source(p) => p.get_type(),
            ProcessKind::Pool(p) => p.get_type(),
            ProcessKind::Drain(p) => p.get_type(),
            ProcessKind::Delay(p) => p.get_type(),
            ProcessKind::Stepper(p) => p.get_type(),
        }
    }
}

impl ProcessKind {
    /// Whether two processes are of one kind.
    pub open spec fn same_kind_as(&self, other: &ProcessKind) -> bool {
        match (self, other) {
            (ProcessKind::Source(_), ProcessKind::Source(_)) => true,
            (ProcessKind::Pool(_), ProcessKind::Pool(_)) => true,
            (ProcessKind::Drain(_), ProcessKind::Drain(_)) => true,
            (ProcessKind::Delay(_), ProcessKind::Delay(_)) => true,
            (ProcessKind::Stepper(_), ProcessKind::Stepper(_)) => true,
            _ => false,
        }
    }

    /// Decides `same_kind_as`.
    pub fn is_same_kind_as(&self, other: &ProcessKind) -> (r: bool)
        ensures
            r == self.same_kind_as(other),
    {
        match (self, other) {
            (ProcessKind::Source(_), ProcessKind::Source(_)) => true,
            (ProcessKind::Pool(_), ProcessKind::Pool(_)) => true,
            (ProcessKind::Drain(_), ProcessKind::Drain(_)) => true,
            (ProcessKind::Delay(_), ProcessKind::Delay(_)) => true,
            (ProcessKind::Stepper(_), ProcessKind::Stepper(_)) => true,
            _ => false,
        }
    }
}

/// Two processes are equal when they agree in their identifier and in
/// their kind, whatever their settings and their state.
impl PartialEq for Process {
    fn eq(&self, other: &Process) -> (r: bool) {
        let id = self.id().to_owned();
        other.has_id(&id) && self.inner.is_same_kind_as(&other.inner)
    }
}

impl vstd::std_specs::cmp::PartialEqSpecImpl for Process {
    open spec fn obeys_eq_spec() -> bool {
        true
    }

    open spec fn eq_spec(&self, other: &Process) -> bool {
        other@.id() == self@.id() && self.inner.same_kind_as(&other.inner)
    }
}

impl From<Source> for Process {
    fn from(inner: Source) -> (r: Process) {
        Process { inner: ProcessKind::Source(inner) }
    }
}

impl vstd::std_specs::convert::FromSpecImpl<Source> for Process {
    open spec fn obeys_from_spec() -> bool {
        true
    }

    open spec fn from_spec(inner: Source) -> Process {
        Process { inner: ProcessKind::Source(inner) }
    }
}

impl From<Pool> for Process {
    fn from(inner: Pool) -> (r: Process) {
        Process { inner: ProcessKind::Pool(inner) }
    }
}

impl vstd::std_specs::convert::FromSpecImpl<Pool> for Process {
    open spec fn obeys_from_spec() -> bool {
        true
    }

    open spec fn from_spec(inner: Pool) -> Process {
        Process { inner: ProcessKind::Pool(inner) }
    }
}

impl From<Drain> for Process {
    fn from(inner: Drain) -> (r: Process) {
        Process { inner: ProcessKind::Drain(inner) }
    }
}

impl vstd::std_specs::convert::FromSpecImpl<Drain> for Process {
    open spec fn obeys_from_spec() -> bool {
        true
    }

    open spec fn from_spec(inner: Drain) -> Process {
        Process { inner: ProcessKind::Drain(inner) }
    }
}

impl From<Delay> for Process {
    fn from(inner: Delay) -> (r: Process) {
        Process { inner: ProcessKind::Delay(inner) }
    }
}

impl vstd::std_specs::convert::FromSpecImpl<Delay> for Process {
    open spec fn obeys_from_spec() -> bool {
        true
    }

    open spec fn from_spec(inner: Delay) -> Process {
        Process { inner: ProcessKind::Delay(inner) }
    }
}

impl From<Stepper> for Process {
    fn from(inner: Stepper) -> (r: Process) {
        Process { inner: ProcessKind::Stepper(inner) }
    }
}

impl vstd::std_specs::convert::FromSpecImpl<Stepper> for Process {
    open spec fn obeys_from_spec() -> bool {
        true
    }

    open spec fn from_spec(inner: Stepper) -> Process {
        Process { inner: ProcessKind::Stepper(inner) }
    }
}

} // verus!
