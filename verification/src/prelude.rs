//! The names that most users of the library need.

pub use crate::fixed::Fixed;
pub use crate::model::Connection;
pub use crate::model::Process;
pub use crate::model::ProcessKind;
pub use crate::model::Processor;
pub use crate::model::SerializableProcess;
pub use crate::simulator::Simulation;
pub use crate::utils::errors::SimulationError;
pub use crate::simulator::Simulate;
pub use crate::simulator::StatefulSimulation;
