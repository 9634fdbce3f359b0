pub mod errors;

pub use errors::SimulationError;
