pub mod conservation;
pub mod event;
pub mod event_queue;
pub mod laws;
pub mod semantics;
pub mod simulation;
pub mod simulation_context;
pub mod simulation_state;
pub mod simulation_trait;

pub use event::Event;
pub use event::EventPayload;
pub use event_queue::EventQueue;
pub use simulation::Simulation;
pub use simulation_context::SimulationContext;
pub use simulation_state::SimulationState;
pub use simulation_trait::Simulate;
pub use simulation_trait::StatefulSimulation;
