pub mod connection;
pub mod laws;
pub mod nodes;
pub mod process;
pub mod process_context;
pub mod process_state;
pub mod process_trait;

pub use connection::Connection;
pub use process::Process;
pub use process::ProcessKind;
pub use process_context::ProcessContext;
pub use process_state::ProcessState;
pub use process_trait::Processor;
pub use process_trait::SerializableProcess;
