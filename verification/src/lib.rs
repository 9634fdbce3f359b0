//! Discrete-event simulation of resource-flow networks.
//!
//! A model is a directed graph of processes joined by connections that carry
//! amounts of a fungible resource. The scheduler drains a queue of events
//! ordered by time and sequence number, hands each event to its target, and
//! queues the events the target emits in response.

pub mod analysis;
pub mod dsl;
pub mod fixed;
pub mod model;
pub mod prelude;
pub mod simulator;
pub mod utils;
