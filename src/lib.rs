//! Host discovery and traffic-generation engine: subnet sweep results,
//! session parameters, throughput samples and the command/event state machine.

pub mod address;
pub mod scanner;
pub mod flood;
pub mod engine;
