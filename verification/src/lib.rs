//! Exhaustive key search: the candidate space, the producer and consumer state
//! machines, the stop signal, and a model of the whole pipeline with its laws.

pub mod alphabet;
pub mod generator;
pub mod laws;
pub mod orchestrator;
pub mod pipeline;
pub mod queue;
pub mod reachable;
pub mod stop;
pub mod words;
pub mod worker;
