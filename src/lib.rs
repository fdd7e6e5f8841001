//! Compiles a declarative description of a synthesis graph into a build plan
//! with its control channels, and models the runtime control protocol.
pub mod description;
pub mod control;
pub mod compiler;
