//! The schema registry served to agents.

pub mod graph;
pub mod refs;
pub mod registry;
pub mod tools;
pub mod shapes;
