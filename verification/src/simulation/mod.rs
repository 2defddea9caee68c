//! Simulation helpers: subject resolution and entity spawning.

pub mod resolver;
pub mod edits;
pub mod spawn;
