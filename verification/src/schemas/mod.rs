//! Schema dependency graphs: reference extraction and the graph itself.

pub mod refs;
pub mod graph;
pub mod construct;
