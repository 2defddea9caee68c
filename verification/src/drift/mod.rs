//! Drift checking between hand-written Rust structs and their JSON Schemas.
//!
//! The schema side is read from parsed JSON, the Rust side from parsed struct
//! declarations; `compare` decides whether the two still agree.

pub mod schema;
pub mod compare;
pub mod parser;
pub mod check;
