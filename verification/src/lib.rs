//! Familiar: schema-first primitives, drift checking and schema graph analysis.

pub mod text;
pub mod order;
pub mod primitives;
pub mod ids;
pub mod json;
pub mod assoc;
pub mod drift;
pub mod schemas;
pub mod analysis;
pub mod reports;
pub mod simulation;
pub mod legacy;
pub mod mcp;
pub mod validation;
pub mod runtime;
pub mod wrappers;
pub mod settings;
