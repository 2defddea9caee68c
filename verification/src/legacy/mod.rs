//! The message types of the earlier tool pipeline: segmentation,
//! classification, spawning, hints and orchestration.

pub mod base;
pub mod entity;
pub mod hints;
pub mod intent;
pub mod orchestration;
pub mod segmentation;
pub mod spawn;
pub mod ui;
