//! The first board model: named columns of prioritised tasks.

pub mod column;
pub mod strip;
pub mod task;
