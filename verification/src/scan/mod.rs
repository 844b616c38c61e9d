//! Scanning repositories for code annotations and reconciling them with the tracked ones.

pub mod order;
pub mod reconcile;
pub mod rescan;
pub mod searcher;
