//! Workspaces: the registry of known workspaces, repository detection and discovery.

pub mod naming;
pub mod discovery;
pub mod error;
pub mod registry;
pub mod repositories;
pub mod stores;

pub use error::WorkspaceError;
pub use registry::WorkspaceRegistry;
