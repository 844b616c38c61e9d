//! Where the application keeps its files, and the stores that read and write them.

pub mod atomic_json;
pub mod path_text;
pub mod paths;

pub use atomic_json::{AtomicJsonStore, StoragePermissions, TemporaryFileGuard};
pub use paths::{AppPaths, AppPathsError, WorkspacePaths};
