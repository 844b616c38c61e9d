//! The workspace's data model and its validation rules.

pub mod annotation;
pub mod column;
pub mod global_config;
pub mod ids;
pub mod private_state;
pub mod provider;
pub mod repository_path;
pub mod task;
pub mod workspace;

pub use annotation::{AnnotationDisposition, CodeAnnotation, Finding};
pub use column::Column;
pub use global_config::{GlobalConfig, KnownWorkspace, GLOBAL_CONFIG_SCHEMA_VERSION};
pub use ids::{AnnotationId, CardId, ColumnId, RepositoryId, WorkspaceId};
pub use provider::{ProviderConfig, ProviderId};
pub use task::{Task, TaskPriority};
pub use private_state::{
    CacheFile, CachedGitlabIssue, CardsFile, LocalCard, OrderingEntry, PrivateStateError,
    SyncOperation, SyncOperationKind, SyncQueueFile, UiStateFile, PRIVATE_SCHEMA_VERSION,
};
pub use workspace::{
    AnnotationTagMapping, ColumnConfig, RepositoryConfig, StatusMapping, WorkspaceConfig,
    WorkspaceValidationErrors, WorkspaceValidationIssue, WORKSPACE_SCHEMA_VERSION,
};
