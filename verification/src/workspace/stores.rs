//! Where the shared and private files of a workspace are stored, and the checks that every
//! load and save makes.

use vstd::prelude::*;

use crate::domain::ids::WorkspaceId;
use crate::domain::private_state::{
    cards_file_problem, header_problem, problem_of, CacheFile, CardsFile, SyncQueueFile,
    UiStateFile,
};
use crate::domain::workspace::{workspace_issues, WorkspaceConfig};
use crate::storage::path_text::join;
use crate::storage::paths::{shared_workspace_path, AppPaths, WorkspacePaths};
use crate::storage::{AtomicJsonStore, StoragePermissions};

use super::error::WorkspaceError;

verus! {

/// The shared workspace file, kept in the repository.
#[derive(Debug)]
pub struct SharedWorkspaceStore {
    store: AtomicJsonStore,
}

impl Clone for SharedWorkspaceStore {
    fn clone(&self) -> (r: Self)
        ensures
            r.spec_store() == self.spec_store(),
    {
        SharedWorkspaceStore { store: self.store.clone() }
    }
}

impl SharedWorkspaceStore {
    pub closed spec fn spec_store(&self) -> AtomicJsonStore {
        self.store
    }

    /// The store of the workspace whose root is `root`.
    pub fn from_root(root: &str) -> (s: Self)
        ensures
            s.spec_store().spec_path() == shared_workspace_path(root@),
            s.spec_store().spec_permissions() == StoragePermissions::Shared,
    {
        SharedWorkspaceStore { store: AtomicJsonStore::shared(AppPaths::shared_workspace_file(root)) }
    }

    /// The store of a workspace's shared configuration file.
    pub fn new(paths: &WorkspacePaths) -> (s: Self)
        ensures
            s.spec_store().spec_path() == shared_workspace_path(paths.spec_root()),
            s.spec_store().spec_permissions() == StoragePermissions::Shared,
    {
        SharedWorkspaceStore { store: AtomicJsonStore::shared(paths.shared_config_file()) }
    }

    pub fn store(&self) -> (s: &AtomicJsonStore)
        ensures
            *s == self.spec_store(),
    {
        &self.store
    }

    /// The check made on a workspace configuration before it is saved and after it is
    /// loaded: it must be valid.
    pub fn check(workspace: &WorkspaceConfig) -> (r: Result<(), WorkspaceError>)
        ensures
            r is Ok <==> workspace_issues(*workspace).len() == 0,
            r matches Err(e) ==> e matches WorkspaceError::Validation(v) && v.spec_issues()
                == workspace_issues(*workspace),
    {
        match workspace.validate() {
            Ok(()) => Ok(()),
            Err(e) => Err(WorkspaceError::Validation(e)),
        }
    }
}

/// The private files of a workspace, kept outside the repository.
#[derive(Debug)]
pub struct PrivateWorkspaceStore {
    workspace_id: WorkspaceId,
    cards: AtomicJsonStore,
    state: AtomicJsonStore,
    cache: AtomicJsonStore,
    sync_queue: AtomicJsonStore,
}

impl Clone for PrivateWorkspaceStore {
    fn clone(&self) -> (r: Self)
        ensures
            r.spec_workspace_id() == self.spec_workspace_id(),
            r.spec_cards() == self.spec_cards(),
            r.spec_state() == self.spec_state(),
            r.spec_cache() == self.spec_cache(),
            r.spec_sync_queue() == self.spec_sync_queue(),
    {
        PrivateWorkspaceStore {
            workspace_id: self.workspace_id,
            cards: self.cards.clone(),
            state: self.state.clone(),
            cache: self.cache.clone(),
            sync_queue: self.sync_queue.clone(),
        }
    }
}

impl PrivateWorkspaceStore {
    pub closed spec fn spec_workspace_id(&self) -> WorkspaceId {
        self.workspace_id
    }

    pub closed spec fn spec_cards(&self) -> AtomicJsonStore {
        self.cards
    }

    pub closed spec fn spec_state(&self) -> AtomicJsonStore {
        self.state
    }

    pub closed spec fn spec_cache(&self) -> AtomicJsonStore {
        self.cache
    }

    pub closed spec fn spec_sync_queue(&self) -> AtomicJsonStore {
        self.sync_queue
    }

    /// The private stores of a workspace, in its private directory.
    pub fn new(paths: &WorkspacePaths, workspace_id: WorkspaceId) -> (s: Self)
        ensures
            s.spec_workspace_id() == workspace_id,
            s.spec_cards().spec_path() == join(paths.spec_private_directory(), "cards.json"@),
            s.spec_state().spec_path() == join(paths.spec_private_directory(), "state.json"@),
            s.spec_cache().spec_path() == join(paths.spec_private_directory(), "cache.json"@),
            s.spec_sync_queue().spec_path() == join(
                paths.spec_private_directory(),
                "sync-queue.json"@,
            ),
            s.spec_cards().spec_permissions() == StoragePermissions::Private,
            s.spec_state().spec_permissions() == StoragePermissions::Private,
            s.spec_cache().spec_permissions() == StoragePermissions::Private,
            s.spec_sync_queue().spec_permissions() == StoragePermissions::Private,
    {
        PrivateWorkspaceStore {
            workspace_id,
            cards: AtomicJsonStore::private(paths.cards_file()),
            state: AtomicJsonStore::private(paths.state_file()),
            cache: AtomicJsonStore::private(paths.cache_file()),
            sync_queue: AtomicJsonStore::private(paths.sync_queue_file()),
        }
    }

    pub fn workspace_id(&self) -> (id: WorkspaceId)
        ensures
            id == self.spec_workspace_id(),
    {
        self.workspace_id
    }

    pub fn cards_store(&self) -> (s: &AtomicJsonStore)
        ensures
            *s == self.spec_cards(),
    {
        &self.cards
    }

    pub fn state_store(&self) -> (s: &AtomicJsonStore)
        ensures
            *s == self.spec_state(),
    {
        &self.state
    }

    pub fn cache_store(&self) -> (s: &AtomicJsonStore)
        ensures
            *s == self.spec_cache(),
    {
        &self.cache
    }

    pub fn sync_queue_store(&self) -> (s: &AtomicJsonStore)
        ensures
            *s == self.spec_sync_queue(),
    {
        &self.sync_queue
    }

    /// The check made on a cards file before it is saved and after it is loaded.
    pub fn check_cards(&self, value: &CardsFile) -> (r: Result<(), WorkspaceError>)
        ensures
            r is Ok <==> cards_file_problem(*value, self.spec_workspace_id()) is None,
            r matches Err(e) ==> e matches WorkspaceError::PrivateState(p) && cards_file_problem(
                *value,
                self.spec_workspace_id(),
            ) == Some(problem_of(p)),
    {
        match value.validate_for(self.workspace_id) {
            Ok(()) => Ok(()),
            Err(e) => Err(WorkspaceError::PrivateState(e)),
        }
    }

    /// The check made on the UI state file before it is saved and after it is loaded.
    pub fn check_ui_state(&self, value: &UiStateFile) -> (r: Result<(), WorkspaceError>)
        ensures
            r is Ok <==> header_problem(value.schema_version, value.workspace_id, self.spec_workspace_id()) is None,
            r matches Err(e) ==> e matches WorkspaceError::PrivateState(p) && header_problem(
                value.schema_version,
                value.workspace_id,
                self.spec_workspace_id(),
            ) == Some(problem_of(p)),
    {
        match value.validate_for(self.workspace_id) {
            Ok(()) => Ok(()),
            Err(e) => Err(WorkspaceError::PrivateState(e)),
        }
    }

    /// The check made on the cache file before it is saved and after it is loaded.
    pub fn check_cache(&self, value: &CacheFile) -> (r: Result<(), WorkspaceError>)
        ensures
            r is Ok <==> header_problem(value.schema_version, value.workspace_id, self.spec_workspace_id()) is None,
            r matches Err(e) ==> e matches WorkspaceError::PrivateState(p) && header_problem(
                value.schema_version,
                value.workspace_id,
                self.spec_workspace_id(),
            ) == Some(problem_of(p)),
    {
        match value.validate_for(self.workspace_id) {
            Ok(()) => Ok(()),
            Err(e) => Err(WorkspaceError::PrivateState(e)),
        }
    }

    /// The check made on the sync queue file before it is saved and after it is loaded.
    pub fn check_sync_queue(&self, value: &SyncQueueFile) -> (r: Result<(), WorkspaceError>)
        ensures
            r is Ok <==> header_problem(value.schema_version, value.workspace_id, self.spec_workspace_id()) is None,
            r matches Err(e) ==> e matches WorkspaceError::PrivateState(p) && header_problem(
                value.schema_version,
                value.workspace_id,
                self.spec_workspace_id(),
            ) == Some(problem_of(p)),
    {
        match value.validate_for(self.workspace_id) {
            Ok(()) => Ok(()),
            Err(e) => Err(WorkspaceError::PrivateState(e)),
        }
    }
}

/// The private files of a workspace, as loaded.
#[derive(Debug)]
pub struct PrivateWorkspaceState {
    pub cards: CardsFile,
    pub state: UiStateFile,
    pub cache: CacheFile,
    pub sync_queue: SyncQueueFile,
}

} // verus!
