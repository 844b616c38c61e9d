//! Finding and opening workspaces: which known workspace to open, when an identity is
//! already taken elsewhere, and which repositories are reported missing.

use vstd::prelude::*;

use crate::domain::global_config::{GlobalConfig, KnownWorkspace};
use crate::domain::ids::{RepositoryId, WorkspaceId};
use crate::domain::workspace::WorkspaceConfig;
use crate::storage::path_text::{paths_equal, same_path};
use crate::storage::paths::{AppPaths, WorkspacePaths};
use crate::text::{owned, push_str};

use super::error::WorkspaceError;
use super::registry::WorkspaceRegistry;
use super::repositories::RepositoryAvailability;
use super::stores::{PrivateWorkspaceState, PrivateWorkspaceStore, SharedWorkspaceStore};

verus! {

/// An opened workspace.
#[derive(Debug)]
pub struct WorkspaceContext {
    pub root: String,
    pub paths: WorkspacePaths,
    pub config: WorkspaceConfig,
    pub private_state: PrivateWorkspaceState,
    pub warnings: Vec<String>,
    pub shared_store: SharedWorkspaceStore,
    pub private_store: PrivateWorkspaceStore,
}

impl WorkspaceContext {
    /// An opened workspace with its stores.
    pub fn new(
        root: String,
        paths: WorkspacePaths,
        config: WorkspaceConfig,
        private_state: PrivateWorkspaceState,
        warnings: Vec<String>,
        shared_store: SharedWorkspaceStore,
        private_store: PrivateWorkspaceStore,
    ) -> (c: Self)
        ensures
            c.root == root,
            c.paths == paths,
            c.config == config,
            c.private_state == private_state,
            c.warnings == warnings,
            c.shared_store == shared_store,
            c.private_store == private_store,
    {
        WorkspaceContext { root, paths, config, private_state, warnings, shared_store, private_store }
    }

    pub fn shared_store(&self) -> (s: &SharedWorkspaceStore)
        ensures
            *s == self.shared_store,
    {
        &self.shared_store
    }

    pub fn private_store(&self) -> (s: &PrivateWorkspaceStore)
        ensures
            *s == self.private_store,
    {
        &self.private_store
    }
}

/// What discovery found.
#[derive(Debug)]
pub enum DiscoveryOutcome {
    Found(Box<WorkspaceContext>),
    SelectionRequired(Vec<KnownWorkspace>),
    NotFound { suggested_root: String },
}

/// Which known workspace discovery opens when no workspace encloses the start directory.
#[derive(Debug, Clone, PartialEq, Eq)]
pub enum DiscoveryChoice {
    /// Open the known workspace at this index.
    Open(usize),
    /// Let the user choose among the known workspaces at these indices.
    Select(Vec<usize>),
    /// No known workspace is available.
    NotFound,
}

/// The indices of the first `n` known workspaces that are available, in order.
pub open spec fn available_indices(available: Seq<bool>, n: int) -> Seq<usize>
    decreases n,
{
    if n <= 0 {
        Seq::empty()
    } else if available[n - 1] {
        available_indices(available, n - 1).push((n - 1) as usize)
    } else {
        available_indices(available, n - 1)
    }
}

/// The first available known workspace at or after `k` with the id, if any.
pub open spec fn first_available_with(
    known: Seq<KnownWorkspace>,
    available: Seq<bool>,
    id: WorkspaceId,
    k: int,
) -> Option<int>
    decreases known.len() - k,
{
    if k < 0 || k >= known.len() {
        None
    } else if available[k] && known[k].id == id {
        Some(k)
    } else {
        first_available_with(known, available, id, k + 1)
    }
}

/// The choice among the known workspaces, given which of them are available: the last
/// workspace if it is available, else the only available one, else a selection among them.
pub open spec fn discovery_choice_of(config: GlobalConfig, available: Seq<bool>) -> (Option<int>, Seq<usize>) {
    let known = config.known_workspaces@;
    let avail = available_indices(available, known.len() as int);
    let last = match config.last_workspace_id {
        Some(id) => first_available_with(known, available, id, 0),
        None => None,
    };
    if last is Some {
        (last, avail)
    } else if avail.len() == 1 {
        (Some(avail[0] as int), avail)
    } else {
        (None, avail)
    }
}

proof fn lemma_available_indices_bound(available: Seq<bool>, n: int)
    requires
        0 <= n <= available.len(),
    ensures
        available_indices(available, n).len() <= n,
        forall|k: int|
            0 <= k < available_indices(available, n).len() ==> #[trigger] available_indices(
                available,
                n,
            )[k] < n,
    decreases n,
{
    if n > 0 {
        lemma_available_indices_bound(available, n - 1);
    }
}

proof fn lemma_first_available_bound(
    known: Seq<KnownWorkspace>,
    available: Seq<bool>,
    id: WorkspaceId,
    k: int,
)
    ensures
        first_available_with(known, available, id, k) matches Some(i) ==> k <= i < known.len(),
    decreases known.len() - k,
{
    if 0 <= k < known.len() {
        lemma_first_available_bound(known, available, id, k + 1);
    }
}

/// Chooses the known workspace to open (see `discovery_choice_of`); `available` says, for
/// each known workspace, whether its shared file exists.
pub fn discovery_choice(config: &GlobalConfig, available: &Vec<bool>) -> (r: DiscoveryChoice)
    requires
        available@.len() == config.known_workspaces@.len(),
    ensures
        match r {
            DiscoveryChoice::Open(i) => discovery_choice_of(*config, available@).0 == Some(
                i as int,
            ),
            DiscoveryChoice::Select(v) => discovery_choice_of(*config, available@).0 is None
                && v@ == discovery_choice_of(*config, available@).1 && v@.len() > 1,
            DiscoveryChoice::NotFound => discovery_choice_of(*config, available@).0 is None
                && discovery_choice_of(*config, available@).1.len() == 0,
        },
{
    let known = &config.known_workspaces;
    let n = known.len();
    let mut avail: Vec<usize> = Vec::new();
    let mut i: usize = 0;
    while i < n
        invariant
            n == known@.len(),
            n == available@.len(),
            i <= n,
            avail@ == available_indices(available@, i as int),
        decreases n - i,
    {
        if available[i] {
            avail.push(i);
        }
        i = i + 1;
    }
    proof {
        lemma_available_indices_bound(available@, n as int);
    }
    if let Some(id) = config.last_workspace_id {
        let mut k: usize = 0;
        while k < n
            invariant
                n == known@.len(),
                n == available@.len(),
                k <= n,
                first_available_with(known@, available@, id, 0) == first_available_with(
                    known@,
                    available@,
                    id,
                    k as int,
                ),
            decreases n - k,
        {
            if available[k] && known[k].id == id {
                return DiscoveryChoice::Open(k);
            }
            k = k + 1;
        }
    }
    if avail.len() == 0 {
        DiscoveryChoice::NotFound
    } else if avail.len() == 1 {
        DiscoveryChoice::Open(avail[0])
    } else {
        DiscoveryChoice::Select(avail)
    }
}

/// The first known workspace with the id whose root is not `root`.
pub open spec fn registered_elsewhere(known: Seq<KnownWorkspace>, id: WorkspaceId, root: Seq<char>, k: int) -> Option<int>
    decreases known.len() - k,
{
    if k < 0 || k >= known.len() {
        None
    } else if known[k].id == id && !same_path(known[k].path@, root) {
        Some(k)
    } else {
        registered_elsewhere(known, id, root, k + 1)
    }
}

/// The known workspace with identity `id` at another root than `root`, which opening
/// `root` could conflict with.
pub fn other_registration(known: &Vec<KnownWorkspace>, id: WorkspaceId, root: &str) -> (r: Option<usize>)
    ensures
        (match r {
            Some(k) => Some(k as int),
            None => None,
        }) == registered_elsewhere(known@, id, root@, 0),
{
    let mut k: usize = 0;
    while k < known.len()
        invariant
            k <= known@.len(),
            registered_elsewhere(known@, id, root@, 0) == registered_elsewhere(known@, id, root@, k as int),
        decreases known@.len() - k,
    {
        if known[k].id == id && !paths_equal(known[k].path.as_str(), root) {
            return Some(k);
        }
        k = k + 1;
    }
    None
}

/// Refuses to open a workspace at `discovered_path` when the workspace registered with the
/// same identity at `registered_path` still has that identity.
pub fn check_identity(
    id: WorkspaceId,
    registered_path: &str,
    registered_id: WorkspaceId,
    discovered_path: &str,
) -> (r: Result<(), WorkspaceError>)
    ensures
        r is Ok <==> registered_id != id,
        r matches Err(e) ==> e matches WorkspaceError::IdentityConflict {
            id: i,
            registered_path: rp,
            discovered_path: dp,
        } && i == id && rp@ == registered_path@ && dp@ == discovered_path@,
{
    if registered_id == id {
        Err(
            WorkspaceError::IdentityConflict {
                id,
                registered_path: owned(registered_path),
                discovered_path: owned(discovered_path),
            },
        )
    } else {
        Ok(())
    }
}

/// The warning for a repository that is not where the workspace says.
pub open spec fn unavailable_text(id: RepositoryId, path: Seq<char>) -> Seq<char> {
    "repository '"@ + id@ + "' is unavailable at '"@ + path + "'"@
}

/// The warnings of the first `n` repositories that are missing.
pub open spec fn unavailable_warnings(r: Seq<RepositoryAvailability>, n: int) -> Seq<Seq<char>>
    decreases n,
{
    if n <= 0 {
        Seq::empty()
    } else {
        match r[n - 1] {
            RepositoryAvailability::Missing { id, path } => unavailable_warnings(r, n - 1).push(
                unavailable_text(id, path@),
            ),
            RepositoryAvailability::Available { .. } => unavailable_warnings(r, n - 1),
        }
    }
}

/// The warnings for the missing repositories, in order.
pub fn repository_warnings(availability: &Vec<RepositoryAvailability>) -> (w: Vec<String>)
    ensures
        w@.map_values(|s: String| s@) == unavailable_warnings(availability@, availability@.len() as int),
{
    let mut w: Vec<String> = Vec::new();
    let mut i: usize = 0;
    while i < availability.len()
        invariant
            i <= availability@.len(),
            w@.map_values(|s: String| s@) == unavailable_warnings(availability@, i as int),
        decreases availability@.len() - i,
    {
        match &availability[i] {
            RepositoryAvailability::Missing { id, path } => {
                let mut text = owned("repository '");
                push_str(&mut text, id.as_str());
                push_str(&mut text, "' is unavailable at '");
                push_str(&mut text, path.as_str());
                push_str(&mut text, "'");
                let ghost before = w@;
                w.push(text);
                assert(w@.map_values(|s: String| s@) =~= before.map_values(|s: String| s@).push(
                    unavailable_text(*id, path@),
                ));
            },
            RepositoryAvailability::Available { .. } => {},
        }
        i = i + 1;
    }
    w
}

/// Finds and opens workspaces; the file system work is the application's.
#[derive(Debug)]
pub struct WorkspaceManager {
    paths: AppPaths,
    registry: WorkspaceRegistry,
}

impl Clone for WorkspaceManager {
    fn clone(&self) -> (r: Self)
        ensures
            r.spec_paths() == self.spec_paths(),
    {
        WorkspaceManager { paths: self.paths.clone(), registry: self.registry.clone() }
    }
}

impl WorkspaceManager {
    pub closed spec fn spec_paths(&self) -> AppPaths {
        self.paths
    }

    pub closed spec fn spec_registry(&self) -> WorkspaceRegistry {
        self.registry
    }

    /// A manager with the registry of the application's global configuration.
    pub fn new(paths: AppPaths) -> (m: Self)
        ensures
            m.spec_paths() == paths,
            m.spec_registry().spec_paths() == paths,
    {
        let registry = WorkspaceRegistry::new(paths.clone());
        WorkspaceManager { paths, registry }
    }

    pub fn registry(&self) -> (r: &WorkspaceRegistry)
        ensures
            *r == self.spec_registry(),
    {
        &self.registry
    }

    pub fn paths(&self) -> (p: &AppPaths)
        ensures
            *p == self.spec_paths(),
    {
        &self.paths
    }
}

/// Creates workspaces; the file system work is the application's.
#[derive(Debug)]
pub struct WorkspaceInitializer {
    manager: WorkspaceManager,
}

impl Clone for WorkspaceInitializer {
    fn clone(&self) -> (r: Self)
        ensures
            r.spec_manager().spec_paths() == self.spec_manager().spec_paths(),
    {
        WorkspaceInitializer { manager: self.manager.clone() }
    }
}

impl WorkspaceInitializer {
    pub closed spec fn spec_manager(&self) -> WorkspaceManager {
        self.manager
    }

    pub fn new(paths: AppPaths) -> (i: Self)
        ensures
            i.spec_manager().spec_paths() == paths,
    {
        WorkspaceInitializer { manager: WorkspaceManager::new(paths) }
    }

    pub fn manager(&self) -> (m: &WorkspaceManager)
        ensures
            *m == self.spec_manager(),
    {
        &self.manager
    }
}

} // verus!
