//! The registry of known workspaces kept in the global configuration.

use vstd::prelude::*;

use crate::domain::ids::uuid_text;
use crate::domain::workspace::quoted;
use crate::domain::{GlobalConfig, KnownWorkspace, WorkspaceId, GLOBAL_CONFIG_SCHEMA_VERSION};
use crate::storage::path_text::{is_absolute, path_is_absolute, paths_equal, same_path};
use crate::storage::{AppPaths, AtomicJsonStore};
use crate::text::{decimal, owned, push_char, push_decimal, push_str};

use super::error::WorkspaceError;

verus! {

pub open spec fn id_seen(ws: Seq<KnownWorkspace>, i: int) -> bool {
    exists|j: int| 0 <= j < i && (#[trigger] ws[j]).id == ws[i].id
}

pub open spec fn path_seen(ws: Seq<KnownWorkspace>, i: int) -> bool {
    exists|j: int| 0 <= j < i && same_path((#[trigger] ws[j]).path@, ws[i].path@)
}

/// What is wrong with known workspace `i`: a relative path, or an id or path used before.
pub open spec fn known_problem(ws: Seq<KnownWorkspace>, i: int) -> Option<Seq<char>> {
    if !is_absolute(ws[i].path@) {
        Some(quoted("workspace path "@, ws[i].path@) + " must be absolute"@)
    } else if id_seen(ws, i) {
        Some(quoted("duplicate workspace id "@, uuid_text(ws[i].id.0)))
    } else if path_seen(ws, i) {
        Some(quoted("duplicate workspace path "@, ws[i].path@))
    } else {
        None
    }
}

pub open spec fn first_known_problem(ws: Seq<KnownWorkspace>, n: int) -> Option<Seq<char>>
    decreases n,
{
    if n <= 0 {
        None
    } else {
        match first_known_problem(ws, n - 1) {
            Some(m) => Some(m),
            None => known_problem(ws, n - 1),
        }
    }
}

pub open spec fn is_registered(ws: Seq<KnownWorkspace>, id: WorkspaceId) -> bool {
    exists|j: int| 0 <= j < ws.len() && (#[trigger] ws[j]).id == id
}

/// The first problem of a global configuration: the schema version, then each known
/// workspace, then a last workspace that is not registered.
pub open spec fn global_config_problem(c: GlobalConfig) -> Option<Seq<char>> {
    let ws = c.known_workspaces@;
    if c.schema_version != GLOBAL_CONFIG_SCHEMA_VERSION {
        Some(
            "unsupported schema version "@ + decimal(c.schema_version as nat) + "; expected "@
                + decimal(GLOBAL_CONFIG_SCHEMA_VERSION as nat),
        )
    } else {
        match first_known_problem(ws, ws.len() as int) {
            Some(m) => Some(m),
            None => match c.last_workspace_id {
                Some(id) => if is_registered(ws, id) {
                    None
                } else {
                    Some(quoted("last workspace id "@, uuid_text(id.0)) + " is not registered"@)
                },
                None => None,
            },
        }
    }
}

/// A global configuration that validation accepts.
pub open spec fn valid_global_config(c: GlobalConfig) -> bool {
    global_config_problem(c) is None
}

fn quoted_text(before: &str, value: &str, after: &str) -> (r: String)
    ensures
        r@ == quoted(before@, value@) + after@,
{
    let mut r = owned(before);
    push_char(&mut r, '\'');
    push_str(&mut r, value);
    push_char(&mut r, '\'');
    push_str(&mut r, after);
    assert(r@ =~= quoted(before@, value@) + after@);
    r
}

proof fn lemma_first_known_extends(ws: Seq<KnownWorkspace>, i: int, n: int)
    requires
        0 <= i < n,
        first_known_problem(ws, i) is None,
        known_problem(ws, i) is Some,
    ensures
        first_known_problem(ws, n) == known_problem(ws, i),
    decreases n - i,
{
    if n > i + 1 {
        lemma_first_known_extends(ws, i, n - 1);
    }
}

/// Checks a global configuration; the error is the text of the first problem.
#[verifier::loop_isolation(false)]
pub fn validate_global_config(config: &GlobalConfig) -> (r: Result<(), WorkspaceError>)
    ensures
        r is Ok <==> valid_global_config(*config),
        r matches Err(e) ==> (e matches WorkspaceError::InvalidGlobalConfig(m) && Some(m@)
            == global_config_problem(*config)),
{
    if config.schema_version != GLOBAL_CONFIG_SCHEMA_VERSION {
        let mut m = owned("unsupported schema version ");
        push_decimal(&mut m, config.schema_version as u128);
        push_str(&mut m, "; expected ");
        push_decimal(&mut m, GLOBAL_CONFIG_SCHEMA_VERSION as u128);
        return Err(WorkspaceError::InvalidGlobalConfig(m));
    }
    let ws = &config.known_workspaces;
    let n = ws.len();
    let mut i: usize = 0;
    while i < n
        invariant
            i <= n,
            first_known_problem(ws@, i as int) is None,
        decreases n - i,
    {
        let w = &ws[i];
        if !path_is_absolute(w.path.as_str()) {
            proof {
                lemma_first_known_extends(ws@, i as int, n as int);
            }
            return Err(
                WorkspaceError::InvalidGlobalConfig(
                    quoted_text("workspace path ", w.path.as_str(), " must be absolute"),
                ),
            );
        }
        let mut j: usize = 0;
        while j < i
            invariant
                j <= i,
                forall|q: int| 0 <= q < j ==> (#[trigger] ws@[q]).id != w.id,
            decreases i - j,
        {
            if ws[j].id == w.id {
                assert(id_seen(ws@, i as int));
                proof {
                    lemma_first_known_extends(ws@, i as int, n as int);
                    reveal_strlit("");
                }
                let text = w.id.text();
                let m = quoted_text("duplicate workspace id ", text.as_str(), "");
                assert(m@ =~= quoted("duplicate workspace id "@, uuid_text(w.id.0)));
                return Err(WorkspaceError::InvalidGlobalConfig(m));
            }
            j = j + 1;
        }
        let mut j: usize = 0;
        while j < i
            invariant
                j <= i,
                forall|q: int| 0 <= q < j ==> !same_path((#[trigger] ws@[q]).path@, w.path@),
            decreases i - j,
        {
            if paths_equal(ws[j].path.as_str(), w.path.as_str()) {
                assert(path_seen(ws@, i as int));
                proof {
                    lemma_first_known_extends(ws@, i as int, n as int);
                    reveal_strlit("");
                }
                let m = quoted_text("duplicate workspace path ", w.path.as_str(), "");
                assert(m@ =~= quoted("duplicate workspace path "@, w.path@));
                return Err(WorkspaceError::InvalidGlobalConfig(m));
            }
            j = j + 1;
        }
        i = i + 1;
    }
    if let Some(last) = config.last_workspace_id {
        let mut j: usize = 0;
        while j < n
            invariant
                j <= n,
                forall|q: int| 0 <= q < j ==> (#[trigger] ws@[q]).id != last,
            decreases n - j,
        {
            if ws[j].id == last {
                return Ok(());
            }
            j = j + 1;
        }
        let text = last.text();
        return Err(
            WorkspaceError::InvalidGlobalConfig(
                quoted_text("last workspace id ", text.as_str(), " is not registered"),
            ),
        );
    }
    Ok(())
}

/// The known workspaces after registering `id` at `root`: its entry moved to `root`, or a
/// new entry at the end.
pub open spec fn registered_workspaces(ws: Seq<KnownWorkspace>, id: WorkspaceId, root: Seq<char>) -> Seq<
    (WorkspaceId, Seq<char>),
> {
    let v = ws.map_values(|w: KnownWorkspace| (w.id, w.path@));
    if is_registered(ws, id) {
        v.map_values(
            |e: (WorkspaceId, Seq<char>)|
                if e.0 == id {
                    (e.0, root)
                } else {
                    e
                },
        )
    } else {
        v.push((id, root))
    }
}

pub open spec fn known_view(ws: Seq<KnownWorkspace>) -> Seq<(WorkspaceId, Seq<char>)> {
    ws.map_values(|w: KnownWorkspace| (w.id, w.path@))
}

/// Registering a workspace a second time at the same root changes nothing: the known
/// workspaces after one registration are a fixed point of registering it again.
pub proof fn lemma_register_idempotent(
    ws: Seq<KnownWorkspace>,
    again: Seq<KnownWorkspace>,
    id: WorkspaceId,
    root: Seq<char>,
)
    requires
        known_view(again) == registered_workspaces(ws, id, root),
    ensures
        registered_workspaces(again, id, root) == known_view(again),
{
    let v = registered_workspaces(ws, id, root);
    let old_view = ws.map_values(|w: KnownWorkspace| (w.id, w.path@));
    if is_registered(ws, id) {
        let j = choose|j: int| 0 <= j < ws.len() && (#[trigger] ws[j]).id == id;
        assert(old_view[j] == (ws[j].id, ws[j].path@));
        assert(v.len() == ws.len());
        assert(v[j] == (id, root));
        assert(known_view(again).len() == again.len());
        assert(known_view(again)[j] == (again[j].id, again[j].path@));
        assert(again[j].id == id);
    } else {
        let last = old_view.len() as int;
        assert(v.len() == ws.len() + 1);
        assert(v[last] == (id, root));
        assert(known_view(again).len() == again.len());
        assert(known_view(again)[last] == (again[last].id, again[last].path@));
        assert(again[last].id == id);
    }
    assert(is_registered(again, id));
    assert forall|k: int| 0 <= k < again.len() && #[trigger] again[k].id == id implies again[k].path@
        == root by {
        assert(known_view(again).len() == again.len());
        assert(known_view(again)[k] == (again[k].id, again[k].path@));
        assert(known_view(again)[k] == v[k]);
        if is_registered(ws, id) {
            assert(v.len() == ws.len());
            assert(old_view[k] == (ws[k].id, ws[k].path@));
            assert(v[k] == (id, root));
        } else if k < ws.len() {
            assert(v[k] == old_view[k]);
            assert(old_view[k] == (ws[k].id, ws[k].path@));
            assert(ws[k].id == id);
            assert(is_registered(ws, id));
        }
    }
    assert(registered_workspaces(again, id, root) =~= known_view(again));
}

/// Whether no two entries share a workspace id or a path.
pub open spec fn distinct_entries(v: Seq<(WorkspaceId, Seq<char>)>) -> bool {
    forall|a: int, b: int|
        0 <= a < b < v.len() ==> #[trigger] v[a].0 != #[trigger] v[b].0 && !same_path(v[a].1, v[b].1)
}

proof fn lemma_first_known_none(ws: Seq<KnownWorkspace>, n: int)
    requires
        first_known_problem(ws, n) is None,
    ensures
        forall|i: int| 0 <= i < n ==> #[trigger] known_problem(ws, i) is None,
    decreases n,
{
    if n > 0 {
        lemma_first_known_none(ws, n - 1);
    }
}

/// In a valid global configuration no two known workspaces share an id or a path.
pub proof fn lemma_valid_config_entries_distinct(c: GlobalConfig)
    requires
        valid_global_config(c),
    ensures
        distinct_entries(known_view(c.known_workspaces@)),
{
    let ws = c.known_workspaces@;
    let v = known_view(ws);
    lemma_first_known_none(ws, ws.len() as int);
    assert forall|a: int, b: int| 0 <= a < b < v.len() implies #[trigger] v[a].0
        != #[trigger] v[b].0 && !same_path(v[a].1, v[b].1) by {
        assert(known_problem(ws, b) is None);
        assert(v[a] == (ws[a].id, ws[a].path@));
        assert(v[b] == (ws[b].id, ws[b].path@));
        if ws[a].id == ws[b].id {
            assert(id_seen(ws, b));
        }
        if same_path(ws[a].path@, ws[b].path@) {
            assert(path_seen(ws, b));
        }
    }
}

/// Registering keeps the registry's ids and paths unique: where no two known workspaces
/// share an id or a path, and no other workspace is registered at the root, the known
/// workspaces after registering still share none, so a moved workspace keeps one entry.
pub proof fn lemma_register_keeps_entries_distinct(
    ws: Seq<KnownWorkspace>,
    id: WorkspaceId,
    root: Seq<char>,
)
    requires
        distinct_entries(known_view(ws)),
        !path_conflict(ws, id, root),
    ensures
        distinct_entries(registered_workspaces(ws, id, root)),
{
    let v = known_view(ws);
    let r = registered_workspaces(ws, id, root);
    assert forall|j: int| 0 <= j < ws.len() && v[j].0 != id implies !same_path(v[j].1, root) by {
        assert(v[j] == (ws[j].id, ws[j].path@));
        if same_path(ws[j].path@, root) {
            assert(path_conflict(ws, id, root));
        }
    }
    if is_registered(ws, id) {
        assert forall|a: int, b: int| 0 <= a < b < r.len() implies #[trigger] r[a].0
            != #[trigger] r[b].0 && !same_path(r[a].1, r[b].1) by {
            assert(v[a].0 != v[b].0 && !same_path(v[a].1, v[b].1));
            assert(r[a] == (if v[a].0 == id { (v[a].0, root) } else { v[a] }));
            assert(r[b] == (if v[b].0 == id { (v[b].0, root) } else { v[b] }));
        }
    } else {
        assert forall|j: int| 0 <= j < ws.len() implies v[j].0 != id by {
            assert(v[j] == (ws[j].id, ws[j].path@));
        }
        assert forall|a: int, b: int| 0 <= a < b < r.len() implies #[trigger] r[a].0
            != #[trigger] r[b].0 && !same_path(r[a].1, r[b].1) by {
            if b < v.len() {
                assert(r[a] == v[a] && r[b] == v[b]);
                assert(v[a].0 != v[b].0 && !same_path(v[a].1, v[b].1));
            } else {
                assert(r[a] == v[a] && r[b] == (id, root));
            }
        }
    }
}

/// Another workspace registered at the same path.
pub open spec fn path_conflict(ws: Seq<KnownWorkspace>, id: WorkspaceId, root: Seq<char>) -> bool {
    exists|j: int| 0 <= j < ws.len() && same_path((#[trigger] ws[j]).path@, root) && ws[j].id != id
}

/// The registry of known workspaces, kept in the global configuration file.
#[derive(Debug)]
pub struct WorkspaceRegistry {
    paths: AppPaths,
    store: AtomicJsonStore,
}

impl Clone for WorkspaceRegistry {
    fn clone(&self) -> (r: Self)
        ensures
            r.spec_store() == self.spec_store(),
    {
        WorkspaceRegistry { paths: self.paths.clone(), store: self.store.clone() }
    }
}

impl WorkspaceRegistry {
    pub closed spec fn spec_store(&self) -> AtomicJsonStore {
        self.store
    }

    pub closed spec fn spec_paths(&self) -> AppPaths {
        self.paths
    }

    /// The registry of the global configuration file, which is private.
    pub fn new(paths: AppPaths) -> (r: Self)
        ensures
            r.spec_paths() == paths,
            r.spec_store().spec_path() == crate::storage::path_text::join(
                paths.spec_config_directory(),
                "config.json"@,
            ),
            r.spec_store().spec_permissions() == crate::storage::StoragePermissions::Private,
    {
        let store = AtomicJsonStore::private(paths.global_config_file());
        WorkspaceRegistry { paths, store }
    }

    pub fn paths(&self) -> (p: &AppPaths)
        ensures
            *p == self.spec_paths(),
    {
        &self.paths
    }

    pub fn store(&self) -> (s: &AtomicJsonStore)
        ensures
            *s == self.spec_store(),
    {
        &self.store
    }

    /// Records that workspace `id` lives at `root` and makes it the last workspace; refused
    /// when another workspace is registered at that path.
    pub fn register_in(config: &GlobalConfig, id: WorkspaceId, root: &str) -> (r: Result<
        GlobalConfig,
        WorkspaceError,
    >)
        ensures
            r is Err <==> path_conflict(config.known_workspaces@, id, root@),
            r matches Ok(c) ==> {
                &&& c.schema_version == config.schema_version
                &&& c.default_editor == config.default_editor
                &&& c.last_workspace_id == Some(id)
                &&& known_view(c.known_workspaces@) == registered_workspaces(
                    config.known_workspaces@,
                    id,
                    root@,
                )
                &&& valid_global_config(*config) ==> distinct_entries(known_view(c.known_workspaces@))
            },
            r matches Err(e) ==> e is InvalidGlobalConfig,
    {
        proof {
            if valid_global_config(*config) {
                lemma_valid_config_entries_distinct(*config);
                if !path_conflict(config.known_workspaces@, id, root@) {
                    lemma_register_keeps_entries_distinct(config.known_workspaces@, id, root@);
                }
            }
        }
        let ws = &config.known_workspaces;
        let n = ws.len();
        let mut j: usize = 0;
        while j < n
            invariant
                n == ws@.len(),
                j <= n,
                forall|q: int| 0 <= q < j ==> !(same_path((#[trigger] ws@[q]).path@, root@) && ws@[q].id != id),
            decreases n - j,
        {
            if paths_equal(ws[j].path.as_str(), root) && ws[j].id != id {
                assert(path_conflict(ws@, id, root@));
                let mut m = quoted_text("path ", root, " is already registered for workspace ");
                let text = ws[j].id.text();
                let tail = quoted_text("", text.as_str(), "");
                push_str(&mut m, tail.as_str());
                return Err(WorkspaceError::InvalidGlobalConfig(m));
            }
            j = j + 1;
        }
        let mut next: Vec<KnownWorkspace> = Vec::new();
        let mut found = false;
        let mut k: usize = 0;
        while k < n
            invariant
                n == ws@.len(),
                k <= n,
                found == exists|q: int| 0 <= q < k && (#[trigger] ws@[q]).id == id,
                known_view(next@) == known_view(ws@.subrange(0, k as int)).map_values(
                    |e: (WorkspaceId, Seq<char>)|
                        if e.0 == id {
                            (e.0, root@)
                        } else {
                            e
                        },
                ),
            decreases n - k,
        {
            let w = &ws[k];
            let ghost old_next = next@;
            if w.id == id {
                next.push(KnownWorkspace { id, path: owned(root) });
                found = true;
            } else {
                next.push(w.clone());
            }
            proof {
                let f = |e: (WorkspaceId, Seq<char>)|
                    if e.0 == id {
                        (e.0, root@)
                    } else {
                        e
                    };
                assert(known_view(ws@.subrange(0, k + 1)) =~= known_view(ws@.subrange(0, k as int)).push((w.id, w.path@)));
                assert(known_view(next@) =~= known_view(old_next).push(f((w.id, w.path@))));
                assert(known_view(ws@.subrange(0, k as int)).push((w.id, w.path@)).map_values(f)
                    =~= known_view(ws@.subrange(0, k as int)).map_values(f).push(f((w.id, w.path@))));
                assert(known_view(next@) =~= known_view(ws@.subrange(0, k + 1)).map_values(
                    |e: (WorkspaceId, Seq<char>)|
                        if e.0 == id {
                            (e.0, root@)
                        } else {
                            e
                        },
                ));
            }
            k = k + 1;
        }
        assert(ws@.subrange(0, n as int) =~= ws@);
        if !found {
            let ghost before = next@;
            next.push(KnownWorkspace { id, path: owned(root) });
            proof {
                assert forall|e: (WorkspaceId, Seq<char>)| known_view(ws@).contains(e) implies e.0 != id by {
                    let q = choose|q: int| 0 <= q < known_view(ws@).len() && known_view(ws@)[q] == e;
                    assert(ws@[q].id == e.0);
                }
                assert(known_view(before) =~= known_view(ws@));
                assert(known_view(next@) =~= known_view(ws@).push((id, root@)));
            }
        }
        Ok(
            GlobalConfig {
                schema_version: config.schema_version,
                default_editor: match &config.default_editor {
                    Some(e) => Some(e.clone()),
                    None => None,
                },
                last_workspace_id: Some(id),
                known_workspaces: next,
            },
        )
    }

    /// Makes a registered workspace the last one; refused when it is not registered.
    pub fn set_last_in(config: &GlobalConfig, id: WorkspaceId) -> (r: Result<GlobalConfig, WorkspaceError>)
        ensures
            r is Ok <==> is_registered(config.known_workspaces@, id),
            r matches Ok(c) ==> {
                &&& c.schema_version == config.schema_version
                &&& c.default_editor == config.default_editor
                &&& c.last_workspace_id == Some(id)
                &&& c.known_workspaces@ == config.known_workspaces@
            },
            r matches Err(e) ==> (e matches WorkspaceError::InvalidGlobalConfig(m) && m@ == quoted(
                "workspace "@,
                uuid_text(id.0),
            ) + " is not registered"@),
    {
        let ws = &config.known_workspaces;
        let mut j: usize = 0;
        while j < ws.len()
            invariant
                j <= ws@.len(),
                forall|q: int| 0 <= q < j ==> (#[trigger] ws@[q]).id != id,
            decreases ws@.len() - j,
        {
            if ws[j].id == id {
                assert(is_registered(ws@, id));
                let mut next = config.clone();
                next.last_workspace_id = Some(id);
                return Ok(next);
            }
            j = j + 1;
        }
        let text = id.text();
        Err(WorkspaceError::InvalidGlobalConfig(quoted_text("workspace ", text.as_str(), " is not registered")))
    }
}

} // verus!
