//! The user's global configuration: the known workspaces and the last one opened.

use vstd::prelude::*;

use super::ids::WorkspaceId;

verus! {

pub const GLOBAL_CONFIG_SCHEMA_VERSION: u32 = 1;

/// A workspace the user opened before, and where its root was.
#[derive(Debug, PartialEq, Eq)]
pub struct KnownWorkspace {
    pub id: WorkspaceId,
    pub path: String,
}

impl Clone for KnownWorkspace {
    fn clone(&self) -> (r: Self)
        ensures
            r == *self,
    {
        KnownWorkspace { id: self.id, path: self.path.clone() }
    }
}

#[derive(Debug, PartialEq, Eq)]
pub struct GlobalConfig {
    pub schema_version: u32,
    pub default_editor: Option<String>,
    pub last_workspace_id: Option<WorkspaceId>,
    pub known_workspaces: Vec<KnownWorkspace>,
}

impl Default for GlobalConfig {
    fn default() -> (c: Self)
        ensures
            c.schema_version == GLOBAL_CONFIG_SCHEMA_VERSION,
            c.default_editor is None,
            c.last_workspace_id is None,
            c.known_workspaces@.len() == 0,
    {
        GlobalConfig {
            schema_version: GLOBAL_CONFIG_SCHEMA_VERSION,
            default_editor: None,
            last_workspace_id: None,
            known_workspaces: Vec::new(),
        }
    }
}

impl Clone for GlobalConfig {
    fn clone(&self) -> (r: Self)
        ensures
            r.schema_version == self.schema_version,
            r.default_editor == self.default_editor,
            r.last_workspace_id == self.last_workspace_id,
            r.known_workspaces@ == self.known_workspaces@,
    {
        let known = self.known_workspaces.clone();
        assert(known@ =~= self.known_workspaces@);
        GlobalConfig {
            schema_version: self.schema_version,
            default_editor: match &self.default_editor {
                Some(e) => Some(e.clone()),
                None => None,
            },
            last_workspace_id: self.last_workspace_id,
            known_workspaces: known,
        }
    }
}

} // verus!
