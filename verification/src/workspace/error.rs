//! Why a workspace operation failed.

use vstd::prelude::*;

use crate::domain::ids::uuid_text;
use crate::domain::private_state::{problem_of, problem_text};
use crate::domain::workspace::report_text;
use crate::domain::{PrivateStateError, WorkspaceId, WorkspaceValidationErrors};
use crate::storage::paths::{paths_problem, paths_problem_text};
use crate::storage::AppPathsError;
use crate::text::{owned, push_str};

verus! {

/// The failures that the workspace logic decides; storage and I/O failures are the
/// application's.
#[derive(Debug)]
pub enum WorkspaceError {
    Paths(AppPathsError),
    Validation(WorkspaceValidationErrors),
    PrivateState(PrivateStateError),
    InvalidGlobalConfig(String),
    InvalidRoot(String),
    IdentityConflict { id: WorkspaceId, registered_path: String, discovered_path: String },
}

/// The message of a workspace error.
pub open spec fn workspace_error_text(e: WorkspaceError) -> Seq<char> {
    match e {
        WorkspaceError::Paths(p) => paths_problem_text(paths_problem(p)),
        WorkspaceError::Validation(v) => report_text(v.spec_issues()),
        WorkspaceError::PrivateState(p) => problem_text(problem_of(p)),
        WorkspaceError::InvalidGlobalConfig(m) => "invalid global configuration: "@ + m@,
        WorkspaceError::InvalidRoot(path) => "workspace root '"@ + path@ + "' is not a directory"@,
        WorkspaceError::IdentityConflict { id, registered_path, discovered_path } =>
            "workspace id '"@ + uuid_text(id.0) + "' is already active at '"@ + registered_path@
            + "', not '"@ + discovered_path@ + "'"@,
    }
}

impl WorkspaceError {
    /// The message of the error.
    pub fn message(&self) -> (s: String)
        ensures
            s@ == workspace_error_text(*self),
    {
        match self {
            WorkspaceError::Paths(p) => p.message(),
            WorkspaceError::Validation(v) => v.message(),
            WorkspaceError::PrivateState(p) => p.message(),
            WorkspaceError::InvalidGlobalConfig(m) => {
                let mut s = owned("invalid global configuration: ");
                push_str(&mut s, m.as_str());
                s
            },
            WorkspaceError::InvalidRoot(path) => {
                let mut s = owned("workspace root '");
                push_str(&mut s, path.as_str());
                push_str(&mut s, "' is not a directory");
                s
            },
            WorkspaceError::IdentityConflict { id, registered_path, discovered_path } => {
                let mut s = owned("workspace id '");
                let text = id.text();
                push_str(&mut s, text.as_str());
                push_str(&mut s, "' is already active at '");
                push_str(&mut s, registered_path.as_str());
                push_str(&mut s, "', not '");
                push_str(&mut s, discovered_path.as_str());
                push_str(&mut s, "'");
                s
            },
        }
    }
}

} // verus!
