//! The application's directories and the files of a workspace.

use vstd::prelude::*;

use crate::domain::ids::{uuid_text, WorkspaceId};
use crate::text::{owned, push_str};

use super::path_text::{is_absolute, join, join_path, path_is_absolute};

verus! {

/// Why the application directories cannot be resolved.
#[derive(Debug, PartialEq, Eq)]
pub enum AppPathsError {
    MissingHomeDirectory,
    RelativeBaseDirectory { variable: String, path: String },
}

/// The meaning of an `AppPathsError`.
pub enum PathsProblem {
    MissingHome,
    Relative { variable: Seq<char>, path: Seq<char> },
}

pub open spec fn paths_problem(e: AppPathsError) -> PathsProblem {
    match e {
        AppPathsError::MissingHomeDirectory => PathsProblem::MissingHome,
        AppPathsError::RelativeBaseDirectory { variable, path } => PathsProblem::Relative {
            variable: variable@,
            path: path@,
        },
    }
}

pub open spec fn opt_view(o: Option<String>) -> Option<Seq<char>> {
    match o {
        Some(s) => Some(s@),
        None => None,
    }
}

/// A base directory: the override when set (it must be absolute), else `fallback` under the
/// home directory (which must be set and absolute).
pub open spec fn base_directory(
    variable: Seq<char>,
    override_value: Option<Seq<char>>,
    home: Option<Seq<char>>,
    fallback: Seq<char>,
) -> Result<Seq<char>, PathsProblem> {
    match override_value {
        Some(p) => if is_absolute(p) {
            Ok(p)
        } else {
            Err(PathsProblem::Relative { variable, path: p })
        },
        None => match home {
            None => Err(PathsProblem::MissingHome),
            Some(h) => if is_absolute(h) {
                Ok(join(h, fallback))
            } else {
                Err(PathsProblem::Relative { variable: "HOME"@, path: h })
            },
        },
    }
}

/// The configuration and data directories: `kodeck` under the XDG bases.
pub open spec fn resolved_directories(
    home: Option<Seq<char>>,
    config_home: Option<Seq<char>>,
    data_home: Option<Seq<char>>,
) -> Result<(Seq<char>, Seq<char>), PathsProblem> {
    match base_directory("XDG_CONFIG_HOME"@, config_home, home, ".config"@) {
        Err(e) => Err(e),
        Ok(config) => match base_directory("XDG_DATA_HOME"@, data_home, home, ".local/share"@) {
            Err(e) => Err(e),
            Ok(data) => Ok((join(config, "kodeck"@), join(data, "kodeck"@))),
        },
    }
}

/// Requires an absolute path for the named variable.
pub fn require_absolute(variable: &str, path: String) -> (r: Result<String, AppPathsError>)
    ensures
        is_absolute(path@) ==> (r matches Ok(p) && p@ == path@),
        !is_absolute(path@) ==> (r matches Err(e) && paths_problem(e) == (PathsProblem::Relative {
            variable: variable@,
            path: path@,
        })),
{
    if path_is_absolute(path.as_str()) {
        Ok(path)
    } else {
        Err(AppPathsError::RelativeBaseDirectory { variable: owned(variable), path })
    }
}

fn resolve_base_directory(
    variable: &str,
    override_value: Option<String>,
    home: &Option<String>,
    fallback: &str,
) -> (r: Result<String, AppPathsError>)
    ensures
        match r {
            Ok(p) => base_directory(variable@, opt_view(override_value), opt_view(*home), fallback@)
                == Ok::<Seq<char>, PathsProblem>(p@),
            Err(e) => base_directory(
                variable@,
                opt_view(override_value),
                opt_view(*home),
                fallback@,
            ) == Err::<Seq<char>, PathsProblem>(paths_problem(e)),
        },
{
    if let Some(path) = override_value {
        return require_absolute(variable, path);
    }
    match home {
        None => Err(AppPathsError::MissingHomeDirectory),
        Some(h) => {
            let h = require_absolute("HOME", h.clone())?;
            Ok(join_path(h.as_str(), fallback))
        },
    }
}

/// The configuration and data directories of the application.
#[derive(Debug, PartialEq, Eq)]
pub struct AppPaths {
    config_directory: String,
    data_directory: String,
}

impl Clone for AppPaths {
    fn clone(&self) -> (r: Self)
        ensures
            r == *self,
    {
        AppPaths {
            config_directory: self.config_directory.clone(),
            data_directory: self.data_directory.clone(),
        }
    }
}

/// The shared configuration file of a workspace root: `.kodeck/workspace.json`.
pub open spec fn shared_workspace_path(root: Seq<char>) -> Seq<char> {
    join(join(root, ".kodeck"@), "workspace.json"@)
}

impl AppPaths {
    pub closed spec fn spec_config_directory(&self) -> Seq<char> {
        self.config_directory@
    }

    pub closed spec fn spec_data_directory(&self) -> Seq<char> {
        self.data_directory@
    }

    pub open spec fn spec_workspaces_directory(&self) -> Seq<char> {
        join(self.spec_data_directory(), "workspaces"@)
    }

    /// Resolves the directories from the home directory and the XDG overrides, each given
    /// only when set and non-empty.
    pub fn resolve(home: Option<String>, config_home: Option<String>, data_home: Option<String>) -> (r:
        Result<Self, AppPathsError>)
        ensures
            match r {
                Ok(p) => resolved_directories(
                    opt_view(home),
                    opt_view(config_home),
                    opt_view(data_home),
                ) == Ok::<(Seq<char>, Seq<char>), PathsProblem>(
                    (p.spec_config_directory(), p.spec_data_directory()),
                ),
                Err(e) => resolved_directories(
                    opt_view(home),
                    opt_view(config_home),
                    opt_view(data_home),
                ) == Err::<(Seq<char>, Seq<char>), PathsProblem>(paths_problem(e)),
            },
    {
        let config_base = resolve_base_directory("XDG_CONFIG_HOME", config_home, &home, ".config")?;
        let data_base = resolve_base_directory("XDG_DATA_HOME", data_home, &home, ".local/share")?;
        Ok(
            Self::new(
                join_path(config_base.as_str(), "kodeck"),
                join_path(data_base.as_str(), "kodeck"),
            ),
        )
    }

    pub fn new(config_directory: String, data_directory: String) -> (p: Self)
        ensures
            p.spec_config_directory() == config_directory@,
            p.spec_data_directory() == data_directory@,
    {
        AppPaths { config_directory, data_directory }
    }

    pub fn config_directory(&self) -> (p: &str)
        ensures
            p@ == self.spec_config_directory(),
    {
        self.config_directory.as_str()
    }

    pub fn data_directory(&self) -> (p: &str)
        ensures
            p@ == self.spec_data_directory(),
    {
        self.data_directory.as_str()
    }

    /// `config.json` in the configuration directory.
    pub fn global_config_file(&self) -> (p: String)
        ensures
            p@ == join(self.spec_config_directory(), "config.json"@),
    {
        join_path(self.config_directory.as_str(), "config.json")
    }

    /// The shared configuration file under a workspace root.
    pub fn shared_workspace_file(root: &str) -> (p: String)
        ensures
            p@ == shared_workspace_path(root@),
    {
        let shared = join_path(root, ".kodeck");
        join_path(shared.as_str(), "workspace.json")
    }

    /// `workspaces` in the data directory.
    pub fn workspaces_directory(&self) -> (p: String)
        ensures
            p@ == self.spec_workspaces_directory(),
    {
        join_path(self.data_directory.as_str(), "workspaces")
    }

    /// The paths of a workspace: its root, and a private directory named by its id.
    pub fn workspace(&self, root: String, id: WorkspaceId) -> (w: WorkspacePaths)
        ensures
            w.spec_root() == root@,
            w.spec_private_directory() == join(self.spec_workspaces_directory(), uuid_text(id.0)),
    {
        let workspaces = self.workspaces_directory();
        let name = id.text();
        WorkspacePaths::new(root, join_path(workspaces.as_str(), name.as_str()))
    }
}

/// Where a workspace keeps its shared and private files.
#[derive(Debug, PartialEq, Eq)]
pub struct WorkspacePaths {
    root: String,
    private_directory: String,
}

impl Clone for WorkspacePaths {
    fn clone(&self) -> (r: Self)
        ensures
            r == *self,
    {
        WorkspacePaths { root: self.root.clone(), private_directory: self.private_directory.clone() }
    }
}

impl WorkspacePaths {
    pub closed spec fn spec_root(&self) -> Seq<char> {
        self.root@
    }

    pub closed spec fn spec_private_directory(&self) -> Seq<char> {
        self.private_directory@
    }

    pub fn new(root: String, private_directory: String) -> (w: Self)
        ensures
            w.spec_root() == root@,
            w.spec_private_directory() == private_directory@,
    {
        WorkspacePaths { root, private_directory }
    }

    pub fn root(&self) -> (p: &str)
        ensures
            p@ == self.spec_root(),
    {
        self.root.as_str()
    }

    pub fn shared_directory(&self) -> (p: String)
        ensures
            p@ == join(self.spec_root(), ".kodeck"@),
    {
        join_path(self.root.as_str(), ".kodeck")
    }

    pub fn shared_config_file(&self) -> (p: String)
        ensures
            p@ == shared_workspace_path(self.spec_root()),
    {
        AppPaths::shared_workspace_file(self.root.as_str())
    }

    pub fn private_directory(&self) -> (p: &str)
        ensures
            p@ == self.spec_private_directory(),
    {
        self.private_directory.as_str()
    }

    pub fn cards_file(&self) -> (p: String)
        ensures
            p@ == join(self.spec_private_directory(), "cards.json"@),
    {
        join_path(self.private_directory.as_str(), "cards.json")
    }

    pub fn state_file(&self) -> (p: String)
        ensures
            p@ == join(self.spec_private_directory(), "state.json"@),
    {
        join_path(self.private_directory.as_str(), "state.json")
    }

    pub fn cache_file(&self) -> (p: String)
        ensures
            p@ == join(self.spec_private_directory(), "cache.json"@),
    {
        join_path(self.private_directory.as_str(), "cache.json")
    }

    pub fn sync_queue_file(&self) -> (p: String)
        ensures
            p@ == join(self.spec_private_directory(), "sync-queue.json"@),
    {
        join_path(self.private_directory.as_str(), "sync-queue.json")
    }
}

/// The text of a paths error.
pub open spec fn paths_problem_text(p: PathsProblem) -> Seq<char> {
    match p {
        PathsProblem::MissingHome => "HOME or USERPROFILE must be set to an absolute path"@,
        PathsProblem::Relative { variable, path } => variable + " must be an absolute path, got '"@
            + path + "'"@,
    }
}

impl AppPathsError {
    pub fn message(&self) -> (s: String)
        ensures
            s@ == paths_problem_text(paths_problem(*self)),
    {
        match self {
            AppPathsError::MissingHomeDirectory => owned(
                "HOME or USERPROFILE must be set to an absolute path",
            ),
            AppPathsError::RelativeBaseDirectory { variable, path } => {
                let mut s = variable.clone();
                push_str(&mut s, " must be an absolute path, got '");
                push_str(&mut s, path.as_str());
                push_str(&mut s, "'");
                s
            },
        }
    }
}

} // verus!
