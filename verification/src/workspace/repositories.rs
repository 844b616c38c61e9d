//! The repositories of a workspace: where they are, and how detected ones are named.

use vstd::prelude::*;

use crate::domain::ids::RepositoryId;
use crate::domain::workspace::{RepositoryConfig, WorkspaceConfig};
use crate::storage::path_text::{join, join_path};
use crate::text::{owned, push_char, push_str, starts_with};

use super::naming::{candidate, first_free, slug, slugify, string_views, unique_name};

verus! {

/// Whether a configured repository is a directory on this machine.
#[derive(Debug, Clone, PartialEq, Eq)]
pub enum RepositoryAvailability {
    Available { id: RepositoryId, path: String },
    Missing { id: RepositoryId, path: String },
}

/// A configured path without a leading `./`.
pub open spec fn without_dot_prefix(configured: Seq<char>) -> Seq<char> {
    if configured.len() >= 2 && configured[0] == '.' && configured[1] == '/' {
        configured.subrange(2, configured.len() as int)
    } else {
        configured
    }
}

/// Where a configured repository path points, relative to the workspace root.
pub fn resolve_repository_path(root: &str, configured_path: &str) -> (p: String)
    ensures
        p@ == join(root@, without_dot_prefix(configured_path@)),
{
    if starts_with(configured_path, "./") {
        proof {
            reveal_strlit("./");
        }
        proof {
            assert(configured_path@[0] == configured_path@.subrange(0, 2)[0]);
            assert(configured_path@[1] == configured_path@.subrange(0, 2)[1]);
        }
        let relative = configured_path.substring_char(2, configured_path.unicode_len());
        join_path(root, relative)
    } else {
        proof {
            reveal_strlit("./");
            if configured_path@.len() >= 2 && configured_path@[0] == '.' && configured_path@[1]
                == '/' {
                assert(configured_path@.subrange(0, 2) =~= "./"@);
            }
        }
        join_path(root, configured_path)
    }
}

/// Where each configured repository of a workspace is, in configuration order.
pub fn repository_paths(root: &str, workspace: &WorkspaceConfig) -> (paths: Vec<String>)
    ensures
        paths@.len() == workspace.repositories@.len(),
        forall|i: int|
            0 <= i < paths@.len() ==> #[trigger] paths@[i]@ == join(
                root@,
                without_dot_prefix(workspace.repositories@[i].path@),
            ),
{
    let mut paths: Vec<String> = Vec::new();
    let mut i: usize = 0;
    while i < workspace.repositories.len()
        invariant
            i <= workspace.repositories@.len(),
            paths@.len() == i,
            forall|k: int|
                0 <= k < i ==> #[trigger] paths@[k]@ == join(
                    root@,
                    without_dot_prefix(workspace.repositories@[k].path@),
                ),
        decreases workspace.repositories@.len() - i,
    {
        paths.push(resolve_repository_path(root, workspace.repositories[i].path.as_str()));
        i = i + 1;
    }
    paths
}

/// The availability of each configured repository, given whether its path is a directory.
pub fn inspect_repositories(root: &str, workspace: &WorkspaceConfig, is_directory: &Vec<bool>) -> (r:
    Vec<RepositoryAvailability>)
    requires
        is_directory@.len() == workspace.repositories@.len(),
    ensures
        r@.len() == workspace.repositories@.len(),
        forall|i: int|
            0 <= i < r@.len() ==> match #[trigger] r@[i] {
                RepositoryAvailability::Available { id, path } => is_directory@[i] && id
                    == workspace.repositories@[i].id && path@ == join(
                    root@,
                    without_dot_prefix(workspace.repositories@[i].path@),
                ),
                RepositoryAvailability::Missing { id, path } => !is_directory@[i] && id
                    == workspace.repositories@[i].id && path@ == join(
                    root@,
                    without_dot_prefix(workspace.repositories@[i].path@),
                ),
            },
{
    let paths = repository_paths(root, workspace);
    let mut r: Vec<RepositoryAvailability> = Vec::new();
    let mut i: usize = 0;
    while i < workspace.repositories.len()
        invariant
            i <= workspace.repositories@.len(),
            paths@.len() == workspace.repositories@.len(),
            is_directory@.len() == workspace.repositories@.len(),
            forall|k: int|
                0 <= k < paths@.len() ==> #[trigger] paths@[k]@ == join(
                    root@,
                    without_dot_prefix(workspace.repositories@[k].path@),
                ),
            r@.len() == i,
            forall|k: int|
                0 <= k < i ==> match #[trigger] r@[k] {
                    RepositoryAvailability::Available { id, path } => is_directory@[k] && id
                        == workspace.repositories@[k].id && path@ == join(
                        root@,
                        without_dot_prefix(workspace.repositories@[k].path@),
                    ),
                    RepositoryAvailability::Missing { id, path } => !is_directory@[k] && id
                        == workspace.repositories@[k].id && path@ == join(
                        root@,
                        without_dot_prefix(workspace.repositories@[k].path@),
                    ),
                },
        decreases workspace.repositories@.len() - i,
    {
        let id = workspace.repositories[i].id.clone();
        let path = paths[i].clone();
        if is_directory[i] {
            r.push(RepositoryAvailability::Available { id, path });
        } else {
            r.push(RepositoryAvailability::Missing { id, path });
        }
        i = i + 1;
    }
    r
}

/// A repository found under a workspace root: its path relative to the root (empty for the
/// root itself) and the name of its directory, if it has one that is text.
#[derive(Debug, Clone, PartialEq, Eq)]
pub struct DetectedRepository {
    pub relative_path: String,
    pub name: Option<String>,
}

/// The configured path of a detected repository: `.` for the root, else `./` and the
/// relative path with `\` turned into `/`.
pub open spec fn configured_path(relative: Seq<char>) -> Seq<char> {
    if relative.len() == 0 {
        seq!['.']
    } else {
        seq!['.', '/'] + relative.map_values(
            |c: char|
                if c == '\\' {
                    '/'
                } else {
                    c
                },
        )
    }
}

/// The configured path of a detected repository.
pub fn repository_path_text(relative: &str) -> (p: String)
    ensures
        p@ == configured_path(relative@),
{
    let n = relative.unicode_len();
    let mut p = String::new();
    if n == 0 {
        push_char(&mut p, '.');
        return p;
    }
    push_char(&mut p, '.');
    push_char(&mut p, '/');
    let mut i: usize = 0;
    while i < n
        invariant
            n == relative@.len(),
            i <= n,
            p@ == seq!['.', '/'] + relative@.subrange(0, i as int).map_values(
                |c: char|
                    if c == '\\' {
                        '/'
                    } else {
                        c
                    },
            ),
        decreases n - i,
    {
        let c = relative.get_char(i);
        if c == '\\' {
            push_char(&mut p, '/');
        } else {
            push_char(&mut p, c);
        }
        i = i + 1;
        assert(p@ =~= seq!['.', '/'] + relative@.subrange(0, i as int).map_values(
            |c: char|
                if c == '\\' {
                    '/'
                } else {
                    c
                },
        ));
    }
    assert(relative@.subrange(0, n as int) =~= relative@);
    p
}

/// The name from which a detected repository's id is made.
pub open spec fn base_name(r: DetectedRepository) -> Seq<char> {
    match r.name {
        Some(n) => n@,
        None => "repository"@,
    }
}

/// Whether id `i` is the slug of repository `i`'s name (`repository` when empty), or the
/// first of `slug-2`, `slug-3`, ... that the ids before it do not use.
pub open spec fn id_given(found: Seq<DetectedRepository>, ids: Seq<Seq<char>>, i: int) -> bool {
    exists|k: int|
        first_free(slug(base_name(found[i]), "repository"@), ids.subrange(0, i), k) && ids[i]
            == candidate(slug(base_name(found[i]), "repository"@), k)
}

/// Whether `ids` are the ids given, in order, to the detected repositories.
pub open spec fn detected_ids(found: Seq<DetectedRepository>, ids: Seq<Seq<char>>) -> bool {
    &&& ids.len() == found.len()
    &&& forall|i: int| 0 <= i < found.len() ==> #[trigger] id_given(found, ids, i)
}

/// The configuration of the repositories found under a workspace root, in the order found.
pub fn detect_repositories(found: &Vec<DetectedRepository>) -> (configs: Vec<RepositoryConfig>)
    ensures
        configs@.len() == found@.len(),
        forall|i: int|
            0 <= i < found@.len() ==> #[trigger] configs@[i].path@ == configured_path(
                found@[i].relative_path@,
            ),
        detected_ids(found@, configs@.map_values(|c: RepositoryConfig| c.id@)),
{
    let mut configs: Vec<RepositoryConfig> = Vec::new();
    let mut used: Vec<String> = Vec::new();
    let mut i: usize = 0;
    while i < found.len()
        invariant
            i <= found@.len(),
            configs@.len() == i,
            used@.len() == i,
            forall|k: int| 0 <= k < i ==> #[trigger] configs@[k].id@ == used@[k]@,
            forall|k: int|
                0 <= k < i ==> #[trigger] configs@[k].path@ == configured_path(
                    found@[k].relative_path@,
                ),
            forall|k: int| 0 <= k < i ==> #[trigger] id_given(found@, string_views(used@), k),
        decreases found@.len() - i,
    {
        let name = match &found[i].name {
            Some(n) => n.as_str(),
            None => "repository",
        };
        proof {
            reveal_strlit("repository");
        }
        let base = slugify(name, "repository");
        let ghost before = used@;
        let id = unique_name(&base, &used);
        let ghost w = choose|j: int| first_free(base@, string_views(before), j) && id@ == candidate(
            base@,
            j,
        );
        proof {
            assert(base@ == slug(base_name(found@[i as int]), "repository"@));
            assert(string_views(before).subrange(0, i as int) =~= string_views(before));
        }
        used.push(id.clone());
        let path = repository_path_text(found[i].relative_path.as_str());
        configs.push(RepositoryConfig { id: RepositoryId(id), path });
        proof {
            assert forall|k: int| 0 <= k < i + 1 implies #[trigger] id_given(found@, string_views(used@), k) by {
                if k < i {
                    assert(used@[k] == before[k]);
                    assert(string_views(used@).subrange(0, k) =~= string_views(before).subrange(
                        0,
                        k,
                    ));
                    assert(id_given(found@, string_views(before), k));
                    let v = choose|j: int|
                        first_free(
                            slug(base_name(found@[k]), "repository"@),
                            string_views(before).subrange(0, k),
                            j,
                        ) && string_views(before)[k] == candidate(
                            slug(base_name(found@[k]), "repository"@),
                            j,
                        );
                    assert(first_free(
                        slug(base_name(found@[k]), "repository"@),
                        string_views(used@).subrange(0, k),
                        v,
                    ) && used@[k]@ == candidate(slug(base_name(found@[k]), "repository"@), v));
                } else {
                    assert(string_views(used@).subrange(0, k) =~= string_views(before));
                    assert(first_free(
                        slug(base_name(found@[k]), "repository"@),
                        string_views(used@).subrange(0, k),
                        w,
                    ) && used@[k]@ == candidate(slug(base_name(found@[k]), "repository"@), w));
                }
            }
        }
        i = i + 1;
    }
    proof {
        let ids = configs@.map_values(|c: RepositoryConfig| c.id@);
        assert forall|i: int| 0 <= i < found@.len() implies #[trigger] id_given(found@, ids, i) by {
            assert(ids.subrange(0, i) =~= string_views(used@).subrange(0, i));
            assert(ids[i] == used@[i]@);
            assert(id_given(found@, string_views(used@), i));
            let v = choose|j: int|
                first_free(
                    slug(base_name(found@[i]), "repository"@),
                    string_views(used@).subrange(0, i),
                    j,
                ) && string_views(used@)[i] == candidate(
                    slug(base_name(found@[i]), "repository"@),
                    j,
                );
            assert(first_free(slug(base_name(found@[i]), "repository"@), ids.subrange(0, i), v));
        }
    }
    configs
}

} // verus!
