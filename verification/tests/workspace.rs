use kodeck::domain::{
    GlobalConfig, KnownWorkspace, RepositoryConfig, RepositoryId, WorkspaceConfig, WorkspaceId,
};
use kodeck::workspace::discovery::{
    check_identity, discovery_choice, other_registration, repository_warnings, DiscoveryChoice,
};
use kodeck::workspace::naming::{slugify, unique_name};
use kodeck::workspace::registry::WorkspaceRegistry;
use kodeck::workspace::repositories::{
    detect_repositories, inspect_repositories, resolve_repository_path, DetectedRepository,
    RepositoryAvailability,
};
use kodeck::workspace::WorkspaceError;

fn known(id: WorkspaceId, path: &str) -> KnownWorkspace {
    KnownWorkspace { id, path: path.to_owned() }
}

#[test]
fn detected_repositories_get_relative_paths_and_unique_ids() {
    let found = vec![
        DetectedRepository { relative_path: String::new(), name: Some("Oryx".to_owned()) },
        DetectedRepository { relative_path: "libs\\oryx".to_owned(), name: Some("oryx".to_owned()) },
        DetectedRepository { relative_path: "x".to_owned(), name: None },
    ];
    let configs = detect_repositories(&found);
    let ids: Vec<_> = configs.iter().map(|c| c.id.as_str().to_owned()).collect();
    let paths: Vec<_> = configs.iter().map(|c| c.path.clone()).collect();
    assert_eq!(ids, vec!["oryx", "oryx-2", "repository"]);
    assert_eq!(paths, vec![".", "./libs/oryx", "./x"]);
}

#[test]
fn repository_paths_resolve_against_the_root_and_missing_ones_warn() {
    assert_eq!(resolve_repository_path("/work", "./api"), "/work/api");
    assert_eq!(resolve_repository_path("/work", "."), "/work/.");
    let mut workspace = WorkspaceConfig::new(WorkspaceId::generate(), "W".to_owned());
    workspace.repositories = vec![
        RepositoryConfig { id: RepositoryId::new("api"), path: "./api".to_owned() },
        RepositoryConfig { id: RepositoryId::new("web"), path: "./web".to_owned() },
    ];
    let availability = inspect_repositories("/work", &workspace, &vec![true, false]);
    assert!(matches!(availability[0], RepositoryAvailability::Available { .. }));
    let warnings = repository_warnings(&availability);
    assert_eq!(warnings, vec!["repository 'web' is unavailable at '/work/web'".to_owned()]);
}

#[test]
fn discovery_prefers_the_last_workspace_then_the_only_one() {
    let a = WorkspaceId::generate();
    let b = WorkspaceId::generate();
    let mut config = GlobalConfig::default();
    config.known_workspaces = vec![known(a, "/a"), known(b, "/b")];
    config.last_workspace_id = Some(b);
    assert_eq!(discovery_choice(&config, &vec![true, true]), DiscoveryChoice::Open(1));
    assert_eq!(discovery_choice(&config, &vec![true, false]), DiscoveryChoice::Open(0));
    config.last_workspace_id = None;
    assert_eq!(discovery_choice(&config, &vec![true, true]), DiscoveryChoice::Select(vec![0, 1]));
    assert_eq!(discovery_choice(&config, &vec![false, false]), DiscoveryChoice::NotFound);
}

#[test]
fn a_live_copy_with_the_same_identity_is_refused() {
    let id = WorkspaceId::generate();
    let registered = vec![known(id, "/old/place")];
    assert_eq!(other_registration(&registered, id, "/old/place/"), None);
    assert_eq!(other_registration(&registered, id, "/new/place"), Some(0));
    let error = check_identity(id, "/old/place", id, "/new/place").err().unwrap();
    assert!(matches!(error, WorkspaceError::IdentityConflict { .. }));
    assert!(check_identity(id, "/old/place", WorkspaceId::generate(), "/new/place").is_ok());
}

#[test]
fn registering_records_the_root_and_makes_it_the_last_workspace() {
    let id = WorkspaceId::generate();
    let config = GlobalConfig::default();
    let next = WorkspaceRegistry::register_in(&config, id, "/projects/oryx").ok().unwrap();
    assert_eq!(next.last_workspace_id, Some(id));
    assert_eq!(next.known_workspaces.len(), 1);
    assert_eq!(next.known_workspaces[0].path, "/projects/oryx");
    let moved = WorkspaceRegistry::register_in(&next, id, "/moved/oryx").ok().unwrap();
    assert_eq!(moved.known_workspaces.len(), 1);
    assert_eq!(moved.known_workspaces[0].path, "/moved/oryx");
    let other = WorkspaceId::generate();
    assert!(WorkspaceRegistry::register_in(&moved, other, "/moved/oryx").is_err());
}

#[test]
fn names_become_slugs_and_taken_names_get_a_number() {
    assert_eq!(slugify("  My Great -- Project!! ", "repository"), "my-great-project");
    assert_eq!(slugify("***", "repository"), "repository");
    let used = vec!["api".to_owned(), "api-2".to_owned()];
    assert_eq!(unique_name(&"api".to_owned(), &used), "api-3");
    assert_eq!(unique_name(&"web".to_owned(), &used), "web");
}

#[test]
fn registering_twice_at_the_same_root_changes_nothing() {
    let config = GlobalConfig::default();
    let id = WorkspaceId::generate();
    let once = WorkspaceRegistry::register_in(&config, id, "/projects/oryx").ok().unwrap();
    let twice = WorkspaceRegistry::register_in(&once, id, "/projects/oryx").ok().unwrap();
    assert_eq!(once.known_workspaces, twice.known_workspaces);
    assert_eq!(twice.known_workspaces.len(), 1);
    assert_eq!(twice.last_workspace_id, Some(id));
}
