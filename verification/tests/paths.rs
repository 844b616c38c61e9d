use kodeck::domain::WorkspaceId;
use kodeck::storage::{AppPaths, AppPathsError};

fn text(value: &str) -> Option<String> {
    Some(value.to_owned())
}

#[test]
fn resolves_xdg_defaults_from_home() {
    let paths = AppPaths::resolve(text("/home/marius"), None, None).unwrap();

    assert_eq!(paths.config_directory(), "/home/marius/.config/kodeck");
    assert_eq!(paths.data_directory(), "/home/marius/.local/share/kodeck");
}

#[test]
fn xdg_overrides_do_not_require_home() {
    let paths = AppPaths::resolve(None, text("/config"), text("/data")).unwrap();

    assert_eq!(paths.global_config_file(), "/config/kodeck/config.json");
    assert_eq!(paths.workspaces_directory(), "/data/kodeck/workspaces");
}

#[test]
fn rejects_relative_base_directories() {
    let error = AppPaths::resolve(text("/home/marius"), text("relative"), None).unwrap_err();

    assert!(matches!(
        error,
        AppPathsError::RelativeBaseDirectory { ref variable, .. } if variable == "XDG_CONFIG_HOME"
    ));
}

#[test]
fn requires_home_when_xdg_directories_are_not_set() {
    let error = AppPaths::resolve(None, None, None).unwrap_err();

    assert!(matches!(error, AppPathsError::MissingHomeDirectory));
}

#[test]
fn derives_all_workspace_paths_from_the_uuid() {
    let paths = AppPaths::new("/config/kodeck".to_owned(), "/data/kodeck".to_owned());
    let id = WorkspaceId::from_u128(
        uuid::Uuid::parse_str("f94d2d12-5acf-4370-bb04-41ec860bb205")
            .unwrap()
            .as_u128(),
    );
    let workspace = paths.workspace("/projects/oryx".to_owned(), id);

    assert_eq!(
        workspace.shared_config_file(),
        "/projects/oryx/.kodeck/workspace.json"
    );
    assert_eq!(
        workspace.cards_file(),
        "/data/kodeck/workspaces/f94d2d12-5acf-4370-bb04-41ec860bb205/cards.json"
    );
    assert_eq!(
        workspace.sync_queue_file(),
        "/data/kodeck/workspaces/f94d2d12-5acf-4370-bb04-41ec860bb205/sync-queue.json"
    );
}

#[test]
fn a_relative_data_home_is_named_in_the_error_message() {
    let error = AppPaths::resolve(text("/home/marius"), None, text("data")).unwrap_err();
    assert!(error.message().contains("XDG_DATA_HOME"));
}
