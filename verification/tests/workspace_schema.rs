use kodeck::domain::{
    AnnotationTagMapping, ColumnConfig, ColumnId, ProviderConfig, ProviderId, RepositoryConfig,
    RepositoryId, StatusMapping, WorkspaceConfig, WorkspaceId, WORKSPACE_SCHEMA_VERSION,
};
use uuid::Uuid;

const WORKSPACE_ID: &str = "f94d2d12-5acf-4370-bb04-41ec860bb205";

fn workspace_id() -> WorkspaceId {
    WorkspaceId::from_u128(Uuid::parse_str(WORKSPACE_ID).unwrap().as_u128())
}

fn valid_workspace() -> WorkspaceConfig {
    WorkspaceConfig {
        schema_version: WORKSPACE_SCHEMA_VERSION,
        id: workspace_id(),
        name: "Oryx Migration".to_owned(),
        repositories: vec![RepositoryConfig {
            id: RepositoryId::new("migration"),
            path: "./migration".to_owned(),
        }],
        columns: ColumnConfig::defaults(),
        providers: vec![ProviderConfig::Gitlab {
            id: ProviderId::new("main-gitlab"),
            instance_url: "https://gitlab.example.com".to_owned(),
            projects: vec!["data/oryx-migration".to_owned()],
        }],
        status_mappings: vec![StatusMapping {
            provider_id: ProviderId::new("main-gitlab"),
            provider_status: "workflow::todo".to_owned(),
            column_id: ColumnId::new("todo"),
        }],
        annotation_tags: AnnotationTagMapping::defaults(),
    }
}

fn issue_paths(workspace: &WorkspaceConfig) -> Vec<String> {
    let errors = workspace.validate().err().unwrap();
    errors.issues().iter().map(|issue| issue.path.clone()).collect()
}

fn issue_messages(workspace: &WorkspaceConfig) -> Vec<String> {
    let errors = workspace.validate().err().unwrap();
    errors.issues().iter().map(|issue| issue.message.clone()).collect()
}

#[test]
fn generates_non_nil_unique_workspace_ids() {
    let first = WorkspaceId::generate();
    let second = WorkspaceId::generate();

    assert!(!first.is_nil());
    assert!(!second.is_nil());
    assert_ne!(first, second);
}

#[test]
fn constructor_uses_schema_version_and_default_columns() {
    let workspace = WorkspaceConfig::new(workspace_id(), "Oryx Migration".to_owned());

    let columns: Vec<_> = workspace
        .columns
        .iter()
        .map(|column| (column.id.as_str(), column.name.as_str()))
        .collect();

    assert_eq!(workspace.schema_version, 1);
    assert_eq!(
        columns,
        vec![
            ("inbox", "Inbox"),
            ("todo", "To do"),
            ("in-progress", "In progress"),
            ("review", "Review"),
            ("done", "Done"),
        ]
    );
}

#[test]
fn reports_all_top_level_validation_errors() {
    let mut workspace = valid_workspace();
    workspace.schema_version = 2;
    workspace.id = WorkspaceId::from_u128(0);
    workspace.name = " ".to_owned();
    workspace.columns.clear();

    let paths = issue_paths(&workspace);

    assert!(paths.iter().any(|p| p == "schema_version"));
    assert!(paths.iter().any(|p| p == "id"));
    assert!(paths.iter().any(|p| p == "name"));
    assert!(paths.iter().any(|p| p == "columns"));
}

#[test]
fn validates_repository_ids_and_lexical_paths_without_accessing_disk() {
    let mut workspace = valid_workspace();
    workspace.repositories = vec![
        RepositoryConfig {
            id: RepositoryId::new("migration"),
            path: "./migration".to_owned(),
        },
        RepositoryConfig {
            id: RepositoryId::new("migration"),
            path: "migration".to_owned(),
        },
        RepositoryConfig {
            id: RepositoryId::new("outside"),
            path: "../outside".to_owned(),
        },
        RepositoryConfig {
            id: RepositoryId::new("absolute"),
            path: "/tmp/project".to_owned(),
        },
    ];

    let messages = issue_messages(&workspace);

    assert!(messages.iter().any(|m| m.contains("duplicate repository id")));
    assert!(messages.iter().any(|m| m.contains("duplicate repository path")));
    assert!(messages.iter().any(|m| m.contains("must not escape")));
    assert!(messages.iter().any(|m| m.contains("must be relative")));
}

#[test]
fn validates_provider_configuration_and_status_mapping_references() {
    let mut workspace = valid_workspace();
    workspace.providers = vec![ProviderConfig::Gitlab {
        id: ProviderId::new("main-gitlab"),
        instance_url: "https://token@gitlab.example.com?secret=value".to_owned(),
        projects: vec!["data/oryx".to_owned(), "data/oryx".to_owned()],
    }];
    workspace.status_mappings = vec![StatusMapping {
        provider_id: ProviderId::new("unknown-provider"),
        provider_status: "workflow::todo".to_owned(),
        column_id: ColumnId::new("unknown-column"),
    }];

    let paths = issue_paths(&workspace);

    assert!(paths.iter().any(|p| p == "providers[0].instance_url"));
    assert!(paths.iter().any(|p| p == "providers[0].projects[1]"));
    assert!(paths.iter().any(|p| p == "status_mappings[0].provider_id"));
    assert!(paths.iter().any(|p| p == "status_mappings[0].column_id"));
}

#[test]
fn rejects_invalid_ids_and_duplicate_shared_configuration() {
    let mut workspace = valid_workspace();
    workspace.repositories[0].id = RepositoryId::new("invalid id");
    workspace.columns.push(ColumnConfig {
        id: ColumnId::new("todo"),
        name: "Duplicate todo".to_owned(),
    });
    workspace.providers.push(ProviderConfig::Gitlab {
        id: ProviderId::new("main-gitlab"),
        instance_url: "https://gitlab.example.com".to_owned(),
        projects: Vec::new(),
    });
    workspace.status_mappings.push(StatusMapping {
        provider_id: ProviderId::new("main-gitlab"),
        provider_status: "workflow::todo".to_owned(),
        column_id: ColumnId::new("inbox"),
    });

    let messages = issue_messages(&workspace);

    assert!(messages.iter().any(|m| m.contains("repository id must start")));
    assert!(messages.iter().any(|m| m.contains("duplicate column id")));
    assert!(messages.iter().any(|m| m.contains("duplicate provider id")));
    assert!(messages.iter().any(|m| m.contains("mapped more than once")));
}

#[test]
fn permits_a_temporarily_missing_repository() {
    let workspace = valid_workspace();

    assert!(workspace.validate().is_ok());
}

#[test]
fn the_validation_report_counts_the_issues() {
    let mut workspace = valid_workspace();
    workspace.name = String::new();
    let errors = workspace.validate().err().unwrap();
    assert_eq!(errors.issues().len(), 1);
    assert!(errors.message().starts_with("workspace configuration has 1 validation error(s)"));
}

#[test]
fn repository_paths_are_normalized() {
    assert_eq!(
        kodeck::domain::repository_path::normalize_repository_path("./a//b/./c").ok(),
        Some("a/b/c".to_owned())
    );
    assert!(kodeck::domain::repository_path::normalize_repository_path("../x").is_err());
}

#[test]
fn normalized_repository_paths_normalize_to_themselves() {
    for (input, expected) in [("a/./b/../c/", "a/c"), ("./migration", "migration"), ("./", "."), ("x//y", "x/y")] {
        let normal = kodeck::domain::repository_path::normalize_repository_path(input).unwrap();
        assert_eq!(normal, expected);
        assert_eq!(kodeck::domain::repository_path::normalize_repository_path(&normal).unwrap(), normal);
    }
}
