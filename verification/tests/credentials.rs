use std::collections::HashMap;

use kodeck::credentials::{
    provider_environment_variable, resolve_gitlab_token_with, CredentialEnvironment,
    CredentialError, CredentialSource, CredentialStore, CredentialStoreError,
    FALLBACK_ENVIRONMENT_VARIABLE,
};
use kodeck::domain::{ProviderId, WorkspaceId};

struct FakeStore(Result<Option<String>, CredentialStoreError>);

impl CredentialStore for FakeStore {
    fn get_password(
        &self,
        _service: &str,
        _account: &str,
    ) -> Result<Option<String>, CredentialStoreError> {
        self.0.clone()
    }
}

#[derive(Default)]
struct FakeEnvironment(HashMap<String, String>);

impl CredentialEnvironment for FakeEnvironment {
    fn value(&self, variable: &str) -> Option<String> {
        self.0.get(variable).cloned()
    }
}

fn workspace_id() -> WorkspaceId {
    WorkspaceId::from_u128(
        uuid::Uuid::parse_str("f94d2d12-5acf-4370-bb04-41ec860bb205")
            .unwrap()
            .as_u128(),
    )
}

#[test]
fn credential_store_has_priority_over_environment() {
    let environment = FakeEnvironment(HashMap::from([(
        FALLBACK_ENVIRONMENT_VARIABLE.to_owned(),
        "environment-secret".to_owned(),
    )]));

    let credential = resolve_gitlab_token_with(
        &FakeStore(Ok(Some("keyring-secret".to_owned()))),
        &environment,
        workspace_id(),
        &ProviderId::new("main-gitlab"),
    )
    .ok()
    .unwrap();

    assert_eq!(credential.source, CredentialSource::CredentialStore);
    assert_eq!(credential.secret.expose(), "keyring-secret");
}

#[test]
fn provider_environment_variable_precedes_the_fallback() {
    let environment = FakeEnvironment(HashMap::from([
        (
            "KODECK_GITLAB_TOKEN_MAIN_GITLAB".to_owned(),
            "provider-secret".to_owned(),
        ),
        (
            FALLBACK_ENVIRONMENT_VARIABLE.to_owned(),
            "fallback-secret".to_owned(),
        ),
    ]));

    let credential = resolve_gitlab_token_with(
        &FakeStore(Ok(None)),
        &environment,
        workspace_id(),
        &ProviderId::new("main-gitlab"),
    )
    .ok()
    .unwrap();

    assert_eq!(credential.source, CredentialSource::Environment);
    assert_eq!(credential.secret.expose(), "provider-secret");
}

#[test]
fn environment_is_used_when_the_credential_store_is_unavailable() {
    let environment = FakeEnvironment(HashMap::from([(
        FALLBACK_ENVIRONMENT_VARIABLE.to_owned(),
        "environment-secret".to_owned(),
    )]));

    let credential = resolve_gitlab_token_with(
        &FakeStore(Err(CredentialStoreError)),
        &environment,
        workspace_id(),
        &ProviderId::new("main-gitlab"),
    )
    .ok()
    .unwrap();

    assert_eq!(credential.source, CredentialSource::Environment);
}

#[test]
fn secret_is_redacted_from_debug_and_errors() {
    let secret = "never-print-this-token";
    let credential = resolve_gitlab_token_with(
        &FakeStore(Ok(Some(secret.to_owned()))),
        &FakeEnvironment::default(),
        workspace_id(),
        &ProviderId::new("main-gitlab"),
    )
    .ok()
    .unwrap();

    assert!(!credential.debug_text().contains(secret));
    assert!(!credential.secret.debug_text().contains(secret));
}

#[test]
fn missing_credentials_only_identify_the_provider() {
    let error = resolve_gitlab_token_with(
        &FakeStore(Ok(None)),
        &FakeEnvironment::default(),
        workspace_id(),
        &ProviderId::new("main-gitlab"),
    )
    .err()
    .unwrap();

    assert_eq!(
        error,
        CredentialError::Missing {
            provider_id: ProviderId::new("main-gitlab")
        }
    );
    assert_eq!(
        error.message(),
        "no credential found for provider 'main-gitlab'"
    );
}

#[test]
fn an_unavailable_store_without_environment_is_reported_as_such() {
    let error = resolve_gitlab_token_with(
        &FakeStore(Err(CredentialStoreError)),
        &FakeEnvironment::default(),
        workspace_id(),
        &ProviderId::new("main-gitlab"),
    )
    .err()
    .unwrap();
    assert_eq!(
        error.message(),
        "credential store is unavailable and no environment token exists for provider 'main-gitlab'"
    );
}

#[test]
fn empty_secrets_are_skipped() {
    let environment = FakeEnvironment(HashMap::from([
        ("KODECK_GITLAB_TOKEN_MAIN_GITLAB".to_owned(), String::new()),
        (FALLBACK_ENVIRONMENT_VARIABLE.to_owned(), "fallback".to_owned()),
    ]));
    let credential = resolve_gitlab_token_with(
        &FakeStore(Ok(Some(String::new()))),
        &environment,
        workspace_id(),
        &ProviderId::new("main-gitlab"),
    )
    .ok()
    .unwrap();
    assert_eq!(credential.secret.expose(), "fallback");
}

#[test]
fn provider_variables_upper_case_letters_and_replace_other_characters() {
    assert_eq!(
        provider_environment_variable(&ProviderId::new("main-gitlab.eu")),
        "KODECK_GITLAB_TOKEN_MAIN_GITLAB_EU"
    );
}

#[test]
fn the_store_account_names_workspace_and_provider() {
    assert_eq!(
        kodeck::credentials::credential_account(workspace_id(), &ProviderId::new("main")),
        "f94d2d12-5acf-4370-bb04-41ec860bb205:gitlab:main"
    );
}

#[test]
fn only_failed_lookups_give_warnings_in_provider_order() {
    let outcomes = vec![
        Err(CredentialError::Missing { provider_id: ProviderId::new("first") }),
        Ok(kodeck::credentials::ResolvedCredential {
            secret: kodeck::credentials::SecretValue::new("token".to_owned()),
            source: kodeck::credentials::CredentialSource::Environment,
        }),
        Err(CredentialError::CredentialStoreUnavailable { provider_id: ProviderId::new("third") }),
    ];
    assert_eq!(
        kodeck::credentials::warnings_from(&outcomes),
        vec![
            "no credential found for provider 'first'".to_owned(),
            "credential store is unavailable and no environment token exists for provider 'third'".to_owned(),
        ]
    );
    assert!(kodeck::credentials::warnings_from(&Vec::new()).is_empty());
}

struct KeyedStore;

impl CredentialStore for KeyedStore {
    fn get_password(&self, service: &str, account: &str) -> Result<Option<String>, CredentialStoreError> {
        if service == "kodeck" && account == "f94d2d12-5acf-4370-bb04-41ec860bb205:gitlab:main" {
            Ok(Some("stored".to_owned()))
        } else {
            Ok(None)
        }
    }
}

#[test]
fn the_store_is_asked_for_the_service_and_the_provider_account() {
    let environment = FakeEnvironment(HashMap::new());
    let found = resolve_gitlab_token_with(&KeyedStore, &environment, workspace_id(), &ProviderId::new("main"));
    assert_eq!(found.ok().unwrap().secret.expose(), "stored");
    let other = resolve_gitlab_token_with(&KeyedStore, &environment, workspace_id(), &ProviderId::new("other"));
    assert!(other.is_err());
}

#[test]
fn provider_id_from_text_keeps_the_text() {
    let id = ProviderId::from("gitlab-work");
    assert_eq!(id.as_str(), "gitlab-work");
    assert_eq!(id, ProviderId::new("gitlab-work"));
}
