//! Provider credentials: the system credential store first, then the environment.

use vstd::prelude::*;

use crate::domain::ids::{uuid_text, WorkspaceId};
use crate::domain::provider::{ProviderConfig, ProviderId};
use crate::domain::workspace::WorkspaceConfig;
use crate::text::{ascii_alnum, is_ascii_alnum, owned, push_char, push_str, to_ascii_upper, upper_char};

verus! {

/// The service name under which tokens are kept in the credential store.
pub const KEYRING_SERVICE: &'static str = "kodeck";

/// The environment variable that holds a token for every provider.
pub const FALLBACK_ENVIRONMENT_VARIABLE: &'static str = "KODECK_GITLAB_TOKEN";

/// The credential store could not be used.
#[derive(Debug, Clone, Copy, PartialEq, Eq, Structural)]
pub struct CredentialStoreError;

/// A store of secrets, looked up by service and account.
pub trait CredentialStore {
    /// Whether the store may give `answer` when asked for the service and account; a store
    /// that says nothing of itself may give any answer.
    open spec fn answers(
        &self,
        service: Seq<char>,
        account: Seq<char>,
        answer: Result<Option<String>, CredentialStoreError>,
    ) -> bool {
        true
    }

    /// The secret kept for the account, `None` if there is none.
    fn get_password(&self, service: &str, account: &str) -> (r: Result<
        Option<String>,
        CredentialStoreError,
    >)
        ensures
            self.answers(service@, account@, r),
    ;
}

/// The environment of the process, as text.
pub trait CredentialEnvironment {
    /// Whether the environment may give `value` for the variable; an environment that says
    /// nothing of itself may give any value.
    open spec fn holds(&self, variable: Seq<char>, value: Option<String>) -> bool {
        true
    }

    /// The value of a variable; `None` where it is unset or not text.
    fn value(&self, variable: &str) -> (r: Option<String>)
        ensures
            self.holds(variable@, r),
    ;
}

#[verifier::external_type_specification]
#[verifier::external_body]
pub struct ExKeyringEntry(keyring::Entry);

#[verifier::external_type_specification]
#[verifier::external_body]
pub struct ExKeyringError(keyring::Error);

/// `keyring::Entry::new`: the entry of the platform credential store for the service and
/// account. Nothing is claimed of the outcome, which depends on the platform.
#[verifier::external_body]
fn keyring_entry(service: &str, account: &str) -> (r: Result<keyring::Entry, keyring::Error>) {
    keyring::Entry::new(service, account)
}

/// `keyring::Entry::get_password`: the password stored for the entry. Nothing is claimed of
/// the outcome, which depends on what the platform store holds.
#[verifier::external_body]
fn keyring_password(entry: &keyring::Entry) -> (r: Result<String, keyring::Error>) {
    entry.get_password()
}

/// Whether a `keyring::Error` is `NoEntry`, the error for an account without a password.
#[verifier::external_body]
fn is_no_entry(error: &keyring::Error) -> (r: bool) {
    match error {
        keyring::Error::NoEntry => true,
        _ => false,
    }
}

/// The credential store of the operating system.
#[derive(Debug, Clone, Copy, Default)]
pub struct SystemCredentialStore;

impl CredentialStore for SystemCredentialStore {
    fn get_password(&self, service: &str, account: &str) -> (r: Result<
        Option<String>,
        CredentialStoreError,
    >) {
        match keyring_entry(service, account) {
            Err(_) => Err(CredentialStoreError),
            Ok(entry) => match keyring_password(&entry) {
                Ok(password) => Ok(Some(password)),
                Err(error) => if is_no_entry(&error) {
                    Ok(None)
                } else {
                    Err(CredentialStoreError)
                },
            },
        }
    }
}

/// A secret token; it is never part of a debug or error text.
pub struct SecretValue(String);

impl View for SecretValue {
    type V = Seq<char>;

    closed spec fn view(&self) -> Seq<char> {
        self.0@
    }
}

impl SecretValue {
    /// A secret holding the token.
    pub fn new(token: String) -> (s: SecretValue)
        ensures
            s@ == token@,
    {
        SecretValue(token)
    }

    /// The token itself.
    pub fn expose(&self) -> (s: &str)
        ensures
            s@ == self@,
    {
        self.0.as_str()
    }

    /// The debug text of a secret, which never shows the token.
    pub fn debug_text(&self) -> (s: String)
        ensures
            s@ == "SecretValue([REDACTED])"@,
    {
        owned("SecretValue([REDACTED])")
    }
}

/// Where a token was found.
#[derive(Debug, Clone, Copy, PartialEq, Eq, Structural)]
pub enum CredentialSource {
    CredentialStore,
    Environment,
}

/// A token and where it was found.
pub struct ResolvedCredential {
    pub secret: SecretValue,
    pub source: CredentialSource,
}

impl ResolvedCredential {
    /// The debug text of a resolved credential, with the token redacted.
    pub fn debug_text(&self) -> (s: String)
        ensures
            s@ == "ResolvedCredential { secret: "@ + "SecretValue([REDACTED])"@ + ", source: "@
                + source_name(self.source) + " }"@,
    {
        let mut s = owned("ResolvedCredential { secret: ");
        let secret = self.secret.debug_text();
        push_str(&mut s, secret.as_str());
        push_str(&mut s, ", source: ");
        match self.source {
            CredentialSource::CredentialStore => push_str(&mut s, "CredentialStore"),
            CredentialSource::Environment => push_str(&mut s, "Environment"),
        }
        push_str(&mut s, " }");
        s
    }
}

/// The name of a credential source.
pub open spec fn source_name(source: CredentialSource) -> Seq<char> {
    match source {
        CredentialSource::CredentialStore => "CredentialStore"@,
        CredentialSource::Environment => "Environment"@,
    }
}

/// Why no token could be had.
#[derive(Debug, Clone, PartialEq, Eq)]
pub enum CredentialError {
    Missing { provider_id: ProviderId },
    CredentialStoreUnavailable { provider_id: ProviderId },
}

/// The message of a credential error; it names the provider and nothing else.
pub open spec fn credential_error_text(e: CredentialError) -> Seq<char> {
    match e {
        CredentialError::Missing { provider_id } => "no credential found for provider '"@
            + provider_id@ + "'"@,
        CredentialError::CredentialStoreUnavailable { provider_id } =>
            "credential store is unavailable and no environment token exists for provider '"@
            + provider_id@ + "'"@,
    }
}

impl CredentialError {
    /// The message of the error.
    pub fn message(&self) -> (s: String)
        ensures
            s@ == credential_error_text(*self),
    {
        match self {
            CredentialError::Missing { provider_id } => {
                let mut s = owned("no credential found for provider '");
                push_str(&mut s, provider_id.as_str());
                push_str(&mut s, "'");
                s
            },
            CredentialError::CredentialStoreUnavailable { provider_id } => {
                let mut s = owned(
                    "credential store is unavailable and no environment token exists for provider '",
                );
                push_str(&mut s, provider_id.as_str());
                push_str(&mut s, "'");
                s
            },
        }
    }
}

/// The environment variable of one provider: the fallback name, `_`, and the provider's id
/// with letters and digits upper-cased and every other character replaced by `_`.
pub open spec fn provider_variable(provider: Seq<char>) -> Seq<char> {
    "KODECK_GITLAB_TOKEN_"@ + provider.map_values(
        |c: char|
            if is_ascii_alnum(c) {
                upper_char(c)
            } else {
                '_'
            },
    )
}

/// The environment variable that holds the token of one provider.
pub fn provider_environment_variable(provider_id: &ProviderId) -> (s: String)
    ensures
        s@ == provider_variable(provider_id@),
{
    let mut s = owned("KODECK_GITLAB_TOKEN_");
    let ghost start = s@;
    let text = provider_id.as_str();
    let n = text.unicode_len();
    let mut i: usize = 0;
    while i < n
        invariant
            n == provider_id@.len(),
            text@ == provider_id@,
            i <= n,
            s@ == start + provider_id@.subrange(0, i as int).map_values(
                |c: char|
                    if is_ascii_alnum(c) {
                        upper_char(c)
                    } else {
                        '_'
                    },
            ),
        decreases n - i,
    {
        let c = text.get_char(i);
        if ascii_alnum(c) {
            push_char(&mut s, to_ascii_upper(c));
        } else {
            push_char(&mut s, '_');
        }
        i = i + 1;
        assert(s@ =~= start + provider_id@.subrange(0, i as int).map_values(
            |c: char|
                if is_ascii_alnum(c) {
                    upper_char(c)
                } else {
                    '_'
                },
        ));
    }
    proof {
        reveal_strlit("KODECK_GITLAB_TOKEN_");
        assert(provider_id@.subrange(0, n as int) =~= provider_id@);
    }
    s
}

/// The credential-store account of a provider's token: workspace id, `:gitlab:`, provider id.
pub open spec fn account_text(workspace_id: WorkspaceId, provider: Seq<char>) -> Seq<char> {
    uuid_text(workspace_id.0) + ":gitlab:"@ + provider
}

/// The credential-store account under which a provider's token is kept.
pub fn credential_account(workspace_id: WorkspaceId, provider_id: &ProviderId) -> (s: String)
    ensures
        s@ == account_text(workspace_id, provider_id@),
{
    let mut s = workspace_id.text();
    push_str(&mut s, ":gitlab:");
    push_str(&mut s, provider_id.as_str());
    s
}

/// Whether a looked-up value is a usable token.
pub open spec fn usable(value: Option<String>) -> bool {
    value matches Some(v) && v@.len() > 0
}

/// The outcome of a token lookup, given the answer of the credential store and the values of
/// the provider's variable and of the fallback variable, by their characters: a non-empty
/// stored token wins, then the provider's variable, then the fallback; with none of them the
/// error says whether the store failed.
pub open spec fn resolution(
    stored: Result<Option<String>, CredentialStoreError>,
    provider_value: Option<String>,
    fallback_value: Option<String>,
    provider_id: ProviderId,
) -> Result<(Seq<char>, CredentialSource), CredentialError> {
    if stored matches Ok(Some(secret)) && secret@.len() > 0 {
        Ok((stored->Ok_0->Some_0@, CredentialSource::CredentialStore))
    } else if usable(provider_value) {
        Ok((provider_value->Some_0@, CredentialSource::Environment))
    } else if usable(fallback_value) {
        Ok((fallback_value->Some_0@, CredentialSource::Environment))
    } else if stored is Err {
        Err(CredentialError::CredentialStoreUnavailable { provider_id })
    } else {
        Err(CredentialError::Missing { provider_id })
    }
}

/// Whether a resolved credential is the given outcome.
pub open spec fn resolved_as(
    r: Result<ResolvedCredential, CredentialError>,
    expected: Result<(Seq<char>, CredentialSource), CredentialError>,
) -> bool {
    match (r, expected) {
        (Ok(c), Ok(e)) => c.secret@ == e.0 && c.source == e.1,
        (Err(a), Err(b)) => a == b,
        _ => false,
    }
}

fn is_usable(value: &Option<String>) -> (r: bool)
    ensures
        r == usable(*value),
{
    match value {
        Some(v) => v.unicode_len() > 0,
        None => false,
    }
}

/// Picks the token from the answers of the store and the environment (see `resolution`).
pub fn choose_credential(
    stored: Result<Option<String>, CredentialStoreError>,
    provider_value: Option<String>,
    fallback_value: Option<String>,
    provider_id: &ProviderId,
) -> (r: Result<ResolvedCredential, CredentialError>)
    ensures
        resolved_as(r, resolution(stored, provider_value, fallback_value, *provider_id)),
{
    let ghost expected = resolution(stored, provider_value, fallback_value, *provider_id);
    let unavailable = stored.is_err();
    if let Ok(Some(secret)) = stored {
        if secret.unicode_len() > 0 {
            return Ok(ResolvedCredential { secret: SecretValue(secret), source: CredentialSource::CredentialStore });
        }
    }
    if is_usable(&provider_value) {
        if let Some(v) = provider_value {
            return Ok(ResolvedCredential { secret: SecretValue(v), source: CredentialSource::Environment });
        }
    }
    if is_usable(&fallback_value) {
        if let Some(v) = fallback_value {
            return Ok(ResolvedCredential { secret: SecretValue(v), source: CredentialSource::Environment });
        }
    }
    if unavailable {
        Err(CredentialError::CredentialStoreUnavailable { provider_id: provider_id.clone() })
    } else {
        Err(CredentialError::Missing { provider_id: provider_id.clone() })
    }
}

/// Whether `r` is a lookup outcome of a provider's token: the answers that the store gave
/// for `KEYRING_SERVICE` and the provider's account, and that the environment gave for the
/// provider's variable and for the fallback variable, resolved by `resolution`.
pub open spec fn looked_up<S: CredentialStore, E: CredentialEnvironment>(
    store: S,
    environment: E,
    workspace_id: WorkspaceId,
    provider_id: ProviderId,
    r: Result<ResolvedCredential, CredentialError>,
) -> bool {
    exists|
        stored: Result<Option<String>, CredentialStoreError>,
        provider_value: Option<String>,
        fallback_value: Option<String>,
    |
        {
            &&& store.answers("kodeck"@, account_text(workspace_id, provider_id@), stored)
            &&& environment.holds(provider_variable(provider_id@), provider_value)
            &&& environment.holds("KODECK_GITLAB_TOKEN"@, fallback_value)
            &&& resolved_as(r, resolution(stored, provider_value, fallback_value, provider_id))
        }
}

/// Looks up a provider's GitLab token: in the credential store under `KEYRING_SERVICE` and
/// `credential_account`, then in the provider's environment variable, then in the fallback
/// variable, and resolves their answers with `resolution`.
pub fn resolve_gitlab_token_with<S: CredentialStore, E: CredentialEnvironment>(
    store: &S,
    environment: &E,
    workspace_id: WorkspaceId,
    provider_id: &ProviderId,
) -> (r: Result<ResolvedCredential, CredentialError>)
    ensures
        r matches Err(e) ==> (e == CredentialError::Missing { provider_id: *provider_id } || e
            == CredentialError::CredentialStoreUnavailable { provider_id: *provider_id }),
        r matches Ok(c) ==> c.secret@.len() > 0,
        looked_up(*store, *environment, workspace_id, *provider_id, r),
{
    let account = credential_account(workspace_id, provider_id);
    let stored = store.get_password(KEYRING_SERVICE, account.as_str());
    let variable = provider_environment_variable(provider_id);
    let provider_value = environment.value(variable.as_str());
    let fallback_value = environment.value(FALLBACK_ENVIRONMENT_VARIABLE);
    proof {
        reveal_strlit("kodeck");
        reveal_strlit("KODECK_GITLAB_TOKEN");
    }
    let ghost answers = (stored, provider_value, fallback_value);
    let r = choose_credential(stored, provider_value, fallback_value, provider_id);
    assert(resolved_as(r, resolution(answers.0, answers.1, answers.2, *provider_id)));
    assert(store.answers("kodeck"@, account_text(workspace_id, provider_id@), answers.0));
    assert(environment.holds("KODECK_GITLAB_TOKEN"@, answers.2));
    r
}

/// The messages of the failed lookups among `outcomes`, in order.
pub open spec fn warning_texts(outcomes: Seq<Result<ResolvedCredential, CredentialError>>) -> Seq<
    Seq<char>,
>
    decreases outcomes.len(),
{
    if outcomes.len() == 0 {
        Seq::empty()
    } else {
        let prev = warning_texts(outcomes.drop_last());
        match outcomes.last() {
            Err(e) => prev.push(credential_error_text(e)),
            Ok(_) => prev,
        }
    }
}

/// The warnings that lookup outcomes give: the message of each failed lookup, in order.
pub fn warnings_from(outcomes: &Vec<Result<ResolvedCredential, CredentialError>>) -> (w: Vec<String>)
    ensures
        w@.map_values(|s: String| s@) == warning_texts(outcomes@),
{
    let mut warnings: Vec<String> = Vec::new();
    let mut i: usize = 0;
    while i < outcomes.len()
        invariant
            i <= outcomes@.len(),
            warnings@.map_values(|s: String| s@) == warning_texts(outcomes@.subrange(0, i as int)),
        decreases outcomes@.len() - i,
    {
        let ghost before = warnings@;
        assert(outcomes@.subrange(0, i as int + 1).drop_last() =~= outcomes@.subrange(0, i as int));
        match &outcomes[i] {
            Err(e) => {
                let text = e.message();
                warnings.push(text);
                assert(warnings@.map_values(|s: String| s@) =~= before.map_values(|s: String| s@).push(
                    text@,
                ));
            },
            Ok(_) => {},
        }
        i = i + 1;
    }
    assert(outcomes@.subrange(0, outcomes@.len() as int) =~= outcomes@);
    warnings
}

/// The messages of the providers of a workspace whose token cannot be had, in provider
/// order: each provider is looked up (see `looked_up`) with the workspace's id and its own,
/// and the failed lookups give the warnings (see `warnings_from`). Which lookups fail depends
/// on the store and the environment.
pub fn credential_warnings_with<S: CredentialStore, E: CredentialEnvironment>(
    store: &S,
    environment: &E,
    workspace: &WorkspaceConfig,
) -> (warnings: Vec<String>)
    ensures
        exists|outcomes: Seq<Result<ResolvedCredential, CredentialError>>|
            {
                &&& outcomes.len() == workspace.providers@.len()
                &&& forall|k: int|
                    0 <= k < outcomes.len() ==> looked_up(
                        *store,
                        *environment,
                        workspace.id,
                        workspace.providers@[k]->id,
                        #[trigger] outcomes[k],
                    )
                &&& warnings@.map_values(|s: String| s@) == warning_texts(outcomes)
            },
{
    let mut outcomes: Vec<Result<ResolvedCredential, CredentialError>> = Vec::new();
    let mut i: usize = 0;
    while i < workspace.providers.len()
        invariant
            i <= workspace.providers@.len(),
            outcomes@.len() == i,
            forall|k: int|
                0 <= k < i ==> looked_up(
                    *store,
                    *environment,
                    workspace.id,
                    workspace.providers@[k]->id,
                    #[trigger] outcomes@[k],
                ),
        decreases workspace.providers@.len() - i,
    {
        match &workspace.providers[i] {
            ProviderConfig::Gitlab { id, .. } => {
                let outcome = resolve_gitlab_token_with(store, environment, workspace.id, id);
                outcomes.push(outcome);
            },
        }
        i = i + 1;
    }
    warnings_from(&outcomes)
}

} // verus!
