//! The shared workspace configuration and its validation.

use vstd::prelude::*;

use crate::text::{
    ascii_alnum, ascii_upper, decimal, is_ascii_alnum, is_blank, is_unicode_whitespace, owned,
    push_char, push_decimal, push_str, to_ascii_upper, trim, trim_str, whitespace,
};

use super::ids::{ColumnId, RepositoryId, WorkspaceId};
use super::provider::{ProviderConfig, ProviderId};
use super::repository_path::{normalize_repository_path, normalized_repository_path};
use super::task::TaskPriority;

verus! {

pub const WORKSPACE_SCHEMA_VERSION: u32 = 1;

/// A repository of the workspace, at a path relative to the workspace root.
#[derive(Debug, PartialEq, Eq)]
pub struct RepositoryConfig {
    pub id: RepositoryId,
    pub path: String,
}

impl Clone for RepositoryConfig {
    fn clone(&self) -> (r: Self)
        ensures
            r == *self,
    {
        RepositoryConfig { id: self.id.clone(), path: self.path.clone() }
    }
}

/// A board column.
#[derive(Debug, PartialEq, Eq)]
pub struct ColumnConfig {
    pub id: ColumnId,
    pub name: String,
}

impl Clone for ColumnConfig {
    fn clone(&self) -> (r: Self)
        ensures
            r == *self,
    {
        ColumnConfig { id: self.id.clone(), name: self.name.clone() }
    }
}

/// The columns of a new board: `(id, name)` pairs.
pub open spec fn default_columns() -> Seq<(Seq<char>, Seq<char>)> {
    seq![
        ("inbox"@, "Inbox"@),
        ("todo"@, "To do"@),
        ("in-progress"@, "In progress"@),
        ("review"@, "Review"@),
        ("done"@, "Done"@),
    ]
}

pub open spec fn column_view(c: ColumnConfig) -> (Seq<char>, Seq<char>) {
    (c.id@, c.name@)
}

fn column(id: &str, name: &str) -> (c: ColumnConfig)
    ensures
        c.id@ == id@,
        c.name@ == name@,
{
    ColumnConfig { id: ColumnId::new(id), name: owned(name) }
}

impl ColumnConfig {
    /// The default columns, in board order.
    pub fn defaults() -> (columns: Vec<ColumnConfig>)
        ensures
            columns@.map_values(|c: ColumnConfig| column_view(c)) == default_columns(),
    {
        let mut columns = Vec::new();
        columns.push(column("inbox", "Inbox"));
        columns.push(column("todo", "To do"));
        columns.push(column("in-progress", "In progress"));
        columns.push(column("review", "Review"));
        columns.push(column("done", "Done"));
        assert(columns@.map_values(|c: ColumnConfig| column_view(c)) =~= default_columns());
        columns
    }
}

/// How a provider's issue status maps to a board column.
#[derive(Debug, PartialEq, Eq)]
pub struct StatusMapping {
    pub provider_id: ProviderId,
    pub provider_status: String,
    pub column_id: ColumnId,
}

impl Clone for StatusMapping {
    fn clone(&self) -> (r: Self)
        ensures
            r == *self,
    {
        StatusMapping {
            provider_id: self.provider_id.clone(),
            provider_status: self.provider_status.clone(),
            column_id: self.column_id.clone(),
        }
    }
}

/// How a code annotation tag becomes a card: its column and priority.
#[derive(Debug, PartialEq, Eq)]
pub struct AnnotationTagMapping {
    pub tag: String,
    pub column_id: ColumnId,
    pub priority: TaskPriority,
}

impl Clone for AnnotationTagMapping {
    fn clone(&self) -> (r: Self)
        ensures
            r == *self,
    {
        AnnotationTagMapping {
            tag: self.tag.clone(),
            column_id: self.column_id.clone(),
            priority: self.priority,
        }
    }
}

/// The default tags: `TODO` at low priority, `FIXME` and `BUG` at high priority, all into
/// the inbox.
pub open spec fn default_annotation_tags() -> Seq<(Seq<char>, Seq<char>, TaskPriority)> {
    seq![
        ("TODO"@, "inbox"@, TaskPriority::LOW),
        ("FIXME"@, "inbox"@, TaskPriority::HIGH),
        ("BUG"@, "inbox"@, TaskPriority::HIGH),
    ]
}

pub open spec fn tag_view(m: AnnotationTagMapping) -> (Seq<char>, Seq<char>, TaskPriority) {
    (m.tag@, m.column_id@, m.priority)
}

fn tag_mapping(tag: &str, priority: TaskPriority) -> (m: AnnotationTagMapping)
    ensures
        m.tag@ == tag@,
        m.column_id@ == "inbox"@,
        m.priority == priority,
{
    AnnotationTagMapping { tag: owned(tag), column_id: ColumnId::new("inbox"), priority }
}

impl AnnotationTagMapping {
    pub fn defaults() -> (tags: Vec<AnnotationTagMapping>)
        ensures
            tags@.map_values(|m: AnnotationTagMapping| tag_view(m)) == default_annotation_tags(),
    {
        let mut tags = Vec::new();
        tags.push(tag_mapping("TODO", TaskPriority::LOW));
        tags.push(tag_mapping("FIXME", TaskPriority::HIGH));
        tags.push(tag_mapping("BUG", TaskPriority::HIGH));
        assert(tags@.map_values(|m: AnnotationTagMapping| tag_view(m))
            =~= default_annotation_tags());
        tags
    }
}

/// The shared configuration of a workspace, kept in the repository.
#[derive(Debug, PartialEq, Eq)]
pub struct WorkspaceConfig {
    pub schema_version: u32,
    pub id: WorkspaceId,
    pub name: String,
    pub repositories: Vec<RepositoryConfig>,
    pub columns: Vec<ColumnConfig>,
    pub providers: Vec<ProviderConfig>,
    pub status_mappings: Vec<StatusMapping>,
    pub annotation_tags: Vec<AnnotationTagMapping>,
}

impl WorkspaceConfig {
    /// A configuration with the current schema, the default columns and tags, and nothing else.
    pub fn new(id: WorkspaceId, name: String) -> (c: Self)
        ensures
            c.schema_version == WORKSPACE_SCHEMA_VERSION,
            c.id == id,
            c.name == name,
            c.repositories@.len() == 0,
            c.columns@.map_values(|c: ColumnConfig| column_view(c)) == default_columns(),
            c.providers@.len() == 0,
            c.status_mappings@.len() == 0,
            c.annotation_tags@.map_values(|m: AnnotationTagMapping| tag_view(m))
                == default_annotation_tags(),
    {
        WorkspaceConfig {
            schema_version: WORKSPACE_SCHEMA_VERSION,
            id,
            name,
            repositories: Vec::new(),
            columns: ColumnConfig::defaults(),
            providers: Vec::new(),
            status_mappings: Vec::new(),
            annotation_tags: AnnotationTagMapping::defaults(),
        }
    }
}

impl Clone for WorkspaceConfig {
    fn clone(&self) -> (r: Self)
        ensures
            r.schema_version == self.schema_version,
            r.id == self.id,
            r.name == self.name,
            r.repositories@ == self.repositories@,
            r.columns@ == self.columns@,
            r.providers@.len() == self.providers@.len(),
            forall|i: int|
                0 <= i < self.providers@.len() ==> (#[trigger] r.providers@[i])->id
                    == self.providers@[i]->id && r.providers@[i]->instance_url
                    == self.providers@[i]->instance_url && r.providers@[i]->projects@
                    == self.providers@[i]->projects@,
            r.status_mappings@ == self.status_mappings@,
            r.annotation_tags@ == self.annotation_tags@,
    {
        let repositories = self.repositories.clone();
        let columns = self.columns.clone();
        let providers = self.providers.clone();
        let status_mappings = self.status_mappings.clone();
        let annotation_tags = self.annotation_tags.clone();
        assert(repositories@ =~= self.repositories@);
        assert(columns@ =~= self.columns@);
        assert(providers@.len() == self.providers@.len());
        assert(status_mappings@ =~= self.status_mappings@);
        assert(annotation_tags@ =~= self.annotation_tags@);
        WorkspaceConfig {
            schema_version: self.schema_version,
            id: self.id,
            name: self.name.clone(),
            repositories,
            columns,
            providers,
            status_mappings,
            annotation_tags,
        }
    }
}

impl WorkspaceConfig {
    /// Swaps two columns of the board, as when a column is moved one place.
    pub fn swap_columns(&mut self, a: usize, b: usize)
        requires
            a < old(self).columns@.len(),
            b < old(self).columns@.len(),
        ensures
            final(self).columns@ == old(self).columns@.update(a as int, old(self).columns@[b as int]).update(
                b as int,
                old(self).columns@[a as int],
            ),
            final(self).schema_version == old(self).schema_version,
            final(self).id == old(self).id,
            final(self).name == old(self).name,
            final(self).repositories == old(self).repositories,
            final(self).providers == old(self).providers,
            final(self).status_mappings == old(self).status_mappings,
            final(self).annotation_tags == old(self).annotation_tags,
    {
        let first = self.columns[a].clone();
        let second = self.columns[b].clone();
        self.columns.set(a, second);
        self.columns.set(b, first);
    }
}

/// One problem found in a configuration: where, and what.
#[derive(Debug, PartialEq, Eq)]
pub struct WorkspaceValidationIssue {
    pub path: String,
    pub message: String,
}

impl Clone for WorkspaceValidationIssue {
    fn clone(&self) -> (r: Self)
        ensures
            r == *self,
    {
        WorkspaceValidationIssue { path: self.path.clone(), message: self.message.clone() }
    }
}

/// All problems found in a configuration, in the order they were found.
#[derive(Debug, PartialEq, Eq)]
pub struct WorkspaceValidationErrors {
    issues: Vec<WorkspaceValidationIssue>,
}

pub open spec fn issue_view(i: WorkspaceValidationIssue) -> (Seq<char>, Seq<char>) {
    (i.path@, i.message@)
}

pub open spec fn issues_view(v: Seq<WorkspaceValidationIssue>) -> Seq<(Seq<char>, Seq<char>)> {
    v.map_values(|i: WorkspaceValidationIssue| issue_view(i))
}

impl WorkspaceValidationErrors {
    pub closed spec fn spec_issues(&self) -> Seq<(Seq<char>, Seq<char>)> {
        issues_view(self.issues@)
    }

    fn new(issues: Vec<WorkspaceValidationIssue>) -> (e: Self)
        ensures
            e.spec_issues() == issues_view(issues@),
    {
        WorkspaceValidationErrors { issues }
    }

    pub fn issues(&self) -> (issues: &[WorkspaceValidationIssue])
        ensures
            issues_view(issues@) == self.spec_issues(),
    {
        self.issues.as_slice()
    }

    /// The one-line report: the count, then each issue as `path: message`.
    pub fn message(&self) -> (s: String)
        ensures
            s@ == report_text(self.spec_issues()),
    {
        let mut s = owned("workspace configuration has ");
        push_decimal(&mut s, self.issues.len() as u128);
        push_str(&mut s, " validation error(s)");
        let ghost head = s@;
        let mut k: usize = 0;
        while k < self.issues.len()
            invariant
                k <= self.issues@.len(),
                head == "workspace configuration has "@ + decimal(self.issues@.len() as nat)
                    + " validation error(s)"@,
                s@ == head + report_items(issues_view(self.issues@).subrange(0, k as int)),
            decreases self.issues@.len() - k,
        {
            let issue = &self.issues[k];
            push_str(&mut s, "; ");
            push_str(&mut s, issue.path.as_str());
            push_str(&mut s, ": ");
            push_str(&mut s, issue.message.as_str());
            proof {
                let items = issues_view(self.issues@).subrange(0, k + 1);
                assert(items.drop_last() =~= issues_view(self.issues@).subrange(0, k as int));
            }
            k = k + 1;
        }
        assert(issues_view(self.issues@).subrange(0, self.issues@.len() as int)
            =~= issues_view(self.issues@));
        s
    }
}

/// `; path: message` for each issue.
pub open spec fn report_items(issues: Seq<(Seq<char>, Seq<char>)>) -> Seq<char>
    decreases issues.len(),
{
    if issues.len() == 0 {
        Seq::empty()
    } else {
        report_items(issues.drop_last()) + "; "@ + issues.last().0 + ": "@ + issues.last().1
    }
}

pub open spec fn report_text(issues: Seq<(Seq<char>, Seq<char>)>) -> Seq<char> {
    "workspace configuration has "@ + decimal(issues.len()) + " validation error(s)"@
        + report_items(issues)
}

// ---------------------------------------------------------------------------------------------
// What validation reports
// ---------------------------------------------------------------------------------------------
pub open spec fn one(path: Seq<char>, message: Seq<char>) -> Seq<(Seq<char>, Seq<char>)> {
    seq![(path, message)]
}

pub open spec fn none() -> Seq<(Seq<char>, Seq<char>)> {
    Seq::empty()
}

/// `prefix[index]`.
pub open spec fn indexed(prefix: Seq<char>, index: int) -> Seq<char> {
    prefix + seq!['['] + decimal(index as nat) + seq![']']
}

pub open spec fn is_id_char(c: char) -> bool {
    is_ascii_alnum(c) || c == '-' || c == '_' || c == '.'
}

/// An identifier starts with an ASCII letter or digit and holds only those, `-`, `_` and `.`.
pub open spec fn is_valid_id(value: Seq<char>) -> bool {
    &&& value.len() > 0
    &&& is_ascii_alnum(value[0])
    &&& forall|k: int| 1 <= k < value.len() ==> is_id_char(#[trigger] value[k])
}

pub open spec fn id_issues(path: Seq<char>, value: Seq<char>, label: Seq<char>) -> Seq<
    (Seq<char>, Seq<char>),
> {
    if is_valid_id(value) {
        none()
    } else {
        one(
            path,
            label
                + " must start with an ASCII letter or digit and contain only letters, digits, '-', '_' or '.'"@,
        )
    }
}

pub open spec fn name_issues(path: Seq<char>, value: Seq<char>, label: Seq<char>) -> Seq<
    (Seq<char>, Seq<char>),
> {
    if trim(value).len() == 0 {
        one(path, label + " must not be empty"@)
    } else if trim(value) != value {
        one(path, label + " must not have leading or trailing whitespace"@)
    } else {
        none()
    }
}

pub open spec fn quoted(before: Seq<char>, value: Seq<char>) -> Seq<char> {
    before + seq!['\''] + value + seq!['\'']
}

// Repositories.
pub open spec fn repository_id_seen(c: WorkspaceConfig, i: int) -> bool {
    exists|j: int| 0 <= j < i && (#[trigger] c.repositories@[j]).id@ == c.repositories@[i].id@
}

pub open spec fn repository_path_seen(c: WorkspaceConfig, i: int, normalized: Seq<char>) -> bool {
    exists|j: int|
        0 <= j < i && normalized_repository_path((#[trigger] c.repositories@[j]).path@) == Ok::<
            Seq<char>,
            Seq<char>,
        >(normalized)
}

pub open spec fn repository_issues_at(c: WorkspaceConfig, i: int) -> Seq<(Seq<char>, Seq<char>)> {
    let r = c.repositories@[i];
    let p = indexed("repositories"@, i);
    id_issues(p + ".id"@, r.id@, "repository id"@) + (if repository_id_seen(c, i) {
        one(p + ".id"@, quoted("duplicate repository id "@, r.id@))
    } else {
        none()
    }) + match normalized_repository_path(r.path@) {
        Ok(n) => if repository_path_seen(c, i, n) {
            one(p + ".path"@, quoted("duplicate repository path "@, r.path@))
        } else {
            none()
        },
        Err(m) => one(p + ".path"@, m),
    }
}

pub open spec fn repositories_issues(c: WorkspaceConfig, n: int) -> Seq<(Seq<char>, Seq<char>)>
    decreases n,
{
    if n <= 0 {
        none()
    } else {
        repositories_issues(c, n - 1) + repository_issues_at(c, n - 1)
    }
}

// Columns.
pub open spec fn column_id_seen(c: WorkspaceConfig, i: int) -> bool {
    exists|j: int| 0 <= j < i && (#[trigger] c.columns@[j]).id@ == c.columns@[i].id@
}

pub open spec fn has_column(c: WorkspaceConfig, id: Seq<char>) -> bool {
    exists|j: int| 0 <= j < c.columns@.len() && (#[trigger] c.columns@[j]).id@ == id
}

pub open spec fn column_issues_at(c: WorkspaceConfig, i: int) -> Seq<(Seq<char>, Seq<char>)> {
    let col = c.columns@[i];
    let p = indexed("columns"@, i);
    id_issues(p + ".id"@, col.id@, "column id"@) + name_issues(
        p + ".name"@,
        col.name@,
        "column name"@,
    ) + (if column_id_seen(c, i) {
        one(p + ".id"@, quoted("duplicate column id "@, col.id@))
    } else {
        none()
    })
}

pub open spec fn columns_issues(c: WorkspaceConfig, n: int) -> Seq<(Seq<char>, Seq<char>)>
    decreases n,
{
    if n <= 0 {
        none()
    } else {
        columns_issues(c, n - 1) + column_issues_at(c, n - 1)
    }
}

// Providers.
/// The text before the first occurrence of `c`, or all of `s`.
pub open spec fn before_char(s: Seq<char>, c: char) -> Seq<char>
    decreases s.len(),
{
    if s.len() == 0 {
        s
    } else if s[0] == c {
        Seq::empty()
    } else {
        seq![s[0]] + before_char(s.drop_first(), c)
    }
}

pub open spec fn starts_with(s: Seq<char>, prefix: Seq<char>) -> bool {
    prefix.len() <= s.len() && s.subrange(0, prefix.len() as int) == prefix
}

/// The authority part of an `http://` or `https://` URL.
pub open spec fn url_authority(url: Seq<char>) -> Option<Seq<char>> {
    if starts_with(url, "https://"@) {
        Some(before_char(url.skip("https://"@.len() as int), '/'))
    } else if starts_with(url, "http://"@) {
        Some(before_char(url.skip("http://"@.len() as int), '/'))
    } else {
        None
    }
}

/// A GitLab base URL: HTTP(S), a non-empty authority without credentials, no whitespace,
/// query or fragment.
pub open spec fn is_valid_instance_url(url: Seq<char>) -> bool {
    &&& url_authority(url) matches Some(a) && a.len() > 0 && !a.contains('@')
    &&& !(exists|k: int| 0 <= k < url.len() && is_unicode_whitespace(#[trigger] url[k]))
    &&& !url.contains('?')
    &&& !url.contains('#')
}

pub open spec fn project_seen(projects: Seq<String>, k: int) -> bool {
    exists|j: int| 0 <= j < k && #[trigger] projects[j]@ == projects[k]@
}

pub open spec fn project_issues_at(path: Seq<char>, projects: Seq<String>, k: int) -> Seq<
    (Seq<char>, Seq<char>),
> {
    let pp = path + indexed(".projects"@, k);
    name_issues(pp, projects[k]@, "GitLab project path"@) + (if project_seen(projects, k) {
        one(pp, quoted("duplicate GitLab project "@, projects[k]@))
    } else {
        none()
    })
}

pub open spec fn projects_issues(path: Seq<char>, projects: Seq<String>, n: int) -> Seq<
    (Seq<char>, Seq<char>),
>
    decreases n,
{
    if n <= 0 {
        none()
    } else {
        projects_issues(path, projects, n - 1) + project_issues_at(path, projects, n - 1)
    }
}

pub open spec fn gitlab_issues(path: Seq<char>, p: ProviderConfig) -> Seq<(Seq<char>, Seq<char>)> {
    (if is_valid_instance_url(p->instance_url@) {
        none()
    } else {
        one(
            path + ".instance_url"@,
            "GitLab instance URL must be an HTTP(S) base URL without credentials, query or fragment"@,
        )
    }) + projects_issues(path, p->projects@, p->projects@.len() as int)
}

pub open spec fn provider_id_seen(c: WorkspaceConfig, i: int) -> bool {
    exists|j: int| 0 <= j < i && (#[trigger] c.providers@[j])->id@ == c.providers@[i]->id@
}

pub open spec fn has_provider(c: WorkspaceConfig, id: Seq<char>) -> bool {
    exists|j: int| 0 <= j < c.providers@.len() && (#[trigger] c.providers@[j])->id@ == id
}

pub open spec fn provider_issues_at(c: WorkspaceConfig, i: int) -> Seq<(Seq<char>, Seq<char>)> {
    let p = c.providers@[i];
    let path = indexed("providers"@, i);
    id_issues(path + ".id"@, p->id@, "provider id"@) + (if provider_id_seen(c, i) {
        one(path + ".id"@, quoted("duplicate provider id "@, p->id@))
    } else {
        none()
    }) + gitlab_issues(path, p)
}

pub open spec fn providers_issues(c: WorkspaceConfig, n: int) -> Seq<(Seq<char>, Seq<char>)>
    decreases n,
{
    if n <= 0 {
        none()
    } else {
        providers_issues(c, n - 1) + provider_issues_at(c, n - 1)
    }
}

// Status mappings.
pub open spec fn status_seen(c: WorkspaceConfig, i: int) -> bool {
    exists|j: int|
        0 <= j < i && (#[trigger] c.status_mappings@[j]).provider_id@
            == c.status_mappings@[i].provider_id@ && c.status_mappings@[j].provider_status@
            == c.status_mappings@[i].provider_status@
}

pub open spec fn mapping_issues_at(c: WorkspaceConfig, i: int) -> Seq<(Seq<char>, Seq<char>)> {
    let m = c.status_mappings@[i];
    let p = indexed("status_mappings"@, i);
    id_issues(p + ".provider_id"@, m.provider_id@, "provider id"@) + id_issues(
        p + ".column_id"@,
        m.column_id@,
        "column id"@,
    ) + name_issues(p + ".provider_status"@, m.provider_status@, "provider status"@) + (if has_provider(
        c,
        m.provider_id@,
    ) {
        none()
    } else {
        one(p + ".provider_id"@, quoted("unknown provider id "@, m.provider_id@))
    }) + (if has_column(c, m.column_id@) {
        none()
    } else {
        one(p + ".column_id"@, quoted("unknown column id "@, m.column_id@))
    }) + (if status_seen(c, i) {
        one(
            p,
            quoted("provider status "@, m.provider_status@) + quoted(
                " is mapped more than once for "@,
                m.provider_id@,
            ),
        )
    } else {
        none()
    })
}

pub open spec fn mappings_issues(c: WorkspaceConfig, n: int) -> Seq<(Seq<char>, Seq<char>)>
    decreases n,
{
    if n <= 0 {
        none()
    } else {
        mappings_issues(c, n - 1) + mapping_issues_at(c, n - 1)
    }
}

// Annotation tags.
pub open spec fn is_tag_char(c: char) -> bool {
    is_ascii_alnum(c) || c == '_' || c == '-'
}

/// A tag is non-empty and holds only ASCII letters, digits, `_` and `-`.
pub open spec fn is_valid_tag(tag: Seq<char>) -> bool {
    tag.len() > 0 && forall|k: int| 0 <= k < tag.len() ==> is_tag_char(#[trigger] tag[k])
}

pub open spec fn tag_seen(c: WorkspaceConfig, i: int) -> bool {
    exists|j: int|
        0 <= j < i && is_valid_tag((#[trigger] c.annotation_tags@[j]).tag@) && ascii_upper(
            c.annotation_tags@[j].tag@,
        ) == ascii_upper(c.annotation_tags@[i].tag@)
}

pub open spec fn tag_issues_at(c: WorkspaceConfig, i: int) -> Seq<(Seq<char>, Seq<char>)> {
    let m = c.annotation_tags@[i];
    let p = indexed("annotation_tags"@, i);
    (if !is_valid_tag(m.tag@) {
        one(
            p + ".tag"@,
            "annotation tag must contain only ASCII letters, digits, '_' or '-'"@,
        )
    } else if tag_seen(c, i) {
        one(p + ".tag"@, quoted("duplicate annotation tag "@, m.tag@))
    } else {
        none()
    }) + (if has_column(c, m.column_id@) {
        none()
    } else {
        one(p + ".column_id"@, quoted("unknown column id "@, m.column_id@))
    })
}

pub open spec fn tags_issues(c: WorkspaceConfig, n: int) -> Seq<(Seq<char>, Seq<char>)>
    decreases n,
{
    if n <= 0 {
        none()
    } else {
        tags_issues(c, n - 1) + tag_issues_at(c, n - 1)
    }
}

/// Everything wrong with a configuration, in report order.
pub open spec fn workspace_issues(c: WorkspaceConfig) -> Seq<(Seq<char>, Seq<char>)> {
    (if c.schema_version != WORKSPACE_SCHEMA_VERSION {
        one(
            "schema_version"@,
            "unsupported schema version "@ + decimal(c.schema_version as nat) + "; expected "@
                + decimal(WORKSPACE_SCHEMA_VERSION as nat),
        )
    } else {
        none()
    }) + (if c.id.0 == 0 {
        one("id"@, "workspace UUID must not be nil"@)
    } else {
        none()
    }) + name_issues("name"@, c.name@, "workspace name"@) + repositories_issues(
        c,
        c.repositories@.len() as int,
    ) + (if c.columns@.len() == 0 {
        one("columns"@, "at least one column is required"@)
    } else {
        none()
    }) + columns_issues(c, c.columns@.len() as int) + providers_issues(
        c,
        c.providers@.len() as int,
    ) + mappings_issues(c, c.status_mappings@.len() as int) + tags_issues(
        c,
        c.annotation_tags@.len() as int,
    )
}


// ---------------------------------------------------------------------------------------------
// How validation finds it
// ---------------------------------------------------------------------------------------------
proof fn lemma_issues_push(v: Seq<WorkspaceValidationIssue>, x: WorkspaceValidationIssue)
    ensures
        issues_view(v.push(x)) == issues_view(v).push(issue_view(x)),
{
    assert(issues_view(v.push(x)) =~= issues_view(v).push(issue_view(x)));
}

fn push_issue(errors: &mut Vec<WorkspaceValidationIssue>, path: String, message: String)
    ensures
        issues_view(final(errors)@) == issues_view(old(errors)@) + one(path@, message@),
{
    let ghost before = errors@;
    let issue = WorkspaceValidationIssue { path, message };
    errors.push(issue);
    proof {
        lemma_issues_push(before, issue);
        assert(issues_view(before).push(issue_view(issue)) =~= issues_view(before) + one(
            path@,
            message@,
        ));
    }
}

/// `prefix[index]suffix`.
pub(crate) fn indexed_path(prefix: &str, index: usize, suffix: &str) -> (r: String)
    ensures
        r@ == indexed(prefix@, index as int) + suffix@,
{
    let mut r = owned(prefix);
    push_char(&mut r, '[');
    push_decimal(&mut r, index as u128);
    push_char(&mut r, ']');
    push_str(&mut r, suffix);
    assert(r@ =~= indexed(prefix@, index as int) + suffix@);
    r
}

pub(crate) fn concat(a: &str, b: &str) -> (r: String)
    ensures
        r@ == a@ + b@,
{
    let mut r = owned(a);
    push_str(&mut r, b);
    r
}

pub(crate) fn quoted_message(before: &str, value: &str) -> (r: String)
    ensures
        r@ == quoted(before@, value@),
{
    let mut r = owned(before);
    push_char(&mut r, '\'');
    push_str(&mut r, value);
    push_char(&mut r, '\'');
    assert(r@ =~= quoted(before@, value@));
    r
}

fn id_char(c: char) -> (b: bool)
    ensures
        b == is_id_char(c),
{
    ascii_alnum(c) || c == '-' || c == '_' || c == '.'
}

fn valid_id(value: &str) -> (b: bool)
    ensures
        b == is_valid_id(value@),
{
    let n = value.unicode_len();
    if n == 0 || !ascii_alnum(value.get_char(0)) {
        return false;
    }
    let mut k: usize = 1;
    while k < n
        invariant
            n == value@.len(),
            1 <= k <= n,
            forall|q: int| 1 <= q < k ==> is_id_char(#[trigger] value@[q]),
        decreases n - k,
    {
        if !id_char(value.get_char(k)) {
            return false;
        }
        k = k + 1;
    }
    true
}

fn validate_id(errors: &mut Vec<WorkspaceValidationIssue>, path: &str, value: &str, label: &str)
    ensures
        issues_view(final(errors)@) == issues_view(old(errors)@) + id_issues(
            path@,
            value@,
            label@,
        ),
{
    if !valid_id(value) {
        push_issue(
            errors,
            owned(path),
            concat(
                label,
                " must start with an ASCII letter or digit and contain only letters, digits, '-', '_' or '.'",
            ),
        );
    } else {
        assert(issues_view(errors@) =~= issues_view(errors@) + none());
    }
}

fn validate_name(errors: &mut Vec<WorkspaceValidationIssue>, path: &str, value: &str, label: &str)
    ensures
        issues_view(final(errors)@) == issues_view(old(errors)@) + name_issues(
            path@,
            value@,
            label@,
        ),
{
    let trimmed = trim_str(value);
    if trimmed.is_empty() {
        push_issue(errors, owned(path), concat(label, " must not be empty"));
    } else if !crate::text::str_eq(trimmed, value) {
        push_issue(
            errors,
            owned(path),
            concat(label, " must not have leading or trailing whitespace"),
        );
    } else {
        assert(issues_view(errors@) =~= issues_view(errors@) + none());
    }
}

fn validate_repository(
    errors: &mut Vec<WorkspaceValidationIssue>,
    config: &WorkspaceConfig,
    i: usize,
)
    requires
        i < config.repositories@.len(),
    ensures
        issues_view(final(errors)@) == issues_view(old(errors)@) + repository_issues_at(
            *config,
            i as int,
        ),
{
    let ghost start = issues_view(errors@);
    let repository = &config.repositories[i];
    let id_path = indexed_path("repositories", i, ".id");
    validate_id(errors, id_path.as_str(), repository.id.as_str(), "repository id");
    let ghost after_id = issues_view(errors@);
    let mut j: usize = 0;
    let mut seen = false;
    while j < i
        invariant
            i < config.repositories@.len(),
            j <= i,
            repository == config.repositories@[i as int],
            !seen ==> forall|q: int|
                0 <= q < j ==> (#[trigger] config.repositories@[q]).id@ != repository.id@,
            seen ==> repository_id_seen(*config, i as int),
        decreases i - j,
    {
        if config.repositories[j].id.0 == repository.id.0 {
            seen = true;
        }
        j = j + 1;
    }
    if seen {
        push_issue(
            errors,
            id_path,
            quoted_message("duplicate repository id ", repository.id.as_str()),
        );
    } else {
        assert(issues_view(errors@) =~= issues_view(errors@) + none());
    }
    let ghost after_dup = issues_view(errors@);
    let path_path = indexed_path("repositories", i, ".path");
    match normalize_repository_path(repository.path.as_str()) {
        Ok(normalized) => {
            let mut j: usize = 0;
            let mut seen = false;
            while j < i
                invariant
                    i < config.repositories@.len(),
                    j <= i,
                    !seen ==> forall|q: int|
                        0 <= q < j ==> normalized_repository_path(
                            (#[trigger] config.repositories@[q]).path@,
                        ) != Ok::<Seq<char>, Seq<char>>(normalized@),
                    seen ==> repository_path_seen(*config, i as int, normalized@),
                decreases i - j,
            {
                match normalize_repository_path(config.repositories[j].path.as_str()) {
                    Ok(other) => {
                        if other == normalized {
                            seen = true;
                        }
                    },
                    Err(_) => {},
                }
                j = j + 1;
            }
            if seen {
                push_issue(
                    errors,
                    path_path,
                    quoted_message("duplicate repository path ", repository.path.as_str()),
                );
            } else {
                assert(issues_view(errors@) =~= issues_view(errors@) + none());
            }
        },
        Err(message) => {
            push_issue(errors, path_path, owned(message));
        },
    }
    assert(issues_view(errors@) =~= start + repository_issues_at(*config, i as int));
}

fn validate_column(errors: &mut Vec<WorkspaceValidationIssue>, config: &WorkspaceConfig, i: usize)
    requires
        i < config.columns@.len(),
    ensures
        issues_view(final(errors)@) == issues_view(old(errors)@) + column_issues_at(
            *config,
            i as int,
        ),
{
    let ghost start = issues_view(errors@);
    let column = &config.columns[i];
    let id_path = indexed_path("columns", i, ".id");
    validate_id(errors, id_path.as_str(), column.id.as_str(), "column id");
    let name_path = indexed_path("columns", i, ".name");
    validate_name(errors, name_path.as_str(), column.name.as_str(), "column name");
    let mut j: usize = 0;
    let mut seen = false;
    while j < i
        invariant
            i < config.columns@.len(),
            j <= i,
            column == config.columns@[i as int],
            !seen ==> forall|q: int|
                0 <= q < j ==> (#[trigger] config.columns@[q]).id@ != column.id@,
            seen ==> column_id_seen(*config, i as int),
        decreases i - j,
    {
        if config.columns[j].id.0 == column.id.0 {
            seen = true;
        }
        j = j + 1;
    }
    if seen {
        push_issue(errors, id_path, quoted_message("duplicate column id ", column.id.as_str()));
    } else {
        assert(issues_view(errors@) =~= issues_view(errors@) + none());
    }
    assert(issues_view(errors@) =~= start + column_issues_at(*config, i as int));
}

fn has_column_id(config: &WorkspaceConfig, id: &ColumnId) -> (b: bool)
    ensures
        b == has_column(*config, id@),
{
    let mut j: usize = 0;
    while j < config.columns.len()
        invariant
            j <= config.columns@.len(),
            forall|q: int| 0 <= q < j ==> (#[trigger] config.columns@[q]).id@ != id@,
        decreases config.columns@.len() - j,
    {
        if config.columns[j].id.0 == id.0 {
            return true;
        }
        j = j + 1;
    }
    false
}

fn has_provider_id(config: &WorkspaceConfig, id: &ProviderId) -> (b: bool)
    ensures
        b == has_provider(*config, id@),
{
    let mut j: usize = 0;
    while j < config.providers.len()
        invariant
            j <= config.providers@.len(),
            forall|q: int| 0 <= q < j ==> (#[trigger] config.providers@[q])->id@ != id@,
        decreases config.providers@.len() - j,
    {
        if config.providers[j].id().0 == id.0 {
            return true;
        }
        j = j + 1;
    }
    false
}

proof fn lemma_before_char_step(s: Seq<char>, k: int, c: char)
    requires
        0 <= k < s.len(),
        forall|q: int| 0 <= q < k ==> s[q] != c,
    ensures
        s[k] == c ==> before_char(s, c) == s.subrange(0, k),
        s[k] != c ==> forall|q: int| 0 <= q <= k ==> s[q] != c,
    decreases k,
{
    if k > 0 {
        lemma_before_char_step(s.drop_first(), k - 1, c);
        assert(s.drop_first().subrange(0, k - 1) =~= s.subrange(1, k));
        assert(seq![s[0]] + s.subrange(1, k) =~= s.subrange(0, k));
    } else {
        assert(s.subrange(0, 0) =~= Seq::<char>::empty());
    }
}

proof fn lemma_before_char_none(s: Seq<char>, c: char)
    requires
        forall|q: int| 0 <= q < s.len() ==> s[q] != c,
    ensures
        before_char(s, c) == s,
    decreases s.len(),
{
    if s.len() > 0 {
        lemma_before_char_none(s.drop_first(), c);
        assert(seq![s[0]] + s.drop_first() =~= s);
    }
}

/// The text after `skip` characters up to the first `/`.
fn authority_after(url: &str, skip: usize) -> (a: Vec<char>)
    requires
        skip <= url@.len(),
    ensures
        a@ == before_char(url@.skip(skip as int), '/'),
{
    let n = url.unicode_len();
    let ghost rest = url@.skip(skip as int);
    let mut a: Vec<char> = Vec::new();
    let mut k: usize = skip;
    while k < n
        invariant
            n == url@.len(),
            skip <= k <= n,
            rest == url@.skip(skip as int),
            a@ == rest.subrange(0, k - skip),
            forall|q: int| 0 <= q < k - skip ==> rest[q] != '/',
        decreases n - k,
    {
        let c = url.get_char(k);
        proof {
            lemma_before_char_step(rest, k - skip, '/');
        }
        if c == '/' {
            return a;
        }
        a.push(c);
        k = k + 1;
        assert(a@ =~= rest.subrange(0, k - skip));
    }
    proof {
        lemma_before_char_none(rest, '/');
        assert(rest.subrange(0, n - skip) =~= rest);
    }
    a
}

fn valid_instance_url(url: &str) -> (b: bool)
    ensures
        b == is_valid_instance_url(url@),
{
    proof {
        reveal_strlit("https://");
        reveal_strlit("http://");
    }
    let authority = if crate::text::starts_with(url, "https://") {
        authority_after(url, 8)
    } else if crate::text::starts_with(url, "http://") {
        authority_after(url, 7)
    } else {
        return false;
    };
    if authority.len() == 0 {
        return false;
    }
    let mut k: usize = 0;
    while k < authority.len()
        invariant
            k <= authority@.len(),
            url_authority(url@) == Some(authority@),
            forall|q: int| 0 <= q < k ==> authority@[q] != '@',
        decreases authority@.len() - k,
    {
        if authority[k] == '@' {
            assert(authority@.contains('@'));
            return false;
        }
        k = k + 1;
    }
    assert(!authority@.contains('@'));
    let n = url.unicode_len();
    let mut k: usize = 0;
    while k < n
        invariant
            n == url@.len(),
            k <= n,
            forall|q: int| 0 <= q < k ==> !is_unicode_whitespace(#[trigger] url@[q]),
            forall|q: int| 0 <= q < k ==> url@[q] != '?' && url@[q] != '#',
        decreases n - k,
    {
        let c = url.get_char(k);
        if whitespace(c) {
            return false;
        }
        if c == '?' {
            assert(url@.contains('?'));
            return false;
        }
        if c == '#' {
            assert(url@.contains('#'));
            return false;
        }
        k = k + 1;
    }
    true
}

fn validate_gitlab_provider(
    errors: &mut Vec<WorkspaceValidationIssue>,
    path: &str,
    provider: &ProviderConfig,
)
    ensures
        issues_view(final(errors)@) == issues_view(old(errors)@) + gitlab_issues(
            path@,
            *provider,
        ),
{
    let ghost start = issues_view(errors@);
    if !valid_instance_url(provider.instance_url()) {
        push_issue(
            errors,
            concat(path, ".instance_url"),
            owned(
                "GitLab instance URL must be an HTTP(S) base URL without credentials, query or fragment",
            ),
        );
    } else {
        assert(issues_view(errors@) =~= issues_view(errors@) + none());
    }
    let ghost after_url = issues_view(errors@);
    let projects = provider.projects();
    let mut k: usize = 0;
    while k < projects.len()
        invariant
            projects@ == provider->projects@,
            k <= projects@.len(),
            issues_view(errors@) == after_url + projects_issues(path@, projects@, k as int),
        decreases projects@.len() - k,
    {
        let ghost before = issues_view(errors@);
        let project_path = {
            let mut p = owned(path);
            let suffix = indexed_path(".projects", k, "");
            push_str(&mut p, suffix.as_str());
            p
        };
        validate_name(errors, project_path.as_str(), projects[k].as_str(), "GitLab project path");
        let mut j: usize = 0;
        let mut seen = false;
        while j < k
            invariant
                k < projects@.len(),
                j <= k,
                !seen ==> forall|q: int| 0 <= q < j ==> #[trigger] projects@[q]@ != projects@[k as int]@,
                seen ==> project_seen(projects@, k as int),
            decreases k - j,
        {
            if projects[j] == projects[k] {
                seen = true;
            }
            j = j + 1;
        }
        if seen {
            push_issue(
                errors,
                project_path,
                quoted_message("duplicate GitLab project ", projects[k].as_str()),
            );
        } else {
            assert(issues_view(errors@) =~= issues_view(errors@) + none());
        }
        proof {
            assert(indexed(".projects"@, k as int) + ""@ =~= indexed(".projects"@, k as int)) by {
                reveal_strlit("");
            }
            assert(issues_view(errors@) =~= before + project_issues_at(path@, projects@, k as int));
        }
        k = k + 1;
    }
    assert(issues_view(errors@) =~= start + gitlab_issues(path@, *provider));
}

fn validate_provider(errors: &mut Vec<WorkspaceValidationIssue>, config: &WorkspaceConfig, i: usize)
    requires
        i < config.providers@.len(),
    ensures
        issues_view(final(errors)@) == issues_view(old(errors)@) + provider_issues_at(
            *config,
            i as int,
        ),
{
    let ghost start = issues_view(errors@);
    let provider = &config.providers[i];
    let id_path = indexed_path("providers", i, ".id");
    validate_id(errors, id_path.as_str(), provider.id().as_str(), "provider id");
    let mut j: usize = 0;
    let mut seen = false;
    while j < i
        invariant
            i < config.providers@.len(),
            j <= i,
            provider == config.providers@[i as int],
            !seen ==> forall|q: int|
                0 <= q < j ==> (#[trigger] config.providers@[q])->id@ != provider->id@,
            seen ==> provider_id_seen(*config, i as int),
        decreases i - j,
    {
        if config.providers[j].id().0 == provider.id().0 {
            seen = true;
        }
        j = j + 1;
    }
    if seen {
        push_issue(
            errors,
            id_path,
            quoted_message("duplicate provider id ", provider.id().as_str()),
        );
    } else {
        assert(issues_view(errors@) =~= issues_view(errors@) + none());
    }
    let path = indexed_path("providers", i, "");
    proof {
        reveal_strlit("");
        assert(path@ =~= indexed("providers"@, i as int));
    }
    validate_gitlab_provider(errors, path.as_str(), provider);
    assert(issues_view(errors@) =~= start + provider_issues_at(*config, i as int));
}

#[verifier::rlimit(40)]
fn validate_mapping(errors: &mut Vec<WorkspaceValidationIssue>, config: &WorkspaceConfig, i: usize)
    requires
        i < config.status_mappings@.len(),
    ensures
        issues_view(final(errors)@) == issues_view(old(errors)@) + mapping_issues_at(
            *config,
            i as int,
        ),
{
    let ghost start = issues_view(errors@);
    let mapping = &config.status_mappings[i];
    let provider_path = indexed_path("status_mappings", i, ".provider_id");
    validate_id(errors, provider_path.as_str(), mapping.provider_id.as_str(), "provider id");
    let column_path = indexed_path("status_mappings", i, ".column_id");
    validate_id(errors, column_path.as_str(), mapping.column_id.as_str(), "column id");
    let status_path = indexed_path("status_mappings", i, ".provider_status");
    validate_name(
        errors,
        status_path.as_str(),
        mapping.provider_status.as_str(),
        "provider status",
    );
    if !has_provider_id(config, &mapping.provider_id) {
        push_issue(
            errors,
            provider_path,
            quoted_message("unknown provider id ", mapping.provider_id.as_str()),
        );
    } else {
        assert(issues_view(errors@) =~= issues_view(errors@) + none());
    }
    if !has_column_id(config, &mapping.column_id) {
        push_issue(
            errors,
            column_path,
            quoted_message("unknown column id ", mapping.column_id.as_str()),
        );
    } else {
        assert(issues_view(errors@) =~= issues_view(errors@) + none());
    }
    let mut j: usize = 0;
    let mut seen = false;
    while j < i
        invariant
            i < config.status_mappings@.len(),
            j <= i,
            mapping == config.status_mappings@[i as int],
            !seen ==> forall|q: int|
                0 <= q < j ==> !((#[trigger] config.status_mappings@[q]).provider_id@
                    == mapping.provider_id@ && config.status_mappings@[q].provider_status@
                    == mapping.provider_status@),
            seen ==> status_seen(*config, i as int),
        decreases i - j,
    {
        let other = &config.status_mappings[j];
        if other.provider_id.0 == mapping.provider_id.0 && other.provider_status
            == mapping.provider_status {
            seen = true;
        }
        j = j + 1;
    }
    if seen {
        let mut message = quoted_message("provider status ", mapping.provider_status.as_str());
        let rest = quoted_message(" is mapped more than once for ", mapping.provider_id.as_str());
        push_str(&mut message, rest.as_str());
        let p = indexed_path("status_mappings", i, "");
        proof {
            reveal_strlit("");
            assert(p@ =~= indexed("status_mappings"@, i as int));
        }
        push_issue(errors, p, message);
    } else {
        assert(issues_view(errors@) =~= issues_view(errors@) + none());
    }
    assert(issues_view(errors@) =~= start + mapping_issues_at(*config, i as int));
}

fn tag_char(c: char) -> (b: bool)
    ensures
        b == is_tag_char(c),
{
    ascii_alnum(c) || c == '_' || c == '-'
}

fn valid_tag(tag: &str) -> (b: bool)
    ensures
        b == is_valid_tag(tag@),
{
    let n = tag.unicode_len();
    if n == 0 {
        return false;
    }
    let mut k: usize = 0;
    while k < n
        invariant
            n == tag@.len(),
            k <= n,
            forall|q: int| 0 <= q < k ==> is_tag_char(#[trigger] tag@[q]),
        decreases n - k,
    {
        if !tag_char(tag.get_char(k)) {
            return false;
        }
        k = k + 1;
    }
    true
}

/// Whether two strings are equal ignoring ASCII case.
pub fn same_ignoring_ascii_case(a: &str, b: &str) -> (r: bool)
    ensures
        r == (ascii_upper(a@) == ascii_upper(b@)),
{
    let n = a.unicode_len();
    if n != b.unicode_len() {
        assert(ascii_upper(a@).len() != ascii_upper(b@).len());
        return false;
    }
    let mut k: usize = 0;
    while k < n
        invariant
            n == a@.len(),
            n == b@.len(),
            k <= n,
            forall|q: int| 0 <= q < k ==> ascii_upper(a@)[q] == ascii_upper(b@)[q],
        decreases n - k,
    {
        if to_ascii_upper(a.get_char(k)) != to_ascii_upper(b.get_char(k)) {
            assert(ascii_upper(a@)[k as int] != ascii_upper(b@)[k as int]);
            return false;
        }
        k = k + 1;
    }
    assert(ascii_upper(a@) =~= ascii_upper(b@));
    true
}

fn validate_tag(errors: &mut Vec<WorkspaceValidationIssue>, config: &WorkspaceConfig, i: usize)
    requires
        i < config.annotation_tags@.len(),
    ensures
        issues_view(final(errors)@) == issues_view(old(errors)@) + tag_issues_at(
            *config,
            i as int,
        ),
{
    let ghost start = issues_view(errors@);
    let mapping = &config.annotation_tags[i];
    let tag_path = indexed_path("annotation_tags", i, ".tag");
    if !valid_tag(mapping.tag.as_str()) {
        push_issue(
            errors,
            tag_path,
            owned("annotation tag must contain only ASCII letters, digits, '_' or '-'"),
        );
    } else {
        let mut j: usize = 0;
        let mut seen = false;
        while j < i
            invariant
                i < config.annotation_tags@.len(),
                j <= i,
                mapping == config.annotation_tags@[i as int],
                !seen ==> forall|q: int|
                    0 <= q < j ==> !(is_valid_tag((#[trigger] config.annotation_tags@[q]).tag@)
                        && ascii_upper(config.annotation_tags@[q].tag@) == ascii_upper(
                        mapping.tag@,
                    )),
                seen ==> tag_seen(*config, i as int),
            decreases i - j,
        {
            let other = &config.annotation_tags[j];
            if valid_tag(other.tag.as_str()) && same_ignoring_ascii_case(
                other.tag.as_str(),
                mapping.tag.as_str(),
            ) {
                seen = true;
            }
            j = j + 1;
        }
        if seen {
            push_issue(
                errors,
                tag_path,
                quoted_message("duplicate annotation tag ", mapping.tag.as_str()),
            );
        } else {
            assert(issues_view(errors@) =~= issues_view(errors@) + none());
        }
    }
    let ghost after_tag = issues_view(errors@);
    if !has_column_id(config, &mapping.column_id) {
        let column_path = indexed_path("annotation_tags", i, ".column_id");
        push_issue(
            errors,
            column_path,
            quoted_message("unknown column id ", mapping.column_id.as_str()),
        );
    } else {
        assert(issues_view(errors@) =~= issues_view(errors@) + none());
    }
    assert(issues_view(errors@) =~= start + tag_issues_at(*config, i as int));
}

impl WorkspaceConfig {
    /// Checks the whole configuration and reports every problem found.
    #[verifier::loop_isolation(true)]
    pub fn validate(&self) -> (r: Result<(), WorkspaceValidationErrors>)
        ensures
            r is Ok <==> workspace_issues(*self).len() == 0,
            r matches Err(e) ==> e.spec_issues() == workspace_issues(*self),
    {
        let mut errors: Vec<WorkspaceValidationIssue> = Vec::new();
        if self.schema_version != WORKSPACE_SCHEMA_VERSION {
            let mut message = owned("unsupported schema version ");
            push_decimal(&mut message, self.schema_version as u128);
            push_str(&mut message, "; expected ");
            push_decimal(&mut message, WORKSPACE_SCHEMA_VERSION as u128);
            push_issue(&mut errors, owned("schema_version"), message);
        }
        if self.id.is_nil() {
            push_issue(&mut errors, owned("id"), owned("workspace UUID must not be nil"));
        }
        validate_name(&mut errors, "name", self.name.as_str(), "workspace name");
        let ghost head = issues_view(errors@);
        proof {
            assert(head =~= (if self.schema_version != WORKSPACE_SCHEMA_VERSION {
                one(
                    "schema_version"@,
                    "unsupported schema version "@ + decimal(self.schema_version as nat)
                        + "; expected "@ + decimal(WORKSPACE_SCHEMA_VERSION as nat),
                )
            } else {
                none()
            }) + (if self.id.0 == 0 {
                one("id"@, "workspace UUID must not be nil"@)
            } else {
                none()
            }) + name_issues("name"@, self.name@, "workspace name"@));
        }
        let mut i: usize = 0;
        while i < self.repositories.len()
            invariant
                i <= self.repositories@.len(),
                issues_view(errors@) == head + repositories_issues(*self, i as int),
            decreases self.repositories@.len() - i,
        {
            validate_repository(&mut errors, self, i);
            i = i + 1;
            assert(issues_view(errors@) =~= head + repositories_issues(*self, i as int));
        }
        if self.columns.len() == 0 {
            push_issue(&mut errors, owned("columns"), owned("at least one column is required"));
        }
        let ghost head2 = issues_view(errors@);
        let mut i: usize = 0;
        while i < self.columns.len()
            invariant
                i <= self.columns@.len(),
                issues_view(errors@) == head2 + columns_issues(*self, i as int),
            decreases self.columns@.len() - i,
        {
            validate_column(&mut errors, self, i);
            i = i + 1;
            assert(issues_view(errors@) =~= head2 + columns_issues(*self, i as int));
        }
        let ghost head3 = issues_view(errors@);
        let mut i: usize = 0;
        while i < self.providers.len()
            invariant
                i <= self.providers@.len(),
                issues_view(errors@) == head3 + providers_issues(*self, i as int),
            decreases self.providers@.len() - i,
        {
            validate_provider(&mut errors, self, i);
            i = i + 1;
            assert(issues_view(errors@) =~= head3 + providers_issues(*self, i as int));
        }
        let ghost head4 = issues_view(errors@);
        let mut i: usize = 0;
        while i < self.status_mappings.len()
            invariant
                i <= self.status_mappings@.len(),
                issues_view(errors@) == head4 + mappings_issues(*self, i as int),
            decreases self.status_mappings@.len() - i,
        {
            validate_mapping(&mut errors, self, i);
            i = i + 1;
            assert(issues_view(errors@) =~= head4 + mappings_issues(*self, i as int));
        }
        let ghost head5 = issues_view(errors@);
        let mut i: usize = 0;
        while i < self.annotation_tags.len()
            invariant
                i <= self.annotation_tags@.len(),
                issues_view(errors@) == head5 + tags_issues(*self, i as int),
            decreases self.annotation_tags@.len() - i,
        {
            validate_tag(&mut errors, self, i);
            i = i + 1;
            assert(issues_view(errors@) =~= head5 + tags_issues(*self, i as int));
        }
        assert(issues_view(errors@) =~= workspace_issues(*self));
        if errors.len() == 0 {
            Ok(())
        } else {
            Err(WorkspaceValidationErrors::new(errors))
        }
    }
}


proof fn lemma_before_char_absent(s: Seq<char>, c: char)
    requires
        !s.contains(c),
    ensures
        before_char(s, c) == s,
    decreases s.len(),
{
    if s.len() > 0 {
        assert(!s.drop_first().contains(c)) by {
            if s.drop_first().contains(c) {
                let k = choose|k: int| 0 <= k < s.drop_first().len() && s.drop_first()[k] == c;
                assert(s[k + 1] == c);
            }
        }
        lemma_before_char_absent(s.drop_first(), c);
        assert(seq![s[0]] + s.drop_first() =~= s);
    }
}

proof fn lemma_instance_url_with_scheme(scheme: Seq<char>, a: Seq<char>)
    requires
        scheme == "http://"@ || scheme == "https://"@,
        a.len() > 0,
        !a.contains('/'),
        !a.contains('@'),
        !a.contains('?'),
        !a.contains('#'),
        forall|k: int| 0 <= k < a.len() ==> !is_unicode_whitespace(#[trigger] a[k]),
    ensures
        url_authority(scheme + a) == Some(a),
        is_valid_instance_url(scheme + a),
{
    reveal_strlit("http://");
    reveal_strlit("https://");
    let url = scheme + a;
    assert(url.skip(scheme.len() as int) =~= a);
    lemma_before_char_absent(a, '/');
    if scheme == "http://"@ {
        assert(url[4] == ':');
        assert(!starts_with(url, "https://"@)) by {
            if starts_with(url, "https://"@) {
                assert(url.subrange(0, 8)[4] == 's');
            }
        }
        assert(starts_with(url, "http://"@)) by {
            assert(url.subrange(0, 7) =~= scheme);
        }
    } else {
        assert(starts_with(url, "https://"@)) by {
            assert(url.subrange(0, 8) =~= scheme);
        }
    }
    assert forall|k: int| 0 <= k < url.len() implies !is_unicode_whitespace(#[trigger] url[k]) by {
        if k >= scheme.len() {
            assert(url[k] == a[k - scheme.len()]);
        }
    }
    assert(!url.contains('?')) by {
        if url.contains('?') {
            let k = choose|k: int| 0 <= k < url.len() && url[k] == '?';
            if k >= scheme.len() {
                assert(a[k - scheme.len()] == '?');
            }
        }
    }
    assert(!url.contains('#')) by {
        if url.contains('#') {
            let k = choose|k: int| 0 <= k < url.len() && url[k] == '#';
            if k >= scheme.len() {
                assert(a[k - scheme.len()] == '#');
            }
        }
    }
}

/// A GitLab instance may be given with `http://` as well as `https://`: whatever the scheme,
/// a URL whose authority is non-empty and holds no '/', '@', whitespace, '?' or '#' is a
/// valid instance URL, and its authority is that text.
pub proof fn lemma_http_and_https_instance_urls(a: Seq<char>)
    requires
        a.len() > 0,
        !a.contains('/'),
        !a.contains('@'),
        !a.contains('?'),
        !a.contains('#'),
        forall|k: int| 0 <= k < a.len() ==> !is_unicode_whitespace(#[trigger] a[k]),
    ensures
        url_authority("http://"@ + a) == Some(a),
        is_valid_instance_url("http://"@ + a),
        url_authority("https://"@ + a) == Some(a),
        is_valid_instance_url("https://"@ + a),
{
    lemma_instance_url_with_scheme("http://"@, a);
    lemma_instance_url_with_scheme("https://"@, a);
}

/// Only web URLs are instance URLs: a valid one starts with `http://` or `https://`, holds no
/// whitespace, '?' or '#', and names a non-empty host without credentials right after the
/// scheme.
pub proof fn lemma_instance_urls_are_web_urls(url: Seq<char>)
    requires
        is_valid_instance_url(url),
    ensures
        starts_with(url, "http://"@) || starts_with(url, "https://"@),
        !url.contains('?'),
        !url.contains('#'),
        forall|k: int| 0 <= k < url.len() ==> !is_unicode_whitespace(#[trigger] url[k]),
        url_authority(url) matches Some(a) && a.len() > 0 && !a.contains('@') && !a.contains('/'),
{
    let a = url_authority(url)->Some_0;
    let rest = if starts_with(url, "https://"@) {
        url.skip("https://"@.len() as int)
    } else {
        url.skip("http://"@.len() as int)
    };
    lemma_before_char_stops(rest, '/');
}

proof fn lemma_before_char_stops(s: Seq<char>, c: char)
    ensures
        !before_char(s, c).contains(c),
    decreases s.len(),
{
    if s.len() > 0 && s[0] != c {
        lemma_before_char_stops(s.drop_first(), c);
        let t = before_char(s.drop_first(), c);
        assert(!(seq![s[0]] + t).contains(c)) by {
            if (seq![s[0]] + t).contains(c) {
                let k = choose|k: int| 0 <= k < (seq![s[0]] + t).len() && (seq![s[0]] + t)[k] == c;
                if k > 0 {
                    assert(t[k - 1] == c);
                }
            }
        }
    }
}

} // verus!
