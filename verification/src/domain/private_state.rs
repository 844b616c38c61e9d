//! Per-user workspace state kept outside the repository: cards, UI state, caches and the
//! sync queue.

use vstd::prelude::*;

use crate::text::{owned, push_char, push_str, trim, trim_str};

use super::annotation::CodeAnnotation;
use super::ids::{uuid_text, CardId, ColumnId, WorkspaceId};
use super::provider::ProviderId;
use super::task::TaskPriority;
use super::workspace::quoted;

verus! {

pub const PRIVATE_SCHEMA_VERSION: u32 = 1;

/// A card as stored in the private cards file.
#[derive(Debug, PartialEq, Eq)]
pub struct LocalCard {
    pub id: CardId,
    pub title: String,
    pub description: String,
    pub priority: TaskPriority,
    pub column_id: ColumnId,
    pub archived: bool,
    /// Archived because every annotation linked to it disappeared, not by the user.
    pub archived_by_sync: bool,
}

impl Clone for LocalCard {
    fn clone(&self) -> (r: Self)
        ensures
            r == *self,
    {
        LocalCard {
            id: self.id,
            title: self.title.clone(),
            description: self.description.clone(),
            priority: self.priority,
            column_id: self.column_id.clone(),
            archived: self.archived,
            archived_by_sync: self.archived_by_sync,
        }
    }
}

/// The card order of one column.
#[derive(Debug, PartialEq, Eq)]
pub struct OrderingEntry {
    pub column_id: ColumnId,
    pub cards: Vec<CardId>,
}

impl Clone for OrderingEntry {
    fn clone(&self) -> (r: Self)
        ensures
            r.column_id == self.column_id,
            r.cards@ == self.cards@,
    {
        let cards = self.cards.clone();
        assert(cards@ =~= self.cards@);
        OrderingEntry { column_id: self.column_id.clone(), cards }
    }
}

/// The private cards file: every card, the order of the active cards per column (by column
/// id, as a sorted map), and the tracked annotations.
#[derive(Debug, PartialEq, Eq)]
pub struct CardsFile {
    pub schema_version: u32,
    pub workspace_id: WorkspaceId,
    pub cards: Vec<LocalCard>,
    pub ordering: Vec<OrderingEntry>,
    pub annotations: Vec<CodeAnnotation>,
}

/// Why a private file is refused.
#[derive(Debug, PartialEq, Eq)]
pub enum PrivateStateError {
    UnsupportedSchemaVersion { found: u32 },
    WorkspaceMismatch { expected: WorkspaceId, found: WorkspaceId },
    Invalid(String),
}

/// The meaning of a `PrivateStateError`, with the message as text.
pub enum StateProblem {
    UnsupportedSchemaVersion { found: u32 },
    WorkspaceMismatch { expected: WorkspaceId, found: WorkspaceId },
    Invalid(Seq<char>),
}

pub open spec fn problem_of(e: PrivateStateError) -> StateProblem {
    match e {
        PrivateStateError::UnsupportedSchemaVersion { found } => StateProblem::UnsupportedSchemaVersion {
            found,
        },
        PrivateStateError::WorkspaceMismatch { expected, found } => StateProblem::WorkspaceMismatch {
            expected,
            found,
        },
        PrivateStateError::Invalid(m) => StateProblem::Invalid(m@),
    }
}

/// The schema version must be current and the file must belong to the expected workspace.
pub open spec fn header_problem(schema_version: u32, found: WorkspaceId, expected: WorkspaceId) -> Option<
    StateProblem,
> {
    if schema_version != PRIVATE_SCHEMA_VERSION {
        Some(StateProblem::UnsupportedSchemaVersion { found: schema_version })
    } else if found != expected {
        Some(StateProblem::WorkspaceMismatch { expected, found })
    } else {
        None
    }
}

fn validate_header(schema_version: u32, found: WorkspaceId, expected: WorkspaceId) -> (r: Result<
    (),
    PrivateStateError,
>)
    ensures
        r is Ok <==> header_problem(schema_version, found, expected) is None,
        r matches Err(e) ==> header_problem(schema_version, found, expected) == Some(
            problem_of(e),
        ),
{
    if schema_version != PRIVATE_SCHEMA_VERSION {
        return Err(PrivateStateError::UnsupportedSchemaVersion { found: schema_version });
    }
    if found != expected {
        return Err(PrivateStateError::WorkspaceMismatch { expected, found });
    }
    Ok(())
}

/// `card '<id>'` followed by `rest`.
pub open spec fn card_text(id: CardId, rest: Seq<char>) -> Seq<char> {
    quoted("card "@, uuid_text(id.0)) + rest
}

pub open spec fn card_seen(cards: Seq<LocalCard>, i: int) -> bool {
    exists|j: int| 0 <= j < i && (#[trigger] cards[j]).id == cards[i].id
}

/// What is wrong with card `i` on its own: a nil id, an id used before, or an empty title.
pub open spec fn card_problem(cards: Seq<LocalCard>, i: int) -> Option<Seq<char>> {
    let c = cards[i];
    if c.id.0 == 0 {
        Some("card UUID must not be nil"@)
    } else if card_seen(cards, i) {
        Some(quoted("duplicate card id "@, uuid_text(c.id.0)))
    } else if trim(c.title@).len() == 0 {
        Some(card_text(c.id, " has an empty title"@))
    } else {
        None
    }
}

pub open spec fn first_card_problem(cards: Seq<LocalCard>, n: int) -> Option<Seq<char>>
    decreases n,
{
    if n <= 0 {
        None
    } else {
        match first_card_problem(cards, n - 1) {
            Some(m) => Some(m),
            None => card_problem(cards, n - 1),
        }
    }
}

/// The `(column, card)` pairs of an ordering, column by column.
pub open spec fn ordered_pairs(entries: Seq<OrderingEntry>) -> Seq<(Seq<char>, CardId)>
    decreases entries.len(),
{
    if entries.len() == 0 {
        Seq::empty()
    } else {
        let e = entries.last();
        ordered_pairs(entries.drop_last()) + e.cards@.map_values(
            |id: CardId| (e.column_id@, id),
        )
    }
}

pub open spec fn has_card(cards: Seq<LocalCard>, id: CardId) -> bool {
    exists|j: int| 0 <= j < cards.len() && (#[trigger] cards[j]).id == id
}

/// The card with the given id (the only one, once ids are known to be distinct).
pub open spec fn card_with(cards: Seq<LocalCard>, id: CardId) -> LocalCard {
    cards[choose|j: int| 0 <= j < cards.len() && (#[trigger] cards[j]).id == id]
}

pub open spec fn pair_seen(pairs: Seq<(Seq<char>, CardId)>, p: int) -> bool {
    exists|q: int| 0 <= q < p && (#[trigger] pairs[q]).1 == pairs[p].1
}

/// What is wrong with ordering pair `p`: an unknown card, a card ordered twice, an
/// archived card, or a card ordered under another column than its own.
pub open spec fn pair_problem(cards: Seq<LocalCard>, pairs: Seq<(Seq<char>, CardId)>, p: int) -> Option<
    Seq<char>,
> {
    let (column, id) = pairs[p];
    if !has_card(cards, id) {
        Some(quoted("ordering references unknown card "@, uuid_text(id.0)))
    } else if pair_seen(pairs, p) {
        Some(card_text(id, " appears more than once in ordering"@))
    } else if card_with(cards, id).archived {
        Some(quoted("archived card "@, uuid_text(id.0)) + " must not appear in ordering"@)
    } else if card_with(cards, id).column_id@ != column {
        Some(
            card_text(id, quoted(" is ordered under column "@, column)) + quoted(
                " but belongs to "@,
                card_with(cards, id).column_id@,
            ),
        )
    } else {
        None
    }
}

pub open spec fn first_pair_problem(
    cards: Seq<LocalCard>,
    pairs: Seq<(Seq<char>, CardId)>,
    n: int,
) -> Option<Seq<char>>
    decreases n,
{
    if n <= 0 {
        None
    } else {
        match first_pair_problem(cards, pairs, n - 1) {
            Some(m) => Some(m),
            None => pair_problem(cards, pairs, n - 1),
        }
    }
}

pub open spec fn is_ordered(pairs: Seq<(Seq<char>, CardId)>, id: CardId) -> bool {
    exists|q: int| 0 <= q < pairs.len() && (#[trigger] pairs[q]).1 == id
}

/// An active card missing from the ordering.
pub open spec fn missing_problem(cards: Seq<LocalCard>, pairs: Seq<(Seq<char>, CardId)>, i: int) -> Option<
    Seq<char>,
> {
    if !cards[i].archived && !is_ordered(pairs, cards[i].id) {
        Some(quoted("active card "@, uuid_text(cards[i].id.0)) + " is missing from ordering"@)
    } else {
        None
    }
}

pub open spec fn first_missing_problem(
    cards: Seq<LocalCard>,
    pairs: Seq<(Seq<char>, CardId)>,
    n: int,
) -> Option<Seq<char>>
    decreases n,
{
    if n <= 0 {
        None
    } else {
        match first_missing_problem(cards, pairs, n - 1) {
            Some(m) => Some(m),
            None => missing_problem(cards, pairs, n - 1),
        }
    }
}

/// The first problem of a cards file, checked in order: header, cards, ordering, missing
/// active cards.
pub open spec fn cards_file_problem(f: CardsFile, expected: WorkspaceId) -> Option<StateProblem> {
    let pairs = ordered_pairs(f.ordering@);
    match header_problem(f.schema_version, f.workspace_id, expected) {
        Some(p) => Some(p),
        None => match first_card_problem(f.cards@, f.cards@.len() as int) {
            Some(m) => Some(StateProblem::Invalid(m)),
            None => match first_pair_problem(f.cards@, pairs, pairs.len() as int) {
                Some(m) => Some(StateProblem::Invalid(m)),
                None => match first_missing_problem(f.cards@, pairs, f.cards@.len() as int) {
                    Some(m) => Some(StateProblem::Invalid(m)),
                    None => None,
                },
            },
        },
    }
}

fn invalid(m: String) -> (e: PrivateStateError)
    ensures
        problem_of(e) == StateProblem::Invalid(m@),
{
    PrivateStateError::Invalid(m)
}

fn quoted_id(before: &str, id: CardId, after: &str) -> (r: String)
    ensures
        r@ == quoted(before@, uuid_text(id.0)) + after@,
{
    let mut r = owned(before);
    push_char(&mut r, '\'');
    let text = id.text();
    push_str(&mut r, text.as_str());
    push_char(&mut r, '\'');
    push_str(&mut r, after);
    assert(r@ =~= quoted(before@, uuid_text(id.0)) + after@);
    r
}

fn quoted_card(before: &str, id: CardId) -> (r: String)
    ensures
        r@ == quoted(before@, uuid_text(id.0)),
{
    let mut r = owned(before);
    push_char(&mut r, '\'');
    let text = id.text();
    push_str(&mut r, text.as_str());
    push_char(&mut r, '\'');
    assert(r@ =~= quoted(before@, uuid_text(id.0)));
    r
}

proof fn lemma_pairs_step(entries: Seq<OrderingEntry>, e: int)
    requires
        0 <= e < entries.len(),
    ensures
        ordered_pairs(entries.subrange(0, e + 1)) == ordered_pairs(entries.subrange(0, e))
            + entries[e].cards@.map_values(|id: CardId| (entries[e].column_id@, id)),
{
    assert(entries.subrange(0, e + 1).drop_last() =~= entries.subrange(0, e));
}

impl CardsFile {
    /// An empty cards file for a workspace.
    pub fn empty(workspace_id: WorkspaceId) -> (f: Self)
        ensures
            f.schema_version == PRIVATE_SCHEMA_VERSION,
            f.workspace_id == workspace_id,
            f.cards@.len() == 0,
            f.ordering@.len() == 0,
            f.annotations@.len() == 0,
    {
        CardsFile {
            schema_version: PRIVATE_SCHEMA_VERSION,
            workspace_id,
            cards: Vec::new(),
            ordering: Vec::new(),
            annotations: Vec::new(),
        }
    }

    /// Checks that the file belongs to the workspace and that its cards and ordering agree.
    #[verifier::loop_isolation(false)]
    pub fn validate_for(&self, workspace_id: WorkspaceId) -> (r: Result<(), PrivateStateError>)
        ensures
            r is Ok <==> cards_file_problem(*self, workspace_id) is None,
            r matches Err(e) ==> cards_file_problem(*self, workspace_id) == Some(problem_of(e)),
    {
        validate_header(self.schema_version, self.workspace_id, workspace_id)?;
        let cards = &self.cards;
        let n = cards.len();
        let mut i: usize = 0;
        while i < n
            invariant
                i <= n,
                first_card_problem(cards@, i as int) is None,
            decreases n - i,
        {
            let card = &cards[i];
            if card.id.is_nil() {
                proof {
                    lemma_first_card_extends(cards@, i as int, n as int);
                }
                return Err(invalid(owned("card UUID must not be nil")));
            }
            let mut j: usize = 0;
            while j < i
                invariant
                    j <= i,
                    forall|q: int| 0 <= q < j ==> (#[trigger] cards@[q]).id != card.id,
                decreases i - j,
            {
                if cards[j].id == card.id {
                    assert(card_seen(cards@, i as int));
                    proof {
                        lemma_first_card_extends(cards@, i as int, n as int);
                    }
                    return Err(invalid(quoted_card("duplicate card id ", card.id)));
                }
                j = j + 1;
            }
            if trim_str(card.title.as_str()).is_empty() {
                proof {
                    lemma_first_card_extends(cards@, i as int, n as int);
                }
                return Err(invalid(quoted_id("card ", card.id, " has an empty title")));
            }
            i = i + 1;
        }
        proof {
            assert forall|a: int, b: int| 0 <= a < b < n implies (#[trigger] cards@[a]).id
                != (#[trigger] cards@[b]).id by {
                lemma_first_none_prefix(cards@, n as int, b + 1);
                if cards@[a].id == cards@[b].id {
                    assert(card_seen(cards@, b));
                }
            }
        }
        let ghost pairs = ordered_pairs(self.ordering@);
        let flat = flatten_ordering(&self.ordering);
        let m = flat.len();
        let mut p: usize = 0;
        while p < m
            invariant
                p <= m,
                first_pair_problem(cards@, pairs, p as int) is None,
            decreases m - p,
        {
            let (entry_index, id) = flat[p];
            let column_id = &self.ordering[entry_index].column_id;
            let mut j: usize = 0;
            let mut found: usize = n;
            while j < n
                invariant
                    j <= n,
                    found <= n,
                    found == n ==> forall|q: int| 0 <= q < j ==> (#[trigger] cards@[q]).id != id,
                    found < n ==> found < j && cards@[found as int].id == id,
                decreases n - j,
            {
                if found == n && cards[j].id == id {
                    found = j;
                }
                j = j + 1;
            }
            if found == n {
                proof {
                    lemma_first_pair_extends(cards@, pairs, p as int, m as int);
                }
                return Err(invalid(quoted_card("ordering references unknown card ", id)));
            }
            proof {
                assert(cards@[found as int].id == id);
                assert(has_card(cards@, id));
                let c = choose|j: int| 0 <= j < cards@.len() && (#[trigger] cards@[j]).id == id;
                if c != found as int {
                    if c < found as int {
                        assert(cards@[c].id != cards@[found as int].id);
                    } else {
                        assert(cards@[found as int].id != cards@[c].id);
                    }
                }
            }
            let mut q: usize = 0;
            while q < p
                invariant
                    q <= p,
                    forall|r: int| 0 <= r < q ==> (#[trigger] pairs[r]).1 != id,
                decreases p - q,
            {
                if flat[q].1 == id {
                    proof {
                        assert(pair_seen(pairs, p as int));
                        lemma_first_pair_extends(cards@, pairs, p as int, m as int);
                    }
                    return Err(invalid(quoted_id("card ", id, " appears more than once in ordering")));
                }
                q = q + 1;
            }
            let card = &cards[found];
            if card.archived {
                proof {
                    lemma_first_pair_extends(cards@, pairs, p as int, m as int);
                }
                return Err(invalid(quoted_id("archived card ", id, " must not appear in ordering")));
            }
            if !card.column_id.same(column_id) {
                let mut message = quoted_card("card ", id);
                let a = super::workspace::quoted_message(" is ordered under column ", column_id.as_str());
                push_str(&mut message, a.as_str());
                let b = super::workspace::quoted_message(" but belongs to ", card.column_id.as_str());
                push_str(&mut message, b.as_str());
                proof {
                    lemma_first_pair_extends(cards@, pairs, p as int, m as int);
                    assert(message@ =~= card_text(id, quoted(" is ordered under column "@, column_id@))
                        + quoted(" but belongs to "@, card.column_id@));
                }
                return Err(invalid(message));
            }
            p = p + 1;
        }
        let mut i: usize = 0;
        while i < n
            invariant
                i <= n,
                first_missing_problem(cards@, pairs, i as int) is None,
            decreases n - i,
        {
            let card = &cards[i];
            if !card.archived {
                let mut q: usize = 0;
                let mut ordered = false;
                while q < m
                    invariant
                        q <= m,
                        !ordered ==> forall|r: int| 0 <= r < q ==> (#[trigger] pairs[r]).1 != card.id,
                        ordered ==> is_ordered(pairs, card.id),
                    decreases m - q,
                {
                    if flat[q].1 == card.id {
                        ordered = true;
                    }
                    q = q + 1;
                }
                if !ordered {
                    proof {
                        lemma_first_missing_extends(cards@, pairs, i as int, n as int);
                    }
                    return Err(invalid(quoted_id("active card ", card.id, " is missing from ordering")));
                }
            }
            i = i + 1;
        }
        Ok(())
    }
}

/// The ordering pairs with, for each, the index of its entry.
fn flatten_ordering(entries: &Vec<OrderingEntry>) -> (flat: Vec<(usize, CardId)>)
    ensures
        flat@.len() == ordered_pairs(entries@).len(),
        forall|q: int|
            0 <= q < flat@.len() ==> {
                &&& (#[trigger] flat@[q]).0 < entries@.len()
                &&& entries@[flat@[q].0 as int].column_id@ == ordered_pairs(entries@)[q].0
                &&& flat@[q].1 == ordered_pairs(entries@)[q].1
            },
{
    let mut flat: Vec<(usize, CardId)> = Vec::new();
    let mut e: usize = 0;
    assert(entries@.subrange(0, 0) =~= Seq::<OrderingEntry>::empty());
    while e < entries.len()
        invariant
            e <= entries@.len(),
            flat@.len() == ordered_pairs(entries@.subrange(0, e as int)).len(),
            forall|q: int|
                0 <= q < flat@.len() ==> {
                    &&& (#[trigger] flat@[q]).0 < entries@.len()
                    &&& entries@[flat@[q].0 as int].column_id@ == ordered_pairs(
                        entries@.subrange(0, e as int),
                    )[q].0
                    &&& flat@[q].1 == ordered_pairs(entries@.subrange(0, e as int))[q].1
                },
        decreases entries@.len() - e,
    {
        let ghost before = ordered_pairs(entries@.subrange(0, e as int));
        let ghost added = entries@[e as int].cards@.map_values(
            |id: CardId| (entries@[e as int].column_id@, id),
        );
        proof {
            lemma_pairs_step(entries@, e as int);
        }
        let ids = &entries[e].cards;
        let mut k: usize = 0;
        while k < ids.len()
            invariant
                e < entries@.len(),
                ids@ == entries@[e as int].cards@,
                added == ids@.map_values(|id: CardId| (entries@[e as int].column_id@, id)),
                k <= ids@.len(),
                flat@.len() == before.len() + k,
                forall|q: int|
                    0 <= q < flat@.len() ==> {
                        &&& (#[trigger] flat@[q]).0 < entries@.len()
                        &&& entries@[flat@[q].0 as int].column_id@ == (before + added)[q].0
                        &&& flat@[q].1 == (before + added)[q].1
                    },
            decreases ids@.len() - k,
        {
            flat.push((e, ids[k]));
            k = k + 1;
        }
        e = e + 1;
    }
    assert(entries@.subrange(0, entries@.len() as int) =~= entries@);
    flat
}

proof fn lemma_first_card_extends(cards: Seq<LocalCard>, i: int, n: int)
    requires
        0 <= i < n,
        first_card_problem(cards, i) is None,
        card_problem(cards, i) is Some,
    ensures
        first_card_problem(cards, n) == card_problem(cards, i),
    decreases n - i,
{
    if n > i + 1 {
        lemma_first_card_extends(cards, i, n - 1);
    }
}

proof fn lemma_first_pair_extends(
    cards: Seq<LocalCard>,
    pairs: Seq<(Seq<char>, CardId)>,
    p: int,
    n: int,
)
    requires
        0 <= p < n,
        first_pair_problem(cards, pairs, p) is None,
        pair_problem(cards, pairs, p) is Some,
    ensures
        first_pair_problem(cards, pairs, n) == pair_problem(cards, pairs, p),
    decreases n - p,
{
    if n > p + 1 {
        lemma_first_pair_extends(cards, pairs, p, n - 1);
    }
}

proof fn lemma_first_missing_extends(
    cards: Seq<LocalCard>,
    pairs: Seq<(Seq<char>, CardId)>,
    i: int,
    n: int,
)
    requires
        0 <= i < n,
        first_missing_problem(cards, pairs, i) is None,
        missing_problem(cards, pairs, i) is Some,
    ensures
        first_missing_problem(cards, pairs, n) == missing_problem(cards, pairs, i),
    decreases n - i,
{
    if n > i + 1 {
        lemma_first_missing_extends(cards, pairs, i, n - 1);
    }
}

proof fn lemma_first_none_prefix(cards: Seq<LocalCard>, n: int, m: int)
    requires
        0 <= m <= n,
        first_card_problem(cards, n) is None,
    ensures
        first_card_problem(cards, m) is None,
        m > 0 ==> card_problem(cards, m - 1) is None,
    decreases n - m,
{
    if m < n {
        lemma_first_none_prefix(cards, n, m + 1);
    }
}

/// The UI state remembered between sessions.
#[derive(Debug, PartialEq, Eq)]
pub struct UiStateFile {
    pub schema_version: u32,
    pub workspace_id: WorkspaceId,
    pub selected_column_id: Option<ColumnId>,
    pub selected_card_id: Option<CardId>,
    pub active_filters: Vec<String>,
}

impl UiStateFile {
    pub fn empty(workspace_id: WorkspaceId) -> (f: Self)
        ensures
            f.schema_version == PRIVATE_SCHEMA_VERSION,
            f.workspace_id == workspace_id,
            f.selected_column_id is None,
            f.selected_card_id is None,
            f.active_filters@.len() == 0,
    {
        UiStateFile {
            schema_version: PRIVATE_SCHEMA_VERSION,
            workspace_id,
            selected_column_id: None,
            selected_card_id: None,
            active_filters: Vec::new(),
        }
    }

    pub fn validate_for(&self, workspace_id: WorkspaceId) -> (r: Result<(), PrivateStateError>)
        ensures
            r is Ok <==> header_problem(self.schema_version, self.workspace_id, workspace_id) is None,
            r matches Err(e) ==> header_problem(self.schema_version, self.workspace_id, workspace_id)
                == Some(problem_of(e)),
    {
        validate_header(self.schema_version, self.workspace_id, workspace_id)
    }
}

/// An issue of a provider, as last fetched.
#[derive(Debug, PartialEq, Eq)]
pub struct CachedGitlabIssue {
    pub provider_id: ProviderId,
    pub project: String,
    pub iid: u64,
    pub title: String,
    pub state: String,
    pub labels: Vec<String>,
}

/// Cached provider data.
#[derive(Debug, PartialEq, Eq)]
pub struct CacheFile {
    pub schema_version: u32,
    pub workspace_id: WorkspaceId,
    pub gitlab_issues: Vec<CachedGitlabIssue>,
}

impl CacheFile {
    pub fn empty(workspace_id: WorkspaceId) -> (f: Self)
        ensures
            f.schema_version == PRIVATE_SCHEMA_VERSION,
            f.workspace_id == workspace_id,
            f.gitlab_issues@.len() == 0,
    {
        CacheFile { schema_version: PRIVATE_SCHEMA_VERSION, workspace_id, gitlab_issues: Vec::new() }
    }

    pub fn validate_for(&self, workspace_id: WorkspaceId) -> (r: Result<(), PrivateStateError>)
        ensures
            r is Ok <==> header_problem(self.schema_version, self.workspace_id, workspace_id) is None,
            r matches Err(e) ==> header_problem(self.schema_version, self.workspace_id, workspace_id)
                == Some(problem_of(e)),
    {
        validate_header(self.schema_version, self.workspace_id, workspace_id)
    }
}

/// A change waiting to be sent to a provider.
#[derive(Debug, PartialEq, Eq)]
pub enum SyncOperationKind {
    SetStatus { provider_status: String },
}

/// A queued change of one provider issue.
#[derive(Debug, PartialEq, Eq)]
pub struct SyncOperation {
    pub id: u128,
    pub provider_id: ProviderId,
    pub project: String,
    pub issue_iid: u64,
    pub operation: SyncOperationKind,
}

/// Changes waiting to be sent to providers.
#[derive(Debug, PartialEq, Eq)]
pub struct SyncQueueFile {
    pub schema_version: u32,
    pub workspace_id: WorkspaceId,
    pub operations: Vec<SyncOperation>,
}

impl SyncQueueFile {
    pub fn empty(workspace_id: WorkspaceId) -> (f: Self)
        ensures
            f.schema_version == PRIVATE_SCHEMA_VERSION,
            f.workspace_id == workspace_id,
            f.operations@.len() == 0,
    {
        SyncQueueFile { schema_version: PRIVATE_SCHEMA_VERSION, workspace_id, operations: Vec::new() }
    }

    pub fn validate_for(&self, workspace_id: WorkspaceId) -> (r: Result<(), PrivateStateError>)
        ensures
            r is Ok <==> header_problem(self.schema_version, self.workspace_id, workspace_id) is None,
            r matches Err(e) ==> header_problem(self.schema_version, self.workspace_id, workspace_id)
                == Some(problem_of(e)),
    {
        validate_header(self.schema_version, self.workspace_id, workspace_id)
    }
}

/// The text of a problem, as the error reports it.
pub open spec fn problem_text(p: StateProblem) -> Seq<char> {
    match p {
        StateProblem::UnsupportedSchemaVersion { found } => "unsupported private state schema version "@
            + crate::text::decimal(found as nat) + "; expected "@ + crate::text::decimal(
            PRIVATE_SCHEMA_VERSION as nat,
        ),
        StateProblem::WorkspaceMismatch { expected, found } => quoted(
            "private state belongs to workspace "@,
            uuid_text(found.0),
        ) + quoted(", expected "@, uuid_text(expected.0)),
        StateProblem::Invalid(m) => m,
    }
}

impl PrivateStateError {
    /// The text of the error.
    pub fn message(&self) -> (s: String)
        ensures
            s@ == problem_text(problem_of(*self)),
    {
        match self {
            PrivateStateError::UnsupportedSchemaVersion { found } => {
                let mut s = owned("unsupported private state schema version ");
                crate::text::push_decimal(&mut s, *found as u128);
                push_str(&mut s, "; expected ");
                crate::text::push_decimal(&mut s, PRIVATE_SCHEMA_VERSION as u128);
                s
            },
            PrivateStateError::WorkspaceMismatch { expected, found } => {
                let mut s = owned("private state belongs to workspace '");
                let f = found.text();
                push_str(&mut s, f.as_str());
                push_str(&mut s, "', expected '");
                let e = expected.text();
                push_str(&mut s, e.as_str());
                push_char(&mut s, '\'');
                proof {
                    reveal_strlit("private state belongs to workspace '");
                    reveal_strlit("private state belongs to workspace ");
                    reveal_strlit("', expected '");
                    reveal_strlit(", expected ");
                    assert(s@ =~= problem_text(problem_of(*self)));
                }
                s
            },
            PrivateStateError::Invalid(m) => m.clone(),
        }
    }
}


} // verus!
