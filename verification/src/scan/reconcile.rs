//! Reconciling the findings of a scan with the annotations tracked in the cards file.
//!
//! A finding keeps the identity of the annotation it matches exactly (same place, tag,
//! message and occurrence), whatever its line. A linked annotation that lost its exact match
//! follows the only new finding of its file and tag when it is the only such annotation.
//! Other findings become new, unassigned annotations. Cards whose linked annotations all
//! disappeared are archived, and cards archived that way come back when one reappears.

use vstd::prelude::*;

use crate::domain::annotation::{AnnotationDisposition, CodeAnnotation, Finding};
use crate::domain::ids::{is_random_uuid, AnnotationId, CardId, ColumnId};
use crate::domain::private_state::{CardsFile, LocalCard, OrderingEntry};
use crate::domain::workspace::same_ignoring_ascii_case;
use crate::text::{ascii_upper, eq_ignore_ascii_case, str_eq};

use super::order::{
    compare_text, findings_sorted, lemma_text_lt_total,
    lemma_text_lt_transitive, sort_findings, text_lt,
};

verus! {

broadcast use vstd::seq_lib::group_to_multiset_ensures;

/// The counts that a reconciliation reports.
#[derive(Debug, Clone, Copy, PartialEq, Eq, Structural)]
pub struct AnnotationSyncSummary {
    pub created: usize,
    pub updated: usize,
    pub disappeared: usize,
    pub archived_cards: usize,
    pub restored_cards: usize,
    pub present: usize,
    pub unassigned: usize,
}

// ---------------------------------------------------------------------------------------
// Occurrences
// ---------------------------------------------------------------------------------------

/// Whether two findings are at the same place with the same tag (ignoring case) and message.
pub open spec fn same_occurrence_key(f: Finding, g: Finding) -> bool {
    &&& f.repository_id@ == g.repository_id@
    &&& f.path@ == g.path@
    &&& ascii_upper(f.tag@) == ascii_upper(g.tag@)
    &&& f.message@ == g.message@
}

/// How many of the first `n` findings share the key of finding `i`.
pub open spec fn count_same_key(obs: Seq<Finding>, i: int, n: int) -> nat
    decreases n,
{
    if n <= 0 {
        0
    } else {
        count_same_key(obs, i, n - 1) + if same_occurrence_key(obs[n - 1], obs[i]) {
            1nat
        } else {
            0nat
        }
    }
}

/// Which of the findings with its key finding `i` is: the number of them before it.
pub open spec fn occurrence(obs: Seq<Finding>, i: int) -> nat {
    count_same_key(obs, i, i)
}

// ---------------------------------------------------------------------------------------
// Exact matching
// ---------------------------------------------------------------------------------------

/// Whether an annotation is the one a finding with this occurrence stands for.
pub open spec fn fits(a: CodeAnnotation, f: Finding, occurrence: nat) -> bool {
    &&& a.repository_id@ == f.repository_id@
    &&& a.path@ == f.path@
    &&& eq_ignore_ascii_case(a.tag@, f.tag@)
    &&& a.message@ == f.message@
    &&& a.occurrence == occurrence
}

/// The first annotation at or after `k` that is not matched yet and fits the finding.
pub open spec fn first_fit(
    anns: Seq<CodeAnnotation>,
    matched: Set<AnnotationId>,
    f: Finding,
    occurrence: nat,
    k: int,
) -> Option<int>
    decreases anns.len() - k,
{
    if k < 0 || k >= anns.len() {
        None
    } else if !matched.contains(anns[k].id) && fits(anns[k], f, occurrence) {
        Some(k)
    } else {
        first_fit(anns, matched, f, occurrence, k + 1)
    }
}

/// Whether the annotation with this identity was present before the scan.
pub open spec fn was_present(old: Seq<CodeAnnotation>, id: AnnotationId) -> bool {
    exists|k: int| 0 <= k < old.len() && old[k].id == id && old[k].present
}

/// The annotation, not found by the scan.
pub open spec fn absent(a: CodeAnnotation) -> CodeAnnotation {
    CodeAnnotation { present: false, ..a }
}

/// The annotation, found at `line`.
pub open spec fn seen_at(a: CodeAnnotation, line: usize) -> CodeAnnotation {
    CodeAnnotation { line, present: true, ..a }
}

/// The annotations, the matched identities, the matched findings and the number of updated
/// annotations after the first `n` findings were matched exactly. Before any, every
/// annotation is marked absent.
pub open spec fn exact_matching(old: Seq<CodeAnnotation>, obs: Seq<Finding>, n: int) -> (
    Seq<CodeAnnotation>,
    Set<AnnotationId>,
    Set<int>,
    nat,
)
    decreases n,
{
    if n <= 0 {
        (old.map_values(|a: CodeAnnotation| absent(a)), Set::empty(), Set::empty(), 0)
    } else {
        let s = exact_matching(old, obs, n - 1);
        let i = n - 1;
        match first_fit(s.0, s.1, obs[i], occurrence(obs, i), 0) {
            None => s,
            Some(a) => (
                s.0.update(a, seen_at(s.0[a], obs[i].line)),
                s.1.insert(s.0[a].id),
                s.2.insert(i),
                s.3 + if s.0[a].line != obs[i].line || !was_present(old, s.0[a].id) {
                    1nat
                } else {
                    0nat
                },
            ),
        }
    }
}

// ---------------------------------------------------------------------------------------
// Cautious matching
// ---------------------------------------------------------------------------------------

/// Whether two annotations are in the same file with the same tag (ignoring case).
pub open spec fn same_group(a: CodeAnnotation, b: CodeAnnotation) -> bool {
    &&& a.repository_id@ == b.repository_id@
    &&& a.path@ == b.path@
    &&& ascii_upper(a.tag@) == ascii_upper(b.tag@)
}

/// Whether a finding is in the file of an annotation, with its tag (ignoring case).
pub open spec fn in_group(a: CodeAnnotation, f: Finding) -> bool {
    &&& a.repository_id@ == f.repository_id@
    &&& a.path@ == f.path@
    &&& ascii_upper(a.tag@) == ascii_upper(f.tag@)
}

/// Whether an annotation is linked to a card and was not matched exactly.
pub open spec fn old_candidate(anns: Seq<CodeAnnotation>, matched: Set<AnnotationId>, a: int) -> bool {
    !matched.contains(anns[a].id) && anns[a].disposition is Linked
}

/// How many of the first `n` annotations are candidates in the group of annotation `a`.
pub open spec fn old_in_group(anns: Seq<CodeAnnotation>, matched: Set<AnnotationId>, a: int, n: int) -> nat
    decreases n,
{
    if n <= 0 {
        0
    } else {
        old_in_group(anns, matched, a, n - 1) + if old_candidate(anns, matched, n - 1)
            && same_group(anns[n - 1], anns[a]) {
            1nat
        } else {
            0nat
        }
    }
}

/// How many of the first `n` findings are unmatched and in the group of annotation `a`.
pub open spec fn new_in_group(
    anns: Seq<CodeAnnotation>,
    matched_obs: Set<int>,
    obs: Seq<Finding>,
    a: int,
    n: int,
) -> nat
    decreases n,
{
    if n <= 0 {
        0
    } else {
        new_in_group(anns, matched_obs, obs, a, n - 1) + if !matched_obs.contains(n - 1)
            && in_group(anns[a], obs[n - 1]) {
            1nat
        } else {
            0nat
        }
    }
}

/// The first unmatched finding at or after `k` in the group of annotation `a`.
pub open spec fn first_new(
    anns: Seq<CodeAnnotation>,
    matched_obs: Set<int>,
    obs: Seq<Finding>,
    a: int,
    k: int,
) -> int
    decreases obs.len() - k,
{
    if k < 0 || k >= obs.len() {
        obs.len() as int
    } else if !matched_obs.contains(k) && in_group(anns[a], obs[k]) {
        k
    } else {
        first_new(anns, matched_obs, obs, a, k + 1)
    }
}

/// Whether annotation `a` follows a finding cautiously: it is the only candidate of its
/// group, and its group has exactly one unmatched finding.
pub open spec fn cautious(s: (Seq<CodeAnnotation>, Set<AnnotationId>, Set<int>, nat), obs: Seq<Finding>, a: int) -> bool {
    &&& old_candidate(s.0, s.1, a)
    &&& old_in_group(s.0, s.1, a, s.0.len() as int) == 1
    &&& new_in_group(s.0, s.2, obs, a, obs.len() as int) == 1
}

/// The finding that a cautious annotation follows.
pub open spec fn partner(s: (Seq<CodeAnnotation>, Set<AnnotationId>, Set<int>, nat), obs: Seq<Finding>, a: int) -> int {
    first_new(s.0, s.2, obs, a, 0)
}

/// The annotation, moved to a finding with this occurrence.
pub open spec fn moved_to(a: CodeAnnotation, f: Finding, occurrence: nat) -> CodeAnnotation {
    CodeAnnotation {
        line: f.line,
        message: f.message,
        occurrence: occurrence as usize,
        present: true,
        ..a
    }
}

/// How many of the first `n` annotations follow a finding cautiously.
pub open spec fn count_cautious(s: (Seq<CodeAnnotation>, Set<AnnotationId>, Set<int>, nat), obs: Seq<Finding>, n: int) -> nat
    decreases n,
{
    if n <= 0 {
        0
    } else {
        count_cautious(s, obs, n - 1) + if cautious(s, obs, n - 1) {
            1nat
        } else {
            0nat
        }
    }
}

/// The annotations, the matched findings and the number of updated annotations after the
/// cautious matching.
pub open spec fn cautious_matching(s: (Seq<CodeAnnotation>, Set<AnnotationId>, Set<int>, nat), obs: Seq<Finding>) -> (
    Seq<CodeAnnotation>,
    Set<int>,
    nat,
) {
    (
        Seq::new(
            s.0.len(),
            |a: int|
                if cautious(s, obs, a) {
                    moved_to(s.0[a], obs[partner(s, obs, a)], occurrence(obs, partner(s, obs, a)))
                } else {
                    s.0[a]
                },
        ),
        s.2.union(
            Set::new(
                |i: int| exists|a: int| 0 <= a < s.0.len() && cautious(s, obs, a) && partner(s, obs, a) == i,
            ),
        ),
        s.3 + count_cautious(s, obs, s.0.len() as int),
    )
}

// ---------------------------------------------------------------------------------------
// New annotations
// ---------------------------------------------------------------------------------------

/// The findings among the first `n` that nothing matched, in order.
pub open spec fn unmatched(matched_obs: Set<int>, n: int) -> Seq<int>
    decreases n,
{
    if n <= 0 {
        Seq::empty()
    } else if matched_obs.contains(n - 1) {
        unmatched(matched_obs, n - 1)
    } else {
        unmatched(matched_obs, n - 1).push(n - 1)
    }
}

/// The new annotation for finding `i`.
pub open spec fn created_annotation(obs: Seq<Finding>, i: int, id: AnnotationId) -> CodeAnnotation {
    CodeAnnotation {
        id,
        repository_id: obs[i].repository_id,
        path: obs[i].path,
        line: obs[i].line,
        tag: obs[i].tag,
        message: obs[i].message,
        occurrence: occurrence(obs, i) as usize,
        present: true,
        disposition: AnnotationDisposition::Unassigned,
    }
}

/// The matching of all findings: exact first, then cautious.
pub open spec fn matching(old: Seq<CodeAnnotation>, obs: Seq<Finding>) -> (Seq<CodeAnnotation>, Set<int>, nat) {
    cautious_matching(exact_matching(old, obs, obs.len() as int), obs)
}

/// The annotations after reconciliation, the new ones taking the identities `ids`.
pub open spec fn reconciled_annotations(old: Seq<CodeAnnotation>, obs: Seq<Finding>, ids: Seq<AnnotationId>) -> Seq<CodeAnnotation> {
    let m = matching(old, obs);
    let u = unmatched(m.1, obs.len() as int);
    m.0 + Seq::new(u.len(), |k: int| created_annotation(obs, u[k], ids[k]))
}

// ---------------------------------------------------------------------------------------
// Counts
// ---------------------------------------------------------------------------------------

/// How many of the first `n` annotations are present.
pub open spec fn present_count(anns: Seq<CodeAnnotation>, n: int) -> nat
    decreases n,
{
    if n <= 0 {
        0
    } else {
        present_count(anns, n - 1) + if anns[n - 1].present {
            1nat
        } else {
            0nat
        }
    }
}

/// How many of the first `n` annotations are present and unassigned.
pub open spec fn unassigned_count(anns: Seq<CodeAnnotation>, n: int) -> nat
    decreases n,
{
    if n <= 0 {
        0
    } else {
        unassigned_count(anns, n - 1) + if anns[n - 1].present && anns[n - 1].disposition
            is Unassigned {
            1nat
        } else {
            0nat
        }
    }
}

/// How many of the first `n` annotations were present before and are not any more.
pub open spec fn disappeared_count(old: Seq<CodeAnnotation>, anns: Seq<CodeAnnotation>, n: int) -> nat
    decreases n,
{
    if n <= 0 {
        0
    } else {
        disappeared_count(old, anns, n - 1) + if was_present(old, anns[n - 1].id)
            && !anns[n - 1].present {
            1nat
        } else {
            0nat
        }
    }
}

// ---------------------------------------------------------------------------------------
// Cards
// ---------------------------------------------------------------------------------------

/// Whether some annotation is linked to the card.
pub open spec fn linked_to(anns: Seq<CodeAnnotation>, card: CardId) -> bool {
    exists|k: int|
        0 <= k < anns.len() && anns[k].disposition == (AnnotationDisposition::Linked {
            card_id: card,
        })
}

/// Whether some present annotation is linked to the card.
pub open spec fn linked_present(anns: Seq<CodeAnnotation>, card: CardId) -> bool {
    exists|k: int|
        0 <= k < anns.len() && anns[k].disposition == (AnnotationDisposition::Linked {
            card_id: card,
        }) && anns[k].present
}

/// The card order by column, as column identity and card identities.
pub open spec fn ordering_view(o: Seq<OrderingEntry>) -> Seq<(Seq<char>, Seq<CardId>)> {
    o.map_values(|e: OrderingEntry| (e.column_id@, e.cards@))
}

/// Every card but `id`.
pub open spec fn other_than(id: CardId) -> spec_fn(CardId) -> bool {
    |c: CardId| c != id
}

/// The card order with the card taken out of every column.
pub open spec fn without_card(o: Seq<(Seq<char>, Seq<CardId>)>, id: CardId) -> Seq<(Seq<char>, Seq<CardId>)> {
    o.map_values(|e: (Seq<char>, Seq<CardId>)| (e.0, e.1.filter(other_than(id))))
}

/// The first entry at or after `k` for the column, or the length if there is none.
pub open spec fn entry_index(o: Seq<(Seq<char>, Seq<CardId>)>, column: Seq<char>, k: int) -> int
    decreases o.len() - k,
{
    if k < 0 || k >= o.len() {
        o.len() as int
    } else if o[k].0 == column {
        k
    } else {
        entry_index(o, column, k + 1)
    }
}

/// The first entry at or after `k` whose column comes after `column`, or the length.
pub open spec fn insert_index(o: Seq<(Seq<char>, Seq<CardId>)>, column: Seq<char>, k: int) -> int
    decreases o.len() - k,
{
    if k < 0 || k >= o.len() {
        o.len() as int
    } else if text_lt(column, o[k].0) {
        k
    } else {
        insert_index(o, column, k + 1)
    }
}

/// The card order with the card added at the end of its column; a column without an entry
/// gets one, in column order.
pub open spec fn with_card(o: Seq<(Seq<char>, Seq<CardId>)>, column: Seq<char>, id: CardId) -> Seq<(Seq<char>, Seq<CardId>)> {
    let e = entry_index(o, column, 0);
    if e < o.len() {
        o.update(e, (o[e].0, o[e].1.push(id)))
    } else {
        o.insert(insert_index(o, column, 0), (column, seq![id]))
    }
}

/// The cards, the card order and the numbers of archived and restored cards after the first
/// `n` cards were checked against the annotations.
pub open spec fn card_phase(
    anns: Seq<CodeAnnotation>,
    cards: Seq<LocalCard>,
    ordering: Seq<(Seq<char>, Seq<CardId>)>,
    n: int,
) -> (Seq<LocalCard>, Seq<(Seq<char>, Seq<CardId>)>, nat, nat)
    decreases n,
{
    if n <= 0 {
        (cards, ordering, 0, 0)
    } else {
        let s = card_phase(anns, cards, ordering, n - 1);
        let c = cards[n - 1];
        if !linked_to(anns, c.id) {
            s
        } else if !linked_present(anns, c.id) && !c.archived {
            (
                s.0.update(n - 1, LocalCard { archived: true, archived_by_sync: true, ..c }),
                without_card(s.1, c.id),
                s.2 + 1,
                s.3,
            )
        } else if linked_present(anns, c.id) && c.archived && c.archived_by_sync {
            (
                s.0.update(n - 1, LocalCard { archived: false, archived_by_sync: false, ..c }),
                with_card(s.1, c.column_id@, c.id),
                s.2,
                s.3 + 1,
            )
        } else {
            s
        }
    }
}

/// The identities that reconciliation gave to the annotations after the first `base`.
pub open spec fn new_ids(anns: Seq<CodeAnnotation>, base: int) -> Seq<AnnotationId> {
    anns.subrange(base, anns.len() as int).map_values(|a: CodeAnnotation| a.id)
}

/// Whether `next` and `summary` are the reconciliation of `old` with the sorted findings
/// `obs`.
pub open spec fn reconciled(old: CardsFile, obs: Seq<Finding>, next: CardsFile, summary: AnnotationSyncSummary) -> bool {
    let olds = old.annotations@;
    let ids = new_ids(next.annotations@, olds.len() as int);
    let anns = reconciled_annotations(olds, obs, ids);
    let m = matching(olds, obs);
    let cards = card_phase(anns, old.cards@, ordering_view(old.ordering@), old.cards@.len() as int);
    &&& next.schema_version == old.schema_version
    &&& next.workspace_id == old.workspace_id
    &&& next.annotations@ == anns
    &&& next.cards@ == cards.0
    &&& ordering_view(next.ordering@) == cards.1
    &&& summary.created == unmatched(m.1, obs.len() as int).len()
    &&& summary.updated == m.2
    &&& summary.disappeared == disappeared_count(olds, anns, anns.len() as int)
    &&& summary.archived_cards == cards.2
    &&& summary.restored_cards == cards.3
    &&& summary.present == present_count(anns, anns.len() as int)
    &&& summary.unassigned == unassigned_count(anns, anns.len() as int)
}


// ---------------------------------------------------------------------------------------
// Executable phases
// ---------------------------------------------------------------------------------------

fn same_key(f: &Finding, g: &Finding) -> (r: bool)
    ensures
        r == same_occurrence_key(*f, *g),
{
    str_eq(f.repository_id.as_str(), g.repository_id.as_str()) && str_eq(
        f.path.as_str(),
        g.path.as_str(),
    ) && same_ignoring_ascii_case(f.tag.as_str(), g.tag.as_str()) && str_eq(
        f.message.as_str(),
        g.message.as_str(),
    )
}

fn occurrences(obs: &Vec<Finding>) -> (occ: Vec<usize>)
    ensures
        occ@.len() == obs@.len(),
        forall|i: int| 0 <= i < obs@.len() ==> occ@[i] == occurrence(obs@, i),
{
    let mut occ: Vec<usize> = Vec::new();
    let mut i: usize = 0;
    while i < obs.len()
        invariant
            i <= obs@.len(),
            occ@.len() == i,
            forall|k: int| 0 <= k < i ==> occ@[k] == occurrence(obs@, k),
        decreases obs@.len() - i,
    {
        let mut count: usize = 0;
        let mut j: usize = 0;
        while j < i
            invariant
                j <= i,
                i < obs@.len(),
                count <= j,
                count == count_same_key(obs@, i as int, j as int),
            decreases i - j,
        {
            if same_key(&obs[j], &obs[i]) {
                count = count + 1;
            }
            j = j + 1;
        }
        occ.push(count);
        i = i + 1;
    }
    occ
}

fn mark_absent(old: &Vec<CodeAnnotation>) -> (anns: Vec<CodeAnnotation>)
    ensures
        anns@ == old@.map_values(|a: CodeAnnotation| absent(a)),
{
    let mut anns: Vec<CodeAnnotation> = Vec::new();
    let mut i: usize = 0;
    while i < old.len()
        invariant
            i <= old@.len(),
            anns@ == old@.subrange(0, i as int).map_values(|a: CodeAnnotation| absent(a)),
        decreases old@.len() - i,
    {
        let mut a = old[i].clone();
        a.present = false;
        anns.push(a);
        i = i + 1;
        assert(anns@ =~= old@.subrange(0, i as int).map_values(|a: CodeAnnotation| absent(a)));
    }
    assert(old@.subrange(0, old@.len() as int) =~= old@);
    anns
}

fn contains_id(ids: &Vec<AnnotationId>, id: AnnotationId) -> (r: bool)
    ensures
        r == ids@.contains(id),
{
    let mut k: usize = 0;
    while k < ids.len()
        invariant
            k <= ids@.len(),
            forall|j: int| 0 <= j < k ==> ids@[j] != id,
        decreases ids@.len() - k,
    {
        if ids[k] == id {
            return true;
        }
        k = k + 1;
    }
    false
}

fn fits_finding(a: &CodeAnnotation, f: &Finding, occurrence: usize) -> (r: bool)
    ensures
        r == fits(*a, *f, occurrence as nat),
{
    str_eq(a.repository_id.as_str(), f.repository_id.as_str()) && str_eq(
        a.path.as_str(),
        f.path.as_str(),
    ) && same_ignoring_ascii_case(a.tag.as_str(), f.tag.as_str()) && str_eq(
        a.message.as_str(),
        f.message.as_str(),
    ) && a.occurrence == occurrence
}

fn find_fit(
    anns: &Vec<CodeAnnotation>,
    matched: &Vec<AnnotationId>,
    Ghost(matched_set): Ghost<Set<AnnotationId>>,
    f: &Finding,
    occurrence: usize,
) -> (r: Option<usize>)
    requires
        forall|id: AnnotationId| matched@.contains(id) <==> matched_set.contains(id),
    ensures
        (match r {
            Some(k) => Some(k as int),
            None => None,
        }) == first_fit(anns@, matched_set, *f, occurrence as nat, 0),
{
    let mut k: usize = 0;
    while k < anns.len()
        invariant
            k <= anns@.len(),
            first_fit(anns@, matched_set, *f, occurrence as nat, 0) == first_fit(
                anns@,
                matched_set,
                *f,
                occurrence as nat,
                k as int,
            ),
        decreases anns@.len() - k,
    {
        if !contains_id(matched, anns[k].id) && fits_finding(&anns[k], f, occurrence) {
            return Some(k);
        }
        k = k + 1;
    }
    None
}

fn present_before(old: &Vec<CodeAnnotation>, id: AnnotationId) -> (r: bool)
    ensures
        r == was_present(old@, id),
{
    let mut k: usize = 0;
    while k < old.len()
        invariant
            k <= old@.len(),
            forall|j: int| 0 <= j < k ==> !(old@[j].id == id && old@[j].present),
        decreases old@.len() - k,
    {
        if old[k].id == id && old[k].present {
            return true;
        }
        k = k + 1;
    }
    false
}

pub(crate) proof fn lemma_exact_matching_bounds(old: Seq<CodeAnnotation>, obs: Seq<Finding>, n: int)
    requires
        0 <= n <= obs.len(),
    ensures
        exact_matching(old, obs, n).0.len() == old.len(),
        exact_matching(old, obs, n).3 <= n,
        forall|i: int| exact_matching(old, obs, n).2.contains(i) ==> 0 <= i < n,
    decreases n,
{
    if n > 0 {
        lemma_exact_matching_bounds(old, obs, n - 1);
        let s = exact_matching(old, obs, n - 1);
        lemma_first_fit_bounds(s.0, s.1, obs[n - 1], occurrence(obs, n - 1), 0);
    }
}

proof fn lemma_first_fit_bounds(
    anns: Seq<CodeAnnotation>,
    matched: Set<AnnotationId>,
    f: Finding,
    occurrence: nat,
    k: int,
)
    ensures
        first_fit(anns, matched, f, occurrence, k) matches Some(a) ==> 0 <= a < anns.len()
            && !matched.contains(anns[a].id),
    decreases anns.len() - k,
{
    if 0 <= k < anns.len() {
        lemma_first_fit_bounds(anns, matched, f, occurrence, k + 1);
    }
}

/// The exact matching of the sorted findings, with the occurrence of each.
fn match_exactly(old: &Vec<CodeAnnotation>, obs: &Vec<Finding>, occ: &Vec<usize>) -> (r: (
    Vec<CodeAnnotation>,
    Vec<AnnotationId>,
    Vec<bool>,
    usize,
))
    requires
        occ@.len() == obs@.len(),
        forall|i: int| 0 <= i < obs@.len() ==> occ@[i] == occurrence(obs@, i),
    ensures
        r.0@ == exact_matching(old@, obs@, obs@.len() as int).0,
        forall|id: AnnotationId|
            r.1@.contains(id) <==> exact_matching(old@, obs@, obs@.len() as int).1.contains(id),
        r.2@.len() == obs@.len(),
        forall|i: int|
            0 <= i < obs@.len() ==> (r.2@[i] <==> exact_matching(
                old@,
                obs@,
                obs@.len() as int,
            ).2.contains(i)),
        r.3 == exact_matching(old@, obs@, obs@.len() as int).3,
{
    let n = obs.len();
    let mut anns = mark_absent(old);
    let mut matched: Vec<AnnotationId> = Vec::new();
    let mut flags: Vec<bool> = Vec::new();
    let mut k: usize = 0;
    while k < n
        invariant
            k <= n,
            n == obs@.len(),
            flags@.len() == k,
            forall|j: int| 0 <= j < k ==> !flags@[j],
        decreases n - k,
    {
        flags.push(false);
        k = k + 1;
    }
    let mut updated: usize = 0;
    let mut i: usize = 0;
    while i < n
        invariant
            i <= n,
            n == obs@.len(),
            flags@.len() == n,
            occ@.len() == n,
            forall|j: int| 0 <= j < n ==> occ@[j] == occurrence(obs@, j),
            anns@ == exact_matching(old@, obs@, i as int).0,
            forall|id: AnnotationId|
                matched@.contains(id) <==> exact_matching(old@, obs@, i as int).1.contains(id),
            forall|j: int|
                0 <= j < n ==> (flags@[j] <==> exact_matching(old@, obs@, i as int).2.contains(j)),
            updated == exact_matching(old@, obs@, i as int).3,
        decreases n - i,
    {
        proof {
            lemma_exact_matching_bounds(old@, obs@, i as int);
        }
        let ghost s = exact_matching(old@, obs@, i as int);
        let ghost m0 = matched@;
        let found = find_fit(&anns, &matched, Ghost(s.1), &obs[i], occ[i]);
        proof {
            lemma_first_fit_bounds(s.0, s.1, obs@[i as int], occurrence(obs@, i as int), 0);
        }
        match found {
            Some(a) => {
                let line = obs[i].line;
                let before = present_before(old, anns[a].id);
                if anns[a].line != line || !before {
                    updated = updated + 1;
                }
                let mut seen = anns[a].clone();
                matched.push(seen.id);
                seen.line = line;
                seen.present = true;
                anns.set(a, seen);
                flags.set(i, true);
            },
            None => {},
        }
        i = i + 1;
        proof {
            let t = exact_matching(old@, obs@, i as int);
            assert(anns@ =~= t.0);
            assert forall|id: AnnotationId| matched@.contains(id) <==> t.1.contains(id) by {
                if found is Some {
                    let x = matched@.last();
                    assert(matched@ == m0.push(x));
                    if m0.contains(id) {
                        let j = choose|j: int| 0 <= j < m0.len() && m0[j] == id;
                        assert(matched@[j] == id);
                    }
                    if id == x {
                        assert(matched@[matched@.len() - 1] == id);
                    }
                    if matched@.contains(id) {
                        let j = choose|j: int| 0 <= j < matched@.len() && matched@[j] == id;
                        if j < m0.len() {
                            assert(m0[j] == id);
                        }
                    }
                }
            }
        }
    }
    (anns, matched, flags, updated)
}


fn is_linked(a: &CodeAnnotation) -> (r: bool)
    ensures
        r == a.disposition is Linked,
{
    match a.disposition {
        AnnotationDisposition::Linked { .. } => true,
        _ => false,
    }
}

fn same_group_as(a: &CodeAnnotation, b: &CodeAnnotation) -> (r: bool)
    ensures
        r == same_group(*a, *b),
{
    str_eq(a.repository_id.as_str(), b.repository_id.as_str()) && str_eq(
        a.path.as_str(),
        b.path.as_str(),
    ) && same_ignoring_ascii_case(a.tag.as_str(), b.tag.as_str())
}

fn finding_in_group(a: &CodeAnnotation, f: &Finding) -> (r: bool)
    ensures
        r == in_group(*a, *f),
{
    str_eq(a.repository_id.as_str(), f.repository_id.as_str()) && str_eq(
        a.path.as_str(),
        f.path.as_str(),
    ) && same_ignoring_ascii_case(a.tag.as_str(), f.tag.as_str())
}

fn count_old_group(
    anns: &Vec<CodeAnnotation>,
    matched: &Vec<AnnotationId>,
    Ghost(matched_set): Ghost<Set<AnnotationId>>,
    a: usize,
) -> (c: usize)
    requires
        a < anns@.len(),
        forall|id: AnnotationId| matched@.contains(id) <==> matched_set.contains(id),
    ensures
        c == old_in_group(anns@, matched_set, a as int, anns@.len() as int),
{
    let mut c: usize = 0;
    let mut k: usize = 0;
    while k < anns.len()
        invariant
            k <= anns@.len(),
            c <= k,
            c == old_in_group(anns@, matched_set, a as int, k as int),
        decreases anns@.len() - k,
    {
        if is_linked(&anns[k]) && !contains_id(matched, anns[k].id) && same_group_as(
            &anns[k],
            &anns[a],
        ) {
            c = c + 1;
        }
        k = k + 1;
    }
    c
}

fn count_new_group(
    anns: &Vec<CodeAnnotation>,
    flags: &Vec<bool>,
    Ghost(matched_obs): Ghost<Set<int>>,
    obs: &Vec<Finding>,
    a: usize,
) -> (c: usize)
    requires
        a < anns@.len(),
        flags@.len() == obs@.len(),
        forall|i: int| 0 <= i < obs@.len() ==> (flags@[i] <==> matched_obs.contains(i)),
    ensures
        c == new_in_group(anns@, matched_obs, obs@, a as int, obs@.len() as int),
{
    let mut c: usize = 0;
    let mut k: usize = 0;
    while k < obs.len()
        invariant
            k <= obs@.len(),
            c <= k,
            c == new_in_group(anns@, matched_obs, obs@, a as int, k as int),
        decreases obs@.len() - k,
    {
        if !flags[k] && finding_in_group(&anns[a], &obs[k]) {
            c = c + 1;
        }
        k = k + 1;
    }
    c
}

fn first_new_index(
    anns: &Vec<CodeAnnotation>,
    flags: &Vec<bool>,
    Ghost(matched_obs): Ghost<Set<int>>,
    obs: &Vec<Finding>,
    a: usize,
) -> (k: usize)
    requires
        a < anns@.len(),
        flags@.len() == obs@.len(),
        forall|i: int| 0 <= i < obs@.len() ==> (flags@[i] <==> matched_obs.contains(i)),
    ensures
        k == first_new(anns@, matched_obs, obs@, a as int, 0),
{
    let mut k: usize = 0;
    while k < obs.len()
        invariant
            k <= obs@.len(),
            first_new(anns@, matched_obs, obs@, a as int, 0) == first_new(
                anns@,
                matched_obs,
                obs@,
                a as int,
                k as int,
            ),
        decreases obs@.len() - k,
    {
        if !flags[k] && finding_in_group(&anns[a], &obs[k]) {
            return k;
        }
        k = k + 1;
    }
    k
}

pub(crate) proof fn lemma_first_new_found(
    anns: Seq<CodeAnnotation>,
    matched_obs: Set<int>,
    obs: Seq<Finding>,
    a: int,
    k: int,
    n: int,
)
    requires
        0 <= k <= n <= obs.len(),
        new_in_group(anns, matched_obs, obs, a, n) > new_in_group(anns, matched_obs, obs, a, k),
    ensures
        k <= first_new(anns, matched_obs, obs, a, k) < n,
    decreases n - k,
{
    if !matched_obs.contains(k) && in_group(anns[a], obs[k]) {
    } else {
        lemma_new_in_group_step(anns, matched_obs, obs, a, k);
        lemma_first_new_found(anns, matched_obs, obs, a, k + 1, n);
    }
}

proof fn lemma_new_in_group_step(
    anns: Seq<CodeAnnotation>,
    matched_obs: Set<int>,
    obs: Seq<Finding>,
    a: int,
    k: int,
)
    requires
        0 <= k,
        !(!matched_obs.contains(k) && in_group(anns[a], obs[k])),
    ensures
        new_in_group(anns, matched_obs, obs, a, k + 1) == new_in_group(anns, matched_obs, obs, a, k),
{
}

pub(crate) proof fn lemma_first_new_is_new(
    anns: Seq<CodeAnnotation>,
    matched_obs: Set<int>,
    obs: Seq<Finding>,
    a: int,
    k: int,
)
    requires
        0 <= k,
    ensures
        first_new(anns, matched_obs, obs, a, k) < obs.len() ==> !matched_obs.contains(
            first_new(anns, matched_obs, obs, a, k),
        ) && in_group(anns[a], obs[first_new(anns, matched_obs, obs, a, k)]),
    decreases obs.len() - k,
{
    if k < obs.len() {
        lemma_first_new_is_new(anns, matched_obs, obs, a, k + 1);
    }
}

proof fn lemma_count_cautious_bound(
    s: (Seq<CodeAnnotation>, Set<AnnotationId>, Set<int>, nat),
    obs: Seq<Finding>,
    n: int,
)
    requires
        0 <= n,
    ensures
        count_cautious(s, obs, n) <= n,
    decreases n,
{
    if n > 0 {
        lemma_count_cautious_bound(s, obs, n - 1);
    }
}

/// The cautious matching after the exact one, given as `s`.
fn match_cautiously(
    anns: Vec<CodeAnnotation>,
    matched: &Vec<AnnotationId>,
    flags: Vec<bool>,
    updated: usize,
    obs: &Vec<Finding>,
    occ: &Vec<usize>,
    Ghost(s): Ghost<(Seq<CodeAnnotation>, Set<AnnotationId>, Set<int>, nat)>,
) -> (r: (Vec<CodeAnnotation>, Vec<bool>, usize))
    requires
        anns@ == s.0,
        forall|id: AnnotationId| matched@.contains(id) <==> s.1.contains(id),
        flags@.len() == obs@.len(),
        forall|i: int| 0 <= i < obs@.len() ==> (flags@[i] <==> s.2.contains(i)),
        updated == s.3,
        s.3 + anns@.len() <= usize::MAX,
        occ@.len() == obs@.len(),
        forall|i: int| 0 <= i < obs@.len() ==> occ@[i] == occurrence(obs@, i),
    ensures
        r.0@ == cautious_matching(s, obs@).0,
        r.1@.len() == obs@.len(),
        forall|i: int|
            0 <= i < obs@.len() ==> (r.1@[i] <==> cautious_matching(s, obs@).1.contains(i)),
        r.2 == cautious_matching(s, obs@).2,
{
    let len = anns.len();
    let mut partners: Vec<Option<usize>> = Vec::new();
    let mut a: usize = 0;
    while a < len
        invariant
            a <= len,
            len == anns@.len(),
            partners@.len() == a,
            forall|b: int|
                0 <= b < a ==> (partners@[b] is Some <==> cautious(s, obs@, b)) && (partners@[b] is Some
                    ==> partners@[b]->0 as int == partner(s, obs@, b)),
            forall|b: int| 0 <= b < a && cautious(s, obs@, b) ==> 0 <= partner(s, obs@, b) < obs@.len(),
        decreases len - a,
    {
        let candidate = is_linked(&anns[a]) && !contains_id(matched, anns[a].id);
        let decision = if candidate && count_old_group(&anns, matched, Ghost(s.1), a) == 1
            && count_new_group(&anns, &flags, Ghost(s.2), obs, a) == 1 {
            let p = first_new_index(&anns, &flags, Ghost(s.2), obs, a);
            proof {
                lemma_first_new_found(s.0, s.2, obs@, a as int, 0, obs@.len() as int);
            }
            Some(p)
        } else {
            None
        };
        partners.push(decision);
        a = a + 1;
    }
    let mut anns = anns;
    let mut flags = flags;
    let mut updated = updated;
    let ghost cm = cautious_matching(s, obs@);
    let mut a: usize = 0;
    while a < len
        invariant
            a <= len,
            len == anns@.len(),
            len == s.0.len(),
            partners@.len() == len,
            flags@.len() == obs@.len(),
            occ@.len() == obs@.len(),
            forall|i: int| 0 <= i < obs@.len() ==> occ@[i] == occurrence(obs@, i),
            forall|b: int|
                0 <= b < len ==> (partners@[b] is Some <==> cautious(s, obs@, b)) && (partners@[b] is Some
                    ==> partners@[b]->0 as int == partner(s, obs@, b)),
            forall|b: int| 0 <= b < len && cautious(s, obs@, b) ==> 0 <= partner(s, obs@, b) < obs@.len(),
            forall|b: int| 0 <= b < a ==> anns@[b] == cm.0[b],
            forall|b: int| a <= b < len ==> anns@[b] == s.0[b],
            forall|i: int|
                0 <= i < obs@.len() ==> (flags@[i] <==> (s.2.contains(i) || exists|b: int|
                    0 <= b < a && cautious(s, obs@, b) && partner(s, obs@, b) == i)),
            updated == s.3 + count_cautious(s, obs@, a as int),
            s.3 + len <= usize::MAX,
        decreases len - a,
    {
        proof {
            lemma_count_cautious_bound(s, obs@, a as int);
        }
        let ghost f0 = flags@;
        match partners[a] {
            Some(p) => {
                assert(partners@[a as int] == Some(p));
                assert(cautious(s, obs@, a as int));
                assert(p as int == partner(s, obs@, a as int));
                let mut moved = anns[a].clone();
                moved.line = obs[p].line;
                moved.message = obs[p].message.clone();
                moved.occurrence = occ[p];
                moved.present = true;
                anns.set(a, moved);
                flags.set(p, true);
                updated = updated + 1;
                assert(flags@ == f0.update(p as int, true));
            },
            None => {
                assert(!cautious(s, obs@, a as int));
                assert(flags@ == f0);
            },
        }
        proof {
            assert forall|i: int| 0 <= i < obs@.len() implies (flags@[i] <==> (s.2.contains(i)
                || exists|b: int|
                0 <= b < a + 1 && cautious(s, obs@, b) && partner(s, obs@, b) == i)) by {
                if exists|b: int| 0 <= b < a && cautious(s, obs@, b) && partner(s, obs@, b) == i {
                    let b = choose|b: int|
                        0 <= b < a && cautious(s, obs@, b) && partner(s, obs@, b) == i;
                    assert(0 <= b < a + 1 && cautious(s, obs@, b) && partner(s, obs@, b) == i);
                }
                if cautious(s, obs@, a as int) && partner(s, obs@, a as int) == i {
                    assert(flags@[i]);
                }
                if exists|b: int| 0 <= b < a + 1 && cautious(s, obs@, b) && partner(s, obs@, b) == i {
                    let b = choose|b: int|
                        0 <= b < a + 1 && cautious(s, obs@, b) && partner(s, obs@, b) == i;
                    if b < a {
                        assert(f0[i]);
                    }
                }
            }
        }
        a = a + 1;
    }
    proof {
        assert(anns@ =~= cm.0);
        assert forall|i: int| 0 <= i < obs@.len() implies (flags@[i] <==> cm.1.contains(i)) by {}
    }
    (anns, flags, updated)
}


/// Appends a new annotation for every finding that nothing matched, given the matching `m`.
fn create_annotations(
    anns: Vec<CodeAnnotation>,
    flags: &Vec<bool>,
    obs: &Vec<Finding>,
    occ: &Vec<usize>,
    Ghost(m): Ghost<(Seq<CodeAnnotation>, Set<int>, nat)>,
) -> (r: (Vec<CodeAnnotation>, usize))
    requires
        anns@ == m.0,
        flags@.len() == obs@.len(),
        forall|i: int| 0 <= i < obs@.len() ==> (flags@[i] <==> m.1.contains(i)),
        occ@.len() == obs@.len(),
        forall|i: int| 0 <= i < obs@.len() ==> occ@[i] == occurrence(obs@, i),
    ensures
        r.0@ == m.0 + Seq::new(
            unmatched(m.1, obs@.len() as int).len(),
            |k: int|
                created_annotation(
                    obs@,
                    unmatched(m.1, obs@.len() as int)[k],
                    new_ids(r.0@, m.0.len() as int)[k],
                ),
        ),
        r.1 == unmatched(m.1, obs@.len() as int).len(),
        forall|k: int| m.0.len() <= k < r.0@.len() ==> is_random_uuid(r.0@[k].id.0),
{
    let mut anns = anns;
    let base = anns.len();
    let mut created: usize = 0;
    let mut i: usize = 0;
    while i < obs.len()
        invariant
            i <= obs@.len(),
            base == m.0.len(),
            flags@.len() == obs@.len(),
            occ@.len() == obs@.len(),
            created == unmatched(m.1, i as int).len(),
            created <= i,
            anns@.len() == base + created,
            anns@.subrange(0, base as int) == m.0,
            forall|k: int| 0 <= k < created ==> 0 <= #[trigger] unmatched(m.1, i as int)[k] < i,
            forall|k: int|
                0 <= k < created ==> #[trigger] anns@[base + k] == created_annotation(
                    obs@,
                    unmatched(m.1, i as int)[k],
                    anns@[base + k].id,
                ),
            forall|k: int| base <= k < anns@.len() ==> is_random_uuid(#[trigger] anns@[k].id.0),
        decreases obs@.len() - i,
    {
        let ghost before = anns@;
        if !flags[i] {
            let f = &obs[i];
            let a = CodeAnnotation {
                id: AnnotationId::generate(),
                repository_id: f.repository_id.clone(),
                path: f.path.clone(),
                line: f.line,
                tag: f.tag.clone(),
                message: f.message.clone(),
                occurrence: occ[i],
                present: true,
                disposition: AnnotationDisposition::Unassigned,
            };
            anns.push(a);
            created = created + 1;
            proof {
                assert(anns@.subrange(0, base as int) =~= before.subrange(0, base as int));
                assert(anns@[base + created - 1] == created_annotation(obs@, i as int, anns@[base + created - 1].id));
            }
        }
        i = i + 1;
    }
    proof {
        let u = unmatched(m.1, obs@.len() as int);
        assert(anns@ =~= m.0 + Seq::new(
            u.len(),
            |k: int| created_annotation(obs@, u[k], new_ids(anns@, m.0.len() as int)[k]),
        )) by {
            assert forall|k: int| 0 <= k < anns@.len() implies anns@[k] == (m.0 + Seq::new(
                u.len(),
                |k: int| created_annotation(obs@, u[k], new_ids(anns@, m.0.len() as int)[k]),
            ))[k] by {
                if k < base {
                    assert(anns@[k] == anns@.subrange(0, base as int)[k]);
                } else {
                    assert(anns@[base + (k - base)] == created_annotation(obs@, u[k - base], anns@[base + (k - base)].id));
                }
            }
        }
    }
    (anns, created)
}

fn count_present(anns: &Vec<CodeAnnotation>) -> (c: usize)
    ensures
        c == present_count(anns@, anns@.len() as int),
{
    let mut c: usize = 0;
    let mut k: usize = 0;
    while k < anns.len()
        invariant
            k <= anns@.len(),
            c <= k,
            c == present_count(anns@, k as int),
        decreases anns@.len() - k,
    {
        if anns[k].present {
            c = c + 1;
        }
        k = k + 1;
    }
    c
}

fn count_unassigned(anns: &Vec<CodeAnnotation>) -> (c: usize)
    ensures
        c == unassigned_count(anns@, anns@.len() as int),
{
    let mut c: usize = 0;
    let mut k: usize = 0;
    while k < anns.len()
        invariant
            k <= anns@.len(),
            c <= k,
            c == unassigned_count(anns@, k as int),
        decreases anns@.len() - k,
    {
        let unassigned = match anns[k].disposition {
            AnnotationDisposition::Unassigned => true,
            _ => false,
        };
        if anns[k].present && unassigned {
            c = c + 1;
        }
        k = k + 1;
    }
    c
}

fn count_disappeared(old: &Vec<CodeAnnotation>, anns: &Vec<CodeAnnotation>) -> (c: usize)
    ensures
        c == disappeared_count(old@, anns@, anns@.len() as int),
{
    let mut c: usize = 0;
    let mut k: usize = 0;
    while k < anns.len()
        invariant
            k <= anns@.len(),
            c <= k,
            c == disappeared_count(old@, anns@, k as int),
        decreases anns@.len() - k,
    {
        if present_before(old, anns[k].id) && !anns[k].present {
            c = c + 1;
        }
        k = k + 1;
    }
    c
}

fn links_of(anns: &Vec<CodeAnnotation>, card: CardId) -> (r: (bool, bool))
    ensures
        r.0 == linked_to(anns@, card),
        r.1 == linked_present(anns@, card),
{
    let mut linked = false;
    let mut present = false;
    let mut k: usize = 0;
    while k < anns.len()
        invariant
            k <= anns@.len(),
            linked == exists|j: int|
                0 <= j < k && anns@[j].disposition == (AnnotationDisposition::Linked {
                    card_id: card,
                }),
            present == exists|j: int|
                0 <= j < k && anns@[j].disposition == (AnnotationDisposition::Linked {
                    card_id: card,
                }) && anns@[j].present,
        decreases anns@.len() - k,
    {
        let is_this = match anns[k].disposition {
            AnnotationDisposition::Linked { card_id } => card_id == card,
            _ => false,
        };
        if is_this {
            linked = true;
            if anns[k].present {
                present = true;
            }
        }
        k = k + 1;
    }
    (linked, present)
}

proof fn lemma_filter_push(s: Seq<CardId>, x: CardId, id: CardId)
    ensures
        s.push(x).filter(other_than(id)) == if x != id {
            s.filter(other_than(id)).push(x)
        } else {
            s.filter(other_than(id))
        },
{
    reveal(Seq::filter);
    assert(s.push(x).drop_last() =~= s);
}

fn without_id(v: &Vec<CardId>, id: CardId) -> (r: Vec<CardId>)
    ensures
        r@ == v@.filter(other_than(id)),
{
    let mut r: Vec<CardId> = Vec::new();
    let mut i: usize = 0;
    proof {
        reveal(Seq::filter);
        assert(v@.subrange(0, 0) =~= Seq::<CardId>::empty());
    }
    while i < v.len()
        invariant
            i <= v@.len(),
            r@ == v@.subrange(0, i as int).filter(other_than(id)),
        decreases v@.len() - i,
    {
        proof {
            lemma_filter_push(v@.subrange(0, i as int), v@[i as int], id);
            assert(v@.subrange(0, i + 1) =~= v@.subrange(0, i as int).push(v@[i as int]));
        }
        if v[i] != id {
            r.push(v[i]);
        }
        i = i + 1;
    }
    assert(v@.subrange(0, v@.len() as int) =~= v@);
    r
}

fn remove_card(o: &Vec<OrderingEntry>, id: CardId) -> (r: Vec<OrderingEntry>)
    ensures
        ordering_view(r@) == without_card(ordering_view(o@), id),
{
    let mut r: Vec<OrderingEntry> = Vec::new();
    let mut i: usize = 0;
    while i < o.len()
        invariant
            i <= o@.len(),
            ordering_view(r@) == without_card(ordering_view(o@.subrange(0, i as int)), id),
        decreases o@.len() - i,
    {
        let cards = without_id(&o[i].cards, id);
        let ghost before = r@;
        r.push(OrderingEntry { column_id: o[i].column_id.clone(), cards });
        i = i + 1;
        assert forall|k: int| 0 <= k < i implies #[trigger] ordering_view(r@)[k] == without_card(
            ordering_view(o@.subrange(0, i as int)),
            id,
        )[k] by {
            if k < i - 1 {
                assert(r@[k] == before[k]);
                assert(ordering_view(before)[k] == without_card(
                    ordering_view(o@.subrange(0, i - 1)),
                    id,
                )[k]);
            }
        }
        assert(ordering_view(r@) =~= without_card(ordering_view(o@.subrange(0, i as int)), id));
    }
    assert(o@.subrange(0, o@.len() as int) =~= o@);
    r
}

fn clone_ordering(o: &Vec<OrderingEntry>) -> (r: Vec<OrderingEntry>)
    ensures
        ordering_view(r@) == ordering_view(o@),
{
    let mut r: Vec<OrderingEntry> = Vec::new();
    let mut i: usize = 0;
    while i < o.len()
        invariant
            i <= o@.len(),
            ordering_view(r@) == ordering_view(o@.subrange(0, i as int)),
        decreases o@.len() - i,
    {
        let ghost before = r@;
        r.push(o[i].clone());
        i = i + 1;
        assert forall|k: int| 0 <= k < i implies #[trigger] ordering_view(r@)[k] == ordering_view(
            o@.subrange(0, i as int),
        )[k] by {
            if k < i - 1 {
                assert(r@[k] == before[k]);
                assert(ordering_view(before)[k] == ordering_view(o@.subrange(0, i - 1))[k]);
            }
        }
        assert(ordering_view(r@) =~= ordering_view(o@.subrange(0, i as int)));
    }
    assert(o@.subrange(0, o@.len() as int) =~= o@);
    r
}

fn add_card(o: Vec<OrderingEntry>, column: &ColumnId, id: CardId) -> (r: Vec<OrderingEntry>)
    ensures
        ordering_view(r@) == with_card(ordering_view(o@), column@, id),
{
    let mut o = o;
    let ghost v = ordering_view(o@);
    let mut e: usize = 0;
    while e < o.len()
        invariant
            e <= o@.len(),
            v == ordering_view(o@),
            entry_index(v, column@, 0) == entry_index(v, column@, e as int),
        decreases o@.len() - e,
    {
        if str_eq(o[e].column_id.as_str(), column.as_str()) {
            break;
        }
        e = e + 1;
    }
    if e < o.len() {
        let mut entry = o[e].clone();
        entry.cards.push(id);
        o.set(e, entry);
        assert(ordering_view(o@) =~= with_card(v, column@, id));
        o
    } else {
        let mut p: usize = 0;
        while p < o.len()
            invariant
                p <= o@.len(),
                v == ordering_view(o@),
                insert_index(v, column@, 0) == insert_index(v, column@, p as int),
            decreases o@.len() - p,
        {
            if compare_text(column.as_str(), o[p].column_id.as_str()) < 0 {
                break;
            }
            p = p + 1;
        }
        let mut cards: Vec<CardId> = Vec::new();
        cards.push(id);
        o.insert(p, OrderingEntry { column_id: column.clone(), cards });
        assert(ordering_view(o@) =~= with_card(v, column@, id));
        o
    }
}

proof fn lemma_card_phase_bounds(
    anns: Seq<CodeAnnotation>,
    cards: Seq<LocalCard>,
    ordering: Seq<(Seq<char>, Seq<CardId>)>,
    n: int,
)
    requires
        0 <= n <= cards.len(),
    ensures
        card_phase(anns, cards, ordering, n).0.len() == cards.len(),
        card_phase(anns, cards, ordering, n).2 + card_phase(anns, cards, ordering, n).3 <= n,
    decreases n,
{
    if n > 0 {
        lemma_card_phase_bounds(anns, cards, ordering, n - 1);
    }
}

fn apply_card_phase(
    anns: &Vec<CodeAnnotation>,
    cards: &Vec<LocalCard>,
    ordering: &Vec<OrderingEntry>,
) -> (r: (Vec<LocalCard>, Vec<OrderingEntry>, usize, usize))
    ensures
        r.0@ == card_phase(anns@, cards@, ordering_view(ordering@), cards@.len() as int).0,
        ordering_view(r.1@) == card_phase(
            anns@,
            cards@,
            ordering_view(ordering@),
            cards@.len() as int,
        ).1,
        r.2 == card_phase(anns@, cards@, ordering_view(ordering@), cards@.len() as int).2,
        r.3 == card_phase(anns@, cards@, ordering_view(ordering@), cards@.len() as int).3,
{
    let ghost ov = ordering_view(ordering@);
    let mut out: Vec<LocalCard> = Vec::new();
    let mut k: usize = 0;
    while k < cards.len()
        invariant
            k <= cards@.len(),
            out@ == cards@.subrange(0, k as int),
        decreases cards@.len() - k,
    {
        out.push(cards[k].clone());
        k = k + 1;
        assert(out@ =~= cards@.subrange(0, k as int));
    }
    assert(out@ =~= cards@);
    let mut order = clone_ordering(ordering);
    let mut archived: usize = 0;
    let mut restored: usize = 0;
    let mut c: usize = 0;
    while c < cards.len()
        invariant
            c <= cards@.len(),
            out@ == card_phase(anns@, cards@, ov, c as int).0,
            ordering_view(order@) == card_phase(anns@, cards@, ov, c as int).1,
            archived == card_phase(anns@, cards@, ov, c as int).2,
            restored == card_phase(anns@, cards@, ov, c as int).3,
        decreases cards@.len() - c,
    {
        proof {
            lemma_card_phase_bounds(anns@, cards@, ov, c as int);
        }
        let card = &cards[c];
        let (linked, any_present) = links_of(anns, card.id);
        if !linked {
        } else if !any_present && !card.archived {
            let mut next = card.clone();
            next.archived = true;
            next.archived_by_sync = true;
            out.set(c, next);
            order = remove_card(&order, card.id);
            archived = archived + 1;
        } else if any_present && card.archived && card.archived_by_sync {
            let mut next = card.clone();
            next.archived = false;
            next.archived_by_sync = false;
            out.set(c, next);
            order = add_card(order, &card.column_id, card.id);
            restored = restored + 1;
        }
        c = c + 1;
    }
    (out, order, archived, restored)
}

/// Reconciles findings that are already in order (see `sort_findings`) with the cards
/// file.
pub fn reconcile_sorted(cards: &CardsFile, obs: &Vec<Finding>) -> (r: (CardsFile, AnnotationSyncSummary))
    requires
        cards.annotations@.len() + obs@.len() <= usize::MAX,
    ensures
        reconciled(*cards, obs@, r.0, r.1),
        forall|k: int|
            cards.annotations@.len() <= k < r.0.annotations@.len() ==> is_random_uuid(
                r.0.annotations@[k].id.0,
            ),
{
    let ghost olds = cards.annotations@;
    let occ = occurrences(obs);
    let (anns, matched, flags, updated) = match_exactly(&cards.annotations, obs, &occ);
    proof {
        lemma_exact_matching_bounds(olds, obs@, obs@.len() as int);
    }
    let ghost s = exact_matching(olds, obs@, obs@.len() as int);
    let (anns, flags, updated) = match_cautiously(
        anns,
        &matched,
        flags,
        updated,
        obs,
        &occ,
        Ghost(s),
    );
    let ghost m = matching(olds, obs@);
    let (anns, created) = create_annotations(anns, &flags, obs, &occ, Ghost(m));
    let disappeared = count_disappeared(&cards.annotations, &anns);
    let (new_cards, ordering, archived_cards, restored_cards) = apply_card_phase(
        &anns,
        &cards.cards,
        &cards.ordering,
    );
    let present = count_present(&anns);
    let unassigned = count_unassigned(&anns);
    let next = CardsFile {
        schema_version: cards.schema_version,
        workspace_id: cards.workspace_id,
        cards: new_cards,
        ordering,
        annotations: anns,
    };
    let summary = AnnotationSyncSummary {
        created,
        updated,
        disappeared,
        archived_cards,
        restored_cards,
        present,
        unassigned,
    };
    (next, summary)
}

/// Reconciles the findings of a scan with the cards file: the findings are put in order
/// (`sort_findings`), then matched as `reconciled` states. New annotations get fresh random
/// identities.
pub fn reconcile_annotations(cards: &CardsFile, findings: Vec<Finding>) -> (r: (
    CardsFile,
    AnnotationSyncSummary,
))
    requires
        cards.annotations@.len() + findings@.len() <= usize::MAX,
    ensures
        exists|obs: Seq<Finding>|
            obs.to_multiset() == findings@.to_multiset() && findings_sorted(obs) && reconciled(
                *cards,
                obs,
                r.0,
                r.1,
            ),
        forall|k: int|
            cards.annotations@.len() <= k < r.0.annotations@.len() ==> is_random_uuid(
                r.0.annotations@[k].id.0,
            ),
{
    let sorted = sort_findings(findings);
    proof {
        assert(sorted@.to_multiset().len() == findings@.to_multiset().len());
    }
    let r = reconcile_sorted(cards, &sorted);
    assert(sorted@.to_multiset() == findings@.to_multiset() && findings_sorted(sorted@)
        && reconciled(*cards, sorted@, r.0, r.1));
    r
}


/// Whether `b` is `a` with at most its line, message, occurrence and presence changed.
pub open spec fn same_identity(a: CodeAnnotation, b: CodeAnnotation) -> bool {
    &&& b.id == a.id
    &&& b.repository_id@ == a.repository_id@
    &&& b.path@ == a.path@
    &&& b.tag@ == a.tag@
    &&& b.disposition == a.disposition
}

pub(crate) proof fn lemma_exact_matching_identity(old: Seq<CodeAnnotation>, obs: Seq<Finding>, n: int)
    requires
        0 <= n <= obs.len(),
    ensures
        exact_matching(old, obs, n).0.len() == old.len(),
        forall|k: int|
            0 <= k < old.len() ==> same_identity(old[k], #[trigger] exact_matching(old, obs, n).0[k]),
    decreases n,
{
    if n > 0 {
        lemma_exact_matching_identity(old, obs, n - 1);
        let s = exact_matching(old, obs, n - 1);
        lemma_first_fit_bounds(s.0, s.1, obs[n - 1], occurrence(obs, n - 1), 0);
        assert forall|k: int| 0 <= k < old.len() implies same_identity(
            old[k],
            #[trigger] exact_matching(old, obs, n).0[k],
        ) by {
            assert(same_identity(old[k], s.0[k]));
        }
    }
}

/// Reconciliation never drops or re-identifies a tracked annotation: the annotations of the
/// cards file keep their places, identities, files, tags and links, and the new ones are
/// appended after them, as many as `created` says.
pub proof fn lemma_reconcile_keeps_identities(
    old: CardsFile,
    obs: Seq<Finding>,
    next: CardsFile,
    summary: AnnotationSyncSummary,
)
    requires
        reconciled(old, obs, next, summary),
    ensures
        next.annotations@.len() == old.annotations@.len() + summary.created,
        forall|k: int|
            0 <= k < old.annotations@.len() ==> same_identity(
                old.annotations@[k],
                #[trigger] next.annotations@[k],
            ),
{
    let olds = old.annotations@;
    lemma_exact_matching_identity(olds, obs, obs.len() as int);
    let s = exact_matching(olds, obs, obs.len() as int);
    let m = matching(olds, obs);
    assert forall|k: int| 0 <= k < olds.len() implies same_identity(
        olds[k],
        #[trigger] next.annotations@[k],
    ) by {
        assert(same_identity(olds[k], s.0[k]));
        assert(next.annotations@[k] == m.0[k]);
    }
}


// ---------------------------------------------------------------------------------------
// Every finding is accounted for exactly once
// ---------------------------------------------------------------------------------------

/// How many of the indices below `n` the set holds.
pub open spec fn matched_count(m: Set<int>, n: int) -> nat
    decreases n,
{
    if n <= 0 {
        0
    } else {
        matched_count(m, n - 1) + if m.contains(n - 1) {
            1nat
        } else {
            0nat
        }
    }
}

proof fn lemma_matched_count_bound(m: Set<int>, k: int, n: int)
    requires
        0 <= k <= n,
        forall|i: int| m.contains(i) ==> 0 <= i < k,
    ensures
        matched_count(m, n) == matched_count(m, k),
    decreases n,
{
    if n > k {
        lemma_matched_count_bound(m, k, n - 1);
    }
}

proof fn lemma_matched_count_insert(m: Set<int>, x: int, n: int)
    requires
        0 <= x < n,
        !m.contains(x),
    ensures
        matched_count(m.insert(x), n) == matched_count(m, n) + 1,
    decreases n,
{
    if n - 1 > x {
        lemma_matched_count_insert(m, x, n - 1);
    } else {
        lemma_matched_count_same(m.insert(x), m, n - 1);
    }
}

proof fn lemma_matched_count_same(a: Set<int>, b: Set<int>, n: int)
    requires
        forall|i: int| 0 <= i < n ==> (a.contains(i) <==> b.contains(i)),
    ensures
        matched_count(a, n) == matched_count(b, n),
    decreases n,
{
    if n > 0 {
        lemma_matched_count_same(a, b, n - 1);
    }
}

proof fn lemma_unmatched_len(m: Set<int>, n: int)
    requires
        0 <= n,
    ensures
        unmatched(m, n).len() + matched_count(m, n) == n,
    decreases n,
{
    if n > 0 {
        lemma_unmatched_len(m, n - 1);
    }
}

proof fn lemma_present_update(anns: Seq<CodeAnnotation>, a: int, x: CodeAnnotation, n: int)
    requires
        0 <= a < anns.len(),
        0 <= n <= anns.len(),
        !anns[a].present,
        x.present,
    ensures
        present_count(anns.update(a, x), n) == present_count(anns, n) + if a < n {
            1nat
        } else {
            0nat
        },
    decreases n,
{
    if n > 0 {
        lemma_present_update(anns, a, x, n - 1);
    }
}

proof fn lemma_present_all_absent(old: Seq<CodeAnnotation>, n: int)
    requires
        0 <= n <= old.len(),
    ensures
        present_count(old.map_values(|a: CodeAnnotation| absent(a)), n) == 0,
    decreases n,
{
    if n > 0 {
        lemma_present_all_absent(old, n - 1);
    }
}

/// What the exact matching keeps true: the annotations found are those whose identity was
/// matched, as many as the findings matched, all below `n`.
proof fn lemma_exact_matching_counts(old: Seq<CodeAnnotation>, obs: Seq<Finding>, n: int)
    requires
        0 <= n <= obs.len(),
    ensures
        ({
            let s = exact_matching(old, obs, n);
            &&& s.0.len() == old.len()
            &&& forall|k: int| 0 <= k < s.0.len() && (#[trigger] s.0[k]).present ==> s.1.contains(s.0[k].id)
            &&& forall|i: int| s.2.contains(i) ==> 0 <= i < n
            &&& present_count(s.0, s.0.len() as int) == matched_count(s.2, n)
        }),
    decreases n,
{
    if n == 0 {
        lemma_present_all_absent(old, old.len() as int);
    } else {
        lemma_exact_matching_counts(old, obs, n - 1);
        let s = exact_matching(old, obs, n - 1);
        let i = n - 1;
        lemma_first_fit_bounds(s.0, s.1, obs[i], occurrence(obs, i), 0);
        lemma_matched_count_bound(s.2, n - 1, n);
        match first_fit(s.0, s.1, obs[i], occurrence(obs, i), 0) {
            None => {},
            Some(a) => {
                let x = seen_at(s.0[a], obs[i].line);
                lemma_present_update(s.0, a, x, s.0.len() as int);
                lemma_matched_count_insert(s.2, i, n);
                let t = exact_matching(old, obs, n);
                assert forall|k: int| 0 <= k < t.0.len() && (#[trigger] t.0[k]).present implies t.1.contains(
                    t.0[k].id,
                ) by {
                    if k != a {
                        assert(t.0[k] == s.0[k]);
                    }
                }
            },
        }
    }
}

/// The findings followed cautiously by the first `m` annotations.
pub open spec fn partners_before(s: (Seq<CodeAnnotation>, Set<AnnotationId>, Set<int>, nat), obs: Seq<Finding>, m: int) -> Set<int> {
    Set::new(|i: int| exists|a: int| 0 <= a < m && cautious(s, obs, a) && partner(s, obs, a) == i)
}

proof fn lemma_old_in_group_counts(
    anns: Seq<CodeAnnotation>,
    matched: Set<AnnotationId>,
    a: int,
    j: int,
    n: int,
)
    requires
        0 <= j < n,
        old_candidate(anns, matched, j),
        same_group(anns[j], anns[a]),
    ensures
        old_in_group(anns, matched, a, n) >= 1 + old_in_group(anns, matched, a, j),
    decreases n,
{
    if n - 1 > j {
        lemma_old_in_group_counts(anns, matched, a, j, n - 1);
    }
}

proof fn lemma_old_in_group_monotone(anns: Seq<CodeAnnotation>, matched: Set<AnnotationId>, a: int, k: int, n: int)
    requires
        0 <= k <= n,
    ensures
        old_in_group(anns, matched, a, k) <= old_in_group(anns, matched, a, n),
    decreases n,
{
    if n > k {
        lemma_old_in_group_monotone(anns, matched, a, k, n - 1);
    }
}

pub(crate) proof fn lemma_partners_distinct(
    s: (Seq<CodeAnnotation>, Set<AnnotationId>, Set<int>, nat),
    obs: Seq<Finding>,
    a: int,
    b: int,
)
    requires
        0 <= a < b < s.0.len(),
        cautious(s, obs, a),
        cautious(s, obs, b),
    ensures
        partner(s, obs, a) != partner(s, obs, b),
{
    lemma_first_new_found(s.0, s.2, obs, a, 0, obs.len() as int);
    lemma_first_new_found(s.0, s.2, obs, b, 0, obs.len() as int);
    lemma_first_new_is_new(s.0, s.2, obs, a, 0);
    lemma_first_new_is_new(s.0, s.2, obs, b, 0);
    if partner(s, obs, a) == partner(s, obs, b) {
        let f = obs[partner(s, obs, a)];
        assert(same_group(s.0[a], s.0[b]));
        lemma_old_in_group_counts(s.0, s.1, b, a, b);
        lemma_old_in_group_counts(s.0, s.1, b, b, s.0.len() as int);
        lemma_old_in_group_monotone(s.0, s.1, b, a + 1, b);
    }
}

proof fn lemma_partners_count(
    s: (Seq<CodeAnnotation>, Set<AnnotationId>, Set<int>, nat),
    obs: Seq<Finding>,
    m: int,
)
    requires
        0 <= m <= s.0.len(),
    ensures
        matched_count(partners_before(s, obs, m), obs.len() as int) == count_cautious(s, obs, m),
        forall|i: int| #[trigger] partners_before(s, obs, m).contains(i) ==> 0 <= i < obs.len(),
        forall|i: int| #[trigger] partners_before(s, obs, m).contains(i) ==> !s.2.contains(i),
    decreases m,
{
    if m == 0 {
        assert(partners_before(s, obs, 0) =~= Set::<int>::empty());
        lemma_matched_count_same(partners_before(s, obs, 0), Set::empty(), obs.len() as int);
        lemma_matched_count_bound(Set::empty(), 0, obs.len() as int);
        assert forall|i: int| partners_before(s, obs, m).contains(i) implies 0 <= i < obs.len()
            && !s.2.contains(i) by {
            assert(!Set::<int>::empty().contains(i));
        }
    } else {
        lemma_partners_count(s, obs, m - 1);
        let prev = partners_before(s, obs, m - 1);
        let a = m - 1;
        assert forall|i: int| partners_before(s, obs, m).contains(i) implies 0 <= i < obs.len()
            && !s.2.contains(i) by {
            let b = choose|b: int| 0 <= b < m && cautious(s, obs, b) && partner(s, obs, b) == i;
            lemma_first_new_found(s.0, s.2, obs, b, 0, obs.len() as int);
            lemma_first_new_is_new(s.0, s.2, obs, b, 0);
        }
        if cautious(s, obs, a) {
            let p = partner(s, obs, a);
            lemma_first_new_found(s.0, s.2, obs, a, 0, obs.len() as int);
            if prev.contains(p) {
                let b = choose|b: int| 0 <= b < m - 1 && cautious(s, obs, b) && partner(s, obs, b) == p;
                lemma_partners_distinct(s, obs, b, a);
            }
            assert(partners_before(s, obs, m) =~= prev.insert(p));
            lemma_matched_count_insert(prev, p, obs.len() as int);
        } else {
            assert(partners_before(s, obs, m) =~= prev);
        }
    }
}

proof fn lemma_cautious_present(
    s: (Seq<CodeAnnotation>, Set<AnnotationId>, Set<int>, nat),
    obs: Seq<Finding>,
    m: int,
)
    requires
        0 <= m <= s.0.len(),
        forall|k: int| 0 <= k < s.0.len() && (#[trigger] s.0[k]).present ==> s.1.contains(s.0[k].id),
    ensures
        present_count(cautious_matching(s, obs).0, m) == present_count(s.0, m) + count_cautious(
            s,
            obs,
            m,
        ),
    decreases m,
{
    if m > 0 {
        lemma_cautious_present(s, obs, m - 1);
    }
}

proof fn lemma_present_concat(a: Seq<CodeAnnotation>, b: Seq<CodeAnnotation>, n: int)
    requires
        0 <= n <= b.len(),
    ensures
        present_count(a + b, a.len() + n) == present_count(a, a.len() as int) + present_count(
            b,
            n,
        ),
    decreases n,
{
    if n == 0 {
        assert forall|k: int| 0 <= k <= a.len() implies present_count(a + b, k) == present_count(a, k) by {
            lemma_present_prefix(a, b, k);
        }
    } else {
        lemma_present_concat(a, b, n - 1);
        assert((a + b)[a.len() + n - 1] == b[n - 1]);
    }
}

proof fn lemma_present_prefix(a: Seq<CodeAnnotation>, b: Seq<CodeAnnotation>, k: int)
    requires
        0 <= k <= a.len(),
    ensures
        present_count(a + b, k) == present_count(a, k),
    decreases k,
{
    if k > 0 {
        lemma_present_prefix(a, b, k - 1);
        assert((a + b)[k - 1] == a[k - 1]);
    }
}

proof fn lemma_all_present(b: Seq<CodeAnnotation>, n: int)
    requires
        0 <= n <= b.len(),
        forall|k: int| 0 <= k < b.len() ==> (#[trigger] b[k]).present,
    ensures
        present_count(b, n) == n,
    decreases n,
{
    if n > 0 {
        lemma_all_present(b, n - 1);
    }
}

/// After a reconciliation, exactly as many annotations are present as there were findings:
/// each finding is represented by one annotation, and no annotation stands for two findings.
pub proof fn lemma_every_finding_present_once(
    old: CardsFile,
    obs: Seq<Finding>,
    next: CardsFile,
    summary: AnnotationSyncSummary,
)
    requires
        reconciled(old, obs, next, summary),
    ensures
        summary.present == obs.len(),
{
    let olds = old.annotations@;
    let n = obs.len() as int;
    lemma_exact_matching_counts(olds, obs, n);
    let s = exact_matching(olds, obs, n);
    let cm = cautious_matching(s, obs);
    lemma_cautious_present(s, obs, s.0.len() as int);
    lemma_partners_count(s, obs, s.0.len() as int);
    let parts = partners_before(s, obs, s.0.len() as int);
    assert forall|i: int| 0 <= i < n implies (cm.1.contains(i) <==> (s.2.contains(i) || parts.contains(i))) by {}
    lemma_disjoint_union_count(s.2, parts, cm.1, n);
    lemma_unmatched_len(cm.1, n);
    let u = unmatched(cm.1, n);
    let ids = new_ids(next.annotations@, olds.len() as int);
    let created = Seq::new(u.len(), |k: int| created_annotation(obs, u[k], ids[k]));
    lemma_all_present(created, created.len() as int);
    lemma_present_concat(cm.0, created, created.len() as int);
    lemma_matched_count_bound(s.2, n, n);
}

proof fn lemma_disjoint_union_count(a: Set<int>, b: Set<int>, c: Set<int>, n: int)
    requires
        0 <= n,
        forall|i: int| 0 <= i < n ==> (c.contains(i) <==> (a.contains(i) || b.contains(i))),
        forall|i: int| 0 <= i < n && b.contains(i) ==> !a.contains(i),
    ensures
        matched_count(c, n) == matched_count(a, n) + matched_count(b, n),
    decreases n,
{
    if n > 0 {
        lemma_disjoint_union_count(a, b, c, n - 1);
    }
}


/// What checking one card against the annotations does to it: archived by the sync when no
/// linked annotation is present any more, restored when one is present again and the sync
/// had archived it, unchanged otherwise (a card archived by the user stays archived).
pub open spec fn card_outcome(anns: Seq<CodeAnnotation>, c: LocalCard) -> LocalCard {
    if !linked_to(anns, c.id) {
        c
    } else if !linked_present(anns, c.id) && !c.archived {
        LocalCard { archived: true, archived_by_sync: true, ..c }
    } else if linked_present(anns, c.id) && c.archived && c.archived_by_sync {
        LocalCard { archived: false, archived_by_sync: false, ..c }
    } else {
        c
    }
}

pub(crate) proof fn lemma_card_phase_cards(
    anns: Seq<CodeAnnotation>,
    cards: Seq<LocalCard>,
    ordering: Seq<(Seq<char>, Seq<CardId>)>,
    n: int,
)
    requires
        0 <= n <= cards.len(),
    ensures
        card_phase(anns, cards, ordering, n).0.len() == cards.len(),
        forall|j: int|
            0 <= j < cards.len() ==> #[trigger] card_phase(anns, cards, ordering, n).0[j] == if j < n {
                card_outcome(anns, cards[j])
            } else {
                cards[j]
            },
    decreases n,
{
    if n > 0 {
        lemma_card_phase_cards(anns, cards, ordering, n - 1);
    }
}

/// Whether checking the card restores it: the sync had archived it and a linked annotation
/// is present again.
pub open spec fn restores(anns: Seq<CodeAnnotation>, c: LocalCard) -> bool {
    linked_present(anns, c.id) && c.archived && c.archived_by_sync
}

/// Whether checking the card archives it: annotations are linked to it, none is present,
/// and it is on the board.
pub open spec fn sync_archives(anns: Seq<CodeAnnotation>, c: LocalCard) -> bool {
    linked_to(anns, c.id) && !linked_present(anns, c.id) && !c.archived
}

/// How many of the first `n` cards checking restores.
pub open spec fn restored_count(anns: Seq<CodeAnnotation>, cards: Seq<LocalCard>, n: int) -> nat
    decreases n,
{
    if n <= 0 {
        0
    } else {
        restored_count(anns, cards, n - 1) + if restores(anns, cards[n - 1]) {
            1nat
        } else {
            0nat
        }
    }
}

/// How many of the first `n` cards checking archives.
pub open spec fn sync_archived_count(anns: Seq<CodeAnnotation>, cards: Seq<LocalCard>, n: int) -> nat
    decreases n,
{
    if n <= 0 {
        0
    } else {
        sync_archived_count(anns, cards, n - 1) + if sync_archives(anns, cards[n - 1]) {
            1nat
        } else {
            0nat
        }
    }
}

proof fn lemma_card_phase_counts(
    anns: Seq<CodeAnnotation>,
    cards: Seq<LocalCard>,
    ordering: Seq<(Seq<char>, Seq<CardId>)>,
    n: int,
)
    requires
        0 <= n <= cards.len(),
    ensures
        card_phase(anns, cards, ordering, n).2 == sync_archived_count(anns, cards, n),
        card_phase(anns, cards, ordering, n).3 == restored_count(anns, cards, n),
    decreases n,
{
    if n > 0 {
        lemma_card_phase_counts(anns, cards, ordering, n - 1);
        let c = cards[n - 1];
        if linked_present(anns, c.id) {
            let k = choose|k: int|
                0 <= k < anns.len() && anns[k].disposition == (AnnotationDisposition::Linked {
                    card_id: c.id,
                }) && anns[k].present;
            assert(linked_to(anns, c.id));
        }
    }
}

/// Every card of the cards file comes out of reconciliation as `card_outcome` says: a card
/// that the sync archived is restored once an annotation linked to it is present again,
/// and a card archived by the user stays as it was, whatever the scan finds.
pub proof fn lemma_reconciled_cards(
    old: CardsFile,
    obs: Seq<Finding>,
    next: CardsFile,
    summary: AnnotationSyncSummary,
)
    requires
        reconciled(old, obs, next, summary),
    ensures
        next.cards@.len() == old.cards@.len(),
        forall|j: int|
            0 <= j < old.cards@.len() ==> #[trigger] next.cards@[j] == card_outcome(
                next.annotations@,
                old.cards@[j],
            ),
        forall|j: int|
            0 <= j < old.cards@.len() && old.cards@[j].archived && old.cards@[j].archived_by_sync
                && linked_present(next.annotations@, old.cards@[j].id) ==> !(
            #[trigger] next.cards@[j]).archived && !next.cards@[j].archived_by_sync,
        forall|j: int|
            0 <= j < old.cards@.len() && old.cards@[j].archived && !old.cards@[j].archived_by_sync
                ==> #[trigger] next.cards@[j] == old.cards@[j],
        summary.restored_cards == restored_count(next.annotations@, old.cards@, old.cards@.len() as int),
        summary.archived_cards == sync_archived_count(
            next.annotations@,
            old.cards@,
            old.cards@.len() as int,
        ),
{
    let anns = next.annotations@;
    lemma_card_phase_cards(anns, old.cards@, ordering_view(old.ordering@), old.cards@.len() as int);
    lemma_card_phase_counts(anns, old.cards@, ordering_view(old.ordering@), old.cards@.len() as int);
}


proof fn lemma_restored_count_positive(anns: Seq<CodeAnnotation>, cards: Seq<LocalCard>, j: int, n: int)
    requires
        0 <= j < n,
        restores(anns, cards[j]),
    ensures
        restored_count(anns, cards, n) >= 1,
    decreases n,
{
    if n - 1 > j {
        lemma_restored_count_positive(anns, cards, j, n - 1);
    }
}

proof fn lemma_sync_archived_count_positive(
    anns: Seq<CodeAnnotation>,
    cards: Seq<LocalCard>,
    j: int,
    n: int,
)
    requires
        0 <= j < n,
        sync_archives(anns, cards[j]),
    ensures
        sync_archived_count(anns, cards, n) >= 1,
    decreases n,
{
    if n - 1 > j {
        lemma_sync_archived_count_positive(anns, cards, j, n - 1);
    }
}

/// A card on the board whose linked annotations all disappear is archived by the sync and
/// counted as archived; when a later reconciliation finds one of its annotations again, the
/// card comes back and is counted as restored.
pub proof fn lemma_archived_by_sync_then_restored(
    old: CardsFile,
    obs1: Seq<Finding>,
    archived: CardsFile,
    s1: AnnotationSyncSummary,
    obs2: Seq<Finding>,
    restored: CardsFile,
    s2: AnnotationSyncSummary,
    j: int,
)
    requires
        reconciled(old, obs1, archived, s1),
        reconciled(archived, obs2, restored, s2),
        0 <= j < old.cards@.len(),
        !old.cards@[j].archived,
        linked_to(archived.annotations@, old.cards@[j].id),
        !linked_present(archived.annotations@, old.cards@[j].id),
        linked_present(restored.annotations@, old.cards@[j].id),
    ensures
        archived.cards@[j].archived,
        archived.cards@[j].archived_by_sync,
        s1.archived_cards >= 1,
        !restored.cards@[j].archived,
        !restored.cards@[j].archived_by_sync,
        s2.restored_cards >= 1,
{
    lemma_reconciled_cards(old, obs1, archived, s1);
    lemma_reconciled_cards(archived, obs2, restored, s2);
    lemma_sync_archived_count_positive(
        archived.annotations@,
        old.cards@,
        j,
        old.cards@.len() as int,
    );
    lemma_restored_count_positive(
        restored.annotations@,
        archived.cards@,
        j,
        archived.cards@.len() as int,
    );
}

/// Whether the card order lists the card in the entry of the column.
pub open spec fn ordered_in(o: Seq<(Seq<char>, Seq<CardId>)>, column: Seq<char>, id: CardId) -> bool {
    exists|e: int| 0 <= e < o.len() && o[e].0 == column && (#[trigger] o[e]).1.contains(id)
}

proof fn lemma_without_other_keeps(o: Seq<(Seq<char>, Seq<CardId>)>, column: Seq<char>, id: CardId, x: CardId)
    requires
        ordered_in(o, column, id),
        x != id,
    ensures
        ordered_in(without_card(o, x), column, id),
{
    let e = choose|e: int| 0 <= e < o.len() && o[e].0 == column && (#[trigger] o[e]).1.contains(id);
    let k = choose|k: int| 0 <= k < o[e].1.len() && o[e].1[k] == id;
    o[e].1.lemma_filter_contains(other_than(x), k);
    let w = without_card(o, x);
    assert(w[e] == (o[e].0, o[e].1.filter(other_than(x))));
}

proof fn lemma_with_card_keeps(o: Seq<(Seq<char>, Seq<CardId>)>, column: Seq<char>, id: CardId, c: Seq<char>, x: CardId)
    requires
        ordered_in(o, column, id),
    ensures
        ordered_in(with_card(o, c, x), column, id),
{
    let e = choose|e: int| 0 <= e < o.len() && o[e].0 == column && (#[trigger] o[e]).1.contains(id);
    let k = choose|k: int| 0 <= k < o[e].1.len() && o[e].1[k] == id;
    lemma_entry_index_range(o, c, 0);
    let f = entry_index(o, c, 0);
    let w = with_card(o, c, x);
    if f < o.len() {
        assert(w == o.update(f, (o[f].0, o[f].1.push(x))));
        if f == e {
            assert(w[e] == (o[e].0, o[e].1.push(x)));
            assert(w[e].1[k] == id);
        } else {
            assert(w[e] == o[e]);
        }
    } else {
        lemma_insert_index_range(o, c, 0);
        let p = insert_index(o, c, 0);
        o.insert_ensures(p, (c, seq![x]));
        if e < p {
            assert(w[e] == o[e]);
        } else {
            assert(w[e + 1] == o[e]);
        }
    }
}

proof fn lemma_with_card_adds(o: Seq<(Seq<char>, Seq<CardId>)>, c: Seq<char>, x: CardId)
    ensures
        ordered_in(with_card(o, c, x), c, x),
{
    lemma_entry_index_range(o, c, 0);
    let f = entry_index(o, c, 0);
    let w = with_card(o, c, x);
    if f < o.len() {
        assert(w == o.update(f, (o[f].0, o[f].1.push(x))));
        assert(w[f] == (o[f].0, o[f].1.push(x)));
        assert(w[f].1[o[f].1.len() as int] == x);
    } else {
        lemma_insert_index_range(o, c, 0);
        let p = insert_index(o, c, 0);
        o.insert_ensures(p, (c, seq![x]));
        assert(w[p] == (c, seq![x]));
        assert(w[p].1[0] == x);
    }
}

proof fn lemma_entry_index_range(o: Seq<(Seq<char>, Seq<CardId>)>, c: Seq<char>, k: int)
    requires
        0 <= k,
    ensures
        k <= entry_index(o, c, k) <= o.len() || (k > o.len() && entry_index(o, c, k) == o.len()),
        entry_index(o, c, k) < o.len() ==> o[entry_index(o, c, k)].0 == c,
    decreases o.len() - k,
{
    if k < o.len() {
        lemma_entry_index_range(o, c, k + 1);
    }
}

proof fn lemma_insert_index_range(o: Seq<(Seq<char>, Seq<CardId>)>, c: Seq<char>, k: int)
    requires
        0 <= k <= o.len(),
    ensures
        k <= insert_index(o, c, k) <= o.len(),
    decreases o.len() - k,
{
    if k < o.len() {
        lemma_insert_index_range(o, c, k + 1);
    }
}

proof fn lemma_restored_stays_ordered(
    anns: Seq<CodeAnnotation>,
    cards: Seq<LocalCard>,
    ordering: Seq<(Seq<char>, Seq<CardId>)>,
    j: int,
    n: int,
)
    requires
        0 <= j < n <= cards.len(),
        forall|a: int, b: int| 0 <= a < b < cards.len() ==> #[trigger] cards[a].id != #[trigger] cards[b].id,
        linked_present(anns, cards[j].id),
        cards[j].archived,
        cards[j].archived_by_sync,
    ensures
        ordered_in(card_phase(anns, cards, ordering, n).1, cards[j].column_id@, cards[j].id),
    decreases n,
{
    let id = cards[j].id;
    let col = cards[j].column_id@;
    if n - 1 == j {
        lemma_with_card_adds(card_phase(anns, cards, ordering, n - 1).1, col, id);
    } else {
        lemma_restored_stays_ordered(anns, cards, ordering, j, n - 1);
        let s = card_phase(anns, cards, ordering, n - 1);
        let c = cards[n - 1];
        assert(c.id != id);
        if linked_to(anns, c.id) {
            if !linked_present(anns, c.id) && !c.archived {
                lemma_without_other_keeps(s.1, col, id, c.id);
            } else if linked_present(anns, c.id) && c.archived && c.archived_by_sync {
                lemma_with_card_keeps(s.1, col, id, c.column_id@, c.id);
            }
        }
    }
}

/// A card that the sync archived and that reconciliation restores goes back into the card
/// order of its column (where no two cards share an identity).
pub proof fn lemma_restored_card_is_ordered(
    old: CardsFile,
    obs: Seq<Finding>,
    next: CardsFile,
    summary: AnnotationSyncSummary,
    j: int,
)
    requires
        reconciled(old, obs, next, summary),
        0 <= j < old.cards@.len(),
        forall|a: int, b: int|
            0 <= a < b < old.cards@.len() ==> #[trigger] old.cards@[a].id != #[trigger] old.cards@[b].id,
        old.cards@[j].archived,
        old.cards@[j].archived_by_sync,
        linked_present(next.annotations@, old.cards@[j].id),
    ensures
        ordered_in(ordering_view(next.ordering@), old.cards@[j].column_id@, old.cards@[j].id),
{
    lemma_restored_stays_ordered(
        next.annotations@,
        old.cards@,
        ordering_view(old.ordering@),
        j,
        old.cards@.len() as int,
    );
}


/// Whether the card order has one entry per column, by column identity in text order: what
/// a sorted map from column to cards holds.
pub open spec fn ordering_sorted(o: Seq<(Seq<char>, Seq<CardId>)>) -> bool {
    forall|a: int, b: int| 0 <= a < b < o.len() ==> text_lt(#[trigger] o[a].0, #[trigger] o[b].0)
}

proof fn lemma_without_card_sorted(o: Seq<(Seq<char>, Seq<CardId>)>, x: CardId)
    requires
        ordering_sorted(o),
    ensures
        ordering_sorted(without_card(o, x)),
{
    let w = without_card(o, x);
    assert forall|a: int, b: int| 0 <= a < b < w.len() implies text_lt(#[trigger] w[a].0, #[trigger] w[b].0) by {
        assert(w[a].0 == o[a].0 && w[b].0 == o[b].0);
        assert(text_lt(o[a].0, o[b].0));
    }
}

proof fn lemma_insert_point_order(o: Seq<(Seq<char>, Seq<CardId>)>, c: Seq<char>, k: int)
    requires
        0 <= k <= o.len(),
        forall|j: int| 0 <= j < o.len() ==> #[trigger] o[j].0 != c,
    ensures
        forall|j: int| k <= j < insert_index(o, c, k) ==> text_lt(#[trigger] o[j].0, c),
        insert_index(o, c, k) < o.len() ==> text_lt(c, o[insert_index(o, c, k)].0),
    decreases o.len() - k,
{
    if k < o.len() {
        lemma_insert_point_order(o, c, k + 1);
        if !text_lt(c, o[k].0) {
            lemma_text_lt_total(c, o[k].0);
        }
    }
}

proof fn lemma_with_card_sorted(o: Seq<(Seq<char>, Seq<CardId>)>, c: Seq<char>, x: CardId)
    requires
        ordering_sorted(o),
    ensures
        ordering_sorted(with_card(o, c, x)),
{
    lemma_entry_index_range(o, c, 0);
    let f = entry_index(o, c, 0);
    let w = with_card(o, c, x);
    if f < o.len() {
        assert(w == o.update(f, (o[f].0, o[f].1.push(x))));
        assert forall|a: int, b: int| 0 <= a < b < w.len() implies text_lt(
            #[trigger] w[a].0,
            #[trigger] w[b].0,
        ) by {
            assert(w[a].0 == o[a].0 && w[b].0 == o[b].0);
            assert(text_lt(o[a].0, o[b].0));
        }
    } else {
        lemma_no_entry_for(o, c, 0);
        lemma_insert_index_range(o, c, 0);
        let p = insert_index(o, c, 0);
        lemma_insert_point_order(o, c, 0);
        o.insert_ensures(p, (c, seq![x]));
        assert forall|a: int, b: int| 0 <= a < b < w.len() implies text_lt(
            #[trigger] w[a].0,
            #[trigger] w[b].0,
        ) by {
            if b < p {
                assert(w[a] == o[a] && w[b] == o[b]);
                assert(text_lt(o[a].0, o[b].0));
            } else if b == p {
                assert(w[a] == o[a]);
                assert(text_lt(o[a].0, c));
            } else if a < p {
                assert(w[a] == o[a] && w[b] == o[b - 1]);
                assert(text_lt(o[a].0, c));
                assert(text_lt(c, o[p].0));
                if b - 1 > p {
                    assert(text_lt(o[p].0, o[b - 1].0));
                    lemma_text_lt_transitive(c, o[p].0, o[b - 1].0);
                }
                lemma_text_lt_transitive(o[a].0, c, o[b - 1].0);
            } else if a == p {
                assert(w[b] == o[b - 1]);
                assert(text_lt(c, o[p].0));
                if b - 1 > p {
                    assert(text_lt(o[p].0, o[b - 1].0));
                    lemma_text_lt_transitive(c, o[p].0, o[b - 1].0);
                }
            } else {
                assert(w[a] == o[a - 1] && w[b] == o[b - 1]);
                assert(text_lt(o[a - 1].0, o[b - 1].0));
            }
        }
    }
}

proof fn lemma_no_entry_for(o: Seq<(Seq<char>, Seq<CardId>)>, c: Seq<char>, k: int)
    requires
        0 <= k,
        entry_index(o, c, k) >= o.len(),
    ensures
        forall|j: int| k <= j < o.len() ==> #[trigger] o[j].0 != c,
    decreases o.len() - k,
{
    if k < o.len() {
        lemma_no_entry_for(o, c, k + 1);
    }
}

proof fn lemma_card_phase_sorted(
    anns: Seq<CodeAnnotation>,
    cards: Seq<LocalCard>,
    ordering: Seq<(Seq<char>, Seq<CardId>)>,
    n: int,
)
    requires
        0 <= n <= cards.len(),
        ordering_sorted(ordering),
    ensures
        ordering_sorted(card_phase(anns, cards, ordering, n).1),
    decreases n,
{
    if n > 0 {
        lemma_card_phase_sorted(anns, cards, ordering, n - 1);
        let s = card_phase(anns, cards, ordering, n - 1);
        let c = cards[n - 1];
        if linked_to(anns, c.id) {
            if !linked_present(anns, c.id) && !c.archived {
                lemma_without_card_sorted(s.1, c.id);
            } else if linked_present(anns, c.id) && c.archived && c.archived_by_sync {
                lemma_with_card_sorted(s.1, c.column_id@, c.id);
            }
        }
    }
}

/// Reconciliation keeps the card order a sorted map: one entry per column identity, in text
/// order.
pub proof fn lemma_reconcile_keeps_ordering_sorted(
    old: CardsFile,
    obs: Seq<Finding>,
    next: CardsFile,
    summary: AnnotationSyncSummary,
)
    requires
        reconciled(old, obs, next, summary),
        ordering_sorted(ordering_view(old.ordering@)),
    ensures
        ordering_sorted(ordering_view(next.ordering@)),
{
    lemma_card_phase_sorted(
        next.annotations@,
        old.cards@,
        ordering_view(old.ordering@),
        old.cards@.len() as int,
    );
}

} // verus!
