//! The review of scanned annotations: which are listed, which are targeted, ignoring them,
//! and the draft of a card made from them.

use vstd::prelude::*;

use crate::domain::annotation::{AnnotationDisposition, CodeAnnotation};
use crate::domain::column::Column;
use crate::domain::ids::{AnnotationId, ColumnId};
use crate::domain::task::TaskPriority;
use crate::domain::workspace::{same_ignoring_ascii_case, AnnotationTagMapping};
use crate::scan::order::{compare_text, text_lt};
use crate::text::{ascii_upper, decimal, join_seqs, lemma_join_push, owned, push_decimal, push_str, str_eq};

use super::state::{next_filter, AnnotationFilter};

verus! {

/// Whether the filter lists the annotation.
pub open spec fn shown(filter: AnnotationFilter, a: CodeAnnotation) -> bool {
    match filter {
        AnnotationFilter::Unassigned => a.present && a.disposition is Unassigned,
        AnnotationFilter::All => true,
        AnnotationFilter::Missing => !a.present,
        AnnotationFilter::Ignored => a.disposition is Ignored,
    }
}

fn is_shown(filter: AnnotationFilter, a: &CodeAnnotation) -> (r: bool)
    ensures
        r == shown(filter, *a),
{
    match filter {
        AnnotationFilter::Unassigned => a.present && match a.disposition {
            AnnotationDisposition::Unassigned => true,
            _ => false,
        },
        AnnotationFilter::All => true,
        AnnotationFilter::Missing => !a.present,
        AnnotationFilter::Ignored => match a.disposition {
            AnnotationDisposition::Ignored => true,
            _ => false,
        },
    }
}

/// Whether an annotation is present and unassigned, the only kind that can be selected.
pub open spec fn open_annotation(a: CodeAnnotation) -> bool {
    a.present && a.disposition is Unassigned
}

fn is_open(a: &CodeAnnotation) -> (r: bool)
    ensures
        r == open_annotation(*a),
{
    a.present && match a.disposition {
        AnnotationDisposition::Unassigned => true,
        _ => false,
    }
}

/// The listing order: repository, path, line, then tag (when `with_tag`).
pub open spec fn place_lt(a: CodeAnnotation, b: CodeAnnotation, with_tag: bool) -> bool {
    if a.repository_id@ != b.repository_id@ {
        text_lt(a.repository_id@, b.repository_id@)
    } else if a.path@ != b.path@ {
        text_lt(a.path@, b.path@)
    } else if a.line != b.line {
        a.line < b.line
    } else {
        with_tag && text_lt(a.tag@, b.tag@)
    }
}

fn place_before(a: &CodeAnnotation, b: &CodeAnnotation, with_tag: bool) -> (r: bool)
    ensures
        r == place_lt(*a, *b, with_tag),
{
    let c = compare_text(a.repository_id.as_str(), b.repository_id.as_str());
    if c != 0 {
        return c < 0;
    }
    let c = compare_text(a.path.as_str(), b.path.as_str());
    if c != 0 {
        return c < 0;
    }
    if a.line != b.line {
        return a.line < b.line;
    }
    with_tag && compare_text(a.tag.as_str(), b.tag.as_str()) < 0
}

/// `s` with `x` put after every element that does not come after it.
pub open spec fn insert_place(s: Seq<CodeAnnotation>, x: CodeAnnotation, with_tag: bool) -> Seq<CodeAnnotation>
    decreases s.len(),
{
    if s.len() == 0 {
        seq![x]
    } else if !place_lt(x, s.last(), with_tag) {
        s.push(x)
    } else {
        insert_place(s.drop_last(), x, with_tag).push(s.last())
    }
}

/// The annotations in listing order; annotations at the same place keep their order.
pub open spec fn sort_places(s: Seq<CodeAnnotation>, with_tag: bool) -> Seq<CodeAnnotation>
    decreases s.len(),
{
    if s.len() == 0 {
        Seq::empty()
    } else {
        insert_place(sort_places(s.drop_last(), with_tag), s.last(), with_tag)
    }
}

/// Where `insert_place` puts `x`.
pub open spec fn place_position(s: Seq<CodeAnnotation>, x: CodeAnnotation, with_tag: bool) -> int
    decreases s.len(),
{
    if s.len() == 0 {
        0
    } else if !place_lt(x, s.last(), with_tag) {
        s.len() as int
    } else {
        place_position(s.drop_last(), x, with_tag)
    }
}

proof fn lemma_insert_place(s: Seq<CodeAnnotation>, x: CodeAnnotation, with_tag: bool)
    ensures
        0 <= place_position(s, x, with_tag) <= s.len(),
        insert_place(s, x, with_tag) == s.insert(place_position(s, x, with_tag), x),
    decreases s.len(),
{
    if s.len() > 0 && place_lt(x, s.last(), with_tag) {
        lemma_insert_place(s.drop_last(), x, with_tag);
        let p = place_position(s.drop_last(), x, with_tag);
        assert(s.drop_last().insert(p, x).push(s.last()) =~= s.insert(p, x));
    } else if s.len() > 0 {
        assert(s.push(x) =~= s.insert(s.len() as int, x));
    } else {
        assert(seq![x] =~= s.insert(0, x));
    }
}

/// The annotations of `s` that satisfy `keep`, in order.
pub open spec fn kept(s: Seq<CodeAnnotation>, keep: spec_fn(CodeAnnotation) -> bool, n: int) -> Seq<CodeAnnotation>
    decreases n,
{
    if n <= 0 {
        Seq::empty()
    } else if keep(s[n - 1]) {
        kept(s, keep, n - 1).push(s[n - 1])
    } else {
        kept(s, keep, n - 1)
    }
}

/// The identities of the annotations.
pub open spec fn ids_of(s: Seq<CodeAnnotation>) -> Seq<AnnotationId> {
    s.map_values(|a: CodeAnnotation| a.id)
}

/// The listed annotations in listing order, by the filter.
pub open spec fn listed(annotations: Seq<CodeAnnotation>, filter: AnnotationFilter) -> Seq<CodeAnnotation> {
    sort_places(
        kept(annotations, |a: CodeAnnotation| shown(filter, a), annotations.len() as int),
        true,
    )
}

fn sorted_insert(v: &mut Vec<CodeAnnotation>, x: CodeAnnotation, with_tag: bool)
    ensures
        final(v)@ == insert_place(old(v)@, x, with_tag),
{
    let ghost before = v@;
    proof {
        lemma_insert_place(before, x, with_tag);
    }
    let mut p: usize = v.len();
    assert(before.subrange(0, p as int) =~= before);
    while p > 0 && place_before(&x, &v[p - 1], with_tag)
        invariant
            p <= v@.len(),
            before == v@,
            place_position(before, x, with_tag) == place_position(
                before.subrange(0, p as int),
                x,
                with_tag,
            ),
        decreases p,
    {
        assert(before.subrange(0, p as int).drop_last() =~= before.subrange(0, p - 1));
        p = p - 1;
    }
    proof {
        if p > 0 {
            assert(before.subrange(0, p as int).last() == before[p - 1]);
        }
    }
    v.insert(p, x);
}

/// The identities of the listed annotations (see `listed`).
pub fn visible_annotation_ids(annotations: &Vec<CodeAnnotation>, filter: AnnotationFilter) -> (r:
    Vec<AnnotationId>)
    ensures
        r@ == ids_of(listed(annotations@, filter)),
{
    let ghost keep = |a: CodeAnnotation| shown(filter, a);
    let mut sorted: Vec<CodeAnnotation> = Vec::new();
    let mut i: usize = 0;
    while i < annotations.len()
        invariant
            i <= annotations@.len(),
            keep == (|a: CodeAnnotation| shown(filter, a)),
            sorted@ == sort_places(kept(annotations@, keep, i as int), true),
        decreases annotations@.len() - i,
    {
        if is_shown(filter, &annotations[i]) {
            let ghost prev = kept(annotations@, keep, i as int);
            assert(kept(annotations@, keep, i + 1) == prev.push(annotations@[i as int]));
            assert(prev.push(annotations@[i as int]).drop_last() =~= prev);
            sorted_insert(&mut sorted, annotations[i].clone(), true);
        }
        i = i + 1;
    }
    let mut r: Vec<AnnotationId> = Vec::new();
    let mut k: usize = 0;
    while k < sorted.len()
        invariant
            k <= sorted@.len(),
            r@ == ids_of(sorted@.subrange(0, k as int)),
        decreases sorted@.len() - k,
    {
        r.push(sorted[k].id);
        k = k + 1;
        assert(r@ =~= ids_of(sorted@.subrange(0, k as int)));
    }
    assert(sorted@.subrange(0, sorted@.len() as int) =~= sorted@);
    r
}

/// The state of the annotation review: the focused row, the selected annotations and the
/// filter.
#[derive(Debug, Clone, PartialEq, Eq)]
pub struct AnnotationReviewState {
    pub focused: usize,
    pub selected: Vec<AnnotationId>,
    pub filter: AnnotationFilter,
}

impl AnnotationReviewState {
    /// A review at the top, with nothing selected, listing the unassigned annotations.
    pub fn new() -> (r: Self)
        ensures
            r.focused == 0,
            r.selected@.len() == 0,
            r.filter == AnnotationFilter::Unassigned,
    {
        AnnotationReviewState { focused: 0, selected: Vec::new(), filter: AnnotationFilter::Unassigned }
    }

    /// Moves the focus one row up or down among `count` rows.
    pub fn move_focus(&mut self, count: usize, up: bool)
        ensures
            final(self).selected == old(self).selected,
            final(self).filter == old(self).filter,
            final(self).focused == if count == 0 {
                0
            } else if up {
                if old(self).focused > 0 {
                    old(self).focused - 1
                } else {
                    0
                }
            } else if old(self).focused + 1 < count {
                old(self).focused + 1
            } else {
                count - 1
            },
    {
        if count == 0 {
            self.focused = 0;
        } else if up {
            if self.focused > 0 {
                self.focused = self.focused - 1;
            }
        } else if self.focused < count - 1 {
            self.focused = self.focused + 1;
        } else {
            self.focused = count - 1;
        }
    }

    /// Lists the next kind of annotations, from the top, with nothing selected.
    pub fn cycle_filter(&mut self)
        ensures
            final(self).filter == next_filter(old(self).filter),
            final(self).focused == 0,
            final(self).selected@.len() == 0,
    {
        self.filter = self.filter.next();
        self.focused = 0;
        self.selected = Vec::new();
    }

    /// The annotations an action applies to: the selected ones, or the focused row of `visible`
    /// when nothing is selected.
    pub fn targeted(&self, visible: &Vec<AnnotationId>) -> (r: Vec<AnnotationId>)
        ensures
            r@ == if self.selected@.len() > 0 {
                self.selected@
            } else if self.focused < visible@.len() {
                seq![visible@[self.focused as int]]
            } else {
                Seq::empty()
            },
    {
        if self.selected.len() > 0 {
            let r = self.selected.clone();
            assert(r@ =~= self.selected@);
            return r;
        }
        let mut r: Vec<AnnotationId> = Vec::new();
        if self.focused < visible.len() {
            r.push(visible[self.focused]);
        }
        assert(r@ =~= if self.focused < visible@.len() {
            seq![visible@[self.focused as int]]
        } else {
            Seq::empty()
        });
        r
    }
}

fn has_id(v: &Vec<AnnotationId>, id: AnnotationId) -> (r: bool)
    ensures
        r == v@.contains(id),
{
    let mut k: usize = 0;
    while k < v.len()
        invariant
            k <= v@.len(),
            forall|j: int| 0 <= j < k ==> v@[j] != id,
        decreases v@.len() - k,
    {
        if v[k] == id {
            return true;
        }
        k = k + 1;
    }
    false
}

/// Whether some present, unassigned annotation has the identity.
pub open spec fn selectable(annotations: Seq<CodeAnnotation>, id: AnnotationId) -> bool {
    exists|k: int| 0 <= k < annotations.len() && annotations[k].id == id && open_annotation(annotations[k])
}

impl AnnotationReviewState {
    /// Selects the focused annotation, or unselects it; false, with nothing changed, when no row
    /// is focused or its annotation is not present and unassigned.
    pub fn toggle_selection(&mut self, annotations: &Vec<CodeAnnotation>, visible: &Vec<AnnotationId>) -> (toggled: bool)
        ensures
            final(self).focused == old(self).focused,
            final(self).filter == old(self).filter,
            toggled == (old(self).focused < visible@.len() && selectable(
                annotations@,
                visible@[old(self).focused as int],
            )),
            !toggled ==> final(self).selected == old(self).selected,
            toggled ==> forall|x: AnnotationId|
                final(self).selected@.contains(x) <==> if x == visible@[old(self).focused as int] {
                    !old(self).selected@.contains(x)
                } else {
                    old(self).selected@.contains(x)
                },
    {
        if self.focused >= visible.len() {
            return false;
        }
        let id = visible[self.focused];
        let mut ok = false;
        let mut k: usize = 0;
        while k < annotations.len()
            invariant
                k <= annotations@.len(),
                ok == exists|j: int| 0 <= j < k && annotations@[j].id == id && open_annotation(annotations@[j]),
            decreases annotations@.len() - k,
        {
            if annotations[k].id == id && is_open(&annotations[k]) {
                ok = true;
            }
            k = k + 1;
        }
        if !ok {
            return false;
        }
        if has_id(&self.selected, id) {
            let mut kept_ids: Vec<AnnotationId> = Vec::new();
            let mut k: usize = 0;
            while k < self.selected.len()
                invariant
                    k <= self.selected@.len(),
                    forall|x: AnnotationId|
                        kept_ids@.contains(x) <==> (x != id && exists|j: int|
                            0 <= j < k && self.selected@[j] == x),
                decreases self.selected@.len() - k,
            {
                let x = self.selected[k];
                let ghost before = kept_ids@;
                if x != id {
                    kept_ids.push(x);
                }
                proof {
                    assert forall|y: AnnotationId| kept_ids@.contains(y) <==> (y != id && exists|j: int|
                        0 <= j < k + 1 && self.selected@[j] == y) by {
                        if kept_ids@.contains(y) {
                            let j = choose|j: int| 0 <= j < kept_ids@.len() && kept_ids@[j] == y;
                            if j < before.len() {
                                assert(before[j] == y);
                                assert(before.contains(y));
                                let i = choose|i: int| 0 <= i < k && self.selected@[i] == y;
                                assert(0 <= i < k + 1 && self.selected@[i] == y);
                            } else {
                                assert(self.selected@[k as int] == y);
                            }
                        }
                        if y != id && exists|j: int| 0 <= j < k + 1 && self.selected@[j] == y {
                            let j = choose|j: int| 0 <= j < k + 1 && self.selected@[j] == y;
                            if j < k {
                                assert(before.contains(y));
                                let i = choose|i: int| 0 <= i < before.len() && before[i] == y;
                                assert(kept_ids@[i] == y);
                            } else {
                                assert(kept_ids@[kept_ids@.len() - 1] == y);
                            }
                        }
                    }
                }
                k = k + 1;
            }
            self.selected = kept_ids;
        } else {
            let ghost before = self.selected@;
            self.selected.push(id);
            proof {
                assert forall|x: AnnotationId| self.selected@.contains(x) <==> (x == id || before.contains(x)) by {
                    if self.selected@.contains(x) {
                        let j = choose|j: int| 0 <= j < self.selected@.len() && self.selected@[j] == x;
                        if j < before.len() {
                            assert(before[j] == x);
                        }
                    }
                    if before.contains(x) {
                        let j = choose|j: int| 0 <= j < before.len() && before[j] == x;
                        assert(self.selected@[j] == x);
                    }
                    if x == id {
                        assert(self.selected@[before.len() as int] == x);
                    }
                }
            }
        }
        true
    }
}

/// The annotations after ignoring the targeted ones that are present and unassigned.
pub open spec fn ignored(a: CodeAnnotation, targets: Seq<AnnotationId>) -> CodeAnnotation {
    if targets.contains(a.id) && open_annotation(a) {
        CodeAnnotation { disposition: AnnotationDisposition::Ignored, ..a }
    } else {
        a
    }
}

/// How many of the first `n` annotations are targeted, present and unassigned.
pub open spec fn ignorable_count(annotations: Seq<CodeAnnotation>, targets: Seq<AnnotationId>, n: int) -> nat
    decreases n,
{
    if n <= 0 {
        0
    } else {
        ignorable_count(annotations, targets, n - 1) + if targets.contains(annotations[n - 1].id)
            && open_annotation(annotations[n - 1]) {
            1nat
        } else {
            0nat
        }
    }
}

/// Ignores the targeted annotations that are present and unassigned; gives how many.
pub fn ignore_annotations(annotations: &mut Vec<CodeAnnotation>, targets: &Vec<AnnotationId>) -> (changed: usize)
    ensures
        final(annotations)@ == old(annotations)@.map_values(|a: CodeAnnotation| ignored(a, targets@)),
        changed == ignorable_count(old(annotations)@, targets@, old(annotations)@.len() as int),
{
    let ghost start = annotations@;
    let mut changed: usize = 0;
    let mut k: usize = 0;
    while k < annotations.len()
        invariant
            k <= annotations@.len(),
            annotations@.len() == start.len(),
            start == old(annotations)@,
            forall|j: int| k <= j < annotations@.len() ==> #[trigger] annotations@[j] == start[j],
            forall|j: int| 0 <= j < k ==> #[trigger] annotations@[j] == ignored(start[j], targets@),
            changed == ignorable_count(start, targets@, k as int),
            changed <= k,
        decreases annotations@.len() - k,
    {
        if has_id(targets, annotations[k].id) && is_open(&annotations[k]) {
            let mut a = annotations[k].clone();
            a.disposition = AnnotationDisposition::Ignored;
            annotations.set(k, a);
            changed = changed + 1;
        }
        k = k + 1;
    }
    assert(annotations@ =~= start.map_values(|a: CodeAnnotation| ignored(a, targets@)));
    changed
}


/// The rank of a priority: low, medium, high.
pub open spec fn rank(p: TaskPriority) -> nat {
    match p {
        TaskPriority::LOW => 0,
        TaskPriority::MEDIUM => 1,
        TaskPriority::HIGH => 2,
    }
}

/// The rank of a priority: low, medium, high.
pub fn priority_rank(p: TaskPriority) -> (r: u8)
    ensures
        r == rank(p),
{
    match p {
        TaskPriority::LOW => 0,
        TaskPriority::MEDIUM => 1,
        TaskPriority::HIGH => 2,
    }
}

/// Whether the annotation is targeted, present and unassigned.
pub open spec fn draftable(targets: Seq<AnnotationId>) -> spec_fn(CodeAnnotation) -> bool {
    |a: CodeAnnotation| targets.contains(a.id) && open_annotation(a)
}

/// The annotations a card is made from: the targeted ones that are present and unassigned,
/// by repository, path and line.
pub open spec fn drafted(annotations: Seq<CodeAnnotation>, targets: Seq<AnnotationId>) -> Seq<CodeAnnotation> {
    sort_places(kept(annotations, draftable(targets), annotations.len() as int), false)
}

/// The first mapping at or after `k` whose tag is the annotation's, ignoring ASCII case.
pub open spec fn mapping_for(mappings: Seq<AnnotationTagMapping>, a: CodeAnnotation, k: int) -> Option<int>
    decreases mappings.len() - k,
{
    if k < 0 || k >= mappings.len() {
        None
    } else if ascii_upper(mappings[k].tag@) == ascii_upper(a.tag@) {
        Some(k)
    } else {
        mapping_for(mappings, a, k + 1)
    }
}

/// The mapping of highest priority among those of the first `n` annotations; of equal
/// priorities the last.
pub open spec fn best_mapping(mappings: Seq<AnnotationTagMapping>, s: Seq<CodeAnnotation>, n: int) -> Option<int>
    decreases n,
{
    if n <= 0 {
        None
    } else {
        let prev = best_mapping(mappings, s, n - 1);
        match mapping_for(mappings, s[n - 1], 0) {
            Some(m) => match prev {
                Some(b) => if rank(mappings[m].priority) >= rank(mappings[b].priority) {
                    Some(m)
                } else {
                    Some(b)
                },
                None => Some(m),
            },
            None => prev,
        }
    }
}

/// The first column at or after `k` with the identity.
pub open spec fn column_position(columns: Seq<Column>, id: ColumnId, k: int) -> Option<int>
    decreases columns.len() - k,
{
    if k < 0 || k >= columns.len() {
        None
    } else if columns[k].id@ == id@ {
        Some(k)
    } else {
        column_position(columns, id, k + 1)
    }
}

/// The description line of an annotation: `- [tag] repository:path:line — message`.
pub open spec fn annotation_line(a: CodeAnnotation) -> Seq<char> {
    "- ["@ + a.tag@ + "] "@ + a.repository_id@ + ":"@ + a.path@ + ":"@ + decimal(a.line as nat)
        + " — "@ + a.message@
}

/// A card to be made from annotations: the annotations, its title, description, priority and
/// column.
pub struct CardDraft {
    pub annotation_ids: Vec<AnnotationId>,
    pub title: String,
    pub description: String,
    pub priority: TaskPriority,
    pub target_column: usize,
}

proof fn lemma_mapping_for(mappings: Seq<AnnotationTagMapping>, a: CodeAnnotation, k: int)
    requires
        0 <= k,
    ensures
        mapping_for(mappings, a, k) matches Some(m) ==> k <= m < mappings.len(),
    decreases mappings.len() - k,
{
    if k < mappings.len() {
        lemma_mapping_for(mappings, a, k + 1);
    }
}

proof fn lemma_best_mapping(mappings: Seq<AnnotationTagMapping>, s: Seq<CodeAnnotation>, n: int)
    ensures
        best_mapping(mappings, s, n) matches Some(m) ==> 0 <= m < mappings.len(),
    decreases n,
{
    if n > 0 {
        lemma_best_mapping(mappings, s, n - 1);
        lemma_mapping_for(mappings, s[n - 1], 0);
    }
}

fn find_mapping(mappings: &Vec<AnnotationTagMapping>, a: &CodeAnnotation) -> (r: Option<usize>)
    ensures
        (match r {
            Some(k) => Some(k as int),
            None => None,
        }) == mapping_for(mappings@, *a, 0),
{
    let mut k: usize = 0;
    while k < mappings.len()
        invariant
            k <= mappings@.len(),
            mapping_for(mappings@, *a, 0) == mapping_for(mappings@, *a, k as int),
        decreases mappings@.len() - k,
    {
        if same_ignoring_ascii_case(mappings[k].tag.as_str(), a.tag.as_str()) {
            return Some(k);
        }
        k = k + 1;
    }
    None
}

/// The card drafted from the targeted annotations (see `drafted`): `None` when there is none;
/// else titled by the message of the first, described by one line per annotation, with the
/// highest priority of their tag mappings (low without one) and the column of that mapping
/// (the focused column when it has none on the board).
pub fn annotation_card_draft(
    annotations: &Vec<CodeAnnotation>,
    targets: &Vec<AnnotationId>,
    mappings: &Vec<AnnotationTagMapping>,
    columns: &Vec<Column>,
    focused_column: usize,
) -> (r: Option<CardDraft>)
    ensures
        r is None <==> drafted(annotations@, targets@).len() == 0,
        r matches Some(d) ==> ({
            let s = drafted(annotations@, targets@);
            let best = best_mapping(mappings@, s, s.len() as int);
            &&& d.annotation_ids@ == ids_of(s)
            &&& d.title@ == s[0].message@
            &&& d.description@ == join_seqs(
                s.map_values(|a: CodeAnnotation| annotation_line(a)),
                "\n"@,
            )
            &&& d.priority == match best {
                Some(m) => mappings@[m].priority,
                None => TaskPriority::LOW,
            }
            &&& d.target_column == match best {
                Some(m) => match column_position(columns@, mappings@[m].column_id, 0) {
                    Some(c) => c as usize,
                    None => focused_column,
                },
                None => focused_column,
            }
        }),
{
    let ghost keep = draftable(targets@);
    let mut s: Vec<CodeAnnotation> = Vec::new();
    let mut i: usize = 0;
    while i < annotations.len()
        invariant
            i <= annotations@.len(),
            keep == draftable(targets@),
            s@ == sort_places(kept(annotations@, keep, i as int), false),
        decreases annotations@.len() - i,
    {
        if has_id(targets, annotations[i].id) && is_open(&annotations[i]) {
            let ghost prev = kept(annotations@, keep, i as int);
            assert(kept(annotations@, keep, i + 1) == prev.push(annotations@[i as int]));
            assert(prev.push(annotations@[i as int]).drop_last() =~= prev);
            sorted_insert(&mut s, annotations[i].clone(), false);
        }
        i = i + 1;
    }
    if s.len() == 0 {
        return None;
    }
    let ghost sv = s@;
    let mut ids: Vec<AnnotationId> = Vec::new();
    let mut description = String::new();
    let mut best: Option<usize> = None;
    let mut k: usize = 0;
    while k < s.len()
        invariant
            k <= s@.len(),
            sv == s@,
            ids@ == ids_of(sv.subrange(0, k as int)),
            description@ == join_seqs(
                sv.subrange(0, k as int).map_values(|a: CodeAnnotation| annotation_line(a)),
                "\n"@,
            ),
            (match best {
                Some(b) => Some(b as int),
                None => None,
            }) == best_mapping(mappings@, sv, k as int),
        decreases s@.len() - k,
    {
        let a = &s[k];
        ids.push(a.id);
        proof {
            let lines = sv.subrange(0, k as int).map_values(|a: CodeAnnotation| annotation_line(a));
            lemma_join_push(lines, annotation_line(*a), "\n"@);
            assert(sv.subrange(0, k + 1).map_values(|a: CodeAnnotation| annotation_line(a))
                =~= lines.push(annotation_line(*a)));
            lemma_best_mapping(mappings@, sv, k as int);
            lemma_mapping_for(mappings@, *a, 0);
        }
        if k > 0 {
            push_str(&mut description, "\n");
        }
        push_str(&mut description, "- [");
        push_str(&mut description, a.tag.as_str());
        push_str(&mut description, "] ");
        push_str(&mut description, a.repository_id.as_str());
        push_str(&mut description, ":");
        push_str(&mut description, a.path.as_str());
        push_str(&mut description, ":");
        push_decimal(&mut description, a.line as u128);
        push_str(&mut description, " — ");
        push_str(&mut description, a.message.as_str());
        match find_mapping(mappings, a) {
            Some(m) => {
                best = match best {
                    Some(b) => if priority_rank(mappings[m].priority) >= priority_rank(
                        mappings[b].priority,
                    ) {
                        Some(m)
                    } else {
                        Some(b)
                    },
                    None => Some(m),
                };
            },
            None => {},
        }
        k = k + 1;
        assert(ids@ =~= ids_of(sv.subrange(0, k as int)));
    }
    assert(sv.subrange(0, sv.len() as int) =~= sv);
    proof {
        lemma_best_mapping(mappings@, sv, sv.len() as int);
    }
    let (priority, target_column) = match best {
        Some(m) => {
            let priority = mappings[m].priority;
            let mut c: usize = 0;
            let mut target = focused_column;
            let mut found = false;
            while c < columns.len()
                invariant
                    c <= columns@.len(),
                    m < mappings@.len(),
                    !found ==> column_position(columns@, mappings@[m as int].column_id, 0)
                        == column_position(columns@, mappings@[m as int].column_id, c as int),
                    !found ==> target == focused_column,
                    found ==> column_position(columns@, mappings@[m as int].column_id, 0) == Some(
                        target as int,
                    ),
                decreases columns@.len() - c,
            {
                if !found && str_eq(columns[c].id.as_str(), mappings[m].column_id.as_str()) {
                    target = c;
                    found = true;
                }
                c = c + 1;
            }
            (priority, target)
        },
        None => (TaskPriority::LOW, focused_column),
    };
    let title = s[0].message.clone();
    Some(CardDraft { annotation_ids: ids, title, description, priority, target_column })
}

} // verus!
