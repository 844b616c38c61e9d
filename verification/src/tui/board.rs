//! The board: columns of cards, the focus, the selection, and the operations that move,
//! archive and store cards.

use vstd::prelude::*;

use crate::domain::column::Column;
use crate::domain::ids::{CardId, ColumnId};
use crate::domain::task::Task;
use crate::domain::workspace::ColumnConfig;
use crate::text::{owned, trim, trim_str};
use crate::workspace::naming::{candidate, first_free, slug, slugify, string_views, unique_name};

use super::keymap::{KeyCode, KeyContext, KeyInput};
use super::state::{GotoLabelsState, GotoTarget};
use crate::domain::annotation::{AnnotationDisposition, CodeAnnotation};
use crate::domain::ids::AnnotationId;
use crate::domain::task::TaskPriority;
use crate::domain::ids::WorkspaceId;
use crate::domain::private_state::{CardsFile, LocalCard, OrderingEntry, PRIVATE_SCHEMA_VERSION};
use crate::scan::order::compare_text;
use crate::scan::reconcile::{entry_index, insert_index, ordering_view};
use crate::text::str_eq;
use crate::text::{lower_char, push_char, push_str, starts_with, to_ascii_lower};

verus! {

broadcast use vstd::seq_lib::group_to_multiset_ensures;

/// A card taken off the board, with the column it was in.
#[derive(Debug)]
pub struct ArchivedTask {
    pub column_id: ColumnId,
    pub task: Task,
}

/// The columns of cards, the focused column and card, the selected cards and the archive.
#[derive(Debug)]
pub struct Board {
    pub columns: Vec<Column>,
    pub archived: Vec<ArchivedTask>,
    pub focused_column: usize,
    pub focused_task: usize,
    pub selected: Vec<CardId>,
}

/// The cards of each column.
pub open spec fn tasks_view(columns: Seq<Column>) -> Seq<Seq<Task>> {
    columns.map_values(|c: Column| c.tasks@)
}

/// The identity, name and width of each column.
pub open spec fn heads(columns: Seq<Column>) -> Seq<(ColumnId, String, usize)> {
    columns.map_values(|c: Column| (c.id, c.name, c.width))
}

/// The identities of the cards of each column.
pub open spec fn layout(ts: Seq<Seq<Task>>) -> Seq<Seq<CardId>> {
    ts.map_values(|s: Seq<Task>| s.map_values(|t: Task| t.id))
}

/// The first card at or after `k` with the identity, or the length when there is none.
pub open spec fn first_task(s: Seq<Task>, id: CardId, k: int) -> int
    decreases s.len() - k,
{
    if k < 0 || k >= s.len() {
        s.len() as int
    } else if s[k].id == id {
        k
    } else {
        first_task(s, id, k + 1)
    }
}

/// The column and position of the card: the first column at or after `k` that holds it,
/// and its first place there.
pub open spec fn locate_from(ts: Seq<Seq<Task>>, id: CardId, k: int) -> Option<(int, int)>
    decreases ts.len() - k,
{
    if k < 0 || k >= ts.len() {
        None
    } else if first_task(ts[k], id, 0) < ts[k].len() {
        Some((k, first_task(ts[k], id, 0)))
    } else {
        locate_from(ts, id, k + 1)
    }
}

/// Where the card is on the board.
pub open spec fn locate(ts: Seq<Seq<Task>>, id: CardId) -> Option<(int, int)> {
    locate_from(ts, id, 0)
}

proof fn lemma_first_task(s: Seq<Task>, id: CardId, k: int)
    requires
        0 <= k,
    ensures
        k <= first_task(s, id, k) <= s.len() || (k > s.len() && first_task(s, id, k) == s.len()),
        first_task(s, id, k) < s.len() ==> s[first_task(s, id, k)].id == id,
    decreases s.len() - k,
{
    if k < s.len() && s[k].id != id {
        lemma_first_task(s, id, k + 1);
    }
}

proof fn lemma_locate_from(ts: Seq<Seq<Task>>, id: CardId, k: int)
    requires
        0 <= k,
    ensures
        locate_from(ts, id, k) matches Some(p) ==> k <= p.0 < ts.len() && 0 <= p.1 < ts[p.0].len()
            && ts[p.0][p.1].id == id,
    decreases ts.len() - k,
{
    if k < ts.len() {
        lemma_first_task(ts[k], id, 0);
        lemma_locate_from(ts, id, k + 1);
    }
}

/// The identity of the focused card, if the focus is on one.
pub open spec fn focused_card(ts: Seq<Seq<Task>>, column: int, task: int) -> Option<CardId> {
    if 0 <= column < ts.len() && 0 <= task < ts[column].len() {
        Some(ts[column][task].id)
    } else {
        None
    }
}

impl Board {
    /// Whether the board has a column and the focus is on one of its columns.
    pub open spec fn wf(&self) -> bool {
        self.columns@.len() > 0 && self.focused_column < self.columns@.len()
    }

    /// Where the card is: the first column holding it, and its place there.
    pub fn locate_card(&self, id: CardId) -> (r: Option<(usize, usize)>)
        ensures
            (match r {
                Some(p) => Some((p.0 as int, p.1 as int)),
                None => None,
            }) == locate(tasks_view(self.columns@), id),
    {
        let ghost ts = tasks_view(self.columns@);
        let mut c: usize = 0;
        while c < self.columns.len()
            invariant
                c <= self.columns@.len(),
                ts == tasks_view(self.columns@),
                locate(ts, id) == locate_from(ts, id, c as int),
            decreases self.columns@.len() - c,
        {
            let tasks = &self.columns[c].tasks;
            assert(tasks@ == ts[c as int]);
            let mut t: usize = 0;
            while t < tasks.len()
                invariant
                    t <= tasks@.len(),
                    tasks@ == ts[c as int],
                    first_task(ts[c as int], id, 0) == first_task(ts[c as int], id, t as int),
                decreases tasks@.len() - t,
            {
                if tasks[t].id == id {
                    return Some((c, t));
                }
                t = t + 1;
            }
            c = c + 1;
        }
        None
    }

    /// The identity of the focused card.
    pub fn focused_card_id(&self) -> (r: Option<CardId>)
        ensures
            r == focused_card(
                tasks_view(self.columns@),
                self.focused_column as int,
                self.focused_task as int,
            ),
    {
        if self.focused_column < self.columns.len() {
            let tasks = &self.columns[self.focused_column].tasks;
            if self.focused_task < tasks.len() {
                return Some(tasks[self.focused_task].id);
            }
        }
        None
    }
}


// ---------------------------------------------------------------------------------------
// Selection and targets
// ---------------------------------------------------------------------------------------

/// The identities of the first `m` cards of a column that are selected, in order.
pub open spec fn selected_in(s: Seq<Task>, sel: Seq<CardId>, m: int) -> Seq<CardId>
    decreases m,
{
    if m <= 0 {
        Seq::empty()
    } else if sel.contains(s[m - 1].id) {
        selected_in(s, sel, m - 1).push(s[m - 1].id)
    } else {
        selected_in(s, sel, m - 1)
    }
}

/// The identities of the selected cards of the first `n` columns, in board order.
pub open spec fn selected_on_board(ts: Seq<Seq<Task>>, sel: Seq<CardId>, n: int) -> Seq<CardId>
    decreases n,
{
    if n <= 0 {
        Seq::empty()
    } else {
        selected_on_board(ts, sel, n - 1) + selected_in(ts[n - 1], sel, ts[n - 1].len() as int)
    }
}

/// The cards an action applies to: the selected cards in board order, or the focused card
/// when nothing is selected.
pub open spec fn targets(ts: Seq<Seq<Task>>, sel: Seq<CardId>, column: int, task: int) -> Seq<CardId> {
    if sel.len() == 0 {
        match focused_card(ts, column, task) {
            Some(id) => seq![id],
            None => Seq::empty(),
        }
    } else {
        selected_on_board(ts, sel, ts.len() as int)
    }
}

fn contains_card(v: &Vec<CardId>, id: CardId) -> (r: bool)
    ensures
        r == v@.contains(id),
{
    let mut k: usize = 0;
    while k < v.len()
        invariant
            k <= v@.len(),
            forall|j: int| 0 <= j < k ==> v@[j] != id,
        decreases v@.len() - k,
    {
        if v[k] == id {
            return true;
        }
        k = k + 1;
    }
    false
}

// ---------------------------------------------------------------------------------------
// Moving cards
// ---------------------------------------------------------------------------------------

/// The cards taken off their columns by the first `n` plans, with their target columns: a
/// plan whose card is on the board takes it from where `locate` finds it.
pub open spec fn removal(ts: Seq<Seq<Task>>, plans: Seq<(CardId, usize)>, n: int) -> (
    Seq<Seq<Task>>,
    Seq<(Task, usize)>,
)
    decreases n,
{
    if n <= 0 {
        (ts, Seq::empty())
    } else {
        let r = removal(ts, plans, n - 1);
        match locate(r.0, plans[n - 1].0) {
            Some(p) => (
                r.0.update(p.0, r.0[p.0].remove(p.1)),
                r.1.push((r.0[p.0][p.1], plans[n - 1].1)),
            ),
            None => r,
        }
    }
}

/// The columns with the first `n` moved cards put at the end of their target columns.
pub open spec fn appended(ts: Seq<Seq<Task>>, moved: Seq<(Task, usize)>, n: int) -> Seq<Seq<Task>>
    decreases n,
{
    if n <= 0 {
        ts
    } else {
        let a = appended(ts, moved, n - 1);
        a.update(moved[n - 1].1 as int, a[moved[n - 1].1 as int].push(moved[n - 1].0))
    }
}

/// The columns after the plans: every planned card on the board is taken off, then put at
/// the end of its target column, in plan order.
pub open spec fn after_moves(ts: Seq<Seq<Task>>, plans: Seq<(CardId, usize)>) -> Seq<Seq<Task>> {
    let r = removal(ts, plans, plans.len() as int);
    appended(r.0, r.1, r.1.len() as int)
}

/// The last card moved by the plans, if any.
pub open spec fn last_moved(ts: Seq<Seq<Task>>, plans: Seq<(CardId, usize)>) -> Option<CardId> {
    let r = removal(ts, plans, plans.len() as int);
    if r.1.len() > 0 {
        Some(r.1.last().0.id)
    } else {
        None
    }
}

proof fn lemma_removal_shape(ts: Seq<Seq<Task>>, plans: Seq<(CardId, usize)>, n: int)
    requires
        0 <= n <= plans.len(),
        forall|i: int| 0 <= i < plans.len() ==> (#[trigger] plans[i]).1 < ts.len(),
    ensures
        removal(ts, plans, n).0.len() == ts.len(),
        removal(ts, plans, n).1.len() <= n,
        forall|i: int|
            0 <= i < removal(ts, plans, n).1.len() ==> (#[trigger] removal(ts, plans, n).1[i]).1
                < ts.len(),
    decreases n,
{
    if n > 0 {
        lemma_removal_shape(ts, plans, n - 1);
        let r = removal(ts, plans, n - 1);
        lemma_locate_from(r.0, plans[n - 1].0, 0);
    }
}

fn take_task(columns: &mut Vec<Column>, c: usize, t: usize) -> (task: Task)
    requires
        c < old(columns)@.len(),
        t < old(columns)@[c as int].tasks@.len(),
    ensures
        tasks_view(final(columns)@) == tasks_view(old(columns)@).update(
            c as int,
            tasks_view(old(columns)@)[c as int].remove(t as int),
        ),
        heads(final(columns)@) == heads(old(columns)@),
        final(columns)@.len() == old(columns)@.len(),
        task == old(columns)@[c as int].tasks@[t as int],
{
    let mut column = columns.remove(c);
    let task = column.tasks.remove(t);
    columns.insert(c, column);
    assert(tasks_view(columns@) =~= tasks_view(old(columns)@).update(
        c as int,
        tasks_view(old(columns)@)[c as int].remove(t as int),
    ));
    assert(heads(columns@) =~= heads(old(columns)@));
    task
}

fn put_task(columns: &mut Vec<Column>, c: usize, task: Task)
    requires
        c < old(columns)@.len(),
    ensures
        tasks_view(final(columns)@) == tasks_view(old(columns)@).update(
            c as int,
            tasks_view(old(columns)@)[c as int].push(task),
        ),
        heads(final(columns)@) == heads(old(columns)@),
        final(columns)@.len() == old(columns)@.len(),
{
    let mut column = columns.remove(c);
    column.tasks.push(task);
    columns.insert(c, column);
    assert(tasks_view(columns@) =~= tasks_view(old(columns)@).update(
        c as int,
        tasks_view(old(columns)@)[c as int].push(task),
    ));
    assert(heads(columns@) =~= heads(old(columns)@));
}

/// How often the card occurs in the first `n` columns.
pub open spec fn occurrences(ts: Seq<Seq<Task>>, x: Task, n: int) -> nat
    decreases n,
{
    if n <= 0 {
        0
    } else {
        occurrences(ts, x, n - 1) + ts[n - 1].to_multiset().count(x)
    }
}

/// The cards of the moves.
pub open spec fn moved_tasks(moved: Seq<(Task, usize)>) -> Seq<Task> {
    moved.map_values(|m: (Task, usize)| m.0)
}

proof fn lemma_occurrences_update(ts: Seq<Seq<Task>>, c: int, s: Seq<Task>, x: Task, n: int)
    requires
        0 <= c < ts.len(),
        0 <= n <= ts.len(),
    ensures
        occurrences(ts.update(c, s), x, n) + (if c < n {
            ts[c].to_multiset().count(x)
        } else {
            0
        }) == occurrences(ts, x, n) + (if c < n {
            s.to_multiset().count(x)
        } else {
            0
        }),
    decreases n,
{
    if n > 0 {
        lemma_occurrences_update(ts, c, s, x, n - 1);
    }
}

proof fn lemma_removal_keeps(ts: Seq<Seq<Task>>, plans: Seq<(CardId, usize)>, x: Task, n: int)
    requires
        0 <= n <= plans.len(),
        forall|i: int| 0 <= i < plans.len() ==> (#[trigger] plans[i]).1 < ts.len(),
    ensures
        occurrences(removal(ts, plans, n).0, x, ts.len() as int) + moved_tasks(
            removal(ts, plans, n).1,
        ).to_multiset().count(x) == occurrences(ts, x, ts.len() as int),
    decreases n,
{
    if n > 0 {
        lemma_removal_keeps(ts, plans, x, n - 1);
        lemma_removal_shape(ts, plans, n - 1);
        let r = removal(ts, plans, n - 1);
        lemma_locate_from(r.0, plans[n - 1].0, 0);
        match locate(r.0, plans[n - 1].0) {
            Some(p) => {
                let t = r.0[p.0][p.1];
                lemma_occurrences_update(r.0, p.0, r.0[p.0].remove(p.1), x, ts.len() as int);
                assert(moved_tasks(r.1.push((t, plans[n - 1].1))) =~= moved_tasks(r.1).push(t));
            },
            None => {},
        }
    }
}

proof fn lemma_appended_keeps(ts: Seq<Seq<Task>>, moved: Seq<(Task, usize)>, x: Task, n: int)
    requires
        0 <= n <= moved.len(),
        forall|i: int| 0 <= i < moved.len() ==> (#[trigger] moved[i]).1 < ts.len(),
    ensures
        appended(ts, moved, n).len() == ts.len(),
        occurrences(appended(ts, moved, n), x, ts.len() as int) == occurrences(
            ts,
            x,
            ts.len() as int,
        ) + moved_tasks(moved.subrange(0, n)).to_multiset().count(x),
    decreases n,
{
    if n > 0 {
        lemma_appended_keeps(ts, moved, x, n - 1);
        let a = appended(ts, moved, n - 1);
        let m = moved[n - 1];
        lemma_occurrences_update(a, m.1 as int, a[m.1 as int].push(m.0), x, ts.len() as int);
        assert(moved_tasks(moved.subrange(0, n)) =~= moved_tasks(moved.subrange(0, n - 1)).push(
            m.0,
        ));
    } else {
        assert(moved_tasks(moved.subrange(0, 0)) =~= Seq::<Task>::empty());
    }
}

/// Moving cards never loses or copies one: every card occurs on the board after the moves
/// as often as before.
pub proof fn lemma_moves_keep_cards(ts: Seq<Seq<Task>>, plans: Seq<(CardId, usize)>, x: Task)
    requires
        forall|i: int| 0 <= i < plans.len() ==> (#[trigger] plans[i]).1 < ts.len(),
    ensures
        after_moves(ts, plans).len() == ts.len(),
        occurrences(after_moves(ts, plans), x, ts.len() as int) == occurrences(
            ts,
            x,
            ts.len() as int,
        ),
{
    let n = plans.len() as int;
    lemma_removal_shape(ts, plans, n);
    lemma_removal_keeps(ts, plans, x, n);
    let r = removal(ts, plans, n);
    lemma_appended_keeps(r.0, r.1, x, r.1.len() as int);
    assert(r.1.subrange(0, r.1.len() as int) =~= r.1);
}

/// Moving cards puts each moved card at the end of its target column, unless a later move
/// took it again: the last move of the plans leaves its card last in its target column.
pub proof fn lemma_last_move_lands(ts: Seq<Seq<Task>>, plans: Seq<(CardId, usize)>)
    requires
        forall|i: int| 0 <= i < plans.len() ==> (#[trigger] plans[i]).1 < ts.len(),
        last_moved(ts, plans) is Some,
    ensures
        ({
            let r = removal(ts, plans, plans.len() as int);
            let target = r.1.last().1 as int;
            let column = after_moves(ts, plans)[target];
            column.len() > 0 && column.last().id == last_moved(ts, plans)->Some_0
        }),
{
    let n = plans.len() as int;
    lemma_removal_shape(ts, plans, n);
    let r = removal(ts, plans, n);
    let k = r.1.len() as int;
    lemma_appended_keeps(r.0, r.1, r.1.last().0, k - 1);
    let a = appended(r.0, r.1, k - 1);
    let m = r.1[k - 1];
    assert(m.1 < ts.len());
    assert(appended(r.0, r.1, k) == a.update(m.1 as int, a[m.1 as int].push(m.0)));
    assert(appended(r.0, r.1, k)[m.1 as int] == a[m.1 as int].push(m.0));
}


/// The cards that the first `n` identities move one column left or right: those on the
/// board whose column changes, with the neighbouring column (kept within the board).
pub open spec fn relative_plans(ts: Seq<Seq<Task>>, ids: Seq<CardId>, left: bool, n: int) -> Seq<
    (CardId, usize),
>
    decreases n,
{
    if n <= 0 {
        Seq::empty()
    } else {
        let prev = relative_plans(ts, ids, left, n - 1);
        match locate(ts, ids[n - 1]) {
            Some(p) => {
                let target = if left {
                    if p.0 > 0 {
                        p.0 - 1
                    } else {
                        0
                    }
                } else if p.0 + 1 < ts.len() {
                    p.0 + 1
                } else {
                    ts.len() - 1
                };
                if target != p.0 {
                    prev.push((ids[n - 1], target as usize))
                } else {
                    prev
                }
            },
            None => prev,
        }
    }
}

/// The moves of the first `n` identities to column `target`: those on the board in another
/// column.
pub open spec fn plans_to(ts: Seq<Seq<Task>>, ids: Seq<CardId>, target: usize, n: int) -> Seq<
    (CardId, usize),
>
    decreases n,
{
    if n <= 0 {
        Seq::empty()
    } else {
        let prev = plans_to(ts, ids, target, n - 1);
        match locate(ts, ids[n - 1]) {
            Some(p) => if p.0 != target {
                prev.push((ids[n - 1], target))
            } else {
                prev
            },
            None => prev,
        }
    }
}

impl Board {
    /// The cards an action applies to (see `targets`).
    pub fn target_card_ids(&self) -> (r: Vec<CardId>)
        ensures
            r@ == targets(
                tasks_view(self.columns@),
                self.selected@,
                self.focused_column as int,
                self.focused_task as int,
            ),
    {
        let ghost ts = tasks_view(self.columns@);
        if self.selected.len() == 0 {
            let mut r: Vec<CardId> = Vec::new();
            match self.focused_card_id() {
                Some(id) => r.push(id),
                None => {},
            }
            assert(r@ =~= targets(
                ts,
                self.selected@,
                self.focused_column as int,
                self.focused_task as int,
            ));
            return r;
        }
        let mut r: Vec<CardId> = Vec::new();
        let mut c: usize = 0;
        while c < self.columns.len()
            invariant
                c <= self.columns@.len(),
                ts == tasks_view(self.columns@),
                r@ == selected_on_board(ts, self.selected@, c as int),
            decreases self.columns@.len() - c,
        {
            let tasks = &self.columns[c].tasks;
            assert(tasks@ == ts[c as int]);
            let ghost start = r@;
            let mut t: usize = 0;
            while t < tasks.len()
                invariant
                    t <= tasks@.len(),
                    tasks@ == ts[c as int],
                    r@ == start + selected_in(ts[c as int], self.selected@, t as int),
                decreases tasks@.len() - t,
            {
                if contains_card(&self.selected, tasks[t].id) {
                    r.push(tasks[t].id);
                }
                t = t + 1;
                assert(r@ =~= start + selected_in(ts[c as int], self.selected@, t as int));
            }
            c = c + 1;
        }
        r
    }

    /// Selects the focused card, or unselects it when it was selected; false when the focus
    /// is on no card.
    pub fn toggle_focused_selection(&mut self) -> (toggled: bool)
        requires
            old(self).selected@.no_duplicates(),
        ensures
            final(self).columns == old(self).columns,
            final(self).archived == old(self).archived,
            final(self).focused_column == old(self).focused_column,
            final(self).focused_task == old(self).focused_task,
            final(self).selected@.no_duplicates(),
            toggled == focused_card(
                tasks_view(old(self).columns@),
                old(self).focused_column as int,
                old(self).focused_task as int,
            ) is Some,
            !toggled ==> final(self).selected == old(self).selected,
            toggled ==> forall|x: CardId|
                final(self).selected@.contains(x) <==> if Some(x) == focused_card(
                    tasks_view(old(self).columns@),
                    old(self).focused_column as int,
                    old(self).focused_task as int,
                ) {
                    !old(self).selected@.contains(x)
                } else {
                    old(self).selected@.contains(x)
                },
    {
        let id = match self.focused_card_id() {
            Some(id) => id,
            None => return false,
        };
        if contains_card(&self.selected, id) {
            let mut kept: Vec<CardId> = Vec::new();
            let mut k: usize = 0;
            while k < self.selected.len()
                invariant
                    k <= self.selected@.len(),
                    self.selected@.no_duplicates(),
                    kept@.no_duplicates(),
                    forall|x: CardId|
                        kept@.contains(x) <==> (x != id && exists|j: int|
                            0 <= j < k && self.selected@[j] == x),
                decreases self.selected@.len() - k,
            {
                let x = self.selected[k];
                if x != id {
                    let ghost before = kept@;
                    proof {
                        if before.contains(x) {
                            let j = choose|j: int| 0 <= j < k && self.selected@[j] == x;
                            assert(self.selected@[j] == self.selected@[k as int]);
                        }
                    }
                    kept.push(x);
                    proof {
                        assert forall|y: CardId| kept@.contains(y) implies (y != id && exists|j: int|
                            0 <= j < k + 1 && self.selected@[j] == y) by {
                            let j = choose|j: int| 0 <= j < kept@.len() && kept@[j] == y;
                            if j < before.len() {
                                assert(before[j] == y);
                                assert(before.contains(y));
                                let i = choose|i: int| 0 <= i < k && self.selected@[i] == y;
                                assert(0 <= i < k + 1 && self.selected@[i] == y);
                            } else {
                                assert(self.selected@[k as int] == y);
                            }
                        }
                        assert forall|y: CardId| (y != id && exists|j: int|
                            0 <= j < k + 1 && self.selected@[j] == y) implies kept@.contains(y) by {
                            let j = choose|j: int| 0 <= j < k + 1 && self.selected@[j] == y;
                            if j < k {
                                assert(before.contains(y));
                                let i = choose|i: int| 0 <= i < before.len() && before[i] == y;
                                assert(kept@[i] == y);
                            } else {
                                assert(kept@[kept@.len() - 1] == y);
                            }
                        }
                    }
                } else {
                    proof {
                        assert forall|y: CardId| (y != id && exists|j: int|
                            0 <= j < k + 1 && self.selected@[j] == y) implies kept@.contains(y) by {
                            let j = choose|j: int| 0 <= j < k + 1 && self.selected@[j] == y;
                            assert(j < k);
                        }
                    }
                }
                k = k + 1;
            }
            self.selected = kept;
        } else {
            let ghost before = self.selected@;
            self.selected.push(id);
            proof {
                assert forall|x: CardId| self.selected@.contains(x) <==> (x == id || before.contains(x)) by {
                    if self.selected@.contains(x) {
                        let j = choose|j: int| 0 <= j < self.selected@.len() && self.selected@[j] == x;
                        if j < before.len() {
                            assert(before[j] == x);
                        }
                    }
                    if before.contains(x) {
                        let j = choose|j: int| 0 <= j < before.len() && before[j] == x;
                        assert(self.selected@[j] == x);
                    }
                    if x == id {
                        assert(self.selected@[before.len() as int] == x);
                    }
                }
                assert forall|i: int, j: int| 0 <= i < j < self.selected@.len() implies self.selected@[i]
                    != self.selected@[j] by {
                    if j == before.len() {
                        assert(before[i] == self.selected@[i]);
                    }
                }
            }
        }
        true
    }

    /// The moves of the target cards one column left or right.
    pub fn relative_move_plans(&self, left: bool) -> (plans: Vec<(CardId, usize)>)
        requires
            self.columns@.len() > 0,
        ensures
            plans@ == relative_plans(
                tasks_view(self.columns@),
                targets(
                    tasks_view(self.columns@),
                    self.selected@,
                    self.focused_column as int,
                    self.focused_task as int,
                ),
                left,
                targets(
                    tasks_view(self.columns@),
                    self.selected@,
                    self.focused_column as int,
                    self.focused_task as int,
                ).len() as int,
            ),
    {
        let ghost ts = tasks_view(self.columns@);
        let ids = self.target_card_ids();
        let count = self.columns.len();
        let mut plans: Vec<(CardId, usize)> = Vec::new();
        let mut i: usize = 0;
        while i < ids.len()
            invariant
                i <= ids@.len(),
                ts == tasks_view(self.columns@),
                count == ts.len(),
                count > 0,
                plans@ == relative_plans(ts, ids@, left, i as int),
            decreases ids@.len() - i,
        {
            match self.locate_card(ids[i]) {
                Some((source, _)) => {
                    proof {
                        lemma_locate_from(ts, ids@[i as int], 0);
                    }
                    let target = if left {
                        if source > 0 {
                            source - 1
                        } else {
                            0
                        }
                    } else if source + 1 < count {
                        source + 1
                    } else {
                        count - 1
                    };
                    if target != source {
                        plans.push((ids[i], target));
                    }
                },
                None => {},
            }
            i = i + 1;
        }
        plans
    }

    /// The moves of the target cards to column `target`.
    pub fn move_plans_to(&self, target: usize) -> (plans: Vec<(CardId, usize)>)
        ensures
            plans@ == plans_to(
                tasks_view(self.columns@),
                targets(
                    tasks_view(self.columns@),
                    self.selected@,
                    self.focused_column as int,
                    self.focused_task as int,
                ),
                target,
                targets(
                    tasks_view(self.columns@),
                    self.selected@,
                    self.focused_column as int,
                    self.focused_task as int,
                ).len() as int,
            ),
    {
        let ghost ts = tasks_view(self.columns@);
        let ids = self.target_card_ids();
        let mut plans: Vec<(CardId, usize)> = Vec::new();
        let mut i: usize = 0;
        while i < ids.len()
            invariant
                i <= ids@.len(),
                ts == tasks_view(self.columns@),
                plans@ == plans_to(ts, ids@, target, i as int),
            decreases ids@.len() - i,
        {
            match self.locate_card(ids[i]) {
                Some((column, _)) => {
                    if column != target {
                        plans.push((ids[i], target));
                    }
                },
                None => {},
            }
            i = i + 1;
        }
        plans
    }

    /// Carries out the moves (see `after_moves`) and clears the selection; gives the last card
    /// moved, which the focus follows.
    pub fn apply_move_plans(&mut self, plans: &Vec<(CardId, usize)>) -> (last: Option<CardId>)
        requires
            forall|i: int| 0 <= i < plans@.len() ==> (#[trigger] plans@[i]).1 < old(self).columns@.len(),
        ensures
            tasks_view(final(self).columns@) == after_moves(tasks_view(old(self).columns@), plans@),
            heads(final(self).columns@) == heads(old(self).columns@),
            final(self).archived == old(self).archived,
            final(self).focused_column == old(self).focused_column,
            final(self).focused_task == old(self).focused_task,
            final(self).selected@.len() == 0,
            last == last_moved(tasks_view(old(self).columns@), plans@),
    {
        let ghost ts = tasks_view(self.columns@);
        let ghost hs = heads(self.columns@);
        let mut moved: Vec<(Task, usize)> = Vec::new();
        let mut i: usize = 0;
        while i < plans.len()
            invariant
                i <= plans@.len(),
                forall|j: int| 0 <= j < plans@.len() ==> (#[trigger] plans@[j]).1 < ts.len(),
                tasks_view(self.columns@) == removal(ts, plans@, i as int).0,
                moved@ == removal(ts, plans@, i as int).1,
                heads(self.columns@) == hs,
                self.archived == old(self).archived,
                self.focused_column == old(self).focused_column,
                self.focused_task == old(self).focused_task,
            decreases plans@.len() - i,
        {
            proof {
                lemma_removal_shape(ts, plans@, i as int);
                lemma_locate_from(tasks_view(self.columns@), plans@[i as int].0, 0);
            }
            let (id, target) = plans[i];
            match self.locate_card(id) {
                Some((c, t)) => {
                    let task = take_task(&mut self.columns, c, t);
                    moved.push((task, target));
                },
                None => {},
            }
            i = i + 1;
        }
        proof {
            lemma_removal_shape(ts, plans@, plans@.len() as int);
        }
        let last = if moved.len() > 0 {
            Some(moved[moved.len() - 1].0.id)
        } else {
            None
        };
        let ghost removed = tasks_view(self.columns@);
        let mut k: usize = 0;
        while k < moved.len()
            invariant
                k <= moved@.len(),
                removed.len() == ts.len(),
                self.columns@.len() == ts.len(),
                forall|j: int| 0 <= j < moved@.len() ==> (#[trigger] moved@[j]).1 < ts.len(),
                tasks_view(self.columns@) == appended(removed, moved@, k as int),
                heads(self.columns@) == hs,
                self.archived == old(self).archived,
                self.focused_column == old(self).focused_column,
                self.focused_task == old(self).focused_task,
            decreases moved@.len() - k,
        {
            let task = moved[k].0.clone();
            let target = moved[k].1;
            put_task(&mut self.columns, target, task);
            k = k + 1;
        }
        self.selected = Vec::new();
        last
    }
}


// ---------------------------------------------------------------------------------------
// Focus
// ---------------------------------------------------------------------------------------

/// The last position of a list of `n` items, or 0 when it is empty.
pub open spec fn last_index(n: int) -> int {
    if n > 0 {
        n - 1
    } else {
        0
    }
}

/// The smaller of two numbers.
pub open spec fn smaller(a: int, b: int) -> int {
    if a <= b {
        a
    } else {
        b
    }
}

/// The first column at or after `k` that holds a card, if any.
pub open spec fn first_nonempty(ts: Seq<Seq<Task>>, k: int) -> Option<int>
    decreases ts.len() - k,
{
    if k < 0 || k >= ts.len() {
        None
    } else if ts[k].len() > 0 {
        Some(k)
    } else {
        first_nonempty(ts, k + 1)
    }
}

/// The last column before `n` that holds a card, if any.
pub open spec fn last_nonempty(ts: Seq<Seq<Task>>, n: int) -> Option<int>
    decreases n,
{
    if n <= 0 {
        None
    } else if ts[n - 1].len() > 0 {
        Some(n - 1)
    } else {
        last_nonempty(ts, n - 1)
    }
}

proof fn lemma_first_nonempty(ts: Seq<Seq<Task>>, k: int)
    requires
        0 <= k,
    ensures
        first_nonempty(ts, k) matches Some(c) ==> k <= c < ts.len() && ts[c].len() > 0,
    decreases ts.len() - k,
{
    if k < ts.len() {
        lemma_first_nonempty(ts, k + 1);
    }
}

proof fn lemma_last_nonempty(ts: Seq<Seq<Task>>, n: int)
    requires
        n <= ts.len(),
    ensures
        last_nonempty(ts, n) matches Some(c) ==> 0 <= c < n && ts[c].len() > 0,
    decreases n,
{
    if n > 0 {
        lemma_last_nonempty(ts, n - 1);
    }
}

impl Board {
    /// Keeps the focus on a column of the board and a card of that column.
    pub fn clamp_focus(&mut self)
        requires
            old(self).columns@.len() > 0,
        ensures
            final(self).columns == old(self).columns,
            final(self).archived == old(self).archived,
            final(self).selected == old(self).selected,
            final(self).focused_column == smaller(
                old(self).focused_column as int,
                old(self).columns@.len() - 1,
            ),
            final(self).focused_task == smaller(
                old(self).focused_task as int,
                last_index(old(self).columns@[final(self).focused_column as int].tasks@.len() as int),
            ),
    {
        let last_column = self.columns.len() - 1;
        if self.focused_column > last_column {
            self.focused_column = last_column;
        }
        let n = self.columns[self.focused_column].tasks.len();
        let last_task = if n > 0 {
            n - 1
        } else {
            0
        };
        if self.focused_task > last_task {
            self.focused_task = last_task;
        }
    }

    /// Focuses a column (the last one if `column` is past the end), keeping the card position
    /// within it.
    pub fn focus_column(&mut self, column: usize)
        requires
            old(self).columns@.len() > 0,
        ensures
            final(self).columns == old(self).columns,
            final(self).archived == old(self).archived,
            final(self).selected == old(self).selected,
            final(self).focused_column == smaller(column as int, old(self).columns@.len() - 1),
            final(self).focused_task == smaller(
                old(self).focused_task as int,
                last_index(old(self).columns@[final(self).focused_column as int].tasks@.len() as int),
            ),
    {
        self.focused_column = column;
        self.clamp_focus();
    }

    /// Moves the focus one column left or right, staying on the board.
    pub fn move_focus_column(&mut self, left: bool)
        requires
            old(self).columns@.len() > 0,
        ensures
            final(self).columns == old(self).columns,
            final(self).archived == old(self).archived,
            final(self).selected == old(self).selected,
            final(self).focused_column == smaller(
                if left {
                    last_index(old(self).focused_column as int)
                } else {
                    old(self).focused_column + 1
                },
                old(self).columns@.len() - 1,
            ),
            final(self).focused_task == smaller(
                old(self).focused_task as int,
                last_index(old(self).columns@[final(self).focused_column as int].tasks@.len() as int),
            ),
    {
        let count = self.columns.len();
        let target = if left {
            if self.focused_column > 0 {
                self.focused_column - 1
            } else {
                0
            }
        } else if self.focused_column < usize::MAX {
            self.focused_column + 1
        } else {
            self.focused_column
        };
        self.focus_column(target);
    }

    /// Moves the focus one card up or down its column; false when the column is empty.
    pub fn move_focus_task(&mut self, up: bool) -> (moved: bool)
        requires
            old(self).wf(),
        ensures
            final(self).columns == old(self).columns,
            final(self).archived == old(self).archived,
            final(self).selected == old(self).selected,
            final(self).focused_column == old(self).focused_column,
            moved == (old(self).columns@[old(self).focused_column as int].tasks@.len() > 0),
            final(self).focused_task == if !moved {
                old(self).focused_task as int
            } else if up {
                last_index(old(self).focused_task as int)
            } else {
                smaller(
                    old(self).focused_task + 1,
                    old(self).columns@[old(self).focused_column as int].tasks@.len() - 1,
                )
            },
    {
        let n = self.columns[self.focused_column].tasks.len();
        if n == 0 {
            return false;
        }
        if up {
            if self.focused_task > 0 {
                self.focused_task = self.focused_task - 1;
            }
        } else if self.focused_task < n - 1 {
            self.focused_task = self.focused_task + 1;
        } else {
            self.focused_task = n - 1;
        }
        true
    }

    /// Focuses the card where `locate` finds it; false when it is not on the board.
    pub fn focus_card(&mut self, id: CardId) -> (found: bool)
        ensures
            final(self).columns == old(self).columns,
            final(self).archived == old(self).archived,
            final(self).selected == old(self).selected,
            found == locate(tasks_view(old(self).columns@), id) is Some,
            found ==> final(self).focused_column == locate(tasks_view(old(self).columns@), id)->Some_0.0
                && final(self).focused_task == locate(tasks_view(old(self).columns@), id)->Some_0.1,
            !found ==> final(self).focused_column == old(self).focused_column
                && final(self).focused_task == old(self).focused_task,
    {
        match self.locate_card(id) {
            Some((column, task)) => {
                self.focused_column = column;
                self.focused_task = task;
                true
            },
            None => false,
        }
    }

    /// Focuses the first card of the first column that has one, or the last card of the last
    /// such column; false when the board has no card.
    pub fn goto_edge_card(&mut self, last: bool) -> (found: bool)
        ensures
            final(self).columns == old(self).columns,
            final(self).archived == old(self).archived,
            final(self).selected == old(self).selected,
            ({
                let ts = tasks_view(old(self).columns@);
                let edge = if last {
                    last_nonempty(ts, ts.len() as int)
                } else {
                    first_nonempty(ts, 0)
                };
                &&& found == edge is Some
                &&& found ==> final(self).focused_column == edge->Some_0
                    && final(self).focused_task == if last {
                    ts[edge->Some_0].len() - 1
                } else {
                    0
                }
                &&& !found ==> final(self).focused_column == old(self).focused_column
                    && final(self).focused_task == old(self).focused_task
            }),
    {
        let ghost ts = tasks_view(self.columns@);
        let n = self.columns.len();
        if last {
            let mut c: usize = n;
            while c > 0
                invariant
                    c <= n,
                    n == ts.len(),
                    ts == tasks_view(self.columns@),
                    self.columns == old(self).columns,
                    self.archived == old(self).archived,
                    self.selected == old(self).selected,
                    self.focused_column == old(self).focused_column,
                    self.focused_task == old(self).focused_task,
                    last_nonempty(ts, n as int) == last_nonempty(ts, c as int),
                decreases c,
            {
                let len = self.columns[c - 1].tasks.len();
                assert(len == ts[c - 1].len());
                if len > 0 {
                    self.focused_column = c - 1;
                    self.focused_task = len - 1;
                    return true;
                }
                c = c - 1;
            }
            false
        } else {
            let mut c: usize = 0;
            while c < n
                invariant
                    c <= n,
                    n == ts.len(),
                    ts == tasks_view(self.columns@),
                    self.columns == old(self).columns,
                    self.archived == old(self).archived,
                    self.selected == old(self).selected,
                    self.focused_column == old(self).focused_column,
                    self.focused_task == old(self).focused_task,
                    first_nonempty(ts, 0) == first_nonempty(ts, c as int),
                decreases n - c,
            {
                let len = self.columns[c].tasks.len();
                assert(len == ts[c as int].len());
                if len > 0 {
                    self.focused_column = c;
                    self.focused_task = 0;
                    return true;
                }
                c = c + 1;
            }
            false
        }
    }

    /// Exchanges two columns, their cards with them; the focus follows the column it was on
    /// when that is one of the two.
    pub fn swap_columns(&mut self, a: usize, b: usize)
        requires
            a < old(self).columns@.len(),
            b < old(self).columns@.len(),
        ensures
            tasks_view(final(self).columns@) == tasks_view(old(self).columns@).update(
                a as int,
                tasks_view(old(self).columns@)[b as int],
            ).update(b as int, tasks_view(old(self).columns@)[a as int]),
            heads(final(self).columns@) == heads(old(self).columns@).update(
                a as int,
                heads(old(self).columns@)[b as int],
            ).update(b as int, heads(old(self).columns@)[a as int]),
            final(self).archived == old(self).archived,
            final(self).selected == old(self).selected,
            final(self).focused_task == old(self).focused_task,
            final(self).focused_column == if old(self).focused_column == a {
                b
            } else if old(self).focused_column == b {
                a
            } else {
                old(self).focused_column
            },
    {
        if a != b {
            let (low, high) = if a < b {
                (a, b)
            } else {
                (b, a)
            };
            let upper = self.columns.remove(high);
            let lower = self.columns.remove(low);
            self.columns.insert(low, upper);
            self.columns.insert(high, lower);
        }
        let ghost o = old(self).columns@;
        assert(tasks_view(self.columns@) =~= tasks_view(o).update(a as int, tasks_view(o)[b as int]).update(
            b as int,
            tasks_view(o)[a as int],
        ));
        assert(heads(self.columns@) =~= heads(o).update(a as int, heads(o)[b as int]).update(
            b as int,
            heads(o)[a as int],
        ));
        if self.focused_column == a {
            self.focused_column = b;
        } else if self.focused_column == b {
            self.focused_column = a;
        }
    }

    /// Removes an empty column when another remains; false, with nothing changed, otherwise.
    /// The focus stays on a column, on its first card.
    pub fn delete_column(&mut self, index: usize) -> (deleted: bool)
        requires
            old(self).wf(),
        ensures
            deleted == (old(self).columns@.len() > 1 && index < old(self).columns@.len()
                && old(self).columns@[index as int].tasks@.len() == 0),
            deleted ==> tasks_view(final(self).columns@) == tasks_view(old(self).columns@).remove(
                index as int,
            ) && heads(final(self).columns@) == heads(old(self).columns@).remove(index as int)
                && final(self).focused_column == smaller(
                old(self).focused_column as int,
                old(self).columns@.len() - 2,
            ) && final(self).focused_task == 0,
            !deleted ==> final(self).columns == old(self).columns && final(self).focused_column
                == old(self).focused_column && final(self).focused_task == old(self).focused_task,
            final(self).archived == old(self).archived,
            final(self).selected == old(self).selected,
            final(self).wf(),
    {
        if self.columns.len() <= 1 || index >= self.columns.len() || self.columns[index].tasks.len()
            > 0 {
            return false;
        }
        let _removed = self.columns.remove(index);
        assert(tasks_view(self.columns@) =~= tasks_view(old(self).columns@).remove(index as int));
        assert(heads(self.columns@) =~= heads(old(self).columns@).remove(index as int));
        if self.focused_column >= self.columns.len() {
            self.focused_column = self.columns.len() - 1;
        }
        self.focused_task = 0;
        true
    }
}

/// Which part of the interface gets the keys: help, then a confirmation, the move picker, a
/// pending goto, a form, the annotation review, the details, else the board.
pub open spec fn context_of(
    help_open: bool,
    confirming: bool,
    picking: bool,
    goto_pending: bool,
    form_open: bool,
    reviewing: bool,
    detail_open: bool,
) -> KeyContext {
    if help_open {
        KeyContext::Help
    } else if confirming {
        KeyContext::Confirmation
    } else if picking {
        KeyContext::Picker
    } else if goto_pending {
        KeyContext::Goto
    } else if form_open {
        KeyContext::Form
    } else if reviewing {
        KeyContext::Annotations
    } else if detail_open {
        KeyContext::Details
    } else {
        KeyContext::Board
    }
}

/// The part of the interface that gets the keys (see `context_of`).
pub fn key_context(
    help_open: bool,
    confirming: bool,
    picking: bool,
    goto_pending: bool,
    form_open: bool,
    reviewing: bool,
    detail_open: bool,
) -> (c: KeyContext)
    ensures
        c == context_of(
            help_open,
            confirming,
            picking,
            goto_pending,
            form_open,
            reviewing,
            detail_open,
        ),
{
    if help_open {
        KeyContext::Help
    } else if confirming {
        KeyContext::Confirmation
    } else if picking {
        KeyContext::Picker
    } else if goto_pending {
        KeyContext::Goto
    } else if form_open {
        KeyContext::Form
    } else if reviewing {
        KeyContext::Annotations
    } else if detail_open {
        KeyContext::Details
    } else {
        KeyContext::Board
    }
}

/// The column ids of the configuration, as text.
pub open spec fn config_ids(columns: Seq<ColumnConfig>) -> Seq<Seq<char>> {
    columns.map_values(|c: ColumnConfig| c.id@)
}

/// The id of a new column named `name`: `None` when the trimmed name is empty, else the slug
/// of the trimmed name (`column` when it has no letter or digit), or the first of `slug-2`,
/// `slug-3`, ... that no column uses.
pub fn new_column_id(name: &str, columns: &Vec<ColumnConfig>) -> (r: Option<String>)
    ensures
        trim(name@).len() == 0 ==> r is None,
        trim(name@).len() > 0 ==> (r matches Some(id) && exists|k: int|
            first_free(slug(trim(name@), "column"@), config_ids(columns@), k) && id@ == candidate(
                slug(trim(name@), "column"@),
                k,
            )),
{
    let trimmed = trim_str(name);
    if trimmed.unicode_len() == 0 {
        return None;
    }
    proof {
        reveal_strlit("column");
    }
    let base = slugify(trimmed, "column");
    let mut used: Vec<String> = Vec::new();
    let mut i: usize = 0;
    while i < columns.len()
        invariant
            i <= columns@.len(),
            string_views(used@) == config_ids(columns@.subrange(0, i as int)),
        decreases columns@.len() - i,
    {
        let ghost before = used@;
        let id_text = owned(columns[i].id.as_str());
        used.push(id_text);
        assert(string_views(used@) =~= string_views(before).push(columns@[i as int].id@));
        assert(config_ids(columns@.subrange(0, i + 1)) =~= config_ids(columns@.subrange(0, i as int)).push(columns@[i as int].id@));
        i = i + 1;
    }
    assert(columns@.subrange(0, columns@.len() as int) =~= columns@);
    Some(unique_name(&base, &used))
}


// ---------------------------------------------------------------------------------------
// Archive
// ---------------------------------------------------------------------------------------

/// The archive entries of the board, by column identity and card.
pub open spec fn archived_view(a: Seq<ArchivedTask>) -> Seq<(ColumnId, Task)> {
    a.map_values(|x: ArchivedTask| (x.column_id, x.task))
}

/// The card, archived by the user rather than by a scan.
pub open spec fn archived_by_user(t: Task) -> Task {
    Task { archived_by_sync: false, ..t }
}

/// The board and the new archive entries after archiving the first `n` identities: each card
/// on the board is taken from where `locate` finds it, with the identity of its column.
pub open spec fn archive_removal(
    ts: Seq<Seq<Task>>,
    columns: Seq<ColumnId>,
    ids: Seq<CardId>,
    n: int,
) -> (Seq<Seq<Task>>, Seq<(ColumnId, Task)>)
    decreases n,
{
    if n <= 0 {
        (ts, Seq::empty())
    } else {
        let r = archive_removal(ts, columns, ids, n - 1);
        match locate(r.0, ids[n - 1]) {
            Some(p) => (
                r.0.update(p.0, r.0[p.0].remove(p.1)),
                r.1.push((columns[p.0], archived_by_user(r.0[p.0][p.1]))),
            ),
            None => r,
        }
    }
}

/// The identities of the columns.
pub open spec fn column_ids(columns: Seq<Column>) -> Seq<ColumnId> {
    columns.map_values(|c: Column| c.id)
}

proof fn lemma_archive_removal_len(ts: Seq<Seq<Task>>, columns: Seq<ColumnId>, ids: Seq<CardId>, n: int)
    requires
        0 <= n,
    ensures
        archive_removal(ts, columns, ids, n).0.len() == ts.len(),
    decreases n,
{
    if n > 0 {
        lemma_archive_removal_len(ts, columns, ids, n - 1);
        let r = archive_removal(ts, columns, ids, n - 1);
        lemma_locate_from(r.0, ids[n - 1], 0);
    }
}

/// How many cards with the identity the first `n` columns hold.
pub open spec fn id_occurrences(ts: Seq<Seq<Task>>, id: CardId, n: int) -> nat
    decreases n,
{
    if n <= 0 {
        0
    } else {
        id_occurrences(ts, id, n - 1) + ts[n - 1].map_values(|t: Task| t.id).to_multiset().count(id)
    }
}

/// How many archive entries hold a card with the identity.
pub open spec fn archived_occurrences(entries: Seq<(ColumnId, Task)>, id: CardId) -> nat {
    entries.map_values(|e: (ColumnId, Task)| e.1.id).to_multiset().count(id)
}

proof fn lemma_id_occurrences_update(ts: Seq<Seq<Task>>, c: int, s: Seq<Task>, id: CardId, n: int)
    requires
        0 <= c < ts.len(),
        0 <= n <= ts.len(),
    ensures
        id_occurrences(ts.update(c, s), id, n) + (if c < n {
            ts[c].map_values(|t: Task| t.id).to_multiset().count(id)
        } else {
            0
        }) == id_occurrences(ts, id, n) + (if c < n {
            s.map_values(|t: Task| t.id).to_multiset().count(id)
        } else {
            0
        }),
    decreases n,
{
    if n > 0 {
        lemma_id_occurrences_update(ts, c, s, id, n - 1);
    }
}

/// Archiving never loses or copies a card: each card that leaves the board is among the new
/// archive entries, so for every identity the board before holds as many cards as the board
/// after and the new entries together.
pub proof fn lemma_archiving_keeps_cards(
    ts: Seq<Seq<Task>>,
    columns: Seq<ColumnId>,
    ids: Seq<CardId>,
    n: int,
    id: CardId,
)
    requires
        0 <= n <= ids.len(),
    ensures
        archive_removal(ts, columns, ids, n).0.len() == ts.len(),
        id_occurrences(ts, id, ts.len() as int) == id_occurrences(
            archive_removal(ts, columns, ids, n).0,
            id,
            ts.len() as int,
        ) + archived_occurrences(archive_removal(ts, columns, ids, n).1, id),
    decreases n,
{
    lemma_archive_removal_len(ts, columns, ids, n);
    if n > 0 {
        lemma_archiving_keeps_cards(ts, columns, ids, n - 1, id);
        let r = archive_removal(ts, columns, ids, n - 1);
        lemma_locate_from(r.0, ids[n - 1], 0);
        match locate(r.0, ids[n - 1]) {
            Some(p) => {
                let s = r.0[p.0];
                let card = s[p.1];
                let kept = s.remove(p.1);
                lemma_id_occurrences_update(r.0, p.0, kept, id, ts.len() as int);
                assert(kept.map_values(|t: Task| t.id) =~= s.map_values(|t: Task| t.id).remove(p.1));
                assert(s.map_values(|t: Task| t.id)[p.1] == card.id);
                let entry = (columns[p.0], archived_by_user(card));
                assert(r.1.push(entry).map_values(|e: (ColumnId, Task)| e.1.id) =~= r.1.map_values(
                    |e: (ColumnId, Task)| e.1.id,
                ).push(card.id));
            },
            None => {},
        }
    } else {
        assert(archived_occurrences(Seq::empty(), id) == 0);
    }
}

impl Board {
    /// Moves the cards to the archive (see `archive_removal`), clears the selection and
    /// keeps the focus on the board.
    pub fn archive_cards(&mut self, ids: &Vec<CardId>)
        requires
            old(self).columns@.len() > 0,
        ensures
            tasks_view(final(self).columns@) == archive_removal(
                tasks_view(old(self).columns@),
                column_ids(old(self).columns@),
                ids@,
                ids@.len() as int,
            ).0,
            archived_view(final(self).archived@) == archived_view(old(self).archived@)
                + archive_removal(
                tasks_view(old(self).columns@),
                column_ids(old(self).columns@),
                ids@,
                ids@.len() as int,
            ).1,
            heads(final(self).columns@) == heads(old(self).columns@),
            final(self).selected@.len() == 0,
            final(self).focused_column == smaller(
                old(self).focused_column as int,
                old(self).columns@.len() - 1,
            ),
            final(self).focused_task == smaller(
                old(self).focused_task as int,
                last_index(final(self).columns@[final(self).focused_column as int].tasks@.len() as int),
            ),
    {
        let ghost ts = tasks_view(self.columns@);
        let ghost cids = column_ids(self.columns@);
        let ghost hs = heads(self.columns@);
        let ghost start = archived_view(self.archived@);
        let mut i: usize = 0;
        while i < ids.len()
            invariant
                i <= ids@.len(),
                cids.len() == ts.len(),
                tasks_view(self.columns@) == archive_removal(ts, cids, ids@, i as int).0,
                archived_view(self.archived@) == start + archive_removal(ts, cids, ids@, i as int).1,
                heads(self.columns@) == hs,
                cids == column_ids(old(self).columns@),
                hs == heads(old(self).columns@),
                self.focused_column == old(self).focused_column,
                self.focused_task == old(self).focused_task,
            decreases ids@.len() - i,
        {
            proof {
                lemma_archive_removal_len(ts, cids, ids@, i as int);
                lemma_locate_from(tasks_view(self.columns@), ids@[i as int], 0);
            }
            match self.locate_card(ids[i]) {
                Some((c, t)) => {
                    assert(self.columns@[c as int].id == hs[c as int].0);
                    let column_id = self.columns[c].id.clone();
                    let mut task = take_task(&mut self.columns, c, t);
                    task.archived_by_sync = false;
                    let ghost before = self.archived@;
                    self.archived.push(ArchivedTask { column_id, task });
                    assert(archived_view(self.archived@) =~= archived_view(before).push(
                        (column_id, task),
                    ));
                },
                None => {},
            }
            i = i + 1;
        }
        self.selected = Vec::new();
        proof {
            lemma_archive_removal_len(ts, cids, ids@, ids@.len() as int);
            assert(self.columns@.len() == tasks_view(self.columns@).len());
        }
        self.clamp_focus();
    }

    /// Puts a new card at the end of a column and focuses it.
    pub fn add_task(&mut self, column: usize, task: Task)
        requires
            column < old(self).columns@.len(),
        ensures
            tasks_view(final(self).columns@) == tasks_view(old(self).columns@).update(
                column as int,
                tasks_view(old(self).columns@)[column as int].push(task),
            ),
            heads(final(self).columns@) == heads(old(self).columns@),
            final(self).archived == old(self).archived,
            final(self).selected == old(self).selected,
            final(self).focused_column == column,
            final(self).focused_task == old(self).columns@[column as int].tasks@.len(),
    {
        let n = self.columns[column].tasks.len();
        put_task(&mut self.columns, column, task);
        self.focused_column = column;
        self.focused_task = n;
    }

    /// Changes the title, description and priority of a card and focuses it; false when the
    /// card is no longer on the board.
    pub fn edit_task(&mut self, id: CardId, title: String, description: String, priority: TaskPriority) -> (found: bool)
        ensures
            found == locate(tasks_view(old(self).columns@), id) is Some,
            found ==> ({
                let p = locate(tasks_view(old(self).columns@), id)->Some_0;
                let t = tasks_view(old(self).columns@)[p.0][p.1];
                &&& tasks_view(final(self).columns@) == tasks_view(old(self).columns@).update(
                    p.0,
                    tasks_view(old(self).columns@)[p.0].update(
                        p.1,
                        Task { title, description, priority, ..t },
                    ),
                )
                &&& final(self).focused_column == p.0
                &&& final(self).focused_task == p.1
            }),
            !found ==> final(self).columns == old(self).columns && final(self).focused_column
                == old(self).focused_column && final(self).focused_task == old(self).focused_task,
            heads(final(self).columns@) == heads(old(self).columns@),
            final(self).archived == old(self).archived,
            final(self).selected == old(self).selected,
    {
        match self.locate_card(id) {
            Some((c, t)) => {
                proof {
                    lemma_locate_from(tasks_view(self.columns@), id, 0);
                }
                let ghost o = self.columns@;
                let mut column = self.columns.remove(c);
                let mut task = column.tasks.remove(t);
                task.title = title;
                task.description = description;
                task.priority = priority;
                column.tasks.insert(t, task);
                assert(column.tasks@ =~= o[c as int].tasks@.update(t as int, task));
                self.columns.insert(c, column);
                assert(tasks_view(self.columns@) =~= tasks_view(o).update(
                    c as int,
                    tasks_view(o)[c as int].update(t as int, task),
                ));
                assert(heads(self.columns@) =~= heads(o));
                self.focused_column = c;
                self.focused_task = t;
                true
            },
            None => false,
        }
    }
}

/// Why a card form cannot be saved.
pub open spec fn form_problem(title: Seq<char>, description: Seq<char>) -> Option<Seq<char>> {
    if trim(title).len() == 0 {
        Some("Title is required"@)
    } else if trim(description).len() == 0 {
        Some("Description is required"@)
    } else {
        None
    }
}

/// The trimmed title of a card form, or why it cannot be saved.
pub fn check_task_form(title: &str, description: &str) -> (r: Result<String, &'static str>)
    ensures
        match r {
            Ok(t) => form_problem(title@, description@) is None && t@ == trim(title@),
            Err(m) => form_problem(title@, description@) == Some(m@),
        },
{
    let trimmed = trim_str(title);
    if trimmed.unicode_len() == 0 {
        return Err("Title is required");
    }
    if trim_str(description).unicode_len() == 0 {
        return Err("Description is required");
    }
    Ok(owned(trimmed))
}

/// Links the annotations with the given identities to the card.
pub fn link_annotations(annotations: &mut Vec<CodeAnnotation>, ids: &Vec<AnnotationId>, card_id: CardId)
    ensures
        final(annotations)@.len() == old(annotations)@.len(),
        forall|k: int|
            0 <= k < old(annotations)@.len() ==> #[trigger] final(annotations)@[k] == if ids@.contains(
                old(annotations)@[k].id,
            ) {
                CodeAnnotation {
                    disposition: AnnotationDisposition::Linked { card_id },
                    ..old(annotations)@[k]
                }
            } else {
                old(annotations)@[k]
            },
{
    let mut k: usize = 0;
    while k < annotations.len()
        invariant
            k <= annotations@.len(),
            annotations@.len() == old(annotations)@.len(),
            forall|j: int|
                k <= j < annotations@.len() ==> #[trigger] annotations@[j] == old(annotations)@[j],
            forall|j: int|
                0 <= j < k ==> #[trigger] annotations@[j] == if ids@.contains(old(annotations)@[j].id) {
                    CodeAnnotation {
                        disposition: AnnotationDisposition::Linked { card_id },
                        ..old(annotations)@[j]
                    }
                } else {
                    old(annotations)@[j]
                },
        decreases annotations@.len() - k,
    {
        let mut listed = false;
        let mut j: usize = 0;
        while j < ids.len()
            invariant
                j <= ids@.len(),
                listed == exists|i: int| 0 <= i < j && ids@[i] == annotations@[k as int].id,
            decreases ids@.len() - j,
        {
            if ids[j] == annotations[k].id {
                listed = true;
            }
            j = j + 1;
        }
        if listed {
            let mut a = annotations[k].clone();
            a.disposition = AnnotationDisposition::Linked { card_id };
            annotations.set(k, a);
        }
        k = k + 1;
    }
}

// ---------------------------------------------------------------------------------------
// Goto labels
// ---------------------------------------------------------------------------------------

/// The keys of goto labels, home row first.
pub open spec fn label_keys() -> Seq<char> {
    "asdfghjklqwertyuiopzxcvbnm"@
}

/// The label of the `i`-th visible card: two keys, the first by `i / 26`, the second by
/// `i % 26`.
pub open spec fn goto_label(i: int) -> Seq<char> {
    seq![label_keys()[i / 26], label_keys()[i % 26]]
}

/// No two of the first 676 cards share a label, so typing a whole label names one card.
pub proof fn lemma_goto_labels_distinct(i: int, j: int)
    requires
        0 <= i < 676,
        0 <= j < 676,
        i != j,
    ensures
        goto_label(i) != goto_label(j),
{
    reveal_strlit("asdfghjklqwertyuiopzxcvbnm");
    let keys = label_keys();
    assert(keys.len() == 26);
    assert forall|a: int, b: int| 0 <= a < 26 && 0 <= b < 26 && a != b implies keys[a] != keys[b] by {
        assert(keys =~= seq![
            'a', 's', 'd', 'f', 'g', 'h', 'j', 'k', 'l', 'q', 'w', 'e', 'r', 't', 'y', 'u', 'i', 'o',
            'p', 'z', 'x', 'c', 'v', 'b', 'n', 'm'
        ]);
    }
    assert(i == 26 * (i / 26) + i % 26 && j == 26 * (j / 26) + j % 26) by (nonlinear_arith);
    assert(0 <= i / 26 < 26 && 0 <= j / 26 < 26) by (nonlinear_arith)
        requires
            0 <= i < 676,
            0 <= j < 676,
    ;
    if goto_label(i) == goto_label(j) {
        assert(goto_label(i)[0] == goto_label(j)[0]);
        assert(goto_label(i)[1] == goto_label(j)[1]);
    }
}

/// Labels for the visible cards, in order; cards past the 676th get none.
pub fn goto_targets(visible: &Vec<CardId>) -> (r: Vec<GotoTarget>)
    ensures
        r@.len() == smaller(visible@.len() as int, 676),
        forall|i: int|
            0 <= i < r@.len() ==> (#[trigger] r@[i]).label@ == goto_label(i) && r@[i].card_id
                == visible@[i],
{
    let keys = "asdfghjklqwertyuiopzxcvbnm";
    proof {
        reveal_strlit("asdfghjklqwertyuiopzxcvbnm");
    }
    assert(keys@.len() == 26);
    let mut r: Vec<GotoTarget> = Vec::new();
    let mut i: usize = 0;
    while i < visible.len() && i < 676
        invariant
            i <= visible@.len(),
            i <= 676,
            keys@ == label_keys(),
            keys@.len() == 26,
            r@.len() == i,
            forall|k: int|
                0 <= k < i ==> (#[trigger] r@[k]).label@ == goto_label(k) && r@[k].card_id
                    == visible@[k],
        decreases visible@.len() - i,
    {
        let mut label = String::new();
        push_char(&mut label, keys.get_char(i / 26));
        push_char(&mut label, keys.get_char(i % 26));
        assert(label@ =~= goto_label(i as int));
        r.push(GotoTarget { label, card_id: visible[i] });
        i = i + 1;
    }
    r
}

/// What a key does to the goto labels.
#[derive(Debug, Clone, Copy, PartialEq, Eq, Structural)]
pub enum GotoOutcome {
    /// Escape: the labels close.
    Closed,
    /// No label starts with the letters typed: the labels close with a warning.
    Unknown,
    /// One label was typed whole: the labels close and the focus goes to its card.
    Jump(CardId),
    /// The labels stay open.
    Pending,
}

/// The indices of the first `n` targets whose label starts with `input`.
pub open spec fn matching_labels(targets: Seq<GotoTarget>, input: Seq<char>, n: int) -> Seq<int>
    decreases n,
{
    if n <= 0 {
        Seq::empty()
    } else if input.len() <= targets[n - 1].label@.len() && targets[n - 1].label@.subrange(
        0,
        input.len() as int,
    ) == input {
        matching_labels(targets, input, n - 1).push(n - 1)
    } else {
        matching_labels(targets, input, n - 1)
    }
}

/// The outcome of typing `c` after `input` (see `GotoOutcome`); letters are compared in
/// lower case.
pub open spec fn goto_step(targets: Seq<GotoTarget>, input: Seq<char>, c: char) -> GotoOutcome {
    let typed = input.push(lower_char(c));
    let m = matching_labels(targets, typed, targets.len() as int);
    if m.len() == 0 {
        GotoOutcome::Unknown
    } else if m.len() == 1 && typed.len() == targets[m[0]].label@.len() {
        GotoOutcome::Jump(targets[m[0]].card_id)
    } else {
        GotoOutcome::Pending
    }
}

proof fn lemma_matching_labels_bound(targets: Seq<GotoTarget>, input: Seq<char>, n: int)
    requires
        0 <= n <= targets.len(),
    ensures
        forall|k: int|
            0 <= k < matching_labels(targets, input, n).len() ==> 0 <= #[trigger] matching_labels(
                targets,
                input,
                n,
            )[k] < n,
    decreases n,
{
    if n > 0 {
        lemma_matching_labels_bound(targets, input, n - 1);
        let prev = matching_labels(targets, input, n - 1);
        assert forall|k: int| 0 <= k < matching_labels(targets, input, n).len() implies 0
            <= #[trigger] matching_labels(targets, input, n)[k] < n by {
            if k < prev.len() {
                assert(matching_labels(targets, input, n)[k] == prev[k]);
            }
        }
    }
}

/// Handles a key while goto labels are shown: Escape closes them, a character is added to the
/// letters typed (see `goto_step`), any other key does nothing.
pub fn goto_label_key(state: &mut GotoLabelsState, key: KeyInput) -> (outcome: GotoOutcome)
    ensures
        final(state).targets == old(state).targets,
        match key.code {
            KeyCode::Esc => outcome == GotoOutcome::Closed && final(state).input == old(
                state,
            ).input,
            KeyCode::Char(c) => outcome == goto_step(old(state).targets@, old(state).input@, c)
                && final(state).input@ == old(state).input@.push(lower_char(c)),
            _ => outcome == GotoOutcome::Pending && final(state).input == old(state).input,
        },
{
    let c = match key.code {
        KeyCode::Esc => return GotoOutcome::Closed,
        KeyCode::Char(c) => c,
        _ => return GotoOutcome::Pending,
    };
    push_char(&mut state.input, to_ascii_lower(c));
    let ghost typed = state.input@;
    let ghost ts = state.targets@;
    let mut count: usize = 0;
    let mut first: usize = 0;
    let mut k: usize = 0;
    while k < state.targets.len()
        invariant
            k <= ts.len(),
            ts == state.targets@,
            typed == state.input@,
            count == matching_labels(ts, typed, k as int).len(),
            count > 0 ==> first == matching_labels(ts, typed, k as int)[0],
            count <= k,
        decreases ts.len() - k,
    {
        if starts_with(state.targets[k].label.as_str(), state.input.as_str()) {
            if count == 0 {
                first = k;
            }
            count = count + 1;
        }
        k = k + 1;
    }
    proof {
        lemma_matching_labels_bound(ts, typed, ts.len() as int);
    }
    if count == 0 {
        GotoOutcome::Unknown
    } else if count == 1 && state.input.unicode_len() == state.targets[first].label.unicode_len() {
        GotoOutcome::Jump(state.targets[first].card_id)
    } else {
        GotoOutcome::Pending
    }
}


// ---------------------------------------------------------------------------------------
// The cards file
// ---------------------------------------------------------------------------------------

/// The stored form of a card of a column.
pub open spec fn local_of(t: Task, column: ColumnId, archived: bool) -> LocalCard {
    LocalCard {
        id: t.id,
        title: t.title,
        description: t.description,
        priority: t.priority,
        column_id: column,
        archived,
        archived_by_sync: t.archived_by_sync,
    }
}

/// The stored cards of the first `n` columns, column after column.
pub open spec fn board_cards(columns: Seq<Column>, n: int) -> Seq<LocalCard>
    decreases n,
{
    if n <= 0 {
        Seq::empty()
    } else {
        board_cards(columns, n - 1) + columns[n - 1].tasks@.map_values(
            |t: Task| local_of(t, columns[n - 1].id, false),
        )
    }
}

/// The stored cards of the archive.
pub open spec fn archive_cards_view(a: Seq<ArchivedTask>) -> Seq<LocalCard> {
    a.map_values(|x: ArchivedTask| local_of(x.task, x.column_id, true))
}

/// The card order with the entry of `key` set to `ids`; a new key goes in key order.
pub open spec fn with_entry(o: Seq<(Seq<char>, Seq<CardId>)>, key: Seq<char>, ids: Seq<CardId>) -> Seq<
    (Seq<char>, Seq<CardId>),
> {
    let e = entry_index(o, key, 0);
    if e < o.len() {
        o.update(e, (o[e].0, ids))
    } else {
        o.insert(insert_index(o, key, 0), (key, ids))
    }
}

/// The card order of the first `n` columns.
pub open spec fn board_ordering(columns: Seq<Column>, n: int) -> Seq<(Seq<char>, Seq<CardId>)>
    decreases n,
{
    if n <= 0 {
        Seq::empty()
    } else {
        with_entry(
            board_ordering(columns, n - 1),
            columns[n - 1].id@,
            columns[n - 1].tasks@.map_values(|t: Task| t.id),
        )
    }
}

proof fn lemma_entry_index_bound(o: Seq<(Seq<char>, Seq<CardId>)>, key: Seq<char>, k: int)
    requires
        0 <= k,
    ensures
        entry_index(o, key, k) <= o.len(),
        entry_index(o, key, k) < o.len() ==> o[entry_index(o, key, k)].0 == key,
    decreases o.len() - k,
{
    if k < o.len() {
        lemma_entry_index_bound(o, key, k + 1);
    }
}

proof fn lemma_insert_index_bound(o: Seq<(Seq<char>, Seq<CardId>)>, key: Seq<char>, k: int)
    requires
        0 <= k <= o.len(),
    ensures
        k <= insert_index(o, key, k) <= o.len(),
    decreases o.len() - k,
{
    if k < o.len() {
        lemma_insert_index_bound(o, key, k + 1);
    }
}

fn set_entry(o: Vec<OrderingEntry>, column: &ColumnId, ids: Vec<CardId>) -> (r: Vec<OrderingEntry>)
    ensures
        ordering_view(r@) == with_entry(ordering_view(o@), column@, ids@),
{
    let mut o = o;
    let ghost v = ordering_view(o@);
    proof {
        lemma_entry_index_bound(v, column@, 0);
        lemma_insert_index_bound(v, column@, 0);
    }
    let mut e: usize = 0;
    while e < o.len()
        invariant
            e <= o@.len(),
            v == ordering_view(o@),
            entry_index(v, column@, 0) == entry_index(v, column@, e as int),
        decreases o@.len() - e,
    {
        if str_eq(o[e].column_id.as_str(), column.as_str()) {
            break;
        }
        e = e + 1;
    }
    if e < o.len() {
        let key = o[e].column_id.clone();
        o.set(e, OrderingEntry { column_id: key, cards: ids });
        assert(ordering_view(o@) =~= with_entry(v, column@, ids@));
        o
    } else {
        let mut p: usize = 0;
        while p < o.len()
            invariant
                p <= o@.len(),
                v == ordering_view(o@),
                insert_index(v, column@, 0) == insert_index(v, column@, p as int),
            decreases o@.len() - p,
        {
            if compare_text(column.as_str(), o[p].column_id.as_str()) < 0 {
                break;
            }
            p = p + 1;
        }
        o.insert(p, OrderingEntry { column_id: column.clone(), cards: ids });
        assert(ordering_view(o@) =~= with_entry(v, column@, ids@));
        o
    }
}

impl Board {
    /// The cards file of the board: the cards of each column in order, then the archive; the
    /// card order of each column; and the given annotations.
    pub fn cards_file(&self, workspace_id: WorkspaceId, annotations: Vec<CodeAnnotation>) -> (f: CardsFile)
        ensures
            f.schema_version == PRIVATE_SCHEMA_VERSION,
            f.workspace_id == workspace_id,
            f.cards@ == board_cards(self.columns@, self.columns@.len() as int) + archive_cards_view(
                self.archived@,
            ),
            ordering_view(f.ordering@) == board_ordering(self.columns@, self.columns@.len() as int),
            f.annotations@ == annotations@,
    {
        let mut cards: Vec<LocalCard> = Vec::new();
        let mut ordering: Vec<OrderingEntry> = Vec::new();
        let mut c: usize = 0;
        while c < self.columns.len()
            invariant
                c <= self.columns@.len(),
                cards@ == board_cards(self.columns@, c as int),
                ordering_view(ordering@) == board_ordering(self.columns@, c as int),
            decreases self.columns@.len() - c,
        {
            let column = &self.columns[c];
            let ghost start = cards@;
            let mut ids: Vec<CardId> = Vec::new();
            let mut t: usize = 0;
            while t < column.tasks.len()
                invariant
                    t <= column.tasks@.len(),
                    column == self.columns@[c as int],
                    ids@ == column.tasks@.subrange(0, t as int).map_values(|x: Task| x.id),
                    cards@ == start + column.tasks@.subrange(0, t as int).map_values(
                        |x: Task| local_of(x, column.id, false),
                    ),
                decreases column.tasks@.len() - t,
            {
                let task = &column.tasks[t];
                ids.push(task.id);
                cards.push(
                    LocalCard {
                        id: task.id,
                        title: task.title.clone(),
                        description: task.description.clone(),
                        priority: task.priority,
                        column_id: column.id.clone(),
                        archived: false,
                        archived_by_sync: task.archived_by_sync,
                    },
                );
                t = t + 1;
                assert(ids@ =~= column.tasks@.subrange(0, t as int).map_values(|x: Task| x.id));
                assert(cards@ =~= start + column.tasks@.subrange(0, t as int).map_values(
                    |x: Task| local_of(x, column.id, false),
                ));
            }
            assert(column.tasks@.subrange(0, column.tasks@.len() as int) =~= column.tasks@);
            ordering = set_entry(ordering, &column.id, ids);
            c = c + 1;
        }
        let ghost board = cards@;
        let mut a: usize = 0;
        while a < self.archived.len()
            invariant
                a <= self.archived@.len(),
                cards@ == board + archive_cards_view(self.archived@.subrange(0, a as int)),
            decreases self.archived@.len() - a,
        {
            let x = &self.archived[a];
            cards.push(
                LocalCard {
                    id: x.task.id,
                    title: x.task.title.clone(),
                    description: x.task.description.clone(),
                    priority: x.task.priority,
                    column_id: x.column_id.clone(),
                    archived: true,
                    archived_by_sync: x.task.archived_by_sync,
                },
            );
            a = a + 1;
            assert(cards@ =~= board + archive_cards_view(self.archived@.subrange(0, a as int)));
        }
        assert(self.archived@.subrange(0, self.archived@.len() as int) =~= self.archived@);
        CardsFile {
            schema_version: PRIVATE_SCHEMA_VERSION,
            workspace_id,
            cards,
            ordering,
            annotations,
        }
    }
}


// ---------------------------------------------------------------------------------------
// The board of a cards file
// ---------------------------------------------------------------------------------------

/// The width of a column.
pub const COLUMN_WIDTH: usize = 50;

/// The last of the first `n` stored cards with the identity (later cards win).
pub open spec fn last_card(cards: Seq<LocalCard>, id: CardId, n: int) -> Option<int>
    decreases n,
{
    if n <= 0 {
        None
    } else if cards[n - 1].id == id {
        Some(n - 1)
    } else {
        last_card(cards, id, n - 1)
    }
}

/// The stored card order of a column; none when the column has no entry.
pub open spec fn ordering_of(o: Seq<(Seq<char>, Seq<CardId>)>, key: Seq<char>) -> Seq<CardId> {
    let e = entry_index(o, key, 0);
    if e < o.len() {
        o[e].1
    } else {
        Seq::empty()
    }
}

/// The board card of a stored card, at position `order`.
pub open spec fn task_of(card: LocalCard, order: usize) -> Task {
    Task {
        id: card.id,
        title: card.title,
        description: card.description,
        priority: card.priority,
        order,
        done: false,
        archived_by_sync: card.archived_by_sync,
    }
}

/// The cards of a column by its stored order after the first `m` identities, and the
/// identities placed: each identity of a stored card that is not archived.
pub open spec fn ordered_tasks(cards: Seq<LocalCard>, ids: Seq<CardId>, m: int) -> (Seq<Task>, Seq<CardId>)
    decreases m,
{
    if m <= 0 {
        (Seq::empty(), Seq::empty())
    } else {
        let r = ordered_tasks(cards, ids, m - 1);
        match last_card(cards, ids[m - 1], cards.len() as int) {
            Some(k) => if !cards[k].archived {
                (r.0.push(task_of(cards[k], r.0.len() as usize)), r.1.push(cards[k].id))
            } else {
                r
            },
            None => r,
        }
    }
}

/// The cards of the first `n` configured columns by the stored order, and the identities
/// placed.
pub open spec fn ordered_columns(
    config: Seq<ColumnConfig>,
    cards: Seq<LocalCard>,
    o: Seq<(Seq<char>, Seq<CardId>)>,
    n: int,
) -> (Seq<Seq<Task>>, Seq<CardId>)
    decreases n,
{
    if n <= 0 {
        (Seq::empty(), Seq::empty())
    } else {
        let r = ordered_columns(config, cards, o, n - 1);
        let ids = ordering_of(o, config[n - 1].id@);
        let col = ordered_tasks(cards, ids, ids.len() as int);
        (r.0.push(col.0), r.1 + col.1)
    }
}

/// The first configured column at or after `k` with the identity, or the length.
pub open spec fn config_index(config: Seq<ColumnConfig>, id: Seq<char>, k: int) -> int
    decreases config.len() - k,
{
    if k < 0 || k >= config.len() {
        config.len() as int
    } else if config[k].id@ == id {
        k
    } else {
        config_index(config, id, k + 1)
    }
}

/// The column of a card that the stored order does not place: its own column, or the first.
pub open spec fn home_column(config: Seq<ColumnConfig>, card: LocalCard) -> int {
    let i = config_index(config, card.column_id@, 0);
    if i < config.len() {
        i
    } else {
        0
    }
}

/// The columns after the first `n` stored cards that are not archived and were not placed
/// were put at the end of their home column.
pub open spec fn unplaced_added(
    ts: Seq<Seq<Task>>,
    config: Seq<ColumnConfig>,
    cards: Seq<LocalCard>,
    placed: Seq<CardId>,
    n: int,
) -> Seq<Seq<Task>>
    decreases n,
{
    if n <= 0 {
        ts
    } else {
        let prev = unplaced_added(ts, config, cards, placed, n - 1);
        let card = cards[n - 1];
        if !card.archived && !placed.contains(card.id) {
            let h = home_column(config, card);
            prev.update(h, prev[h].push(task_of(card, prev[h].len() as usize)))
        } else {
            prev
        }
    }
}

/// The cards of each column of the board of a cards file.
pub open spec fn board_tasks(config: Seq<ColumnConfig>, f: CardsFile) -> Seq<Seq<Task>> {
    let o = ordering_view(f.ordering@);
    let r = ordered_columns(config, f.cards@, o, config.len() as int);
    unplaced_added(r.0, config, f.cards@, r.1, f.cards@.len() as int)
}

/// The archive of the board of a cards file: its archived cards, in order.
pub open spec fn board_archive(cards: Seq<LocalCard>, n: int) -> Seq<(ColumnId, Task)>
    decreases n,
{
    if n <= 0 {
        Seq::empty()
    } else if cards[n - 1].archived {
        board_archive(cards, n - 1).push((cards[n - 1].column_id, task_of(cards[n - 1], 0)))
    } else {
        board_archive(cards, n - 1)
    }
}

proof fn lemma_last_card_bound(cards: Seq<LocalCard>, id: CardId, n: int)
    requires
        n <= cards.len(),
    ensures
        last_card(cards, id, n) matches Some(k) ==> 0 <= k < n && cards[k].id == id,
    decreases n,
{
    if n > 0 {
        lemma_last_card_bound(cards, id, n - 1);
    }
}

proof fn lemma_config_index_bound(config: Seq<ColumnConfig>, id: Seq<char>, k: int)
    requires
        0 <= k,
    ensures
        entry_point(config_index(config, id, k), config.len() as int),
    decreases config.len() - k,
{
    if k < config.len() {
        lemma_config_index_bound(config, id, k + 1);
    }
}

/// Whether `i` is an index of a sequence of length `n`, or `n` itself.
pub open spec fn entry_point(i: int, n: int) -> bool {
    0 <= i <= n
}

proof fn lemma_unplaced_len(
    ts: Seq<Seq<Task>>,
    config: Seq<ColumnConfig>,
    cards: Seq<LocalCard>,
    placed: Seq<CardId>,
    n: int,
)
    requires
        ts.len() == config.len(),
        config.len() > 0,
    ensures
        unplaced_added(ts, config, cards, placed, n).len() == ts.len(),
    decreases n,
{
    if n > 0 {
        lemma_unplaced_len(ts, config, cards, placed, n - 1);
        lemma_config_index_bound(config, cards[n - 1].column_id@, 0);
    }
}

proof fn lemma_ordered_columns_len(
    config: Seq<ColumnConfig>,
    cards: Seq<LocalCard>,
    o: Seq<(Seq<char>, Seq<CardId>)>,
    n: int,
)
    requires
        0 <= n,
    ensures
        ordered_columns(config, cards, o, n).0.len() == n,
    decreases n,
{
    if n > 0 {
        lemma_ordered_columns_len(config, cards, o, n - 1);
    }
}

fn find_last_card(cards: &Vec<LocalCard>, id: CardId) -> (r: Option<usize>)
    ensures
        (match r {
            Some(k) => Some(k as int),
            None => None,
        }) == last_card(cards@, id, cards@.len() as int),
{
    let mut n: usize = cards.len();
    while n > 0
        invariant
            n <= cards@.len(),
            last_card(cards@, id, cards@.len() as int) == last_card(cards@, id, n as int),
        decreases n,
    {
        if cards[n - 1].id == id {
            return Some(n - 1);
        }
        n = n - 1;
    }
    None
}

fn stored_order(o: &Vec<OrderingEntry>, key: &ColumnId) -> (ids: Vec<CardId>)
    ensures
        ids@ == ordering_of(ordering_view(o@), key@),
{
    let ghost v = ordering_view(o@);
    proof {
        lemma_entry_index_bound(v, key@, 0);
    }
    let mut e: usize = 0;
    while e < o.len()
        invariant
            e <= o@.len(),
            v == ordering_view(o@),
            entry_index(v, key@, 0) == entry_index(v, key@, e as int),
        decreases o@.len() - e,
    {
        if str_eq(o[e].column_id.as_str(), key.as_str()) {
            let ids = o[e].cards.clone();
            assert(ids@ =~= o@[e as int].cards@);
            return ids;
        }
        e = e + 1;
    }
    Vec::new()
}

fn card_task(card: &LocalCard, order: usize) -> (t: Task)
    ensures
        t == task_of(*card, order),
{
    Task::from_local_card(card, order)
}

/// The configured columns, each with the cards its stored order names (unarchived, in that
/// order), and the cards so placed.
fn ordered_board(config: &Vec<ColumnConfig>, file: &CardsFile) -> (r: (Vec<Column>, Vec<CardId>))
    ensures
        tasks_view(r.0@) == ordered_columns(config@, file.cards@, ordering_view(file.ordering@), config@.len() as int).0,
        r.1@ == ordered_columns(config@, file.cards@, ordering_view(file.ordering@), config@.len() as int).1,
        r.0@.len() == config@.len(),
        forall|i: int|
            0 <= i < config@.len() ==> (#[trigger] r.0@[i]).id == config@[i].id && r.0@[i].name
                == config@[i].name && r.0@[i].width == COLUMN_WIDTH,
{
    let cards = &file.cards;
    let ghost o = ordering_view(file.ordering@);
    let mut columns: Vec<Column> = Vec::new();
    let mut placed: Vec<CardId> = Vec::new();
    let mut c: usize = 0;
    while c < config.len()
        invariant
            c <= config@.len(),
            o == ordering_view(file.ordering@),
            tasks_view(columns@) == ordered_columns(config@, cards@, o, c as int).0,
            placed@ == ordered_columns(config@, cards@, o, c as int).1,
            columns@.len() == c,
            forall|i: int|
                0 <= i < c ==> (#[trigger] columns@[i]).id == config@[i].id && columns@[i].name
                    == config@[i].name && columns@[i].width == COLUMN_WIDTH,
        decreases config@.len() - c,
    {
        let ids = stored_order(&file.ordering, &config[c].id);
        let mut column = Column::new(config[c].id.clone(), config[c].name.clone(), COLUMN_WIDTH);
        let ghost start = placed@;
        let mut k: usize = 0;
        while k < ids.len()
            invariant
                k <= ids@.len(),
                column.tasks@ == ordered_tasks(cards@, ids@, k as int).0,
                placed@ == start + ordered_tasks(cards@, ids@, k as int).1,
                column.id == config@[c as int].id,
                column.name == config@[c as int].name,
                column.width == COLUMN_WIDTH,
            decreases ids@.len() - k,
        {
            match find_last_card(cards, ids[k]) {
                Some(i) => {
                    proof {
                        lemma_last_card_bound(cards@, ids@[k as int], cards@.len() as int);
                    }
                    if !cards[i].archived {
                        let order = column.tasks.len();
                        column.tasks.push(card_task(&cards[i], order));
                        placed.push(cards[i].id);
                    }
                },
                None => {},
            }
            k = k + 1;
        }
        let ghost before = columns@;
        columns.push(column);
        assert(tasks_view(columns@) =~= tasks_view(before).push(column.tasks@));
        c = c + 1;
    }
    proof {
        lemma_ordered_columns_len(config@, cards@, o, config@.len() as int);
    }
    (columns, placed)
}

impl Board {
    /// The board of a cards file: the configured columns, each with its cards in stored
    /// order, then every unarchived card the order left out at the end of its own column (the
    /// first column when its column is gone); the archived cards form the archive. Nothing is
    /// selected and the focus is on the first card of the first column.
    pub fn from_cards(config: &Vec<ColumnConfig>, file: &CardsFile) -> (b: Board)
        requires
            config@.len() > 0,
        ensures
            tasks_view(b.columns@) == board_tasks(config@, *file),
            b.columns@.len() == config@.len(),
            forall|i: int|
                0 <= i < config@.len() ==> (#[trigger] b.columns@[i]).id == config@[i].id
                    && b.columns@[i].name == config@[i].name && b.columns@[i].width == COLUMN_WIDTH,
            archived_view(b.archived@) == board_archive(file.cards@, file.cards@.len() as int),
            b.selected@.len() == 0,
            b.focused_column == 0,
            b.focused_task == 0,
    {
        let cards = &file.cards;
        let (mut columns, placed) = ordered_board(config, file);
        let ghost base = tasks_view(columns@);
        let ghost placed_ids = placed@;
        let mut i: usize = 0;
        while i < cards.len()
            invariant
                i <= cards@.len(),
                base.len() == config@.len(),
                config@.len() > 0,
                columns@.len() == config@.len(),
                placed@ == placed_ids,
                tasks_view(columns@) == unplaced_added(base, config@, cards@, placed_ids, i as int),
                forall|j: int|
                    0 <= j < config@.len() ==> (#[trigger] columns@[j]).id == config@[j].id
                        && columns@[j].name == config@[j].name && columns@[j].width == COLUMN_WIDTH,
            decreases cards@.len() - i,
        {
            let card = &cards[i];
            if !card.archived && !contains_card(&placed, card.id) {
                let mut target: usize = 0;
                let mut found = false;
                let mut k: usize = 0;
                proof {
                    lemma_config_index_bound(config@, card.column_id@, 0);
                }
                while k < config.len()
                    invariant
                        k <= config@.len(),
                        !found ==> config_index(config@, card.column_id@, 0) == config_index(
                            config@,
                            card.column_id@,
                            k as int,
                        ),
                        !found ==> target == 0,
                        found ==> target == config_index(config@, card.column_id@, 0) && target
                            < config@.len(),
                    decreases config@.len() - k,
                {
                    if !found && str_eq(config[k].id.as_str(), card.column_id.as_str()) {
                        target = k;
                        found = true;
                    }
                    k = k + 1;
                }
                assert(target == home_column(config@, *card));
                let order = columns[target].tasks.len();
                let ghost hs = heads(columns@);
                let ghost oc = columns@;
                put_task(&mut columns, target, card_task(card, order));
                assert forall|j: int| 0 <= j < config@.len() implies (#[trigger] columns@[j]).id
                    == config@[j].id && columns@[j].name == config@[j].name && columns@[j].width
                    == COLUMN_WIDTH by {
                    assert(heads(columns@)[j] == hs[j]);
                    assert(oc[j].id == config@[j].id && oc[j].name == config@[j].name
                        && oc[j].width == COLUMN_WIDTH);
                    assert(hs[j] == (oc[j].id, oc[j].name, oc[j].width));
                    assert(heads(columns@)[j] == (columns@[j].id, columns@[j].name, columns@[j].width));
                }
            }
            proof {
                lemma_unplaced_len(base, config@, cards@, placed_ids, i as int);
            }
            i = i + 1;
        }
        let mut archived: Vec<ArchivedTask> = Vec::new();
        let mut i: usize = 0;
        while i < cards.len()
            invariant
                i <= cards@.len(),
                archived_view(archived@) == board_archive(cards@, i as int),
            decreases cards@.len() - i,
        {
            if cards[i].archived {
                let ghost before = archived@;
                let task = card_task(&cards[i], 0);
                archived.push(ArchivedTask { column_id: cards[i].column_id.clone(), task });
                assert(archived_view(archived@) =~= archived_view(before).push(
                    (cards@[i as int].column_id, task),
                ));
            }
            i = i + 1;
        }
        Board { columns, archived, focused_column: 0, focused_task: 0, selected: Vec::new() }
    }
}

/// The warning about a card whose column is gone, shown in the first column.
pub open spec fn missing_column_text(card: LocalCard, shown_in: Seq<char>) -> Seq<char> {
    "card '"@ + card.title@ + "' references missing column '"@ + card.column_id@
        + "'; displayed in '"@ + shown_in + "'"@
}

/// The warnings about the first `n` cards: one for each unarchived card that no stored order
/// placed and whose column is not configured.
pub open spec fn missing_column_texts(
    config: Seq<ColumnConfig>,
    cards: Seq<LocalCard>,
    placed: Seq<CardId>,
    n: int,
) -> Seq<Seq<char>>
    decreases n,
{
    if n <= 0 {
        Seq::empty()
    } else {
        let card = cards[n - 1];
        let prev = missing_column_texts(config, cards, placed, n - 1);
        if !card.archived && !placed.contains(card.id) && config_index(config, card.column_id@, 0)
            == config.len() {
            prev.push(missing_column_text(card, config[0].name@))
        } else {
            prev
        }
    }
}

/// The warnings that loading a cards file onto the configured columns gives: one for each
/// card shown in the first column because its own column is gone.
pub fn missing_column_warnings(config: &Vec<ColumnConfig>, file: &CardsFile) -> (w: Vec<String>)
    requires
        config@.len() > 0,
    ensures
        w@.map_values(|s: String| s@) == missing_column_texts(
            config@,
            file.cards@,
            ordered_columns(
                config@,
                file.cards@,
                ordering_view(file.ordering@),
                config@.len() as int,
            ).1,
            file.cards@.len() as int,
        ),
{
    let (_, placed) = ordered_board(config, file);
    let cards = &file.cards;
    let mut warnings: Vec<String> = Vec::new();
    let mut i: usize = 0;
    while i < cards.len()
        invariant
            i <= cards@.len(),
            config@.len() > 0,
            warnings@.map_values(|s: String| s@) == missing_column_texts(
                config@,
                cards@,
                placed@,
                i as int,
            ),
        decreases cards@.len() - i,
    {
        let card = &cards[i];
        if !card.archived && !contains_card(&placed, card.id) {
            let mut k: usize = 0;
            let mut found = false;
            proof {
                lemma_config_index_bound(config@, card.column_id@, 0);
            }
            while k < config.len()
                invariant
                    k <= config@.len(),
                    !found ==> config_index(config@, card.column_id@, 0) == config_index(
                        config@,
                        card.column_id@,
                        k as int,
                    ),
                    found ==> config_index(config@, card.column_id@, 0) < config@.len(),
                decreases config@.len() - k,
            {
                if !found && str_eq(config[k].id.as_str(), card.column_id.as_str()) {
                    found = true;
                }
                k = k + 1;
            }
            if !found {
                let mut text = owned("card '");
                push_str(&mut text, card.title.as_str());
                push_str(&mut text, "' references missing column '");
                push_str(&mut text, card.column_id.as_str());
                push_str(&mut text, "'; displayed in '");
                push_str(&mut text, config[0].name.as_str());
                push_str(&mut text, "'");
                proof {
                    reveal_strlit("card '");
                    reveal_strlit("' references missing column '");
                    reveal_strlit("'; displayed in '");
                    reveal_strlit("'");
                }
                let ghost before = warnings@;
                warnings.push(text);
                assert(warnings@.map_values(|s: String| s@) =~= before.map_values(|s: String| s@).push(
                    text@,
                ));
                assert(text@ == missing_column_text(cards@[i as int], config@[0].name@));
            }
        }
        i = i + 1;
    }
    warnings
}


/// The cards of column `c` shown from its scroll offset (held within the column), at most
/// `capacity` of them; none for a column past the board or without cards.
pub open spec fn column_window(ts: Seq<Seq<Task>>, c: int, offsets: Seq<usize>, capacity: int) -> Seq<CardId> {
    if c < 0 || c >= ts.len() || ts[c].len() == 0 {
        Seq::empty()
    } else {
        let stored = if c < offsets.len() {
            offsets[c] as int
        } else {
            0
        };
        let start = if stored < ts[c].len() - 1 {
            stored
        } else {
            ts[c].len() - 1
        };
        let end = if start + capacity < ts[c].len() {
            start + capacity
        } else {
            ts[c].len() as int
        };
        ts[c].subrange(start, end).map_values(|t: Task| t.id)
    }
}

/// The cards in view in the first `n` column slots from `first`, slot after slot.
pub open spec fn cards_in_view(
    ts: Seq<Seq<Task>>,
    first: int,
    offsets: Seq<usize>,
    capacity: int,
    n: int,
) -> Seq<CardId>
    decreases n,
{
    if n <= 0 {
        Seq::empty()
    } else {
        cards_in_view(ts, first, offsets, capacity, n - 1) + column_window(
            ts,
            first + n - 1,
            offsets,
            capacity,
        )
    }
}

impl Board {
    /// The cards in view: in each of `slots` columns from `first_column`, the cards from the
    /// column's scroll offset, `capacity` at most.
    pub fn visible_cards(&self, first_column: usize, offsets: &Vec<usize>, slots: usize, capacity: usize) -> (r: Vec<CardId>)
        ensures
            r@ == cards_in_view(
                tasks_view(self.columns@),
                first_column as int,
                offsets@,
                capacity as int,
                slots as int,
            ),
    {
        let ghost ts = tasks_view(self.columns@);
        let mut ids: Vec<CardId> = Vec::new();
        let mut slot: usize = 0;
        while slot < slots
            invariant
                slot <= slots,
                ts == tasks_view(self.columns@),
                ids@ == cards_in_view(ts, first_column as int, offsets@, capacity as int, slot as int),
            decreases slots - slot,
        {
            let ghost before = ids@;
            if first_column < self.columns.len() && slot < self.columns.len() - first_column {
                let c = first_column + slot;
                let tasks = &self.columns[c].tasks;
                assert(tasks@ == ts[c as int]);
                let n = tasks.len();
                if n > 0 {
                    let stored = if c < offsets.len() {
                        offsets[c]
                    } else {
                        0
                    };
                    let start = if stored < n - 1 {
                        stored
                    } else {
                        n - 1
                    };
                    let end = if capacity < n - start {
                        start + capacity
                    } else {
                        n
                    };
                    let mut k = start;
                    while k < end
                        invariant
                            start <= k <= end <= n,
                            n == tasks@.len(),
                            ids@ == before + tasks@.subrange(start as int, k as int).map_values(
                                |t: Task| t.id,
                            ),
                        decreases end - k,
                    {
                        ids.push(tasks[k].id);
                        k = k + 1;
                        assert(tasks@.subrange(start as int, k as int).map_values(|t: Task| t.id)
                            =~= tasks@.subrange(start as int, k - 1).map_values(|t: Task| t.id).push(
                            tasks@[k - 1].id,
                        ));
                    }
                    assert(ids@ =~= before + column_window(ts, first_column + slot, offsets@, capacity as int));
                } else {
                    assert(ids@ =~= before + column_window(ts, first_column + slot, offsets@, capacity as int));
                }
            } else {
                assert(ids@ =~= before + column_window(ts, first_column + slot, offsets@, capacity as int));
            }
            slot = slot + 1;
        }
        ids
    }
}


/// Whether a plan moves its card exactly one column left (or right) of where it is, to a
/// column of the board.
pub open spec fn shifts_one_column(ts: Seq<Seq<Task>>, plan: (CardId, usize), left: bool) -> bool {
    &&& locate(ts, plan.0) is Some
    &&& if left {
        &&& locate(ts, plan.0)->Some_0.0 > 0
        &&& plan.1 as int == locate(ts, plan.0)->Some_0.0 - 1
    } else {
        &&& locate(ts, plan.0)->Some_0.0 + 1 < ts.len()
        &&& plan.1 as int == locate(ts, plan.0)->Some_0.0 + 1
    }
}

/// A relative move moves only target cards, shifts each card it moves by exactly one column,
/// never past the edge of the board, and moves every target card that has a column on that
/// side.
pub proof fn lemma_relative_plans_shift_by_one(
    ts: Seq<Seq<Task>>,
    ids: Seq<CardId>,
    left: bool,
    n: int,
)
    requires
        0 <= n <= ids.len(),
        ts.len() <= usize::MAX,
    ensures
        forall|j: int|
            0 <= j < relative_plans(ts, ids, left, n).len() ==> shifts_one_column(
                ts,
                #[trigger] relative_plans(ts, ids, left, n)[j],
                left,
            ),
        forall|j: int|
            0 <= j < relative_plans(ts, ids, left, n).len() ==> exists|k: int|
                0 <= k < n && ids[k] == (#[trigger] relative_plans(ts, ids, left, n)[j]).0,
        forall|k: int|
            0 <= k < n && #[trigger] locate(ts, ids[k]) is Some && (if left {
                locate(ts, ids[k])->Some_0.0 > 0
            } else {
                locate(ts, ids[k])->Some_0.0 + 1 < ts.len()
            }) ==> exists|j: int|
                0 <= j < relative_plans(ts, ids, left, n).len() && #[trigger] relative_plans(
                    ts,
                    ids,
                    left,
                    n,
                )[j].0 == ids[k],
    decreases n,
{
    if n > 0 {
        lemma_relative_plans_shift_by_one(ts, ids, left, n - 1);
        let prev = relative_plans(ts, ids, left, n - 1);
        let cur = relative_plans(ts, ids, left, n);
        lemma_locate_from(ts, ids[n - 1], 0);
        assert forall|j: int| 0 <= j < cur.len() implies shifts_one_column(
            ts,
            #[trigger] cur[j],
            left,
        ) by {
            if j < prev.len() {
                assert(cur[j] == prev[j]);
            }
        }
        assert forall|j: int| 0 <= j < cur.len() implies exists|k: int|
            0 <= k < n && ids[k] == (#[trigger] cur[j]).0 by {
            if j < prev.len() {
                assert(cur[j] == prev[j]);
                let k = choose|k: int| 0 <= k < n - 1 && ids[k] == (#[trigger] prev[j]).0;
            } else {
                assert(cur[j].0 == ids[n - 1]);
            }
        }
        assert forall|k: int|
            0 <= k < n && #[trigger] locate(ts, ids[k]) is Some && (if left {
                locate(ts, ids[k])->Some_0.0 > 0
            } else {
                locate(ts, ids[k])->Some_0.0 + 1 < ts.len()
            }) implies exists|j: int| 0 <= j < cur.len() && #[trigger] cur[j].0 == ids[k] by {
            if k < n - 1 {
                let j = choose|j: int| 0 <= j < prev.len() && #[trigger] prev[j].0 == ids[k];
                assert(cur[j] == prev[j]);
            } else {
                assert(cur[prev.len() as int].0 == ids[k]);
            }
        }
    }
}

} // verus!
