//! The board's small decisions between keys and state: where the focus starts, what the
//! stored selection is, where a column or the picker moves, how form fields and priorities
//! cycle, what Escape closes, and what the help, goto, details and confirmation keys do.

use vstd::prelude::*;

use crate::domain::column::Column;
use crate::domain::ids::{CardId, ColumnId};
use crate::domain::task::TaskPriority;
use crate::text::str_eq;

use super::board::{first_task, focused_card, tasks_view, Board};
use super::keymap::Action;
use super::state::{InputType, MovePickerState};

verus! {

/// The first column at or after `k` with the identity.
pub open spec fn column_index_from(cols: Seq<Column>, id: Seq<char>, k: int) -> Option<int>
    decreases cols.len() - k,
{
    if k < 0 || k >= cols.len() {
        None
    } else if cols[k].id@ == id {
        Some(k)
    } else {
        column_index_from(cols, id, k + 1)
    }
}

proof fn lemma_column_index_bound(cols: Seq<Column>, id: Seq<char>, k: int)
    requires
        0 <= k,
    ensures
        column_index_from(cols, id, k) matches Some(i) ==> k <= i < cols.len() && cols[i].id@ == id,
    decreases cols.len() - k,
{
    if k < cols.len() {
        lemma_column_index_bound(cols, id, k + 1);
    }
}

/// The column a stored selection names, or the first column.
pub open spec fn restored_column(cols: Seq<Column>, column: Option<ColumnId>) -> int {
    match column {
        Some(c) => match column_index_from(cols, c@, 0) {
            Some(i) => i,
            None => 0,
        },
        None => 0,
    }
}

/// The place of a stored card in a column, or its first place.
pub open spec fn restored_task(tasks: Seq<crate::domain::task::Task>, card: Option<CardId>) -> int {
    match card {
        Some(id) => if first_task(tasks, id, 0) < tasks.len() {
            first_task(tasks, id, 0)
        } else {
            0
        },
        None => 0,
    }
}

/// The column a column moves to, one step left or right, if the board goes on that way.
pub open spec fn column_step(focused: int, count: int, left: bool) -> Option<int> {
    if left {
        if focused >= 1 {
            Some(focused - 1)
        } else {
            None
        }
    } else if focused + 1 < count {
        Some(focused + 1)
    } else {
        None
    }
}

impl Board {
    /// The first column with the identity.
    pub fn column_index(&self, id: &str) -> (r: Option<usize>)
        ensures
            (match r {
                Some(i) => Some(i as int),
                None => None,
            }) == column_index_from(self.columns@, id@, 0),
    {
        let mut c: usize = 0;
        while c < self.columns.len()
            invariant
                c <= self.columns@.len(),
                column_index_from(self.columns@, id@, 0) == column_index_from(
                    self.columns@,
                    id@,
                    c as int,
                ),
            decreases self.columns@.len() - c,
        {
            if str_eq(self.columns[c].id.as_str(), id) {
                return Some(c);
            }
            c = c + 1;
        }
        None
    }

    /// The column whose identity is `done`, where finished cards go.
    pub fn done_column(&self) -> (r: Option<usize>)
        ensures
            (match r {
                Some(i) => Some(i as int),
                None => None,
            }) == column_index_from(self.columns@, "done"@, 0),
    {
        proof {
            reveal_strlit("done");
        }
        self.column_index("done")
    }

    /// Puts the focus on a stored selection: the named column (else the first) and the
    /// named card in it (else its first place).
    pub fn restore_focus(&mut self, column: Option<ColumnId>, card: Option<CardId>)
        requires
            old(self).columns@.len() > 0,
        ensures
            final(self).columns == old(self).columns,
            final(self).archived == old(self).archived,
            final(self).selected == old(self).selected,
            final(self).focused_column == restored_column(old(self).columns@, column),
            final(self).focused_task == restored_task(
                old(self).columns@[final(self).focused_column as int].tasks@,
                card,
            ),
    {
        let c: usize = match &column {
            Some(id) => match self.column_index(id.as_str()) {
                Some(i) => i,
                None => 0,
            },
            None => 0,
        };
        proof {
            match column {
                Some(id) => lemma_column_index_bound(self.columns@, id@, 0),
                None => {},
            }
        }
        let tasks = &self.columns[c].tasks;
        let mut t: usize = 0;
        match card {
            Some(id) => {
                let mut k: usize = 0;
                let mut found = false;
                while k < tasks.len()
                    invariant
                        k <= tasks@.len(),
                        !found ==> first_task(tasks@, id, 0) == first_task(tasks@, id, k as int),
                        !found ==> t == 0,
                        found ==> t == first_task(tasks@, id, 0) && t < tasks@.len(),
                    decreases tasks@.len() - k,
                {
                    if !found && tasks[k].id == id {
                        t = k;
                        found = true;
                    }
                    k = k + 1;
                }
            },
            None => {},
        }
        self.focused_column = c;
        self.focused_task = t;
    }

    /// The selection to store: the focused column and the focused card.
    pub fn stored_selection(&self) -> (r: (Option<ColumnId>, Option<CardId>))
        ensures
            r.0 == (if self.focused_column < self.columns@.len() {
                Some(self.columns@[self.focused_column as int].id)
            } else {
                None
            }),
            r.1 == focused_card(
                tasks_view(self.columns@),
                self.focused_column as int,
                self.focused_task as int,
            ),
    {
        let column = if self.focused_column < self.columns.len() {
            Some(self.columns[self.focused_column].id.clone())
        } else {
            None
        };
        (column, self.focused_card_id())
    }

    /// Where the focused column moves, one step left or right; `None` at the edge.
    pub fn column_move_target(&self, left: bool) -> (r: Option<usize>)
        ensures
            (match r {
                Some(i) => Some(i as int),
                None => None,
            }) == column_step(self.focused_column as int, self.columns@.len() as int, left),
    {
        if left {
            if self.focused_column >= 1 {
                Some(self.focused_column - 1)
            } else {
                None
            }
        } else if self.focused_column < self.columns.len() && self.focused_column + 1
            < self.columns.len() {
            Some(self.focused_column + 1)
        } else {
            None
        }
    }
}

/// The priority after `p`, going low, medium, high and round again (or back).
pub open spec fn rotated(p: TaskPriority, forward: bool) -> TaskPriority {
    match (p, forward) {
        (TaskPriority::LOW, true) => TaskPriority::MEDIUM,
        (TaskPriority::MEDIUM, true) => TaskPriority::HIGH,
        (TaskPriority::HIGH, true) => TaskPriority::LOW,
        (TaskPriority::LOW, false) => TaskPriority::HIGH,
        (TaskPriority::MEDIUM, false) => TaskPriority::LOW,
        (TaskPriority::HIGH, false) => TaskPriority::MEDIUM,
    }
}

/// The next or previous priority of the form.
pub fn rotate_priority(p: TaskPriority, forward: bool) -> (r: TaskPriority)
    ensures
        r == rotated(p, forward),
{
    match (p, forward) {
        (TaskPriority::LOW, true) => TaskPriority::MEDIUM,
        (TaskPriority::MEDIUM, true) => TaskPriority::HIGH,
        (TaskPriority::HIGH, true) => TaskPriority::LOW,
        (TaskPriority::LOW, false) => TaskPriority::HIGH,
        (TaskPriority::MEDIUM, false) => TaskPriority::LOW,
        (TaskPriority::HIGH, false) => TaskPriority::MEDIUM,
    }
}

/// Rotating forward then back leaves a priority as it was.
pub proof fn lemma_rotation_undone(p: TaskPriority, forward: bool)
    ensures
        rotated(rotated(p, forward), !forward) == p,
        rotated(rotated(rotated(p, forward), forward), forward) == p,
{
}

/// The card form's field after `field`: title, description, priority, then the target
/// column where the form has one, and round again (or back); other fields stay.
pub open spec fn next_field_of(field: InputType, forward: bool, has_column: bool) -> InputType {
    match (field, forward) {
        (InputType::CreatingTaskTitle, true) => InputType::CreatingTaskDescription,
        (InputType::CreatingTaskDescription, true) => InputType::CreatingTaskPriority,
        (InputType::CreatingTaskPriority, true) => if has_column {
            InputType::CreatingTaskColumn
        } else {
            InputType::CreatingTaskTitle
        },
        (InputType::CreatingTaskColumn, true) => InputType::CreatingTaskTitle,
        (InputType::CreatingTaskTitle, false) => if has_column {
            InputType::CreatingTaskColumn
        } else {
            InputType::CreatingTaskPriority
        },
        (InputType::CreatingTaskDescription, false) => InputType::CreatingTaskTitle,
        (InputType::CreatingTaskPriority, false) => InputType::CreatingTaskDescription,
        (InputType::CreatingTaskColumn, false) => InputType::CreatingTaskPriority,
        (other, _) => other,
    }
}

impl InputType {
    /// The next or previous field of the card form; `has_column` tells whether the form
    /// offers a target column.
    pub fn next_field(self, forward: bool, has_column: bool) -> (r: InputType)
        ensures
            r == next_field_of(self, forward, has_column),
    {
        match (self, forward) {
            (InputType::CreatingTaskTitle, true) => InputType::CreatingTaskDescription,
            (InputType::CreatingTaskDescription, true) => InputType::CreatingTaskPriority,
            (InputType::CreatingTaskPriority, true) => if has_column {
                InputType::CreatingTaskColumn
            } else {
                InputType::CreatingTaskTitle
            },
            (InputType::CreatingTaskColumn, true) => InputType::CreatingTaskTitle,
            (InputType::CreatingTaskTitle, false) => if has_column {
                InputType::CreatingTaskColumn
            } else {
                InputType::CreatingTaskPriority
            },
            (InputType::CreatingTaskDescription, false) => InputType::CreatingTaskTitle,
            (InputType::CreatingTaskPriority, false) => InputType::CreatingTaskDescription,
            (InputType::CreatingTaskColumn, false) => InputType::CreatingTaskPriority,
            (other, _) => other,
        }
    }
}

/// The index one step up or down among `count`, staying among them.
pub open spec fn stepped(current: int, count: int, up: bool) -> int {
    if up {
        if current >= 1 {
            current - 1
        } else {
            0
        }
    } else if current + 1 < count {
        current + 1
    } else if count >= 1 {
        count - 1
    } else {
        0
    }
}

/// The card form's target column one step left or right among `count` columns.
pub fn rotate_target_column(column: usize, count: usize, left: bool) -> (r: usize)
    ensures
        r == stepped(column as int, count as int, left),
{
    if left {
        if column >= 1 {
            column - 1
        } else {
            0
        }
    } else if column < count && column + 1 < count {
        column + 1
    } else if count >= 1 {
        count - 1
    } else {
        0
    }
}

impl MovePickerState {
    /// Moves the chosen column one step up or down among `count` columns, staying on them.
    pub fn step(&mut self, count: usize, up: bool)
        ensures
            final(self).selected_column == stepped(old(self).selected_column as int, count as int, up),
    {
        if up {
            if self.selected_column >= 1 {
                self.selected_column = self.selected_column - 1;
            }
        } else if self.selected_column < count && self.selected_column + 1 < count {
            self.selected_column = self.selected_column + 1;
        } else if count >= 1 {
            self.selected_column = count - 1;
        } else {
            self.selected_column = 0;
        }
    }
}

/// What Escape closes, in order: help, a pending goto, the move picker, the details, the
/// selection.
#[derive(Debug, Clone, Copy, PartialEq, Eq, Structural)]
pub enum Closing {
    Help,
    Goto,
    Picker,
    Details,
    Selection,
}

/// What Escape closes given what is open; `None` when nothing is.
pub fn closing(
    help_open: bool,
    goto_pending: bool,
    picking: bool,
    detail_open: bool,
    has_selection: bool,
) -> (r: Option<Closing>)
    ensures
        r == (if help_open {
            Some(Closing::Help)
        } else if goto_pending {
            Some(Closing::Goto)
        } else if picking {
            Some(Closing::Picker)
        } else if detail_open {
            Some(Closing::Details)
        } else if has_selection {
            Some(Closing::Selection)
        } else {
            None
        }),
{
    if help_open {
        Some(Closing::Help)
    } else if goto_pending {
        Some(Closing::Goto)
    } else if picking {
        Some(Closing::Picker)
    } else if detail_open {
        Some(Closing::Details)
    } else if has_selection {
        Some(Closing::Selection)
    } else {
        None
    }
}

/// What the help, a pending goto, the details and a pending confirmation show.
#[derive(Debug, Clone, Copy, PartialEq, Eq, Structural)]
pub struct ViewFlags {
    pub help_open: bool,
    pub help_scroll: usize,
    pub goto_pending: bool,
    /// How far the details are scrolled, when they are open.
    pub detail_scroll: Option<u16>,
    /// Whether "confirm" is the chosen answer, when a confirmation is pending.
    pub confirm_selected: Option<bool>,
}

/// How many lines the details scroll with one key press.
pub const DETAIL_SCROLL_STEP: u16 = 4;

/// `x` moved down by `step`, stopping at `max`.
pub open spec fn scrolled_down(x: int, step: int, max: int) -> int {
    if x + step > max {
        max
    } else {
        x + step
    }
}

/// `x` moved up by `step`, stopping at zero.
pub open spec fn scrolled_up(x: int, step: int) -> int {
    if x < step {
        0
    } else {
        x - step
    }
}

/// The flags after a scroll key: the open details scroll by `DETAIL_SCROLL_STEP` unless the
/// help covers them; otherwise the help scrolls by one line.
pub open spec fn scroll_step(f: ViewFlags, down: bool) -> ViewFlags {
    match f.detail_scroll {
        Some(d) if !f.help_open => ViewFlags {
            detail_scroll: Some(
                (if down {
                    scrolled_down(d as int, DETAIL_SCROLL_STEP as int, u16::MAX as int)
                } else {
                    scrolled_up(d as int, DETAIL_SCROLL_STEP as int)
                }) as u16,
            ),
            ..f
        },
        _ => ViewFlags {
            help_scroll: (if down {
                scrolled_down(f.help_scroll as int, 1, usize::MAX as int)
            } else {
                scrolled_up(f.help_scroll as int, 1)
            }) as usize,
            ..f
        },
    }
}

/// What an action does to the flags: the help opens at its top; the goto key waits for a
/// target and each target ends the wait; accepting chooses "confirm", toggling flips the
/// choice and rejecting drops the confirmation; the scroll keys scroll. Other actions leave
/// the flags as they are.
pub open spec fn view_step_spec(f: ViewFlags, action: Action) -> ViewFlags {
    match action {
        Action::ShowHelp => ViewFlags { help_open: true, help_scroll: 0, ..f },
        Action::EnterGoto => ViewFlags { goto_pending: true, ..f },
        Action::GotoFirstCard | Action::GotoLastCard | Action::GotoFirstColumn
        | Action::GotoLastColumn | Action::GotoVisibleCard => ViewFlags { goto_pending: false, ..f },
        Action::Accept => ViewFlags {
            confirm_selected: match f.confirm_selected {
                Some(_) => Some(true),
                None => None,
            },
            ..f
        },
        Action::Reject => ViewFlags { confirm_selected: None, ..f },
        Action::ToggleChoice => ViewFlags {
            confirm_selected: match f.confirm_selected {
                Some(b) => Some(!b),
                None => None,
            },
            ..f
        },
        Action::ScrollUp => scroll_step(f, false),
        Action::ScrollDown => scroll_step(f, true),
        _ => f,
    }
}

/// Applies an action to the flags, as `view_step_spec` says.
pub fn view_step(f: ViewFlags, action: Action) -> (r: ViewFlags)
    ensures
        r == view_step_spec(f, action),
{
    match action {
        Action::ShowHelp => ViewFlags { help_open: true, help_scroll: 0, ..f },
        Action::EnterGoto => ViewFlags { goto_pending: true, ..f },
        Action::GotoFirstCard | Action::GotoLastCard | Action::GotoFirstColumn
        | Action::GotoLastColumn | Action::GotoVisibleCard => ViewFlags { goto_pending: false, ..f },
        Action::Accept => ViewFlags {
            confirm_selected: match f.confirm_selected {
                Some(_) => Some(true),
                None => None,
            },
            ..f
        },
        Action::Reject => ViewFlags { confirm_selected: None, ..f },
        Action::ToggleChoice => ViewFlags {
            confirm_selected: match f.confirm_selected {
                Some(b) => Some(!b),
                None => None,
            },
            ..f
        },
        Action::ScrollUp => scroll(f, false),
        Action::ScrollDown => scroll(f, true),
        _ => f,
    }
}

fn scroll(f: ViewFlags, down: bool) -> (r: ViewFlags)
    ensures
        r == scroll_step(f, down),
{
    match f.detail_scroll {
        Some(d) if !f.help_open => {
            let next = if down {
                if d > u16::MAX - DETAIL_SCROLL_STEP {
                    u16::MAX
                } else {
                    d + DETAIL_SCROLL_STEP
                }
            } else if d < DETAIL_SCROLL_STEP {
                0
            } else {
                d - DETAIL_SCROLL_STEP
            };
            ViewFlags { detail_scroll: Some(next), ..f }
        },
        _ => {
            let next = if down {
                if f.help_scroll == usize::MAX {
                    usize::MAX
                } else {
                    f.help_scroll + 1
                }
            } else if f.help_scroll == 0 {
                0
            } else {
                f.help_scroll - 1
            };
            ViewFlags { help_scroll: next, ..f }
        },
    }
}

} // verus!
