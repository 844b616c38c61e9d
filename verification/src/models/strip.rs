//! The first board model's columns laid side by side: their widths, the horizontal scroll
//! that keeps the focused column in view, and moving the focused task to a neighbour column.

use vstd::prelude::*;

use super::column::{Column, DeleteColumnPopup};
use super::task::{Task, TaskPriority};

verus! {

/// How far one scroll step moves.
pub const SCROLL_SIZE: usize = 5;

/// The gap between two columns.
pub const COLUMNS_GAP: usize = 4;

/// The sum of the widths of the first `n` columns.
pub open spec fn widths(columns: Seq<Column>, n: int) -> int
    decreases n,
{
    if n <= 0 {
        0
    } else {
        widths(columns, n - 1) + columns[n - 1].width
    }
}

/// The width of the first `n` columns with a gap after each.
pub open spec fn spaced(columns: Seq<Column>, n: int) -> int {
    widths(columns, n) + n * COLUMNS_GAP
}

/// `x`, or `usize::MAX` where it is larger.
pub open spec fn capped(x: int) -> int {
    if x > usize::MAX {
        usize::MAX as int
    } else {
        x
    }
}

proof fn lemma_widths_grow(columns: Seq<Column>, m: int, n: int)
    requires
        0 <= m <= n,
    ensures
        widths(columns, m) <= widths(columns, n),
    decreases n - m,
{
    if m < n {
        lemma_widths_grow(columns, m, n - 1);
    }
}

/// The total width of the columns.
pub fn total_width(columns: &Vec<Column>) -> (w: usize)
    requires
        widths(columns@, columns@.len() as int) <= usize::MAX,
    ensures
        w == widths(columns@, columns@.len() as int),
{
    let mut total: usize = 0;
    let mut i: usize = 0;
    while i < columns.len()
        invariant
            i <= columns@.len(),
            total == widths(columns@, i as int),
            widths(columns@, columns@.len() as int) <= usize::MAX,
        decreases columns@.len() - i,
    {
        proof {
            lemma_widths_grow(columns@, i as int + 1, columns@.len() as int);
        }
        total = total + columns[i].width;
        i = i + 1;
    }
    total
}

/// Where column `index` starts: the widths and gaps of the columns before it, at most
/// `usize::MAX`.
pub fn left_space(columns: &Vec<Column>, index: usize) -> (s: usize)
    requires
        index <= columns@.len(),
    ensures
        s == capped(spaced(columns@, index as int)),
{
    let mut space: usize = 0;
    let mut i: usize = 0;
    while i < index
        invariant
            i <= index <= columns@.len(),
            space == capped(spaced(columns@, i as int)),
        decreases index - i,
    {
        proof {
            lemma_widths_grow(columns@, i as int, i as int + 1);
        }
        space = space.saturating_add(columns[i].width);
        space = space.saturating_add(COLUMNS_GAP);
        i = i + 1;
    }
    space
}

/// The scroll one step right, never past the end of the columns.
pub fn scroll_right(scroll_x: usize, total_width: usize, area_width: u16) -> (r: usize)
    ensures
        r == (if total_width <= area_width {
            scroll_x as int
        } else if scroll_x < total_width - area_width {
            if scroll_x + SCROLL_SIZE < total_width - area_width {
                scroll_x + SCROLL_SIZE
            } else {
                total_width - area_width
            }
        } else {
            scroll_x as int
        }),
{
    let max_scroll = total_width.saturating_sub(area_width as usize);
    if scroll_x < max_scroll {
        let step = scroll_x.saturating_add(SCROLL_SIZE);
        if step < max_scroll {
            step
        } else {
            max_scroll
        }
    } else {
        scroll_x
    }
}

/// The scroll one step left, where the columns are wider than the area.
pub fn scroll_left(scroll_x: usize, total_width: usize, area_width: u16) -> (r: usize)
    ensures
        r == (if total_width > area_width {
            if scroll_x >= SCROLL_SIZE {
                scroll_x - SCROLL_SIZE
            } else {
                0
            }
        } else {
            scroll_x as int
        }),
{
    if total_width > area_width as usize {
        scroll_x.saturating_sub(SCROLL_SIZE)
    } else {
        scroll_x
    }
}

/// The scroll that brings a column starting at `left` with `width` into an area of
/// `area_width`, moving as little as possible.
pub fn scroll_to_column(scroll_x: usize, left: usize, width: usize, area_width: u16) -> (r: usize)
    requires
        left + width <= usize::MAX,
    ensures
        r == (if left + width > scroll_x + area_width {
            left + width - area_width
        } else if left < scroll_x {
            left as int
        } else {
            scroll_x as int
        }),
        left + width > scroll_x + area_width ==> left + width <= r + area_width,
{
    let right = left + width;
    if right as u128 > scroll_x as u128 + area_width as u128 {
        right - area_width as usize
    } else if left < scroll_x {
        left
    } else {
        scroll_x
    }
}

/// The columns with the task at `task` of column `source` moved to the end of column
/// `target`.
pub open spec fn task_sent(
    ts: Seq<Seq<Task>>,
    task: int,
    source: int,
    target: int,
) -> Seq<Seq<Task>> {
    let moved = ts[source][task];
    let removed = ts.update(source, ts[source].remove(task));
    removed.update(target, removed[target].push(moved))
}

/// The tasks of each column.
pub open spec fn column_tasks(columns: Seq<Column>) -> Seq<Seq<Task>> {
    columns.map_values(|c: Column| c.tasks@)
}

/// Moves a task to the end of another column.
pub fn send_task_to_column(columns: &mut Vec<Column>, task: usize, source: usize, target: usize)
    requires
        source < old(columns)@.len(),
        target < old(columns)@.len(),
        task < old(columns)@[source as int].tasks@.len(),
    ensures
        column_tasks(final(columns)@) == task_sent(
            column_tasks(old(columns)@),
            task as int,
            source as int,
            target as int,
        ),
        final(columns)@.len() == old(columns)@.len(),
        forall|i: int|
            0 <= i < old(columns)@.len() ==> (#[trigger] final(columns)@[i]).name == old(
                columns,
            )@[i].name && final(columns)@[i].width == old(columns)@[i].width,
{
    let ghost before = column_tasks(columns@);
    let mut source_column = columns.remove(source);
    let moved = source_column.tasks.remove(task);
    columns.insert(source, source_column);
    let ghost removed = column_tasks(columns@);
    assert(removed =~= before.update(source as int, before[source as int].remove(task as int)));
    let mut target_column = columns.remove(target);
    target_column.tasks.push(moved);
    columns.insert(target, target_column);
    assert(column_tasks(columns@) =~= removed.update(target as int, removed[target as int].push(moved)));
}

/// The columns side by side, the focus and the horizontal scroll.
#[derive(Debug)]
pub struct ColumnStrip {
    pub columns: Vec<Column>,
    pub focused_column: usize,
    pub focused_task: usize,
    pub scroll_x: usize,
    pub area_width: u16,
}

impl ColumnStrip {
    /// Whether the focus is on a task of a column.
    pub open spec fn on_task(&self) -> bool {
        &&& self.focused_column < self.columns@.len()
        &&& self.focused_task < self.columns@[self.focused_column as int].tasks@.len()
    }

    /// Sends the focused task to the next column (`forward`) or the previous one, and follows
    /// it there; nothing happens at the edge of the board.
    pub fn send_task(&mut self, forward: bool)
        requires
            old(self).on_task(),
        ensures
            ({
                let from = old(self).focused_column as int;
                let at_edge = if forward {
                    from + 1 == old(self).columns@.len()
                } else {
                    from == 0
                };
                let to = if forward {
                    from + 1
                } else {
                    from - 1
                };
                if at_edge {
                    final(self).columns == old(self).columns && final(self).focused_column
                        == old(self).focused_column && final(self).focused_task
                        == old(self).focused_task
                } else {
                    &&& column_tasks(final(self).columns@) == task_sent(
                        column_tasks(old(self).columns@),
                        old(self).focused_task as int,
                        from,
                        to,
                    )
                    &&& final(self).focused_column == to
                    &&& final(self).focused_task + 1 == final(self).columns@[to].tasks@.len()
                }
            }),
            final(self).scroll_x == old(self).scroll_x,
            final(self).area_width == old(self).area_width,
    {
        let from = self.focused_column;
        let n = self.columns.len();
        assert(from < n);
        let to = if forward {
            if from + 1 == n {
                return;
            }
            from + 1
        } else {
            if from == 0 {
                return;
            }
            from - 1
        };
        send_task_to_column(&mut self.columns, self.focused_task, from, to);
        self.focused_column = to;
        assert(column_tasks(self.columns@)[to as int] == self.columns@[to as int].tasks@);
        assert(self.columns@[to as int].tasks@.len() > 0);
        self.focused_task = self.columns[to].tasks.len() - 1;
    }

    /// Adds a task to the end of the focused column, numbered by its place there; nothing is
    /// added, and false is given, when the title or the description is empty.
    pub fn add_task(&mut self, title: String, description: String, priority: TaskPriority) -> (added: bool)
        requires
            old(self).focused_column < old(self).columns@.len(),
        ensures
            added == (title@.len() > 0 && description@.len() > 0),
            !added ==> final(self).columns == old(self).columns,
            added ==> column_tasks(final(self).columns@) == column_tasks(old(self).columns@).update(
                old(self).focused_column as int,
                old(self).columns@[old(self).focused_column as int].tasks@.push(
                    Task {
                        title,
                        description,
                        priority,
                        order: old(self).columns@[old(self).focused_column as int].tasks@.len() as usize,
                    },
                ),
            ),
            final(self).columns@.len() == old(self).columns@.len(),
            final(self).focused_column == old(self).focused_column,
            final(self).focused_task == old(self).focused_task,
    {
        if title.unicode_len() == 0 || description.unicode_len() == 0 {
            return false;
        }
        let c = self.focused_column;
        let ghost before = column_tasks(self.columns@);
        let mut column = self.columns.remove(c);
        let order = column.tasks.len();
        column.tasks.push(Task::new(title, description, priority, order));
        self.columns.insert(c, column);
        assert(column_tasks(self.columns@) =~= before.update(c as int, column.tasks@));
        true
    }

    /// Moves the focus one task up or down in its column, going round at the ends the way
    /// wrapping `usize` arithmetic does; nothing happens in an empty column.
    pub fn focus_task_wrapping(&mut self, up: bool)
        requires
            old(self).focused_column < old(self).columns@.len(),
        ensures
            final(self).columns == old(self).columns,
            final(self).focused_column == old(self).focused_column,
            final(self).focused_task == (if old(self).columns@[old(self).focused_column as int].tasks@.len()
                == 0 {
                old(self).focused_task as int
            } else {
                wrapped_step(old(self).focused_task as int, up) % (old(
                    self,
                ).columns@[old(self).focused_column as int].tasks@.len() as int)
            }),
            final(self).scroll_x == old(self).scroll_x,
    {
        let n = self.columns[self.focused_column].tasks.len();
        if n == 0 {
            return;
        }
        let next = if up {
            self.focused_task.wrapping_sub(1)
        } else {
            self.focused_task.wrapping_add(1)
        };
        proof {
            if up && old(self).focused_task == 0 {
                assert(next == usize::MAX);
            }
            if !up && old(self).focused_task == usize::MAX {
                assert(next == 0);
            }
        }
        self.focused_task = next % n;
    }

    /// Removes the focused task; the focus moves one task up, going round as
    /// `focus_task_wrapping` does, or to the top when the column is left empty. Nothing happens
    /// when the focus is on no task.
    pub fn remove_focused_task(&mut self)
        requires
            old(self).focused_column < old(self).columns@.len(),
        ensures
            ({
                let c = old(self).focused_column as int;
                let tasks = old(self).columns@[c].tasks@;
                if old(self).focused_task < tasks.len() {
                    &&& column_tasks(final(self).columns@) == column_tasks(old(self).columns@).update(
                        c,
                        tasks.remove(old(self).focused_task as int),
                    )
                    &&& final(self).focused_task == (if tasks.len() == 1 {
                        0
                    } else {
                        wrapped_step(old(self).focused_task as int, true) % (tasks.len() - 1)
                    })
                } else {
                    final(self).columns == old(self).columns && final(self).focused_task == old(
                        self,
                    ).focused_task
                }
            }),
            final(self).columns@.len() == old(self).columns@.len(),
            final(self).focused_column == old(self).focused_column,
            final(self).scroll_x == old(self).scroll_x,
    {
        let c = self.focused_column;
        if self.focused_task >= self.columns[c].tasks.len() {
            return;
        }
        let ghost before = column_tasks(self.columns@);
        let mut column = self.columns.remove(c);
        column.tasks.remove(self.focused_task);
        let remaining = column.tasks.len();
        self.columns.insert(c, column);
        assert(column_tasks(self.columns@) =~= before.update(
            c as int,
            before[c as int].remove(old(self).focused_task as int),
        ));
        if remaining == 0 {
            self.focused_task = 0;
        } else {
            let next = self.focused_task.wrapping_sub(1);
            proof {
                if old(self).focused_task == 0 {
                    assert(next == usize::MAX);
                }
            }
            self.focused_task = next % remaining;
        }
    }

    /// Focuses the next column (`forward`) or the previous one, going round at the ends, on its
    /// first task, and scrolls it into view.
    pub fn cycle_column(&mut self, forward: bool)
        requires
            old(self).columns@.len() > 0,
            !forward ==> old(self).focused_column <= old(self).columns@.len(),
            forall|i: int|
                0 <= i < old(self).columns@.len() ==> capped(spaced(old(self).columns@, i))
                    + (#[trigger] old(self).columns@[i]).width <= usize::MAX,
        ensures
            final(self).columns == old(self).columns,
            final(self).focused_column == (if forward {
                (if old(self).focused_column == usize::MAX {
                    usize::MAX as int
                } else {
                    old(self).focused_column + 1
                }) % (old(self).columns@.len() as int)
            } else if old(self).focused_column == 0 {
                old(self).columns@.len() - 1
            } else {
                old(self).focused_column - 1
            }),
            final(self).focused_task == 0,
            ({
                let f = final(self).focused_column as int;
                let left = capped(spaced(old(self).columns@, f));
                let right = left + old(self).columns@[f].width;
                final(self).scroll_x == (if right > old(self).scroll_x + old(self).area_width {
                    right - old(self).area_width
                } else if left < old(self).scroll_x {
                    left
                } else {
                    old(self).scroll_x as int
                })
            }),
    {
        let n = self.columns.len();
        if forward {
            self.focused_column = self.focused_column.saturating_add(1) % n;
        } else if self.focused_column == 0 {
            self.focused_column = n - 1;
        } else {
            self.focused_column = self.focused_column - 1;
        }
        self.focused_task = 0;
        self.scroll_to_focused_column();
    }

    /// Carries out the answer to the prompt that asked whether to delete column `target`:
    /// the column goes (see `delete_column`) when the answer is yes.
    pub fn answer_delete_prompt(&mut self, prompt: DeleteColumnPopup, target: usize)
        requires
            prompt.delete ==> target < old(self).columns@.len(),
        ensures
            prompt.delete ==> final(self).columns@ == old(self).columns@.remove(target as int),
            prompt.delete ==> final(self).focused_column == (if old(self).focused_column == target {
                if target >= 1 {
                    target - 1
                } else {
                    0
                }
            } else {
                old(self).focused_column as int
            }),
            !prompt.delete ==> final(self).columns == old(self).columns,
            !prompt.delete ==> final(self).focused_column == old(self).focused_column,
            final(self).focused_task == old(self).focused_task,
            final(self).scroll_x == old(self).scroll_x,
            final(self).area_width == old(self).area_width,
    {
        if prompt.delete {
            self.delete_column(target);
        }
    }

    /// Removes column `index`; the focus moves one column left when it was on it.
    pub fn delete_column(&mut self, index: usize)
        requires
            index < old(self).columns@.len(),
        ensures
            final(self).columns@ == old(self).columns@.remove(index as int),
            final(self).focused_column == (if old(self).focused_column == index {
                if index >= 1 {
                    index - 1
                } else {
                    0
                }
            } else {
                old(self).focused_column as int
            }),
            final(self).focused_task == old(self).focused_task,
            final(self).scroll_x == old(self).scroll_x,
            final(self).area_width == old(self).area_width,
    {
        self.columns.remove(index);
        if self.focused_column == index {
            self.focused_column = self.focused_column.saturating_sub(1);
        }
    }

    /// Scrolls so that the focused column is in view.
    pub fn scroll_to_focused_column(&mut self)
        requires
            old(self).focused_column < old(self).columns@.len(),
            capped(spaced(old(self).columns@, old(self).focused_column as int))
                + old(self).columns@[old(self).focused_column as int].width <= usize::MAX,
        ensures
            final(self).columns == old(self).columns,
            final(self).focused_column == old(self).focused_column,
            final(self).focused_task == old(self).focused_task,
            final(self).area_width == old(self).area_width,
            ({
                let left = capped(spaced(old(self).columns@, old(self).focused_column as int));
                let right = left + old(self).columns@[old(self).focused_column as int].width;
                final(self).scroll_x == (if right > old(self).scroll_x + old(self).area_width {
                    right - old(self).area_width
                } else if left < old(self).scroll_x {
                    left
                } else {
                    old(self).scroll_x as int
                })
            }),
    {
        let left = left_space(&self.columns, self.focused_column);
        let width = self.columns[self.focused_column].width;
        self.scroll_x = scroll_to_column(self.scroll_x, left, width, self.area_width);
    }
}

/// The step after `f`, up or down, in wrapping `usize` arithmetic.
pub open spec fn wrapped_step(f: int, up: bool) -> int {
    if up {
        if f == 0 {
            usize::MAX as int
        } else {
            f - 1
        }
    } else if f == usize::MAX {
        0
    } else {
        f + 1
    }
}

} // verus!
