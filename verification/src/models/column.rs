//! Columns of the first board model, and the column deletion prompt.

use vstd::prelude::*;

use super::task::Task;

verus! {

/// A named column of tasks.
#[derive(Debug)]
pub struct Column {
    pub name: String,
    pub width: usize,
    pub tasks: Vec<Task>,
}

impl Column {
    /// An empty column.
    pub fn new(name: String, width: usize) -> (c: Column)
        ensures
            c.name == name,
            c.width == width,
            c.tasks@.len() == 0,
    {
        Column { name, width, tasks: Vec::new() }
    }
}

/// The prompt that asks whether to delete a column; "no" is chosen at first.
#[derive(Debug, Clone, Copy, PartialEq, Eq, Structural)]
pub struct DeleteColumnPopup {
    pub delete: bool,
}

impl DeleteColumnPopup {
    pub fn new() -> (p: Self)
        ensures
            !p.delete,
    {
        DeleteColumnPopup { delete: false }
    }

    /// Switches the chosen answer between "yes" and "no".
    pub fn toggle(&mut self)
        ensures
            final(self).delete == !old(self).delete,
    {
        self.delete = !self.delete;
    }
}

} // verus!
