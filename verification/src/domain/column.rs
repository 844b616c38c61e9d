//! A column of the board with its cards.

use vstd::prelude::*;

use super::ids::ColumnId;
use super::task::Task;

verus! {

/// A column of the board: its identity, name, width and cards in order.
#[derive(Debug)]
pub struct Column {
    pub id: ColumnId,
    pub name: String,
    pub width: usize,
    pub tasks: Vec<Task>,
}

impl Column {
    /// An empty column.
    pub fn new(id: ColumnId, name: String, width: usize) -> (c: Column)
        ensures
            c.id == id,
            c.name == name,
            c.width == width,
            c.tasks@.len() == 0,
    {
        Column { id, name, width, tasks: Vec::new() }
    }
}

} // verus!
