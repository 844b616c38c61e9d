//! Tasks of the first board model, with lower-case priority names.

use vstd::prelude::*;

use crate::text::{owned, str_eq};

verus! {

/// How urgent a task is.
#[derive(Debug, Clone, Copy, PartialEq, Eq, Structural)]
pub enum TaskPriority {
    HIGH,
    MEDIUM,
    LOW,
}

/// The name of a priority: `high`, `medium` or `low`.
pub open spec fn priority_name(p: TaskPriority) -> Seq<char> {
    match p {
        TaskPriority::HIGH => "high"@,
        TaskPriority::MEDIUM => "medium"@,
        TaskPriority::LOW => "low"@,
    }
}

/// The priority with the name, if any.
pub open spec fn priority_of_name(name: Seq<char>) -> Option<TaskPriority> {
    if name == "high"@ {
        Some(TaskPriority::HIGH)
    } else if name == "medium"@ {
        Some(TaskPriority::MEDIUM)
    } else if name == "low"@ {
        Some(TaskPriority::LOW)
    } else {
        None
    }
}

impl TaskPriority {
    /// The name of the priority.
    pub fn value(&self) -> (s: String)
        ensures
            s@ == priority_name(*self),
    {
        match self {
            TaskPriority::HIGH => owned("high"),
            TaskPriority::MEDIUM => owned("medium"),
            TaskPriority::LOW => owned("low"),
        }
    }

    /// The priority named `value`, if any.
    pub fn from_value(value: &str) -> (p: Option<TaskPriority>)
        ensures
            p == priority_of_name(value@),
    {
        if str_eq(value, "high") {
            Some(TaskPriority::HIGH)
        } else if str_eq(value, "medium") {
            Some(TaskPriority::MEDIUM)
        } else if str_eq(value, "low") {
            Some(TaskPriority::LOW)
        } else {
            None
        }
    }
}

/// Reading back the name of a priority gives the priority.
pub proof fn priority_name_round_trip(p: TaskPriority)
    ensures
        priority_of_name(priority_name(p)) == Some(p),
{
    reveal_strlit("high");
    reveal_strlit("medium");
    reveal_strlit("low");
    assert("high"@.len() == 4);
    assert("medium"@.len() == 6);
    assert("low"@.len() == 3);
}

/// A task of a column.
#[derive(Debug)]
pub struct Task {
    pub title: String,
    pub description: String,
    pub priority: TaskPriority,
    pub order: usize,
}

impl Task {
    pub fn new(title: String, description: String, priority: TaskPriority, order: usize) -> (t: Task)
        ensures
            t.title == title,
            t.description == description,
            t.priority == priority,
            t.order == order,
    {
        Task { title, description, priority, order }
    }
}

} // verus!
