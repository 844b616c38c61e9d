//! Card priorities and board tasks.

use vstd::prelude::*;

use crate::text::{owned, str_eq};

use super::ids::CardId;
use super::private_state::LocalCard;

verus! {

/// The priority of a card.
#[allow(non_camel_case_types)]
#[derive(Debug, Clone, Copy, PartialEq, Eq, Structural)]
pub enum TaskPriority {
    HIGH,
    MEDIUM,
    LOW,
}

/// The text form of a priority.
pub open spec fn priority_text(priority: TaskPriority) -> Seq<char> {
    match priority {
        TaskPriority::HIGH => "HIGH"@,
        TaskPriority::MEDIUM => "MEDIUM"@,
        TaskPriority::LOW => "LOW"@,
    }
}

/// The priority whose text form is `text`, if any.
pub open spec fn priority_from_text(text: Seq<char>) -> Option<TaskPriority> {
    if text == "HIGH"@ {
        Some(TaskPriority::HIGH)
    } else if text == "MEDIUM"@ {
        Some(TaskPriority::MEDIUM)
    } else if text == "LOW"@ {
        Some(TaskPriority::LOW)
    } else {
        None
    }
}

impl TaskPriority {
    pub fn value(&self) -> (s: String)
        ensures
            s@ == priority_text(*self),
    {
        match self {
            TaskPriority::HIGH => owned("HIGH"),
            TaskPriority::MEDIUM => owned("MEDIUM"),
            TaskPriority::LOW => owned("LOW"),
        }
    }

    pub fn from_value(value: &str) -> (p: Option<TaskPriority>)
        ensures
            p == priority_from_text(value@),
    {
        if str_eq(value, "HIGH") {
            Some(TaskPriority::HIGH)
        } else if str_eq(value, "MEDIUM") {
            Some(TaskPriority::MEDIUM)
        } else if str_eq(value, "LOW") {
            Some(TaskPriority::LOW)
        } else {
            None
        }
    }
}

/// Reading back the text of a priority gives the priority.
pub proof fn priority_text_round_trip(priority: TaskPriority)
    ensures
        priority_from_text(priority_text(priority)) == Some(priority),
{
    reveal_strlit("HIGH");
    reveal_strlit("MEDIUM");
    reveal_strlit("LOW");
    assert("HIGH"@.len() == 4);
    assert("MEDIUM"@.len() == 6);
    assert("LOW"@.len() == 3);
}

/// A card as shown on the board.
#[derive(Debug, PartialEq, Eq)]
pub struct Task {
    pub id: CardId,
    pub title: String,
    pub description: String,
    pub priority: TaskPriority,
    pub order: usize,
    pub done: bool,
    pub archived_by_sync: bool,
}

impl Clone for Task {
    fn clone(&self) -> (r: Self)
        ensures
            r == *self,
    {
        Task {
            id: self.id,
            title: self.title.clone(),
            description: self.description.clone(),
            priority: self.priority,
            order: self.order,
            done: self.done,
            archived_by_sync: self.archived_by_sync,
        }
    }
}

impl Task {
    /// A new card with a fresh identity.
    pub fn new(title: String, description: String, priority: TaskPriority, order: usize) -> (t:
        Task)
        ensures
            t.id.0 != 0,
            t.title == title,
            t.description == description,
            t.priority == priority,
            t.order == order,
            !t.done,
            !t.archived_by_sync,
    {
        Task {
            id: CardId::generate(),
            title,
            description,
            priority,
            order,
            done: false,
            archived_by_sync: false,
        }
    }

    /// The board card of a stored card, at position `order` of its column.
    pub fn from_local_card(card: &LocalCard, order: usize) -> (t: Task)
        ensures
            t.id == card.id,
            t.title == card.title,
            t.description == card.description,
            t.priority == card.priority,
            t.order == order,
            !t.done,
            t.archived_by_sync == card.archived_by_sync,
    {
        Task {
            id: card.id,
            title: card.title.clone(),
            description: card.description.clone(),
            priority: card.priority,
            order,
            done: false,
            archived_by_sync: card.archived_by_sync,
        }
    }
}

} // verus!
