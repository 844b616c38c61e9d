//! The small pieces of interface state: status messages, the annotation filter, details,
//! confirmations, the move picker and goto labels.

use vstd::prelude::*;

use crate::domain::ids::CardId;
use crate::text::owned;

verus! {

/// Which annotations the review lists.
#[derive(Debug, Clone, Copy, PartialEq, Eq, Structural)]
pub enum AnnotationFilter {
    Unassigned,
    All,
    Missing,
    Ignored,
}

/// The filter after `f` in the cycle unassigned, all, missing, ignored.
pub open spec fn next_filter(f: AnnotationFilter) -> AnnotationFilter {
    match f {
        AnnotationFilter::Unassigned => AnnotationFilter::All,
        AnnotationFilter::All => AnnotationFilter::Missing,
        AnnotationFilter::Missing => AnnotationFilter::Ignored,
        AnnotationFilter::Ignored => AnnotationFilter::Unassigned,
    }
}

/// The label of a filter.
pub open spec fn filter_label(f: AnnotationFilter) -> Seq<char> {
    match f {
        AnnotationFilter::Unassigned => "unassigned"@,
        AnnotationFilter::All => "all"@,
        AnnotationFilter::Missing => "missing"@,
        AnnotationFilter::Ignored => "ignored"@,
    }
}

impl AnnotationFilter {
    /// The next filter of the cycle.
    pub fn next(self) -> (r: Self)
        ensures
            r == next_filter(self),
    {
        match self {
            AnnotationFilter::Unassigned => AnnotationFilter::All,
            AnnotationFilter::All => AnnotationFilter::Missing,
            AnnotationFilter::Missing => AnnotationFilter::Ignored,
            AnnotationFilter::Ignored => AnnotationFilter::Unassigned,
        }
    }

    /// The label shown for the filter.
    pub fn label(self) -> (s: &'static str)
        ensures
            s@ == filter_label(self),
    {
        match self {
            AnnotationFilter::Unassigned => "unassigned",
            AnnotationFilter::All => "all",
            AnnotationFilter::Missing => "missing",
            AnnotationFilter::Ignored => "ignored",
        }
    }
}

/// Cycling the filter four times comes back to the same filter, and never earlier.
pub proof fn lemma_filter_cycle(f: AnnotationFilter)
    ensures
        next_filter(next_filter(next_filter(next_filter(f)))) == f,
        next_filter(f) != f,
        next_filter(next_filter(f)) != f,
        next_filter(next_filter(next_filter(f))) != f,
{
}

/// Whether a scan was asked for by opening the board or by the user.
#[derive(Debug, Clone, Copy, PartialEq, Eq, Structural)]
pub enum AnnotationSyncTrigger {
    Open,
    Manual,
}

/// Whether keys go to the board or to a text field.
#[derive(Debug, Clone, Copy, PartialEq, Eq, Structural)]
pub enum InputMode {
    Normal,
    Editing,
}

/// The text field being edited.
#[derive(Debug, Clone, Copy, PartialEq, Eq, Structural)]
pub enum InputType {
    CreatingColumn,
    CreatingTaskTitle,
    CreatingTaskDescription,
    CreatingTaskPriority,
    CreatingTaskColumn,
}

/// The card shown in the details, and how far its description is scrolled.
#[derive(Debug, Clone, Copy, PartialEq, Eq, Structural)]
pub struct DetailState {
    pub card_id: CardId,
    pub scroll: u16,
}

impl DetailState {
    /// The details of a card, scrolled to the top.
    pub fn new(card_id: CardId) -> (d: Self)
        ensures
            d == (DetailState { card_id, scroll: 0 }),
    {
        DetailState { card_id, scroll: 0 }
    }
}

/// How serious a status message is.
#[derive(Debug, Clone, Copy, PartialEq, Eq, Structural)]
pub enum StatusLevel {
    Info,
    Warn,
    Error,
}

/// A message in the status line.
#[derive(Debug, Clone, PartialEq, Eq)]
pub struct StatusMessage {
    pub level: StatusLevel,
    pub text: String,
}

impl StatusMessage {
    /// An informational message.
    pub fn info(text: &str) -> (m: Self)
        ensures
            m.level == StatusLevel::Info,
            m.text@ == text@,
    {
        StatusMessage { level: StatusLevel::Info, text: owned(text) }
    }

    /// A warning.
    pub fn warn(text: &str) -> (m: Self)
        ensures
            m.level == StatusLevel::Warn,
            m.text@ == text@,
    {
        StatusMessage { level: StatusLevel::Warn, text: owned(text) }
    }

    /// An error.
    pub fn error(text: &str) -> (m: Self)
        ensures
            m.level == StatusLevel::Error,
            m.text@ == text@,
    {
        StatusMessage { level: StatusLevel::Error, text: owned(text) }
    }
}

/// What a confirmation asks for.
#[derive(Debug, Clone, PartialEq, Eq)]
pub enum Confirmation {
    Archive { card_ids: Vec<CardId> },
    DeleteColumn { column_index: usize },
}

/// A pending confirmation, and whether "confirm" is the selected choice.
#[derive(Debug, Clone, PartialEq, Eq)]
pub struct ConfirmationState {
    pub action: Confirmation,
    pub confirm_selected: bool,
}

/// The column chosen in the move picker.
#[derive(Debug, Clone, Copy, PartialEq, Eq, Structural)]
pub struct MovePickerState {
    pub selected_column: usize,
}

/// A visible card and the two-letter label that jumps to it.
#[derive(Debug, Clone, PartialEq, Eq)]
pub struct GotoTarget {
    pub label: String,
    pub card_id: CardId,
}

/// The labelled cards and the letters typed so far.
#[derive(Debug, Clone, PartialEq, Eq)]
pub struct GotoLabelsState {
    pub targets: Vec<GotoTarget>,
    pub input: String,
}

} // verus!
