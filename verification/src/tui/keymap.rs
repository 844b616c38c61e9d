//! Key bindings: which key does what in each part of the interface, and the footer and
//! help text that are drawn from the same table.

use vstd::prelude::*;

use crate::text::{join_seqs, lemma_join_push, lower_char, owned, push_char, push_str, str_eq, to_ascii_lower};

verus! {

/// The part of the interface that receives a key.
#[derive(Debug, Clone, Copy, PartialEq, Eq, Hash, Structural)]
pub enum KeyContext {
    Board,
    Details,
    Form,
    Picker,
    Confirmation,
    Goto,
    Help,
    Annotations,
}

/// What a key asks the interface to do.
#[derive(Debug, Clone, Copy, PartialEq, Eq, Structural)]
pub enum Action {
    Quit,
    ShowHelp,
    Close,
    MoveFocusLeft,
    MoveFocusRight,
    MoveFocusUp,
    MoveFocusDown,
    NewCard,
    NewColumn,
    EditCard,
    ViewCard,
    MarkDone,
    RequestArchive,
    RequestDeleteColumn,
    MoveCardsLeft,
    MoveCardsRight,
    MoveColumnLeft,
    MoveColumnRight,
    OpenMovePicker,
    ToggleSelection,
    EnterGoto,
    GotoFirstCard,
    GotoLastCard,
    GotoFirstColumn,
    GotoLastColumn,
    GotoVisibleCard,
    SaveForm,
    NextField,
    PreviousField,
    FormEnter,
    SelectPrevious,
    SelectNext,
    Accept,
    Confirm,
    Reject,
    ToggleChoice,
    ScrollUp,
    ScrollDown,
    SyncAnnotations,
    AnnotationPrevious,
    AnnotationNext,
    CreateFromAnnotations,
    IgnoreAnnotations,
    CycleAnnotationFilter,
}

/// The key of a key press; keys that no binding names are `Other`.
#[derive(Debug, Clone, Copy, PartialEq, Eq, Structural)]
pub enum KeyCode {
    Char(char),
    Left,
    Right,
    Up,
    Down,
    Tab,
    BackTab,
    Enter,
    Esc,
    Backspace,
    Other,
}

/// A key press: the key and whether Control or Alt was held.
#[derive(Debug, Clone, Copy, PartialEq, Eq, Structural)]
pub struct KeyInput {
    pub code: KeyCode,
    pub control: bool,
    pub alt: bool,
}

impl KeyInput {
    /// A key press with the given modifiers.
    pub fn new(code: KeyCode, control: bool, alt: bool) -> (k: KeyInput)
        ensures
            k == (KeyInput { code, control, alt }),
    {
        KeyInput { code, control, alt }
    }

    /// A key press without modifiers.
    pub fn plain(code: KeyCode) -> (k: KeyInput)
        ensures
            k == (KeyInput { code, control: false, alt: false }),
    {
        KeyInput { code, control: false, alt: false }
    }
}

/// The key that a binding listens for.
#[derive(Debug, Clone, Copy, PartialEq, Eq, Structural)]
pub enum KeySpec {
    /// This character, with neither Control nor Alt held.
    Char(char),
    /// This letter in either case, with Control held.
    Ctrl(char),
    /// This key, whatever the modifiers.
    Code(KeyCode),
}

impl KeySpec {
    /// Whether a key press is the one this spec listens for.
    pub open spec fn accepts(self, input: KeyInput) -> bool {
        match self {
            KeySpec::Char(expected) => input.code == KeyCode::Char(expected) && !input.control
                && !input.alt,
            KeySpec::Ctrl(expected) => match input.code {
                KeyCode::Char(actual) => lower_char(actual) == lower_char(expected)
                    && input.control,
                _ => false,
            },
            KeySpec::Code(expected) => input.code == expected,
        }
    }

    /// Whether a key press is the one this spec listens for.
    pub fn matches(self, input: KeyInput) -> (r: bool)
        ensures
            r == self.accepts(input),
    {
        match self {
            KeySpec::Char(expected) => match input.code {
                KeyCode::Char(actual) => actual == expected && !input.control && !input.alt,
                _ => false,
            },
            KeySpec::Ctrl(expected) => match input.code {
                KeyCode::Char(actual) => to_ascii_lower(actual) == to_ascii_lower(expected)
                    && input.control,
                _ => false,
            },
            KeySpec::Code(expected) => input.code == expected,
        }
    }
}

/// One row of the key table. Rows that are not shown are aliases of a shown row.
#[derive(Debug, Clone, Copy)]
pub struct Binding {
    pub context: KeyContext,
    pub key: KeySpec,
    pub action: Action,
    pub display: &'static str,
    pub description: &'static str,
    pub group: &'static str,
    pub show_in_footer: bool,
    pub show_in_help: bool,
}

/// The number of rows of the key table.
pub const BINDING_COUNT: usize = 88;

/// The key bindings, in the order in which they are tried.
pub open spec fn binding_row(i: usize) -> Binding {
    match i {
        0 => Binding {
            context: KeyContext::Board,
            key: KeySpec::Char('h'),
            action: Action::MoveFocusLeft,
            display: "h/l",
            description: "column",
            group: "Navigation",
            show_in_footer: true,
            show_in_help: true,
        },
        1 => Binding {
            context: KeyContext::Board,
            key: KeySpec::Char('j'),
            action: Action::MoveFocusDown,
            display: "j/k",
            description: "card",
            group: "Navigation",
            show_in_footer: true,
            show_in_help: true,
        },
        2 => Binding {
            context: KeyContext::Board,
            key: KeySpec::Char('k'),
            action: Action::MoveFocusUp,
            display: "",
            description: "",
            group: "",
            show_in_footer: false,
            show_in_help: false,
        },
        3 => Binding {
            context: KeyContext::Board,
            key: KeySpec::Char('l'),
            action: Action::MoveFocusRight,
            display: "",
            description: "",
            group: "",
            show_in_footer: false,
            show_in_help: false,
        },
        4 => Binding {
            context: KeyContext::Board,
            key: KeySpec::Code(KeyCode::Left),
            action: Action::MoveFocusLeft,
            display: "",
            description: "",
            group: "",
            show_in_footer: false,
            show_in_help: false,
        },
        5 => Binding {
            context: KeyContext::Board,
            key: KeySpec::Code(KeyCode::Right),
            action: Action::MoveFocusRight,
            display: "",
            description: "",
            group: "",
            show_in_footer: false,
            show_in_help: false,
        },
        6 => Binding {
            context: KeyContext::Board,
            key: KeySpec::Code(KeyCode::Up),
            action: Action::MoveFocusUp,
            display: "",
            description: "",
            group: "",
            show_in_footer: false,
            show_in_help: false,
        },
        7 => Binding {
            context: KeyContext::Board,
            key: KeySpec::Code(KeyCode::Down),
            action: Action::MoveFocusDown,
            display: "",
            description: "",
            group: "",
            show_in_footer: false,
            show_in_help: false,
        },
        8 => Binding {
            context: KeyContext::Board,
            key: KeySpec::Code(KeyCode::Tab),
            action: Action::MoveFocusRight,
            display: "",
            description: "",
            group: "",
            show_in_footer: false,
            show_in_help: false,
        },
        9 => Binding {
            context: KeyContext::Board,
            key: KeySpec::Code(KeyCode::BackTab),
            action: Action::MoveFocusLeft,
            display: "",
            description: "",
            group: "",
            show_in_footer: false,
            show_in_help: false,
        },
        10 => Binding {
            context: KeyContext::Board,
            key: KeySpec::Char('n'),
            action: Action::NewCard,
            display: "n",
            description: "new card",
            group: "Cards",
            show_in_footer: true,
            show_in_help: true,
        },
        11 => Binding {
            context: KeyContext::Board,
            key: KeySpec::Char('N'),
            action: Action::NewColumn,
            display: "N",
            description: "new column",
            group: "Columns",
            show_in_footer: true,
            show_in_help: true,
        },
        12 => Binding {
            context: KeyContext::Board,
            key: KeySpec::Char('e'),
            action: Action::EditCard,
            display: "e",
            description: "edit",
            group: "Cards",
            show_in_footer: true,
            show_in_help: true,
        },
        13 => Binding {
            context: KeyContext::Board,
            key: KeySpec::Code(KeyCode::Enter),
            action: Action::ViewCard,
            display: "Enter",
            description: "details",
            group: "Cards",
            show_in_footer: true,
            show_in_help: true,
        },
        14 => Binding {
            context: KeyContext::Board,
            key: KeySpec::Char('d'),
            action: Action::MarkDone,
            display: "d",
            description: "done",
            group: "Cards",
            show_in_footer: true,
            show_in_help: true,
        },
        15 => Binding {
            context: KeyContext::Board,
            key: KeySpec::Char('x'),
            action: Action::RequestArchive,
            display: "x",
            description: "archive",
            group: "Cards",
            show_in_footer: true,
            show_in_help: true,
        },
        16 => Binding {
            context: KeyContext::Board,
            key: KeySpec::Char('X'),
            action: Action::RequestDeleteColumn,
            display: "X",
            description: "delete column",
            group: "Columns",
            show_in_footer: true,
            show_in_help: true,
        },
        17 => Binding {
            context: KeyContext::Board,
            key: KeySpec::Char('['),
            action: Action::MoveColumnLeft,
            display: "[/]",
            description: "reorder columns",
            group: "Columns",
            show_in_footer: true,
            show_in_help: true,
        },
        18 => Binding {
            context: KeyContext::Board,
            key: KeySpec::Char(']'),
            action: Action::MoveColumnRight,
            display: "",
            description: "",
            group: "",
            show_in_footer: false,
            show_in_help: false,
        },
        19 => Binding {
            context: KeyContext::Board,
            key: KeySpec::Char('H'),
            action: Action::MoveCardsLeft,
            display: "H/L",
            description: "move",
            group: "Movement",
            show_in_footer: true,
            show_in_help: true,
        },
        20 => Binding {
            context: KeyContext::Board,
            key: KeySpec::Char('L'),
            action: Action::MoveCardsRight,
            display: "",
            description: "",
            group: "",
            show_in_footer: false,
            show_in_help: false,
        },
        21 => Binding {
            context: KeyContext::Board,
            key: KeySpec::Char('m'),
            action: Action::OpenMovePicker,
            display: "m",
            description: "move to",
            group: "Movement",
            show_in_footer: true,
            show_in_help: true,
        },
        22 => Binding {
            context: KeyContext::Board,
            key: KeySpec::Char(' '),
            action: Action::ToggleSelection,
            display: "Space",
            description: "select",
            group: "Selection",
            show_in_footer: true,
            show_in_help: true,
        },
        23 => Binding {
            context: KeyContext::Board,
            key: KeySpec::Char('g'),
            action: Action::EnterGoto,
            display: "g",
            description: "goto",
            group: "Navigation",
            show_in_footer: true,
            show_in_help: true,
        },
        24 => Binding {
            context: KeyContext::Board,
            key: KeySpec::Char('?'),
            action: Action::ShowHelp,
            display: "?",
            description: "help",
            group: "Global",
            show_in_footer: true,
            show_in_help: true,
        },
        25 => Binding {
            context: KeyContext::Board,
            key: KeySpec::Ctrl('r'),
            action: Action::SyncAnnotations,
            display: "Ctrl+R",
            description: "sync annotations",
            group: "Global",
            show_in_footer: true,
            show_in_help: true,
        },
        26 => Binding {
            context: KeyContext::Board,
            key: KeySpec::Code(KeyCode::Esc),
            action: Action::Close,
            display: "Esc",
            description: "clear",
            group: "Global",
            show_in_footer: true,
            show_in_help: true,
        },
        27 => Binding {
            context: KeyContext::Board,
            key: KeySpec::Char('q'),
            action: Action::Quit,
            display: "q",
            description: "quit",
            group: "Global",
            show_in_footer: true,
            show_in_help: true,
        },
        28 => Binding {
            context: KeyContext::Details,
            key: KeySpec::Char('h'),
            action: Action::MoveFocusLeft,
            display: "h/j/k/l",
            description: "navigate board",
            group: "Details",
            show_in_footer: true,
            show_in_help: true,
        },
        29 => Binding {
            context: KeyContext::Details,
            key: KeySpec::Char('j'),
            action: Action::MoveFocusDown,
            display: "",
            description: "",
            group: "",
            show_in_footer: false,
            show_in_help: false,
        },
        30 => Binding {
            context: KeyContext::Details,
            key: KeySpec::Char('k'),
            action: Action::MoveFocusUp,
            display: "",
            description: "",
            group: "",
            show_in_footer: false,
            show_in_help: false,
        },
        31 => Binding {
            context: KeyContext::Details,
            key: KeySpec::Char('l'),
            action: Action::MoveFocusRight,
            display: "",
            description: "",
            group: "",
            show_in_footer: false,
            show_in_help: false,
        },
        32 => Binding {
            context: KeyContext::Details,
            key: KeySpec::Code(KeyCode::Left),
            action: Action::MoveFocusLeft,
            display: "",
            description: "",
            group: "",
            show_in_footer: false,
            show_in_help: false,
        },
        33 => Binding {
            context: KeyContext::Details,
            key: KeySpec::Code(KeyCode::Right),
            action: Action::MoveFocusRight,
            display: "",
            description: "",
            group: "",
            show_in_footer: false,
            show_in_help: false,
        },
        34 => Binding {
            context: KeyContext::Details,
            key: KeySpec::Code(KeyCode::Up),
            action: Action::MoveFocusUp,
            display: "",
            description: "",
            group: "",
            show_in_footer: false,
            show_in_help: false,
        },
        35 => Binding {
            context: KeyContext::Details,
            key: KeySpec::Code(KeyCode::Down),
            action: Action::MoveFocusDown,
            display: "",
            description: "",
            group: "",
            show_in_footer: false,
            show_in_help: false,
        },
        36 => Binding {
            context: KeyContext::Details,
            key: KeySpec::Char('['),
            action: Action::MoveColumnLeft,
            display: "[/]",
            description: "reorder columns",
            group: "Details",
            show_in_footer: true,
            show_in_help: true,
        },
        37 => Binding {
            context: KeyContext::Details,
            key: KeySpec::Char(']'),
            action: Action::MoveColumnRight,
            display: "",
            description: "",
            group: "",
            show_in_footer: false,
            show_in_help: false,
        },
        38 => Binding {
            context: KeyContext::Details,
            key: KeySpec::Ctrl('u'),
            action: Action::ScrollUp,
            display: "Ctrl+u/d",
            description: "scroll description",
            group: "Details",
            show_in_footer: true,
            show_in_help: true,
        },
        39 => Binding {
            context: KeyContext::Details,
            key: KeySpec::Ctrl('d'),
            action: Action::ScrollDown,
            display: "",
            description: "",
            group: "",
            show_in_footer: false,
            show_in_help: false,
        },
        40 => Binding {
            context: KeyContext::Details,
            key: KeySpec::Char('e'),
            action: Action::EditCard,
            display: "e",
            description: "edit",
            group: "Details",
            show_in_footer: true,
            show_in_help: true,
        },
        41 => Binding {
            context: KeyContext::Details,
            key: KeySpec::Char('d'),
            action: Action::MarkDone,
            display: "d",
            description: "done",
            group: "Details",
            show_in_footer: true,
            show_in_help: true,
        },
        42 => Binding {
            context: KeyContext::Details,
            key: KeySpec::Char('x'),
            action: Action::RequestArchive,
            display: "x",
            description: "archive",
            group: "Details",
            show_in_footer: true,
            show_in_help: true,
        },
        43 => Binding {
            context: KeyContext::Details,
            key: KeySpec::Char('?'),
            action: Action::ShowHelp,
            display: "?",
            description: "help",
            group: "Global",
            show_in_footer: true,
            show_in_help: true,
        },
        44 => Binding {
            context: KeyContext::Details,
            key: KeySpec::Code(KeyCode::Esc),
            action: Action::Close,
            display: "Esc",
            description: "close",
            group: "Global",
            show_in_footer: true,
            show_in_help: true,
        },
        45 => Binding {
            context: KeyContext::Form,
            key: KeySpec::Ctrl('s'),
            action: Action::SaveForm,
            display: "Ctrl+S",
            description: "save",
            group: "Form",
            show_in_footer: true,
            show_in_help: true,
        },
        46 => Binding {
            context: KeyContext::Form,
            key: KeySpec::Code(KeyCode::Tab),
            action: Action::NextField,
            display: "Tab",
            description: "next",
            group: "Form",
            show_in_footer: true,
            show_in_help: true,
        },
        47 => Binding {
            context: KeyContext::Form,
            key: KeySpec::Code(KeyCode::BackTab),
            action: Action::PreviousField,
            display: "Shift+Tab",
            description: "previous",
            group: "Form",
            show_in_footer: true,
            show_in_help: true,
        },
        48 => Binding {
            context: KeyContext::Form,
            key: KeySpec::Code(KeyCode::Enter),
            action: Action::FormEnter,
            display: "Enter",
            description: "advance/new line",
            group: "Form",
            show_in_footer: true,
            show_in_help: true,
        },
        49 => Binding {
            context: KeyContext::Form,
            key: KeySpec::Code(KeyCode::Esc),
            action: Action::Close,
            display: "Esc",
            description: "cancel",
            group: "Form",
            show_in_footer: true,
            show_in_help: true,
        },
        50 => Binding {
            context: KeyContext::Picker,
            key: KeySpec::Char('k'),
            action: Action::SelectPrevious,
            display: "j/k",
            description: "choose",
            group: "Picker",
            show_in_footer: true,
            show_in_help: true,
        },
        51 => Binding {
            context: KeyContext::Picker,
            key: KeySpec::Char('j'),
            action: Action::SelectNext,
            display: "",
            description: "",
            group: "",
            show_in_footer: false,
            show_in_help: false,
        },
        52 => Binding {
            context: KeyContext::Picker,
            key: KeySpec::Code(KeyCode::Up),
            action: Action::SelectPrevious,
            display: "",
            description: "",
            group: "",
            show_in_footer: false,
            show_in_help: false,
        },
        53 => Binding {
            context: KeyContext::Picker,
            key: KeySpec::Code(KeyCode::Down),
            action: Action::SelectNext,
            display: "",
            description: "",
            group: "",
            show_in_footer: false,
            show_in_help: false,
        },
        54 => Binding {
            context: KeyContext::Picker,
            key: KeySpec::Code(KeyCode::Enter),
            action: Action::Confirm,
            display: "Enter",
            description: "move",
            group: "Picker",
            show_in_footer: true,
            show_in_help: true,
        },
        55 => Binding {
            context: KeyContext::Picker,
            key: KeySpec::Code(KeyCode::Esc),
            action: Action::Close,
            display: "Esc",
            description: "cancel",
            group: "Picker",
            show_in_footer: true,
            show_in_help: true,
        },
        56 => Binding {
            context: KeyContext::Confirmation,
            key: KeySpec::Char('y'),
            action: Action::Accept,
            display: "y",
            description: "confirm",
            group: "Confirmation",
            show_in_footer: true,
            show_in_help: true,
        },
        57 => Binding {
            context: KeyContext::Confirmation,
            key: KeySpec::Char('n'),
            action: Action::Reject,
            display: "n",
            description: "cancel",
            group: "Confirmation",
            show_in_footer: true,
            show_in_help: true,
        },
        58 => Binding {
            context: KeyContext::Confirmation,
            key: KeySpec::Code(KeyCode::Enter),
            action: Action::Confirm,
            display: "",
            description: "",
            group: "",
            show_in_footer: false,
            show_in_help: false,
        },
        59 => Binding {
            context: KeyContext::Confirmation,
            key: KeySpec::Code(KeyCode::Esc),
            action: Action::Reject,
            display: "",
            description: "",
            group: "",
            show_in_footer: false,
            show_in_help: false,
        },
        60 => Binding {
            context: KeyContext::Confirmation,
            key: KeySpec::Char('h'),
            action: Action::ToggleChoice,
            display: "h/l/Tab",
            description: "change choice",
            group: "Confirmation",
            show_in_footer: true,
            show_in_help: true,
        },
        61 => Binding {
            context: KeyContext::Confirmation,
            key: KeySpec::Char('l'),
            action: Action::ToggleChoice,
            display: "",
            description: "",
            group: "",
            show_in_footer: false,
            show_in_help: false,
        },
        62 => Binding {
            context: KeyContext::Confirmation,
            key: KeySpec::Code(KeyCode::Left),
            action: Action::ToggleChoice,
            display: "",
            description: "",
            group: "",
            show_in_footer: false,
            show_in_help: false,
        },
        63 => Binding {
            context: KeyContext::Confirmation,
            key: KeySpec::Code(KeyCode::Right),
            action: Action::ToggleChoice,
            display: "",
            description: "",
            group: "",
            show_in_footer: false,
            show_in_help: false,
        },
        64 => Binding {
            context: KeyContext::Confirmation,
            key: KeySpec::Code(KeyCode::Tab),
            action: Action::ToggleChoice,
            display: "",
            description: "",
            group: "",
            show_in_footer: false,
            show_in_help: false,
        },
        65 => Binding {
            context: KeyContext::Confirmation,
            key: KeySpec::Code(KeyCode::BackTab),
            action: Action::ToggleChoice,
            display: "",
            description: "",
            group: "",
            show_in_footer: false,
            show_in_help: false,
        },
        66 => Binding {
            context: KeyContext::Goto,
            key: KeySpec::Char('w'),
            action: Action::GotoVisibleCard,
            display: "gw",
            description: "visible card",
            group: "Goto",
            show_in_footer: true,
            show_in_help: true,
        },
        67 => Binding {
            context: KeyContext::Goto,
            key: KeySpec::Char('g'),
            action: Action::GotoFirstCard,
            display: "gg",
            description: "first card",
            group: "Goto",
            show_in_footer: true,
            show_in_help: true,
        },
        68 => Binding {
            context: KeyContext::Goto,
            key: KeySpec::Char('e'),
            action: Action::GotoLastCard,
            display: "ge",
            description: "last card",
            group: "Goto",
            show_in_footer: true,
            show_in_help: true,
        },
        69 => Binding {
            context: KeyContext::Goto,
            key: KeySpec::Char('h'),
            action: Action::GotoFirstColumn,
            display: "gh",
            description: "first column",
            group: "Goto",
            show_in_footer: true,
            show_in_help: true,
        },
        70 => Binding {
            context: KeyContext::Goto,
            key: KeySpec::Char('l'),
            action: Action::GotoLastColumn,
            display: "gl",
            description: "last column",
            group: "Goto",
            show_in_footer: true,
            show_in_help: true,
        },
        71 => Binding {
            context: KeyContext::Goto,
            key: KeySpec::Code(KeyCode::Esc),
            action: Action::Close,
            display: "Esc",
            description: "cancel",
            group: "Goto",
            show_in_footer: true,
            show_in_help: true,
        },
        72 => Binding {
            context: KeyContext::Help,
            key: KeySpec::Char('k'),
            action: Action::ScrollUp,
            display: "j/k",
            description: "scroll",
            group: "Help",
            show_in_footer: true,
            show_in_help: true,
        },
        73 => Binding {
            context: KeyContext::Help,
            key: KeySpec::Char('j'),
            action: Action::ScrollDown,
            display: "",
            description: "",
            group: "",
            show_in_footer: false,
            show_in_help: false,
        },
        74 => Binding {
            context: KeyContext::Help,
            key: KeySpec::Code(KeyCode::Up),
            action: Action::ScrollUp,
            display: "",
            description: "",
            group: "",
            show_in_footer: false,
            show_in_help: false,
        },
        75 => Binding {
            context: KeyContext::Help,
            key: KeySpec::Code(KeyCode::Down),
            action: Action::ScrollDown,
            display: "",
            description: "",
            group: "",
            show_in_footer: false,
            show_in_help: false,
        },
        76 => Binding {
            context: KeyContext::Help,
            key: KeySpec::Char('?'),
            action: Action::Close,
            display: "?",
            description: "close",
            group: "Help",
            show_in_footer: true,
            show_in_help: true,
        },
        77 => Binding {
            context: KeyContext::Help,
            key: KeySpec::Code(KeyCode::Esc),
            action: Action::Close,
            display: "Esc",
            description: "close",
            group: "Help",
            show_in_footer: true,
            show_in_help: true,
        },
        78 => Binding {
            context: KeyContext::Annotations,
            key: KeySpec::Char('k'),
            action: Action::AnnotationPrevious,
            display: "j/k",
            description: "navigate",
            group: "Annotations",
            show_in_footer: true,
            show_in_help: true,
        },
        79 => Binding {
            context: KeyContext::Annotations,
            key: KeySpec::Char('j'),
            action: Action::AnnotationNext,
            display: "",
            description: "",
            group: "",
            show_in_footer: false,
            show_in_help: false,
        },
        80 => Binding {
            context: KeyContext::Annotations,
            key: KeySpec::Code(KeyCode::Up),
            action: Action::AnnotationPrevious,
            display: "",
            description: "",
            group: "",
            show_in_footer: false,
            show_in_help: false,
        },
        81 => Binding {
            context: KeyContext::Annotations,
            key: KeySpec::Code(KeyCode::Down),
            action: Action::AnnotationNext,
            display: "",
            description: "",
            group: "",
            show_in_footer: false,
            show_in_help: false,
        },
        82 => Binding {
            context: KeyContext::Annotations,
            key: KeySpec::Char(' '),
            action: Action::ToggleSelection,
            display: "Space",
            description: "select",
            group: "Annotations",
            show_in_footer: true,
            show_in_help: true,
        },
        83 => Binding {
            context: KeyContext::Annotations,
            key: KeySpec::Char('c'),
            action: Action::CreateFromAnnotations,
            display: "c",
            description: "create card",
            group: "Annotations",
            show_in_footer: true,
            show_in_help: true,
        },
        84 => Binding {
            context: KeyContext::Annotations,
            key: KeySpec::Char('i'),
            action: Action::IgnoreAnnotations,
            display: "i",
            description: "ignore",
            group: "Annotations",
            show_in_footer: true,
            show_in_help: true,
        },
        85 => Binding {
            context: KeyContext::Annotations,
            key: KeySpec::Char('f'),
            action: Action::CycleAnnotationFilter,
            display: "f",
            description: "filter",
            group: "Annotations",
            show_in_footer: true,
            show_in_help: true,
        },
        86 => Binding {
            context: KeyContext::Annotations,
            key: KeySpec::Ctrl('r'),
            action: Action::SyncAnnotations,
            display: "Ctrl+R",
            description: "rescan",
            group: "Annotations",
            show_in_footer: true,
            show_in_help: true,
        },
        _ => Binding {
            context: KeyContext::Annotations,
            key: KeySpec::Code(KeyCode::Esc),
            action: Action::Close,
            display: "Esc",
            description: "close",
            group: "Annotations",
            show_in_footer: true,
            show_in_help: true,
        },
    }
}

/// The binding at position `i` of the table.
pub fn binding(i: usize) -> (b: Binding)
    requires
        i < BINDING_COUNT,
    ensures
        b == binding_row(i),
{
    match i {
        0 => Binding {
            context: KeyContext::Board,
            key: KeySpec::Char('h'),
            action: Action::MoveFocusLeft,
            display: "h/l",
            description: "column",
            group: "Navigation",
            show_in_footer: true,
            show_in_help: true,
        },
        1 => Binding {
            context: KeyContext::Board,
            key: KeySpec::Char('j'),
            action: Action::MoveFocusDown,
            display: "j/k",
            description: "card",
            group: "Navigation",
            show_in_footer: true,
            show_in_help: true,
        },
        2 => Binding {
            context: KeyContext::Board,
            key: KeySpec::Char('k'),
            action: Action::MoveFocusUp,
            display: "",
            description: "",
            group: "",
            show_in_footer: false,
            show_in_help: false,
        },
        3 => Binding {
            context: KeyContext::Board,
            key: KeySpec::Char('l'),
            action: Action::MoveFocusRight,
            display: "",
            description: "",
            group: "",
            show_in_footer: false,
            show_in_help: false,
        },
        4 => Binding {
            context: KeyContext::Board,
            key: KeySpec::Code(KeyCode::Left),
            action: Action::MoveFocusLeft,
            display: "",
            description: "",
            group: "",
            show_in_footer: false,
            show_in_help: false,
        },
        5 => Binding {
            context: KeyContext::Board,
            key: KeySpec::Code(KeyCode::Right),
            action: Action::MoveFocusRight,
            display: "",
            description: "",
            group: "",
            show_in_footer: false,
            show_in_help: false,
        },
        6 => Binding {
            context: KeyContext::Board,
            key: KeySpec::Code(KeyCode::Up),
            action: Action::MoveFocusUp,
            display: "",
            description: "",
            group: "",
            show_in_footer: false,
            show_in_help: false,
        },
        7 => Binding {
            context: KeyContext::Board,
            key: KeySpec::Code(KeyCode::Down),
            action: Action::MoveFocusDown,
            display: "",
            description: "",
            group: "",
            show_in_footer: false,
            show_in_help: false,
        },
        8 => Binding {
            context: KeyContext::Board,
            key: KeySpec::Code(KeyCode::Tab),
            action: Action::MoveFocusRight,
            display: "",
            description: "",
            group: "",
            show_in_footer: false,
            show_in_help: false,
        },
        9 => Binding {
            context: KeyContext::Board,
            key: KeySpec::Code(KeyCode::BackTab),
            action: Action::MoveFocusLeft,
            display: "",
            description: "",
            group: "",
            show_in_footer: false,
            show_in_help: false,
        },
        10 => Binding {
            context: KeyContext::Board,
            key: KeySpec::Char('n'),
            action: Action::NewCard,
            display: "n",
            description: "new card",
            group: "Cards",
            show_in_footer: true,
            show_in_help: true,
        },
        11 => Binding {
            context: KeyContext::Board,
            key: KeySpec::Char('N'),
            action: Action::NewColumn,
            display: "N",
            description: "new column",
            group: "Columns",
            show_in_footer: true,
            show_in_help: true,
        },
        12 => Binding {
            context: KeyContext::Board,
            key: KeySpec::Char('e'),
            action: Action::EditCard,
            display: "e",
            description: "edit",
            group: "Cards",
            show_in_footer: true,
            show_in_help: true,
        },
        13 => Binding {
            context: KeyContext::Board,
            key: KeySpec::Code(KeyCode::Enter),
            action: Action::ViewCard,
            display: "Enter",
            description: "details",
            group: "Cards",
            show_in_footer: true,
            show_in_help: true,
        },
        14 => Binding {
            context: KeyContext::Board,
            key: KeySpec::Char('d'),
            action: Action::MarkDone,
            display: "d",
            description: "done",
            group: "Cards",
            show_in_footer: true,
            show_in_help: true,
        },
        15 => Binding {
            context: KeyContext::Board,
            key: KeySpec::Char('x'),
            action: Action::RequestArchive,
            display: "x",
            description: "archive",
            group: "Cards",
            show_in_footer: true,
            show_in_help: true,
        },
        16 => Binding {
            context: KeyContext::Board,
            key: KeySpec::Char('X'),
            action: Action::RequestDeleteColumn,
            display: "X",
            description: "delete column",
            group: "Columns",
            show_in_footer: true,
            show_in_help: true,
        },
        17 => Binding {
            context: KeyContext::Board,
            key: KeySpec::Char('['),
            action: Action::MoveColumnLeft,
            display: "[/]",
            description: "reorder columns",
            group: "Columns",
            show_in_footer: true,
            show_in_help: true,
        },
        18 => Binding {
            context: KeyContext::Board,
            key: KeySpec::Char(']'),
            action: Action::MoveColumnRight,
            display: "",
            description: "",
            group: "",
            show_in_footer: false,
            show_in_help: false,
        },
        19 => Binding {
            context: KeyContext::Board,
            key: KeySpec::Char('H'),
            action: Action::MoveCardsLeft,
            display: "H/L",
            description: "move",
            group: "Movement",
            show_in_footer: true,
            show_in_help: true,
        },
        20 => Binding {
            context: KeyContext::Board,
            key: KeySpec::Char('L'),
            action: Action::MoveCardsRight,
            display: "",
            description: "",
            group: "",
            show_in_footer: false,
            show_in_help: false,
        },
        21 => Binding {
            context: KeyContext::Board,
            key: KeySpec::Char('m'),
            action: Action::OpenMovePicker,
            display: "m",
            description: "move to",
            group: "Movement",
            show_in_footer: true,
            show_in_help: true,
        },
        22 => Binding {
            context: KeyContext::Board,
            key: KeySpec::Char(' '),
            action: Action::ToggleSelection,
            display: "Space",
            description: "select",
            group: "Selection",
            show_in_footer: true,
            show_in_help: true,
        },
        23 => Binding {
            context: KeyContext::Board,
            key: KeySpec::Char('g'),
            action: Action::EnterGoto,
            display: "g",
            description: "goto",
            group: "Navigation",
            show_in_footer: true,
            show_in_help: true,
        },
        24 => Binding {
            context: KeyContext::Board,
            key: KeySpec::Char('?'),
            action: Action::ShowHelp,
            display: "?",
            description: "help",
            group: "Global",
            show_in_footer: true,
            show_in_help: true,
        },
        25 => Binding {
            context: KeyContext::Board,
            key: KeySpec::Ctrl('r'),
            action: Action::SyncAnnotations,
            display: "Ctrl+R",
            description: "sync annotations",
            group: "Global",
            show_in_footer: true,
            show_in_help: true,
        },
        26 => Binding {
            context: KeyContext::Board,
            key: KeySpec::Code(KeyCode::Esc),
            action: Action::Close,
            display: "Esc",
            description: "clear",
            group: "Global",
            show_in_footer: true,
            show_in_help: true,
        },
        27 => Binding {
            context: KeyContext::Board,
            key: KeySpec::Char('q'),
            action: Action::Quit,
            display: "q",
            description: "quit",
            group: "Global",
            show_in_footer: true,
            show_in_help: true,
        },
        28 => Binding {
            context: KeyContext::Details,
            key: KeySpec::Char('h'),
            action: Action::MoveFocusLeft,
            display: "h/j/k/l",
            description: "navigate board",
            group: "Details",
            show_in_footer: true,
            show_in_help: true,
        },
        29 => Binding {
            context: KeyContext::Details,
            key: KeySpec::Char('j'),
            action: Action::MoveFocusDown,
            display: "",
            description: "",
            group: "",
            show_in_footer: false,
            show_in_help: false,
        },
        30 => Binding {
            context: KeyContext::Details,
            key: KeySpec::Char('k'),
            action: Action::MoveFocusUp,
            display: "",
            description: "",
            group: "",
            show_in_footer: false,
            show_in_help: false,
        },
        31 => Binding {
            context: KeyContext::Details,
            key: KeySpec::Char('l'),
            action: Action::MoveFocusRight,
            display: "",
            description: "",
            group: "",
            show_in_footer: false,
            show_in_help: false,
        },
        32 => Binding {
            context: KeyContext::Details,
            key: KeySpec::Code(KeyCode::Left),
            action: Action::MoveFocusLeft,
            display: "",
            description: "",
            group: "",
            show_in_footer: false,
            show_in_help: false,
        },
        33 => Binding {
            context: KeyContext::Details,
            key: KeySpec::Code(KeyCode::Right),
            action: Action::MoveFocusRight,
            display: "",
            description: "",
            group: "",
            show_in_footer: false,
            show_in_help: false,
        },
        34 => Binding {
            context: KeyContext::Details,
            key: KeySpec::Code(KeyCode::Up),
            action: Action::MoveFocusUp,
            display: "",
            description: "",
            group: "",
            show_in_footer: false,
            show_in_help: false,
        },
        35 => Binding {
            context: KeyContext::Details,
            key: KeySpec::Code(KeyCode::Down),
            action: Action::MoveFocusDown,
            display: "",
            description: "",
            group: "",
            show_in_footer: false,
            show_in_help: false,
        },
        36 => Binding {
            context: KeyContext::Details,
            key: KeySpec::Char('['),
            action: Action::MoveColumnLeft,
            display: "[/]",
            description: "reorder columns",
            group: "Details",
            show_in_footer: true,
            show_in_help: true,
        },
        37 => Binding {
            context: KeyContext::Details,
            key: KeySpec::Char(']'),
            action: Action::MoveColumnRight,
            display: "",
            description: "",
            group: "",
            show_in_footer: false,
            show_in_help: false,
        },
        38 => Binding {
            context: KeyContext::Details,
            key: KeySpec::Ctrl('u'),
            action: Action::ScrollUp,
            display: "Ctrl+u/d",
            description: "scroll description",
            group: "Details",
            show_in_footer: true,
            show_in_help: true,
        },
        39 => Binding {
            context: KeyContext::Details,
            key: KeySpec::Ctrl('d'),
            action: Action::ScrollDown,
            display: "",
            description: "",
            group: "",
            show_in_footer: false,
            show_in_help: false,
        },
        40 => Binding {
            context: KeyContext::Details,
            key: KeySpec::Char('e'),
            action: Action::EditCard,
            display: "e",
            description: "edit",
            group: "Details",
            show_in_footer: true,
            show_in_help: true,
        },
        41 => Binding {
            context: KeyContext::Details,
            key: KeySpec::Char('d'),
            action: Action::MarkDone,
            display: "d",
            description: "done",
            group: "Details",
            show_in_footer: true,
            show_in_help: true,
        },
        42 => Binding {
            context: KeyContext::Details,
            key: KeySpec::Char('x'),
            action: Action::RequestArchive,
            display: "x",
            description: "archive",
            group: "Details",
            show_in_footer: true,
            show_in_help: true,
        },
        43 => Binding {
            context: KeyContext::Details,
            key: KeySpec::Char('?'),
            action: Action::ShowHelp,
            display: "?",
            description: "help",
            group: "Global",
            show_in_footer: true,
            show_in_help: true,
        },
        44 => Binding {
            context: KeyContext::Details,
            key: KeySpec::Code(KeyCode::Esc),
            action: Action::Close,
            display: "Esc",
            description: "close",
            group: "Global",
            show_in_footer: true,
            show_in_help: true,
        },
        45 => Binding {
            context: KeyContext::Form,
            key: KeySpec::Ctrl('s'),
            action: Action::SaveForm,
            display: "Ctrl+S",
            description: "save",
            group: "Form",
            show_in_footer: true,
            show_in_help: true,
        },
        46 => Binding {
            context: KeyContext::Form,
            key: KeySpec::Code(KeyCode::Tab),
            action: Action::NextField,
            display: "Tab",
            description: "next",
            group: "Form",
            show_in_footer: true,
            show_in_help: true,
        },
        47 => Binding {
            context: KeyContext::Form,
            key: KeySpec::Code(KeyCode::BackTab),
            action: Action::PreviousField,
            display: "Shift+Tab",
            description: "previous",
            group: "Form",
            show_in_footer: true,
            show_in_help: true,
        },
        48 => Binding {
            context: KeyContext::Form,
            key: KeySpec::Code(KeyCode::Enter),
            action: Action::FormEnter,
            display: "Enter",
            description: "advance/new line",
            group: "Form",
            show_in_footer: true,
            show_in_help: true,
        },
        49 => Binding {
            context: KeyContext::Form,
            key: KeySpec::Code(KeyCode::Esc),
            action: Action::Close,
            display: "Esc",
            description: "cancel",
            group: "Form",
            show_in_footer: true,
            show_in_help: true,
        },
        50 => Binding {
            context: KeyContext::Picker,
            key: KeySpec::Char('k'),
            action: Action::SelectPrevious,
            display: "j/k",
            description: "choose",
            group: "Picker",
            show_in_footer: true,
            show_in_help: true,
        },
        51 => Binding {
            context: KeyContext::Picker,
            key: KeySpec::Char('j'),
            action: Action::SelectNext,
            display: "",
            description: "",
            group: "",
            show_in_footer: false,
            show_in_help: false,
        },
        52 => Binding {
            context: KeyContext::Picker,
            key: KeySpec::Code(KeyCode::Up),
            action: Action::SelectPrevious,
            display: "",
            description: "",
            group: "",
            show_in_footer: false,
            show_in_help: false,
        },
        53 => Binding {
            context: KeyContext::Picker,
            key: KeySpec::Code(KeyCode::Down),
            action: Action::SelectNext,
            display: "",
            description: "",
            group: "",
            show_in_footer: false,
            show_in_help: false,
        },
        54 => Binding {
            context: KeyContext::Picker,
            key: KeySpec::Code(KeyCode::Enter),
            action: Action::Confirm,
            display: "Enter",
            description: "move",
            group: "Picker",
            show_in_footer: true,
            show_in_help: true,
        },
        55 => Binding {
            context: KeyContext::Picker,
            key: KeySpec::Code(KeyCode::Esc),
            action: Action::Close,
            display: "Esc",
            description: "cancel",
            group: "Picker",
            show_in_footer: true,
            show_in_help: true,
        },
        56 => Binding {
            context: KeyContext::Confirmation,
            key: KeySpec::Char('y'),
            action: Action::Accept,
            display: "y",
            description: "confirm",
            group: "Confirmation",
            show_in_footer: true,
            show_in_help: true,
        },
        57 => Binding {
            context: KeyContext::Confirmation,
            key: KeySpec::Char('n'),
            action: Action::Reject,
            display: "n",
            description: "cancel",
            group: "Confirmation",
            show_in_footer: true,
            show_in_help: true,
        },
        58 => Binding {
            context: KeyContext::Confirmation,
            key: KeySpec::Code(KeyCode::Enter),
            action: Action::Confirm,
            display: "",
            description: "",
            group: "",
            show_in_footer: false,
            show_in_help: false,
        },
        59 => Binding {
            context: KeyContext::Confirmation,
            key: KeySpec::Code(KeyCode::Esc),
            action: Action::Reject,
            display: "",
            description: "",
            group: "",
            show_in_footer: false,
            show_in_help: false,
        },
        60 => Binding {
            context: KeyContext::Confirmation,
            key: KeySpec::Char('h'),
            action: Action::ToggleChoice,
            display: "h/l/Tab",
            description: "change choice",
            group: "Confirmation",
            show_in_footer: true,
            show_in_help: true,
        },
        61 => Binding {
            context: KeyContext::Confirmation,
            key: KeySpec::Char('l'),
            action: Action::ToggleChoice,
            display: "",
            description: "",
            group: "",
            show_in_footer: false,
            show_in_help: false,
        },
        62 => Binding {
            context: KeyContext::Confirmation,
            key: KeySpec::Code(KeyCode::Left),
            action: Action::ToggleChoice,
            display: "",
            description: "",
            group: "",
            show_in_footer: false,
            show_in_help: false,
        },
        63 => Binding {
            context: KeyContext::Confirmation,
            key: KeySpec::Code(KeyCode::Right),
            action: Action::ToggleChoice,
            display: "",
            description: "",
            group: "",
            show_in_footer: false,
            show_in_help: false,
        },
        64 => Binding {
            context: KeyContext::Confirmation,
            key: KeySpec::Code(KeyCode::Tab),
            action: Action::ToggleChoice,
            display: "",
            description: "",
            group: "",
            show_in_footer: false,
            show_in_help: false,
        },
        65 => Binding {
            context: KeyContext::Confirmation,
            key: KeySpec::Code(KeyCode::BackTab),
            action: Action::ToggleChoice,
            display: "",
            description: "",
            group: "",
            show_in_footer: false,
            show_in_help: false,
        },
        66 => Binding {
            context: KeyContext::Goto,
            key: KeySpec::Char('w'),
            action: Action::GotoVisibleCard,
            display: "gw",
            description: "visible card",
            group: "Goto",
            show_in_footer: true,
            show_in_help: true,
        },
        67 => Binding {
            context: KeyContext::Goto,
            key: KeySpec::Char('g'),
            action: Action::GotoFirstCard,
            display: "gg",
            description: "first card",
            group: "Goto",
            show_in_footer: true,
            show_in_help: true,
        },
        68 => Binding {
            context: KeyContext::Goto,
            key: KeySpec::Char('e'),
            action: Action::GotoLastCard,
            display: "ge",
            description: "last card",
            group: "Goto",
            show_in_footer: true,
            show_in_help: true,
        },
        69 => Binding {
            context: KeyContext::Goto,
            key: KeySpec::Char('h'),
            action: Action::GotoFirstColumn,
            display: "gh",
            description: "first column",
            group: "Goto",
            show_in_footer: true,
            show_in_help: true,
        },
        70 => Binding {
            context: KeyContext::Goto,
            key: KeySpec::Char('l'),
            action: Action::GotoLastColumn,
            display: "gl",
            description: "last column",
            group: "Goto",
            show_in_footer: true,
            show_in_help: true,
        },
        71 => Binding {
            context: KeyContext::Goto,
            key: KeySpec::Code(KeyCode::Esc),
            action: Action::Close,
            display: "Esc",
            description: "cancel",
            group: "Goto",
            show_in_footer: true,
            show_in_help: true,
        },
        72 => Binding {
            context: KeyContext::Help,
            key: KeySpec::Char('k'),
            action: Action::ScrollUp,
            display: "j/k",
            description: "scroll",
            group: "Help",
            show_in_footer: true,
            show_in_help: true,
        },
        73 => Binding {
            context: KeyContext::Help,
            key: KeySpec::Char('j'),
            action: Action::ScrollDown,
            display: "",
            description: "",
            group: "",
            show_in_footer: false,
            show_in_help: false,
        },
        74 => Binding {
            context: KeyContext::Help,
            key: KeySpec::Code(KeyCode::Up),
            action: Action::ScrollUp,
            display: "",
            description: "",
            group: "",
            show_in_footer: false,
            show_in_help: false,
        },
        75 => Binding {
            context: KeyContext::Help,
            key: KeySpec::Code(KeyCode::Down),
            action: Action::ScrollDown,
            display: "",
            description: "",
            group: "",
            show_in_footer: false,
            show_in_help: false,
        },
        76 => Binding {
            context: KeyContext::Help,
            key: KeySpec::Char('?'),
            action: Action::Close,
            display: "?",
            description: "close",
            group: "Help",
            show_in_footer: true,
            show_in_help: true,
        },
        77 => Binding {
            context: KeyContext::Help,
            key: KeySpec::Code(KeyCode::Esc),
            action: Action::Close,
            display: "Esc",
            description: "close",
            group: "Help",
            show_in_footer: true,
            show_in_help: true,
        },
        78 => Binding {
            context: KeyContext::Annotations,
            key: KeySpec::Char('k'),
            action: Action::AnnotationPrevious,
            display: "j/k",
            description: "navigate",
            group: "Annotations",
            show_in_footer: true,
            show_in_help: true,
        },
        79 => Binding {
            context: KeyContext::Annotations,
            key: KeySpec::Char('j'),
            action: Action::AnnotationNext,
            display: "",
            description: "",
            group: "",
            show_in_footer: false,
            show_in_help: false,
        },
        80 => Binding {
            context: KeyContext::Annotations,
            key: KeySpec::Code(KeyCode::Up),
            action: Action::AnnotationPrevious,
            display: "",
            description: "",
            group: "",
            show_in_footer: false,
            show_in_help: false,
        },
        81 => Binding {
            context: KeyContext::Annotations,
            key: KeySpec::Code(KeyCode::Down),
            action: Action::AnnotationNext,
            display: "",
            description: "",
            group: "",
            show_in_footer: false,
            show_in_help: false,
        },
        82 => Binding {
            context: KeyContext::Annotations,
            key: KeySpec::Char(' '),
            action: Action::ToggleSelection,
            display: "Space",
            description: "select",
            group: "Annotations",
            show_in_footer: true,
            show_in_help: true,
        },
        83 => Binding {
            context: KeyContext::Annotations,
            key: KeySpec::Char('c'),
            action: Action::CreateFromAnnotations,
            display: "c",
            description: "create card",
            group: "Annotations",
            show_in_footer: true,
            show_in_help: true,
        },
        84 => Binding {
            context: KeyContext::Annotations,
            key: KeySpec::Char('i'),
            action: Action::IgnoreAnnotations,
            display: "i",
            description: "ignore",
            group: "Annotations",
            show_in_footer: true,
            show_in_help: true,
        },
        85 => Binding {
            context: KeyContext::Annotations,
            key: KeySpec::Char('f'),
            action: Action::CycleAnnotationFilter,
            display: "f",
            description: "filter",
            group: "Annotations",
            show_in_footer: true,
            show_in_help: true,
        },
        86 => Binding {
            context: KeyContext::Annotations,
            key: KeySpec::Ctrl('r'),
            action: Action::SyncAnnotations,
            display: "Ctrl+R",
            description: "rescan",
            group: "Annotations",
            show_in_footer: true,
            show_in_help: true,
        },
        _ => Binding {
            context: KeyContext::Annotations,
            key: KeySpec::Code(KeyCode::Esc),
            action: Action::Close,
            display: "Esc",
            description: "close",
            group: "Annotations",
            show_in_footer: true,
            show_in_help: true,
        },
    }
}

/// The action of the first row at or after `i` that listens in `context` for `input`.
pub open spec fn resolved_from(context: KeyContext, input: KeyInput, i: int) -> Option<Action>
    decreases BINDING_COUNT - i,
{
    if i >= BINDING_COUNT {
        None
    } else if binding_row(i as usize).context == context && binding_row(i as usize).key.accepts(input) {
        Some(binding_row(i as usize).action)
    } else {
        resolved_from(context, input, i + 1)
    }
}

/// The action of the first row of the table that listens in `context` for `input`.
pub open spec fn resolved(context: KeyContext, input: KeyInput) -> Option<Action> {
    resolved_from(context, input, 0)
}

proof fn lemma_resolved_from_row(context: KeyContext, input: KeyInput, i: int)
    requires
        0 <= i,
    ensures
        resolved_from(context, input, i) matches Some(a) ==> exists|r: int|
            i <= r < BINDING_COUNT && binding_row(r as usize).context == context && binding_row(
                r as usize,
            ).key.accepts(input) && #[trigger] binding_row(r as usize).action == a,
    decreases BINDING_COUNT - i,
{
    if i < BINDING_COUNT {
        lemma_resolved_from_row(context, input, i + 1);
    }
}

/// A key does only what a row of the table binds in the context it is pressed in: contexts
/// never lend each other their commands.
pub proof fn lemma_resolved_comes_from_context(context: KeyContext, input: KeyInput)
    ensures
        resolved(context, input) matches Some(a) ==> exists|r: int|
            0 <= r < BINDING_COUNT && binding_row(r as usize).context == context && binding_row(
                r as usize,
            ).key.accepts(input) && #[trigger] binding_row(r as usize).action == a,
{
    lemma_resolved_from_row(context, input, 0);
}

/// Saving is a command of forms only: in every other context no key saves.
pub proof fn lemma_save_only_in_forms(context: KeyContext, input: KeyInput)
    ensures
        resolved(context, input) == Some(Action::SaveForm) ==> context == KeyContext::Form,
{
    lemma_resolved_comes_from_context(context, input);
    assert forall|r: int| 0 <= r < BINDING_COUNT && #[trigger] binding_row(r as usize).action
        == Action::SaveForm implies binding_row(r as usize).context == KeyContext::Form by {
        assert(0 <= r < 88);
    }
}

/// The action that a key press asks for in a context, if any.
pub fn resolve(context: KeyContext, input: KeyInput) -> (r: Option<Action>)
    ensures
        r == resolved(context, input),
{
    let mut i: usize = 0;
    while i < BINDING_COUNT
        invariant
            i <= BINDING_COUNT,
            resolved(context, input) == resolved_from(context, input, i as int),
        decreases BINDING_COUNT - i,
    {
        let b = binding(i);
        if b.context == context && b.key.matches(input) {
            return Some(b.action);
        }
        i = i + 1;
    }
    None
}

/// The actions that the footer of a context lists; every shown action where there is no list.
pub open spec fn footer_prefers(context: KeyContext, action: Action) -> bool {
    match context {
        KeyContext::Board => action == Action::NewCard || action == Action::EditCard || action
            == Action::MoveCardsLeft || action == Action::MoveColumnLeft || action
            == Action::OpenMovePicker || action == Action::ToggleSelection || action
            == Action::EnterGoto || action == Action::ShowHelp || action
            == Action::SyncAnnotations || action == Action::Quit,
        KeyContext::Annotations => action == Action::AnnotationPrevious || action
            == Action::ToggleSelection || action == Action::CreateFromAnnotations || action
            == Action::IgnoreAnnotations || action == Action::CycleAnnotationFilter || action
            == Action::SyncAnnotations || action == Action::Close,
        _ => true,
    }
}

fn prefers(context: KeyContext, action: Action) -> (r: bool)
    ensures
        r == footer_prefers(context, action),
{
    match context {
        KeyContext::Board => action == Action::NewCard || action == Action::EditCard || action
            == Action::MoveCardsLeft || action == Action::MoveColumnLeft || action
            == Action::OpenMovePicker || action == Action::ToggleSelection || action
            == Action::EnterGoto || action == Action::ShowHelp || action
            == Action::SyncAnnotations || action == Action::Quit,
        KeyContext::Annotations => action == Action::AnnotationPrevious || action
            == Action::ToggleSelection || action == Action::CreateFromAnnotations || action
            == Action::IgnoreAnnotations || action == Action::CycleAnnotationFilter || action
            == Action::SyncAnnotations || action == Action::Close,
        _ => true,
    }
}

/// Whether a row appears in the footer of a context.
pub open spec fn in_footer(context: KeyContext, b: Binding) -> bool {
    b.context == context && b.show_in_footer && footer_prefers(context, b.action)
}

/// The footer entry of a row: its key, a space and its description.
pub open spec fn hint_text(b: Binding) -> Seq<char> {
    b.display@ + " "@ + b.description@
}

/// The footer entries of the first `n` rows, in table order.
pub open spec fn footer_entries(context: KeyContext, n: nat) -> Seq<Seq<char>>
    decreases n,
{
    if n == 0 {
        Seq::empty()
    } else if in_footer(context, binding_row((n - 1) as usize)) {
        footer_entries(context, (n - 1) as nat).push(hint_text(binding_row((n - 1) as usize)))
    } else {
        footer_entries(context, (n - 1) as nat)
    }
}

/// The footer line of a context: its entries, two spaces apart.
pub open spec fn footer_text(context: KeyContext) -> Seq<char> {
    join_seqs(footer_entries(context, BINDING_COUNT as nat), "  "@)
}

/// The footer line of a context, drawn from the key table.
pub fn footer_hints(context: KeyContext) -> (s: String)
    ensures
        s@ == footer_text(context),
{
    let mut s = String::new();
    let mut count: usize = 0;
    let mut i: usize = 0;
    while i < BINDING_COUNT
        invariant
            i <= BINDING_COUNT,
            count == footer_entries(context, i as nat).len(),
            count <= i,
            s@ == join_seqs(footer_entries(context, i as nat), "  "@),
        decreases BINDING_COUNT - i,
    {
        let b = binding(i);
        if b.context == context && b.show_in_footer && prefers(context, b.action) {
            let ghost before = s@;
            if count > 0 {
                push_str(&mut s, "  ");
            }
            push_str(&mut s, b.display);
            push_str(&mut s, " ");
            push_str(&mut s, b.description);
            proof {
                lemma_join_push(footer_entries(context, i as nat), hint_text(b), "  "@);
                if count > 0 {
                    assert(s@ =~= before + "  "@ + hint_text(b));
                } else {
                    assert(s@ =~= hint_text(b));
                }
            }
            count = count + 1;
        }
        i = i + 1;
    }
    s
}

/// `s` padded with spaces on the right to `width` characters.
pub open spec fn padded(s: Seq<char>, width: nat) -> Seq<char> {
    if s.len() < width {
        s + Seq::new((width - s.len()) as nat, |_k: int| ' ')
    } else {
        s
    }
}

/// The help line of a row: indented key, padded to twelve characters, then the description.
pub open spec fn help_row(b: Binding) -> Seq<char> {
    "  "@ + padded(b.display@, 12) + " "@ + b.description@
}

/// Whether a row is listed in a help section of a context, restricted to a group if one is
/// given.
pub open spec fn in_help(context: KeyContext, group: Option<Seq<char>>, b: Binding) -> bool {
    &&& b.context == context
    &&& b.show_in_help
    &&& match group {
        Some(g) => b.group@ == g,
        None => true,
    }
}

/// The help lines of the first `n` rows that a section lists.
pub open spec fn help_rows(context: KeyContext, group: Option<Seq<char>>, n: nat) -> Seq<
    Seq<char>,
>
    decreases n,
{
    if n == 0 {
        Seq::empty()
    } else if in_help(context, group, binding_row((n - 1) as usize)) {
        help_rows(context, group, (n - 1) as nat).push(help_row(binding_row((n - 1) as usize)))
    } else {
        help_rows(context, group, (n - 1) as nat)
    }
}

/// A help section: its title, then its rows.
pub open spec fn help_section(title: Seq<char>, context: KeyContext, group: Option<
    Seq<char>,
>) -> Seq<Seq<char>> {
    seq![title] + help_rows(context, group, BINDING_COUNT as nat)
}

/// The help section of one group of board keys; the group's name is its title.
pub open spec fn board_section(group: Seq<char>) -> Seq<Seq<char>> {
    help_section(group, KeyContext::Board, Some(group))
}

/// The help screen: the board groups, then the goto keys and the form keys, sections
/// separated by an empty line.
pub open spec fn help_text() -> Seq<Seq<char>> {
    let blank = seq![Seq::<char>::empty()];
    board_section("Navigation"@) + blank + board_section("Cards"@) + blank + board_section(
        "Movement"@,
    ) + blank + board_section("Selection"@) + blank + board_section("Columns"@) + blank
        + board_section("Global"@) + blank + help_section("Goto"@, KeyContext::Goto, None)
        + blank + help_section("Forms"@, KeyContext::Form, None)
}

/// The characters of each string.
pub open spec fn string_views(v: Seq<String>) -> Seq<Seq<char>> {
    v.map_values(|s: String| s@)
}

fn help_line(b: Binding) -> (s: String)
    ensures
        s@ == help_row(b),
{
    let mut s = String::new();
    push_str(&mut s, "  ");
    push_str(&mut s, b.display);
    let ghost start = s@;
    let n = b.display.unicode_len();
    let mut k: usize = n;
    while k < 12
        invariant
            n == b.display@.len(),
            n <= k,
            k <= 12 || k == n,
            s@ == start + Seq::new((k - n) as nat, |_j: int| ' '),
        decreases 12 - k,
    {
        let ghost prev = s@;
        push_char(&mut s, ' ');
        k = k + 1;
        assert(s@ =~= start + Seq::new((k - n) as nat, |_j: int| ' '));
    }
    assert(start + Seq::new((k - n) as nat, |_j: int| ' ') =~= "  "@ + padded(b.display@, 12));
    push_str(&mut s, " ");
    push_str(&mut s, b.description);
    assert(s@ =~= help_row(b));
    s
}

fn push_help_section(lines: &mut Vec<String>, title: &str, context: KeyContext, by_group: bool)
    ensures
        string_views(final(lines)@) == string_views(old(lines)@) + help_section(
            title@,
            context,
            if by_group {
                Some(title@)
            } else {
                None
            },
        ),
{
    let ghost group = if by_group {
        Some(title@)
    } else {
        None
    };
    let ghost start = string_views(lines@);
    lines.push(owned(title));
    assert(string_views(lines@) =~= start + seq![title@] + help_rows(context, group, 0));
    let mut i: usize = 0;
    while i < BINDING_COUNT
        invariant
            i <= BINDING_COUNT,
            string_views(lines@) == start + seq![title@] + help_rows(context, group, i as nat),
        decreases BINDING_COUNT - i,
    {
        let b = binding(i);
        let ghost before = string_views(lines@);
        let shown = b.context == context && b.show_in_help && (!by_group || str_eq(
            b.group,
            title,
        ));
        assert(((i + 1) as nat - 1) as usize == i);
        if shown {
            let line = help_line(b);
            lines.push(line);
            assert(string_views(lines@) =~= before.push(help_row(b)));
        }
        i = i + 1;
    }
}

fn push_blank(lines: &mut Vec<String>)
    ensures
        string_views(final(lines)@) == string_views(old(lines)@) + seq![Seq::<char>::empty()],
{
    lines.push(String::new());
    assert(string_views(lines@) =~= string_views(old(lines)@) + seq![Seq::<char>::empty()]);
}

/// The lines of the help screen, drawn from the key table.
pub fn help_lines() -> (lines: Vec<String>)
    ensures
        string_views(lines@) == help_text(),
{
    let mut lines: Vec<String> = Vec::new();
    push_help_section(&mut lines, "Navigation", KeyContext::Board, true);
    push_blank(&mut lines);
    push_help_section(&mut lines, "Cards", KeyContext::Board, true);
    push_blank(&mut lines);
    push_help_section(&mut lines, "Movement", KeyContext::Board, true);
    push_blank(&mut lines);
    push_help_section(&mut lines, "Selection", KeyContext::Board, true);
    push_blank(&mut lines);
    push_help_section(&mut lines, "Columns", KeyContext::Board, true);
    push_blank(&mut lines);
    push_help_section(&mut lines, "Global", KeyContext::Board, true);
    push_blank(&mut lines);
    push_help_section(&mut lines, "Goto", KeyContext::Goto, false);
    push_blank(&mut lines);
    push_help_section(&mut lines, "Forms", KeyContext::Form, false);
    assert(string_views(lines@) =~= help_text());
    lines
}


/// A key press of the key with neither Control nor Alt held.
pub open spec fn plain_key(code: KeyCode) -> KeyInput {
    KeyInput { code, control: false, alt: false }
}

/// The context of each row of the key table: the rows of a context stand together.
pub open spec fn row_context(q: int) -> KeyContext {
    if q < 28 {
        KeyContext::Board
    } else if q < 45 {
        KeyContext::Details
    } else if q < 50 {
        KeyContext::Form
    } else if q < 56 {
        KeyContext::Picker
    } else if q < 66 {
        KeyContext::Confirmation
    } else if q < 72 {
        KeyContext::Goto
    } else if q < 78 {
        KeyContext::Help
    } else {
        KeyContext::Annotations
    }
}

proof fn lemma_row_contexts()
    ensures
        forall|q: int| 0 <= q < BINDING_COUNT ==> #[trigger] binding_row(q as usize).context == row_context(q),
{
    assert forall|q: int| 0 <= q < BINDING_COUNT implies #[trigger] binding_row(q as usize).context
        == row_context(q) by {
        assert(0 <= q < 88);
    }
}

/// Rows of other contexts do not decide what a key does.
proof fn lemma_skip_other_rows(context: KeyContext, input: KeyInput, i: int, r: int)
    requires
        0 <= i <= r <= BINDING_COUNT,
        forall|q: int| i <= q < r ==> row_context(q) != context,
    ensures
        resolved_from(context, input, i) == resolved_from(context, input, r),
    decreases r - i,
{
    if i < r {
        lemma_row_contexts();
        assert(binding_row(i as usize).context == row_context(i));
        lemma_skip_other_rows(context, input, i + 1, r);
    }
}

/// The vim keys are the arrows under other names: in every context a plain `k` does what
/// the Up key does and a plain `j` what the Down key does; where they do something, `j` and
/// `k` do different things; and on the board the Up key moves the focus up and the Down key
/// moves it down.
pub proof fn lemma_vim_keys_are_arrows(context: KeyContext)
    ensures
        resolved(context, plain_key(KeyCode::Char('k'))) == resolved(context, plain_key(KeyCode::Up)),
        resolved(context, plain_key(KeyCode::Char('j'))) == resolved(
            context,
            plain_key(KeyCode::Down),
        ),
        resolved(context, plain_key(KeyCode::Char('k'))) is Some ==> resolved(
            context,
            plain_key(KeyCode::Char('k')),
        ) != resolved(context, plain_key(KeyCode::Char('j'))),
        resolved(KeyContext::Board, plain_key(KeyCode::Up)) == Some(Action::MoveFocusUp),
        resolved(KeyContext::Board, plain_key(KeyCode::Down)) == Some(Action::MoveFocusDown),
{
    lemma_board_arrows();
    match context {
        KeyContext::Board => {
            lemma_skip_other_rows(KeyContext::Board, plain_key(KeyCode::Char('k')), 0, 0);
            assert(resolved_from(KeyContext::Board, plain_key(KeyCode::Char('k')), 0) == resolved_from(KeyContext::Board, plain_key(KeyCode::Char('k')), 1));
            assert(resolved_from(KeyContext::Board, plain_key(KeyCode::Char('k')), 1) == resolved_from(KeyContext::Board, plain_key(KeyCode::Char('k')), 2));
            assert(resolved_from(KeyContext::Board, plain_key(KeyCode::Char('k')), 2) == Some(Action::MoveFocusUp));
            lemma_skip_other_rows(KeyContext::Board, plain_key(KeyCode::Up), 0, 0);
            assert(resolved_from(KeyContext::Board, plain_key(KeyCode::Up), 0) == resolved_from(KeyContext::Board, plain_key(KeyCode::Up), 1));
            assert(resolved_from(KeyContext::Board, plain_key(KeyCode::Up), 1) == resolved_from(KeyContext::Board, plain_key(KeyCode::Up), 2));
            assert(resolved_from(KeyContext::Board, plain_key(KeyCode::Up), 2) == resolved_from(KeyContext::Board, plain_key(KeyCode::Up), 3));
            assert(resolved_from(KeyContext::Board, plain_key(KeyCode::Up), 3) == resolved_from(KeyContext::Board, plain_key(KeyCode::Up), 4));
            assert(resolved_from(KeyContext::Board, plain_key(KeyCode::Up), 4) == resolved_from(KeyContext::Board, plain_key(KeyCode::Up), 5));
            assert(resolved_from(KeyContext::Board, plain_key(KeyCode::Up), 5) == resolved_from(KeyContext::Board, plain_key(KeyCode::Up), 6));
            assert(resolved_from(KeyContext::Board, plain_key(KeyCode::Up), 6) == Some(Action::MoveFocusUp));
            lemma_skip_other_rows(KeyContext::Board, plain_key(KeyCode::Char('j')), 0, 0);
            assert(resolved_from(KeyContext::Board, plain_key(KeyCode::Char('j')), 0) == resolved_from(KeyContext::Board, plain_key(KeyCode::Char('j')), 1));
            assert(resolved_from(KeyContext::Board, plain_key(KeyCode::Char('j')), 1) == Some(Action::MoveFocusDown));
            lemma_skip_other_rows(KeyContext::Board, plain_key(KeyCode::Down), 0, 0);
            assert(resolved_from(KeyContext::Board, plain_key(KeyCode::Down), 0) == resolved_from(KeyContext::Board, plain_key(KeyCode::Down), 1));
            assert(resolved_from(KeyContext::Board, plain_key(KeyCode::Down), 1) == resolved_from(KeyContext::Board, plain_key(KeyCode::Down), 2));
            assert(resolved_from(KeyContext::Board, plain_key(KeyCode::Down), 2) == resolved_from(KeyContext::Board, plain_key(KeyCode::Down), 3));
            assert(resolved_from(KeyContext::Board, plain_key(KeyCode::Down), 3) == resolved_from(KeyContext::Board, plain_key(KeyCode::Down), 4));
            assert(resolved_from(KeyContext::Board, plain_key(KeyCode::Down), 4) == resolved_from(KeyContext::Board, plain_key(KeyCode::Down), 5));
            assert(resolved_from(KeyContext::Board, plain_key(KeyCode::Down), 5) == resolved_from(KeyContext::Board, plain_key(KeyCode::Down), 6));
            assert(resolved_from(KeyContext::Board, plain_key(KeyCode::Down), 6) == resolved_from(KeyContext::Board, plain_key(KeyCode::Down), 7));
            assert(resolved_from(KeyContext::Board, plain_key(KeyCode::Down), 7) == Some(Action::MoveFocusDown));
        },
        KeyContext::Details => {
            lemma_skip_other_rows(KeyContext::Details, plain_key(KeyCode::Char('k')), 0, 28);
            assert(resolved_from(KeyContext::Details, plain_key(KeyCode::Char('k')), 28) == resolved_from(KeyContext::Details, plain_key(KeyCode::Char('k')), 29));
            assert(resolved_from(KeyContext::Details, plain_key(KeyCode::Char('k')), 29) == resolved_from(KeyContext::Details, plain_key(KeyCode::Char('k')), 30));
            assert(resolved_from(KeyContext::Details, plain_key(KeyCode::Char('k')), 30) == Some(Action::MoveFocusUp));
            lemma_skip_other_rows(KeyContext::Details, plain_key(KeyCode::Up), 0, 28);
            assert(resolved_from(KeyContext::Details, plain_key(KeyCode::Up), 28) == resolved_from(KeyContext::Details, plain_key(KeyCode::Up), 29));
            assert(resolved_from(KeyContext::Details, plain_key(KeyCode::Up), 29) == resolved_from(KeyContext::Details, plain_key(KeyCode::Up), 30));
            assert(resolved_from(KeyContext::Details, plain_key(KeyCode::Up), 30) == resolved_from(KeyContext::Details, plain_key(KeyCode::Up), 31));
            assert(resolved_from(KeyContext::Details, plain_key(KeyCode::Up), 31) == resolved_from(KeyContext::Details, plain_key(KeyCode::Up), 32));
            assert(resolved_from(KeyContext::Details, plain_key(KeyCode::Up), 32) == resolved_from(KeyContext::Details, plain_key(KeyCode::Up), 33));
            assert(resolved_from(KeyContext::Details, plain_key(KeyCode::Up), 33) == resolved_from(KeyContext::Details, plain_key(KeyCode::Up), 34));
            assert(resolved_from(KeyContext::Details, plain_key(KeyCode::Up), 34) == Some(Action::MoveFocusUp));
            lemma_skip_other_rows(KeyContext::Details, plain_key(KeyCode::Char('j')), 0, 28);
            assert(resolved_from(KeyContext::Details, plain_key(KeyCode::Char('j')), 28) == resolved_from(KeyContext::Details, plain_key(KeyCode::Char('j')), 29));
            assert(resolved_from(KeyContext::Details, plain_key(KeyCode::Char('j')), 29) == Some(Action::MoveFocusDown));
            lemma_skip_other_rows(KeyContext::Details, plain_key(KeyCode::Down), 0, 28);
            assert(resolved_from(KeyContext::Details, plain_key(KeyCode::Down), 28) == resolved_from(KeyContext::Details, plain_key(KeyCode::Down), 29));
            assert(resolved_from(KeyContext::Details, plain_key(KeyCode::Down), 29) == resolved_from(KeyContext::Details, plain_key(KeyCode::Down), 30));
            assert(resolved_from(KeyContext::Details, plain_key(KeyCode::Down), 30) == resolved_from(KeyContext::Details, plain_key(KeyCode::Down), 31));
            assert(resolved_from(KeyContext::Details, plain_key(KeyCode::Down), 31) == resolved_from(KeyContext::Details, plain_key(KeyCode::Down), 32));
            assert(resolved_from(KeyContext::Details, plain_key(KeyCode::Down), 32) == resolved_from(KeyContext::Details, plain_key(KeyCode::Down), 33));
            assert(resolved_from(KeyContext::Details, plain_key(KeyCode::Down), 33) == resolved_from(KeyContext::Details, plain_key(KeyCode::Down), 34));
            assert(resolved_from(KeyContext::Details, plain_key(KeyCode::Down), 34) == resolved_from(KeyContext::Details, plain_key(KeyCode::Down), 35));
            assert(resolved_from(KeyContext::Details, plain_key(KeyCode::Down), 35) == Some(Action::MoveFocusDown));
        },
        KeyContext::Form => {
            lemma_skip_other_rows(KeyContext::Form, plain_key(KeyCode::Char('k')), 0, 45);
            assert(resolved_from(KeyContext::Form, plain_key(KeyCode::Char('k')), 45) == resolved_from(KeyContext::Form, plain_key(KeyCode::Char('k')), 46));
            assert(resolved_from(KeyContext::Form, plain_key(KeyCode::Char('k')), 46) == resolved_from(KeyContext::Form, plain_key(KeyCode::Char('k')), 47));
            assert(resolved_from(KeyContext::Form, plain_key(KeyCode::Char('k')), 47) == resolved_from(KeyContext::Form, plain_key(KeyCode::Char('k')), 48));
            assert(resolved_from(KeyContext::Form, plain_key(KeyCode::Char('k')), 48) == resolved_from(KeyContext::Form, plain_key(KeyCode::Char('k')), 49));
            assert(resolved_from(KeyContext::Form, plain_key(KeyCode::Char('k')), 49) == resolved_from(KeyContext::Form, plain_key(KeyCode::Char('k')), 50));
            lemma_skip_other_rows(KeyContext::Form, plain_key(KeyCode::Char('k')), 50, 88);
            assert(resolved_from(KeyContext::Form, plain_key(KeyCode::Char('k')), 88) is None);
            lemma_skip_other_rows(KeyContext::Form, plain_key(KeyCode::Up), 0, 45);
            assert(resolved_from(KeyContext::Form, plain_key(KeyCode::Up), 45) == resolved_from(KeyContext::Form, plain_key(KeyCode::Up), 46));
            assert(resolved_from(KeyContext::Form, plain_key(KeyCode::Up), 46) == resolved_from(KeyContext::Form, plain_key(KeyCode::Up), 47));
            assert(resolved_from(KeyContext::Form, plain_key(KeyCode::Up), 47) == resolved_from(KeyContext::Form, plain_key(KeyCode::Up), 48));
            assert(resolved_from(KeyContext::Form, plain_key(KeyCode::Up), 48) == resolved_from(KeyContext::Form, plain_key(KeyCode::Up), 49));
            assert(resolved_from(KeyContext::Form, plain_key(KeyCode::Up), 49) == resolved_from(KeyContext::Form, plain_key(KeyCode::Up), 50));
            lemma_skip_other_rows(KeyContext::Form, plain_key(KeyCode::Up), 50, 88);
            assert(resolved_from(KeyContext::Form, plain_key(KeyCode::Up), 88) is None);
            lemma_skip_other_rows(KeyContext::Form, plain_key(KeyCode::Char('j')), 0, 45);
            assert(resolved_from(KeyContext::Form, plain_key(KeyCode::Char('j')), 45) == resolved_from(KeyContext::Form, plain_key(KeyCode::Char('j')), 46));
            assert(resolved_from(KeyContext::Form, plain_key(KeyCode::Char('j')), 46) == resolved_from(KeyContext::Form, plain_key(KeyCode::Char('j')), 47));
            assert(resolved_from(KeyContext::Form, plain_key(KeyCode::Char('j')), 47) == resolved_from(KeyContext::Form, plain_key(KeyCode::Char('j')), 48));
            assert(resolved_from(KeyContext::Form, plain_key(KeyCode::Char('j')), 48) == resolved_from(KeyContext::Form, plain_key(KeyCode::Char('j')), 49));
            assert(resolved_from(KeyContext::Form, plain_key(KeyCode::Char('j')), 49) == resolved_from(KeyContext::Form, plain_key(KeyCode::Char('j')), 50));
            lemma_skip_other_rows(KeyContext::Form, plain_key(KeyCode::Char('j')), 50, 88);
            assert(resolved_from(KeyContext::Form, plain_key(KeyCode::Char('j')), 88) is None);
            lemma_skip_other_rows(KeyContext::Form, plain_key(KeyCode::Down), 0, 45);
            assert(resolved_from(KeyContext::Form, plain_key(KeyCode::Down), 45) == resolved_from(KeyContext::Form, plain_key(KeyCode::Down), 46));
            assert(resolved_from(KeyContext::Form, plain_key(KeyCode::Down), 46) == resolved_from(KeyContext::Form, plain_key(KeyCode::Down), 47));
            assert(resolved_from(KeyContext::Form, plain_key(KeyCode::Down), 47) == resolved_from(KeyContext::Form, plain_key(KeyCode::Down), 48));
            assert(resolved_from(KeyContext::Form, plain_key(KeyCode::Down), 48) == resolved_from(KeyContext::Form, plain_key(KeyCode::Down), 49));
            assert(resolved_from(KeyContext::Form, plain_key(KeyCode::Down), 49) == resolved_from(KeyContext::Form, plain_key(KeyCode::Down), 50));
            lemma_skip_other_rows(KeyContext::Form, plain_key(KeyCode::Down), 50, 88);
            assert(resolved_from(KeyContext::Form, plain_key(KeyCode::Down), 88) is None);
        },
        KeyContext::Picker => {
            lemma_skip_other_rows(KeyContext::Picker, plain_key(KeyCode::Char('k')), 0, 50);
            assert(resolved_from(KeyContext::Picker, plain_key(KeyCode::Char('k')), 50) == Some(Action::SelectPrevious));
            lemma_skip_other_rows(KeyContext::Picker, plain_key(KeyCode::Up), 0, 50);
            assert(resolved_from(KeyContext::Picker, plain_key(KeyCode::Up), 50) == resolved_from(KeyContext::Picker, plain_key(KeyCode::Up), 51));
            assert(resolved_from(KeyContext::Picker, plain_key(KeyCode::Up), 51) == resolved_from(KeyContext::Picker, plain_key(KeyCode::Up), 52));
            assert(resolved_from(KeyContext::Picker, plain_key(KeyCode::Up), 52) == Some(Action::SelectPrevious));
            lemma_skip_other_rows(KeyContext::Picker, plain_key(KeyCode::Char('j')), 0, 50);
            assert(resolved_from(KeyContext::Picker, plain_key(KeyCode::Char('j')), 50) == resolved_from(KeyContext::Picker, plain_key(KeyCode::Char('j')), 51));
            assert(resolved_from(KeyContext::Picker, plain_key(KeyCode::Char('j')), 51) == Some(Action::SelectNext));
            lemma_skip_other_rows(KeyContext::Picker, plain_key(KeyCode::Down), 0, 50);
            assert(resolved_from(KeyContext::Picker, plain_key(KeyCode::Down), 50) == resolved_from(KeyContext::Picker, plain_key(KeyCode::Down), 51));
            assert(resolved_from(KeyContext::Picker, plain_key(KeyCode::Down), 51) == resolved_from(KeyContext::Picker, plain_key(KeyCode::Down), 52));
            assert(resolved_from(KeyContext::Picker, plain_key(KeyCode::Down), 52) == resolved_from(KeyContext::Picker, plain_key(KeyCode::Down), 53));
            assert(resolved_from(KeyContext::Picker, plain_key(KeyCode::Down), 53) == Some(Action::SelectNext));
        },
        KeyContext::Confirmation => {
            lemma_skip_other_rows(KeyContext::Confirmation, plain_key(KeyCode::Char('k')), 0, 56);
            assert(resolved_from(KeyContext::Confirmation, plain_key(KeyCode::Char('k')), 56) == resolved_from(KeyContext::Confirmation, plain_key(KeyCode::Char('k')), 57));
            assert(resolved_from(KeyContext::Confirmation, plain_key(KeyCode::Char('k')), 57) == resolved_from(KeyContext::Confirmation, plain_key(KeyCode::Char('k')), 58));
            assert(resolved_from(KeyContext::Confirmation, plain_key(KeyCode::Char('k')), 58) == resolved_from(KeyContext::Confirmation, plain_key(KeyCode::Char('k')), 59));
            assert(resolved_from(KeyContext::Confirmation, plain_key(KeyCode::Char('k')), 59) == resolved_from(KeyContext::Confirmation, plain_key(KeyCode::Char('k')), 60));
            assert(resolved_from(KeyContext::Confirmation, plain_key(KeyCode::Char('k')), 60) == resolved_from(KeyContext::Confirmation, plain_key(KeyCode::Char('k')), 61));
            assert(resolved_from(KeyContext::Confirmation, plain_key(KeyCode::Char('k')), 61) == resolved_from(KeyContext::Confirmation, plain_key(KeyCode::Char('k')), 62));
            assert(resolved_from(KeyContext::Confirmation, plain_key(KeyCode::Char('k')), 62) == resolved_from(KeyContext::Confirmation, plain_key(KeyCode::Char('k')), 63));
            assert(resolved_from(KeyContext::Confirmation, plain_key(KeyCode::Char('k')), 63) == resolved_from(KeyContext::Confirmation, plain_key(KeyCode::Char('k')), 64));
            assert(resolved_from(KeyContext::Confirmation, plain_key(KeyCode::Char('k')), 64) == resolved_from(KeyContext::Confirmation, plain_key(KeyCode::Char('k')), 65));
            assert(resolved_from(KeyContext::Confirmation, plain_key(KeyCode::Char('k')), 65) == resolved_from(KeyContext::Confirmation, plain_key(KeyCode::Char('k')), 66));
            lemma_skip_other_rows(KeyContext::Confirmation, plain_key(KeyCode::Char('k')), 66, 88);
            assert(resolved_from(KeyContext::Confirmation, plain_key(KeyCode::Char('k')), 88) is None);
            lemma_skip_other_rows(KeyContext::Confirmation, plain_key(KeyCode::Up), 0, 56);
            assert(resolved_from(KeyContext::Confirmation, plain_key(KeyCode::Up), 56) == resolved_from(KeyContext::Confirmation, plain_key(KeyCode::Up), 57));
            assert(resolved_from(KeyContext::Confirmation, plain_key(KeyCode::Up), 57) == resolved_from(KeyContext::Confirmation, plain_key(KeyCode::Up), 58));
            assert(resolved_from(KeyContext::Confirmation, plain_key(KeyCode::Up), 58) == resolved_from(KeyContext::Confirmation, plain_key(KeyCode::Up), 59));
            assert(resolved_from(KeyContext::Confirmation, plain_key(KeyCode::Up), 59) == resolved_from(KeyContext::Confirmation, plain_key(KeyCode::Up), 60));
            assert(resolved_from(KeyContext::Confirmation, plain_key(KeyCode::Up), 60) == resolved_from(KeyContext::Confirmation, plain_key(KeyCode::Up), 61));
            assert(resolved_from(KeyContext::Confirmation, plain_key(KeyCode::Up), 61) == resolved_from(KeyContext::Confirmation, plain_key(KeyCode::Up), 62));
            assert(resolved_from(KeyContext::Confirmation, plain_key(KeyCode::Up), 62) == resolved_from(KeyContext::Confirmation, plain_key(KeyCode::Up), 63));
            assert(resolved_from(KeyContext::Confirmation, plain_key(KeyCode::Up), 63) == resolved_from(KeyContext::Confirmation, plain_key(KeyCode::Up), 64));
            assert(resolved_from(KeyContext::Confirmation, plain_key(KeyCode::Up), 64) == resolved_from(KeyContext::Confirmation, plain_key(KeyCode::Up), 65));
            assert(resolved_from(KeyContext::Confirmation, plain_key(KeyCode::Up), 65) == resolved_from(KeyContext::Confirmation, plain_key(KeyCode::Up), 66));
            lemma_skip_other_rows(KeyContext::Confirmation, plain_key(KeyCode::Up), 66, 88);
            assert(resolved_from(KeyContext::Confirmation, plain_key(KeyCode::Up), 88) is None);
            lemma_skip_other_rows(KeyContext::Confirmation, plain_key(KeyCode::Char('j')), 0, 56);
            assert(resolved_from(KeyContext::Confirmation, plain_key(KeyCode::Char('j')), 56) == resolved_from(KeyContext::Confirmation, plain_key(KeyCode::Char('j')), 57));
            assert(resolved_from(KeyContext::Confirmation, plain_key(KeyCode::Char('j')), 57) == resolved_from(KeyContext::Confirmation, plain_key(KeyCode::Char('j')), 58));
            assert(resolved_from(KeyContext::Confirmation, plain_key(KeyCode::Char('j')), 58) == resolved_from(KeyContext::Confirmation, plain_key(KeyCode::Char('j')), 59));
            assert(resolved_from(KeyContext::Confirmation, plain_key(KeyCode::Char('j')), 59) == resolved_from(KeyContext::Confirmation, plain_key(KeyCode::Char('j')), 60));
            assert(resolved_from(KeyContext::Confirmation, plain_key(KeyCode::Char('j')), 60) == resolved_from(KeyContext::Confirmation, plain_key(KeyCode::Char('j')), 61));
            assert(resolved_from(KeyContext::Confirmation, plain_key(KeyCode::Char('j')), 61) == resolved_from(KeyContext::Confirmation, plain_key(KeyCode::Char('j')), 62));
            assert(resolved_from(KeyContext::Confirmation, plain_key(KeyCode::Char('j')), 62) == resolved_from(KeyContext::Confirmation, plain_key(KeyCode::Char('j')), 63));
            assert(resolved_from(KeyContext::Confirmation, plain_key(KeyCode::Char('j')), 63) == resolved_from(KeyContext::Confirmation, plain_key(KeyCode::Char('j')), 64));
            assert(resolved_from(KeyContext::Confirmation, plain_key(KeyCode::Char('j')), 64) == resolved_from(KeyContext::Confirmation, plain_key(KeyCode::Char('j')), 65));
            assert(resolved_from(KeyContext::Confirmation, plain_key(KeyCode::Char('j')), 65) == resolved_from(KeyContext::Confirmation, plain_key(KeyCode::Char('j')), 66));
            lemma_skip_other_rows(KeyContext::Confirmation, plain_key(KeyCode::Char('j')), 66, 88);
            assert(resolved_from(KeyContext::Confirmation, plain_key(KeyCode::Char('j')), 88) is None);
            lemma_skip_other_rows(KeyContext::Confirmation, plain_key(KeyCode::Down), 0, 56);
            assert(resolved_from(KeyContext::Confirmation, plain_key(KeyCode::Down), 56) == resolved_from(KeyContext::Confirmation, plain_key(KeyCode::Down), 57));
            assert(resolved_from(KeyContext::Confirmation, plain_key(KeyCode::Down), 57) == resolved_from(KeyContext::Confirmation, plain_key(KeyCode::Down), 58));
            assert(resolved_from(KeyContext::Confirmation, plain_key(KeyCode::Down), 58) == resolved_from(KeyContext::Confirmation, plain_key(KeyCode::Down), 59));
            assert(resolved_from(KeyContext::Confirmation, plain_key(KeyCode::Down), 59) == resolved_from(KeyContext::Confirmation, plain_key(KeyCode::Down), 60));
            assert(resolved_from(KeyContext::Confirmation, plain_key(KeyCode::Down), 60) == resolved_from(KeyContext::Confirmation, plain_key(KeyCode::Down), 61));
            assert(resolved_from(KeyContext::Confirmation, plain_key(KeyCode::Down), 61) == resolved_from(KeyContext::Confirmation, plain_key(KeyCode::Down), 62));
            assert(resolved_from(KeyContext::Confirmation, plain_key(KeyCode::Down), 62) == resolved_from(KeyContext::Confirmation, plain_key(KeyCode::Down), 63));
            assert(resolved_from(KeyContext::Confirmation, plain_key(KeyCode::Down), 63) == resolved_from(KeyContext::Confirmation, plain_key(KeyCode::Down), 64));
            assert(resolved_from(KeyContext::Confirmation, plain_key(KeyCode::Down), 64) == resolved_from(KeyContext::Confirmation, plain_key(KeyCode::Down), 65));
            assert(resolved_from(KeyContext::Confirmation, plain_key(KeyCode::Down), 65) == resolved_from(KeyContext::Confirmation, plain_key(KeyCode::Down), 66));
            lemma_skip_other_rows(KeyContext::Confirmation, plain_key(KeyCode::Down), 66, 88);
            assert(resolved_from(KeyContext::Confirmation, plain_key(KeyCode::Down), 88) is None);
        },
        KeyContext::Goto => {
            lemma_skip_other_rows(KeyContext::Goto, plain_key(KeyCode::Char('k')), 0, 66);
            assert(resolved_from(KeyContext::Goto, plain_key(KeyCode::Char('k')), 66) == resolved_from(KeyContext::Goto, plain_key(KeyCode::Char('k')), 67));
            assert(resolved_from(KeyContext::Goto, plain_key(KeyCode::Char('k')), 67) == resolved_from(KeyContext::Goto, plain_key(KeyCode::Char('k')), 68));
            assert(resolved_from(KeyContext::Goto, plain_key(KeyCode::Char('k')), 68) == resolved_from(KeyContext::Goto, plain_key(KeyCode::Char('k')), 69));
            assert(resolved_from(KeyContext::Goto, plain_key(KeyCode::Char('k')), 69) == resolved_from(KeyContext::Goto, plain_key(KeyCode::Char('k')), 70));
            assert(resolved_from(KeyContext::Goto, plain_key(KeyCode::Char('k')), 70) == resolved_from(KeyContext::Goto, plain_key(KeyCode::Char('k')), 71));
            assert(resolved_from(KeyContext::Goto, plain_key(KeyCode::Char('k')), 71) == resolved_from(KeyContext::Goto, plain_key(KeyCode::Char('k')), 72));
            lemma_skip_other_rows(KeyContext::Goto, plain_key(KeyCode::Char('k')), 72, 88);
            assert(resolved_from(KeyContext::Goto, plain_key(KeyCode::Char('k')), 88) is None);
            lemma_skip_other_rows(KeyContext::Goto, plain_key(KeyCode::Up), 0, 66);
            assert(resolved_from(KeyContext::Goto, plain_key(KeyCode::Up), 66) == resolved_from(KeyContext::Goto, plain_key(KeyCode::Up), 67));
            assert(resolved_from(KeyContext::Goto, plain_key(KeyCode::Up), 67) == resolved_from(KeyContext::Goto, plain_key(KeyCode::Up), 68));
            assert(resolved_from(KeyContext::Goto, plain_key(KeyCode::Up), 68) == resolved_from(KeyContext::Goto, plain_key(KeyCode::Up), 69));
            assert(resolved_from(KeyContext::Goto, plain_key(KeyCode::Up), 69) == resolved_from(KeyContext::Goto, plain_key(KeyCode::Up), 70));
            assert(resolved_from(KeyContext::Goto, plain_key(KeyCode::Up), 70) == resolved_from(KeyContext::Goto, plain_key(KeyCode::Up), 71));
            assert(resolved_from(KeyContext::Goto, plain_key(KeyCode::Up), 71) == resolved_from(KeyContext::Goto, plain_key(KeyCode::Up), 72));
            lemma_skip_other_rows(KeyContext::Goto, plain_key(KeyCode::Up), 72, 88);
            assert(resolved_from(KeyContext::Goto, plain_key(KeyCode::Up), 88) is None);
            lemma_skip_other_rows(KeyContext::Goto, plain_key(KeyCode::Char('j')), 0, 66);
            assert(resolved_from(KeyContext::Goto, plain_key(KeyCode::Char('j')), 66) == resolved_from(KeyContext::Goto, plain_key(KeyCode::Char('j')), 67));
            assert(resolved_from(KeyContext::Goto, plain_key(KeyCode::Char('j')), 67) == resolved_from(KeyContext::Goto, plain_key(KeyCode::Char('j')), 68));
            assert(resolved_from(KeyContext::Goto, plain_key(KeyCode::Char('j')), 68) == resolved_from(KeyContext::Goto, plain_key(KeyCode::Char('j')), 69));
            assert(resolved_from(KeyContext::Goto, plain_key(KeyCode::Char('j')), 69) == resolved_from(KeyContext::Goto, plain_key(KeyCode::Char('j')), 70));
            assert(resolved_from(KeyContext::Goto, plain_key(KeyCode::Char('j')), 70) == resolved_from(KeyContext::Goto, plain_key(KeyCode::Char('j')), 71));
            assert(resolved_from(KeyContext::Goto, plain_key(KeyCode::Char('j')), 71) == resolved_from(KeyContext::Goto, plain_key(KeyCode::Char('j')), 72));
            lemma_skip_other_rows(KeyContext::Goto, plain_key(KeyCode::Char('j')), 72, 88);
            assert(resolved_from(KeyContext::Goto, plain_key(KeyCode::Char('j')), 88) is None);
            lemma_skip_other_rows(KeyContext::Goto, plain_key(KeyCode::Down), 0, 66);
            assert(resolved_from(KeyContext::Goto, plain_key(KeyCode::Down), 66) == resolved_from(KeyContext::Goto, plain_key(KeyCode::Down), 67));
            assert(resolved_from(KeyContext::Goto, plain_key(KeyCode::Down), 67) == resolved_from(KeyContext::Goto, plain_key(KeyCode::Down), 68));
            assert(resolved_from(KeyContext::Goto, plain_key(KeyCode::Down), 68) == resolved_from(KeyContext::Goto, plain_key(KeyCode::Down), 69));
            assert(resolved_from(KeyContext::Goto, plain_key(KeyCode::Down), 69) == resolved_from(KeyContext::Goto, plain_key(KeyCode::Down), 70));
            assert(resolved_from(KeyContext::Goto, plain_key(KeyCode::Down), 70) == resolved_from(KeyContext::Goto, plain_key(KeyCode::Down), 71));
            assert(resolved_from(KeyContext::Goto, plain_key(KeyCode::Down), 71) == resolved_from(KeyContext::Goto, plain_key(KeyCode::Down), 72));
            lemma_skip_other_rows(KeyContext::Goto, plain_key(KeyCode::Down), 72, 88);
            assert(resolved_from(KeyContext::Goto, plain_key(KeyCode::Down), 88) is None);
        },
        KeyContext::Help => {
            lemma_skip_other_rows(KeyContext::Help, plain_key(KeyCode::Char('k')), 0, 72);
            assert(resolved_from(KeyContext::Help, plain_key(KeyCode::Char('k')), 72) == Some(Action::ScrollUp));
            lemma_skip_other_rows(KeyContext::Help, plain_key(KeyCode::Up), 0, 72);
            assert(resolved_from(KeyContext::Help, plain_key(KeyCode::Up), 72) == resolved_from(KeyContext::Help, plain_key(KeyCode::Up), 73));
            assert(resolved_from(KeyContext::Help, plain_key(KeyCode::Up), 73) == resolved_from(KeyContext::Help, plain_key(KeyCode::Up), 74));
            assert(resolved_from(KeyContext::Help, plain_key(KeyCode::Up), 74) == Some(Action::ScrollUp));
            lemma_skip_other_rows(KeyContext::Help, plain_key(KeyCode::Char('j')), 0, 72);
            assert(resolved_from(KeyContext::Help, plain_key(KeyCode::Char('j')), 72) == resolved_from(KeyContext::Help, plain_key(KeyCode::Char('j')), 73));
            assert(resolved_from(KeyContext::Help, plain_key(KeyCode::Char('j')), 73) == Some(Action::ScrollDown));
            lemma_skip_other_rows(KeyContext::Help, plain_key(KeyCode::Down), 0, 72);
            assert(resolved_from(KeyContext::Help, plain_key(KeyCode::Down), 72) == resolved_from(KeyContext::Help, plain_key(KeyCode::Down), 73));
            assert(resolved_from(KeyContext::Help, plain_key(KeyCode::Down), 73) == resolved_from(KeyContext::Help, plain_key(KeyCode::Down), 74));
            assert(resolved_from(KeyContext::Help, plain_key(KeyCode::Down), 74) == resolved_from(KeyContext::Help, plain_key(KeyCode::Down), 75));
            assert(resolved_from(KeyContext::Help, plain_key(KeyCode::Down), 75) == Some(Action::ScrollDown));
        },
        KeyContext::Annotations => {
            lemma_skip_other_rows(KeyContext::Annotations, plain_key(KeyCode::Char('k')), 0, 78);
            assert(resolved_from(KeyContext::Annotations, plain_key(KeyCode::Char('k')), 78) == Some(Action::AnnotationPrevious));
            lemma_skip_other_rows(KeyContext::Annotations, plain_key(KeyCode::Up), 0, 78);
            assert(resolved_from(KeyContext::Annotations, plain_key(KeyCode::Up), 78) == resolved_from(KeyContext::Annotations, plain_key(KeyCode::Up), 79));
            assert(resolved_from(KeyContext::Annotations, plain_key(KeyCode::Up), 79) == resolved_from(KeyContext::Annotations, plain_key(KeyCode::Up), 80));
            assert(resolved_from(KeyContext::Annotations, plain_key(KeyCode::Up), 80) == Some(Action::AnnotationPrevious));
            lemma_skip_other_rows(KeyContext::Annotations, plain_key(KeyCode::Char('j')), 0, 78);
            assert(resolved_from(KeyContext::Annotations, plain_key(KeyCode::Char('j')), 78) == resolved_from(KeyContext::Annotations, plain_key(KeyCode::Char('j')), 79));
            assert(resolved_from(KeyContext::Annotations, plain_key(KeyCode::Char('j')), 79) == Some(Action::AnnotationNext));
            lemma_skip_other_rows(KeyContext::Annotations, plain_key(KeyCode::Down), 0, 78);
            assert(resolved_from(KeyContext::Annotations, plain_key(KeyCode::Down), 78) == resolved_from(KeyContext::Annotations, plain_key(KeyCode::Down), 79));
            assert(resolved_from(KeyContext::Annotations, plain_key(KeyCode::Down), 79) == resolved_from(KeyContext::Annotations, plain_key(KeyCode::Down), 80));
            assert(resolved_from(KeyContext::Annotations, plain_key(KeyCode::Down), 80) == resolved_from(KeyContext::Annotations, plain_key(KeyCode::Down), 81));
            assert(resolved_from(KeyContext::Annotations, plain_key(KeyCode::Down), 81) == Some(Action::AnnotationNext));
        },
    }
}

proof fn lemma_board_arrows()
    ensures
        resolved(KeyContext::Board, plain_key(KeyCode::Up)) == Some(Action::MoveFocusUp),
        resolved(KeyContext::Board, plain_key(KeyCode::Down)) == Some(Action::MoveFocusDown),
{
    assert(resolved_from(KeyContext::Board, plain_key(KeyCode::Up), 0) == resolved_from(KeyContext::Board, plain_key(KeyCode::Up), 1));
    assert(resolved_from(KeyContext::Board, plain_key(KeyCode::Up), 1) == resolved_from(KeyContext::Board, plain_key(KeyCode::Up), 2));
    assert(resolved_from(KeyContext::Board, plain_key(KeyCode::Up), 2) == resolved_from(KeyContext::Board, plain_key(KeyCode::Up), 3));
    assert(resolved_from(KeyContext::Board, plain_key(KeyCode::Up), 3) == resolved_from(KeyContext::Board, plain_key(KeyCode::Up), 4));
    assert(resolved_from(KeyContext::Board, plain_key(KeyCode::Up), 4) == resolved_from(KeyContext::Board, plain_key(KeyCode::Up), 5));
    assert(resolved_from(KeyContext::Board, plain_key(KeyCode::Up), 5) == resolved_from(KeyContext::Board, plain_key(KeyCode::Up), 6));
    assert(resolved_from(KeyContext::Board, plain_key(KeyCode::Up), 6) == Some(Action::MoveFocusUp));
    assert(resolved_from(KeyContext::Board, plain_key(KeyCode::Down), 0) == resolved_from(KeyContext::Board, plain_key(KeyCode::Down), 1));
    assert(resolved_from(KeyContext::Board, plain_key(KeyCode::Down), 1) == resolved_from(KeyContext::Board, plain_key(KeyCode::Down), 2));
    assert(resolved_from(KeyContext::Board, plain_key(KeyCode::Down), 2) == resolved_from(KeyContext::Board, plain_key(KeyCode::Down), 3));
    assert(resolved_from(KeyContext::Board, plain_key(KeyCode::Down), 3) == resolved_from(KeyContext::Board, plain_key(KeyCode::Down), 4));
    assert(resolved_from(KeyContext::Board, plain_key(KeyCode::Down), 4) == resolved_from(KeyContext::Board, plain_key(KeyCode::Down), 5));
    assert(resolved_from(KeyContext::Board, plain_key(KeyCode::Down), 5) == resolved_from(KeyContext::Board, plain_key(KeyCode::Down), 6));
    assert(resolved_from(KeyContext::Board, plain_key(KeyCode::Down), 6) == resolved_from(KeyContext::Board, plain_key(KeyCode::Down), 7));
    assert(resolved_from(KeyContext::Board, plain_key(KeyCode::Down), 7) == Some(Action::MoveFocusDown));
}

/// Outside the goto prefix, where `h` and `l` name the first and last column, `h` and `l`
/// are the Left and Right keys under other names; on the board they move the focus one
/// column left and right.
pub proof fn lemma_vim_keys_are_left_and_right(context: KeyContext)
    requires
        context != KeyContext::Goto,
    ensures
        resolved(context, plain_key(KeyCode::Char('h'))) == resolved(context, plain_key(KeyCode::Left)),
        resolved(context, plain_key(KeyCode::Char('l'))) == resolved(
            context,
            plain_key(KeyCode::Right),
        ),
        resolved(KeyContext::Board, plain_key(KeyCode::Char('h'))) == Some(Action::MoveFocusLeft),
        resolved(KeyContext::Board, plain_key(KeyCode::Char('l'))) == Some(Action::MoveFocusRight),
{
    lemma_board_vim_left_right();
    match context {
        KeyContext::Board => {
            lemma_skip_other_rows(KeyContext::Board, plain_key(KeyCode::Char('h')), 0, 0);
            assert(resolved_from(KeyContext::Board, plain_key(KeyCode::Char('h')), 0) == Some(Action::MoveFocusLeft));
            lemma_skip_other_rows(KeyContext::Board, plain_key(KeyCode::Left), 0, 0);
            assert(resolved_from(KeyContext::Board, plain_key(KeyCode::Left), 0) == resolved_from(KeyContext::Board, plain_key(KeyCode::Left), 1));
            assert(resolved_from(KeyContext::Board, plain_key(KeyCode::Left), 1) == resolved_from(KeyContext::Board, plain_key(KeyCode::Left), 2));
            assert(resolved_from(KeyContext::Board, plain_key(KeyCode::Left), 2) == resolved_from(KeyContext::Board, plain_key(KeyCode::Left), 3));
            assert(resolved_from(KeyContext::Board, plain_key(KeyCode::Left), 3) == resolved_from(KeyContext::Board, plain_key(KeyCode::Left), 4));
            assert(resolved_from(KeyContext::Board, plain_key(KeyCode::Left), 4) == Some(Action::MoveFocusLeft));
            lemma_skip_other_rows(KeyContext::Board, plain_key(KeyCode::Char('l')), 0, 0);
            assert(resolved_from(KeyContext::Board, plain_key(KeyCode::Char('l')), 0) == resolved_from(KeyContext::Board, plain_key(KeyCode::Char('l')), 1));
            assert(resolved_from(KeyContext::Board, plain_key(KeyCode::Char('l')), 1) == resolved_from(KeyContext::Board, plain_key(KeyCode::Char('l')), 2));
            assert(resolved_from(KeyContext::Board, plain_key(KeyCode::Char('l')), 2) == resolved_from(KeyContext::Board, plain_key(KeyCode::Char('l')), 3));
            assert(resolved_from(KeyContext::Board, plain_key(KeyCode::Char('l')), 3) == Some(Action::MoveFocusRight));
            lemma_skip_other_rows(KeyContext::Board, plain_key(KeyCode::Right), 0, 0);
            assert(resolved_from(KeyContext::Board, plain_key(KeyCode::Right), 0) == resolved_from(KeyContext::Board, plain_key(KeyCode::Right), 1));
            assert(resolved_from(KeyContext::Board, plain_key(KeyCode::Right), 1) == resolved_from(KeyContext::Board, plain_key(KeyCode::Right), 2));
            assert(resolved_from(KeyContext::Board, plain_key(KeyCode::Right), 2) == resolved_from(KeyContext::Board, plain_key(KeyCode::Right), 3));
            assert(resolved_from(KeyContext::Board, plain_key(KeyCode::Right), 3) == resolved_from(KeyContext::Board, plain_key(KeyCode::Right), 4));
            assert(resolved_from(KeyContext::Board, plain_key(KeyCode::Right), 4) == resolved_from(KeyContext::Board, plain_key(KeyCode::Right), 5));
            assert(resolved_from(KeyContext::Board, plain_key(KeyCode::Right), 5) == Some(Action::MoveFocusRight));
        },
        KeyContext::Details => {
            lemma_skip_other_rows(KeyContext::Details, plain_key(KeyCode::Char('h')), 0, 28);
            assert(resolved_from(KeyContext::Details, plain_key(KeyCode::Char('h')), 28) == Some(Action::MoveFocusLeft));
            lemma_skip_other_rows(KeyContext::Details, plain_key(KeyCode::Left), 0, 28);
            assert(resolved_from(KeyContext::Details, plain_key(KeyCode::Left), 28) == resolved_from(KeyContext::Details, plain_key(KeyCode::Left), 29));
            assert(resolved_from(KeyContext::Details, plain_key(KeyCode::Left), 29) == resolved_from(KeyContext::Details, plain_key(KeyCode::Left), 30));
            assert(resolved_from(KeyContext::Details, plain_key(KeyCode::Left), 30) == resolved_from(KeyContext::Details, plain_key(KeyCode::Left), 31));
            assert(resolved_from(KeyContext::Details, plain_key(KeyCode::Left), 31) == resolved_from(KeyContext::Details, plain_key(KeyCode::Left), 32));
            assert(resolved_from(KeyContext::Details, plain_key(KeyCode::Left), 32) == Some(Action::MoveFocusLeft));
            lemma_skip_other_rows(KeyContext::Details, plain_key(KeyCode::Char('l')), 0, 28);
            assert(resolved_from(KeyContext::Details, plain_key(KeyCode::Char('l')), 28) == resolved_from(KeyContext::Details, plain_key(KeyCode::Char('l')), 29));
            assert(resolved_from(KeyContext::Details, plain_key(KeyCode::Char('l')), 29) == resolved_from(KeyContext::Details, plain_key(KeyCode::Char('l')), 30));
            assert(resolved_from(KeyContext::Details, plain_key(KeyCode::Char('l')), 30) == resolved_from(KeyContext::Details, plain_key(KeyCode::Char('l')), 31));
            assert(resolved_from(KeyContext::Details, plain_key(KeyCode::Char('l')), 31) == Some(Action::MoveFocusRight));
            lemma_skip_other_rows(KeyContext::Details, plain_key(KeyCode::Right), 0, 28);
            assert(resolved_from(KeyContext::Details, plain_key(KeyCode::Right), 28) == resolved_from(KeyContext::Details, plain_key(KeyCode::Right), 29));
            assert(resolved_from(KeyContext::Details, plain_key(KeyCode::Right), 29) == resolved_from(KeyContext::Details, plain_key(KeyCode::Right), 30));
            assert(resolved_from(KeyContext::Details, plain_key(KeyCode::Right), 30) == resolved_from(KeyContext::Details, plain_key(KeyCode::Right), 31));
            assert(resolved_from(KeyContext::Details, plain_key(KeyCode::Right), 31) == resolved_from(KeyContext::Details, plain_key(KeyCode::Right), 32));
            assert(resolved_from(KeyContext::Details, plain_key(KeyCode::Right), 32) == resolved_from(KeyContext::Details, plain_key(KeyCode::Right), 33));
            assert(resolved_from(KeyContext::Details, plain_key(KeyCode::Right), 33) == Some(Action::MoveFocusRight));
        },
        KeyContext::Form => {
            lemma_skip_other_rows(KeyContext::Form, plain_key(KeyCode::Char('h')), 0, 45);
            assert(resolved_from(KeyContext::Form, plain_key(KeyCode::Char('h')), 45) == resolved_from(KeyContext::Form, plain_key(KeyCode::Char('h')), 46));
            assert(resolved_from(KeyContext::Form, plain_key(KeyCode::Char('h')), 46) == resolved_from(KeyContext::Form, plain_key(KeyCode::Char('h')), 47));
            assert(resolved_from(KeyContext::Form, plain_key(KeyCode::Char('h')), 47) == resolved_from(KeyContext::Form, plain_key(KeyCode::Char('h')), 48));
            assert(resolved_from(KeyContext::Form, plain_key(KeyCode::Char('h')), 48) == resolved_from(KeyContext::Form, plain_key(KeyCode::Char('h')), 49));
            assert(resolved_from(KeyContext::Form, plain_key(KeyCode::Char('h')), 49) == resolved_from(KeyContext::Form, plain_key(KeyCode::Char('h')), 50));
            lemma_skip_other_rows(KeyContext::Form, plain_key(KeyCode::Char('h')), 50, 88);
            assert(resolved_from(KeyContext::Form, plain_key(KeyCode::Char('h')), 88) is None);
            lemma_skip_other_rows(KeyContext::Form, plain_key(KeyCode::Left), 0, 45);
            assert(resolved_from(KeyContext::Form, plain_key(KeyCode::Left), 45) == resolved_from(KeyContext::Form, plain_key(KeyCode::Left), 46));
            assert(resolved_from(KeyContext::Form, plain_key(KeyCode::Left), 46) == resolved_from(KeyContext::Form, plain_key(KeyCode::Left), 47));
            assert(resolved_from(KeyContext::Form, plain_key(KeyCode::Left), 47) == resolved_from(KeyContext::Form, plain_key(KeyCode::Left), 48));
            assert(resolved_from(KeyContext::Form, plain_key(KeyCode::Left), 48) == resolved_from(KeyContext::Form, plain_key(KeyCode::Left), 49));
            assert(resolved_from(KeyContext::Form, plain_key(KeyCode::Left), 49) == resolved_from(KeyContext::Form, plain_key(KeyCode::Left), 50));
            lemma_skip_other_rows(KeyContext::Form, plain_key(KeyCode::Left), 50, 88);
            assert(resolved_from(KeyContext::Form, plain_key(KeyCode::Left), 88) is None);
            lemma_skip_other_rows(KeyContext::Form, plain_key(KeyCode::Char('l')), 0, 45);
            assert(resolved_from(KeyContext::Form, plain_key(KeyCode::Char('l')), 45) == resolved_from(KeyContext::Form, plain_key(KeyCode::Char('l')), 46));
            assert(resolved_from(KeyContext::Form, plain_key(KeyCode::Char('l')), 46) == resolved_from(KeyContext::Form, plain_key(KeyCode::Char('l')), 47));
            assert(resolved_from(KeyContext::Form, plain_key(KeyCode::Char('l')), 47) == resolved_from(KeyContext::Form, plain_key(KeyCode::Char('l')), 48));
            assert(resolved_from(KeyContext::Form, plain_key(KeyCode::Char('l')), 48) == resolved_from(KeyContext::Form, plain_key(KeyCode::Char('l')), 49));
            assert(resolved_from(KeyContext::Form, plain_key(KeyCode::Char('l')), 49) == resolved_from(KeyContext::Form, plain_key(KeyCode::Char('l')), 50));
            lemma_skip_other_rows(KeyContext::Form, plain_key(KeyCode::Char('l')), 50, 88);
            assert(resolved_from(KeyContext::Form, plain_key(KeyCode::Char('l')), 88) is None);
            lemma_skip_other_rows(KeyContext::Form, plain_key(KeyCode::Right), 0, 45);
            assert(resolved_from(KeyContext::Form, plain_key(KeyCode::Right), 45) == resolved_from(KeyContext::Form, plain_key(KeyCode::Right), 46));
            assert(resolved_from(KeyContext::Form, plain_key(KeyCode::Right), 46) == resolved_from(KeyContext::Form, plain_key(KeyCode::Right), 47));
            assert(resolved_from(KeyContext::Form, plain_key(KeyCode::Right), 47) == resolved_from(KeyContext::Form, plain_key(KeyCode::Right), 48));
            assert(resolved_from(KeyContext::Form, plain_key(KeyCode::Right), 48) == resolved_from(KeyContext::Form, plain_key(KeyCode::Right), 49));
            assert(resolved_from(KeyContext::Form, plain_key(KeyCode::Right), 49) == resolved_from(KeyContext::Form, plain_key(KeyCode::Right), 50));
            lemma_skip_other_rows(KeyContext::Form, plain_key(KeyCode::Right), 50, 88);
            assert(resolved_from(KeyContext::Form, plain_key(KeyCode::Right), 88) is None);
        },
        KeyContext::Picker => {
            lemma_skip_other_rows(KeyContext::Picker, plain_key(KeyCode::Char('h')), 0, 50);
            assert(resolved_from(KeyContext::Picker, plain_key(KeyCode::Char('h')), 50) == resolved_from(KeyContext::Picker, plain_key(KeyCode::Char('h')), 51));
            assert(resolved_from(KeyContext::Picker, plain_key(KeyCode::Char('h')), 51) == resolved_from(KeyContext::Picker, plain_key(KeyCode::Char('h')), 52));
            assert(resolved_from(KeyContext::Picker, plain_key(KeyCode::Char('h')), 52) == resolved_from(KeyContext::Picker, plain_key(KeyCode::Char('h')), 53));
            assert(resolved_from(KeyContext::Picker, plain_key(KeyCode::Char('h')), 53) == resolved_from(KeyContext::Picker, plain_key(KeyCode::Char('h')), 54));
            assert(resolved_from(KeyContext::Picker, plain_key(KeyCode::Char('h')), 54) == resolved_from(KeyContext::Picker, plain_key(KeyCode::Char('h')), 55));
            assert(resolved_from(KeyContext::Picker, plain_key(KeyCode::Char('h')), 55) == resolved_from(KeyContext::Picker, plain_key(KeyCode::Char('h')), 56));
            lemma_skip_other_rows(KeyContext::Picker, plain_key(KeyCode::Char('h')), 56, 88);
            assert(resolved_from(KeyContext::Picker, plain_key(KeyCode::Char('h')), 88) is None);
            lemma_skip_other_rows(KeyContext::Picker, plain_key(KeyCode::Left), 0, 50);
            assert(resolved_from(KeyContext::Picker, plain_key(KeyCode::Left), 50) == resolved_from(KeyContext::Picker, plain_key(KeyCode::Left), 51));
            assert(resolved_from(KeyContext::Picker, plain_key(KeyCode::Left), 51) == resolved_from(KeyContext::Picker, plain_key(KeyCode::Left), 52));
            assert(resolved_from(KeyContext::Picker, plain_key(KeyCode::Left), 52) == resolved_from(KeyContext::Picker, plain_key(KeyCode::Left), 53));
            assert(resolved_from(KeyContext::Picker, plain_key(KeyCode::Left), 53) == resolved_from(KeyContext::Picker, plain_key(KeyCode::Left), 54));
            assert(resolved_from(KeyContext::Picker, plain_key(KeyCode::Left), 54) == resolved_from(KeyContext::Picker, plain_key(KeyCode::Left), 55));
            assert(resolved_from(KeyContext::Picker, plain_key(KeyCode::Left), 55) == resolved_from(KeyContext::Picker, plain_key(KeyCode::Left), 56));
            lemma_skip_other_rows(KeyContext::Picker, plain_key(KeyCode::Left), 56, 88);
            assert(resolved_from(KeyContext::Picker, plain_key(KeyCode::Left), 88) is None);
            lemma_skip_other_rows(KeyContext::Picker, plain_key(KeyCode::Char('l')), 0, 50);
            assert(resolved_from(KeyContext::Picker, plain_key(KeyCode::Char('l')), 50) == resolved_from(KeyContext::Picker, plain_key(KeyCode::Char('l')), 51));
            assert(resolved_from(KeyContext::Picker, plain_key(KeyCode::Char('l')), 51) == resolved_from(KeyContext::Picker, plain_key(KeyCode::Char('l')), 52));
            assert(resolved_from(KeyContext::Picker, plain_key(KeyCode::Char('l')), 52) == resolved_from(KeyContext::Picker, plain_key(KeyCode::Char('l')), 53));
            assert(resolved_from(KeyContext::Picker, plain_key(KeyCode::Char('l')), 53) == resolved_from(KeyContext::Picker, plain_key(KeyCode::Char('l')), 54));
            assert(resolved_from(KeyContext::Picker, plain_key(KeyCode::Char('l')), 54) == resolved_from(KeyContext::Picker, plain_key(KeyCode::Char('l')), 55));
            assert(resolved_from(KeyContext::Picker, plain_key(KeyCode::Char('l')), 55) == resolved_from(KeyContext::Picker, plain_key(KeyCode::Char('l')), 56));
            lemma_skip_other_rows(KeyContext::Picker, plain_key(KeyCode::Char('l')), 56, 88);
            assert(resolved_from(KeyContext::Picker, plain_key(KeyCode::Char('l')), 88) is None);
            lemma_skip_other_rows(KeyContext::Picker, plain_key(KeyCode::Right), 0, 50);
            assert(resolved_from(KeyContext::Picker, plain_key(KeyCode::Right), 50) == resolved_from(KeyContext::Picker, plain_key(KeyCode::Right), 51));
            assert(resolved_from(KeyContext::Picker, plain_key(KeyCode::Right), 51) == resolved_from(KeyContext::Picker, plain_key(KeyCode::Right), 52));
            assert(resolved_from(KeyContext::Picker, plain_key(KeyCode::Right), 52) == resolved_from(KeyContext::Picker, plain_key(KeyCode::Right), 53));
            assert(resolved_from(KeyContext::Picker, plain_key(KeyCode::Right), 53) == resolved_from(KeyContext::Picker, plain_key(KeyCode::Right), 54));
            assert(resolved_from(KeyContext::Picker, plain_key(KeyCode::Right), 54) == resolved_from(KeyContext::Picker, plain_key(KeyCode::Right), 55));
            assert(resolved_from(KeyContext::Picker, plain_key(KeyCode::Right), 55) == resolved_from(KeyContext::Picker, plain_key(KeyCode::Right), 56));
            lemma_skip_other_rows(KeyContext::Picker, plain_key(KeyCode::Right), 56, 88);
            assert(resolved_from(KeyContext::Picker, plain_key(KeyCode::Right), 88) is None);
        },
        KeyContext::Confirmation => {
            lemma_skip_other_rows(KeyContext::Confirmation, plain_key(KeyCode::Char('h')), 0, 56);
            assert(resolved_from(KeyContext::Confirmation, plain_key(KeyCode::Char('h')), 56) == resolved_from(KeyContext::Confirmation, plain_key(KeyCode::Char('h')), 57));
            assert(resolved_from(KeyContext::Confirmation, plain_key(KeyCode::Char('h')), 57) == resolved_from(KeyContext::Confirmation, plain_key(KeyCode::Char('h')), 58));
            assert(resolved_from(KeyContext::Confirmation, plain_key(KeyCode::Char('h')), 58) == resolved_from(KeyContext::Confirmation, plain_key(KeyCode::Char('h')), 59));
            assert(resolved_from(KeyContext::Confirmation, plain_key(KeyCode::Char('h')), 59) == resolved_from(KeyContext::Confirmation, plain_key(KeyCode::Char('h')), 60));
            assert(resolved_from(KeyContext::Confirmation, plain_key(KeyCode::Char('h')), 60) == Some(Action::ToggleChoice));
            lemma_skip_other_rows(KeyContext::Confirmation, plain_key(KeyCode::Left), 0, 56);
            assert(resolved_from(KeyContext::Confirmation, plain_key(KeyCode::Left), 56) == resolved_from(KeyContext::Confirmation, plain_key(KeyCode::Left), 57));
            assert(resolved_from(KeyContext::Confirmation, plain_key(KeyCode::Left), 57) == resolved_from(KeyContext::Confirmation, plain_key(KeyCode::Left), 58));
            assert(resolved_from(KeyContext::Confirmation, plain_key(KeyCode::Left), 58) == resolved_from(KeyContext::Confirmation, plain_key(KeyCode::Left), 59));
            assert(resolved_from(KeyContext::Confirmation, plain_key(KeyCode::Left), 59) == resolved_from(KeyContext::Confirmation, plain_key(KeyCode::Left), 60));
            assert(resolved_from(KeyContext::Confirmation, plain_key(KeyCode::Left), 60) == resolved_from(KeyContext::Confirmation, plain_key(KeyCode::Left), 61));
            assert(resolved_from(KeyContext::Confirmation, plain_key(KeyCode::Left), 61) == resolved_from(KeyContext::Confirmation, plain_key(KeyCode::Left), 62));
            assert(resolved_from(KeyContext::Confirmation, plain_key(KeyCode::Left), 62) == Some(Action::ToggleChoice));
            lemma_skip_other_rows(KeyContext::Confirmation, plain_key(KeyCode::Char('l')), 0, 56);
            assert(resolved_from(KeyContext::Confirmation, plain_key(KeyCode::Char('l')), 56) == resolved_from(KeyContext::Confirmation, plain_key(KeyCode::Char('l')), 57));
            assert(resolved_from(KeyContext::Confirmation, plain_key(KeyCode::Char('l')), 57) == resolved_from(KeyContext::Confirmation, plain_key(KeyCode::Char('l')), 58));
            assert(resolved_from(KeyContext::Confirmation, plain_key(KeyCode::Char('l')), 58) == resolved_from(KeyContext::Confirmation, plain_key(KeyCode::Char('l')), 59));
            assert(resolved_from(KeyContext::Confirmation, plain_key(KeyCode::Char('l')), 59) == resolved_from(KeyContext::Confirmation, plain_key(KeyCode::Char('l')), 60));
            assert(resolved_from(KeyContext::Confirmation, plain_key(KeyCode::Char('l')), 60) == resolved_from(KeyContext::Confirmation, plain_key(KeyCode::Char('l')), 61));
            assert(resolved_from(KeyContext::Confirmation, plain_key(KeyCode::Char('l')), 61) == Some(Action::ToggleChoice));
            lemma_skip_other_rows(KeyContext::Confirmation, plain_key(KeyCode::Right), 0, 56);
            assert(resolved_from(KeyContext::Confirmation, plain_key(KeyCode::Right), 56) == resolved_from(KeyContext::Confirmation, plain_key(KeyCode::Right), 57));
            assert(resolved_from(KeyContext::Confirmation, plain_key(KeyCode::Right), 57) == resolved_from(KeyContext::Confirmation, plain_key(KeyCode::Right), 58));
            assert(resolved_from(KeyContext::Confirmation, plain_key(KeyCode::Right), 58) == resolved_from(KeyContext::Confirmation, plain_key(KeyCode::Right), 59));
            assert(resolved_from(KeyContext::Confirmation, plain_key(KeyCode::Right), 59) == resolved_from(KeyContext::Confirmation, plain_key(KeyCode::Right), 60));
            assert(resolved_from(KeyContext::Confirmation, plain_key(KeyCode::Right), 60) == resolved_from(KeyContext::Confirmation, plain_key(KeyCode::Right), 61));
            assert(resolved_from(KeyContext::Confirmation, plain_key(KeyCode::Right), 61) == resolved_from(KeyContext::Confirmation, plain_key(KeyCode::Right), 62));
            assert(resolved_from(KeyContext::Confirmation, plain_key(KeyCode::Right), 62) == resolved_from(KeyContext::Confirmation, plain_key(KeyCode::Right), 63));
            assert(resolved_from(KeyContext::Confirmation, plain_key(KeyCode::Right), 63) == Some(Action::ToggleChoice));
        },
        KeyContext::Goto => {},
        KeyContext::Help => {
            lemma_skip_other_rows(KeyContext::Help, plain_key(KeyCode::Char('h')), 0, 72);
            assert(resolved_from(KeyContext::Help, plain_key(KeyCode::Char('h')), 72) == resolved_from(KeyContext::Help, plain_key(KeyCode::Char('h')), 73));
            assert(resolved_from(KeyContext::Help, plain_key(KeyCode::Char('h')), 73) == resolved_from(KeyContext::Help, plain_key(KeyCode::Char('h')), 74));
            assert(resolved_from(KeyContext::Help, plain_key(KeyCode::Char('h')), 74) == resolved_from(KeyContext::Help, plain_key(KeyCode::Char('h')), 75));
            assert(resolved_from(KeyContext::Help, plain_key(KeyCode::Char('h')), 75) == resolved_from(KeyContext::Help, plain_key(KeyCode::Char('h')), 76));
            assert(resolved_from(KeyContext::Help, plain_key(KeyCode::Char('h')), 76) == resolved_from(KeyContext::Help, plain_key(KeyCode::Char('h')), 77));
            assert(resolved_from(KeyContext::Help, plain_key(KeyCode::Char('h')), 77) == resolved_from(KeyContext::Help, plain_key(KeyCode::Char('h')), 78));
            lemma_skip_other_rows(KeyContext::Help, plain_key(KeyCode::Char('h')), 78, 88);
            assert(resolved_from(KeyContext::Help, plain_key(KeyCode::Char('h')), 88) is None);
            lemma_skip_other_rows(KeyContext::Help, plain_key(KeyCode::Left), 0, 72);
            assert(resolved_from(KeyContext::Help, plain_key(KeyCode::Left), 72) == resolved_from(KeyContext::Help, plain_key(KeyCode::Left), 73));
            assert(resolved_from(KeyContext::Help, plain_key(KeyCode::Left), 73) == resolved_from(KeyContext::Help, plain_key(KeyCode::Left), 74));
            assert(resolved_from(KeyContext::Help, plain_key(KeyCode::Left), 74) == resolved_from(KeyContext::Help, plain_key(KeyCode::Left), 75));
            assert(resolved_from(KeyContext::Help, plain_key(KeyCode::Left), 75) == resolved_from(KeyContext::Help, plain_key(KeyCode::Left), 76));
            assert(resolved_from(KeyContext::Help, plain_key(KeyCode::Left), 76) == resolved_from(KeyContext::Help, plain_key(KeyCode::Left), 77));
            assert(resolved_from(KeyContext::Help, plain_key(KeyCode::Left), 77) == resolved_from(KeyContext::Help, plain_key(KeyCode::Left), 78));
            lemma_skip_other_rows(KeyContext::Help, plain_key(KeyCode::Left), 78, 88);
            assert(resolved_from(KeyContext::Help, plain_key(KeyCode::Left), 88) is None);
            lemma_skip_other_rows(KeyContext::Help, plain_key(KeyCode::Char('l')), 0, 72);
            assert(resolved_from(KeyContext::Help, plain_key(KeyCode::Char('l')), 72) == resolved_from(KeyContext::Help, plain_key(KeyCode::Char('l')), 73));
            assert(resolved_from(KeyContext::Help, plain_key(KeyCode::Char('l')), 73) == resolved_from(KeyContext::Help, plain_key(KeyCode::Char('l')), 74));
            assert(resolved_from(KeyContext::Help, plain_key(KeyCode::Char('l')), 74) == resolved_from(KeyContext::Help, plain_key(KeyCode::Char('l')), 75));
            assert(resolved_from(KeyContext::Help, plain_key(KeyCode::Char('l')), 75) == resolved_from(KeyContext::Help, plain_key(KeyCode::Char('l')), 76));
            assert(resolved_from(KeyContext::Help, plain_key(KeyCode::Char('l')), 76) == resolved_from(KeyContext::Help, plain_key(KeyCode::Char('l')), 77));
            assert(resolved_from(KeyContext::Help, plain_key(KeyCode::Char('l')), 77) == resolved_from(KeyContext::Help, plain_key(KeyCode::Char('l')), 78));
            lemma_skip_other_rows(KeyContext::Help, plain_key(KeyCode::Char('l')), 78, 88);
            assert(resolved_from(KeyContext::Help, plain_key(KeyCode::Char('l')), 88) is None);
            lemma_skip_other_rows(KeyContext::Help, plain_key(KeyCode::Right), 0, 72);
            assert(resolved_from(KeyContext::Help, plain_key(KeyCode::Right), 72) == resolved_from(KeyContext::Help, plain_key(KeyCode::Right), 73));
            assert(resolved_from(KeyContext::Help, plain_key(KeyCode::Right), 73) == resolved_from(KeyContext::Help, plain_key(KeyCode::Right), 74));
            assert(resolved_from(KeyContext::Help, plain_key(KeyCode::Right), 74) == resolved_from(KeyContext::Help, plain_key(KeyCode::Right), 75));
            assert(resolved_from(KeyContext::Help, plain_key(KeyCode::Right), 75) == resolved_from(KeyContext::Help, plain_key(KeyCode::Right), 76));
            assert(resolved_from(KeyContext::Help, plain_key(KeyCode::Right), 76) == resolved_from(KeyContext::Help, plain_key(KeyCode::Right), 77));
            assert(resolved_from(KeyContext::Help, plain_key(KeyCode::Right), 77) == resolved_from(KeyContext::Help, plain_key(KeyCode::Right), 78));
            lemma_skip_other_rows(KeyContext::Help, plain_key(KeyCode::Right), 78, 88);
            assert(resolved_from(KeyContext::Help, plain_key(KeyCode::Right), 88) is None);
        },
        KeyContext::Annotations => {
            lemma_skip_other_rows(KeyContext::Annotations, plain_key(KeyCode::Char('h')), 0, 78);
            assert(resolved_from(KeyContext::Annotations, plain_key(KeyCode::Char('h')), 78) == resolved_from(KeyContext::Annotations, plain_key(KeyCode::Char('h')), 79));
            assert(resolved_from(KeyContext::Annotations, plain_key(KeyCode::Char('h')), 79) == resolved_from(KeyContext::Annotations, plain_key(KeyCode::Char('h')), 80));
            assert(resolved_from(KeyContext::Annotations, plain_key(KeyCode::Char('h')), 80) == resolved_from(KeyContext::Annotations, plain_key(KeyCode::Char('h')), 81));
            assert(resolved_from(KeyContext::Annotations, plain_key(KeyCode::Char('h')), 81) == resolved_from(KeyContext::Annotations, plain_key(KeyCode::Char('h')), 82));
            assert(resolved_from(KeyContext::Annotations, plain_key(KeyCode::Char('h')), 82) == resolved_from(KeyContext::Annotations, plain_key(KeyCode::Char('h')), 83));
            assert(resolved_from(KeyContext::Annotations, plain_key(KeyCode::Char('h')), 83) == resolved_from(KeyContext::Annotations, plain_key(KeyCode::Char('h')), 84));
            assert(resolved_from(KeyContext::Annotations, plain_key(KeyCode::Char('h')), 84) == resolved_from(KeyContext::Annotations, plain_key(KeyCode::Char('h')), 85));
            assert(resolved_from(KeyContext::Annotations, plain_key(KeyCode::Char('h')), 85) == resolved_from(KeyContext::Annotations, plain_key(KeyCode::Char('h')), 86));
            assert(resolved_from(KeyContext::Annotations, plain_key(KeyCode::Char('h')), 86) == resolved_from(KeyContext::Annotations, plain_key(KeyCode::Char('h')), 87));
            assert(resolved_from(KeyContext::Annotations, plain_key(KeyCode::Char('h')), 87) == resolved_from(KeyContext::Annotations, plain_key(KeyCode::Char('h')), 88));
            lemma_skip_other_rows(KeyContext::Annotations, plain_key(KeyCode::Char('h')), 88, 88);
            assert(resolved_from(KeyContext::Annotations, plain_key(KeyCode::Char('h')), 88) is None);
            lemma_skip_other_rows(KeyContext::Annotations, plain_key(KeyCode::Left), 0, 78);
            assert(resolved_from(KeyContext::Annotations, plain_key(KeyCode::Left), 78) == resolved_from(KeyContext::Annotations, plain_key(KeyCode::Left), 79));
            assert(resolved_from(KeyContext::Annotations, plain_key(KeyCode::Left), 79) == resolved_from(KeyContext::Annotations, plain_key(KeyCode::Left), 80));
            assert(resolved_from(KeyContext::Annotations, plain_key(KeyCode::Left), 80) == resolved_from(KeyContext::Annotations, plain_key(KeyCode::Left), 81));
            assert(resolved_from(KeyContext::Annotations, plain_key(KeyCode::Left), 81) == resolved_from(KeyContext::Annotations, plain_key(KeyCode::Left), 82));
            assert(resolved_from(KeyContext::Annotations, plain_key(KeyCode::Left), 82) == resolved_from(KeyContext::Annotations, plain_key(KeyCode::Left), 83));
            assert(resolved_from(KeyContext::Annotations, plain_key(KeyCode::Left), 83) == resolved_from(KeyContext::Annotations, plain_key(KeyCode::Left), 84));
            assert(resolved_from(KeyContext::Annotations, plain_key(KeyCode::Left), 84) == resolved_from(KeyContext::Annotations, plain_key(KeyCode::Left), 85));
            assert(resolved_from(KeyContext::Annotations, plain_key(KeyCode::Left), 85) == resolved_from(KeyContext::Annotations, plain_key(KeyCode::Left), 86));
            assert(resolved_from(KeyContext::Annotations, plain_key(KeyCode::Left), 86) == resolved_from(KeyContext::Annotations, plain_key(KeyCode::Left), 87));
            assert(resolved_from(KeyContext::Annotations, plain_key(KeyCode::Left), 87) == resolved_from(KeyContext::Annotations, plain_key(KeyCode::Left), 88));
            lemma_skip_other_rows(KeyContext::Annotations, plain_key(KeyCode::Left), 88, 88);
            assert(resolved_from(KeyContext::Annotations, plain_key(KeyCode::Left), 88) is None);
            lemma_skip_other_rows(KeyContext::Annotations, plain_key(KeyCode::Char('l')), 0, 78);
            assert(resolved_from(KeyContext::Annotations, plain_key(KeyCode::Char('l')), 78) == resolved_from(KeyContext::Annotations, plain_key(KeyCode::Char('l')), 79));
            assert(resolved_from(KeyContext::Annotations, plain_key(KeyCode::Char('l')), 79) == resolved_from(KeyContext::Annotations, plain_key(KeyCode::Char('l')), 80));
            assert(resolved_from(KeyContext::Annotations, plain_key(KeyCode::Char('l')), 80) == resolved_from(KeyContext::Annotations, plain_key(KeyCode::Char('l')), 81));
            assert(resolved_from(KeyContext::Annotations, plain_key(KeyCode::Char('l')), 81) == resolved_from(KeyContext::Annotations, plain_key(KeyCode::Char('l')), 82));
            assert(resolved_from(KeyContext::Annotations, plain_key(KeyCode::Char('l')), 82) == resolved_from(KeyContext::Annotations, plain_key(KeyCode::Char('l')), 83));
            assert(resolved_from(KeyContext::Annotations, plain_key(KeyCode::Char('l')), 83) == resolved_from(KeyContext::Annotations, plain_key(KeyCode::Char('l')), 84));
            assert(resolved_from(KeyContext::Annotations, plain_key(KeyCode::Char('l')), 84) == resolved_from(KeyContext::Annotations, plain_key(KeyCode::Char('l')), 85));
            assert(resolved_from(KeyContext::Annotations, plain_key(KeyCode::Char('l')), 85) == resolved_from(KeyContext::Annotations, plain_key(KeyCode::Char('l')), 86));
            assert(resolved_from(KeyContext::Annotations, plain_key(KeyCode::Char('l')), 86) == resolved_from(KeyContext::Annotations, plain_key(KeyCode::Char('l')), 87));
            assert(resolved_from(KeyContext::Annotations, plain_key(KeyCode::Char('l')), 87) == resolved_from(KeyContext::Annotations, plain_key(KeyCode::Char('l')), 88));
            lemma_skip_other_rows(KeyContext::Annotations, plain_key(KeyCode::Char('l')), 88, 88);
            assert(resolved_from(KeyContext::Annotations, plain_key(KeyCode::Char('l')), 88) is None);
            lemma_skip_other_rows(KeyContext::Annotations, plain_key(KeyCode::Right), 0, 78);
            assert(resolved_from(KeyContext::Annotations, plain_key(KeyCode::Right), 78) == resolved_from(KeyContext::Annotations, plain_key(KeyCode::Right), 79));
            assert(resolved_from(KeyContext::Annotations, plain_key(KeyCode::Right), 79) == resolved_from(KeyContext::Annotations, plain_key(KeyCode::Right), 80));
            assert(resolved_from(KeyContext::Annotations, plain_key(KeyCode::Right), 80) == resolved_from(KeyContext::Annotations, plain_key(KeyCode::Right), 81));
            assert(resolved_from(KeyContext::Annotations, plain_key(KeyCode::Right), 81) == resolved_from(KeyContext::Annotations, plain_key(KeyCode::Right), 82));
            assert(resolved_from(KeyContext::Annotations, plain_key(KeyCode::Right), 82) == resolved_from(KeyContext::Annotations, plain_key(KeyCode::Right), 83));
            assert(resolved_from(KeyContext::Annotations, plain_key(KeyCode::Right), 83) == resolved_from(KeyContext::Annotations, plain_key(KeyCode::Right), 84));
            assert(resolved_from(KeyContext::Annotations, plain_key(KeyCode::Right), 84) == resolved_from(KeyContext::Annotations, plain_key(KeyCode::Right), 85));
            assert(resolved_from(KeyContext::Annotations, plain_key(KeyCode::Right), 85) == resolved_from(KeyContext::Annotations, plain_key(KeyCode::Right), 86));
            assert(resolved_from(KeyContext::Annotations, plain_key(KeyCode::Right), 86) == resolved_from(KeyContext::Annotations, plain_key(KeyCode::Right), 87));
            assert(resolved_from(KeyContext::Annotations, plain_key(KeyCode::Right), 87) == resolved_from(KeyContext::Annotations, plain_key(KeyCode::Right), 88));
            lemma_skip_other_rows(KeyContext::Annotations, plain_key(KeyCode::Right), 88, 88);
            assert(resolved_from(KeyContext::Annotations, plain_key(KeyCode::Right), 88) is None);
        },
    }
}

proof fn lemma_board_vim_left_right()
    ensures
        resolved(KeyContext::Board, plain_key(KeyCode::Char('h'))) == Some(Action::MoveFocusLeft),
        resolved(KeyContext::Board, plain_key(KeyCode::Char('l'))) == Some(Action::MoveFocusRight),
{
    assert(resolved_from(KeyContext::Board, plain_key(KeyCode::Char('h')), 0) == Some(Action::MoveFocusLeft));
    assert(resolved_from(KeyContext::Board, plain_key(KeyCode::Char('l')), 0) == resolved_from(KeyContext::Board, plain_key(KeyCode::Char('l')), 1));
    assert(resolved_from(KeyContext::Board, plain_key(KeyCode::Char('l')), 1) == resolved_from(KeyContext::Board, plain_key(KeyCode::Char('l')), 2));
    assert(resolved_from(KeyContext::Board, plain_key(KeyCode::Char('l')), 2) == resolved_from(KeyContext::Board, plain_key(KeyCode::Char('l')), 3));
    assert(resolved_from(KeyContext::Board, plain_key(KeyCode::Char('l')), 3) == Some(Action::MoveFocusRight));
}

} // verus!
