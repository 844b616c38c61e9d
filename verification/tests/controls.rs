use kodeck::domain::{CardsFile, ColumnConfig, ColumnId, LocalCard, Task, TaskPriority, WorkspaceId};
use kodeck::tui::board::{missing_column_warnings, Board};
use kodeck::tui::controls::{
    closing, rotate_priority, rotate_target_column, view_step, Closing, ViewFlags,
};
use kodeck::tui::keymap::Action;
use kodeck::tui::state::{InputType, MovePickerState};

fn board_with_cards() -> (Board, Vec<kodeck::domain::CardId>) {
    let file = CardsFile::empty(WorkspaceId::generate());
    let mut board = Board::from_cards(&ColumnConfig::defaults(), &file);
    let mut ids = Vec::new();
    for (column, title) in [(1usize, "first"), (1, "second"), (3, "third")] {
        let order = board.columns[column].tasks.len();
        let task = Task::new(title.to_owned(), "text".to_owned(), TaskPriority::LOW, order);
        ids.push(task.id);
        board.add_task(column, task);
    }
    (board, ids)
}

#[test]
fn a_stored_selection_restores_the_focus() {
    let (mut board, ids) = board_with_cards();
    board.restore_focus(Some(ColumnId::new("todo")), Some(ids[1]));
    assert_eq!((board.focused_column, board.focused_task), (1, 1));

    board.restore_focus(Some(ColumnId::new("gone")), Some(ids[2]));
    assert_eq!((board.focused_column, board.focused_task), (0, 0));

    board.restore_focus(Some(ColumnId::new("review")), None);
    assert_eq!((board.focused_column, board.focused_task), (3, 0));

    board.restore_focus(None, Some(ids[0]));
    assert_eq!((board.focused_column, board.focused_task), (0, 0));
}

#[test]
fn the_stored_selection_is_the_focused_column_and_card() {
    let (mut board, ids) = board_with_cards();
    board.focused_column = 1;
    board.focused_task = 1;
    let (column, card) = board.stored_selection();
    assert_eq!(column.unwrap().as_str(), "todo");
    assert_eq!(card, Some(ids[1]));

    board.focused_column = 0;
    board.focused_task = 0;
    let (column, card) = board.stored_selection();
    assert_eq!(column.unwrap().as_str(), "inbox");
    assert_eq!(card, None);
}

#[test]
fn the_done_column_is_found_by_its_identity() {
    let (board, _) = board_with_cards();
    assert_eq!(board.done_column(), Some(4));
    assert_eq!(board.column_index("review"), Some(3));
    assert_eq!(board.column_index("Review"), None);

    let config = vec![ColumnConfig { id: ColumnId::new("backlog"), name: "Backlog".to_owned() }];
    let other = Board::from_cards(&config, &CardsFile::empty(WorkspaceId::generate()));
    assert_eq!(other.done_column(), None);
}

#[test]
fn a_column_moves_one_step_and_not_past_the_edges() {
    let (mut board, _) = board_with_cards();
    board.focused_column = 0;
    assert_eq!(board.column_move_target(true), None);
    assert_eq!(board.column_move_target(false), Some(1));
    board.focused_column = 4;
    assert_eq!(board.column_move_target(false), None);
    assert_eq!(board.column_move_target(true), Some(3));
}

#[test]
fn priorities_rotate_both_ways() {
    assert_eq!(rotate_priority(TaskPriority::LOW, true), TaskPriority::MEDIUM);
    assert_eq!(rotate_priority(TaskPriority::MEDIUM, true), TaskPriority::HIGH);
    assert_eq!(rotate_priority(TaskPriority::HIGH, true), TaskPriority::LOW);
    assert_eq!(rotate_priority(TaskPriority::LOW, false), TaskPriority::HIGH);
    assert_eq!(rotate_priority(TaskPriority::HIGH, false), TaskPriority::MEDIUM);
    assert_eq!(rotate_priority(TaskPriority::MEDIUM, false), TaskPriority::LOW);
    for priority in [TaskPriority::LOW, TaskPriority::MEDIUM, TaskPriority::HIGH] {
        assert_eq!(rotate_priority(rotate_priority(priority, true), false), priority);
    }
}

#[test]
fn card_form_fields_cycle_through_the_column_only_where_the_form_has_one() {
    assert_eq!(InputType::CreatingTaskTitle.next_field(true, false), InputType::CreatingTaskDescription);
    assert_eq!(InputType::CreatingTaskDescription.next_field(true, false), InputType::CreatingTaskPriority);
    assert_eq!(InputType::CreatingTaskPriority.next_field(true, false), InputType::CreatingTaskTitle);
    assert_eq!(InputType::CreatingTaskTitle.next_field(false, false), InputType::CreatingTaskPriority);
    assert_eq!(InputType::CreatingTaskPriority.next_field(true, true), InputType::CreatingTaskColumn);
    assert_eq!(InputType::CreatingTaskColumn.next_field(true, true), InputType::CreatingTaskTitle);
    assert_eq!(InputType::CreatingTaskTitle.next_field(false, true), InputType::CreatingTaskColumn);
    assert_eq!(InputType::CreatingTaskColumn.next_field(false, true), InputType::CreatingTaskPriority);
    assert_eq!(InputType::CreatingColumn.next_field(true, true), InputType::CreatingColumn);
}

#[test]
fn the_target_column_of_a_card_form_stays_on_the_board() {
    assert_eq!(rotate_target_column(0, 5, true), 0);
    assert_eq!(rotate_target_column(2, 5, true), 1);
    assert_eq!(rotate_target_column(2, 5, false), 3);
    assert_eq!(rotate_target_column(4, 5, false), 4);
}

#[test]
fn the_move_picker_stays_on_the_columns() {
    let mut picker = MovePickerState { selected_column: 0 };
    picker.step(3, true);
    assert_eq!(picker.selected_column, 0);
    picker.step(3, false);
    picker.step(3, false);
    picker.step(3, false);
    assert_eq!(picker.selected_column, 2);
    picker.step(3, true);
    assert_eq!(picker.selected_column, 1);
}

#[test]
fn escape_closes_the_innermost_thing_open() {
    assert_eq!(closing(true, true, true, true, true), Some(Closing::Help));
    assert_eq!(closing(false, true, true, true, true), Some(Closing::Goto));
    assert_eq!(closing(false, false, true, true, true), Some(Closing::Picker));
    assert_eq!(closing(false, false, false, true, true), Some(Closing::Details));
    assert_eq!(closing(false, false, false, false, true), Some(Closing::Selection));
    assert_eq!(closing(false, false, false, false, false), None);
}

#[test]
fn cards_of_a_missing_column_are_reported() {
    let workspace_id = WorkspaceId::generate();
    let mut file = CardsFile::empty(workspace_id);
    let lost = Task::new("Lost".to_owned(), "text".to_owned(), TaskPriority::LOW, 0);
    let home = Task::new("Home".to_owned(), "text".to_owned(), TaskPriority::LOW, 0);
    let stored = Task::new("Stored".to_owned(), "text".to_owned(), TaskPriority::LOW, 0);
    file.cards.push(LocalCard {
        id: lost.id,
        title: "Lost".to_owned(),
        description: "text".to_owned(),
        priority: TaskPriority::LOW,
        column_id: ColumnId::new("gone"),
        archived: false,
        archived_by_sync: false,
    });
    file.cards.push(LocalCard {
        id: home.id,
        title: "Home".to_owned(),
        description: "text".to_owned(),
        priority: TaskPriority::LOW,
        column_id: ColumnId::new("todo"),
        archived: false,
        archived_by_sync: false,
    });
    file.cards.push(LocalCard {
        id: stored.id,
        title: "Stored".to_owned(),
        description: "text".to_owned(),
        priority: TaskPriority::LOW,
        column_id: ColumnId::new("gone"),
        archived: true,
        archived_by_sync: false,
    });
    let warnings = missing_column_warnings(&ColumnConfig::defaults(), &file);
    assert_eq!(warnings, vec!["card 'Lost' references missing column 'gone'; displayed in 'Inbox'".to_owned()]);
}

#[test]
fn cards_in_view_follow_the_offsets_and_the_capacity() {
    let (board, ids) = board_with_cards();
    let visible = board.visible_cards(1, &vec![0, 1, 0, 0, 0], 3, 5);
    assert_eq!(visible, vec![ids[1], ids[2]]);
    let visible = board.visible_cards(0, &vec![], 5, 1);
    assert_eq!(visible, vec![ids[0], ids[2]]);
    assert!(board.visible_cards(4, &vec![], 3, 5).is_empty());
}

#[test]
fn swapping_configured_columns_exchanges_them() {
    let mut config = kodeck::domain::WorkspaceConfig::new(WorkspaceId::generate(), "Board".to_owned());
    config.swap_columns(0, 4);
    assert_eq!(config.columns[0].id.as_str(), "done");
    assert_eq!(config.columns[4].id.as_str(), "inbox");
    assert_eq!(config.columns[1].id.as_str(), "todo");
}

fn flags() -> ViewFlags {
    ViewFlags {
        help_open: false,
        help_scroll: 3,
        goto_pending: false,
        detail_scroll: None,
        confirm_selected: None,
    }
}

#[test]
fn help_opens_at_its_top_and_scrolls_by_a_line() {
    let opened = view_step(flags(), Action::ShowHelp);
    assert!(opened.help_open);
    assert_eq!(opened.help_scroll, 0);
    assert_eq!(view_step(opened, Action::ScrollUp).help_scroll, 0);
    assert_eq!(view_step(opened, Action::ScrollDown).help_scroll, 1);
    let at_end = ViewFlags { help_scroll: usize::MAX, ..opened };
    assert_eq!(view_step(at_end, Action::ScrollDown).help_scroll, usize::MAX);
}

#[test]
fn open_details_scroll_by_four_lines_unless_the_help_covers_them() {
    let details = ViewFlags { detail_scroll: Some(2), ..flags() };
    assert_eq!(view_step(details, Action::ScrollDown).detail_scroll, Some(6));
    assert_eq!(view_step(details, Action::ScrollUp).detail_scroll, Some(0));
    assert_eq!(view_step(details, Action::ScrollUp).help_scroll, 3);
    let near_end = ViewFlags { detail_scroll: Some(u16::MAX - 1), ..flags() };
    assert_eq!(view_step(near_end, Action::ScrollDown).detail_scroll, Some(u16::MAX));
    let covered = ViewFlags { help_open: true, ..details };
    let scrolled = view_step(covered, Action::ScrollDown);
    assert_eq!(scrolled.detail_scroll, Some(2));
    assert_eq!(scrolled.help_scroll, 4);
}

#[test]
fn goto_waits_for_a_target_and_each_target_ends_the_wait() {
    let waiting = view_step(flags(), Action::EnterGoto);
    assert!(waiting.goto_pending);
    for target in [
        Action::GotoFirstCard,
        Action::GotoLastCard,
        Action::GotoFirstColumn,
        Action::GotoLastColumn,
        Action::GotoVisibleCard,
    ] {
        assert!(!view_step(waiting, target).goto_pending);
    }
    assert!(view_step(waiting, Action::MoveFocusDown).goto_pending);
}

#[test]
fn confirmation_choice_toggles_accepts_and_rejects() {
    let pending = ViewFlags { confirm_selected: Some(false), ..flags() };
    assert_eq!(view_step(pending, Action::ToggleChoice).confirm_selected, Some(true));
    assert_eq!(view_step(pending, Action::Accept).confirm_selected, Some(true));
    assert_eq!(view_step(pending, Action::Reject).confirm_selected, None);
    assert_eq!(view_step(flags(), Action::ToggleChoice).confirm_selected, None);
    assert_eq!(view_step(flags(), Action::Accept).confirm_selected, None);
    assert_eq!(view_step(pending, Action::NewCard), pending);
}
