use kodeck::domain::{CardId, CardsFile, ColumnConfig, ColumnId, LocalCard, OrderingEntry, Task, TaskPriority, WorkspaceId};
use kodeck::tui::board::{
    check_task_form, goto_label_key, goto_targets, key_context, new_column_id, Board, GotoOutcome,
};
use kodeck::tui::keymap::{KeyCode, KeyContext, KeyInput};
use kodeck::tui::state::GotoLabelsState;

fn empty_board() -> Board {
    let file = CardsFile::empty(WorkspaceId::generate());
    Board::from_cards(&ColumnConfig::defaults(), &file)
}

fn add_task(board: &mut Board, column: usize, title: &str) -> CardId {
    let order = board.columns[column].tasks.len();
    let task = Task::new(
        title.to_owned(),
        format!("Description for {title}"),
        TaskPriority::MEDIUM,
        order,
    );
    let id = task.id;
    board.add_task(column, task);
    id
}

fn card_count(board: &Board) -> usize {
    board.columns.iter().map(|column| column.tasks.len()).sum()
}

#[test]
fn selected_cards_move_one_column_right_and_the_selection_clears() {
    let mut board = empty_board();
    let first = add_task(&mut board, 0, "Inbox");
    let second = add_task(&mut board, 1, "Todo");
    let last_column = board.columns.len() - 1;
    let boundary = add_task(&mut board, last_column, "Already done");
    board.selected = vec![first, second, boundary];

    let plans = board.relative_move_plans(false);
    let last = board.apply_move_plans(&plans);

    assert_eq!(board.locate_card(first).unwrap().0, 1);
    assert_eq!(board.locate_card(second).unwrap().0, 2);
    assert_eq!(board.locate_card(boundary).unwrap().0, last_column);
    assert!(board.selected.is_empty());
    assert_eq!(last, Some(second));
    assert_eq!(card_count(&board), 3);
}

#[test]
fn cards_from_several_columns_go_to_one_destination() {
    let mut board = empty_board();
    let first = add_task(&mut board, 0, "Inbox");
    let second = add_task(&mut board, 1, "Todo");
    board.selected = vec![first, second];
    let plans = board.move_plans_to(3);
    board.apply_move_plans(&plans);
    assert_eq!(board.locate_card(first), Some((3, 0)));
    assert_eq!(board.locate_card(second), Some((3, 1)));
}

#[test]
fn archiving_takes_cards_off_the_board_into_the_archive() {
    let mut board = empty_board();
    let card_id = add_task(&mut board, 0, "Keep or archive");
    board.archive_cards(&vec![card_id]);
    assert!(board.locate_card(card_id).is_none());
    assert_eq!(board.archived.last().unwrap().task.id, card_id);
    assert_eq!(board.archived.last().unwrap().column_id, ColumnId::new("inbox"));
    assert!(!board.archived.last().unwrap().task.archived_by_sync);
}

#[test]
fn goto_edges_find_the_first_and_last_cards() {
    let mut board = empty_board();
    let first = add_task(&mut board, 0, "First target");
    let last_column = board.columns.len() - 1;
    let last = add_task(&mut board, last_column, "Last target");
    assert!(board.goto_edge_card(false));
    assert_eq!(board.focused_card_id(), Some(first));
    assert!(board.goto_edge_card(true));
    assert_eq!(board.focused_card_id(), Some(last));
    let mut empty = empty_board();
    assert!(!empty.goto_edge_card(true));
}

#[test]
fn typing_a_whole_label_jumps_to_its_card() {
    let visible: Vec<CardId> = (0..30).map(|_| CardId::generate()).collect();
    let targets = goto_targets(&visible);
    assert_eq!(targets[0].label, "aa");
    assert_eq!(targets[1].label, "as");
    assert_eq!(targets[26].label, "sa");
    let mut state = GotoLabelsState { targets, input: String::new() };
    assert_eq!(goto_label_key(&mut state, KeyInput::plain(KeyCode::Char('S'))), GotoOutcome::Pending);
    assert_eq!(
        goto_label_key(&mut state, KeyInput::plain(KeyCode::Char('a'))),
        GotoOutcome::Jump(visible[26])
    );
    let mut other = GotoLabelsState { targets: goto_targets(&visible), input: String::new() };
    assert_eq!(goto_label_key(&mut other, KeyInput::plain(KeyCode::Char('z'))), GotoOutcome::Unknown);
    assert_eq!(goto_label_key(&mut other, KeyInput::plain(KeyCode::Esc)), GotoOutcome::Closed);
}

#[test]
fn the_cards_file_of_a_board_loads_back_into_the_same_board() {
    let mut board = empty_board();
    let a = add_task(&mut board, 0, "A");
    let b = add_task(&mut board, 0, "B");
    let c = add_task(&mut board, 2, "C");
    board.archive_cards(&vec![b]);
    let workspace = WorkspaceId::generate();
    let file = board.cards_file(workspace, Vec::new());
    assert_eq!(file.cards.len(), 3);
    assert!(file.cards[2].archived);
    assert!(file.validate_for(workspace).is_ok());
    let loaded = Board::from_cards(&ColumnConfig::defaults(), &file);
    assert_eq!(loaded.locate_card(a), Some((0, 0)));
    assert_eq!(loaded.locate_card(c), Some((2, 0)));
    assert!(loaded.locate_card(b).is_none());
    assert_eq!(loaded.archived[0].task.id, b);
}

#[test]
fn unordered_cards_land_in_their_column_or_the_first() {
    let mut file = CardsFile::empty(WorkspaceId::generate());
    let orphan = CardId::generate();
    let placed = CardId::generate();
    for (id, column) in [(orphan, "gone"), (placed, "review")] {
        file.cards.push(LocalCard {
            id,
            title: "t".to_owned(),
            description: "d".to_owned(),
            priority: TaskPriority::LOW,
            column_id: ColumnId::new(column),
            archived: false,
            archived_by_sync: false,
        });
    }
    file.ordering.push(OrderingEntry { column_id: ColumnId::new("review"), cards: vec![] });
    let board = Board::from_cards(&ColumnConfig::defaults(), &file);
    assert_eq!(board.locate_card(orphan), Some((0, 0)));
    assert_eq!(board.locate_card(placed), Some((3, 0)));
}

#[test]
fn new_column_ids_are_slugs_made_unique() {
    let columns = ColumnConfig::defaults();
    assert_eq!(new_column_id("  Code Review  ", &columns), Some("code-review".to_owned()));
    assert_eq!(new_column_id("Review", &columns), Some("review-2".to_owned()));
    assert_eq!(new_column_id("!!!", &columns), Some("column".to_owned()));
    assert_eq!(new_column_id("   ", &columns), None);
}

#[test]
fn card_forms_need_a_title_and_a_description() {
    assert_eq!(check_task_form("  ", "body").err(), Some("Title is required"));
    assert_eq!(check_task_form("Title", " \n "), Err("Description is required"));
    assert_eq!(check_task_form("  Title ", "body"), Ok("Title".to_owned()));
}

#[test]
fn keys_go_to_the_innermost_open_context() {
    assert_eq!(key_context(true, true, false, false, false, false, false), KeyContext::Help);
    assert_eq!(key_context(false, false, false, false, true, true, true), KeyContext::Form);
    assert_eq!(key_context(false, false, false, false, false, false, true), KeyContext::Details);
    assert_eq!(key_context(false, false, false, false, false, false, false), KeyContext::Board);
}

#[test]
fn only_an_empty_column_can_be_deleted_and_one_always_remains() {
    let mut board = empty_board();
    add_task(&mut board, 1, "Busy");
    assert!(!board.delete_column(1));
    board.focused_column = 4;
    assert!(board.delete_column(4));
    assert_eq!(board.columns.len(), 4);
    assert_eq!(board.focused_column, 3);
}

#[test]
fn focus_stays_within_the_board() {
    let mut board = empty_board();
    add_task(&mut board, 0, "one");
    add_task(&mut board, 0, "two");
    board.focus_column(0);
    board.focused_task = 0;
    assert!(board.move_focus_task(false));
    assert!(board.move_focus_task(false));
    assert_eq!(board.focused_task, 1);
    board.move_focus_column(true);
    assert_eq!(board.focused_column, 0);
    board.focus_column(99);
    assert_eq!(board.focused_column, 4);
    assert_eq!(board.focused_task, 0);
}

#[test]
fn toggling_selection_adds_and_removes_the_focused_card() {
    let mut board = empty_board();
    let id = add_task(&mut board, 0, "one");
    assert!(board.toggle_focused_selection());
    assert_eq!(board.selected, vec![id]);
    assert!(board.toggle_focused_selection());
    assert!(board.selected.is_empty());
    board.focus_column(1);
    assert!(!board.toggle_focused_selection());
}
