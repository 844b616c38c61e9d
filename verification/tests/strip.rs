use kodeck::models::column::Column;
use kodeck::models::strip::{
    left_space, scroll_left, scroll_right, scroll_to_column, send_task_to_column, total_width, ColumnStrip,
};
use kodeck::models::task::{Task, TaskPriority};

fn columns(widths: &[usize]) -> Vec<Column> {
    widths.iter().enumerate().map(|(i, width)| Column::new(format!("c{i}"), *width)).collect()
}

fn task(title: &str) -> Task {
    Task::new(title.to_owned(), "d".to_owned(), TaskPriority::LOW, 0)
}

#[test]
fn widths_add_up_and_columns_start_after_their_predecessors_and_gaps() {
    let columns = columns(&[30, 40, 50]);
    assert_eq!(total_width(&columns), 120);
    assert_eq!(left_space(&columns, 0), 0);
    assert_eq!(left_space(&columns, 1), 34);
    assert_eq!(left_space(&columns, 2), 78);
    let huge = vec![Column::new("a".to_owned(), usize::MAX), Column::new("b".to_owned(), 1)];
    assert_eq!(left_space(&huge, 2), usize::MAX);
}

#[test]
fn scrolling_moves_in_steps_within_the_columns() {
    assert_eq!(scroll_right(0, 120, 100), 5);
    assert_eq!(scroll_right(18, 120, 100), 20);
    assert_eq!(scroll_right(20, 120, 100), 20);
    assert_eq!(scroll_right(0, 80, 100), 0);
    assert_eq!(scroll_left(7, 120, 100), 2);
    assert_eq!(scroll_left(3, 120, 100), 0);
    assert_eq!(scroll_left(7, 80, 100), 7);
}

#[test]
fn scrolling_to_a_column_moves_as_little_as_possible() {
    assert_eq!(scroll_to_column(0, 78, 50, 100), 28);
    assert_eq!(scroll_to_column(40, 34, 40, 100), 34);
    assert_eq!(scroll_to_column(10, 34, 40, 100), 10);
}

#[test]
fn a_task_moves_to_the_end_of_another_column() {
    let mut columns = columns(&[30, 30]);
    columns[0].tasks.push(task("a"));
    columns[0].tasks.push(task("b"));
    columns[1].tasks.push(task("c"));
    send_task_to_column(&mut columns, 0, 0, 1);
    assert_eq!(columns[0].tasks.len(), 1);
    assert_eq!(columns[0].tasks[0].title, "b");
    assert_eq!(columns[1].tasks[1].title, "a");
}

#[test]
fn the_focused_task_follows_its_moves_and_stops_at_the_edges() {
    let mut strip = ColumnStrip { columns: columns(&[30, 30, 30]), focused_column: 0, focused_task: 0, scroll_x: 0, area_width: 80 };
    strip.columns[0].tasks.push(task("a"));
    strip.send_task(false);
    assert_eq!((strip.focused_column, strip.focused_task), (0, 0));
    strip.send_task(true);
    assert_eq!((strip.focused_column, strip.focused_task), (1, 0));
    strip.send_task(true);
    assert_eq!((strip.focused_column, strip.focused_task), (2, 0));
    strip.send_task(true);
    assert_eq!((strip.focused_column, strip.focused_task), (2, 0));
    assert_eq!(strip.columns[2].tasks[0].title, "a");
}

#[test]
fn deleting_the_focused_column_moves_the_focus_left() {
    let mut strip = ColumnStrip { columns: columns(&[30, 30, 30]), focused_column: 2, focused_task: 0, scroll_x: 0, area_width: 80 };
    strip.delete_column(2);
    assert_eq!(strip.columns.len(), 2);
    assert_eq!(strip.focused_column, 1);
    strip.focused_column = 0;
    strip.delete_column(1);
    assert_eq!(strip.focused_column, 0);
}

#[test]
fn the_strip_scrolls_to_its_focused_column() {
    let mut strip = ColumnStrip { columns: columns(&[30, 40, 50]), focused_column: 2, focused_task: 0, scroll_x: 0, area_width: 100 };
    strip.scroll_to_focused_column();
    assert_eq!(strip.scroll_x, 28);
    strip.focused_column = 0;
    strip.scroll_to_focused_column();
    assert_eq!(strip.scroll_x, 0);
}

#[test]
fn a_task_needs_a_title_and_a_description_and_goes_last() {
    let mut strip = ColumnStrip { columns: columns(&[30, 30]), focused_column: 1, focused_task: 0, scroll_x: 0, area_width: 80 };
    assert!(!strip.add_task(String::new(), "d".to_owned(), TaskPriority::LOW));
    assert!(!strip.add_task("t".to_owned(), String::new(), TaskPriority::LOW));
    assert!(strip.columns[1].tasks.is_empty());
    assert!(strip.add_task("first".to_owned(), "d".to_owned(), TaskPriority::HIGH));
    assert!(strip.add_task("second".to_owned(), "d".to_owned(), TaskPriority::LOW));
    assert_eq!(strip.columns[1].tasks[1].title, "second");
    assert_eq!(strip.columns[1].tasks[1].order, 1);
    assert!(strip.columns[0].tasks.is_empty());
}

#[test]
fn task_focus_goes_round_the_way_wrapping_arithmetic_does() {
    let mut strip = ColumnStrip { columns: columns(&[30]), focused_column: 0, focused_task: 0, scroll_x: 0, area_width: 80 };
    strip.focus_task_wrapping(false);
    assert_eq!(strip.focused_task, 0);
    for title in ["a", "b", "c"] {
        strip.columns[0].tasks.push(task(title));
    }
    strip.focus_task_wrapping(false);
    strip.focus_task_wrapping(false);
    assert_eq!(strip.focused_task, 2);
    strip.focus_task_wrapping(false);
    assert_eq!(strip.focused_task, 0);
    strip.focus_task_wrapping(true);
    assert_eq!(strip.focused_task, usize::MAX % 3);
}

#[test]
fn removing_the_focused_task_moves_the_focus_up() {
    let mut strip = ColumnStrip { columns: columns(&[30]), focused_column: 0, focused_task: 2, scroll_x: 0, area_width: 80 };
    for title in ["a", "b", "c"] {
        strip.columns[0].tasks.push(task(title));
    }
    strip.remove_focused_task();
    assert_eq!(strip.columns[0].tasks.len(), 2);
    assert_eq!(strip.focused_task, 1);
    strip.focused_task = 5;
    strip.remove_focused_task();
    assert_eq!(strip.columns[0].tasks.len(), 2);
    strip.focused_task = 0;
    strip.remove_focused_task();
    strip.remove_focused_task();
    assert!(strip.columns[0].tasks.is_empty());
    assert_eq!(strip.focused_task, 0);
}

#[test]
fn column_focus_goes_round_and_scrolls_into_view() {
    let mut strip = ColumnStrip { columns: columns(&[30, 40, 50]), focused_column: 0, focused_task: 3, scroll_x: 0, area_width: 100 };
    strip.cycle_column(false);
    assert_eq!((strip.focused_column, strip.focused_task, strip.scroll_x), (2, 0, 28));
    strip.cycle_column(true);
    assert_eq!((strip.focused_column, strip.scroll_x), (0, 0));
}

#[test]
fn the_delete_prompt_deletes_only_on_yes() {
    let mut strip = ColumnStrip { columns: columns(&[30, 40]), focused_column: 1, focused_task: 0, scroll_x: 0, area_width: 100 };
    let mut prompt = kodeck::models::column::DeleteColumnPopup::new();
    strip.answer_delete_prompt(prompt, 1);
    assert_eq!(strip.columns.len(), 2);
    prompt.toggle();
    strip.answer_delete_prompt(prompt, 1);
    assert_eq!(strip.columns.len(), 1);
    assert_eq!(strip.focused_column, 0);
}
