use kodeck::models::column::{Column, DeleteColumnPopup};
use kodeck::models::task::{Task, TaskPriority};
use kodeck::domain::task::TaskPriority as CardPriority;

#[test]
fn first_model_priorities_use_lower_case_names() {
    for priority in [TaskPriority::HIGH, TaskPriority::MEDIUM, TaskPriority::LOW] {
        assert_eq!(TaskPriority::from_value(&priority.value()), Some(priority));
    }
    assert_eq!(TaskPriority::HIGH.value(), "high");
    assert_eq!(TaskPriority::from_value("HIGH"), None);
}

#[test]
fn card_priorities_use_upper_case_names() {
    for priority in [CardPriority::HIGH, CardPriority::MEDIUM, CardPriority::LOW] {
        assert_eq!(CardPriority::from_value(&priority.value()), Some(priority));
    }
    assert_eq!(CardPriority::MEDIUM.value(), "MEDIUM");
    assert_eq!(CardPriority::from_value("medium"), None);
}

#[test]
fn new_columns_and_popups_start_empty() {
    let mut column = Column::new("Todo".to_owned(), 40);
    assert!(column.tasks.is_empty());
    column.tasks.push(Task::new("t".to_owned(), "d".to_owned(), TaskPriority::LOW, 0));
    assert_eq!(column.tasks[0].order, 0);
    assert!(!DeleteColumnPopup::new().delete);
}
