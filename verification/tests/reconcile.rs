use kodeck::domain::{
    AnnotationDisposition, AnnotationId, CardId, CardsFile, CodeAnnotation, ColumnId, Finding,
    LocalCard, OrderingEntry, RepositoryId, TaskPriority, WorkspaceId,
};
use kodeck::scan::reconcile::reconcile_annotations;

fn finding(line: usize, tag: &str, message: &str) -> Finding {
    Finding {
        repository_id: RepositoryId::new("repo"),
        path: "src/main.rs".to_owned(),
        line,
        tag: tag.to_owned(),
        message: message.to_owned(),
    }
}

fn annotation(
    id: AnnotationId,
    line: usize,
    message: &str,
    disposition: AnnotationDisposition,
) -> CodeAnnotation {
    CodeAnnotation {
        id,
        repository_id: RepositoryId::new("repo"),
        path: "src/main.rs".to_owned(),
        line,
        tag: "TODO".to_owned(),
        message: message.to_owned(),
        occurrence: 0,
        present: true,
        disposition,
    }
}

fn managed_card(card_id: CardId) -> LocalCard {
    LocalCard {
        id: card_id,
        title: "Managed".to_owned(),
        description: "Managed".to_owned(),
        priority: TaskPriority::LOW,
        column_id: ColumnId::new("inbox"),
        archived: false,
        archived_by_sync: false,
    }
}

#[test]
fn exact_annotation_survives_line_moves_without_duplication() {
    let id = AnnotationId::generate();
    let mut cards = CardsFile::empty(WorkspaceId::generate());
    cards.annotations.push(annotation(
        id,
        4,
        "keep identity",
        AnnotationDisposition::Unassigned,
    ));

    let (next, summary) =
        reconcile_annotations(&cards, vec![finding(40, "TODO", "keep identity")]);

    assert_eq!(next.annotations.len(), 1);
    assert_eq!(next.annotations[0].id, id);
    assert_eq!(next.annotations[0].line, 40);
    assert_eq!(summary.created, 0);
}

#[test]
fn cautious_matching_updates_one_linked_annotation_but_not_an_ignored_one() {
    let card_id = CardId::generate();
    let linked_id = AnnotationId::generate();
    let ignored_id = AnnotationId::generate();
    let mut cards = CardsFile::empty(WorkspaceId::generate());
    cards.cards.push(managed_card(card_id));
    cards.ordering.push(OrderingEntry {
        column_id: ColumnId::new("inbox"),
        cards: vec![card_id],
    });
    cards.annotations.push(annotation(
        linked_id,
        4,
        "old linked",
        AnnotationDisposition::Linked { card_id },
    ));

    let (next, _) = reconcile_annotations(&cards, vec![finding(5, "TODO", "new linked")]);
    assert_eq!(next.annotations.len(), 1);
    assert_eq!(next.annotations[0].id, linked_id);
    assert_eq!(next.annotations[0].message, "new linked");

    let mut ignored = CardsFile::empty(WorkspaceId::generate());
    ignored.annotations.push(annotation(
        ignored_id,
        4,
        "old ignored",
        AnnotationDisposition::Ignored,
    ));
    let (next, _) = reconcile_annotations(&ignored, vec![finding(5, "TODO", "new ignored")]);
    assert_eq!(next.annotations.len(), 2);
    assert!(!next.annotations[0].present);
    assert!(next.annotations[1].present);
    assert!(matches!(
        next.annotations[1].disposition,
        AnnotationDisposition::Unassigned
    ));
}

#[test]
fn cards_archive_when_all_sources_disappear_and_restore_only_after_sync_archives() {
    let card_id = CardId::generate();
    let annotation_id = AnnotationId::generate();
    let mut cards = CardsFile::empty(WorkspaceId::generate());
    cards.cards.push(managed_card(card_id));
    cards.ordering.push(OrderingEntry {
        column_id: ColumnId::new("inbox"),
        cards: vec![card_id],
    });
    cards.annotations.push(annotation(
        annotation_id,
        4,
        "managed",
        AnnotationDisposition::Linked { card_id },
    ));

    let (archived, summary) = reconcile_annotations(&cards, Vec::new());
    assert!(archived.cards[0].archived);
    assert!(archived.cards[0].archived_by_sync);
    assert_eq!(summary.archived_cards, 1);

    let (restored, summary) =
        reconcile_annotations(&archived, vec![finding(8, "TODO", "managed")]);
    assert!(!restored.cards[0].archived);
    assert!(!restored.cards[0].archived_by_sync);
    assert_eq!(summary.restored_cards, 1);

    let mut manual = archived;
    manual.cards[0].archived_by_sync = false;
    let (still_archived, _) =
        reconcile_annotations(&manual, vec![finding(8, "TODO", "managed")]);
    assert!(still_archived.cards[0].archived);
}

#[test]
fn archiving_takes_the_card_out_of_the_order_and_restoring_puts_it_back() {
    let card_id = CardId::generate();
    let mut cards = CardsFile::empty(WorkspaceId::generate());
    cards.cards.push(managed_card(card_id));
    cards.ordering.push(OrderingEntry {
        column_id: ColumnId::new("inbox"),
        cards: vec![card_id],
    });
    cards.annotations.push(annotation(
        AnnotationId::generate(),
        4,
        "managed",
        AnnotationDisposition::Linked { card_id },
    ));
    let (archived, _) = reconcile_annotations(&cards, Vec::new());
    assert!(archived.ordering[0].cards.is_empty());
    let (restored, _) = reconcile_annotations(&archived, vec![finding(4, "todo", "managed")]);
    assert_eq!(restored.ordering[0].cards, vec![card_id]);
}

#[test]
fn new_findings_become_unassigned_annotations_in_sorted_order() {
    let cards = CardsFile::empty(WorkspaceId::generate());
    let (next, summary) = reconcile_annotations(
        &cards,
        vec![finding(9, "FIXME", "later"), finding(2, "TODO", "first"), finding(2, "TODO", "first")],
    );
    assert_eq!(summary.created, 3);
    assert_eq!(summary.present, 3);
    assert_eq!(summary.unassigned, 3);
    assert_eq!(next.annotations[0].line, 2);
    assert_eq!(next.annotations[0].occurrence, 0);
    assert_eq!(next.annotations[1].occurrence, 1);
    assert_eq!(next.annotations[2].line, 9);
    assert_ne!(next.annotations[0].id, next.annotations[1].id);
}

#[test]
fn vanished_annotations_are_counted_as_disappeared() {
    let mut cards = CardsFile::empty(WorkspaceId::generate());
    cards.annotations.push(annotation(
        AnnotationId::generate(),
        3,
        "gone",
        AnnotationDisposition::Unassigned,
    ));
    let (next, summary) = reconcile_annotations(&cards, Vec::new());
    assert_eq!(summary.disappeared, 1);
    assert_eq!(summary.present, 0);
    assert!(!next.annotations[0].present);
}

#[test]
fn reconciling_again_with_the_same_findings_changes_nothing() {
    let card_id = CardId::generate();
    let gone_card = CardId::generate();
    let mut cards = CardsFile::empty(WorkspaceId::generate());
    cards.cards.push(managed_card(card_id));
    cards.cards.push(managed_card(gone_card));
    cards.ordering.push(OrderingEntry {
        column_id: ColumnId::new("inbox"),
        cards: vec![card_id, gone_card],
    });
    cards.annotations.push(annotation(
        AnnotationId::generate(),
        3,
        "kept",
        AnnotationDisposition::Linked { card_id },
    ));
    cards.annotations.push(annotation(
        AnnotationId::generate(),
        7,
        "old wording",
        AnnotationDisposition::Linked { card_id },
    ));
    let mut other = annotation(
        AnnotationId::generate(),
        1,
        "gone",
        AnnotationDisposition::Linked { card_id: gone_card },
    );
    other.path = "src/lib.rs".to_owned();
    cards.annotations.push(other);
    let findings = vec![
        finding(12, "TODO", "new wording"),
        finding(5, "TODO", "kept"),
        finding(20, "FIXME", "fresh"),
    ];

    let (first, first_summary) = reconcile_annotations(&cards, findings.clone());
    assert_eq!(first_summary.updated, 2);
    assert_eq!(first_summary.created, 1);
    assert_eq!(first_summary.disappeared, 1);
    assert_eq!(first_summary.archived_cards, 1);

    let (second, second_summary) = reconcile_annotations(&first, findings);
    assert_eq!(second.annotations, first.annotations);
    assert_eq!(second.cards, first.cards);
    assert_eq!(second.ordering, first.ordering);
    assert_eq!(second_summary.created, 0);
    assert_eq!(second_summary.updated, 0);
    assert_eq!(second_summary.disappeared, 0);
    assert_eq!(second_summary.archived_cards, 0);
    assert_eq!(second_summary.restored_cards, 0);
    assert_eq!(second_summary.present, first_summary.present);
    assert_eq!(second_summary.unassigned, first_summary.unassigned);
}
