use kodeck::domain::{
    AnnotationDisposition, AnnotationId, AnnotationTagMapping, CardId, CodeAnnotation, Column,
    ColumnId, RepositoryId, TaskPriority,
};
use kodeck::tui::review::{
    annotation_card_draft, ignore_annotations, visible_annotation_ids, AnnotationReviewState,
};
use kodeck::tui::state::AnnotationFilter;

fn annotation(path: &str, line: usize, tag: &str, present: bool, disposition: AnnotationDisposition) -> CodeAnnotation {
    CodeAnnotation {
        id: AnnotationId::generate(),
        repository_id: RepositoryId::new("repo"),
        path: path.to_owned(),
        line,
        tag: tag.to_owned(),
        message: format!("{tag} at {line}"),
        occurrence: 0,
        present,
        disposition,
    }
}

fn columns() -> Vec<Column> {
    ["inbox", "todo", "done"]
        .iter()
        .map(|id| Column::new(ColumnId::new(id), id.to_string(), 50))
        .collect()
}

#[test]
fn the_unassigned_filter_lists_present_unassigned_annotations_by_place() {
    let annotations = vec![
        annotation("b.rs", 1, "TODO", true, AnnotationDisposition::Unassigned),
        annotation("a.rs", 9, "TODO", true, AnnotationDisposition::Unassigned),
        annotation("a.rs", 2, "BUG", false, AnnotationDisposition::Unassigned),
        annotation("a.rs", 3, "BUG", true, AnnotationDisposition::Ignored),
    ];
    let visible = visible_annotation_ids(&annotations, AnnotationFilter::Unassigned);
    assert_eq!(visible, vec![annotations[1].id, annotations[0].id]);
    let missing = visible_annotation_ids(&annotations, AnnotationFilter::Missing);
    assert_eq!(missing, vec![annotations[2].id]);
    assert_eq!(visible_annotation_ids(&annotations, AnnotationFilter::All).len(), 4);
    assert_eq!(
        visible_annotation_ids(&annotations, AnnotationFilter::Ignored),
        vec![annotations[3].id]
    );
}

#[test]
fn only_present_unassigned_annotations_can_be_selected_and_ignored() {
    let mut annotations = vec![
        annotation("a.rs", 1, "TODO", true, AnnotationDisposition::Unassigned),
        annotation("a.rs", 2, "TODO", false, AnnotationDisposition::Unassigned),
    ];
    let mut review = AnnotationReviewState::new();
    let all = visible_annotation_ids(&annotations, AnnotationFilter::All);
    assert!(review.toggle_selection(&annotations, &all));
    review.move_focus(all.len(), false);
    assert!(!review.toggle_selection(&annotations, &all));
    let targets = review.targeted(&all);
    assert_eq!(targets, vec![annotations[0].id]);
    let changed = ignore_annotations(&mut annotations, &all);
    assert_eq!(changed, 1);
    assert_eq!(annotations[0].disposition, AnnotationDisposition::Ignored);
    assert_eq!(annotations[1].disposition, AnnotationDisposition::Unassigned);
}

#[test]
fn a_card_draft_takes_the_strongest_mapping_and_describes_each_annotation() {
    let annotations = vec![
        annotation("b.rs", 7, "TODO", true, AnnotationDisposition::Unassigned),
        annotation("a.rs", 3, "bug", true, AnnotationDisposition::Unassigned),
        annotation("a.rs", 5, "TODO", true, AnnotationDisposition::Linked { card_id: CardId::generate() }),
    ];
    let targets: Vec<AnnotationId> = annotations.iter().map(|a| a.id).collect();
    let draft = annotation_card_draft(&annotations, &targets, &AnnotationTagMapping::defaults(), &columns(), 2).unwrap();
    assert_eq!(draft.annotation_ids, vec![annotations[1].id, annotations[0].id]);
    assert_eq!(draft.title, "bug at 3");
    assert_eq!(
        draft.description,
        "- [bug] repo:a.rs:3 — bug at 3\n- [TODO] repo:b.rs:7 — TODO at 7"
    );
    assert_eq!(draft.priority, TaskPriority::HIGH);
    assert_eq!(draft.target_column, 0);
    assert!(annotation_card_draft(&annotations, &Vec::new(), &Vec::new(), &columns(), 2).is_none());
}

#[test]
fn cycling_the_filter_resets_focus_and_selection() {
    let mut review = AnnotationReviewState::new();
    review.focused = 3;
    review.selected = vec![AnnotationId::generate()];
    review.cycle_filter();
    assert_eq!(review.filter, AnnotationFilter::All);
    assert_eq!(review.focused, 0);
    assert!(review.selected.is_empty());
    assert_eq!(AnnotationFilter::Ignored.next(), AnnotationFilter::Unassigned);
    assert_eq!(AnnotationFilter::Missing.label(), "missing");
}
