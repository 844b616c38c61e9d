use kodeck::tui::ui::{
    abbreviated_path, board_areas, column_areas, detail_placement, detail_width, fit_columns, truncate, DetailPlacement,
    Rect, ViewportState, COLUMN_GAP, MAX_COLUMN_WIDTH, MIN_COLUMN_WIDTH, MIN_TERMINAL_WIDTH,
};

#[test]
fn responsive_layout_uses_only_complete_columns() {
    for (width, expected) in [(40u16, 0usize), (60, 2), (80, 2), (120, 4), (160, 4)] {
        if width < MIN_TERMINAL_WIDTH {
            continue;
        }
        let (visible, column_width) = fit_columns(width, 8);
        assert_eq!(visible, expected);
        assert!((MIN_COLUMN_WIDTH..=MAX_COLUMN_WIDTH).contains(&column_width));
        let used = visible as u32 * column_width as u32 + (visible as u32 - 1) * COLUMN_GAP as u32;
        assert!(used <= width as u32);
    }
}

#[test]
fn detail_switches_between_overlay_and_panel() {
    assert_eq!(detail_placement(80, true), DetailPlacement::Overlay);
    assert_eq!(detail_placement(120, true), DetailPlacement::Panel);
    assert!((36..=48).contains(&detail_width(120)));
    assert_eq!(detail_placement(120, false), DetailPlacement::Closed);
}

#[test]
fn viewport_reveals_columns_and_whole_cards() {
    let mut viewport = ViewportState::default();
    viewport.ensure_columns(8);
    viewport.reveal_column(6, 3, 8);
    assert_eq!(viewport.first_column, 4);
    viewport.reveal_column(1, 3, 8);
    assert_eq!(viewport.first_column, 1);

    viewport.reveal_card(1, 9, 4);
    assert_eq!(viewport.card_offsets[1], 6);
    viewport.reveal_card(1, 2, 4);
    assert_eq!(viewport.card_offsets[1], 2);
}

#[test]
fn truncation_marks_long_text() {
    assert_eq!(truncate("A very long title", 8), "A very …");
    assert_eq!(truncate("short", 8), "short");
}

#[test]
fn a_single_column_takes_at_most_the_maximum_width() {
    assert_eq!(fit_columns(200, 1), (1, MAX_COLUMN_WIDTH));
    assert_eq!(fit_columns(20, 3), (1, 20));
}

#[test]
fn long_paths_keep_their_last_components() {
    assert_eq!(abbreviated_path("/home/user/projects/oryx", 40), "/home/user/projects/oryx");
    let short = abbreviated_path("/home/user/projects/oryx-migration", 20);
    assert!(short.chars().count() <= 20);
    assert!(short.ends_with("oryx-migration"));
}

#[test]
fn column_areas_sit_side_by_side_and_stay_within_the_board() {
    let board = Rect { x: 2, y: 3, width: 90, height: 20 };
    let areas = column_areas(board, 3, 29);
    assert_eq!(areas.len(), 3);
    assert_eq!((areas[0].x, areas[1].x, areas[2].x), (2, 32, 62));
    assert!(areas.iter().all(|area| area.y == 3 && area.width == 29 && area.height == 20));
    let narrow = Rect { x: 0, y: 0, width: 60, height: 10 };
    assert_eq!(column_areas(narrow, 3, 29).len(), 2);
}

#[test]
fn swapping_offsets_moves_them_with_their_columns() {
    let mut viewport = ViewportState { first_column: 1, card_offsets: vec![3, 0, 7] };
    viewport.swap_offsets(0, 2);
    assert_eq!(viewport.card_offsets, vec![7, 0, 3]);
    viewport.swap_offsets(0, 5);
    assert_eq!(viewport.card_offsets, vec![7, 0, 3]);
    assert_eq!(viewport.first_column, 1);
}

#[test]
fn the_board_screen_splits_into_header_board_status_and_footer() {
    assert!(board_areas(Rect { x: 0, y: 0, width: 40, height: 30 }, 5, false).is_none());
    let narrow = board_areas(Rect { x: 0, y: 0, width: 100, height: 30 }, 5, true).unwrap();
    assert_eq!(narrow.placement, DetailPlacement::Overlay);
    assert_eq!(narrow.header, Rect { x: 0, y: 0, width: 100, height: 2 });
    assert_eq!(narrow.board, Rect { x: 0, y: 2, width: 100, height: 26 });
    assert_eq!(narrow.status.y, 28);
    assert_eq!(narrow.footer.y, 29);
    assert!(narrow.detail.is_none());
    let wide = board_areas(Rect { x: 0, y: 0, width: 150, height: 30 }, 5, true).unwrap();
    assert_eq!(wide.placement, DetailPlacement::Panel);
    assert_eq!(wide.board.width, 101);
    assert_eq!(wide.detail, Some(Rect { x: 102, y: 2, width: 48, height: 26 }));
    assert_eq!((wide.visible_columns, wide.column_width), fit_columns(101, 5));
}
