use kodeck::tui::keymap::{footer_hints, help_lines, resolve, Action, KeyCode, KeyContext, KeyInput};

fn key(code: KeyCode) -> KeyInput {
    KeyInput::plain(code)
}

#[test]
fn resolves_primary_board_keys_and_navigation_aliases() {
    assert_eq!(
        resolve(KeyContext::Board, key(KeyCode::Char('h'))),
        Some(Action::MoveFocusLeft)
    );
    assert_eq!(
        resolve(KeyContext::Board, key(KeyCode::Left)),
        Some(Action::MoveFocusLeft)
    );
    assert_eq!(
        resolve(KeyContext::Board, key(KeyCode::Tab)),
        Some(Action::MoveFocusRight)
    );
    assert_eq!(
        resolve(KeyContext::Board, key(KeyCode::Char('H'))),
        Some(Action::MoveCardsLeft)
    );
    assert_eq!(
        resolve(KeyContext::Board, key(KeyCode::Char('['))),
        Some(Action::MoveColumnLeft)
    );
    assert_eq!(
        resolve(KeyContext::Board, key(KeyCode::Char(']'))),
        Some(Action::MoveColumnRight)
    );
    assert_eq!(
        resolve(KeyContext::Details, key(KeyCode::Char('['))),
        Some(Action::MoveColumnLeft)
    );
}

#[test]
fn old_action_keys_are_not_bound() {
    for old in ['t', 'c', 's', 'S', 'D', 'i', 'v'] {
        assert_eq!(resolve(KeyContext::Board, key(KeyCode::Char(old))), None);
    }
    assert_eq!(resolve(KeyContext::Board, key(KeyCode::Backspace)), None);
}

#[test]
fn contexts_do_not_leak_commands() {
    assert_eq!(resolve(KeyContext::Details, key(KeyCode::Char('q'))), None);
    assert_eq!(
        resolve(KeyContext::Goto, key(KeyCode::Char('w'))),
        Some(Action::GotoVisibleCard)
    );
    assert_eq!(
        resolve(KeyContext::Picker, key(KeyCode::Char('j'))),
        Some(Action::SelectNext)
    );
}

#[test]
fn ctrl_s_is_only_a_form_save_command() {
    let save = KeyInput::new(KeyCode::Char('s'), true, false);
    assert_eq!(resolve(KeyContext::Form, save), Some(Action::SaveForm));
    assert_eq!(resolve(KeyContext::Board, save), None);
}

#[test]
fn ctrl_r_syncs_annotations_but_plain_s_does_nothing() {
    let sync = KeyInput::new(KeyCode::Char('r'), true, false);
    assert_eq!(
        resolve(KeyContext::Board, sync),
        Some(Action::SyncAnnotations)
    );
    assert_eq!(
        resolve(KeyContext::Annotations, sync),
        Some(Action::SyncAnnotations)
    );
    assert_eq!(resolve(KeyContext::Board, key(KeyCode::Char('s'))), None);
}

#[test]
fn help_and_footer_are_derived_from_bindings() {
    assert!(footer_hints(KeyContext::Board).contains("n new card"));
    assert!(footer_hints(KeyContext::Board).contains("[/] reorder columns"));
    assert!(footer_hints(KeyContext::Goto).contains("gw visible card"));
    let help = help_lines().join("\n");
    assert!(help.contains("Navigation"));
    assert!(help.contains("Ctrl+S"));
    assert!(help.contains("Ctrl+R"));
    assert!(help.contains("[/]"));
    assert!(!help.contains("t new card"));
}

#[test]
fn ctrl_bindings_accept_either_case_and_plain_keys_refuse_modifiers() {
    let upper = KeyInput::new(KeyCode::Char('R'), true, false);
    assert_eq!(resolve(KeyContext::Board, upper), Some(Action::SyncAnnotations));
    let alt_n = KeyInput::new(KeyCode::Char('n'), false, true);
    assert_eq!(resolve(KeyContext::Board, alt_n), None);
    assert_eq!(resolve(KeyContext::Board, key(KeyCode::Char('n'))), Some(Action::NewCard));
}

#[test]
fn board_footer_lists_the_preferred_actions_in_table_order() {
    assert_eq!(
        footer_hints(KeyContext::Board),
        "n new card  e edit  [/] reorder columns  H/L move  m move to  Space select  g goto  ? help  Ctrl+R sync annotations  q quit"
    );
    assert_eq!(footer_hints(KeyContext::Confirmation), "y confirm  n cancel  h/l/Tab change choice");
}

#[test]
fn help_pads_keys_to_twelve_columns_and_separates_sections() {
    let lines = help_lines();
    assert_eq!(lines[0], "Navigation");
    assert_eq!(lines[1], "  h/l          column");
    assert_eq!(lines[2], "  j/k          card");
    assert!(lines.iter().any(|line| line == "Forms"));
    assert!(lines.iter().any(|line| line == "  Shift+Tab    previous"));
    assert_eq!(lines.iter().filter(|line| line.is_empty()).count(), 7);
}
