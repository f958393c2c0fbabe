use game_config_edit::editor_commands::{
    app_key_decision, next_cycle_index, next_focus_column, plan_line_jump, table_key_action,
    AppKeyAction, JumpView, KeyDecision, KeyInput, KeyModifiers, LineJump, TableKeyAction,
};
use game_config_edit::editor_navigation::GridMovement;
use game_config_edit::platform::Platform;

const NONE: KeyModifiers = KeyModifiers {
    control: false,
    shift: false,
    alt: false,
    meta: false,
    other: false,
};

fn with(control: bool, shift: bool, meta: bool) -> KeyModifiers {
    KeyModifiers {
        control,
        shift,
        meta,
        ..NONE
    }
}

fn character(c: &str) -> KeyInput {
    KeyInput::Character(c.to_owned())
}

fn decide(key: KeyInput, modifiers: KeyModifiers, platform: Platform) -> KeyDecision {
    app_key_decision(&key, modifiers, platform, false, false, true)
}

#[test]
fn window_shortcuts_use_the_platform_modifier() {
    assert_eq!(
        decide(character("s"), with(true, false, false), Platform::Windows).action,
        AppKeyAction::Save
    );
    assert_eq!(
        decide(character("S"), with(false, false, true), Platform::MacOs).action,
        AppKeyAction::Save
    );
    assert_eq!(
        decide(character("s"), with(false, false, true), Platform::Windows).action,
        AppKeyAction::Ignore
    );
    assert_eq!(
        decide(character("b"), with(true, false, false), Platform::Other).action,
        AppKeyAction::ToggleSidebar
    );
    assert_eq!(
        decide(character("w"), with(true, false, false), Platform::Other).action,
        AppKeyAction::Close
    );
    assert_eq!(
        decide(KeyInput::Tab, with(true, true, false), Platform::MacOs),
        KeyDecision {
            action: AppKeyAction::CycleTab { backwards: true },
            prevent_default: true
        }
    );
}

#[test]
fn undo_and_redo_follow_the_platform_and_leave_cell_editing_alone() {
    assert_eq!(
        decide(character("z"), with(true, false, false), Platform::Windows).action,
        AppKeyAction::Undo
    );
    assert_eq!(
        decide(character("y"), with(true, false, false), Platform::Windows).action,
        AppKeyAction::Redo
    );
    assert_eq!(
        decide(character("z"), with(false, true, true), Platform::MacOs).action,
        AppKeyAction::Redo
    );
    assert_eq!(
        decide(character("y"), with(false, false, true), Platform::MacOs).action,
        AppKeyAction::Ignore
    );
    assert_eq!(
        app_key_decision(&character("z"), with(true, false, false), Platform::Windows, true, false, true),
        KeyDecision {
            action: AppKeyAction::Ignore,
            prevent_default: false
        }
    );
}

#[test]
fn escape_closes_the_panel_then_the_edit_then_the_diagnostic() {
    let escape = |editing, overlay| {
        app_key_decision(&KeyInput::Escape, NONE, Platform::Windows, editing, overlay, true)
    };
    assert_eq!(escape(true, true).action, AppKeyAction::CloseOverlay);
    assert_eq!(escape(true, false).action, AppKeyAction::CancelEdit);
    assert_eq!(
        escape(false, false),
        KeyDecision {
            action: AppKeyAction::ClearDiagnostic,
            prevent_default: false
        }
    );
}

#[test]
fn navigation_keys_act_only_outside_cell_editing() {
    assert_eq!(
        decide(KeyInput::F8, with(false, true, false), Platform::Windows).action,
        AppKeyAction::NavigateDiagnostic { backwards: true }
    );
    assert_eq!(decide(KeyInput::F2, NONE, Platform::Windows).action, AppKeyAction::StartEdit);
    assert_eq!(decide(KeyInput::Enter, NONE, Platform::Windows).action, AppKeyAction::StartEdit);
    assert_eq!(
        decide(KeyInput::ArrowLeft, NONE, Platform::Windows).action,
        AppKeyAction::Move(GridMovement::Left)
    );
    assert_eq!(
        app_key_decision(&KeyInput::ArrowLeft, NONE, Platform::Windows, false, false, false).action,
        AppKeyAction::Ignore
    );
    assert_eq!(
        app_key_decision(&KeyInput::Enter, NONE, Platform::Windows, true, false, true).action,
        AppKeyAction::Ignore
    );
    assert_eq!(
        decide(KeyInput::ArrowUp, with(true, false, false), Platform::Windows).action,
        AppKeyAction::Ignore
    );
}

#[test]
fn focus_mode_keys() {
    let t = character("T");
    assert_eq!(table_key_action(&t, NONE, false, false, false, true), TableKeyAction::FocusSelectedColumn);
    assert_eq!(table_key_action(&t, NONE, false, false, true, true), TableKeyAction::ClearFocus);
    assert_eq!(table_key_action(&t, NONE, false, false, false, false), TableKeyAction::Ignore);
    assert_eq!(table_key_action(&t, NONE, true, false, false, true), TableKeyAction::Ignore);
    assert_eq!(table_key_action(&t, NONE, false, true, false, true), TableKeyAction::Ignore);
    assert_eq!(
        table_key_action(&KeyInput::Escape, NONE, false, false, true, false),
        TableKeyAction::ClearFocus
    );
    assert_eq!(
        table_key_action(&character("a"), NONE, false, false, true, true),
        TableKeyAction::MoveFocus { backwards: true }
    );
    assert_eq!(
        table_key_action(&KeyInput::ArrowRight, NONE, false, false, true, true),
        TableKeyAction::MoveFocus { backwards: false }
    );
    assert_eq!(
        table_key_action(&character("d"), with(false, true, false), false, false, true, true),
        TableKeyAction::Ignore
    );
    assert_eq!(
        table_key_action(&KeyInput::ArrowRight, NONE, false, false, false, true),
        TableKeyAction::Ignore
    );
    let caps = KeyModifiers { other: true, ..NONE };
    assert_eq!(table_key_action(&t, caps, false, false, false, true), TableKeyAction::Ignore);
}

#[test]
fn focus_moves_within_the_columns() {
    assert_eq!(next_focus_column(0, true, 5), Some(0));
    assert_eq!(next_focus_column(2, true, 5), Some(1));
    assert_eq!(next_focus_column(4, false, 5), Some(4));
    assert_eq!(next_focus_column(9, true, 5), Some(4));
    assert_eq!(next_focus_column(0, false, 0), None);
}

#[test]
fn cycling_wraps_around() {
    assert_eq!(next_cycle_index(None, false, 3), 0);
    assert_eq!(next_cycle_index(None, true, 3), 2);
    assert_eq!(next_cycle_index(Some(0), true, 3), 2);
    assert_eq!(next_cycle_index(Some(1), true, 3), 0);
    assert_eq!(next_cycle_index(Some(2), false, 3), 0);
    assert_eq!(next_cycle_index(Some(0), false, 3), 1);
}

#[test]
fn go_to_line_targets_text_lines_and_data_rows() {
    assert_eq!(
        plan_line_jump(0, &JumpView::Text { line_count: 3 }),
        Err("Line numbers start at 1".to_owned())
    );
    assert_eq!(
        plan_line_jump(3, &JumpView::Text { line_count: 3 }),
        Ok((LineJump::TextLine(3), "Ln 3".to_owned()))
    );
    assert_eq!(
        plan_line_jump(4, &JumpView::Text { line_count: 3 }),
        Err("Line 4 is outside this file (3 physical lines)".to_owned())
    );
    let table = |selected_column| JumpView::Table {
        record_count: 5,
        header_rows: 2,
        column_count: 4,
        selected_column,
    };
    assert_eq!(
        plan_line_jump(2, &table(Some(9))),
        Ok((
            LineJump::Cell {
                row_index: 3,
                column_index: 3
            },
            "Row 2".to_owned()
        ))
    );
    assert_eq!(
        plan_line_jump(1, &table(None)),
        Ok((
            LineJump::Cell {
                row_index: 2,
                column_index: 0
            },
            "Row 1".to_owned()
        ))
    );
    assert_eq!(
        plan_line_jump(4, &table(None)),
        Err("Row 4 is outside this table (3 data rows)".to_owned())
    );
    assert_eq!(
        plan_line_jump(
            1,
            &JumpView::Table {
                record_count: 3,
                header_rows: 1,
                column_count: 0,
                selected_column: None
            }
        ),
        Err("This table has no columns".to_owned())
    );
    assert_eq!(
        plan_line_jump(
            1,
            &JumpView::Preview {
                record_count: 1,
                header_rows: 2,
                column_count: 2
            }
        ),
        Err("Row 1 is outside this preview (0 data rows)".to_owned())
    );
    assert_eq!(
        plan_line_jump(
            1,
            &JumpView::Preview {
                record_count: 3,
                header_rows: 2,
                column_count: 2
            }
        ),
        Ok((
            LineJump::Cell {
                row_index: 2,
                column_index: 0
            },
            "Row 1".to_owned()
        ))
    );
    assert_eq!(plan_line_jump(1, &JumpView::Nothing), Err("No file is open".to_owned()));
}
