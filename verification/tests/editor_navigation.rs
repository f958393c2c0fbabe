use game_config_edit::diagnostics::{CellProblem, CellProblemKind, ColumnAnalysis, ColumnType};
use game_config_edit::editor_navigation::{cycle_diagnostic, diagnostic_targets, move_in_grid, DiagnosticTarget, GridMovement, GridPosition};

fn analysis(column_type: ColumnType, problem_rows: &[usize], has_mixed_warning: bool) -> ColumnAnalysis {
    ColumnAnalysis {
        column_type,
        type_expression: column_type.label().to_owned(),
        problems: problem_rows
            .iter()
            .map(|row_index| CellProblem {
                row_index: *row_index,
                kinds: vec![CellProblemKind::DangerousInvisibleCharacter],
                detail: None,
            })
            .collect(),
        has_mixed_warning,
        max_content_chars: 0,
    }
}

#[test]
fn grid_movement_stays_inside_data_cells() {
    let first = move_in_grid(None, 2, 5, 3, GridMovement::Left).unwrap();
    assert_eq!(first, GridPosition { row_index: 2, column_index: 0 });

    let top_left = move_in_grid(Some(first), 2, 5, 3, GridMovement::Up).unwrap();
    assert_eq!(top_left, first);

    let bottom_right =
        move_in_grid(Some(GridPosition { row_index: 4, column_index: 2 }), 2, 5, 3, GridMovement::Down).unwrap();
    assert_eq!(bottom_right, GridPosition { row_index: 4, column_index: 2 });
}

#[test]
fn diagnostics_order_cells_by_row_then_column_before_warning_columns() {
    let analyses = vec![analysis(ColumnType::String, &[4], true), analysis(ColumnType::Json, &[3, 4], false)];

    assert_eq!(
        diagnostic_targets(&analyses),
        vec![
            DiagnosticTarget::Cell(GridPosition { row_index: 3, column_index: 1 }),
            DiagnosticTarget::Cell(GridPosition { row_index: 4, column_index: 0 }),
            DiagnosticTarget::Cell(GridPosition { row_index: 4, column_index: 1 }),
            DiagnosticTarget::Column(0),
        ]
    );
}

#[test]
fn diagnostics_cycle_in_both_directions() {
    let targets = vec![DiagnosticTarget::Cell(GridPosition { row_index: 2, column_index: 0 }), DiagnosticTarget::Column(1)];

    assert_eq!(cycle_diagnostic(&targets, None, false), Some(targets[0]));
    assert_eq!(cycle_diagnostic(&targets, Some(targets[1]), false), Some(targets[0]));
    assert_eq!(cycle_diagnostic(&targets, None, true), Some(targets[1]));
    assert_eq!(cycle_diagnostic(&targets, Some(targets[0]), true), Some(targets[1]));
}

#[test]
fn grid_without_data_rows_has_no_position() {
    assert_eq!(move_in_grid(None, 2, 2, 3, GridMovement::Down), None);
    assert_eq!(move_in_grid(None, 0, 4, 0, GridMovement::Right), None);
}

#[test]
fn grid_movement_clamps_and_resets_outside_positions() {
    let outside = GridPosition { row_index: 9, column_index: 9 };
    assert_eq!(move_in_grid(Some(outside), 1, 4, 2, GridMovement::Right), Some(GridPosition { row_index: 1, column_index: 1 }));
    assert_eq!(
        move_in_grid(Some(GridPosition { row_index: 3, column_index: 1 }), 1, 4, 2, GridMovement::Right),
        Some(GridPosition { row_index: 3, column_index: 1 })
    );
}

#[test]
fn duplicate_problem_cells_are_listed_once() {
    let analyses = vec![analysis(ColumnType::String, &[5, 2, 5], false)];

    assert_eq!(
        diagnostic_targets(&analyses),
        vec![
            DiagnosticTarget::Cell(GridPosition { row_index: 2, column_index: 0 }),
            DiagnosticTarget::Cell(GridPosition { row_index: 5, column_index: 0 }),
        ]
    );
}

#[test]
fn cycling_forward_then_back_returns() {
    let targets = vec![DiagnosticTarget::Column(0), DiagnosticTarget::Column(3), DiagnosticTarget::Column(5)];
    let next = cycle_diagnostic(&targets, Some(targets[2]), false);
    assert_eq!(next, Some(targets[0]));
    assert_eq!(cycle_diagnostic(&targets, next, true), Some(targets[2]));
    assert_eq!(cycle_diagnostic(&[], None, false), None);
}
