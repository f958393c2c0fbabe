use game_config_edit::table_virtualization::{
    spacer_rows, visible_row_window, FocusColumnRole, FocusLayout, ROW_NUMBER_COLUMN_WIDTH,
};

#[test]
fn focus_layout_shows_as_many_neighbors_as_each_side_can_fit() {
    let layout = FocusLayout::calculate(30, 15, 400, 1_958).unwrap();

    assert_eq!(layout.left_start, 11);
    assert_eq!(layout.right_end, 20);
    assert_eq!(layout.column_role(10), FocusColumnRole::Hidden);
    assert_eq!(layout.column_role(11), FocusColumnRole::LeftNeighbor);
    assert_eq!(layout.column_role(15), FocusColumnRole::Focused);
    assert_eq!(layout.column_role(19), FocusColumnRole::RightNeighbor);
    assert_eq!(layout.column_role(20), FocusColumnRole::Hidden);
}

#[test]
fn focus_layout_has_no_neighbor_count_limit() {
    let layout = FocusLayout::calculate(40, 20, 400, 2_858).unwrap();

    assert_eq!(layout.focused_index - layout.left_start, 6);
    assert_eq!(layout.right_end - layout.focused_index - 1, 6);
}

#[test]
fn focus_layout_stretches_the_only_remaining_neighbor() {
    let layout = FocusLayout::calculate(20, 1, 400, 1_500).unwrap();

    assert_eq!(layout.left_start, 0);
    assert_eq!(layout.left_neighbor_width, 492);
    assert_eq!(layout.left_spacer_width, 0);
}

#[test]
fn focus_layout_keeps_an_empty_side_blank_and_the_focus_centered() {
    let layout = FocusLayout::calculate(20, 0, 400, 1_500).unwrap();

    assert_eq!(layout.left_start, 0);
    assert_eq!(layout.left_spacer_width, 492);
    assert_eq!(layout.table_width - layout.focused_width, 1_100);
    assert_eq!((layout.table_width - layout.focused_width) / 2, 550);
}

#[test]
fn focus_layout_capacity_grows_from_one_neighbor_without_a_cap() {
    let one = FocusLayout::calculate(30, 15, 400, 1_000).unwrap();
    let two = FocusLayout::calculate(30, 15, 400, 1_400).unwrap();
    let three = FocusLayout::calculate(30, 15, 400, 1_800).unwrap();
    let four = FocusLayout::calculate(30, 15, 400, 2_200).unwrap();

    assert_eq!(one.focused_index - one.left_start, 1);
    assert_eq!(two.focused_index - two.left_start, 2);
    assert_eq!(three.focused_index - three.left_start, 3);
    assert_eq!(four.focused_index - four.left_start, 4);
}

#[test]
fn focus_layout_allocates_every_pixel_and_keeps_the_focus_center_exact() {
    let layout = FocusLayout::calculate(30, 15, 401, 1_503).unwrap();
    let visible_columns_width =
        (layout.left_start..layout.right_end).filter_map(|column| layout.column_width(column)).sum::<usize>();

    assert_eq!(
        ROW_NUMBER_COLUMN_WIDTH + layout.left_spacer_width + visible_columns_width + layout.right_spacer_width,
        layout.table_width
    );
    let left_width = (layout.left_start..layout.focused_index).filter_map(|column| layout.column_width(column)).sum::<usize>();
    assert_eq!(ROW_NUMBER_COLUMN_WIDTH + layout.left_spacer_width + left_width, (layout.table_width - layout.focused_width) / 2);
}

#[test]
fn focus_layout_shrinks_the_focus_when_the_viewport_is_too_narrow() {
    let layout = FocusLayout::calculate(3, 1, 720, 200).unwrap();

    assert_eq!(layout.table_width, 200);
    assert_eq!(layout.focused_width, 84);
    assert_eq!(layout.left_start, 1);
    assert_eq!(layout.right_end, 2);
}

#[test]
fn focus_layout_needs_a_focused_column_inside_the_table() {
    assert!(FocusLayout::calculate(0, 0, 400, 1_000).is_none());
    assert!(FocusLayout::calculate(3, 3, 400, 1_000).is_none());
    let layout = FocusLayout::calculate(3, 1, 400, 1_000).unwrap();
    assert_eq!(layout.column_width(1), Some(layout.focused_width));
    assert_eq!(layout.column_width(7), None);
}

#[test]
fn row_windows_add_overscan_within_the_table() {
    // 900 px of 30 px rows from the top: 31 rows in view.
    assert_eq!(visible_row_window(12, 0, 31), (0, 12));
    assert_eq!(spacer_rows(12, 0, 12), (0, 0));
    // Scrolled to 30 000 px with 600 px in view: row 1000 first, 21 rows in view.
    assert_eq!(visible_row_window(500_000, 1000, 21), (992, 1029));
    assert_eq!(spacer_rows(500_000, 992, 1029), (992, 498_971));
    // Past the end of a short table the window is empty.
    assert_eq!(visible_row_window(100, 1000, 21), (100, 100));
    assert_eq!(spacer_rows(100, 100, 100), (100, 0));
    assert_eq!(visible_row_window(10, usize::MAX, usize::MAX), (10, 10));
}
