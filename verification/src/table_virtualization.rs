use vstd::prelude::*;

verus! {

pub const OVERSCAN_ROWS: usize = 8;
pub const ROW_NUMBER_COLUMN_WIDTH: usize = 58;
pub const FOCUS_NEIGHBOR_BASE_WIDTH: usize = 180;
pub const DEFAULT_VIEWPORT_WIDTH_PX: usize = 1280;

#[derive(Clone, Copy, Debug, PartialEq, Eq, Structural)]
pub enum FocusColumnRole {
    Hidden,
    LeftNeighbor,
    Focused,
    RightNeighbor,
}

/// How focus mode lays out the columns around the focused one: its width, the table's width,
/// the neighbors shown on each side (`left_start..focused_index` and
/// `focused_index + 1..right_end`), their widths with the remainder of the division spread over
/// the nearest ones, and the spacer filling a side without neighbors.
#[derive(Clone, Debug, PartialEq, Eq)]
pub struct FocusLayout {
    pub focused_index: usize,
    pub focused_width: usize,
    pub table_width: usize,
    pub left_start: usize,
    pub right_end: usize,
    pub left_neighbor_width: usize,
    pub right_neighbor_width: usize,
    pub left_width_remainder: usize,
    pub right_width_remainder: usize,
    pub left_spacer_width: usize,
    pub right_spacer_width: usize,
}

pub open spec fn min(a: int, b: int) -> int {
    if a <= b { a } else { b }
}

pub open spec fn max(a: int, b: int) -> int {
    if a >= b { a } else { b }
}

/// The layout for `column_count` columns with column `focused_index` focused, a requested focus
/// width (kept within 320..=720 and what the table leaves) and a viewport width in pixels: the
/// focused column is centred; each side holds as many neighbors as fit at the base width.
pub open spec fn focus_layout(column_count: nat, focused_index: nat, requested: nat, viewport_width: nat) -> Option<FocusLayout> {
    if column_count == 0 || focused_index >= column_count {
        None
    } else {
        let table_width = max(viewport_width as int, (ROW_NUMBER_COLUMN_WIDTH * 2 + 1) as int);
        let available = table_width - ROW_NUMBER_COLUMN_WIDTH * 2;
        let focused_width = min(min(max(requested as int, 320), 720), available);
        let focus_left = (table_width - focused_width) / 2;
        let left_budget = max(focus_left - ROW_NUMBER_COLUMN_WIDTH, 0);
        let right_budget = table_width - focus_left - focused_width;
        let left_count = min(focused_index as int, left_budget / (FOCUS_NEIGHBOR_BASE_WIDTH as int));
        let right_count = min(column_count - focused_index - 1, right_budget / (FOCUS_NEIGHBOR_BASE_WIDTH as int));
        Some(FocusLayout {
            focused_index: focused_index as usize,
            focused_width: focused_width as usize,
            table_width: table_width as usize,
            left_start: (focused_index - left_count) as usize,
            right_end: (focused_index + 1 + right_count) as usize,
            left_neighbor_width: if left_count == 0 { 0 } else { (left_budget / left_count) as usize },
            right_neighbor_width: if right_count == 0 { 0 } else { (right_budget / right_count) as usize },
            left_width_remainder: if left_count == 0 { 0 } else { (left_budget % left_count) as usize },
            right_width_remainder: if right_count == 0 { 0 } else { (right_budget % right_count) as usize },
            left_spacer_width: if left_count == 0 { left_budget as usize } else { 0 },
            right_spacer_width: if right_count == 0 { right_budget as usize } else { 0 },
        })
    }
}

/// The role of a column in a layout.
pub open spec fn role_of(l: FocusLayout, column_index: usize) -> FocusColumnRole {
    if column_index == l.focused_index {
        FocusColumnRole::Focused
    } else if l.left_start <= column_index < l.focused_index {
        FocusColumnRole::LeftNeighbor
    } else if l.focused_index + 1 <= column_index < l.right_end {
        FocusColumnRole::RightNeighbor
    } else {
        FocusColumnRole::Hidden
    }
}

/// The width of a column in a layout: none when hidden; a neighbor gets one pixel more while
/// its distance from the focused column is below the remainder.
pub open spec fn width_of(l: FocusLayout, column_index: usize) -> Option<int> {
    match role_of(l, column_index) {
        FocusColumnRole::Hidden => None,
        FocusColumnRole::Focused => Some(l.focused_width as int),
        FocusColumnRole::LeftNeighbor => {
            let distance = l.focused_index - column_index - 1;
            Some(l.left_neighbor_width + if distance < l.left_width_remainder { 1int } else { 0 })
        },
        FocusColumnRole::RightNeighbor => {
            let distance = column_index - l.focused_index - 1;
            Some(l.right_neighbor_width + if distance < l.right_width_remainder { 1int } else { 0 })
        },
    }
}

impl FocusLayout {
    /// Lays out focus mode (see `focus_layout`) for a viewport width in whole pixels.
    pub fn calculate(column_count: usize, focused_index: usize, requested_focus_width: usize, viewport_width: usize) -> (r: Option<FocusLayout>)
        ensures
            r == focus_layout(column_count as nat, focused_index as nat, requested_focus_width as nat, viewport_width as nat),
    {
        if column_count == 0 || focused_index >= column_count {
            return None;
        }
        let minimum_table_width = ROW_NUMBER_COLUMN_WIDTH * 2 + 1;
        let table_width = if viewport_width > minimum_table_width { viewport_width } else { minimum_table_width };
        let available_focus_width = table_width - ROW_NUMBER_COLUMN_WIDTH * 2;
        let clamped = if requested_focus_width < 320 { 320 } else if requested_focus_width > 720 { 720 } else { requested_focus_width };
        let focused_width = if clamped < available_focus_width { clamped } else { available_focus_width };
        let focus_left = (table_width - focused_width) / 2;
        let left_budget = if focus_left > ROW_NUMBER_COLUMN_WIDTH { focus_left - ROW_NUMBER_COLUMN_WIDTH } else { 0 };
        let right_budget = table_width - focus_left - focused_width;
        let left_capacity = left_budget / FOCUS_NEIGHBOR_BASE_WIDTH;
        let right_capacity = right_budget / FOCUS_NEIGHBOR_BASE_WIDTH;
        let left_count = if focused_index < left_capacity { focused_index } else { left_capacity };
        let right_available = column_count - focused_index - 1;
        let right_count = if right_available < right_capacity { right_available } else { right_capacity };
        Some(FocusLayout {
            focused_index,
            focused_width,
            table_width,
            left_start: focused_index - left_count,
            right_end: focused_index + 1 + right_count,
            left_neighbor_width: if left_count == 0 { 0 } else { left_budget / left_count },
            right_neighbor_width: if right_count == 0 { 0 } else { right_budget / right_count },
            left_width_remainder: if left_count == 0 { 0 } else { left_budget % left_count },
            right_width_remainder: if right_count == 0 { 0 } else { right_budget % right_count },
            left_spacer_width: if left_count == 0 { left_budget } else { 0 },
            right_spacer_width: if right_count == 0 { right_budget } else { 0 },
        })
    }

    /// The role of a column (see `role_of`).
    pub fn column_role(&self, column_index: usize) -> (r: FocusColumnRole)
        ensures
            r == role_of(*self, column_index),
    {
        if column_index == self.focused_index {
            FocusColumnRole::Focused
        } else if self.left_start <= column_index && column_index < self.focused_index {
            FocusColumnRole::LeftNeighbor
        } else if self.focused_index < column_index && column_index < self.right_end {
            FocusColumnRole::RightNeighbor
        } else {
            FocusColumnRole::Hidden
        }
    }

    /// The width of a column (see `width_of`); none for a hidden column, and none too where the
    /// width would not fit a `usize`.
    pub fn column_width(&self, column_index: usize) -> (r: Option<usize>)
        ensures
            match width_of(*self, column_index) {
                None => r is None,
                Some(w) => if w <= usize::MAX { r == Some(w as usize) } else { r is None },
            },
    {
        match self.column_role(column_index) {
            FocusColumnRole::Hidden => None,
            FocusColumnRole::Focused => Some(self.focused_width),
            FocusColumnRole::LeftNeighbor => {
                let distance = self.focused_index - column_index - 1;
                let extra: usize = if distance < self.left_width_remainder { 1 } else { 0 };
                self.left_neighbor_width.checked_add(extra)
            },
            FocusColumnRole::RightNeighbor => {
                let distance = column_index - self.focused_index - 1;
                let extra: usize = if distance < self.right_width_remainder { 1 } else { 0 };
                self.right_neighbor_width.checked_add(extra)
            },
        }
    }
}

/// The rows to render, given the first row in view and how many rows the viewport holds: those
/// in view with `OVERSCAN_ROWS` more on each side, within the table (a window that starts past the
/// end is empty). Sums that would pass the largest `usize` stay there.
pub open spec fn row_window(row_count: nat, first_visible: nat, visible_count: nat) -> (nat, nat) {
    let start = min(if first_visible >= OVERSCAN_ROWS { first_visible - OVERSCAN_ROWS } else { 0 }, row_count as int);
    let end = min(min(first_visible + visible_count + OVERSCAN_ROWS, usize::MAX as int), row_count as int);
    (start as nat, if end >= start { end as nat } else { start as nat })
}

/// The window of rows to render (see `row_window`), as a start and an end.
pub fn visible_row_window(row_count: usize, first_visible: usize, visible_count: usize) -> (r: (usize, usize))
    ensures
        (r.0 as nat, r.1 as nat) == row_window(row_count as nat, first_visible as nat, visible_count as nat),
        r.0 <= r.1 <= row_count,
        r.1 - r.0 <= visible_count + 2 * OVERSCAN_ROWS,
        first_visible < row_count ==> r.0 <= first_visible,
        r.1 >= min(first_visible + visible_count, row_count as int),
{
    let start = first_visible.saturating_sub(OVERSCAN_ROWS);
    let start = if start < row_count { start } else { row_count };
    let end = first_visible.saturating_add(visible_count).saturating_add(OVERSCAN_ROWS);
    let end = if end < row_count { end } else { row_count };
    if end >= start { (start, end) } else { (start, start) }
}

/// How many rows the spacers above and below a window of rows stand for.
pub fn spacer_rows(row_count: usize, start: usize, end: usize) -> (r: (usize, usize))
    ensures
        r.0 == min(start as int, row_count as int),
        r.1 == row_count - min(end as int, row_count as int),
{
    let above = if start < row_count { start } else { row_count };
    let shown_end = if end < row_count { end } else { row_count };
    (above, row_count - shown_end)
}

} // verus!
