use vstd::prelude::*;

use vstd::utf8::{decode_utf8, decode_utf8_encode_utf8, encode_utf8, valid_utf8};

use crate::csv_document::{starts_with_bom, text_content, utf8_bom};
use crate::editor_commands::cycled;
use crate::editor_navigation::{cycle_target, position_of, DiagnosticTarget};
use crate::table_virtualization::{focus_layout, width_of, FocusLayout, ROW_NUMBER_COLUMN_WIDTH};

verus! {

/// Opening a file and saving it untouched writes back exactly the bytes that were read: the
/// byte-order mark if there was one, then the text.
pub proof fn law_saved_bytes_match_opened_bytes(bytes: Seq<u8>)
    requires
        valid_utf8(text_content(bytes)),
    ensures
        (if starts_with_bom(bytes) { utf8_bom() } else { Seq::<u8>::empty() })
            + encode_utf8(decode_utf8(text_content(bytes))) == bytes,
{
    decode_utf8_encode_utf8(text_content(bytes));
    if starts_with_bom(bytes) {
        assert(utf8_bom() + bytes.skip(3) =~= bytes);
    } else {
        assert(Seq::<u8>::empty() + bytes =~= bytes);
    }
}

/// Whether no target is listed twice.
pub open spec fn distinct_targets(targets: Seq<DiagnosticTarget>) -> bool {
    forall|i: int, j: int| 0 <= i < j < targets.len() ==> targets[i] != targets[j]
}

proof fn lemma_position_of_distinct(targets: Seq<DiagnosticTarget>, k: int, i: int)
    requires
        distinct_targets(targets),
        0 <= i <= k < targets.len(),
    ensures
        position_of(targets, targets[k], i) == Some(k),
    decreases k - i,
{
    if i < k {
        assert(targets[i] != targets[k]);
        lemma_position_of_distinct(targets, k, i + 1);
    }
}

/// Stepping to the next diagnostic and then back to the previous one returns to where it
/// started, and so does stepping back then forward, in a list without repeats.
pub proof fn law_cycle_forward_then_back(targets: Seq<DiagnosticTarget>, k: int)
    requires
        distinct_targets(targets),
        0 <= k < targets.len(),
    ensures
        cycle_target(targets, cycle_target(targets, Some(targets[k]), false), true) == Some(targets[k]),
        cycle_target(targets, cycle_target(targets, Some(targets[k]), true), false) == Some(targets[k]),
{
    let n = targets.len() as int;
    lemma_position_of_distinct(targets, k, 0);
    let next = (k + 1) % n;
    assert(0 <= next < n);
    lemma_position_of_distinct(targets, next, 0);
    if k + 1 < n {
        assert(next == k + 1) by (nonlinear_arith)
            requires next == (k + 1) % n, 0 <= k + 1 < n;
    } else {
        assert(next == 0) by (nonlinear_arith)
            requires next == (k + 1) % n, k + 1 == n, n > 0;
    }
    let prev = if k == 0 { n - 1 } else { k - 1 };
    lemma_position_of_distinct(targets, prev, 0);
    if prev + 1 < n {
        assert((prev + 1) % n == prev + 1) by (nonlinear_arith)
            requires 0 <= prev + 1 < n;
    } else {
        assert((prev + 1) % n == 0) by (nonlinear_arith)
            requires prev + 1 == n, n > 0;
    }
}

/// The widths of columns `from..to` added up (a hidden column adds nothing).
pub open spec fn widths_between(l: FocusLayout, from: int, to: int) -> int
    decreases to - from,
{
    if from >= to {
        0
    } else {
        widths_between(l, from, to - 1) + match width_of(l, (to - 1) as usize) {
            Some(w) => w,
            None => 0,
        }
    }
}

proof fn lemma_left_widths(l: FocusLayout, m: int)
    requires
        l.left_start <= l.focused_index,
        0 <= m <= l.focused_index - l.left_start,
        l.focused_index as int - m >= 0,
    ensures
        widths_between(l, l.focused_index - m, l.focused_index as int) == m * l.left_neighbor_width
            + if m < l.left_width_remainder { m } else { l.left_width_remainder as int },
    decreases m,
{
    if m > 0 {
        let from = l.focused_index - m;
        assert(widths_between(l, from, l.focused_index as int) == match width_of(l, from as usize) {
            Some(w) => w,
            None => 0,
        } + widths_between(l, from + 1, l.focused_index as int)) by {
            lemma_widths_split_first(l, from, l.focused_index as int);
        }
        lemma_left_widths(l, m - 1);
        assert(from + 1 == l.focused_index - (m - 1));
        assert(width_of(l, from as usize) == Some(l.left_neighbor_width + if m - 1 < l.left_width_remainder { 1int } else { 0 }));
        assert(m * l.left_neighbor_width == (m - 1) * l.left_neighbor_width + l.left_neighbor_width) by (nonlinear_arith);
    } else {
        assert(m * l.left_neighbor_width == 0) by (nonlinear_arith)
            requires m == 0;
    }
}

proof fn lemma_right_widths(l: FocusLayout, m: int)
    requires
        l.focused_index < l.right_end,
        0 <= m <= l.right_end - l.focused_index - 1,
    ensures
        widths_between(l, l.focused_index + 1, l.focused_index + 1 + m) == m * l.right_neighbor_width
            + if m < l.right_width_remainder { m } else { l.right_width_remainder as int },
    decreases m,
{
    if m > 0 {
        lemma_right_widths(l, m - 1);
        let c = l.focused_index + m;
        assert(width_of(l, c as usize) == Some(l.right_neighbor_width + if m - 1 < l.right_width_remainder { 1int } else { 0 }));
        assert(widths_between(l, l.focused_index + 1, l.focused_index + 1 + m) == widths_between(l, l.focused_index + 1, l.focused_index + m)
            + l.right_neighbor_width + if m - 1 < l.right_width_remainder { 1int } else { 0 });
        assert(m * l.right_neighbor_width == (m - 1) * l.right_neighbor_width + l.right_neighbor_width) by (nonlinear_arith);
    } else {
        assert(m * l.right_neighbor_width == 0) by (nonlinear_arith)
            requires m == 0;
    }
}

proof fn lemma_widths_split_first(l: FocusLayout, from: int, to: int)
    requires
        from < to,
    ensures
        widths_between(l, from, to) == match width_of(l, from as usize) {
            Some(w) => w,
            None => 0,
        } + widths_between(l, from + 1, to),
    decreases to - from,
{
    let first = match width_of(l, from as usize) {
        Some(w) => w,
        None => 0,
    };
    if from + 1 < to {
        lemma_widths_split_first(l, from, to - 1);
        assert(widths_between(l, from + 1, to) == widths_between(l, from + 1, to - 1) + match width_of(l, (to - 1) as usize) {
            Some(w) => w,
            None => 0,
        });
    } else {
        assert(widths_between(l, from, from) == 0);
        assert(widths_between(l, from + 1, to) == 0);
        assert(widths_between(l, from, to) == widths_between(l, from, to - 1) + first);
    }
}

proof fn lemma_widths_concat(l: FocusLayout, a: int, b: int, c: int)
    requires
        a <= b <= c,
    ensures
        widths_between(l, a, c) == widths_between(l, a, b) + widths_between(l, b, c),
    decreases c - b,
{
    if b < c {
        lemma_widths_concat(l, a, b, c - 1);
    }
}

/// Focus mode uses every pixel of the table and keeps the focused column centred: the row
/// number column, the spacers and the visible columns add up to the table's width, and what
/// lies left of the focused column is exactly half of what the focused column leaves.
pub proof fn law_focus_layout_fills_the_table(column_count: nat, focused_index: nat, requested: nat, viewport_width: nat)
    requires
        focus_layout(column_count, focused_index, requested, viewport_width) is Some,
        viewport_width <= usize::MAX,
        column_count <= usize::MAX,
    ensures
        ({
            let l = focus_layout(column_count, focused_index, requested, viewport_width)->0;
            &&& ROW_NUMBER_COLUMN_WIDTH + l.left_spacer_width + widths_between(l, l.left_start as int, l.right_end as int)
                + l.right_spacer_width == l.table_width
            &&& ROW_NUMBER_COLUMN_WIDTH + l.left_spacer_width + widths_between(l, l.left_start as int, l.focused_index as int)
                == (l.table_width - l.focused_width) / 2
        }),
{
    let l = focus_layout(column_count, focused_index, requested, viewport_width)->0;
    let lc = l.focused_index - l.left_start;
    let rc = l.right_end - l.focused_index - 1;
    let table_width = l.table_width as int;
    let focus_left = (table_width - l.focused_width) / 2;
    let left_budget = if focus_left - ROW_NUMBER_COLUMN_WIDTH > 0 { focus_left - ROW_NUMBER_COLUMN_WIDTH } else { 0 };
    let right_budget = table_width - focus_left - l.focused_width;
    assert(focus_left >= ROW_NUMBER_COLUMN_WIDTH);
    lemma_left_widths(l, lc);
    lemma_right_widths(l, rc);
    if lc > 0 {
        assert(lc * (left_budget / lc) + left_budget % lc == left_budget) by (nonlinear_arith)
            requires lc > 0;
        assert(left_budget % lc < lc) by (nonlinear_arith)
            requires lc > 0;
    }
    if rc > 0 {
        assert(rc * (right_budget / rc) + right_budget % rc == right_budget) by (nonlinear_arith)
            requires rc > 0;
        assert(right_budget % rc < rc) by (nonlinear_arith)
            requires rc > 0;
    }
    assert(widths_between(l, l.focused_index as int, l.focused_index + 1) == l.focused_width) by {
        assert(widths_between(l, l.focused_index as int, l.focused_index as int) == 0);
    }
    lemma_widths_concat(l, l.left_start as int, l.focused_index as int, l.focused_index + 1);
    lemma_widths_concat(l, l.left_start as int, l.focused_index + 1, l.right_end as int);
}

/// Cycling forward through tabs or matches and then back returns to where it started, and so
/// does cycling back then forward.
pub proof fn law_cycle_index_round_trip(count: usize, i: usize)
    requires
        0 < count,
        i < count,
    ensures
        cycled(Some(cycled(Some(i), false, count)), true, count) == i,
        cycled(Some(cycled(Some(i), true, count)), false, count) == i,
{
    if i + 1 < count {
        assert((i + 1) % (count as int) == i + 1) by (nonlinear_arith)
            requires
                0 <= i + 1 < count,
        ;
    } else {
        assert((i + 1) % (count as int) == 0) by (nonlinear_arith)
            requires
                i + 1 == count,
                count > 0,
        ;
    }
    let back = cycled(Some(i), true, count);
    if back + 1 < count {
        assert((back + 1) % (count as int) == back + 1) by (nonlinear_arith)
            requires
                0 <= back + 1 < count,
        ;
    } else {
        assert((back + 1) % (count as int) == 0) by (nonlinear_arith)
            requires
                back + 1 == count,
                count > 0,
        ;
    }
}

} // verus!
