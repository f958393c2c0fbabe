use vstd::prelude::*;

use crate::diagnostics::ColumnAnalysis;

verus! {

#[derive(Clone, Copy, Debug, PartialEq, Eq, Structural)]
pub struct GridPosition {
    pub row_index: usize,
    pub column_index: usize,
}

#[derive(Clone, Copy, Debug, PartialEq, Eq, Structural)]
pub enum GridMovement {
    Up,
    Down,
    Left,
    Right,
}

#[derive(Clone, Copy, Debug, PartialEq, Eq, Structural)]
pub enum DiagnosticTarget {
    Cell(GridPosition),
    Column(usize),
}

/// Where a move in the data cells of a grid lands: nowhere when the grid has no data cell; else
/// from the current cell (or the first data cell when there is none, or it lies outside) one
/// step in the direction, without leaving the data rows (after the header rows) or the columns.
pub open spec fn grid_move(current: Option<GridPosition>, header_rows: nat, row_count: nat, column_count: nat, movement: GridMovement) -> Option<GridPosition> {
    if row_count <= header_rows || column_count == 0 {
        None
    } else {
        let last_row = row_count - 1;
        let last_column = column_count - 1;
        let start = match current {
            Some(p) => if header_rows <= p.row_index <= last_row && p.column_index <= last_column {
                p
            } else {
                GridPosition { row_index: header_rows as usize, column_index: 0 }
            },
            None => GridPosition { row_index: header_rows as usize, column_index: 0 },
        };
        Some(match movement {
            GridMovement::Up => GridPosition {
                row_index: if start.row_index > header_rows { (start.row_index - 1) as usize } else { header_rows as usize },
                ..start
            },
            GridMovement::Down => GridPosition {
                row_index: if start.row_index < last_row { (start.row_index + 1) as usize } else { last_row as usize },
                ..start
            },
            GridMovement::Left => GridPosition {
                column_index: if start.column_index > 0 { (start.column_index - 1) as usize } else { 0 },
                ..start
            },
            GridMovement::Right => GridPosition {
                column_index: if start.column_index < last_column { (start.column_index + 1) as usize } else { last_column as usize },
                ..start
            },
        })
    }
}

/// Moves in the data cells of a grid (see `grid_move`).
pub fn move_in_grid(
    current: Option<GridPosition>,
    header_rows: usize,
    row_count: usize,
    column_count: usize,
    movement: GridMovement,
) -> (r: Option<GridPosition>)
    ensures
        r == grid_move(current, header_rows as nat, row_count as nat, column_count as nat, movement),
{
    if row_count <= header_rows || column_count == 0 {
        return None;
    }
    let first_row = header_rows;
    let last_row = row_count - 1;
    let last_column = column_count - 1;
    let mut position = match current {
        Some(p) => if first_row <= p.row_index && p.row_index <= last_row && p.column_index <= last_column {
            p
        } else {
            GridPosition { row_index: first_row, column_index: 0 }
        },
        None => GridPosition { row_index: first_row, column_index: 0 },
    };
    match movement {
        GridMovement::Up => {
            position.row_index = if position.row_index > first_row { position.row_index - 1 } else { first_row };
        },
        GridMovement::Down => {
            position.row_index = if position.row_index < last_row { position.row_index + 1 } else { last_row };
        },
        GridMovement::Left => {
            position.column_index = if position.column_index > 0 { position.column_index - 1 } else { 0 };
        },
        GridMovement::Right => {
            position.column_index = if position.column_index < last_column { position.column_index + 1 } else { last_column };
        },
    }
    Some(position)
}

/// A move from a data cell goes one cell in its direction, in the same column (up, down) or the
/// same row (left, right), unless that would leave the data cells, in which case it stays put;
/// and a move down then up (or right then left) away from the edges comes back.
pub proof fn law_grid_moves_one_cell(p: GridPosition, header_rows: usize, row_count: usize, column_count: usize)
    requires
        header_rows <= p.row_index < row_count,
        p.column_index < column_count,
    ensures
        grid_move(Some(p), header_rows as nat, row_count as nat, column_count as nat, GridMovement::Down) == Some(
            if p.row_index + 1 < row_count { GridPosition { row_index: (p.row_index + 1) as usize, column_index: p.column_index } } else { p }),
        grid_move(Some(p), header_rows as nat, row_count as nat, column_count as nat, GridMovement::Up) == Some(
            if p.row_index > header_rows { GridPosition { row_index: (p.row_index - 1) as usize, column_index: p.column_index } } else { p }),
        grid_move(Some(p), header_rows as nat, row_count as nat, column_count as nat, GridMovement::Right) == Some(
            if p.column_index + 1 < column_count { GridPosition { row_index: p.row_index, column_index: (p.column_index + 1) as usize } } else { p }),
        grid_move(Some(p), header_rows as nat, row_count as nat, column_count as nat, GridMovement::Left) == Some(
            if p.column_index > 0 { GridPosition { row_index: p.row_index, column_index: (p.column_index - 1) as usize } } else { p }),
        p.row_index + 1 < row_count ==> grid_move(grid_move(Some(p), header_rows as nat, row_count as nat, column_count as nat, GridMovement::Down),
            header_rows as nat, row_count as nat, column_count as nat, GridMovement::Up) == Some(p),
        p.column_index + 1 < column_count ==> grid_move(grid_move(Some(p), header_rows as nat, row_count as nat, column_count as nat, GridMovement::Right),
            header_rows as nat, row_count as nat, column_count as nat, GridMovement::Left) == Some(p),
{
}

/// Row-then-column order of cells.
pub open spec fn cell_before(a: GridPosition, b: GridPosition) -> bool {
    a.row_index < b.row_index || (a.row_index == b.row_index && a.column_index < b.column_index)
}

/// Whether cells are in row-then-column order, each once.
pub open spec fn cells_sorted(s: Seq<GridPosition>) -> bool {
    forall|i: int, j: int| 0 <= i < j < s.len() ==> cell_before(s[i], s[j])
}

/// Whether column `col` reports a problem in row `row`.
pub open spec fn has_problem_at(analyses: Seq<ColumnAnalysis>, col: int, row: usize) -> bool {
    0 <= col < analyses.len() && exists|i: int| 0 <= i < analyses[col].problems@.len()
        && (#[trigger] analyses[col].problems@[i]).row_index == row
}

/// The columns with a mixed-type warning among the first `n`, in order, as targets.
pub open spec fn warning_columns(analyses: Seq<ColumnAnalysis>, n: nat) -> Seq<DiagnosticTarget>
    decreases n,
{
    if n == 0 || n > analyses.len() {
        seq![]
    } else {
        warning_columns(analyses, (n - 1) as nat) + (if analyses[n - 1].has_mixed_warning {
            seq![DiagnosticTarget::Column((n - 1) as usize)]
        } else {
            seq![]
        })
    }
}

/// Whether `targets` is the list to step through: every cell with a problem, once, in row-then-
/// column order, then every column with a mixed-type warning, in order.
pub open spec fn targets_of(analyses: Seq<ColumnAnalysis>, targets: Seq<DiagnosticTarget>) -> bool {
    exists|cells: Seq<GridPosition>| {
        &&& cells_sorted(cells)
        &&& forall|p: GridPosition| cells.contains(p) <==> has_problem_at(analyses, p.column_index as int, p.row_index)
        &&& targets == Seq::new(cells.len(), |i: int| DiagnosticTarget::Cell(cells[i])) + warning_columns(analyses, analyses.len())
    }
}

/// Inserts a cell into a sorted list of cells unless it is there.
fn insert_cell(cells: &mut Vec<GridPosition>, p: GridPosition)
    requires
        cells_sorted(old(cells)@),
    ensures
        cells_sorted(final(cells)@),
        forall|q: GridPosition| final(cells)@.contains(q) <==> (old(cells)@.contains(q) || q == p),
{
    let mut i: usize = 0;
    while i < cells.len() && cell_is_before(cells[i], p)
        invariant
            cells@ == old(cells)@,
            cells_sorted(cells@),
            i <= cells@.len(),
            forall|k: int| 0 <= k < i ==> cell_before(cells@[k], p),
        decreases cells.len() - i,
    {
        i += 1;
    }
    if i < cells.len() && cells[i] == p {
        proof {
            assert(cells@[i as int] == p);
            assert(cells@.contains(p));
            assert forall|q: GridPosition| cells@.contains(q) <==> (old(cells)@.contains(q) || q == p) by {
                if q == p {
                    assert(cells@.contains(p));
                }
            }
        }
        return;
    }
    let ghost before = cells@;
    cells.insert(i, p);
    proof {
        lemma_insert_sorted(before, i as int, p);
        assert(cells@ == before.insert(i as int, p));
        assert(before == old(cells)@);
        assert(forall|q: GridPosition| cells@.contains(q) <==> (old(cells)@.contains(q) || q == p));
    }
}

proof fn lemma_insert_sorted(before: Seq<GridPosition>, i: int, p: GridPosition)
    requires
        cells_sorted(before),
        0 <= i <= before.len(),
        forall|k: int| 0 <= k < i ==> cell_before(before[k], p),
        i < before.len() ==> !cell_before(before[i], p) && before[i] != p,
    ensures
        cells_sorted(before.insert(i, p)),
        forall|q: GridPosition| before.insert(i, p).contains(q) <==> (before.contains(q) || q == p),
{
    let cells = before.insert(i, p);
    assert forall|a: int, b: int| 0 <= a < b < cells.len() implies cell_before(cells[a], cells[b]) by {
        if b < i {
        } else if a < i && b == i {
        } else if a < i {
            assert(cells[b] == before[b - 1]);
        } else if a == i {
            assert(cells[b] == before[b - 1]);
            if b - 1 > i {
                assert(cell_before(before[i], before[b - 1]));
            }
        } else {
            assert(cells[a] == before[a - 1]);
            assert(cells[b] == before[b - 1]);
        }
    }
    assert forall|q: GridPosition| cells.contains(q) <==> (before.contains(q) || q == p) by {
        if cells.contains(q) {
            let k = choose|k: int| 0 <= k < cells.len() && cells[k] == q;
            if k < i {
                assert(before[k] == q);
            } else if k > i {
                assert(before[k - 1] == q);
            }
        }
        if before.contains(q) {
            let k = choose|k: int| 0 <= k < before.len() && before[k] == q;
            if k < i {
                assert(cells[k] == q);
            } else {
                assert(cells[k + 1] == q);
            }
        }
        if q == p {
            assert(cells[i] == p);
        }
    }
}

fn cell_is_before(a: GridPosition, b: GridPosition) -> (r: bool)
    ensures
        r == cell_before(a, b),
{
    a.row_index < b.row_index || (a.row_index == b.row_index && a.column_index < b.column_index)
}

/// The diagnostics to step through (see `targets_of`).
pub fn diagnostic_targets(analyses: &[ColumnAnalysis]) -> (r: Vec<DiagnosticTarget>)
    ensures
        targets_of(analyses@, r@),
{
    let mut cells: Vec<GridPosition> = Vec::new();
    let mut col: usize = 0;
    while col < analyses.len()
        invariant
            col <= analyses@.len(),
            cells_sorted(cells@),
            forall|p: GridPosition| cells@.contains(p) <==> (p.column_index < col && has_problem_at(analyses@, p.column_index as int, p.row_index)),
        decreases analyses.len() - col,
    {
        let problems = &analyses[col].problems;
        let mut k: usize = 0;
        while k < problems.len()
            invariant
                col < analyses@.len(),
                problems == &analyses@[col as int].problems,
                k <= problems@.len(),
                cells_sorted(cells@),
                forall|p: GridPosition| cells@.contains(p) <==> ((p.column_index < col && has_problem_at(analyses@, p.column_index as int, p.row_index))
                    || (p.column_index == col && exists|i: int| 0 <= i < k && (#[trigger] problems@[i]).row_index == p.row_index)),
            decreases problems.len() - k,
        {
            let p = GridPosition { row_index: problems[k].row_index, column_index: col };
            insert_cell(&mut cells, p);
            proof {
                assert forall|q: GridPosition| cells@.contains(q) <==> ((q.column_index < col && has_problem_at(analyses@, q.column_index as int, q.row_index))
                    || (q.column_index == col && exists|i: int| 0 <= i < k + 1 && (#[trigger] problems@[i]).row_index == q.row_index)) by {
                    if q.column_index == col && q.row_index == problems@[k as int].row_index {
                        assert(q == p);
                    }
                }
            }
            k += 1;
        }
        proof {
            assert forall|q: GridPosition| cells@.contains(q) <==> (q.column_index < col + 1 && has_problem_at(analyses@, q.column_index as int, q.row_index)) by {
                if q.column_index == col && has_problem_at(analyses@, col as int, q.row_index) {
                    let i = choose|i: int| 0 <= i < analyses@[col as int].problems@.len() && (#[trigger] analyses@[col as int].problems@[i]).row_index == q.row_index;
                    assert(problems@[i].row_index == q.row_index);
                }
            }
        }
        col += 1;
    }
    let mut out: Vec<DiagnosticTarget> = Vec::new();
    let mut i: usize = 0;
    while i < cells.len()
        invariant
            i <= cells@.len(),
            out@ == Seq::new(i as nat, |k: int| DiagnosticTarget::Cell(cells@[k])),
        decreases cells.len() - i,
    {
        out.push(DiagnosticTarget::Cell(cells[i]));
        i += 1;
        proof {
            assert(out@ =~= Seq::new(i as nat, |k: int| DiagnosticTarget::Cell(cells@[k])));
        }
    }
    let ghost cell_targets = out@;
    let mut c: usize = 0;
    proof {
        assert(out@ =~= cell_targets + warning_columns(analyses@, 0));
    }
    while c < analyses.len()
        invariant
            c <= analyses@.len(),
            out@ == cell_targets + warning_columns(analyses@, c as nat),
        decreases analyses.len() - c,
    {
        if analyses[c].has_mixed_warning {
            out.push(DiagnosticTarget::Column(c));
        }
        c += 1;
        proof {
            assert(out@ =~= cell_targets + warning_columns(analyses@, c as nat));
        }
    }
    proof {
        assert(out@ == Seq::new(cells@.len(), |k: int| DiagnosticTarget::Cell(cells@[k])) + warning_columns(analyses@, analyses@.len()));
        assert(targets_of(analyses@, out@));
    }
    out
}

/// The first position of a target in the list, if it is there.
pub open spec fn position_of(targets: Seq<DiagnosticTarget>, t: DiagnosticTarget, i: int) -> Option<int>
    decreases targets.len() - i,
{
    if i < 0 || i >= targets.len() {
        None
    } else if targets[i] == t {
        Some(i)
    } else {
        position_of(targets, t, i + 1)
    }
}

/// The target after the current one (or the first, when there is no current one in the list),
/// or before it (or the last), wrapping around; none when there are no targets.
pub open spec fn cycle_target(targets: Seq<DiagnosticTarget>, current: Option<DiagnosticTarget>, backwards: bool) -> Option<DiagnosticTarget> {
    if targets.len() == 0 {
        None
    } else {
        let index = match current {
            Some(c) => position_of(targets, c, 0),
            None => None,
        };
        let next = match index {
            Some(i) => if backwards {
                if i == 0 { targets.len() - 1 } else { i - 1 }
            } else {
                (i + 1) % (targets.len() as int)
            },
            None => if backwards { targets.len() - 1 } else { 0 },
        };
        Some(targets[next])
    }
}

proof fn lemma_position_of(targets: Seq<DiagnosticTarget>, t: DiagnosticTarget, i: int)
    requires
        0 <= i,
    ensures
        position_of(targets, t, i) matches Some(k) ==> i <= k < targets.len() && targets[k] == t
            && forall|m: int| i <= m < k ==> targets[m] != t,
        position_of(targets, t, i) is None ==> forall|m: int| i <= m < targets.len() ==> targets[m] != t,
    decreases targets.len() - i,
{
    if i < targets.len() && targets[i] != t {
        lemma_position_of(targets, t, i + 1);
    }
}

fn find_target(targets: &[DiagnosticTarget], c: DiagnosticTarget) -> (r: Option<usize>)
    ensures
        match r {
            Some(i) => position_of(targets@, c, 0) == Some(i as int),
            None => position_of(targets@, c, 0) is None,
        },
{
    let mut i: usize = 0;
    while i < targets.len()
        invariant
            i <= targets@.len(),
            position_of(targets@, c, i as int) == position_of(targets@, c, 0),
        decreases targets.len() - i,
    {
        if targets[i] == c {
            return Some(i);
        }
        i += 1;
    }
    None
}

/// Steps to the next (or previous) diagnostic target (see `cycle_target`).
pub fn cycle_diagnostic(
    targets: &[DiagnosticTarget],
    current: Option<DiagnosticTarget>,
    backwards: bool,
) -> (r: Option<DiagnosticTarget>)
    ensures
        r == cycle_target(targets@, current, backwards),
{
    if targets.len() == 0 {
        return None;
    }
    let index: Option<usize> = match current {
        Some(c) => find_target(targets, c),
        None => None,
    };
    let n = targets.len();
    proof {
        match current {
            Some(c) => lemma_position_of(targets@, c, 0),
            None => {},
        }
    }
    let next = match index {
        Some(i) => if backwards {
            if i == 0 { n - 1 } else { i - 1 }
        } else {
            (i + 1) % n
        },
        None => if backwards { n - 1 } else { 0 },
    };
    Some(targets[next])
}

} // verus!
