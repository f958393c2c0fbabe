use vstd::prelude::*;

use crate::editor_navigation::GridMovement;
use crate::platform::Platform;
use crate::text::{chars_of, decimal, push_decimal, push_str, string_of};
use crate::workspace::ascii_fold;

verus! {

/// A key pressed in the editor window, as far as the shortcuts tell keys apart.
pub enum KeyInput {
    Tab,
    Escape,
    Enter,
    F2,
    F8,
    ArrowUp,
    ArrowDown,
    ArrowLeft,
    ArrowRight,
    Character(String),
    Other,
}

/// The modifier keys held with a key (`other`: any further one, such as Caps Lock).
#[derive(Clone, Copy, Debug, PartialEq, Eq, Structural)]
pub struct KeyModifiers {
    pub control: bool,
    pub shift: bool,
    pub alt: bool,
    pub meta: bool,
    pub other: bool,
}

/// The modifier of the platform's shortcuts: Command on macOS, Control elsewhere.
pub open spec fn primary_held(m: KeyModifiers, platform: Platform) -> bool {
    if platform == Platform::MacOs { m.meta } else { m.control }
}

/// Whether the shortcut modifier is held.
pub fn primary_modifier(modifiers: KeyModifiers, platform: Platform) -> (r: bool)
    ensures
        r == primary_held(modifiers, platform),
{
    if platform == Platform::MacOs {
        modifiers.meta
    } else {
        modifiers.control
    }
}

/// Whether redo is the shortcut of undo with Shift (on macOS).
pub fn redo_uses_shift_z(modifiers: KeyModifiers, platform: Platform) -> (r: bool)
    ensures
        r == (platform == Platform::MacOs && modifiers.shift),
{
    platform == Platform::MacOs && modifiers.shift
}

/// Whether a key is the character `expected`, ignoring ASCII case.
pub open spec fn is_character(key: KeyInput, expected: char) -> bool {
    key matches KeyInput::Character(s) && s@.len() == 1 && ascii_fold(s@[0]) == ascii_fold(expected)
}

/// Whether a key is the given character, ignoring ASCII case.
pub fn key_character_is(key: &KeyInput, expected: char) -> (r: bool)
    ensures
        r == is_character(*key, expected),
{
    match key {
        KeyInput::Character(value) => {
            let chars = chars_of(value.as_str());
            if chars.len() != 1 {
                return false;
            }
            fold(chars[0]) == fold(expected)
        },
        _ => false,
    }
}

fn fold(c: char) -> (r: char)
    ensures
        r == ascii_fold(c),
{
    if 'A' <= c && c <= 'Z' {
        let code = c as u32;
        ((code as u8) + 32) as char
    } else {
        c
    }
}

/// What a key does in the editor window.
#[derive(Clone, Copy, Debug, PartialEq, Eq, Structural)]
pub enum AppKeyAction {
    CycleTab { backwards: bool },
    ToggleSidebar,
    Save,
    Close,
    Undo,
    Redo,
    CloseOverlay,
    CancelEdit,
    ClearDiagnostic,
    NavigateDiagnostic { backwards: bool },
    StartEdit,
    Move(GridMovement),
    Ignore,
}

/// The outcome of a key: its action and whether the browser's own handling is suppressed.
#[derive(Clone, Copy, Debug, PartialEq, Eq, Structural)]
pub struct KeyDecision {
    pub action: AppKeyAction,
    pub prevent_default: bool,
}

pub open spec fn decided(action: AppKeyAction, prevent_default: bool) -> KeyDecision {
    KeyDecision { action, prevent_default }
}

/// The grid movement of an arrow key.
pub open spec fn arrow_movement(key: KeyInput) -> Option<GridMovement> {
    match key {
        KeyInput::ArrowUp => Some(GridMovement::Up),
        KeyInput::ArrowDown => Some(GridMovement::Down),
        KeyInput::ArrowLeft => Some(GridMovement::Left),
        KeyInput::ArrowRight => Some(GridMovement::Right),
        _ => None,
    }
}

/// The window shortcuts, first match wins: Control+Tab cycles tabs (Shift backwards); the
/// shortcut modifier with B toggles the sidebar, with S saves, with W closes, with Z undoes
/// (redoes with Shift on macOS) and with Y redoes (not on macOS), undo and redo being left to
/// the cell editor while a cell is edited; Escape closes the open panel, else cancels the cell
/// edit, else clears the diagnostic target; while editing or with Control or the shortcut
/// modifier nothing else applies; F8 goes to the next diagnostic (Shift: previous), Enter or F2
/// edits the selected cell, and the arrows move the selection in the open tab.
pub open spec fn app_key(key: KeyInput, m: KeyModifiers, platform: Platform, editing: bool, overlay_open: bool, has_active_tab: bool) -> KeyDecision {
    let primary = primary_held(m, platform);
    if m.control && key is Tab {
        decided(AppKeyAction::CycleTab { backwards: m.shift }, true)
    } else if primary && is_character(key, 'b') {
        decided(AppKeyAction::ToggleSidebar, true)
    } else if primary && is_character(key, 's') {
        decided(AppKeyAction::Save, true)
    } else if primary && is_character(key, 'w') {
        decided(AppKeyAction::Close, true)
    } else if primary && is_character(key, 'z') {
        if editing {
            decided(AppKeyAction::Ignore, false)
        } else if platform == Platform::MacOs && m.shift {
            decided(AppKeyAction::Redo, true)
        } else {
            decided(AppKeyAction::Undo, true)
        }
    } else if primary && is_character(key, 'y') && platform != Platform::MacOs {
        if editing {
            decided(AppKeyAction::Ignore, false)
        } else {
            decided(AppKeyAction::Redo, true)
        }
    } else if key is Escape {
        if overlay_open {
            decided(AppKeyAction::CloseOverlay, true)
        } else if editing {
            decided(AppKeyAction::CancelEdit, true)
        } else {
            decided(AppKeyAction::ClearDiagnostic, false)
        }
    } else if editing || primary || m.control {
        decided(AppKeyAction::Ignore, false)
    } else if key is F8 {
        decided(AppKeyAction::NavigateDiagnostic { backwards: m.shift }, true)
    } else if key is Enter || key is F2 {
        decided(AppKeyAction::StartEdit, true)
    } else {
        match arrow_movement(key) {
            Some(movement) => if has_active_tab {
                decided(AppKeyAction::Move(movement), true)
            } else {
                decided(AppKeyAction::Ignore, false)
            },
            None => decided(AppKeyAction::Ignore, false),
        }
    }
}

/// Decides what a key does in the editor window (see `app_key`).
pub fn app_key_decision(
    key: &KeyInput,
    modifiers: KeyModifiers,
    platform: Platform,
    editing: bool,
    overlay_open: bool,
    has_active_tab: bool,
) -> (r: KeyDecision)
    ensures
        r == app_key(*key, modifiers, platform, editing, overlay_open, has_active_tab),
{
    let primary = primary_modifier(modifiers, platform);
    let is_tab = match key {
        KeyInput::Tab => true,
        _ => false,
    };
    if modifiers.control && is_tab {
        return KeyDecision { action: AppKeyAction::CycleTab { backwards: modifiers.shift }, prevent_default: true };
    }
    if primary && key_character_is(key, 'b') {
        return KeyDecision { action: AppKeyAction::ToggleSidebar, prevent_default: true };
    }
    if primary && key_character_is(key, 's') {
        return KeyDecision { action: AppKeyAction::Save, prevent_default: true };
    }
    if primary && key_character_is(key, 'w') {
        return KeyDecision { action: AppKeyAction::Close, prevent_default: true };
    }
    if primary && key_character_is(key, 'z') {
        if editing {
            return KeyDecision { action: AppKeyAction::Ignore, prevent_default: false };
        }
        if redo_uses_shift_z(modifiers, platform) {
            return KeyDecision { action: AppKeyAction::Redo, prevent_default: true };
        }
        return KeyDecision { action: AppKeyAction::Undo, prevent_default: true };
    }
    if primary && key_character_is(key, 'y') && platform != Platform::MacOs {
        if editing {
            return KeyDecision { action: AppKeyAction::Ignore, prevent_default: false };
        }
        return KeyDecision { action: AppKeyAction::Redo, prevent_default: true };
    }
    match key {
        KeyInput::Escape => {
            if overlay_open {
                return KeyDecision { action: AppKeyAction::CloseOverlay, prevent_default: true };
            } else if editing {
                return KeyDecision { action: AppKeyAction::CancelEdit, prevent_default: true };
            } else {
                return KeyDecision { action: AppKeyAction::ClearDiagnostic, prevent_default: false };
            }
        },
        _ => {},
    }
    if editing || primary || modifiers.control {
        return KeyDecision { action: AppKeyAction::Ignore, prevent_default: false };
    }
    match key {
        KeyInput::F8 => KeyDecision { action: AppKeyAction::NavigateDiagnostic { backwards: modifiers.shift }, prevent_default: true },
        KeyInput::Enter | KeyInput::F2 => KeyDecision { action: AppKeyAction::StartEdit, prevent_default: true },
        KeyInput::ArrowUp | KeyInput::ArrowDown | KeyInput::ArrowLeft | KeyInput::ArrowRight => {
            let movement = match key {
                KeyInput::ArrowUp => GridMovement::Up,
                KeyInput::ArrowDown => GridMovement::Down,
                KeyInput::ArrowLeft => GridMovement::Left,
                _ => GridMovement::Right,
            };
            if has_active_tab {
                KeyDecision { action: AppKeyAction::Move(movement), prevent_default: true }
            } else {
                KeyDecision { action: AppKeyAction::Ignore, prevent_default: false }
            }
        },
        _ => KeyDecision { action: AppKeyAction::Ignore, prevent_default: false },
    }
}

/// What a key does in a table while focus mode can be used.
#[derive(Clone, Copy, Debug, PartialEq, Eq, Structural)]
pub enum TableKeyAction {
    Ignore,
    ClearFocus,
    FocusSelectedColumn,
    MoveFocus { backwards: bool },
}

/// Whether no modifier is held.
pub open spec fn no_modifiers(m: KeyModifiers) -> bool {
    !m.control && !m.shift && !m.alt && !m.meta && !m.other
}

/// Focus-mode keys of an editable table that is not being edited: Escape leaves focus mode; T
/// (without modifiers) enters it on the selected cell's column, or leaves it; Left or A and Right
/// or D (without modifiers) move the focus while in focus mode. A key that acts is kept from the
/// browser and from the window's shortcuts.
pub open spec fn table_key(key: KeyInput, m: KeyModifiers, read_only: bool, editing: bool, focused: bool, has_selection: bool) -> TableKeyAction {
    if read_only || editing {
        TableKeyAction::Ignore
    } else if key is Escape && focused {
        TableKeyAction::ClearFocus
    } else if no_modifiers(m) && is_character(key, 't') {
        if !has_selection {
            TableKeyAction::Ignore
        } else if focused {
            TableKeyAction::ClearFocus
        } else {
            TableKeyAction::FocusSelectedColumn
        }
    } else if focused && no_modifiers(m) && (key is ArrowLeft || is_character(key, 'a')) {
        TableKeyAction::MoveFocus { backwards: true }
    } else if focused && no_modifiers(m) && (key is ArrowRight || is_character(key, 'd')) {
        TableKeyAction::MoveFocus { backwards: false }
    } else {
        TableKeyAction::Ignore
    }
}

/// Decides what a key does in a table's focus mode (see `table_key`).
pub fn table_key_action(key: &KeyInput, modifiers: KeyModifiers, read_only: bool, editing: bool, focused: bool, has_selection: bool) -> (r: TableKeyAction)
    ensures
        r == table_key(*key, modifiers, read_only, editing, focused, has_selection),
{
    if read_only || editing {
        return TableKeyAction::Ignore;
    }
    let is_escape = match key {
        KeyInput::Escape => true,
        _ => false,
    };
    if is_escape && focused {
        return TableKeyAction::ClearFocus;
    }
    let plain = !modifiers.control && !modifiers.shift && !modifiers.alt && !modifiers.meta && !modifiers.other;
    if plain && key_character_is(key, 't') {
        if !has_selection {
            return TableKeyAction::Ignore;
        }
        return if focused { TableKeyAction::ClearFocus } else { TableKeyAction::FocusSelectedColumn };
    }
    let left = match key {
        KeyInput::ArrowLeft => true,
        _ => key_character_is(key, 'a'),
    };
    let right = match key {
        KeyInput::ArrowRight => true,
        _ => key_character_is(key, 'd'),
    };
    if focused && plain && left {
        TableKeyAction::MoveFocus { backwards: true }
    } else if focused && plain && right {
        TableKeyAction::MoveFocus { backwards: false }
    } else {
        TableKeyAction::Ignore
    }
}

/// The column focus moves to: one step left or right of the current one, kept within the
/// columns.
pub open spec fn focus_step(current: usize, backwards: bool, column_count: usize) -> usize {
    let next: int = if backwards { if current == 0 { 0 } else { current - 1 } } else { if current == usize::MAX { current as int } else { current + 1 } };
    if next > column_count - 1 { (column_count - 1) as usize } else { next as usize }
}

/// The column focus moves to from `current` (see `focus_step`); none in a table without columns.
pub fn next_focus_column(current: usize, backwards: bool, column_count: usize) -> (r: Option<usize>)
    ensures
        column_count == 0 ==> r is None,
        column_count > 0 ==> r == Some(focus_step(current, backwards, column_count)),
{
    if column_count == 0 {
        return None;
    }
    let next = if backwards { current.saturating_sub(1) } else { current.saturating_add(1) };
    Some(if next > column_count - 1 { column_count - 1 } else { next })
}

/// Moving the focus goes to the neighbouring column: forward from a column that is not the last
/// to the next one, backward from one that is not the first to the previous one; at either end
/// it stays; and a step forward then back comes back.
pub proof fn law_focus_moves_to_the_neighbouring_column(current: usize, column_count: usize)
    requires
        current < column_count,
    ensures
        focus_step(current, false, column_count) == if current + 1 < column_count { (current + 1) as usize } else { current },
        focus_step(current, true, column_count) == if current > 0 { (current - 1) as usize } else { current },
        current + 1 < column_count ==> focus_step(focus_step(current, false, column_count), true, column_count) == current,
{
}

/// The next position when cycling through `count` items from `current` (none: from outside the
/// list), forwards or backwards, wrapping around.
pub open spec fn cycled(current: Option<usize>, backwards: bool, count: usize) -> usize {
    match current {
        None => if backwards { (count - 1) as usize } else { 0 },
        Some(i) => if backwards {
            if i == 0 { (count - 1) as usize } else { (i - 1) as usize }
        } else {
            ((i + 1) % (count as int)) as usize
        },
    }
}

/// Cycles through tabs or matches (see `cycled`).
pub fn next_cycle_index(current: Option<usize>, backwards: bool, count: usize) -> (r: usize)
    requires
        count > 0,
        current matches Some(i) ==> i < count,
    ensures
        r == cycled(current, backwards, count),
        r < count,
{
    match current {
        None => if backwards { count - 1 } else { 0 },
        Some(index) => {
            if backwards {
                if index == 0 { count - 1 } else { index - 1 }
            } else {
                (index + 1) % count
            }
        },
    }
}

/// What a go-to-line request is aimed at: the text view and its physical lines; the table of an
/// open tab (its records, header rows, columns and the selected column, if any); a preview's
/// table; or nothing open.
pub enum JumpView {
    Text { line_count: usize },
    Table { record_count: usize, header_rows: usize, column_count: usize, selected_column: Option<usize> },
    Preview { record_count: usize, header_rows: usize, column_count: usize },
    Nothing,
}

/// Where a go-to-line request leads: a line of the text, or a cell.
#[derive(Clone, Copy, Debug, PartialEq, Eq, Structural)]
pub enum LineJump {
    TextLine(usize),
    Cell { row_index: usize, column_index: usize },
}

/// Where a go-to-line request for `line` leads (with its notice), or why it is refused. Lines
/// start at 1. In the text, a line within the physical lines. In a table, data row `line` (after
/// the header rows), in the selected column (kept within the columns) or the first; a table
/// without columns is refused. In a preview, data row `line` in the first column.
pub open spec fn line_jump(line: usize, view: JumpView) -> Result<(LineJump, Seq<char>), Seq<char>> {
    if line == 0 {
        Err("Line numbers start at 1"@)
    } else {
        match view {
            JumpView::Text { line_count } => if line > line_count {
                Err("Line "@ + decimal(line as nat) + " is outside this file ("@ + decimal(line_count as nat) + " physical lines)"@)
            } else {
                Ok((LineJump::TextLine(line), "Ln "@ + decimal(line as nat)))
            },
            JumpView::Table { record_count, header_rows, column_count, selected_column } => {
                let data_rows: nat = if record_count >= header_rows { (record_count - header_rows) as nat } else { 0 };
                if line > data_rows {
                    Err("Row "@ + decimal(line as nat) + " is outside this table ("@ + decimal(data_rows) + " data rows)"@)
                } else if column_count == 0 {
                    Err("This table has no columns"@)
                } else {
                    let column = match selected_column {
                        Some(c) => if c < column_count - 1 { c } else { (column_count - 1) as usize },
                        None => 0usize,
                    };
                    Ok((LineJump::Cell { row_index: (header_rows + line - 1) as usize, column_index: column }, "Row "@ + decimal(line as nat)))
                }
            },
            JumpView::Preview { record_count, header_rows, column_count } => {
                let data_rows: nat = if record_count >= header_rows { (record_count - header_rows) as nat } else { 0 };
                if line > data_rows || column_count == 0 {
                    Err("Row "@ + decimal(line as nat) + " is outside this preview ("@ + decimal(data_rows) + " data rows)"@)
                } else {
                    Ok((LineJump::Cell { row_index: (header_rows + line - 1) as usize, column_index: 0 }, "Row "@ + decimal(line as nat)))
                }
            },
            JumpView::Nothing => Err("No file is open"@),
        }
    }
}

fn sentence(a: &str, x: usize, b: &str, y: usize, c: &str) -> (r: String)
    ensures
        r@ == a@ + decimal(x as nat) + b@ + decimal(y as nat) + c@,
{
    let mut out: Vec<char> = Vec::new();
    push_str(&mut out, a);
    push_decimal(&mut out, x as u128);
    push_str(&mut out, b);
    push_decimal(&mut out, y as u128);
    push_str(&mut out, c);
    assert(out@ =~= a@ + decimal(x as nat) + b@ + decimal(y as nat) + c@);
    string_of(&out)
}

fn labelled(a: &str, x: usize) -> (r: String)
    ensures
        r@ == a@ + decimal(x as nat),
{
    let mut out: Vec<char> = Vec::new();
    push_str(&mut out, a);
    push_decimal(&mut out, x as u128);
    string_of(&out)
}

/// Plans a go-to-line request (see `line_jump`): the target and the notice, or the refusal.
pub fn plan_line_jump(line: usize, view: &JumpView) -> (r: Result<(LineJump, String), String>)
    ensures
        match (r, line_jump(line, *view)) {
            (Ok((j, n)), Ok((k, m))) => j == k && n@ == m,
            (Err(e), Err(m)) => e@ == m,
            _ => false,
        },
{
    if line == 0 {
        return Err("Line numbers start at 1".to_owned());
    }
    match view {
        JumpView::Text { line_count } => {
            if line > *line_count {
                Err(sentence("Line ", line, " is outside this file (", *line_count, " physical lines)"))
            } else {
                Ok((LineJump::TextLine(line), labelled("Ln ", line)))
            }
        },
        JumpView::Table { record_count, header_rows, column_count, selected_column } => {
            let data_rows = if *record_count >= *header_rows { *record_count - *header_rows } else { 0 };
            if line > data_rows {
                Err(sentence("Row ", line, " is outside this table (", data_rows, " data rows)"))
            } else if *column_count == 0 {
                Err("This table has no columns".to_owned())
            } else {
                let column = match selected_column {
                    Some(c) => if *c < *column_count - 1 { *c } else { *column_count - 1 },
                    None => 0,
                };
                Ok((LineJump::Cell { row_index: *header_rows + line - 1, column_index: column }, labelled("Row ", line)))
            }
        },
        JumpView::Preview { record_count, header_rows, column_count } => {
            let data_rows = if *record_count >= *header_rows { *record_count - *header_rows } else { 0 };
            if line > data_rows || *column_count == 0 {
                Err(sentence("Row ", line, " is outside this preview (", data_rows, " data rows)"))
            } else {
                Ok((LineJump::Cell { row_index: *header_rows + line - 1, column_index: 0 }, labelled("Row ", line)))
            }
        },
        JumpView::Nothing => Err("No file is open".to_owned()),
    }
}

} // verus!
