use vstd::prelude::*;

use std::path::{Path, PathBuf};

use crate::cell_edit::{cell_edit_outcome, normalize_cell_edit};
use crate::csv_document::{CsvDocument, CsvDocumentError, DelimiterSource, cell_in_bounds, cell_rewritten, rewritten_record, clone_path, file_name_of, path_file_name, paths_match, same_path};
use crate::diagnostics::{ColumnAnalysis, flags_beside_numbers, has_flags_beside_numbers, standard_column_values, standard_values};
use crate::settings::{DEFAULT_HEADER_ROWS, FilePreferences, MAX_HEADER_ROWS, MIN_HEADER_ROWS, Settings, normalized, preferences_of, same_key, stored_preferences};
use crate::editor_navigation::DiagnosticTarget;
use crate::document_session::{DocumentSession, DocumentSessionError, DocumentView, TextParseIssue, blake3_digest, digest, saved_form, with_cell};
use crate::text::hex_digit_char;
use vstd::utf8::encode_utf8;
use crate::text::{chars_of, decimal, push_decimal, push_str, string_of};

verus! {

/// The number of line feeds in a text.
pub open spec fn line_feeds_in(t: Seq<char>) -> nat
    decreases t.len(),
{
    if t.len() == 0 {
        0
    } else {
        line_feeds_in(t.drop_last()) + if t.last() == '\n' { 1nat } else { 0nat }
    }
}

/// The physical lines of a text: one more than its line feeds, so that a text ending in a line
/// feed has an empty last line.
pub open spec fn physical_lines(t: Seq<char>) -> nat {
    line_feeds_in(t) + 1
}

proof fn lemma_line_feeds_bound(t: Seq<char>)
    ensures
        line_feeds_in(t) <= t.len(),
    decreases t.len(),
{
    if t.len() > 0 {
        lemma_line_feeds_bound(t.drop_last());
    }
}

/// The number of physical lines of a text.
pub fn physical_line_count(text: &str) -> (r: usize)
    requires
        text@.len() < usize::MAX,
    ensures
        r == physical_lines(text@),
{
    let chars = chars_of(text);
    let mut count: usize = 0;
    let mut i: usize = 0;
    while i < chars.len()
        invariant
            chars@ == text@,
            chars@.len() < usize::MAX,
            i <= chars.len(),
            count == line_feeds_in(chars@.subrange(0, i as int)),
        decreases chars.len() - i,
    {
        proof {
            let s = chars@.subrange(0, i + 1);
            assert(s.drop_last() == chars@.subrange(0, i as int));
            lemma_line_feeds_bound(chars@.subrange(0, i as int));
        }
        if chars[i] == '\n' {
            count += 1;
        }
        i += 1;
    }
    proof {
        assert(chars@.subrange(0, i as int) == chars@);
        lemma_line_feeds_bound(chars@);
    }
    count + 1
}

/// The gutter of a text view: the numbers 1 to `n`, one per line.
pub open spec fn line_numbers(n: nat) -> Seq<char>
    decreases n,
{
    if n == 0 {
        seq![]
    } else if n == 1 {
        decimal(1)
    } else {
        line_numbers((n - 1) as nat) + seq!['\n'] + decimal(n)
    }
}

/// The line numbers 1 to `line_count`, separated by line feeds.
pub fn physical_line_numbers(line_count: usize) -> (r: String)
    ensures
        r@ == line_numbers(line_count as nat),
{
    let mut output: Vec<char> = Vec::new();
    let mut line: usize = 1;
    while line <= line_count
        invariant
            1 <= line,
            line <= line_count + 1,
            output@ == line_numbers((line - 1) as nat),
        decreases line_count + 1 - line,
    {
        if line > 1 {
            output.push('\n');
        }
        push_decimal(&mut output, line as u128);
        proof {
            if line > 1 {
                assert(output@ == line_numbers((line - 1) as nat) + seq!['\n'] + decimal(line as nat));
            } else {
                assert(output@ =~= decimal(1));
            }
        }
        if line == usize::MAX {
            return string_of(&output);
        }
        line += 1;
    }
    string_of(&output)
}

/// The width of a focused column: seven pixels a character and 36 more, kept between 320 and
/// 720.
pub open spec fn focus_width(max_content_chars: nat) -> nat {
    let w = 7 * max_content_chars + 36;
    if w < 320 {
        320
    } else if w > 720 {
        720
    } else {
        w
    }
}

/// The width of a focused column whose longest line has the given number of characters.
pub fn focus_column_width(max_content_chars: usize) -> (r: usize)
    ensures
        r == focus_width(max_content_chars as nat),
{
    if max_content_chars >= 98 {
        720
    } else {
        let w = max_content_chars * 7 + 36;
        if w < 320 {
            320
        } else if w > 720 {
            720
        } else {
            w
        }
    }
}

/// The class of a column in focus mode: the focused column, its two neighbours, or hidden; none
/// when no column is focused.
pub open spec fn focus_class(column_index: usize, focused_index: Option<usize>) -> Seq<char> {
    match focused_index {
        None => ""@,
        Some(f) => if f == column_index {
            "focus-column"@
        } else if f + 1 == column_index || column_index + 1 == f {
            "focus-neighbor"@
        } else {
            "column-hidden"@
        },
    }
}

/// The focus class of a column (see `focus_class`).
pub fn column_focus_class(column_index: usize, focused_index: Option<usize>) -> (r: &'static str)
    ensures
        r@ == focus_class(column_index, focused_index),
{
    match focused_index {
        None => "",
        Some(focused) => {
            if focused == column_index {
                "focus-column"
            } else if (focused < column_index && column_index - focused == 1) || (column_index < focused && focused
                - column_index == 1) {
                "focus-neighbor"
            } else {
                "column-hidden"
            }
        },
    }
}

/// A base class and a focus class joined by a space, either left out when empty.
pub open spec fn joined_classes(base: Seq<char>, focus: Seq<char>) -> Seq<char> {
    if base.len() == 0 {
        focus
    } else if focus.len() == 0 {
        base
    } else {
        base + seq![' '] + focus
    }
}

/// The classes of a table cell: its base class and its column's focus class.
pub fn with_column_focus_class(base_class: &str, column_index: usize, focused_index: Option<usize>) -> (r: String)
    ensures
        r@ == joined_classes(base_class@, focus_class(column_index, focused_index)),
{
    let focus_class = column_focus_class(column_index, focused_index);
    if base_class.is_empty() {
        focus_class.to_owned()
    } else if focus_class.is_empty() {
        base_class.to_owned()
    } else {
        let mut out: Vec<char> = Vec::new();
        push_str(&mut out, base_class);
        out.push(' ');
        push_str(&mut out, focus_class);
        string_of(&out)
    }
}

/// What to do with an open tab when its file changed on disk.
#[derive(Clone, Copy, Debug, PartialEq, Eq, Structural)]
pub enum ExternalChangeAction {
    NoAction,
    Reload,
    Conflict,
}

/// Nothing when the disk bytes are those last read or saved (by digest); else reload a clean tab
/// and flag a conflict in a tab with unsaved changes (also when the disk could not be read).
pub open spec fn external_change(saved: Seq<u8>, disk: Option<Seq<u8>>, is_dirty: bool) -> ExternalChangeAction {
    if disk == Some(saved) {
        ExternalChangeAction::NoAction
    } else if is_dirty {
        ExternalChangeAction::Conflict
    } else {
        ExternalChangeAction::Reload
    }
}

/// Decides how an open tab follows a change on disk (see `external_change`).
pub fn external_change_action(saved_hash: &Vec<u8>, disk_hash: Option<&Vec<u8>>, is_dirty: bool) -> (r: ExternalChangeAction)
    ensures
        r == external_change(saved_hash@, match disk_hash { Some(d) => Some(d@), None => None }, is_dirty),
{
    let unchanged = match disk_hash {
        Some(disk) => crate::document_session::bytes_equal(disk, saved_hash),
        None => false,
    };
    if unchanged {
        ExternalChangeAction::NoAction
    } else if is_dirty {
        ExternalChangeAction::Conflict
    } else {
        ExternalChangeAction::Reload
    }
}

/// Whether two paths are equal as `Path`'s `==` compares them (component by component).
pub uninterp spec fn path_equal(a: Seq<char>, b: Seq<char>) -> bool;

/// `Path::new(a) == Path::new(b)`.
#[verifier::external_body]
pub(crate) fn paths_equal(a: &str, b: &str) -> (r: bool)
    ensures
        r == path_equal(a@, b@),
{
    Path::new(a) == Path::new(b)
}

/// Whether `Path::starts_with` holds: the base's components begin the path's.
pub uninterp spec fn path_starts_with(path: Seq<char>, base: Seq<char>) -> bool;

/// `Path::new(path).starts_with(base)`.
#[verifier::external_body]
fn path_has_prefix(path: &str, base: &str) -> (r: bool)
    ensures
        r == path_starts_with(path@, base@),
{
    Path::new(path).starts_with(base)
}

/// Whether a change at `changed` concerns the file at `path`: the same path, or a directory
/// that holds it.
pub open spec fn change_reaches(path: Seq<char>, changed: Seq<char>) -> bool {
    path_equal(changed, path) || path_starts_with(path, changed)
}

/// Whether any of the changed paths concerns the file at `path`.
pub fn path_was_affected(path: &str, changed_paths: &Vec<String>) -> (r: bool)
    ensures
        r == exists|k: int| 0 <= k < changed_paths@.len() && change_reaches(path@, (#[trigger] changed_paths@[k])@),
{
    let mut i: usize = 0;
    while i < changed_paths.len()
        invariant
            i <= changed_paths.len(),
            forall|k: int| 0 <= k < i ==> !change_reaches(path@, (#[trigger] changed_paths@[k])@),
        decreases changed_paths.len() - i,
    {
        let changed = changed_paths[i].as_str();
        if paths_equal(changed, path) || path_has_prefix(path, changed) {
            return true;
        }
        i += 1;
    }
    false
}

/// A cell of an open file.
pub struct CellLocation {
    pub path: PathBuf,
    pub row_index: usize,
    pub column_index: usize,
}

/// The text being typed into a cell, not yet committed.
pub struct CellDraft {
    pub location: CellLocation,
    pub value: String,
}

/// Where the caret stands in a file's text view (lines and columns from 1).
pub struct TextCursorPosition {
    pub path: PathBuf,
    pub line: usize,
    pub column: usize,
}

/// Whether a draft would change its cell: a cell outside the table counts as changed, and so
/// does a draft that would be refused; otherwise the draft, normalised as committing it would,
/// must differ from the cell.
pub open spec fn draft_changes_cell(records: Seq<Vec<String>>, d: CellDraft) -> bool {
    let row = d.location.row_index as int;
    let col = d.location.column_index as int;
    if row < records.len() && col < records[row]@.len() {
        let original = records[row]@[col]@;
        match cell_edit_outcome(original, d.value@) {
            Ok(normalized) => normalized != original,
            Err(_) => true,
        }
    } else {
        true
    }
}

/// Whether closing a tab would lose work: its bytes differ from those on disk, or the draft
/// being typed in one of its cells would change that cell.
pub open spec fn has_unsaved_changes(tab: DocumentSession, draft: Option<CellDraft>) -> bool {
    tab.dirty() || match draft {
        Some(d) => same_path(d.location.path, tab.table().path) && draft_changes_cell(tab.table().records@, d),
        None => false,
    }
}

/// The draft a reference points at, as a value.
pub open spec fn draft_value(draft: Option<&CellDraft>) -> Option<CellDraft> {
    match draft {
        Some(d) => Some(*d),
        None => None,
    }
}

/// Whether a tab has unsaved changes (see `has_unsaved_changes`).
pub fn tab_has_unsaved_changes(tab: &DocumentSession, draft: Option<&CellDraft>) -> (r: bool)
    requires
        tab.inv(),
    ensures
        r == has_unsaved_changes(*tab, draft_value(draft)),
{
    if tab.is_dirty() {
        return true;
    }
    let draft = match draft {
        Some(d) => d,
        None => return false,
    };
    let document = tab.table_ref();
    if !paths_match(&draft.location.path, &document.path) {
        return false;
    }
    let row = draft.location.row_index;
    let column = draft.location.column_index;
    if row >= document.records.len() || column >= document.records[row].len() {
        return true;
    }
    let original = &document.records[row][column];
    match normalize_cell_edit(original.as_str(), draft.value.as_str()) {
        Ok(normalized) => !(normalized == *original),
        Err(_) => true,
    }
}

/// The positions of the tabs with unsaved changes, in order.
pub open spec fn unsaved_positions(tabs: Seq<DocumentSession>, draft: Option<CellDraft>) -> Seq<int>
    decreases tabs.len(),
{
    if tabs.len() == 0 {
        seq![]
    } else {
        let rest = unsaved_positions(tabs.drop_last(), draft);
        if has_unsaved_changes(tabs.last(), draft) {
            rest.push(tabs.len() - 1)
        } else {
            rest
        }
    }
}

/// The paths of the tabs with unsaved changes, in tab order.
pub fn unsaved_tab_paths(tabs: &Vec<DocumentSession>, draft: Option<&CellDraft>) -> (r: Vec<PathBuf>)
    requires
        forall|k: int| 0 <= k < tabs@.len() ==> (#[trigger] tabs@[k]).inv(),
    ensures
        r@.len() == unsaved_positions(tabs@, draft_value(draft)).len(),
        forall|k: int| 0 <= k < r@.len() ==> same_path(#[trigger] r@[k],
            tabs@[unsaved_positions(tabs@, draft_value(draft))[k]].table().path),
{
    let ghost d = draft_value(draft);
    let mut paths: Vec<PathBuf> = Vec::new();
    let mut i: usize = 0;
    while i < tabs.len()
        invariant
            d == draft_value(draft),
            forall|k: int| 0 <= k < tabs@.len() ==> (#[trigger] tabs@[k]).inv(),
            i <= tabs.len(),
            paths@.len() == unsaved_positions(tabs@.subrange(0, i as int), d).len(),
            forall|k: int| 0 <= k < paths@.len() ==> same_path(#[trigger] paths@[k],
                tabs@[unsaved_positions(tabs@.subrange(0, i as int), d)[k]].table().path),
            forall|k: int| 0 <= k < unsaved_positions(tabs@.subrange(0, i as int), d).len() ==>
                0 <= #[trigger] unsaved_positions(tabs@.subrange(0, i as int), d)[k] < i,
        decreases tabs.len() - i,
    {
        let ghost before = unsaved_positions(tabs@.subrange(0, i as int), d);
        proof {
            let s = tabs@.subrange(0, i + 1);
            assert(s.drop_last() == tabs@.subrange(0, i as int));
            assert(s.last() == tabs@[i as int]);
        }
        if tab_has_unsaved_changes(&tabs[i], draft) {
            let document = tabs[i].table_ref();
            paths.push(clone_path(&document.path));
            proof {
                let after = unsaved_positions(tabs@.subrange(0, i + 1), d);
                assert(after == before.push(i as int));
                assert forall|k: int| 0 <= k < paths@.len() implies same_path(#[trigger] paths@[k], tabs@[after[k]].table().path) by {
                    if k < before.len() {
                        assert(after[k] == before[k]);
                    }
                }
            }
        } else {
            proof {
                assert(unsaved_positions(tabs@.subrange(0, i + 1), d) == before);
            }
        }
        i += 1;
    }
    proof {
        assert(tabs@.subrange(0, i as int) == tabs@);
    }
    paths
}

/// A file name as shown: the path's final component, or `CSV` when it has none.
pub open spec fn shown_file_name(p: PathBuf) -> Seq<char> {
    match path_file_name(p) {
        Some(name) => name,
        None => "CSV"@,
    }
}

/// The name of a file as shown in tabs and the status bar.
pub fn file_name(path: &PathBuf) -> (r: String)
    ensures
        r@ == shown_file_name(*path),
{
    match file_name_of(path) {
        Some(name) => name,
        None => "CSV".to_owned(),
    }
}

/// Where a table's column analysis stands for a version of its records and a header count.
pub enum TableAnalysisState {
    Loading { document_version: u64, header_rows: usize },
    Ready { document_version: u64, header_rows: usize, columns: Vec<ColumnAnalysis> },
}

impl TableAnalysisState {
    /// The records version the state is for.
    pub open spec fn version_of(&self) -> u64 {
        match self {
            TableAnalysisState::Loading { document_version, .. } => *document_version,
            TableAnalysisState::Ready { document_version, .. } => *document_version,
        }
    }

    /// The header count the state is for.
    pub open spec fn header_rows_of(&self) -> usize {
        match self {
            TableAnalysisState::Loading { header_rows, .. } => *header_rows,
            TableAnalysisState::Ready { header_rows, .. } => *header_rows,
        }
    }

    /// Whether the state is for this version and header count, loading or ready.
    pub fn matches(&self, document_version: u64, header_rows: usize) -> (r: bool)
        ensures
            r == (self.version_of() == document_version && self.header_rows_of() == header_rows),
    {
        match self {
            TableAnalysisState::Loading { document_version: v, header_rows: h } => *v == document_version && *h == header_rows,
            TableAnalysisState::Ready { document_version: v, header_rows: h, .. } => *v == document_version && *h == header_rows,
        }
    }

    /// The column analyses, when they are ready for this version and header count.
    pub fn ready_columns(&self, document_version: u64, header_rows: usize) -> (r: Option<&Vec<ColumnAnalysis>>)
        ensures
            match self {
                TableAnalysisState::Ready { document_version: v, header_rows: h, columns } =>
                    if *v == document_version && *h == header_rows { r == Some(columns) } else { r is None },
                TableAnalysisState::Loading { .. } => r is None,
            },
    {
        match self {
            TableAnalysisState::Ready { document_version: v, header_rows: h, columns } => {
                if *v == document_version && *h == header_rows {
                    Some(columns)
                } else {
                    None
                }
            },
            TableAnalysisState::Loading { .. } => None,
        }
    }
}

/// Whether a column analysis is to be started for a table: when it has at least its header rows
/// and no analysis, loading or ready, is there for this version of its records and header count.
pub fn analysis_wanted(record_count: usize, header_rows: usize, existing: Option<&TableAnalysisState>, document_version: u64) -> (r: bool)
    ensures
        r == (header_rows <= record_count
            && !(existing matches Some(s) && s.version_of() == document_version && s.header_rows_of() == header_rows)),
{
    if record_count < header_rows {
        return false;
    }
    match existing {
        Some(state) => !state.matches(document_version, header_rows),
        None => true,
    }
}

/// What a preview shows: an opened file with its header count, or the error of a file that did
/// not open.
#[derive(Clone, Copy, Debug, PartialEq, Eq, Structural)]
pub enum PreviewKind {
    Document { header_rows: usize },
    Error,
}

/// The header count a previewed file is read with after the file is opened again: the preview's
/// own for an opened file; for a file that did not open, the one kept in the settings for its
/// path within the workspace, or the default outside it.
pub open spec fn preview_header_rows(kind: PreviewKind, settings: Settings, workspace: Seq<char>, path: Seq<char>) -> usize {
    match kind {
        PreviewKind::Document { header_rows } => header_rows,
        PreviewKind::Error => match path_below(path, workspace) {
            Some(relative) => preferences_of(settings, workspace, relative).header_rows,
            None => DEFAULT_HEADER_ROWS,
        },
    }
}

/// After a burst of file-system changes: the header count to read the previewed file again with
/// (see `preview_header_rows`), or none when no change reaches it.
pub fn preview_reload_header_rows(
    preview_path: &str,
    kind: PreviewKind,
    changed_paths: &Vec<String>,
    settings: &Settings,
    workspace: &str,
) -> (r: Option<usize>)
    ensures
        r == if exists|k: int| 0 <= k < changed_paths@.len() && change_reaches(preview_path@, (#[trigger] changed_paths@[k])@) {
            Some(preview_header_rows(kind, *settings, workspace@, preview_path@))
        } else {
            None::<usize>
        },
{
    if !path_was_affected(preview_path, changed_paths) {
        return None;
    }
    match kind {
        PreviewKind::Document { header_rows } => Some(header_rows),
        PreviewKind::Error => match relative_to(preview_path, workspace) {
            Some(relative) => Some(settings.file_preferences(workspace, relative.as_str()).header_rows),
            None => Some(DEFAULT_HEADER_ROWS),
        },
    }
}

/// The position of the first tab open on the path, if any.
pub open spec fn first_tab_on(tabs: Seq<DocumentSession>, path: PathBuf) -> Option<int>
    decreases tabs.len(),
{
    if tabs.len() == 0 {
        None
    } else {
        match first_tab_on(tabs.drop_last(), path) {
            Some(k) => Some(k),
            None => if same_path(tabs.last().table().path, path) { Some(tabs.len() - 1) } else { None },
        }
    }
}

/// Whether the selected cell lies within the records of the first tab open on its file.
pub open spec fn selection_holds_a_cell(tabs: Seq<DocumentSession>, selected: Option<CellLocation>) -> bool {
    match selected {
        Some(l) => match first_tab_on(tabs, l.path) {
            Some(k) => cell_in_bounds(tabs[k].table(), l.row_index as int, l.column_index as int),
            None => false,
        },
        None => false,
    }
}

/// The notice after a copy: that the selected cell's value was copied, or that nothing was
/// selected (no selection, no tab open on its file, or the cell is outside that tab's records).
pub fn copy_notice(tabs: &Vec<DocumentSession>, selected: Option<&CellLocation>) -> (r: &'static str)
    ensures
        r@ == if selection_holds_a_cell(tabs@, match selected { Some(l) => Some(*l), None => None }) {
            "Copied cell value"@
        } else {
            "Nothing selected to copy"@
        },
{
    match selected {
        Some(location) => {
            if holds_cell(tabs, location) {
                "Copied cell value"
            } else {
                "Nothing selected to copy"
            }
        },
        None => "Nothing selected to copy",
    }
}

/// Whether the location lies within the records of the first tab open on its file.
fn holds_cell(tabs: &Vec<DocumentSession>, location: &CellLocation) -> (r: bool)
    ensures
        r == selection_holds_a_cell(tabs@, Some(*location)),
{
    let mut i: usize = 0;
    while i < tabs.len()
        invariant
            i <= tabs@.len(),
            first_tab_on(tabs@.take(i as int), location.path) is None,
        decreases tabs.len() - i,
    {
        proof {
            assert(tabs@.take(i + 1).drop_last() =~= tabs@.take(i as int));
        }
        if paths_match(&tabs[i].table_ref().path, &location.path) {
            proof {
                lemma_first_tab_on_prefix(tabs@, location.path, i as int);
            }
            let document = tabs[i].table_ref();
            proof {
                if location.row_index < document.records.len() {
                    assert(document.records.deep_view()[location.row_index as int] == document.records@[location.row_index as int].deep_view());
                }
            }
            return location.row_index < document.records.len() && location.column_index < document.records[location.row_index].len();
        }
        i += 1;
    }
    proof {
        assert(tabs@.take(tabs@.len() as int) =~= tabs@);
    }
    false
}

/// Once a tab on the path is found at `i`, with none before it, it is the first one.
proof fn lemma_first_tab_on_prefix(tabs: Seq<DocumentSession>, path: PathBuf, i: int)
    requires
        0 <= i < tabs.len(),
        first_tab_on(tabs.take(i), path) is None,
        same_path(tabs[i].table().path, path),
    ensures
        first_tab_on(tabs, path) == Some(i),
    decreases tabs.len(),
{
    if i == tabs.len() - 1 {
        assert(tabs.drop_last() =~= tabs.take(i));
    } else {
        assert(tabs.drop_last().take(i) =~= tabs.take(i));
        lemma_first_tab_on_prefix(tabs.drop_last(), path, i);
    }
}

/// What the status bar shows of an open file.
pub struct DocumentStatus {
    pub file_name: String,
    pub dimensions: String,
    pub encoding: &'static str,
    pub position: Option<String>,
    pub red_cells: Option<usize>,
    pub yellow_columns: Option<usize>,
    pub parse_errors: Option<usize>,
    pub analysis_loading: bool,
    pub delimiter_defaulted: bool,
}

/// The number of problem cells over the columns.
pub open spec fn problem_total(columns: Seq<ColumnAnalysis>) -> nat
    decreases columns.len(),
{
    if columns.len() == 0 {
        0
    } else {
        problem_total(columns.drop_last()) + columns.last().problems@.len()
    }
}

/// Whether the status bar counts a column as yellow: its analysis warns of mixed types, or its
/// values below the header rows hold a flag (`true`, `false`, `0`, `1`) beside a number that is
/// not one.
pub open spec fn yellow_column(analysis: ColumnAnalysis, values: Seq<(usize, Seq<char>)>) -> bool {
    analysis.has_mixed_warning || flags_beside_numbers(values)
}

/// The number of yellow columns among the first `n` analysed columns of the records.
pub open spec fn yellow_total(columns: Seq<ColumnAnalysis>, records: Seq<Seq<Seq<char>>>, header_rows: usize, n: int) -> nat
    decreases n,
{
    if n <= 0 {
        0
    } else {
        yellow_total(columns, records, header_rows, n - 1)
            + if yellow_column(columns[n - 1], standard_values(records, header_rows as nat, n - 1)) { 1nat } else { 0nat }
    }
}

proof fn lemma_yellow_total_bound(columns: Seq<ColumnAnalysis>, records: Seq<Seq<Seq<char>>>, header_rows: usize, n: int)
    requires
        n >= 0,
    ensures
        yellow_total(columns, records, header_rows, n) <= n,
    decreases n,
{
    if n > 0 {
        lemma_yellow_total_bound(columns, records, header_rows, n - 1);
    }
}

proof fn lemma_problem_total_prefix(columns: Seq<ColumnAnalysis>, i: int)
    requires
        0 <= i <= columns.len(),
    ensures
        problem_total(columns.subrange(0, i)) <= problem_total(columns),
    decreases columns.len() - i,
{
    if i < columns.len() {
        lemma_problem_total_prefix(columns, i + 1);
        let s = columns.subrange(0, i + 1);
        assert(s.drop_last() == columns.subrange(0, i));
    } else {
        assert(columns.subrange(0, i) == columns);
    }
}

/// The size line of the status bar: data rows and columns in the table view (or the header rows
/// it lacks), physical lines in the text view.
pub open spec fn status_dimensions(document: CsvDocument, text: Seq<char>, table_view: bool, header_rows: usize) -> Seq<char> {
    if table_view {
        let n = document.records@.len();
        if n >= header_rows {
            let columns: nat = if n == 0 { 0 } else { document.records@[0]@.len() };
            decimal((n - header_rows) as nat) + " rows · "@ + decimal(columns) + " columns"@
        } else {
            "requires "@ + decimal(header_rows as nat) + " header rows"@
        }
    } else {
        decimal(physical_lines(text)) + " physical lines"@
    }
}

/// The position part of the status bar: the selected data cell of this file in the table view
/// (rows counted after the header rows, both from 1), the caret in the text view (line 1,
/// column 1 when none is known for this file).
pub open spec fn status_position(
    document: CsvDocument,
    table_view: bool,
    header_rows: usize,
    selected: Option<CellLocation>,
    cursor: Option<TextCursorPosition>,
) -> Option<Seq<char>> {
    if table_view {
        match selected {
            Some(l) => if same_path(l.path, document.path) && l.row_index >= header_rows {
                Some("Row "@ + decimal((l.row_index - header_rows + 1) as nat) + ", Col "@ + decimal((l.column_index + 1) as nat))
            } else {
                None
            },
            None => None,
        }
    } else {
        match cursor {
            Some(c) => if same_path(c.path, document.path) {
                Some("Ln "@ + decimal(c.line as nat) + ", Col "@ + decimal(c.column as nat))
            } else {
                Some("Ln 1, Col 1"@)
            },
            None => Some("Ln 1, Col 1"@),
        }
    }
}

/// The analyses that the status counts: those ready for the document's version and header
/// count, in the table view only.
pub open spec fn status_analyses(document: CsvDocument, table_view: bool, header_rows: usize, state: Option<TableAnalysisState>) -> Option<Seq<ColumnAnalysis>> {
    if table_view {
        match state {
            Some(TableAnalysisState::Ready { document_version, header_rows: h, columns }) =>
                if document_version == document.version() && h == header_rows { Some(columns@) } else { None },
            _ => None,
        }
    } else {
        None
    }
}

fn push_number_pair(out: &mut Vec<char>, a: &str, x: u128, b: &str, y: u128)
    ensures
        final(out)@ == old(out)@ + a@ + decimal(x as nat) + b@ + decimal(y as nat),
{
    push_str(out, a);
    push_decimal(out, x);
    push_str(out, b);
    push_decimal(out, y);
    assert(out@ =~= old(out)@ + a@ + decimal(x as nat) + b@ + decimal(y as nat));
}

/// The status bar of an open file, in the view shown.
pub fn document_status(
    document: &CsvDocument,
    text: &str,
    view: DocumentView,
    text_parse_issue: Option<&TextParseIssue>,
    header_rows: usize,
    selected_cell: Option<&CellLocation>,
    text_cursor: Option<&TextCursorPosition>,
    analysis_state: Option<&TableAnalysisState>,
) -> (r: DocumentStatus)
    requires
        text@.len() < usize::MAX,
        analysis_state matches Some(TableAnalysisState::Ready { columns, .. }) ==> problem_total(columns@) <= usize::MAX,
    ensures
        r.file_name@ == shown_file_name(document.path),
        r.dimensions@ == status_dimensions(*document, text@, view == DocumentView::Table, header_rows),
        r.encoding@ == (if document.has_bom { "UTF-8 BOM"@ } else { "UTF-8"@ }),
        match (r.position, status_position(*document, view == DocumentView::Table, header_rows,
            match selected_cell { Some(l) => Some(*l), None => None },
            match text_cursor { Some(c) => Some(*c), None => None })) {
            (Some(p), Some(q)) => p@ == q,
            (None, None) => true,
            _ => false,
        },
        match status_analyses(*document, view == DocumentView::Table, header_rows,
            match analysis_state { Some(s) => Some(*s), None => None }) {
            Some(columns) => r.red_cells == Some(problem_total(columns) as usize)
                && r.yellow_columns == Some(yellow_total(columns, document.records.deep_view(), header_rows, columns.len() as int) as usize)
                && !r.analysis_loading,
            None => r.red_cells is None && r.yellow_columns is None
                && r.analysis_loading == (view == DocumentView::Table && document.records@.len() >= header_rows),
        },
        r.parse_errors == match text_parse_issue { Some(issue) => Some(issue.count), None => None },
        r.delimiter_defaulted == (document.delimiter_source == DelimiterSource::Default),
{
    let table_view = view == DocumentView::Table;
    let mut dimensions: Vec<char> = Vec::new();
    if table_view {
        let record_count = document.records.len();
        if record_count >= header_rows {
            let rows = record_count - header_rows;
            let columns = if record_count == 0 { 0 } else { document.records[0].len() };
            {
                push_decimal(&mut dimensions, rows as u128);
                push_str(&mut dimensions, " rows · ");
                push_decimal(&mut dimensions, columns as u128);
                push_str(&mut dimensions, " columns");
                proof {
                    assert(dimensions@ =~= status_dimensions(*document, text@, true, header_rows));
                }
            }
        } else {
            {
                push_str(&mut dimensions, "requires ");
                push_decimal(&mut dimensions, header_rows as u128);
                push_str(&mut dimensions, " header rows");
                proof {
                    assert(dimensions@ =~= status_dimensions(*document, text@, true, header_rows));
                }
            }
        }
    } else {
        let lines = physical_line_count(text);
        push_decimal(&mut dimensions, lines as u128);
        push_str(&mut dimensions, " physical lines");
        proof {
            assert(dimensions@ =~= status_dimensions(*document, text@, false, header_rows));
        }
    }
    let position: Option<String> = if table_view {
        match selected_cell {
            Some(location) => {
                if paths_match(&location.path, &document.path) && location.row_index >= header_rows {
                    let mut out: Vec<char> = Vec::new();
                    push_number_pair(&mut out, "Row ", (location.row_index - header_rows) as u128 + 1, ", Col ",
                        location.column_index as u128 + 1);
                    Some(string_of(&out))
                } else {
                    None
                }
            },
            None => None,
        }
    } else {
        let same = match text_cursor {
            Some(cursor) => paths_match(&cursor.path, &document.path),
            None => false,
        };
        match text_cursor {
            Some(cursor) => {
                if same {
                    let mut out: Vec<char> = Vec::new();
                    push_number_pair(&mut out, "Ln ", cursor.line as u128, ", Col ", cursor.column as u128);
                    Some(string_of(&out))
                } else {
                    Some("Ln 1, Col 1".to_owned())
                }
            },
            None => Some("Ln 1, Col 1".to_owned()),
        }
    };
    let analyses: Option<&Vec<ColumnAnalysis>> = if table_view {
        match analysis_state {
            Some(state) => state.ready_columns(document.analysis_version(), header_rows),
            None => None,
        }
    } else {
        None
    };
    let (red_cells, yellow_columns) = match analyses {
        Some(columns) => {
            let mut red: usize = 0;
            let mut yellow: usize = 0;
            let mut i: usize = 0;
            while i < columns.len()
                invariant
                    i <= columns.len(),
                    problem_total(columns@) <= usize::MAX,
                    red == problem_total(columns@.subrange(0, i as int)),
                    yellow == yellow_total(columns@, document.records.deep_view(), header_rows, i as int),
                decreases columns.len() - i,
            {
                proof {
                    let s = columns@.subrange(0, i + 1);
                    assert(s.drop_last() == columns@.subrange(0, i as int));
                    lemma_problem_total_prefix(columns@, i + 1);
                    lemma_yellow_total_bound(columns@, document.records.deep_view(), header_rows, i as int);
                }
                red = red + columns[i].problems.len();
                let yellow_here = columns[i].has_mixed_warning || {
                    let values = standard_column_values(&document.records, header_rows, i);
                    has_flags_beside_numbers(values.as_slice())
                };
                if yellow_here {
                    yellow = yellow + 1;
                }
                i += 1;
            }
            proof {
                assert(columns@.subrange(0, i as int) == columns@);
            }
            (Some(red), Some(yellow))
        },
        None => (None, None),
    };
    DocumentStatus {
        file_name: file_name(&document.path),
        dimensions: string_of(&dimensions),
        encoding: if document.has_bom { "UTF-8 BOM" } else { "UTF-8" },
        position,
        red_cells,
        yellow_columns,
        parse_errors: match text_parse_issue {
            Some(issue) => Some(issue.count),
            None => None,
        },
        analysis_loading: table_view && document.records.len() >= header_rows && analyses.is_none(),
        delimiter_defaulted: document.delimiter_source == DelimiterSource::Default,
    }
}

/// Whether a save can go ahead: a text that does not parse as CSV, or a table with problem
/// cells, is saved only once the user confirms (with the message shown); a table whose analysis
/// is not ready yet waits.
pub enum SaveCheck {
    Proceed,
    Confirm(String),
    Wait(String),
}

/// The confirmation asked before saving a text that does not parse.
pub open spec fn parse_error_confirmation(issue: TextParseIssue) -> Seq<char> {
    "This text contains "@ + decimal(issue.count as nat) + " CSV parse error(s). First error: "@ + issue.message@
        + "\n\nSaving anyway will preserve the invalid CSV text."@
}

/// The confirmation asked before saving a table with problem cells.
pub open spec fn problem_confirmation(count: nat) -> Seq<char> {
    "This file contains "@ + decimal(count) + " cells with red compatibility or structure problems."@
}

/// Decides whether a save goes ahead (see `SaveCheck`): the parse issue of the text being shown,
/// if any, else the problem cells counted over the ready column analyses.
pub fn save_check(text_parse_issue: Option<&TextParseIssue>, analyses: Option<&Vec<ColumnAnalysis>>) -> (r: SaveCheck)
    requires
        analyses matches Some(columns) ==> problem_total(columns@) <= usize::MAX,
    ensures
        match text_parse_issue {
            Some(issue) => r matches SaveCheck::Confirm(m) && m@ == parse_error_confirmation(*issue),
            None => match analyses {
                None => r matches SaveCheck::Wait(m) && m@ == "Table analysis is still running; save again when it finishes"@,
                Some(columns) => if problem_total(columns@) > 0 {
                    r matches SaveCheck::Confirm(m) && m@ == problem_confirmation(problem_total(columns@))
                } else {
                    r is Proceed
                },
            },
        },
{
    match text_parse_issue {
        Some(issue) => {
            let mut out: Vec<char> = Vec::new();
            push_str(&mut out, "This text contains ");
            push_decimal(&mut out, issue.count as u128);
            push_str(&mut out, " CSV parse error(s). First error: ");
            push_str(&mut out, issue.message.as_str());
            push_str(&mut out, "\n\nSaving anyway will preserve the invalid CSV text.");
            proof {
                assert(out@ =~= parse_error_confirmation(*issue));
            }
            SaveCheck::Confirm(string_of(&out))
        },
        None => match analyses {
            None => SaveCheck::Wait("Table analysis is still running; save again when it finishes".to_owned()),
            Some(columns) => {
                let mut total: usize = 0;
                let mut i: usize = 0;
                while i < columns.len()
                    invariant
                        i <= columns.len(),
                        problem_total(columns@) <= usize::MAX,
                        total == problem_total(columns@.subrange(0, i as int)),
                    decreases columns.len() - i,
                {
                    proof {
                        let s = columns@.subrange(0, i + 1);
                        assert(s.drop_last() == columns@.subrange(0, i as int));
                        lemma_problem_total_prefix(columns@, i + 1);
                    }
                    total = total + columns[i].problems.len();
                    i += 1;
                }
                proof {
                    assert(columns@.subrange(0, i as int) == columns@);
                }
                if total > 0 {
                    let mut out: Vec<char> = Vec::new();
                    push_str(&mut out, "This file contains ");
                    push_decimal(&mut out, total as u128);
                    push_str(&mut out, " cells with red compatibility or structure problems.");
                    proof {
                        assert(out@ =~= problem_confirmation(problem_total(columns@)));
                    }
                    SaveCheck::Confirm(string_of(&out))
                } else {
                    SaveCheck::Proceed
                }
            },
        },
    }
}

/// The notice after undo or redo: what was done, or that there was nothing to do.
pub fn history_notice(redo: bool, changed: bool) -> (r: &'static str)
    ensures
        r@ == (if changed {
            if redo { "Redid the last edit"@ } else { "Undid the last edit"@ }
        } else {
            if redo { "Nothing to redo"@ } else { "Nothing to undo"@ }
        }),
{
    if changed {
        if redo { "Redid the last edit" } else { "Undid the last edit" }
    } else {
        if redo { "Nothing to redo" } else { "Nothing to undo" }
    }
}

/// The notice when the selection goes to a diagnostic: a problem cell by its data row (after the
/// header rows) and column, both from 1, or a column with mixed types.
pub open spec fn diagnostic_notice_text(target: DiagnosticTarget, header_rows: usize) -> Seq<char> {
    match target {
        DiagnosticTarget::Cell(p) => "Problem at row "@
            + decimal(((if p.row_index >= header_rows { p.row_index - header_rows } else { 0 }) + 1) as nat)
            + ", column "@ + decimal((p.column_index + 1) as nat),
        DiagnosticTarget::Column(c) => "Mixed types in column "@ + decimal((c + 1) as nat),
    }
}

/// The notice shown on going to a diagnostic (see `diagnostic_notice_text`).
pub fn diagnostic_notice(target: DiagnosticTarget, header_rows: usize) -> (r: String)
    ensures
        r@ == diagnostic_notice_text(target, header_rows),
{
    let mut out: Vec<char> = Vec::new();
    match target {
        DiagnosticTarget::Cell(position) => {
            let row = if position.row_index >= header_rows { position.row_index - header_rows } else { 0 };
            push_str(&mut out, "Problem at row ");
            push_decimal(&mut out, row as u128 + 1);
            push_str(&mut out, ", column ");
            push_decimal(&mut out, position.column_index as u128 + 1);
        },
        DiagnosticTarget::Column(column_index) => {
            push_str(&mut out, "Mixed types in column ");
            push_decimal(&mut out, column_index as u128 + 1);
        },
    }
    proof {
        assert(out@ =~= diagnostic_notice_text(target, header_rows));
    }
    string_of(&out)
}

/// The notice on going to a match of the current search: its number (from 1) of the count.
pub fn match_notice(index: usize, count: usize) -> (r: String)
    ensures
        r@ == "Match "@ + decimal(index as nat + 1) + " of "@ + decimal(count as nat),
{
    let mut out: Vec<char> = Vec::new();
    push_str(&mut out, "Match ");
    push_decimal(&mut out, index as u128 + 1);
    push_str(&mut out, " of ");
    push_decimal(&mut out, count as u128);
    proof {
        assert(out@ =~= "Match "@ + decimal(index as nat + 1) + " of "@ + decimal(count as nat));
    }
    string_of(&out)
}

/// Bytes in lower-case hexadecimal, two digits each.
pub open spec fn hex_of(bytes: Seq<u8>) -> Seq<char>
    decreases bytes.len(),
{
    if bytes.len() == 0 {
        seq![]
    } else {
        hex_of(bytes.drop_last()) + seq![hex_digit_char((bytes.last() / 16) as nat), hex_digit_char((bytes.last() % 16) as nat)]
    }
}

fn hex_digit(d: u8) -> (c: char)
    requires
        d < 16,
    ensures
        c == hex_digit_char(d as nat),
{
    match d {
        0 => '0',
        1 => '1',
        2 => '2',
        3 => '3',
        4 => '4',
        5 => '5',
        6 => '6',
        7 => '7',
        8 => '8',
        9 => '9',
        10 => 'a',
        11 => 'b',
        12 => 'c',
        13 => 'd',
        14 => 'e',
        _ => 'f',
    }
}

/// The id of a file's text editor element: `text-editor-` and the first twelve hexadecimal digits
/// of the BLAKE3 digest of the file's path.
pub open spec fn editor_id_of(path: Seq<char>) -> Seq<char> {
    "text-editor-"@ + hex_of(blake3_digest(encode_utf8(path)).take(6))
}

/// The id of the text editor element of the file at `path` (see `editor_id_of`).
pub fn text_editor_id(path: &str) -> (r: String)
    ensures
        r@ == editor_id_of(path@),
{
    let hash = digest(path.as_bytes());
    let mut out: Vec<char> = Vec::new();
    push_str(&mut out, "text-editor-");
    let ghost prefix = out@;
    let mut k: usize = 0;
    while k < 6
        invariant
            k <= 6,
            hash@ == blake3_digest(encode_utf8(path@)),
            hash@.len() == 32,
            out@ == prefix + hex_of(hash@.take(k as int)),
        decreases 6 - k,
    {
        let byte = hash[k];
        out.push(hex_digit(byte / 16));
        out.push(hex_digit(byte % 16));
        proof {
            let t = hash@.take(k + 1);
            assert(t.drop_last() =~= hash@.take(k as int));
            assert(t.last() == byte);
        }
        k += 1;
    }
    string_of(&out)
}

/// Why a cell draft could not be committed: its cell is gone, the draft was refused (with the
/// reason), or the session refused the edit.
pub enum CommitError {
    MissingCell,
    Invalid(String),
    Session(DocumentSessionError),
}

impl CommitError {
    /// The notice shown for a missing cell or a refused draft; none for a session error, whose
    /// text is the session's.
    pub fn notice(&self) -> (r: Option<String>)
        ensures
            match self {
                CommitError::MissingCell => r matches Some(m) && m@ == "Edited cell no longer exists"@,
                CommitError::Invalid(m) => r matches Some(n) && n@ == m@,
                CommitError::Session(_) => r is None,
            },
    {
        match self {
            CommitError::MissingCell => Some("Edited cell no longer exists".to_owned()),
            CommitError::Invalid(message) => Some(message.clone()),
            CommitError::Session(_) => None,
        }
    }
}

/// Commits a cell draft to its tab: refused when the cell is gone or the draft is refused (see
/// `cell_edit_outcome`); else the cell takes the normalised draft, as `DocumentSession::edit_cell`
/// sets it (no change when it holds that value already).
pub fn commit_cell_draft(tab: &mut DocumentSession, draft: &CellDraft) -> (r: Result<bool, CommitError>)
    requires
        old(tab).inv(),
    ensures
        final(tab).inv(),
        ({
            let records = old(tab).table().records.deep_view();
            let row = draft.location.row_index as int;
            let col = draft.location.column_index as int;
            if row >= records.len() || col >= records[row].len() {
                r matches Err(CommitError::MissingCell) && *final(tab) == *old(tab)
            } else {
                match cell_edit_outcome(records[row][col], draft.value@) {
                    Err(message) => r matches Err(CommitError::Invalid(m)) && m@ == message && *final(tab) == *old(tab),
                    Ok(value) => if records[row][col] == value {
                        r matches Ok(false) && *final(tab) == *old(tab)
                    } else {
                        match rewritten_record(old(tab).table(), row, col, value) {
                            Err(message) => (r matches Err(CommitError::Session(DocumentSessionError::Csv(CsvDocumentError::Parse { message: m, .. })))
                                && m@ == message) && *final(tab) == *old(tab),
                            Ok(written) => r matches Ok(true)
                                && cell_rewritten(old(tab).table(), row, col, value, written, final(tab).table())
                                && final(tab).table().records.deep_view() == with_cell(records, row, col, value)
                                && !final(tab).editing_text()
                                && final(tab).buffer() == saved_form(final(tab).table().has_bom, final(tab).table().raw_text@)
                                && final(tab).undo_edits() == old(tab).undo_edits().push((draft.location.row_index, draft.location.column_index, records[row][col], value))
                                && final(tab).redo_edits().len() == 0
                                && final(tab).saved_digest() == old(tab).saved_digest(),
                        }
                    },
                }
            }
        }),
{
    let ghost records = tab.table().records.deep_view();
    let row = draft.location.row_index;
    let column = draft.location.column_index;
    let document = tab.table_ref();
    if row >= document.records.len() || column >= document.records[row].len() {
        return Err(CommitError::MissingCell);
    }
    proof {
        assert(records[row as int] == document.records@[row as int].deep_view());
        assert(records[row as int][column as int] == document.records@[row as int]@[column as int]@);
    }
    let normalized = match normalize_cell_edit(document.records[row][column].as_str(), draft.value.as_str()) {
        Ok(value) => value,
        Err(message) => return Err(CommitError::Invalid(message)),
    };
    match tab.edit_cell(row, column, normalized) {
        Ok(changed) => Ok(changed),
        Err(error) => Err(CommitError::Session(error)),
    }
}

/// What `Path::strip_prefix` leaves of a path that lies within a base, as text (taken lossily);
/// none when the path does not lie within it.
pub uninterp spec fn path_below(path: Seq<char>, base: Seq<char>) -> Option<Seq<char>>;

/// `Path::new(path).strip_prefix(base)`, as a `String`.
#[verifier::external_body]
fn relative_to(path: &str, base: &str) -> (r: Option<String>)
    ensures
        match r {
            Some(rest) => path_below(path@, base@) == Some(rest@),
            None => path_below(path@, base@) is None,
        },
{
    match Path::new(path).strip_prefix(base) {
        Ok(rest) => Some(rest.to_string_lossy().into_owned()),
        Err(_) => None,
    }
}

/// Where the preferences of a file are kept: its workspace and its path there; refused when no
/// workspace is open or the file lies outside it.
pub open spec fn preference_place(workspace: Option<Seq<char>>, path: Seq<char>) -> Result<(Seq<char>, Seq<char>), Seq<char>> {
    match workspace {
        None => Err("No workspace is open"@),
        Some(w) => match path_below(path, w) {
            None => Err("CSV file is outside the current workspace"@),
            Some(relative) => Ok((w, relative)),
        },
    }
}

/// The preferences of an open file (see `preference_place` and `preferences_of`).
pub fn preferences_for_path(settings: &Settings, workspace: Option<&str>, path: &str) -> (r: Result<FilePreferences, &'static str>)
    ensures
        match preference_place(match workspace { Some(w) => Some(w@), None => None }, path@) {
            Err(m) => r matches Err(n) && n@ == m,
            Ok((w, relative)) => r == Ok::<FilePreferences, &'static str>(preferences_of(*settings, w, relative)),
        },
{
    let workspace = match workspace {
        Some(w) => w,
        None => return Err("No workspace is open"),
    };
    match relative_to(path, workspace) {
        Some(relative) => Ok(settings.file_preferences(workspace, relative.as_str())),
        None => Err("CSV file is outside the current workspace"),
    }
}

/// Stores the preferences of an open file in the settings (see `preference_place`), and gives
/// its path within the workspace, under which they are kept; the settings are unchanged when
/// the place is refused.
pub fn remember_file_preferences(settings: &mut Settings, workspace: Option<&str>, path: &str, preferences: FilePreferences) -> (r: Result<String, &'static str>)
    ensures
        match preference_place(match workspace { Some(w) => Some(w@), None => None }, path@) {
            Err(m) => (r matches Err(n) && n@ == m) && *final(settings) == *old(settings),
            Ok((w, relative)) => (r matches Ok(rel) && rel@ == relative)
                && final(settings).recent_workspace == old(settings).recent_workspace
                && forall|x: Seq<char>, y: Seq<char>| stored_preferences(*final(settings), x, y) == if same_key(w, x) && same_key(relative, y) {
                    Some(normalized(preferences))
                } else {
                    stored_preferences(*old(settings), x, y)
                },
        },
{
    let workspace = match workspace {
        Some(w) => w,
        None => return Err("No workspace is open"),
    };
    match relative_to(path, workspace) {
        Some(relative) => {
            settings.set_file_preferences(workspace, relative.as_str(), preferences);
            Ok(relative)
        },
        None => Err("CSV file is outside the current workspace"),
    }
}

/// The most tabs that can be open at once.
pub const MAX_OPEN_TABS: usize = 20;

/// What a request to open a file in a tab leads to: the tab that has it already is brought
/// forward; a new tab is refused when the limit is reached; else the file is opened.
#[derive(Clone, Copy, Debug, PartialEq, Eq, Structural)]
pub enum OpenDecision {
    Activate,
    Refuse,
    Open,
}

/// Decides what a request to open a file in a tab leads to (see `OpenDecision`).
pub fn open_decision(already_open: bool, open_tabs: usize) -> (r: OpenDecision)
    ensures
        r == if already_open {
            OpenDecision::Activate
        } else if open_tabs >= MAX_OPEN_TABS {
            OpenDecision::Refuse
        } else {
            OpenDecision::Open
        },
{
    if already_open {
        OpenDecision::Activate
    } else if open_tabs >= MAX_OPEN_TABS {
        OpenDecision::Refuse
    } else {
        OpenDecision::Open
    }
}

/// The notice of a refused new tab.
pub fn tab_limit_notice() -> (r: &'static str)
    ensures
        r@ == "The 20-tab limit has been reached. Close a tab before opening another file."@,
{
    "The 20-tab limit has been reached. Close a tab before opening another file."
}

/// The notice that refuses a header row count out of range; none for a count in range.
pub fn header_rows_notice(header_rows: usize) -> (r: Option<String>)
    ensures
        MIN_HEADER_ROWS <= header_rows <= MAX_HEADER_ROWS ==> r is None,
        !(MIN_HEADER_ROWS <= header_rows <= MAX_HEADER_ROWS) ==> (r matches Some(m)
            && m@ == "Header rows must be between "@ + decimal(MIN_HEADER_ROWS as nat) + " and "@ + decimal(MAX_HEADER_ROWS as nat)),
{
    if MIN_HEADER_ROWS <= header_rows && header_rows <= MAX_HEADER_ROWS {
        return None;
    }
    let mut out: Vec<char> = Vec::new();
    push_str(&mut out, "Header rows must be between ");
    push_decimal(&mut out, MIN_HEADER_ROWS as u128);
    push_str(&mut out, " and ");
    push_decimal(&mut out, MAX_HEADER_ROWS as u128);
    proof {
        assert(out@ =~= "Header rows must be between "@ + decimal(MIN_HEADER_ROWS as nat) + " and "@ + decimal(MAX_HEADER_ROWS as nat));
    }
    Some(string_of(&out))
}

} // verus!
