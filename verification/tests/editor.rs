use std::path::{Path, PathBuf};

use game_config_edit::csv_document::{CsvDelimiter, CsvDocument};
use game_config_edit::settings::{FilePreferences, Settings};
use game_config_edit::diagnostics::analyze_table;
use game_config_edit::document_session::{DocumentSession, DocumentView, TextParseIssue};
use game_config_edit::editor::{
    analysis_wanted, copy_notice, preview_reload_header_rows, PreviewKind,
    header_rows_notice, open_decision, tab_limit_notice, OpenDecision, MAX_OPEN_TABS,
    commit_cell_draft, preferences_for_path, remember_file_preferences, CommitError, CellDraft, CellLocation, ExternalChangeAction, TableAnalysisState, TextCursorPosition,
    column_focus_class, diagnostic_notice, document_status, external_change_action, file_name,
    focus_column_width, history_notice, match_notice, path_was_affected, physical_line_count,
    physical_line_numbers, save_check, tab_has_unsaved_changes, text_editor_id, unsaved_tab_paths,
    with_column_focus_class, SaveCheck,
};
use game_config_edit::editor_navigation::{DiagnosticTarget, GridPosition};

fn open_session(path: &Path, bytes: &[u8], header_rows: usize) -> DocumentSession {
    match DocumentSession::from_bytes(path, bytes.to_vec(), Some(b','), header_rows) {
        Ok(session) => session,
        Err(_) => panic!("the session opens"),
    }
}

#[test]
fn unsaved_paths_include_changed_drafts_without_counting_no_op_drafts() {
    let directory = tempfile::tempdir().unwrap();
    let path = directory.path().join("heroes.csv");
    let bytes = b"id,name\n1,Arthur\n".to_vec();
    let mut session = open_session(&path, &bytes, 1);

    let no_op_draft = CellDraft {
        location: CellLocation {
            path: path.clone(),
            row_index: 1,
            column_index: 1,
        },
        value: "Arthur".to_owned(),
    };
    assert!(unsaved_tab_paths(&vec![open_session(&path, &bytes, 1)], None).is_empty());
    assert!(
        unsaved_tab_paths(&vec![open_session(&path, &bytes, 1)], Some(&no_op_draft)).is_empty()
    );

    let changed_draft = CellDraft {
        value: "Merlin".to_owned(),
        ..no_op_draft
    };
    assert_eq!(
        unsaved_tab_paths(&vec![open_session(&path, &bytes, 1)], Some(&changed_draft)),
        vec![path.clone()]
    );

    assert!(session.edit_cell(1, 1, "Lancelot".to_owned()).is_ok());
    assert_eq!(unsaved_tab_paths(&vec![session], None), vec![path]);
}

#[test]
fn pretty_json_drafts_are_not_dirty_until_the_value_changes() {
    let directory = tempfile::tempdir().unwrap();
    let path = directory.path().join("json.csv");
    let bytes = "meta\n\"{\"\"id\"\":1}\"\n".as_bytes().to_vec();
    let session = open_session(&path, &bytes, 1);
    let draft = CellDraft {
        location: CellLocation {
            path: path.clone(),
            row_index: 1,
            column_index: 0,
        },
        value: "{\n  \"id\": 1\n}".to_owned(),
    };

    assert!(!tab_has_unsaved_changes(&session, Some(&draft)));
}

#[test]
fn changed_directory_paths_cover_descendant_csv_files() {
    let changes = vec!["C:/configs/heroes".to_owned()];

    assert!(path_was_affected("C:/configs/heroes/basic.csv", &changes));
    assert!(!path_was_affected("C:/configs/items.csv", &changes));
}

#[test]
fn external_changes_reload_clean_tabs_and_flag_dirty_tabs() {
    let saved = blake3::hash(b"saved").as_bytes().to_vec();
    let changed = blake3::hash(b"changed").as_bytes().to_vec();

    assert_eq!(
        external_change_action(&saved, Some(&saved), false),
        ExternalChangeAction::NoAction
    );
    assert_eq!(
        external_change_action(&saved, Some(&changed), false),
        ExternalChangeAction::Reload
    );
    assert_eq!(
        external_change_action(&saved, Some(&changed), true),
        ExternalChangeAction::Conflict
    );
    assert_eq!(
        external_change_action(&saved, None, true),
        ExternalChangeAction::Conflict
    );
}

#[test]
fn focus_mode_keeps_only_the_selected_column_and_its_neighbors() {
    assert_eq!(column_focus_class(0, Some(2)), "column-hidden");
    assert_eq!(column_focus_class(1, Some(2)), "focus-neighbor");
    assert_eq!(column_focus_class(2, Some(2)), "focus-column");
    assert_eq!(column_focus_class(3, Some(2)), "focus-neighbor");
    assert_eq!(column_focus_class(4, Some(2)), "column-hidden");
    assert_eq!(column_focus_class(4, None), "");
}

#[test]
fn focused_column_width_is_bounded_for_short_and_long_content() {
    assert_eq!(focus_column_width(5), 320);
    assert_eq!(focus_column_width(1_000), 720);
}

#[test]
fn text_view_uses_physical_lines_including_a_trailing_empty_line() {
    assert_eq!(physical_line_count(""), 1);
    assert_eq!(physical_line_count("id,name\n1,Arthur\n"), 3);
    assert_eq!(physical_line_count("id,name\r\n1,Arthur"), 2);
    assert_eq!(physical_line_numbers(3), "1\n2\n3");
}

#[test]
fn status_reports_table_position_and_problem_counts() {
    let document = CsvDocument::from_bytes(
        Path::new("heroes.csv"),
        b"description,value\nid,value\n1,true\n2,2\n",
        Some(b','),
    )
    .unwrap();
    let analysis = TableAnalysisState::Ready {
        document_version: document.analysis_version(),
        header_rows: 2,
        columns: analyze_table(&document.records, 2),
    };
    let selected = CellLocation {
        path: document.path.clone(),
        row_index: 3,
        column_index: 1,
    };

    let status = document_status(
        &document,
        &document.raw_text,
        DocumentView::Table,
        None,
        2,
        Some(&selected),
        None,
        Some(&analysis),
    );

    assert_eq!(status.position.as_deref(), Some("Row 2, Col 2"));
    assert_eq!(status.red_cells, Some(0));
    assert_eq!(status.yellow_columns, Some(2));
    assert!(!status.analysis_loading);
}

#[test]
fn status_counts_only_mixed_or_flag_and_number_columns_and_skips_header_cells() {
    let document = CsvDocument::from_bytes(
        Path::new("heroes.csv"),
        b"description,value,name\nid,value,name\n3,true,Arthur\n4,false,Merlin\n",
        Some(b','),
    )
    .unwrap();
    let analysis = TableAnalysisState::Ready {
        document_version: document.analysis_version(),
        header_rows: 2,
        columns: analyze_table(&document.records, 2),
    };
    let header_cell = CellLocation {
        path: document.path.clone(),
        row_index: 1,
        column_index: 0,
    };

    let status = document_status(
        &document,
        &document.raw_text,
        DocumentView::Table,
        None,
        2,
        Some(&header_cell),
        None,
        Some(&analysis),
    );

    assert_eq!(status.position, None);
    assert_eq!(status.yellow_columns, Some(0));
}

#[test]
fn status_uses_physical_text_cursor_coordinates() {
    let document =
        CsvDocument::from_bytes(Path::new("heroes.csv"), b"id,name\n1,Arthur\n", Some(b','))
            .unwrap();
    let cursor = TextCursorPosition {
        path: document.path.clone(),
        line: 2,
        column: 4,
    };

    let status = document_status(
        &document,
        &document.raw_text,
        DocumentView::Text,
        None,
        1,
        None,
        Some(&cursor),
        None,
    );

    assert_eq!(status.position.as_deref(), Some("Ln 2, Col 4"));
    assert_eq!(status.red_cells, None);
    assert!(!status.analysis_loading);
}

#[test]
fn status_names_the_file_size_and_encoding() {
    let document = CsvDocument::from_bytes(
        Path::new("configs/heroes.csv"),
        b"\xEF\xBB\xBFid,name\n1,Arthur\n",
        Some(b','),
    )
    .unwrap();
    let table = document_status(
        &document,
        &document.raw_text,
        DocumentView::Table,
        None,
        1,
        None,
        None,
        None,
    );
    assert_eq!(table.file_name, "heroes.csv");
    assert_eq!(table.dimensions, "1 rows · 2 columns");
    assert_eq!(table.encoding, "UTF-8 BOM");
    assert_eq!(table.position, None);
    assert!(table.analysis_loading);
    assert!(!table.delimiter_defaulted);

    let short = document_status(
        &document,
        &document.raw_text,
        DocumentView::Table,
        None,
        3,
        None,
        None,
        None,
    );
    assert_eq!(short.dimensions, "requires 3 header rows");
    assert!(!short.analysis_loading);

    let issue = TextParseIssue {
        message: "broken".to_owned(),
        count: 4,
    };
    let text = document_status(
        &document,
        "a\nb",
        DocumentView::Text,
        Some(&issue),
        1,
        None,
        None,
        None,
    );
    assert_eq!(text.dimensions, "2 physical lines");
    assert_eq!(text.position.as_deref(), Some("Ln 1, Col 1"));
    assert_eq!(text.parse_errors, Some(4));
}

#[test]
fn stale_analyses_are_not_counted() {
    let document =
        CsvDocument::from_bytes(Path::new("heroes.csv"), b"id\n1\n", Some(b',')).unwrap();
    let stale = TableAnalysisState::Ready {
        document_version: document.analysis_version().wrapping_add(1),
        header_rows: 1,
        columns: Vec::new(),
    };
    assert!(!stale.matches(document.analysis_version(), 1));
    assert!(stale.ready_columns(document.analysis_version(), 1).is_none());
    let status = document_status(
        &document,
        &document.raw_text,
        DocumentView::Table,
        None,
        1,
        None,
        None,
        Some(&stale),
    );
    assert_eq!(status.red_cells, None);
    assert!(status.analysis_loading);
}

#[test]
fn focus_classes_join_with_the_base_class() {
    assert_eq!(with_column_focus_class("", 0, None), "");
    assert_eq!(with_column_focus_class("cell", 0, None), "cell");
    assert_eq!(with_column_focus_class("", 2, Some(2)), "focus-column");
    assert_eq!(with_column_focus_class("cell", 5, Some(2)), "cell column-hidden");
    assert_eq!(focus_column_width(50), 386);
}

#[test]
fn file_names_fall_back_to_csv() {
    assert_eq!(file_name(&PathBuf::from("configs/heroes.csv")), "heroes.csv");
    assert_eq!(file_name(&PathBuf::from("/")), "CSV");
}

#[test]
fn drafts_outside_the_table_count_as_unsaved() {
    let path = PathBuf::from("heroes.csv");
    let session = open_session(&path, b"id,name\n1,Arthur\n", 1);
    let outside = CellDraft {
        location: CellLocation {
            path: path.clone(),
            row_index: 9,
            column_index: 0,
        },
        value: String::new(),
    };
    assert!(tab_has_unsaved_changes(&session, Some(&outside)));
    let other_file = CellDraft {
        location: CellLocation {
            path: PathBuf::from("items.csv"),
            row_index: 1,
            column_index: 1,
        },
        value: "Merlin".to_owned(),
    };
    assert!(!tab_has_unsaved_changes(&session, Some(&other_file)));
}

#[test]
fn saving_asks_before_keeping_problems() {
    let issue = TextParseIssue {
        message: "line 3: unclosed quote".to_owned(),
        count: 2,
    };
    match save_check(Some(&issue), None) {
        SaveCheck::Confirm(message) => assert_eq!(
            message,
            "This text contains 2 CSV parse error(s). First error: line 3: unclosed quote\n\nSaving anyway will preserve the invalid CSV text."
        ),
        _ => panic!("expected a confirmation"),
    }
    match save_check(None, None) {
        SaveCheck::Wait(message) => {
            assert_eq!(message, "Table analysis is still running; save again when it finishes")
        }
        _ => panic!("expected to wait"),
    }
    let records = vec![
        vec!["values".to_owned()],
        vec!["[1,2]".to_owned()],
        vec!["x".to_owned()],
    ];
    let with_problem = analyze_table(&records, 1);
    match save_check(None, Some(&with_problem)) {
        SaveCheck::Confirm(message) => assert_eq!(
            message,
            "This file contains 1 cells with red compatibility or structure problems."
        ),
        _ => panic!("expected a confirmation"),
    }
    let clean = analyze_table(&vec![vec!["id".to_owned()], vec!["1".to_owned()]], 1);
    assert!(matches!(save_check(None, Some(&clean)), SaveCheck::Proceed));
}

#[test]
fn notices_of_history_diagnostics_and_matches() {
    assert_eq!(history_notice(false, true), "Undid the last edit");
    assert_eq!(history_notice(true, true), "Redid the last edit");
    assert_eq!(history_notice(false, false), "Nothing to undo");
    assert_eq!(history_notice(true, false), "Nothing to redo");
    assert_eq!(
        diagnostic_notice(
            DiagnosticTarget::Cell(GridPosition {
                row_index: 4,
                column_index: 0
            }),
            2
        ),
        "Problem at row 3, column 1"
    );
    assert_eq!(diagnostic_notice(DiagnosticTarget::Column(5), 2), "Mixed types in column 6");
    assert_eq!(match_notice(0, 12), "Match 1 of 12");
}

#[test]
fn text_editor_ids_come_from_the_path_digest() {
    let path = "C:/configs/heroes.csv";
    let expected = format!("text-editor-{}", &blake3::hash(path.as_bytes()).to_hex()[..12]);
    assert_eq!(text_editor_id(path), expected);
    assert_eq!(text_editor_id(path).len(), 24);
    assert_ne!(text_editor_id(path), text_editor_id("C:/configs/items.csv"));
}

#[test]
fn committing_drafts_normalises_json_and_refuses_bad_drafts() {
    let path = PathBuf::from("json.csv");
    let mut session = open_session(&path, "meta\n\"{\"\"id\"\":1}\"\n".as_bytes(), 1);
    let draft = |row_index, value: &str| CellDraft {
        location: CellLocation {
            path: path.clone(),
            row_index,
            column_index: 0,
        },
        value: value.to_owned(),
    };

    assert!(matches!(commit_cell_draft(&mut session, &draft(1, "{\n  \"id\": 1\n}")), Ok(false)));
    match commit_cell_draft(&mut session, &draft(1, "[1]")) {
        Err(error) => assert_eq!(
            error.notice().as_deref(),
            Some("JSON value must remain a JSON object")
        ),
        Ok(_) => panic!("a structure change is refused"),
    }
    match commit_cell_draft(&mut session, &draft(7, "x")) {
        Err(error) => assert_eq!(error.notice().as_deref(), Some("Edited cell no longer exists")),
        Ok(_) => panic!("a missing cell is refused"),
    }
    assert!(matches!(
        commit_cell_draft(&mut session, &draft(1, "{ \"id\": 2 }")),
        Ok(true)
    ));
    assert_eq!(session.document.records[1][0], "{\"id\":2}");
    assert!(session.is_dirty());
    assert!(matches!(
        commit_cell_draft(&mut session, &draft(1, "{")),
        Err(CommitError::Invalid(_))
    ));
}

#[test]
fn file_preferences_are_found_and_kept_by_workspace_path() {
    let mut settings = Settings::default();
    let chosen = FilePreferences {
        header_rows: 3,
        delimiter: Some(CsvDelimiter::Tab),
    };
    assert_eq!(
        remember_file_preferences(&mut settings, None, "C:/configs/heroes.csv", chosen),
        Err("No workspace is open")
    );
    assert_eq!(
        remember_file_preferences(&mut settings, Some("C:/configs"), "D:/other/heroes.csv", chosen),
        Err("CSV file is outside the current workspace")
    );
    assert_eq!(
        remember_file_preferences(&mut settings, Some("C:/configs"), "C:/configs/heroes/basic.csv", chosen),
        Ok("heroes/basic.csv".to_owned())
    );
    assert_eq!(
        preferences_for_path(&settings, Some("C:/configs"), "C:/configs/heroes/basic.csv"),
        Ok(chosen)
    );
    assert_eq!(
        preferences_for_path(&settings, Some("C:/configs"), "C:/configs/items.csv"),
        Ok(FilePreferences::default())
    );
    assert_eq!(
        preferences_for_path(&settings, None, "C:/configs/items.csv"),
        Err("No workspace is open")
    );
}

#[test]
fn opening_files_respects_the_tab_limit() {
    assert_eq!(open_decision(true, MAX_OPEN_TABS), OpenDecision::Activate);
    assert_eq!(open_decision(false, MAX_OPEN_TABS), OpenDecision::Refuse);
    assert_eq!(open_decision(false, 19), OpenDecision::Open);
    assert_eq!(
        tab_limit_notice(),
        "The 20-tab limit has been reached. Close a tab before opening another file."
    );
}

#[test]
fn header_row_counts_outside_the_range_are_refused() {
    assert_eq!(header_rows_notice(2), None);
    assert_eq!(header_rows_notice(5), None);
    assert_eq!(
        header_rows_notice(0).as_deref(),
        Some("Header rows must be between 1 and 5")
    );
    assert_eq!(
        header_rows_notice(6).as_deref(),
        Some("Header rows must be between 1 and 5")
    );
}

#[test]
fn an_analysis_is_started_only_when_none_matches() {
    let loading = TableAnalysisState::Loading { document_version: 3, header_rows: 2 };

    assert!(analysis_wanted(4, 2, None, 3));
    assert!(!analysis_wanted(1, 2, None, 3));
    assert!(!analysis_wanted(4, 2, Some(&loading), 3));
    assert!(analysis_wanted(4, 2, Some(&loading), 4));
    assert!(analysis_wanted(4, 3, Some(&loading), 3));
}

#[test]
fn a_changed_preview_is_read_again_with_its_header_rows() {
    let mut settings = Settings::default();
    settings.set_file_preferences("/work", "configs/bad.csv", FilePreferences { header_rows: 4, delimiter: None });
    let changed = vec!["/work/configs".to_owned()];

    assert_eq!(
        preview_reload_header_rows("/work/configs/a.csv", PreviewKind::Document { header_rows: 3 }, &changed, &settings, "/work"),
        Some(3)
    );
    assert_eq!(
        preview_reload_header_rows("/work/configs/bad.csv", PreviewKind::Error, &changed, &settings, "/work"),
        Some(4)
    );
    assert_eq!(
        preview_reload_header_rows("/work/configs/other.csv", PreviewKind::Error, &changed, &settings, "/work"),
        Some(2)
    );
    assert_eq!(
        preview_reload_header_rows("/elsewhere/configs/x.csv", PreviewKind::Error, &vec!["/elsewhere/configs/x.csv".to_owned()], &settings, "/work"),
        Some(2)
    );
    assert_eq!(
        preview_reload_header_rows("/work/other/a.csv", PreviewKind::Error, &changed, &settings, "/work"),
        None
    );
}

#[test]
fn copying_reports_whether_a_cell_is_selected() {
    let path = Path::new("heroes.csv");
    let tabs = vec![open_session(path, b"id,name\n1,Arthur\n", 1)];
    let inside = CellLocation { path: path.to_path_buf(), row_index: 1, column_index: 1 };
    let outside = CellLocation { path: path.to_path_buf(), row_index: 1, column_index: 2 };
    let elsewhere = CellLocation { path: PathBuf::from("other.csv"), row_index: 0, column_index: 0 };

    assert_eq!(copy_notice(&tabs, Some(&inside)), "Copied cell value");
    assert_eq!(copy_notice(&tabs, Some(&outside)), "Nothing selected to copy");
    assert_eq!(copy_notice(&tabs, Some(&elsewhere)), "Nothing selected to copy");
    assert_eq!(copy_notice(&tabs, None), "Nothing selected to copy");
}
