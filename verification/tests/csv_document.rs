use std::path::Path;

use game_config_edit::csv_document::{CsvDelimiter, CsvDocument, CsvDocumentError, DelimiterSource, LineEnding};

#[test]
fn opens_utf8_bom_and_preserves_line_ending() {
    let document = CsvDocument::from_bytes(
        Path::new("heroes.csv"),
        b"\xEF\xBB\xBFid,name\r\n1,Arthur\r\n",
        None,
    )
    .unwrap();

    assert!(document.has_bom);
    assert_eq!(document.line_ending, LineEnding::CrLf);
    assert_eq!(document.delimiter, b',');
    assert_eq!(document.delimiter_source, DelimiterSource::Detected);
    assert_eq!(document.dimensions(1), Some((1, 2)));
}

#[test]
fn detects_semicolon_delimiter() {
    let document =
        CsvDocument::from_bytes(Path::new("heroes.csv"), b"id;name;hp\n1;Arthur;500\n", None)
            .unwrap();

    assert_eq!(document.delimiter, b';');
    assert_eq!(document.records[1], vec!["1", "Arthur", "500"]);
}

#[test]
fn ambiguous_single_column_uses_comma_without_inference() {
    let document =
        CsvDocument::from_bytes(Path::new("names.csv"), b"name\nArthur\n", None).unwrap();

    assert_eq!(document.delimiter, b',');
    assert_eq!(document.delimiter_source, DelimiterSource::Default);
}

#[test]
fn manual_delimiter_overrides_detection() {
    let document =
        CsvDocument::from_bytes(Path::new("heroes.csv"), b"id|name\n1|Arthur\n", Some(b'|'))
            .unwrap();

    assert_eq!(document.delimiter, b'|');
    assert_eq!(document.delimiter_source, DelimiterSource::Manual);
    assert_eq!(document.records.len(), 2);
}

#[test]
fn rejects_invalid_utf8() {
    let error =
        CsvDocument::from_bytes(Path::new("invalid.csv"), b"id\n\xFF\n", None).unwrap_err();

    assert!(matches!(
        error,
        CsvDocumentError::InvalidUtf8 { valid_up_to: 3, .. }
    ));
}

#[test]
fn invalid_utf8_offset_includes_bom() {
    let error =
        CsvDocument::from_bytes(Path::new("invalid.csv"), b"\xEF\xBB\xBFid\n\xFF\n", None)
            .unwrap_err();

    assert!(matches!(
        error,
        CsvDocumentError::InvalidUtf8 { valid_up_to: 6, .. }
    ));
}

#[test]
fn rejects_inconsistent_record_width() {
    let error = CsvDocument::from_bytes(
        Path::new("invalid.csv"),
        b"id,name\n1,Arthur,extra\n",
        Some(b','),
    )
    .unwrap_err();

    assert!(matches!(error, CsvDocumentError::Parse { .. }));
}

#[test]
fn reports_every_inconsistent_record_width() {
    let error = CsvDocument::from_bytes(
        Path::new("invalid.csv"),
        b"id,name\n1\n2,Merlin,extra\n3,Morgana\n",
        Some(b','),
    )
    .unwrap_err();

    assert_eq!(error.parse_error_count(), Some(2));
    assert!(error.to_string().contains("record 2"));
}

#[test]
fn rejects_unclosed_and_misplaced_quotes() {
    let unclosed = CsvDocument::from_bytes(
        Path::new("unclosed.csv"),
        b"id,name\n1,\"Arthur\n",
        Some(b','),
    )
    .unwrap_err();
    let misplaced = CsvDocument::from_bytes(
        Path::new("misplaced.csv"),
        b"id,name\n1,Art\"hur\n",
        Some(b','),
    )
    .unwrap_err();

    assert_eq!(unclosed.parse_error_count(), Some(1));
    assert!(unclosed.to_string().contains("unclosed quoted field"));
    assert_eq!(misplaced.parse_error_count(), Some(1));
    assert!(misplaced.to_string().contains("unexpected quote"));
}

#[test]
fn replacing_a_cell_only_normalizes_its_record() {
    let mut document = CsvDocument::from_bytes(
        Path::new("heroes.csv"),
        b"id,name\r\n1,\"Arthur\"\r\n2,Merlin\r\n",
        Some(b','),
    )
    .unwrap();

    document.replace_cell(1, 1, "Art,hur").unwrap();

    assert_eq!(
        document.raw_text,
        "id,name\r\n1,\"Art,hur\"\r\n2,Merlin\r\n"
    );
    assert_eq!(document.records[1][1], "Art,hur");
}

#[test]
fn replacing_the_final_record_preserves_missing_trailing_newline() {
    let mut document =
        CsvDocument::from_bytes(Path::new("heroes.csv"), b"id,name\n1,Arthur", Some(b','))
            .unwrap();

    document.replace_cell(1, 1, "Merlin").unwrap();

    assert_eq!(document.raw_text, "id,name\n1,Merlin");
}

#[test]
fn replacing_multiple_records_keeps_incremental_spans_valid() {
    let mut document = CsvDocument::from_bytes(
        Path::new("heroes.csv"),
        b"id,name\n1,A\n2,B\n3,C\n",
        Some(b','),
    )
    .unwrap();
    let initial_version = document.analysis_version();

    document.replace_cell(1, 1, "Arthur the Brave").unwrap();
    document.replace_cell(3, 1, "C, the Third").unwrap();

    assert_eq!(
        document.raw_text,
        "id,name\n1,Arthur the Brave\n2,B\n3,\"C, the Third\"\n"
    );
    assert_eq!(document.records[1][1], "Arthur the Brave");
    assert_eq!(document.records[3][1], "C, the Third");
    assert!(document.analysis_version() > initial_version);
}

#[test]
fn serialization_restores_utf8_bom() {
    let document = CsvDocument::from_bytes(
        Path::new("heroes.csv"),
        b"\xEF\xBB\xBFid,name\n1,Arthur\n",
        Some(b','),
    )
    .unwrap();

    assert_eq!(document.to_bytes(), b"\xEF\xBB\xBFid,name\n1,Arthur\n");
}

#[test]
fn supported_delimiters_round_trip_through_ui_values() {
    for delimiter in CsvDelimiter::ALL {
        assert_eq!(CsvDelimiter::from_byte(delimiter.byte()), Some(delimiter));
        assert_eq!(
            CsvDelimiter::from_setting_value(delimiter.setting_value()),
            Some(delimiter)
        );
    }
    assert_eq!(CsvDelimiter::from_byte(b':'), None);
    assert_eq!(CsvDelimiter::from_setting_value("custom"), None);
}

#[test]
fn replacing_a_cell_outside_the_document_is_refused() {
    let mut document =
        CsvDocument::from_bytes(Path::new("heroes.csv"), b"id,name\n1,Arthur\n", None).unwrap();
    let before = document.clone();

    let error = document.replace_cell(2, 0, "x").unwrap_err();

    assert!(matches!(
        error,
        CsvDocumentError::CellOutOfBounds { row_index: 2, column_index: 0 }
    ));
    assert_eq!(
        error.to_string(),
        "cell is outside the document at record 2, column 0"
    );
    assert_eq!(document.raw_text, before.raw_text);
    assert_eq!(document.records, before.records);
    assert_eq!(document.analysis_version(), before.analysis_version());
}

#[test]
fn replacing_a_cell_with_its_own_value_changes_nothing() {
    let mut document =
        CsvDocument::from_bytes(Path::new("heroes.csv"), b"id,name\n1,Arthur\n", None).unwrap();
    let version = document.analysis_version();

    document.replace_cell(1, 1, "Arthur").unwrap();

    assert_eq!(document.analysis_version(), version);
    assert_eq!(document.raw_text, "id,name\n1,Arthur\n");
}

#[test]
fn parse_errors_report_the_earliest_problem_first() {
    let error = CsvDocument::from_bytes(
        Path::new("mixed.csv"),
        b"id,name\n1,a\"b\n2\n",
        Some(b','),
    )
    .unwrap_err();

    assert_eq!(error.parse_error_count(), Some(2));
    assert!(error.to_string().ends_with(": unexpected quote in unquoted field at byte 11"));
}

#[test]
fn dimensions_need_all_header_records() {
    let document =
        CsvDocument::from_bytes(Path::new("heroes.csv"), b"id,name\n1,Arthur\n", None).unwrap();

    assert_eq!(document.dimensions(3), None);
    assert_eq!(document.dimensions(2), Some((0, 2)));
}
