use std::path::Path;

use game_config_edit::document_session::{DocumentSession, DocumentSessionError, DocumentView};

fn session(content: &[u8], delimiter: Option<u8>) -> DocumentSession {
    match DocumentSession::from_bytes(Path::new("heroes.csv"), content.to_vec(), delimiter, 2) {
        Ok(session) => session,
        Err(_) => panic!("the session should open"),
    }
}

#[test]
fn edit_undo_and_redo_track_dirty_state() {
    let mut session = session(b"id,name\n1,Arthur\n", Some(b','));

    assert!(session.edit_cell(1, 1, "Merlin".to_owned()).ok().unwrap());
    assert!(session.is_dirty());
    assert!(session.undo().ok().unwrap());
    assert!(!session.is_dirty());
    assert!(session.redo().ok().unwrap());
    assert!(session.is_dirty());
}

#[test]
fn no_op_edit_does_not_create_history() {
    let mut session = session(b"id,name\n1,Arthur\n", Some(b','));

    assert!(!session.edit_cell(1, 1, "Arthur".to_owned()).ok().unwrap());
    assert!(!session.undo().ok().unwrap());
    assert!(!session.is_dirty());
}

#[test]
fn save_updates_disk_and_clears_dirty_state() {
    let mut session = session(b"id,name\n1,Arthur\n", Some(b','));
    session.edit_cell(1, 1, "Merlin".to_owned()).ok().unwrap();

    let bytes = session.save_bytes(Some(b"id,name\n1,Arthur\n".to_vec()), false).ok().unwrap();
    session.mark_saved(&bytes);

    assert_eq!(bytes, b"id,name\n1,Merlin\n".to_vec());
    assert!(!session.is_dirty());
}

#[test]
fn save_detects_external_modification() {
    let mut session = session(b"id,name\n1,Arthur\n", Some(b','));
    session.edit_cell(1, 1, "Merlin".to_owned()).ok().unwrap();

    let error = session.save_bytes(Some(b"id,name\n1,Lancelot\n".to_vec()), false).err().unwrap();

    assert!(matches!(error, DocumentSessionError::ExternalModification { .. }));
    assert!(session.is_dirty());
}

#[test]
fn forced_save_overwrites_external_modification() {
    let mut session = session(b"id,name\n1,Arthur\n", Some(b','));
    session.edit_cell(1, 1, "Merlin".to_owned()).ok().unwrap();

    let bytes = session.save_bytes(Some(b"id,name\n1,Lancelot\n".to_vec()), true).ok().unwrap();
    session.mark_saved(&bytes);

    assert_eq!(bytes, b"id,name\n1,Merlin\n".to_vec());
    assert!(!session.is_dirty());
}

#[test]
fn exposes_the_disk_baseline_without_marking_the_session_dirty() {
    let session = session(b"id,name\n1,Arthur\n", Some(b','));

    assert_eq!(session.saved_hash(), blake3::hash(b"id,name\n1,Arthur\n").as_bytes().to_vec());
    assert_eq!(session.delimiter_override(), Some(b','));
    assert!(!session.is_dirty());
}

#[test]
fn reload_discards_local_edits_and_history() {
    let mut session = session(b"id,name\n1,Arthur\n", Some(b','));
    session.edit_cell(1, 1, "Merlin".to_owned()).ok().unwrap();

    session.reload(b"id,name\n1,Lancelot\n".to_vec()).ok().unwrap();

    assert_eq!(session.document.records[1][1], "Lancelot");
    assert!(!session.is_dirty());
    assert!(!session.undo().ok().unwrap());
}

#[test]
fn reload_preserves_manual_delimiter_selection() {
    let mut session = session(b"id|name\n1|Arthur\n", Some(b'|'));

    session.reload(b"id|name\n1|Merlin\n".to_vec()).ok().unwrap();

    assert_eq!(session.document.delimiter, b'|');
    assert_eq!(session.document.records[1][1], "Merlin");
}

#[test]
fn changing_header_rows_does_not_mark_the_document_dirty() {
    let mut session = session(b"description,name\nid,name\n1,Arthur\n", Some(b','));

    session.set_header_rows(3).ok().unwrap();

    assert_eq!(session.header_rows, 3);
    assert!(!session.is_dirty());
    assert!(matches!(session.set_header_rows(0), Err(DocumentSessionError::InvalidHeaderRows(0))));
}

#[test]
fn changing_delimiter_reparses_without_changing_document_bytes() {
    let mut session = session(b"id|name\n1|Arthur\n", Some(b','));
    let original = session.document.to_bytes();

    session.set_delimiter(b'|').ok().unwrap();

    assert_eq!(session.document.records[1], vec!["1", "Arthur"]);
    assert_eq!(session.document.to_bytes(), original);
    assert!(!session.is_dirty());
}

#[test]
fn failed_delimiter_change_preserves_the_previous_parse() {
    let mut session = session(b"id|name\n1|Arthur,extra\n", Some(b'|'));
    let previous = session.document.records.clone();

    assert!(session.set_delimiter(b',').is_err());

    assert_eq!(session.document.records, previous);
    assert_eq!(session.document.delimiter, b'|');
}

#[test]
fn text_edits_share_dirty_state_and_preserve_utf8_bom() {
    let mut session = session(b"\xEF\xBB\xBFid,name\r\n1,Arthur\r\n", Some(b','));

    session.show_text();
    assert!(session.set_text("id,name\r\n1,Merlin\r\n".to_owned()));

    assert_eq!(session.view(), DocumentView::Text);
    assert!(session.is_dirty());
    let bytes = session.save_bytes(Some(b"\xEF\xBB\xBFid,name\r\n1,Arthur\r\n".to_vec()), false).ok().unwrap();
    session.mark_saved(&bytes);
    assert_eq!(bytes, b"\xEF\xBB\xBFid,name\r\n1,Merlin\r\n".to_vec());
    assert!(!session.is_dirty());
}

#[test]
fn invalid_text_keeps_the_last_valid_table_snapshot() {
    let mut session = session(b"id,name\n1,Arthur\n", Some(b','));
    let previous = session.document.records.clone();
    session.show_text();
    session.set_text("id,name\n1\n".to_owned());

    let issue = session.show_table().err().unwrap();

    assert_eq!(session.view(), DocumentView::Text);
    assert_eq!(session.document.records, previous);
    assert_eq!(issue.count, 1);
    assert!(session.text_parse_issue().is_some());
}

#[test]
fn invalid_text_reports_all_record_width_errors() {
    let mut session = session(b"id,name\n1,Arthur\n", Some(b','));
    session.show_text();
    session.set_text("id,name\n1\n2,Merlin,extra\n".to_owned());

    let issue = session.show_table().err().unwrap();

    assert_eq!(issue.count, 2);
    assert!(issue.message.contains("record 2"));
}

#[test]
fn valid_text_replaces_the_table_snapshot() {
    let mut session = session(b"id,name\n1,Arthur\n", Some(b','));
    session.show_text();
    session.set_text("id,name\n1,Merlin\n2,Morgana\n".to_owned());

    session.show_table().ok().unwrap();

    assert_eq!(session.view(), DocumentView::Table);
    assert_eq!(session.document.records.len(), 3);
    assert_eq!(session.document.records[1][1], "Merlin");
    assert!(session.text_parse_issue().is_none());
}

#[test]
fn opening_and_reloading_invalid_csv_enters_text_error_state() {
    let mut session = session(b"id,name\n1\n", Some(b','));
    assert_eq!(session.view(), DocumentView::Text);
    assert!(session.text_parse_issue().is_some());
    assert!(!session.is_dirty());

    session.reload(b"id,name\n1,Merlin\n".to_vec()).ok().unwrap();
    assert_eq!(session.view(), DocumentView::Text);
    assert!(session.text_parse_issue().is_none());
    assert_eq!(session.document.records[1][1], "Merlin");
}

#[test]
fn table_edits_are_immediately_visible_in_the_text_buffer() {
    let mut session = session(b"id,name\n1,Arthur\n", Some(b','));

    assert!(session.text_override().is_none());

    session.edit_cell(1, 1, "Merlin".to_owned()).ok().unwrap();

    assert_eq!(session.text(), "id,name\n1,Merlin\n");
    assert!(session.text_override().is_none());
}

#[test]
fn header_rows_outside_the_range_are_refused() {
    assert!(matches!(
        DocumentSession::from_bytes(Path::new("a.csv"), b"id\n".to_vec(), None, 6),
        Err(DocumentSessionError::InvalidHeaderRows(6))
    ));
}

#[test]
fn editing_outside_the_table_is_refused() {
    let mut session = session(b"id,name\n1,Arthur\n", Some(b','));

    assert!(session.edit_cell(5, 0, "x".to_owned()).is_err());
    assert!(!session.is_dirty());
}

#[test]
fn reload_of_bytes_that_are_not_utf8_is_refused_and_keeps_the_session() {
    let mut session = session(b"id,name\n1,Arthur\n", Some(b','));
    session.edit_cell(1, 1, "Merlin".to_owned()).ok().unwrap();

    let result = session.reload(vec![b'i', b'd', 0xFF, b'\n']);

    assert!(matches!(result, Err(DocumentSessionError::Csv(_))));
    assert_eq!(session.text(), "id,name\n1,Merlin\n");
    assert!(session.is_dirty());
}

#[test]
fn invalid_csv_after_a_byte_order_mark_opens_in_the_text_view() {
    let session = session(b"\xEF\xBB\xBFid,name\n1\n", Some(b','));

    assert_eq!(session.view(), DocumentView::Text);
    assert!(session.text_parse_issue().is_some());
    assert_eq!(session.text(), "id,name\n1\n");
    assert_eq!(session.text_bytes(), b"\xEF\xBB\xBFid,name\n1\n".to_vec());
    assert!(!session.is_dirty());
}

#[test]
fn a_session_shows_the_document_read_from_its_bytes() {
    let bytes = b"id;name\n1;Arthur\n";
    let session = session(bytes, None);
    let document = game_config_edit::csv_document::CsvDocument::from_bytes(Path::new("heroes.csv"), bytes, None).ok().unwrap();

    assert_eq!(session.document.records, document.records);
    assert_eq!(session.document.delimiter, b';');
    assert_eq!(session.document.raw_text, document.raw_text);
}

#[test]
fn reloading_and_changing_the_delimiter_take_a_new_analysis_version() {
    let mut session = session(b"id,name\n1,Arthur\n", None);
    let first = session.document.analysis_version();

    session.reload(b"id|name\n1|Merlin\n".to_vec()).ok().unwrap();
    let reloaded = session.document.analysis_version();
    assert!(reloaded > first);

    session.set_delimiter(b'|').ok().unwrap();
    assert!(session.document.analysis_version() > reloaded);
    assert_eq!(session.document.records, vec![vec!["id".to_owned(), "name".to_owned()], vec!["1".to_owned(), "Merlin".to_owned()]]);
}

#[test]
fn a_delimiter_under_which_the_text_does_not_parse_is_refused() {
    let mut session = session(b"id,name\n\"a\"b,c\n", Some(b'|'));
    let before = session.document.records.clone();

    assert!(session.set_delimiter(b',').is_err());
    assert_eq!(session.document.records, before);
}

#[test]
fn an_edit_rewrites_only_its_record_and_undo_brings_the_text_back() {
    let original = "\u{feff}id;name\r\nkeep  ;  spaces\r\n1;Arthur\r\n";
    let mut session = session(original.as_bytes(), Some(b';'));
    let before = session.text_bytes();

    assert!(session.edit_cell(2, 1, "Sir; Lancelot".to_owned()).ok().unwrap());
    assert_eq!(session.text(), "id;name\r\nkeep  ;  spaces\r\n1;\"Sir; Lancelot\"\r\n");
    assert_eq!(
        session.save_bytes(None, true).ok().unwrap(),
        b"\xEF\xBB\xBFid;name\r\nkeep  ;  spaces\r\n1;\"Sir; Lancelot\"\r\n".to_vec()
    );
    assert!(session.is_dirty());

    assert!(session.undo().ok().unwrap());
    assert_eq!(session.text_bytes(), before);
    assert!(!session.is_dirty());
}

#[test]
fn a_session_keeps_the_path_it_was_opened_from() {
    let mut session = session(b"id,name\n1,Arthur\n", None);
    assert_eq!(session.document.path, std::path::PathBuf::from("heroes.csv"));

    session.reload(b"id,name\n2,Merlin\n".to_vec()).ok().unwrap();
    assert_eq!(session.document.path, std::path::PathBuf::from("heroes.csv"));
}

#[test]
fn validating_text_reports_the_problem_and_keeps_the_view() {
    let mut session = session(b"id,name\n1,Arthur\n", Some(b','));
    session.show_text();
    assert!(session.set_text("id,name\n1\n".to_owned()));

    let issue = session.validate_text().err().unwrap();
    assert_eq!(issue.count, 1);
    assert!(issue.message.starts_with("failed to parse heroes.csv: "));
    assert_eq!(session.view(), DocumentView::Text);

    assert!(session.set_text("id,name\n1,Merlin\n".to_owned()));
    assert!(session.validate_text().is_ok());
    assert_eq!(session.view(), DocumentView::Text);
    assert_eq!(session.document.records[1][1], "Merlin");
}

#[test]
fn changing_header_rows_keeps_the_table_and_the_history() {
    let mut session = session(b"id,name\n1,Arthur\n", Some(b','));
    session.edit_cell(1, 1, "Merlin".to_owned()).ok().unwrap();

    session.set_header_rows(1).ok().unwrap();

    assert_eq!(session.header_rows, 1);
    assert_eq!(session.text(), "id,name\n1,Merlin\n");
    assert!(session.undo().ok().unwrap());
}
