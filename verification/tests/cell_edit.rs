use game_config_edit::cell_edit::{
    JsonStructure, editable_cell_value, json_structure, json_structure_label, normalize_cell_edit,
    syntax_highlight_json,
};

#[test]
fn json_edits_are_pretty_in_the_draft_and_compact_on_commit() {
    let original = r#"{"name":"Arthur","hp":500}"#;
    let draft = editable_cell_value(original);

    assert!(draft.contains('\n'));
    assert_eq!(normalize_cell_edit(original, &draft).unwrap(), original);
}

#[test]
fn json_edits_reject_invalid_syntax_and_structure_changes() {
    assert!(normalize_cell_edit(r#"{"id":1}"#, "{invalid").is_err());
    assert!(normalize_cell_edit("[[1],[2]]", "[1,2]").is_err());
    assert_eq!(
        normalize_cell_edit("plain", "still plain").unwrap(),
        "still plain"
    );
}

#[test]
fn json_highlighting_escapes_cell_content_before_inserting_markup() {
    let highlighted = syntax_highlight_json(r#"{"html":"<script>"}"#);

    assert!(highlighted.contains("json-key"));
    assert!(highlighted.contains("&lt;script&gt;"));
    assert!(!highlighted.contains("<script>"));
}

#[test]
fn structures_of_cells() {
    assert_eq!(json_structure(r#"{"a":1}"#), Some(JsonStructure::Object));
    assert_eq!(json_structure("[1,2]"), Some(JsonStructure::Array));
    assert_eq!(json_structure("[[1],[2]]"), Some(JsonStructure::Array2d));
    assert_eq!(json_structure("[[1],2]"), Some(JsonStructure::Array));
    assert_eq!(json_structure("[]"), Some(JsonStructure::Array));
    assert_eq!(json_structure("12"), None);
    assert_eq!(json_structure("\"text\""), None);
    assert_eq!(json_structure("not json"), None);
}

#[test]
fn structure_labels() {
    assert_eq!(json_structure_label(JsonStructure::Object), "JSON object");
    assert_eq!(
        json_structure_label(JsonStructure::Array),
        "one-dimensional JSON array"
    );
    assert_eq!(
        json_structure_label(JsonStructure::Array2d),
        "two-dimensional JSON array"
    );
}

#[test]
fn plain_cells_are_edited_as_they_are() {
    assert_eq!(editable_cell_value("Arthur"), "Arthur");
    assert_eq!(editable_cell_value("42"), "42");
    assert_eq!(editable_cell_value("[1,2]"), "[\n  1,\n  2\n]");
}

#[test]
fn structure_change_message_names_the_kept_structure() {
    assert_eq!(
        normalize_cell_edit("[[1],[2]]", "[1,2]").unwrap_err(),
        "JSON value must remain a two-dimensional JSON array"
    );
    assert_eq!(
        normalize_cell_edit(r#"{"id":1}"#, "[1]").unwrap_err(),
        "JSON value must remain a JSON object"
    );
    let message = normalize_cell_edit(r#"{"id":1}"#, "{invalid").unwrap_err();
    assert!(message.starts_with("JSON syntax error: "));
    assert_eq!(
        normalize_cell_edit("[1, 2]", " [ 3 ,4 ] ").unwrap(),
        "[3,4]"
    );
}

#[test]
fn highlighting_marks_each_token() {
    assert_eq!(
        syntax_highlight_json(r#"{"a": -1.5e3, "b": true}"#),
        "<span class=\"json-punctuation\">{</span><span class=\"json-key\">&quot;a&quot;</span>\
<span class=\"json-punctuation\">:</span> <span class=\"json-number\">-1.5e3</span>\
<span class=\"json-punctuation\">,</span> <span class=\"json-key\">&quot;b&quot;</span>\
<span class=\"json-punctuation\">:</span> <span class=\"json-literal\">true</span>\
<span class=\"json-punctuation\">}</span>"
    );
    assert_eq!(syntax_highlight_json("a&b"), "a&amp;b");
    assert_eq!(
        syntax_highlight_json(r#""x\"y" "#),
        "<span class=\"json-string\">&quot;x\\&quot;y&quot;</span> "
    );
}
