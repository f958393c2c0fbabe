use game_config_edit::declared::DeclaredTypeParser;
use game_config_edit::diagnostics::{
    analyze_column, analyze_table, classify_cell, effective_header_rows, table_kind, CellProblemDetail,
    CellProblemKind, CellType, ColumnAnalysis, ColumnType, ProblemSeverity, TableKind, MISC_HEADER_ROWS,
};

fn misc_records(rows: &[[&str; 4]], fourth_header: &str) -> Vec<Vec<String>> {
    let mut records = vec![
        ["类型", "键", "值", "说明"].map(str::to_owned).to_vec(),
        ["valueType", "key", "value", fourth_header].map(str::to_owned).to_vec(),
    ];
    records.extend(rows.iter().map(|row| row.iter().map(|value| (*value).to_owned()).collect::<Vec<_>>()));
    records
}

fn problem_rows(analysis: &ColumnAnalysis, kind: CellProblemKind) -> Vec<usize> {
    analysis
        .problems
        .iter()
        .filter(|problem| problem.kinds.contains(&kind))
        .map(|problem| problem.row_index)
        .collect()
}

#[test]
fn all_empty_values_are_strings() {
    let analysis = analyze_column(&[(2, ""), (3, "")]);

    assert_eq!(analysis.column_type, ColumnType::String);
    assert!(analysis.problems.is_empty());
}

#[test]
fn zero_and_one_are_numbers_when_the_whole_column_is_numeric() {
    let analysis = analyze_column(&[(2, "0"), (3, "1")]);

    assert_eq!(analysis.column_type, ColumnType::Number);
    assert!(!analysis.has_mixed_warning);
}

#[test]
fn zero_one_and_other_numbers_are_numbers() {
    let analysis = analyze_column(&[(2, "0"), (3, "1"), (4, "2")]);

    assert_eq!(analysis.column_type, ColumnType::Number);
    assert!(!analysis.has_mixed_warning);
}

#[test]
fn textual_bools_can_mix_with_zero_and_one() {
    let analysis = analyze_column(&[(2, "true"), (3, "false"), (4, "0"), (5, "1")]);

    assert_eq!(analysis.column_type, ColumnType::Bool);
    assert!(!analysis.has_mixed_warning);
}

#[test]
fn bool_and_number_are_mixed() {
    let analysis = analyze_column(&[(2, "true"), (3, "2")]);

    assert_eq!(analysis.column_type, ColumnType::Mixed);
    assert!(analysis.has_mixed_warning);
}

#[test]
fn number_and_text_become_string_without_warning() {
    let analysis = analyze_column(&[(2, "42"), (3, "unknown")]);

    assert_eq!(analysis.column_type, ColumnType::String);
    assert!(!analysis.has_mixed_warning);
}

#[test]
fn non_json_floating_point_spellings_remain_strings() {
    for value in ["NaN", "inf", "+1", "01"] {
        let analysis = analyze_column(&[(2, value)]);
        assert_eq!(analysis.column_type, ColumnType::String, "{value}");
    }
}

#[test]
fn a_valid_json_object_makes_other_values_structural_errors() {
    let analysis = analyze_column(&[(2, r#"{"id":1}"#), (3, "not-json"), (4, "")]);

    assert_eq!(analysis.column_type, ColumnType::Json);
    assert_eq!(analysis.problems.len(), 1);
    assert_eq!(analysis.problems[0].row_index, 3);
    assert!(analysis.problems[0].kinds.contains(&CellProblemKind::StructuralMismatch));
}

#[test]
fn malformed_json_without_valid_structured_value_is_plain_text() {
    let analysis = analyze_column(&[(2, "{not-json")]);

    assert_eq!(analysis.column_type, ColumnType::String);
    assert!(analysis.problems.is_empty());
}

#[test]
fn recognizes_json_and_separator_arrays() {
    assert_eq!(classify_cell(r#"["a","b"]"#), CellType::Array);
    assert_eq!(classify_cell(r#"[[1,2],[3,4]]"#), CellType::Array2d);
    assert_eq!(classify_cell(r#""a","b""#), CellType::Array);
    assert_eq!(classify_cell(r#""a","b";"c","d""#), CellType::Array2d);
    assert_eq!(classify_cell(r#""only one""#), CellType::String);
}

#[test]
fn describes_json_and_separator_arrays_with_concrete_types() {
    assert_eq!(analyze_column(&[(2, r#"["a","b"]"#), (3, r#""c","d""#)]).type_expression, "string[]");
    assert_eq!(analyze_column(&[(2, "[1,2]"), (3, "[3]")]).type_expression, "number[]");
    assert_eq!(analyze_column(&[(2, "[[1],[2,3]]")]).type_expression, "number[][]");
    assert_eq!(analyze_column(&[(2, "[]")]).type_expression, "unknown[]");
}

#[test]
fn merges_object_fields_recursively_and_marks_missing_fields_optional() {
    let analysis = analyze_column(&[
        (2, r#"{"mid":1,"name":"first","meta":{"rank":1},"items":[{"id":1}]}"#),
        (3, r#"{"mid":2,"meta":{"rank":2,"tag":"x"},"items":[{"id":2,"name":"n"}]}"#),
    ]);

    assert_eq!(
        analysis.type_expression,
        "{items:{id:number;name?:string}[];meta:{rank:number;tag?:string};mid:number;name?:string}"
    );
}

#[test]
fn an_optional_field_remains_optional_if_it_reappears_later() {
    let analysis = analyze_column(&[
        (2, r#"{"id":1,"name":"first"}"#),
        (3, r#"{"id":2}"#),
        (4, r#"{"id":3,"name":"third"}"#),
    ]);

    assert_eq!(analysis.type_expression, "{id:number;name?:string}");
}

#[test]
fn renders_unions_and_quotes_non_identifier_object_keys() {
    let analysis = analyze_column(&[
        (2, r#"{"bad-key":1,"value":[1,"x"]}"#),
        (3, r#"{"bad-key":"x","value":[false]}"#),
    ]);

    assert_eq!(analysis.type_expression, r#"{"bad-key":number|string;value:(bool|number|string)[]}"#);
}

#[test]
fn invalid_structural_cells_do_not_change_expression_or_problem_count() {
    let analysis = analyze_column(&[(2, r#"{"id":1}"#), (3, "broken"), (4, r#"{"id":2}"#)]);

    assert_eq!(analysis.type_expression, "{id:number}");
    assert_eq!(analysis.problems.len(), 1);
    assert_eq!(analysis.problems[0].row_index, 3);
    assert_eq!(analysis.problems[0].kinds, vec![CellProblemKind::StructuralMismatch]);
}

#[test]
fn reports_character_compatibility_problems_once_per_cell() {
    let analysis = analyze_column(&[(2, "line\nbreak\t\u{200B}")]);

    assert_eq!(analysis.problems.len(), 1);
    assert!(analysis.problems[0].kinds.contains(&CellProblemKind::DangerousInvisibleCharacter));
    assert_eq!(analysis.problems[0].kinds.len(), 1);
}

#[test]
fn real_line_breaks_are_not_diagnostic_problems() {
    let analysis = analyze_column(&[
        (2, "line\nbreak"),
        (3, "line\rbreak"),
        (4, "line\r\nbreak"),
        (5, r"line\nbreak"),
    ]);

    assert!(analysis.problems.is_empty());
}

#[test]
fn accepts_documented_string_escapes_and_rejects_invalid_ones() {
    let accepted = analyze_column(&[(2, r#"line\n\"quoted\"\u0041"#)]);
    let invalid = analyze_column(&[(2, r#"bad\q"quote"#)]);

    assert!(accepted.problems.is_empty());
    assert_eq!(invalid.problems.len(), 1);
    assert!(invalid.problems[0].kinds.contains(&CellProblemKind::InvalidBackslashEscape));
    assert!(invalid.problems[0].kinds.contains(&CellProblemKind::UnescapedQuote));
    assert_eq!(invalid.problems[0].severity(), Some(ProblemSeverity::Warning));
}

#[test]
fn character_warnings_do_not_include_curly_quotes_and_errors_take_precedence() {
    let curly_quotes = analyze_column(&[(2, "中文“引号”")]);
    let combined = analyze_column(&[(2, r#"{"id":1}"#), (3, r#"bad"quote\q"#)]);

    assert!(curly_quotes.problems.is_empty());
    assert_eq!(combined.problems[0].severity(), Some(ProblemSeverity::Error));
    assert!(combined.problems[0].kinds.contains(&CellProblemKind::StructuralMismatch));
    assert!(combined.problems[0].kinds.contains(&CellProblemKind::UnescapedQuote));
    assert!(combined.problems[0].kinds.contains(&CellProblemKind::InvalidBackslashEscape));
}

#[test]
fn table_analysis_skips_header_rows_and_preserves_source_row_index() {
    let records = vec![
        vec!["description".to_owned()],
        vec!["field".to_owned()],
        vec!["true".to_owned()],
        vec!["false".to_owned()],
    ];

    let analysis = analyze_table(&records, 2);

    assert_eq!(analysis.len(), 1);
    assert_eq!(analysis[0].column_type, ColumnType::Bool);
}

#[test]
fn misc_tables_ignore_only_the_fourth_header_name() {
    for fourth in ["fuzhu", "beizhu", "description"] {
        let records = misc_records(&[["string", "A", "value", "note"]], fourth);
        assert_eq!(table_kind(&records), TableKind::Misc);
        assert_eq!(effective_header_rows(&records, 4), MISC_HEADER_ROWS);
    }

    let mut wrong_header = misc_records(&[["string", "A", "value", "note"]], "note");
    wrong_header[1][1] = "name".to_owned();
    assert_eq!(table_kind(&wrong_header), TableKind::Standard);

    let mut five_columns = misc_records(&[["string", "A", "value", "note"]], "note");
    for record in &mut five_columns {
        record.push(String::new());
    }
    assert_eq!(table_kind(&five_columns), TableKind::Standard);
    assert_eq!(effective_header_rows(&five_columns, 3), 3);
}

#[test]
fn declared_types_validate_current_scalar_array_and_object_forms() {
    let records = misc_records(
        &[
            ["string", "EMPTY", "", "note"],
            ["string", "NUMERIC_TEXT", "123", "note"],
            ["number", "COUNT", "12.5", "note"],
            ["bool", "ENABLED", "1", "note"],
            ["null", "NONE", "null", "note"],
            ["number[]", "RANGE", "1,2", "note"],
            ["number[]", "ONE", "1", "note"],
            ["number[]", "JSON_RANGE", "[1,2]", "note"],
            ["string[]", "TOPIC", "one", "note"],
            [r#"{"mid":number,"name":string}"#, "ITEM", r#"{"mid":1,"name":"ball"}"#, "note"],
            [r#"{mid:number,tags:string[]}"#, "ITEMS", r#"{"mid":1,"tags":["a","b"]}"#, "note"],
            [r#"{"1":number}"#, "NUMERIC_KEY", r#"{"1":55}"#, "note"],
            ["string[][]", "GRID", r#"[["a"],["b"]]"#, "note"],
        ],
        "anything",
    );

    let analyses = analyze_table(&records, 5);

    assert_eq!(analyses.len(), 4);
    assert!(analyses.iter().all(|analysis| !analysis.has_mixed_warning));
    assert!(analyses.iter().all(|analysis| analysis.problems.is_empty()));
}

#[test]
fn declared_type_parser_rejects_unions_optional_fields_and_trailing_input() {
    for declaration in ["number|string", "{id?:number}", "number[] extra"] {
        assert!(DeclaredTypeParser::parse(declaration).is_err(), "{declaration}");
    }
}

#[test]
fn misc_diagnostics_target_duplicate_declaration_and_value_cells() {
    let records = misc_records(
        &[
            ["number", "SAME", "1", "note"],
            ["string", "SAME", "numeric-looking", "note"],
            ["not-a-type", "same", "value", "note"],
            [r#"{"id":number}"#, "OBJECT", r#"{"id":1,"extra":2}"#, "note"],
            ["number", "", "not-number", "note"],
            ["number", "", "2", "note"],
        ],
        "note",
    );

    let analyses = analyze_table(&records, 2);

    assert_eq!(problem_rows(&analyses[1], CellProblemKind::DuplicateKey), vec![2, 3]);
    assert_eq!(problem_rows(&analyses[0], CellProblemKind::InvalidTypeDeclaration), vec![4]);
    assert_eq!(problem_rows(&analyses[2], CellProblemKind::DeclaredTypeMismatch), vec![5, 6]);
    assert_eq!(
        analyses[2].problems[0].detail,
        Some(CellProblemDetail::DeclaredTypeMismatch { expected: "{id:number}".to_owned(), path: "$.extra".to_owned() })
    );
}

#[test]
fn misc_type_declarations_do_not_trigger_quote_escape_warnings() {
    let records = misc_records(
        &[
            [r#"{"mid":number}"#, "ITEM", r#"{"mid":1}"#, "line\nplain"],
            ["string", "NOTE", "value", "line\n\u{200B}"],
        ],
        "note",
    );

    let analyses = analyze_table(&records, 2);

    assert!(analyses[0].problems.is_empty());
    assert!(analyses[2].problems.is_empty());
    assert_eq!(analyses[3].problems[0].row_index, 3);
    assert!(analyses[3].problems[0].kinds.contains(&CellProblemKind::DangerousInvisibleCharacter));
    assert_eq!(analyses[3].problems[0].kinds.len(), 1);
}

#[test]
fn longest_line_ignores_line_endings() {
    let analysis = analyze_column(&[(2, "ab\r\nabcd\n"), (3, "xyz"), (4, "")]);

    assert_eq!(analysis.max_content_chars, 4);
}

#[test]
fn declared_array_pieces_report_their_index() {
    let records = misc_records(&[["number[]", "LIST", "1, x,3", "note"]], "note");

    let analyses = analyze_table(&records, 2);

    assert_eq!(
        analyses[2].problems[0].detail,
        Some(CellProblemDetail::DeclaredTypeMismatch { expected: "number[]".to_owned(), path: "$[1]".to_owned() })
    );
}

#[test]
fn declared_object_paths_quote_non_identifier_names() {
    let records = misc_records(&[[r#"{"bad key":number}"#, "K", r#"{"bad key":"x"}"#, "note"]], "note");

    let analyses = analyze_table(&records, 2);

    assert_eq!(
        analyses[2].problems[0].detail,
        Some(CellProblemDetail::DeclaredTypeMismatch {
            expected: r#"{"bad key":number}"#.to_owned(),
            path: r#"$["bad key"]"#.to_owned()
        })
    );
}

#[test]
fn unknown_shapes_give_way_to_known_ones() {
    assert_eq!(analyze_column(&[(2, "[]"), (3, "[1]")]).type_expression, "number[]");
}

#[test]
fn each_table_column_is_the_analysis_of_its_values_below_the_header() {
    let records = vec![
        vec!["id".to_owned(), "flag".to_owned()],
        vec!["int".to_owned(), "bool".to_owned()],
        vec!["1".to_owned(), "true".to_owned()],
        vec!["x".to_owned(), "maybe".to_owned()],
    ];

    let table = analyze_table(&records, 2);

    assert_eq!(table.len(), 2);
    assert_eq!(table[0], analyze_column(&[(2, "1"), (3, "x")]));
    assert_eq!(table[1], analyze_column(&[(2, "true"), (3, "maybe")]));
}
