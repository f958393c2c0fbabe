use std::path::{Path, PathBuf};

use game_config_edit::csv_document::CsvDocument;
use game_config_edit::workspace::{
    inspect_csv_file, is_csv, sort_workspace_files, visible_tree_rows, CsvFileEntry, CsvFileStats,
    WorkspaceTreeRow,
};

#[test]
fn inspects_data_rows_and_columns_after_headers() {
    let document = CsvDocument::from_bytes(Path::new("heroes.csv"), b"id,name\nint,string\n1,Arthur\n2,Merlin\n", None);

    let stats = inspect_csv_file(document, 2);

    assert!(matches!(stats, CsvFileStats::Ready { data_rows: 2, columns: 2 }));
}

#[test]
fn reports_parse_errors_instead_of_partial_dimensions() {
    let document = CsvDocument::from_bytes(Path::new("broken.csv"), b"id,name\n1\n", None);

    let stats = inspect_csv_file(document, 1);

    assert!(matches!(stats, CsvFileStats::Error { .. }));
}

#[test]
fn short_files_report_the_missing_header_records() {
    let document = CsvDocument::from_bytes(Path::new("short.csv"), b"id\n", None);

    match inspect_csv_file(document, 3) {
        CsvFileStats::Error { message } => assert_eq!(message, "file has fewer than the configured 3 header records"),
        CsvFileStats::Ready { .. } => panic!("expected an error"),
    }
    let _unused = PathBuf::new();
}

#[test]
fn csv_files_are_recognised_by_extension_in_any_case() {
    assert!(is_csv("configs/heroes.csv"));
    assert!(is_csv("configs/ITEMS.CSV"));
    assert!(is_csv("mixed.CsV"));
    assert!(!is_csv("notes.txt"));
    assert!(!is_csv("configs/.csv"));
    assert!(!is_csv("csv"));
    assert!(!is_csv("archive.csv.bak"));
}

#[test]
fn scanned_files_are_sorted_by_lower_cased_relative_path() {
    let entry = |relative: &str| CsvFileEntry {
        absolute_path: PathBuf::from("/workspace").join(relative),
        relative_path: relative.to_owned(),
        file_name: relative.rsplit('/').next().unwrap().to_owned(),
    };
    let files = vec![
        entry("b/X.csv"),
        entry("a.csv"),
        entry("B/y.csv"),
        entry("A.csv"),
    ];
    let sorted = sort_workspace_files(files);
    let paths: Vec<&str> = sorted.iter().map(|file| file.relative_path.as_str()).collect();
    assert_eq!(paths, vec!["a.csv", "A.csv", "b/X.csv", "B/y.csv"]);
}

fn file_entry(relative: &str) -> CsvFileEntry {
    let relative_path = PathBuf::from(relative);
    CsvFileEntry {
        absolute_path: PathBuf::from("C:/workspace").join(&relative_path),
        file_name: relative_path
            .file_name()
            .unwrap()
            .to_string_lossy()
            .into_owned(),
        relative_path: relative.to_owned(),
    }
}

fn tree_labels(rows: &[WorkspaceTreeRow]) -> Vec<String> {
    rows.iter()
        .map(|row| match row {
            WorkspaceTreeRow::Directory { name, .. } => format!("D:{name}"),
            WorkspaceTreeRow::File { entry, .. } => format!("F:{}", entry.file_name),
        })
        .collect()
}

#[test]
fn tree_rows_only_include_children_of_expanded_directories() {
    let files = vec![
        file_entry("root.csv"),
        file_entry("configs/hero/heroes.csv"),
        file_entry("configs/items.csv"),
    ];

    let collapsed = visible_tree_rows(&files, &Vec::new(), false);
    assert_eq!(tree_labels(&collapsed), vec!["D:configs", "F:root.csv"]);

    let expanded = vec!["configs".to_owned()];
    let rows = visible_tree_rows(&files, &expanded, false);
    assert_eq!(
        tree_labels(&rows),
        vec!["D:configs", "D:hero", "F:items.csv", "F:root.csv"]
    );
}

#[test]
fn search_tree_can_expand_all_ancestors() {
    let files = vec![file_entry("configs/hero/heroes.csv")];

    let rows = visible_tree_rows(&files, &Vec::new(), true);

    assert_eq!(
        tree_labels(&rows),
        vec!["D:configs", "D:hero", "F:heroes.csv"]
    );
}

#[test]
fn tree_rows_sort_names_without_case_and_carry_paths_and_depths() {
    let files = vec![
        file_entry("b/Zeta.csv"),
        file_entry("B/alpha.csv"),
        file_entry("a/x/deep.csv"),
        file_entry("beta.csv"),
        file_entry("Alpha.csv"),
    ];
    let expanded = vec!["a".to_owned(), "a/x".to_owned(), "b".to_owned()];
    let rows = visible_tree_rows(&files, &expanded, false);
    assert_eq!(
        tree_labels(&rows),
        vec!["D:a", "D:x", "F:deep.csv", "D:B", "D:b", "F:Zeta.csv", "F:Alpha.csv", "F:beta.csv"]
    );
    match &rows[1] {
        WorkspaceTreeRow::Directory { relative_path, depth, expanded, .. } => {
            assert_eq!(relative_path, "a/x");
            assert_eq!(*depth, 1);
            assert!(*expanded);
        }
        WorkspaceTreeRow::File { .. } => panic!("expected a directory"),
    }
    match &rows[3] {
        WorkspaceTreeRow::Directory { relative_path, expanded, .. } => {
            assert_eq!(relative_path, "B");
            assert!(!*expanded);
        }
        WorkspaceTreeRow::File { .. } => panic!("expected a directory"),
    }
    match &rows[2] {
        WorkspaceTreeRow::File { entry, depth } => {
            assert_eq!(entry.relative_path, "a/x/deep.csv");
            assert_eq!(*depth, 2);
        }
        WorkspaceTreeRow::Directory { .. } => panic!("expected a file"),
    }
}
