use std::path::PathBuf;

use game_config_edit::search::{
    compact_snippet, find_cell_matches, find_text_matches, rank_files, CellSearchMatch,
    GlobalSearchEvent, WorkspaceSearch, GLOBAL_BATCH_SIZE, MAX_GLOBAL_MATCHES,
};
use game_config_edit::workspace::CsvFileEntry;

fn entry(path: &str) -> CsvFileEntry {
    CsvFileEntry {
        absolute_path: PathBuf::from(path),
        relative_path: path.to_owned(),
        file_name: PathBuf::from(path).file_name().unwrap().to_string_lossy().into_owned(),
    }
}

#[test]
fn fuzzy_file_ranking_supports_documented_queries() {
    let files = vec![entry("test/hero_basic_test.csv"), entry("hero_basic.csv")];

    for query in ["hero_basic", "hbasic", "basic"] {
        assert_eq!(rank_files(&files, query, 10)[0].file_name, "hero_basic.csv");
    }
}

#[test]
fn text_matches_report_utf16_offsets_and_physical_lines() {
    let matches = find_text_matches("one\n😀 Hero\nhero", "hero", false);

    assert_eq!(matches.len(), 2);
    assert_eq!(matches[0].line_number, 2);
    assert_eq!(matches[0].start_utf16, 7);
    assert_eq!(matches[1].line_number, 3);
}

#[test]
fn table_search_skips_configured_header_records() {
    let records = vec![vec!["name".to_owned()], vec!["Hero".to_owned()], vec!["heroine".to_owned()]];

    assert_eq!(
        find_cell_matches(&records, 1, "hero", false),
        vec![CellSearchMatch { row_index: 1, column_index: 0 }, CellSearchMatch { row_index: 2, column_index: 0 }]
    );
}

#[test]
fn case_sensitive_search_respects_case_and_empty_queries_find_nothing() {
    assert_eq!(find_text_matches("Hero hero", "hero", true).len(), 1);
    assert_eq!(find_text_matches("Hero hero", "hero", true)[0].start_utf16, 5);
    assert_eq!(find_text_matches("Hero hero", "hero", true)[0].end_utf16, 9);
    assert!(find_text_matches("anything", "", false).is_empty());
    let records = vec![vec!["a".to_owned(), "b".to_owned()]];
    assert!(find_cell_matches(&records, 0, "", false).is_empty());
}

#[test]
fn ranking_limits_and_filters_results() {
    let files = vec![entry("a/zeta.csv"), entry("b/alpha.csv"), entry("c/beta.csv")];

    assert_eq!(rank_files(&files, "", 2).len(), 2);
    assert!(rank_files(&files, "qqq", 10).is_empty());
    let ranked = rank_files(&files, " ALPHA ", 10);
    assert_eq!(ranked.len(), 1);
    assert_eq!(ranked[0].relative_path, "b/alpha.csv");
}

/// Feeds the files' contents line by line (each line with its line feed, as `read_line` gives
/// it) to a search, as the application does while reading them; a file without contents stands
/// for one that could not be opened.
fn search_contents(files: Vec<(CsvFileEntry, Option<&str>)>, query: &str, case_sensitive: bool) -> Vec<GlobalSearchEvent> {
    let mut events = Vec::new();
    let mut search = WorkspaceSearch::new(query.to_owned(), case_sensitive);
    'files: for (entry, contents) in files {
        let Some(contents) = contents else {
            search.file_failed();
            continue;
        };
        search.start_file();
        for line in contents.split_inclusive('\n') {
            let step = search.next_line(&entry, line);
            if let Some(batch) = step.send {
                events.push(GlobalSearchEvent::Batch(batch));
            }
            if step.stop {
                break 'files;
            }
        }
    }
    events.extend(search.finish(false));
    events
}

#[test]
fn global_search_streams_physical_line_results() {
    let directory = tempfile::tempdir().unwrap();
    let path = directory.path().join("heroes.csv");
    let files = vec![(
        CsvFileEntry {
            absolute_path: path,
            relative_path: "heroes.csv".to_owned(),
            file_name: "heroes.csv".to_owned(),
        },
        Some("id,name\n1,Arthur\n2,Merlin\n"),
    )];

    let mut events = search_contents(files, "merlin", false).into_iter();

    let Some(GlobalSearchEvent::Batch(matches)) = events.next() else {
        panic!("expected a result batch");
    };
    assert_eq!(matches[0].line_number, 3);
    assert_eq!(matches[0].snippet, "2,Merlin");
    assert!(matches!(
        events.next().unwrap(),
        GlobalSearchEvent::Finished {
            cancelled: false,
            truncated: false,
            warning_count: 0,
        }
    ));
}

#[test]
fn snippets_collapse_white_space_and_are_cut_after_160_characters() {
    assert_eq!(compact_snippet("  2,\tMerlin  the\u{3000}wise \r\n"), "2, Merlin the wise");
    assert_eq!(compact_snippet(" \n"), "");
    let long = "x".repeat(200);
    let snippet = compact_snippet(&long);
    assert_eq!(snippet, format!("{}...", "x".repeat(160)));
    assert_eq!(compact_snippet(&"y".repeat(160)), "y".repeat(160));
}

#[test]
fn unreadable_files_are_counted_as_warnings() {
    let files = vec![(entry("no/such/file.csv"), None)];
    let events = search_contents(files, "x", false);
    assert_eq!(events.len(), 1);
    assert!(matches!(
        events[0],
        GlobalSearchEvent::Finished {
            cancelled: false,
            truncated: false,
            warning_count: 1,
        }
    ));
}

#[test]
fn full_batches_are_handed_on_and_the_limit_stops_the_search() {
    let mut search = WorkspaceSearch::new("hit".to_owned(), true);
    let file = entry("a.csv");
    search.start_file();
    let mut batches = 0;
    let mut stopped_at = None;
    for number in 1..=2000 {
        let step = search.next_line(&file, "a hit\n");
        if let Some(batch) = step.send {
            assert_eq!(batch.len(), GLOBAL_BATCH_SIZE);
            assert_eq!(batch[GLOBAL_BATCH_SIZE - 1].line_number, number);
            batches += 1;
        }
        if step.stop {
            stopped_at = Some(number);
            break;
        }
    }
    assert_eq!(stopped_at, Some(MAX_GLOBAL_MATCHES));
    assert_eq!(batches, MAX_GLOBAL_MATCHES / GLOBAL_BATCH_SIZE);
    let events = search.finish(true);
    assert_eq!(events.len(), 2);
    let GlobalSearchEvent::Batch(rest) = &events[0] else {
        panic!("expected the remaining matches");
    };
    assert_eq!(rest.len(), MAX_GLOBAL_MATCHES % GLOBAL_BATCH_SIZE);
    assert!(matches!(
        events[1],
        GlobalSearchEvent::Finished {
            cancelled: true,
            truncated: true,
            warning_count: 0,
        }
    ));
}

#[test]
fn case_sensitive_search_skips_other_cases() {
    let mut search = WorkspaceSearch::new("Hit".to_owned(), true);
    let file = entry("a.csv");
    search.start_file();
    assert!(search.next_line(&file, "a hit\n").send.is_none());
    assert_eq!(search.match_count, 0);
    search.next_line(&file, "a Hit\n");
    assert_eq!(search.match_count, 1);
    assert_eq!(search.batch[0].line_number, 2);
}

#[test]
fn ranked_files_keep_their_absolute_paths() {
    let files = vec![
        CsvFileEntry {
            absolute_path: PathBuf::from("/work/b/hero.csv"),
            relative_path: "b/hero.csv".to_owned(),
            file_name: "hero.csv".to_owned(),
        },
        CsvFileEntry {
            absolute_path: PathBuf::from("/work/a/hero.csv"),
            relative_path: "a/hero.csv".to_owned(),
            file_name: "hero.csv".to_owned(),
        },
    ];

    let ranked = rank_files(&files, "hero", 10);

    assert_eq!(ranked.len(), 2);
    assert_eq!(ranked[0].absolute_path, PathBuf::from("/work/a/hero.csv"));
    assert_eq!(ranked[1].absolute_path, PathBuf::from("/work/b/hero.csv"));
}
