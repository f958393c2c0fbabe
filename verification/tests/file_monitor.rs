use std::collections::HashSet;

use game_config_edit::file_monitor::{WatchEvent, WorkspaceChangeBatch};

#[test]
fn change_events_request_refresh_and_collect_paths() {
    let mut batch = WorkspaceChangeBatch::new();
    batch.record(WatchEvent::Change(vec!["configs/new.csv".to_owned()]));
    batch.record(WatchEvent::Change(vec!["configs/heroes.csv".to_owned()]));

    assert!(batch.refresh_required());
    assert_eq!(
        batch.paths.iter().cloned().collect::<HashSet<_>>(),
        HashSet::from(["configs/new.csv".to_owned(), "configs/heroes.csv".to_owned()])
    );
    assert!(batch.errors.is_empty());
}

#[test]
fn access_events_do_not_trigger_a_refresh() {
    let mut batch = WorkspaceChangeBatch::new();
    batch.record(WatchEvent::Access);

    assert!(!batch.refresh_required());
    assert!(batch.paths.is_empty());
}

#[test]
fn repeated_paths_are_kept_once_and_errors_are_collected() {
    let mut batch = WorkspaceChangeBatch::new();
    batch.record(WatchEvent::Change(vec!["a.csv".to_owned(), "a.csv".to_owned()]));
    batch.record(WatchEvent::Failed("watch lost".to_owned()));

    assert_eq!(batch.paths, vec!["a.csv".to_owned()]);
    assert_eq!(batch.errors, vec!["watch lost".to_owned()]);
}

#[test]
fn a_burst_collects_the_changed_paths_and_the_errors_in_order() {
    let mut batch = WorkspaceChangeBatch::new();
    batch.record(WatchEvent::Access);
    batch.record(WatchEvent::Failed("first".to_owned()));
    batch.record(WatchEvent::Change(vec!["a.csv".to_owned(), "b.csv".to_owned()]));
    batch.record(WatchEvent::Failed("second".to_owned()));
    batch.record(WatchEvent::Change(vec!["b.csv".to_owned()]));

    assert!(batch.refresh_required());
    assert_eq!(batch.paths, vec!["a.csv".to_owned(), "b.csv".to_owned()]);
    assert_eq!(batch.errors, vec!["first".to_owned(), "second".to_owned()]);
}

#[test]
fn a_burst_of_accesses_and_errors_requires_no_refresh() {
    let mut batch = WorkspaceChangeBatch::new();
    batch.record(WatchEvent::Access);
    batch.record(WatchEvent::Failed("lost".to_owned()));

    assert!(!batch.refresh_required());
    assert!(batch.paths.is_empty());
    assert_eq!(batch.errors, vec!["lost".to_owned()]);
}
