use game_config_edit::csv_document::CsvDelimiter;
use game_config_edit::settings::{FilePreferences, Settings};

#[test]
fn file_preferences_are_scoped_by_workspace_and_relative_path() {
    let mut settings = Settings::default();
    let workspace = "C:/configs";
    let relative = "heroes/basic.csv";
    let expected = FilePreferences { header_rows: 3, delimiter: Some(CsvDelimiter::Pipe) };

    settings.set_file_preferences(workspace, relative, expected);

    assert_eq!(settings.file_preferences(workspace, relative), expected);
    assert_eq!(settings.file_preferences(workspace, "items.csv"), FilePreferences::default());
    assert_eq!(settings.file_preferences("C:/other", relative), FilePreferences::default());
}

#[test]
fn stored_header_counts_are_normalized() {
    let mut settings = Settings::default();
    settings.set_file_preferences("w", "a.csv", FilePreferences { header_rows: 9, delimiter: Some(CsvDelimiter::Semicolon) });

    assert_eq!(
        settings.file_preferences("w", "a.csv"),
        FilePreferences { header_rows: 2, delimiter: Some(CsvDelimiter::Semicolon) }
    );
    settings.set_file_preferences("w", "a.csv", FilePreferences { header_rows: 5, delimiter: None });
    assert_eq!(settings.file_preferences("w", "a.csv"), FilePreferences { header_rows: 5, delimiter: None });
    assert_eq!(settings.workspaces.len(), 1);
    assert_eq!(settings.workspaces[0].1.files.len(), 1);
}

#[test]
fn a_store_reports_the_file_it_was_made_with() {
    let store = game_config_edit::settings::SettingsStore::at(std::path::PathBuf::from("config/settings.json"));

    assert_eq!(store.path(), std::path::Path::new("config/settings.json"));
}

#[test]
fn preferences_are_keyed_by_path_components() {
    let mut settings = Settings::default();
    settings.set_file_preferences("/work/", "configs//heroes.csv", FilePreferences { header_rows: 4, delimiter: Some(CsvDelimiter::Semicolon) });

    let stored = settings.file_preferences("/work", "configs/heroes.csv");
    assert_eq!(stored, FilePreferences { header_rows: 4, delimiter: Some(CsvDelimiter::Semicolon) });

    settings.set_file_preferences("/work", "configs/./heroes.csv", FilePreferences { header_rows: 3, delimiter: None });
    assert_eq!(settings.workspaces.len(), 1);
    assert_eq!(settings.workspaces[0].1.files.len(), 1);
    assert_eq!(settings.file_preferences("/work/", "configs/heroes.csv").header_rows, 3);
}
