use game_config_edit::platform::{Platform, RevealError, reveal_command, reveal_label};

#[test]
fn explorer_receives_the_selection_as_one_argument() {
    let command = match reveal_command(Platform::Windows, r"C:\configs with spaces\heroes.csv") {
        Ok(command) => command,
        Err(_) => panic!("Explorer is supported"),
    };

    assert_eq!(command.program, "explorer.exe");
    assert_eq!(
        command.arguments,
        vec![r"/select,C:\configs with spaces\heroes.csv".to_owned()]
    );
}

#[test]
fn finder_receives_a_separate_reveal_argument() {
    let command = match reveal_command(Platform::MacOs, "/tmp/configs with spaces/heroes.csv") {
        Ok(command) => command,
        Err(_) => panic!("Finder is supported"),
    };

    assert_eq!(command.program, "open");
    assert_eq!(
        command.arguments,
        vec![
            "-R".to_owned(),
            "/tmp/configs with spaces/heroes.csv".to_owned()
        ]
    );
}

#[test]
fn other_platforms_have_no_file_manager_integration() {
    let result = reveal_command(Platform::Other, "/tmp/heroes.csv");
    assert!(matches!(result, Err(RevealError::Unsupported)));
    assert_eq!(
        RevealError::Unsupported.message(),
        "the current platform has no supported file manager integration"
    );
}

#[test]
fn reveal_labels_name_the_file_manager() {
    assert_eq!(reveal_label(Platform::Windows), "Show in Explorer");
    assert_eq!(reveal_label(Platform::MacOs), "Show in Finder");
    assert_eq!(reveal_label(Platform::Other), "Show in file manager");
}
