use std::path::PathBuf;

use game_config_edit::startup::{resolve_startup, StartupDecision, StartupError};

#[test]
fn missing_recent_workspace_falls_back_to_picker() {
    let recent = Err(StartupError::NotFound(PathBuf::from("missing-workspace")));

    let decision = resolve_startup(None, Some(recent)).ok().unwrap();

    assert!(matches!(decision, StartupDecision::ChooseWorkspace));
}

#[test]
fn missing_explicit_workspace_is_an_error() {
    let explicit = Err(StartupError::NotFound(PathBuf::from("missing-workspace")));

    let error = resolve_startup(Some(explicit), None).err().unwrap();

    assert!(matches!(error, StartupError::NotFound(_)));
}

#[test]
fn explicit_workspace_is_preferred_to_the_recent_one() {
    let decision = resolve_startup(Some(Ok(PathBuf::from("/a"))), Some(Ok(PathBuf::from("/b")))).ok().unwrap();

    assert!(matches!(decision, StartupDecision::OpenWorkspace(path) if path == PathBuf::from("/a")));
    let reopened = resolve_startup(None, Some(Ok(PathBuf::from("/b")))).ok().unwrap();
    assert!(matches!(reopened, StartupDecision::OpenWorkspace(path) if path == PathBuf::from("/b")));
    assert!(matches!(resolve_startup(None, None).ok().unwrap(), StartupDecision::ChooseWorkspace));
}
