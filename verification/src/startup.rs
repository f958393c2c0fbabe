use vstd::prelude::*;

use std::path::PathBuf;

verus! {

pub enum StartupDecision {
    OpenWorkspace(PathBuf),
    ChooseWorkspace,
}

/// Why a workspace folder cannot be opened.
pub enum StartupError {
    NotFound(PathBuf),
    NotDirectory(PathBuf),
    Unreadable { path: PathBuf, source: std::io::Error },
}

/// Decides what to open at startup from the checks of the folders: a folder named on the command
/// line is opened, or its error reported; else the most recent workspace is reopened when its
/// check passed; else the user is asked to choose one. A checked folder is its canonical path,
/// or the reason it cannot be opened.
pub fn resolve_startup(
    explicit_path: Option<Result<PathBuf, StartupError>>,
    recent_path: Option<Result<PathBuf, StartupError>>,
) -> (r: Result<StartupDecision, StartupError>)
    ensures
        match explicit_path {
            Some(Ok(p)) => r matches Ok(StartupDecision::OpenWorkspace(q)) && q == p,
            Some(Err(e)) => r matches Err(f) && f == e,
            None => match recent_path {
                Some(Ok(p)) => r matches Ok(StartupDecision::OpenWorkspace(q)) && q == p,
                _ => r matches Ok(StartupDecision::ChooseWorkspace),
            },
        },
{
    if let Some(checked) = explicit_path {
        return match checked {
            Ok(path) => Ok(StartupDecision::OpenWorkspace(path)),
            Err(error) => Err(error),
        };
    }
    match recent_path {
        Some(Ok(path)) => Ok(StartupDecision::OpenWorkspace(path)),
        _ => Ok(StartupDecision::ChooseWorkspace),
    }
}

} // verus!
