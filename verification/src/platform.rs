use vstd::prelude::*;

use crate::text::{push_str, string_of};

verus! {

/// The operating systems whose file managers the editor knows.
#[derive(Clone, Copy, Debug, PartialEq, Eq, Structural)]
pub enum Platform {
    Windows,
    MacOs,
    Other,
}

/// The label of the menu entry that shows a file in the file manager.
pub open spec fn reveal_label_of(platform: Platform) -> Seq<char> {
    match platform {
        Platform::Windows => "Show in Explorer"@,
        Platform::MacOs => "Show in Finder"@,
        Platform::Other => "Show in file manager"@,
    }
}

/// The label of the menu entry that shows a file in the file manager of the platform.
pub fn reveal_label(platform: Platform) -> (r: &'static str)
    ensures
        r@ == reveal_label_of(platform),
{
    match platform {
        Platform::Windows => "Show in Explorer",
        Platform::MacOs => "Show in Finder",
        Platform::Other => "Show in file manager",
    }
}

/// A program to start, with its arguments.
pub struct RevealCommand {
    pub program: &'static str,
    pub arguments: Vec<String>,
}

/// Why a file cannot be shown in a file manager.
#[derive(Clone, Copy, Debug, PartialEq, Eq, Structural)]
pub enum RevealError {
    Unsupported,
}

impl RevealError {
    /// The message of the error.
    pub fn message(self) -> (r: &'static str)
        ensures
            r@ == "the current platform has no supported file manager integration"@,
    {
        "the current platform has no supported file manager integration"
    }
}

/// The command that shows a file selected in the file manager: Explorer gets the selection as
/// one argument, Finder a separate reveal flag before the path; other platforms have none.
pub fn reveal_command(platform: Platform, path: &str) -> (r: Result<RevealCommand, RevealError>)
    ensures
        match platform {
            Platform::Windows => r matches Ok(c) && c.program@ == "explorer.exe"@ && c.arguments@.len() == 1
                && c.arguments@[0]@ == "/select,"@ + path@,
            Platform::MacOs => r matches Ok(c) && c.program@ == "open"@ && c.arguments@.len() == 2
                && c.arguments@[0]@ == "-R"@ && c.arguments@[1]@ == path@,
            Platform::Other => r == Err::<RevealCommand, RevealError>(RevealError::Unsupported),
        },
{
    match platform {
        Platform::Windows => {
            let mut selection: Vec<char> = Vec::new();
            push_str(&mut selection, "/select,");
            push_str(&mut selection, path);
            let mut arguments: Vec<String> = Vec::new();
            arguments.push(string_of(&selection));
            Ok(RevealCommand { program: "explorer.exe", arguments })
        },
        Platform::MacOs => {
            let mut arguments: Vec<String> = Vec::new();
            arguments.push("-R".to_owned());
            arguments.push(path.to_owned());
            Ok(RevealCommand { program: "open", arguments })
        },
        Platform::Other => Err(RevealError::Unsupported),
    }
}

} // verus!
