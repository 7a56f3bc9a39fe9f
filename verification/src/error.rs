//! The errors of the library.

use vstd::prelude::*;
use vstd::string::StringExecFns;

verus! {

/// What can go wrong while resolving and building attributes. Errors that
/// come from collaborators (git, YAML, JSON, I/O) carry their message.
#[derive(Debug, Clone, PartialEq, Eq)]
pub enum GarnixError {
    Git(String),
    Yaml(String),
    Json(String),
    Io(String),
    NotInGitRepo,
    NoFlakeFound,
    NixCommand(String),
    PatternMatch(String),
    Config(String),
}

impl GarnixError {
    /// The text shown to the user for this error.
    pub open spec fn message_text(self) -> Seq<char> {
        match self {
            GarnixError::Git(detail) => "Git error: "@ + detail@,
            GarnixError::Yaml(detail) => "YAML parsing error: "@ + detail@,
            GarnixError::Json(detail) => "JSON parsing error: "@ + detail@,
            GarnixError::Io(detail) => "IO error: "@ + detail@,
            GarnixError::NotInGitRepo => "Not in a git repository"@,
            GarnixError::NoFlakeFound => "No flake.nix found"@,
            GarnixError::NixCommand(detail) => "Nix command failed: "@ + detail@,
            GarnixError::PatternMatch(detail) => "Pattern matching error: "@ + detail@,
            GarnixError::Config(detail) => "Configuration error: "@ + detail@,
        }
    }

    /// Renders the error for the user.
    pub fn message(&self) -> (text: String)
        ensures
            text@ == self.message_text(),
    {
        match self {
            GarnixError::Git(detail) => String::from_str("Git error: ").concat(detail.as_str()),
            GarnixError::Yaml(detail) => String::from_str("YAML parsing error: ").concat(
                detail.as_str(),
            ),
            GarnixError::Json(detail) => String::from_str("JSON parsing error: ").concat(
                detail.as_str(),
            ),
            GarnixError::Io(detail) => String::from_str("IO error: ").concat(detail.as_str()),
            GarnixError::NotInGitRepo => String::from_str("Not in a git repository"),
            GarnixError::NoFlakeFound => String::from_str("No flake.nix found"),
            GarnixError::NixCommand(detail) => String::from_str("Nix command failed: ").concat(
                detail.as_str(),
            ),
            GarnixError::PatternMatch(detail) => String::from_str(
                "Pattern matching error: ",
            ).concat(detail.as_str()),
            GarnixError::Config(detail) => String::from_str("Configuration error: ").concat(
                detail.as_str(),
            ),
        }
    }
}

} // verus!
