//! The branch that a build is for.

use crate::error::GarnixError;
use crate::text::{strip, stripped, without_prefix, Strip};
use vstd::prelude::*;
use vstd::string::StringExecFns;

verus! {

/// What was found when the repository of the working directory was opened
/// and its `HEAD` was read.
#[derive(Debug, Clone)]
pub enum RepositoryState {
    /// No repository could be opened; `reason` is what git said.
    NoRepository { reason: String },
    /// `HEAD` resolves to a reference with this short name and this full
    /// name; either is missing where it is not valid UTF-8.
    Head { shorthand: Option<String>, name: Option<String> },
    /// `HEAD` does not resolve. `head_file` is what the file `.git/HEAD`
    /// holds, where it could be read.
    NoHead { head_file: Option<String> },
}

/// The branch that a repository is on, or `Err` with the reason for which
/// there is none.
///
/// The short name of `HEAD` is the branch. Without one, the full name stands
/// in, if it is a branch's (`refs/heads/...`). Where `HEAD` does not resolve,
/// the branch is read from the file `.git/HEAD`, which names a branch as
/// `ref: refs/heads/...`, with white space around it.
pub open spec fn branch_of(state: RepositoryState) -> Result<Seq<char>, Seq<char>> {
    match state {
        RepositoryState::NoRepository { reason } => Err(reason@),
        RepositoryState::Head { shorthand: Some(short), .. } => Ok(short@),
        RepositoryState::Head { shorthand: None, name: Some(full) } => {
            if "refs/heads/"@.is_prefix_of(full@) {
                Ok(full@.skip("refs/heads/"@.len() as int))
            } else {
                Err("Could not extract branch name from HEAD"@)
            }
        },
        RepositoryState::Head { shorthand: None, name: None } => Err(
            "Could not get branch name from HEAD"@,
        ),
        RepositoryState::NoHead { head_file: Some(content) } => {
            let line = stripped(content@, Strip::Whitespace);
            if "ref: refs/heads/"@.is_prefix_of(line) {
                Ok(line.skip("ref: refs/heads/"@.len() as int))
            } else {
                Err("HEAD is not pointing to a branch"@)
            }
        },
        RepositoryState::NoHead { head_file: None } => Err("Could not read .git/HEAD"@),
    }
}

/// Whether `found` is what `wanted` says: the branch, or the git error with
/// the reason.
pub open spec fn agrees(found: Result<String, GarnixError>, wanted: Result<Seq<char>, Seq<char>>) -> bool {
    match wanted {
        Ok(branch) => found matches Ok(name) && name@ == branch,
        Err(reason) => found matches Err(GarnixError::Git(detail)) && detail@ == reason,
    }
}

/// The branch that the repository is on.
pub fn get_current_branch(state: &RepositoryState) -> (branch: Result<String, GarnixError>)
    ensures
        agrees(branch, branch_of(*state)),
{
    match state {
        RepositoryState::NoRepository { reason } => Err(GarnixError::Git(reason.clone())),
        RepositoryState::Head { shorthand, name } => {
            if let Some(short) = shorthand {
                Ok(short.clone())
            } else if let Some(full) = name {
                match without_prefix(full.as_str(), "refs/heads/") {
                    Some(branch) => Ok(branch),
                    None => Err(
                        GarnixError::Git(
                            String::from_str("Could not extract branch name from HEAD"),
                        ),
                    ),
                }
            } else {
                Err(GarnixError::Git(String::from_str("Could not get branch name from HEAD")))
            }
        },
        RepositoryState::NoHead { head_file } => match head_file {
            Some(content) => {
                let line = strip(content.as_str(), Strip::Whitespace);
                match without_prefix(line.as_str(), "ref: refs/heads/") {
                    Some(branch) => Ok(branch),
                    None => Err(
                        GarnixError::Git(String::from_str("HEAD is not pointing to a branch")),
                    ),
                }
            },
            None => Err(GarnixError::Git(String::from_str("Could not read .git/HEAD"))),
        },
    }
}

/// Whether a repository could be opened.
pub fn is_git_repository(state: &RepositoryState) -> (inside: bool)
    ensures
        inside == !(*state is NoRepository),
{
    match state {
        RepositoryState::NoRepository { .. } => false,
        _ => true,
    }
}

/// The branch to build for: the one asked for, or else the one that the
/// repository is on. Outside a repository there is none.
pub fn get_branch_or_override(override_branch: Option<String>, state: &RepositoryState) -> (branch:
    Result<String, GarnixError>)
    ensures
        match override_branch {
            Some(wanted) => branch matches Ok(name) && name@ == wanted@,
            None => if *state is NoRepository {
                branch == Err::<String, GarnixError>(GarnixError::NotInGitRepo)
            } else {
                agrees(branch, branch_of(*state))
            },
        },
{
    match override_branch {
        Some(branch) => Ok(branch),
        None => {
            if !is_git_repository(state) {
                return Err(GarnixError::NotInGitRepo);
            }
            get_current_branch(state)
        },
    }
}

} // verus!
