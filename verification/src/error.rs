//! Error taxonomy shared by the whole library.

use vstd::prelude::*;

verus! {

/// The kinds of failure the library reports.  Comment failures during
/// execution are recorded in `SubmissionResult::errors` instead of being
/// returned, so a `RyuError` always names a fatal condition.
#[derive(Debug, Clone, PartialEq, Eq)]
pub enum RyuError {
    /// The path is not a valid working copy.
    NotAVcsWorkspace,
    /// No remote URL could be classified as a supported platform.
    NoSupportedRemotes,
    /// The requested remote name does not exist.
    RemoteNotFound(String),
    /// The submit target does not exist in the change graph.
    BookmarkNotFound(String),
    /// Missing or rejected credentials.
    Auth(String),
    /// Transport or API failure from GitHub.
    GitHubApi(String),
    /// Transport or API failure from GitLab.
    GitLabApi(String),
    /// Platform failure not specific to one backend.
    Platform(String),
    /// Failure from the version control adapter (push rejected, query failed).
    VcsCommand(String),
    /// Malformed remote URL or API response.
    Parse(String),
    /// A violated internal invariant, such as a dangling parent reference.
    Internal(String),
}

impl RyuError {
    /// A short label naming the error kind, for rendering by callers.
    pub fn kind_label(&self) -> (r: &'static str)
        ensures
            r@.len() > 0,
    {
        proof {
            reveal_strlit("not a vcs workspace");
            reveal_strlit("no supported remotes");
            reveal_strlit("remote not found");
            reveal_strlit("bookmark not found");
            reveal_strlit("auth");
            reveal_strlit("github api");
            reveal_strlit("gitlab api");
            reveal_strlit("platform");
            reveal_strlit("vcs command");
            reveal_strlit("parse");
            reveal_strlit("internal");
        }
        match self {
            RyuError::NotAVcsWorkspace => "not a vcs workspace",
            RyuError::NoSupportedRemotes => "no supported remotes",
            RyuError::RemoteNotFound(_) => "remote not found",
            RyuError::BookmarkNotFound(_) => "bookmark not found",
            RyuError::Auth(_) => "auth",
            RyuError::GitHubApi(_) => "github api",
            RyuError::GitLabApi(_) => "gitlab api",
            RyuError::Platform(_) => "platform",
            RyuError::VcsCommand(_) => "vcs command",
            RyuError::Parse(_) => "parse",
            RyuError::Internal(_) => "internal",
        }
    }
}

} // verus!
