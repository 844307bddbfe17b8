//! Platform services: the unified pull-request interface and remote-URL
//! classification.

pub mod detection;

pub use detection::detect_platform;
pub use detection::detect_platform_with_overrides;
pub use detection::parse_repo_info;
pub use detection::parse_repo_info_with_overrides;

use crate::error::RyuError;
use crate::types::PlatformConfig;
use crate::types::PrComment;
use crate::types::PullRequest;
use vstd::prelude::*;

verus! {

/// The pull-request operations of a hosting platform, the same for GitHub
/// and GitLab.  Implementations talk to a remote service, so nothing is
/// promised of the results: the verified callers state what holds whatever
/// comes back.
pub trait PlatformService {
    /// Finds the open pull request whose head is `head_branch`, if any.
    fn find_existing_pr(&mut self, head_branch: &str) -> Result<Option<PullRequest>, RyuError>;

    /// Creates a pull request from `head` onto `base`.
    fn create_pr(&mut self, head: &str, base: &str, title: &str) -> Result<PullRequest, RyuError>;

    /// Moves a pull request onto a new base branch.
    fn update_pr_base(&mut self, pr_number: u64, new_base: &str) -> Result<PullRequest, RyuError>;

    /// Lists the discussion comments of a pull request.
    fn list_pr_comments(&mut self, pr_number: u64) -> Result<Vec<PrComment>, RyuError>;

    /// Adds a discussion comment to a pull request.
    fn create_pr_comment(&mut self, pr_number: u64, body: &str) -> Result<(), RyuError>;

    /// Rewrites an existing discussion comment.
    fn update_pr_comment(&mut self, pr_number: u64, comment_id: u64, body: &str) -> Result<
        (),
        RyuError,
    >;

    /// The configuration this service was created for.
    fn config(&self) -> &PlatformConfig;
}

} // verus!
