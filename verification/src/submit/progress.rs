//! Progress reporting for submission runs: phases, push status and the
//! callback interface that front ends implement.

use crate::error::RyuError;
use crate::types::PullRequest;
use vstd::prelude::*;

verus! {

/// The phase a submission run is in.
#[derive(Debug, Clone, Copy, PartialEq, Eq, Structural)]
pub enum Phase {
    /// Analyzing the change graph.
    Analyzing,
    /// Planning what to submit.
    Planning,
    /// Pushing bookmarks to the remote.
    Pushing,
    /// Creating new pull requests.
    CreatingPrs,
    /// Updating existing pull requests' base branches.
    UpdatingPrs,
    /// Adding or updating stack comments.
    AddingComments,
    /// Submission complete.
    Complete,
}

/// The status of one bookmark push.
#[derive(Debug, Clone, PartialEq, Eq)]
pub enum PushStatus {
    /// Push started.
    Started,
    /// Push succeeded.
    Success,
    /// Bookmark already in sync with the remote.
    AlreadySynced,
    /// Push failed, with a message.
    Failed(String),
}

/// Receives structured progress events during a submission run.  Events of a
/// phase are delivered before the next phase is announced.
pub trait ProgressCallback {
    /// A new phase begins.
    fn on_phase(&mut self, phase: Phase);

    /// A bookmark push changed status.
    fn on_bookmark_push(&mut self, bookmark: &str, status: PushStatus);

    /// A pull request was created.
    fn on_pr_created(&mut self, bookmark: &str, pr: &PullRequest);

    /// A pull request was updated.
    fn on_pr_updated(&mut self, bookmark: &str, pr: &PullRequest);

    /// A non-fatal error occurred.
    fn on_error(&mut self, error: &RyuError);

    /// A free-form status message.
    fn on_message(&mut self, message: &str);
}

/// A progress callback that ignores every event.
pub struct NoopProgress;

impl ProgressCallback for NoopProgress {
    fn on_phase(&mut self, phase: Phase) {
    }

    fn on_bookmark_push(&mut self, bookmark: &str, status: PushStatus) {
    }

    fn on_pr_created(&mut self, bookmark: &str, pr: &PullRequest) {
    }

    fn on_pr_updated(&mut self, bookmark: &str, pr: &PullRequest) {
    }

    fn on_error(&mut self, error: &RyuError) {
    }

    fn on_message(&mut self, message: &str) {
    }
}

} // verus!
