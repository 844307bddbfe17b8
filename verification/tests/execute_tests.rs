//! Executor behavior against a mock platform: phase order, partial failure,
//! idempotent re-submission and stack comments.

use jj_ryu::error::RyuError;
use jj_ryu::platform::PlatformService;
use jj_ryu::strmap::StrMap;
use jj_ryu::submit::build_stack_comment_data;
use jj_ryu::submit::execute_submission;
use jj_ryu::submit::plan::plan_from_existing_prs;
use jj_ryu::submit::NoopProgress;
use jj_ryu::submit::SubmissionAnalysis;
use jj_ryu::submit::SubmissionResult;
use jj_ryu::types::Bookmark;
use jj_ryu::types::GitRemote;
use jj_ryu::types::LogEntry;
use jj_ryu::types::NarrowedBookmarkSegment;
use jj_ryu::types::Platform;
use jj_ryu::types::PlatformConfig;
use jj_ryu::types::PrComment;
use jj_ryu::types::PullRequest;
use jj_ryu::vcs::VcsWorkspace;

fn make_bookmark(name: &str, has_remote: bool, is_synced: bool) -> Bookmark {
    Bookmark {
        name: name.to_string(),
        commit_id: format!("{name}_commit"),
        change_id: format!("{name}_change"),
        has_remote,
        is_synced,
    }
}

fn make_entry(change_id: &str, desc: &str, bookmarks: &[&str]) -> LogEntry {
    LogEntry {
        commit_id: format!("{change_id}_commit"),
        change_id: change_id.to_string(),
        author_name: "Test Author".to_string(),
        author_email: "test@example.com".to_string(),
        description_first_line: desc.to_string(),
        parents: vec!["parent".to_string()],
        local_bookmarks: bookmarks.iter().map(|b| b.to_string()).collect(),
        remote_bookmarks: vec![],
        is_working_copy: false,
        authored_at: 0,
        committed_at: 0,
    }
}

fn make_segment(name: &str, desc: &str, has_remote: bool, is_synced: bool) -> NarrowedBookmarkSegment {
    NarrowedBookmarkSegment {
        bookmark: make_bookmark(name, has_remote, is_synced),
        changes: vec![make_entry(&format!("{name}_change"), desc, &[name])],
    }
}

fn make_pr(number: u64, head: &str, base: &str) -> PullRequest {
    PullRequest {
        number,
        html_url: format!("https://github.com/test/repo/pull/{number}"),
        base_ref: base.to_string(),
        head_ref: head.to_string(),
        title: format!("PR for {head}"),
    }
}

struct MockVcs {
    pushed: Vec<(String, String)>,
    fail_push: bool,
}

impl MockVcs {
    fn new() -> Self {
        MockVcs { pushed: Vec::new(), fail_push: false }
    }
}

impl VcsWorkspace for MockVcs {
    fn local_bookmarks(&mut self) -> Result<Vec<Bookmark>, RyuError> {
        Ok(vec![])
    }

    fn resolve_revset(&mut self, _expr: &str) -> Result<Vec<LogEntry>, RyuError> {
        Ok(vec![])
    }

    fn git_push(&mut self, bookmark_name: &str, remote: &str) -> Result<(), RyuError> {
        if self.fail_push {
            return Err(RyuError::VcsCommand("push rejected".to_string()));
        }
        self.pushed.push((bookmark_name.to_string(), remote.to_string()));
        Ok(())
    }

    fn git_fetch(&mut self, _remote: &str) -> Result<(), RyuError> {
        Ok(())
    }

    fn git_remotes(&mut self) -> Result<Vec<GitRemote>, RyuError> {
        Ok(vec![])
    }

    fn default_branch(&mut self) -> Result<String, RyuError> {
        Ok("main".to_string())
    }
}

struct MockPlatform {
    config: PlatformConfig,
    next_number: u64,
    created: Vec<(String, String, String)>,
    updated: Vec<(u64, String)>,
    comments_created: Vec<(u64, String)>,
    comments_updated: Vec<(u64, u64, String)>,
    existing_comments: Vec<(u64, PrComment)>,
    fail_create: bool,
}

impl MockPlatform {
    fn new() -> Self {
        MockPlatform {
            config: PlatformConfig {
                platform: Platform::GitHub,
                owner: "testowner".to_string(),
                repo: "testrepo".to_string(),
                host: None,
            },
            next_number: 1,
            created: Vec::new(),
            updated: Vec::new(),
            comments_created: Vec::new(),
            comments_updated: Vec::new(),
            existing_comments: Vec::new(),
            fail_create: false,
        }
    }
}

impl PlatformService for MockPlatform {
    fn find_existing_pr(&mut self, _head_branch: &str) -> Result<Option<PullRequest>, RyuError> {
        Ok(None)
    }

    fn create_pr(&mut self, head: &str, base: &str, title: &str) -> Result<PullRequest, RyuError> {
        if self.fail_create {
            return Err(RyuError::Platform("creation refused".to_string()));
        }
        let number = self.next_number;
        self.next_number += 1;
        self.created.push((head.to_string(), base.to_string(), title.to_string()));
        Ok(make_pr(number, head, base))
    }

    fn update_pr_base(&mut self, pr_number: u64, new_base: &str) -> Result<PullRequest, RyuError> {
        self.updated.push((pr_number, new_base.to_string()));
        Ok(make_pr(pr_number, "updated", new_base))
    }

    fn list_pr_comments(&mut self, pr_number: u64) -> Result<Vec<PrComment>, RyuError> {
        Ok(self
            .existing_comments
            .iter()
            .filter(|(n, _)| *n == pr_number)
            .map(|(_, c)| c.clone())
            .collect())
    }

    fn create_pr_comment(&mut self, pr_number: u64, body: &str) -> Result<(), RyuError> {
        self.comments_created.push((pr_number, body.to_string()));
        Ok(())
    }

    fn update_pr_comment(&mut self, pr_number: u64, comment_id: u64, body: &str) -> Result<(), RyuError> {
        self.comments_updated.push((pr_number, comment_id, body.to_string()));
        Ok(())
    }

    fn config(&self) -> &PlatformConfig {
        &self.config
    }
}

#[test]
fn test_submission_result_default() {
    let result = SubmissionResult {
        success: true,
        created_prs: vec![],
        updated_prs: vec![],
        pushed_bookmarks: vec![],
        errors: vec![],
    };

    assert!(result.success);
    assert!(result.created_prs.is_empty());
    assert!(result.updated_prs.is_empty());
}

#[test]
fn test_build_stack_comment_data() {
    let plan = plan_from_existing_prs(
        &SubmissionAnalysis {
            segments: vec![
                make_segment("feat-a", "", false, false),
                make_segment("feat-b", "", false, false),
            ],
        },
        &vec![None, None],
        "origin",
        "main",
    );

    let mut bookmark_to_pr: StrMap<PullRequest> = StrMap::new();
    bookmark_to_pr.insert("feat-a".to_string(), make_pr(1, "feat-a", "main"));
    bookmark_to_pr.insert("feat-b".to_string(), make_pr(2, "feat-b", "feat-a"));

    let data = build_stack_comment_data(&plan, &bookmark_to_pr);

    assert_eq!(data.version, 0);
    assert_eq!(data.stack.len(), 2);
    assert_eq!(data.stack[0].bookmark_name, "feat-a");
    assert_eq!(data.stack[0].pr_number, 1);
    assert_eq!(data.stack[1].bookmark_name, "feat-b");
    assert_eq!(data.stack[1].pr_number, 2);
}

fn three_stack_plan() -> jj_ryu::submit::SubmissionPlan {
    plan_from_existing_prs(
        &SubmissionAnalysis {
            segments: vec![
                make_segment("a", "Add A", false, false),
                make_segment("b", "Add B", false, false),
                make_segment("c", "Add C", false, false),
            ],
        },
        &vec![None, None, None],
        "origin",
        "main",
    )
}

#[test]
fn test_execute_creates_three_prs_and_comments() {
    let plan = three_stack_plan();
    let mut vcs = MockVcs::new();
    let mut platform = MockPlatform::new();
    let mut progress = NoopProgress;
    let result = execute_submission(&plan, &mut vcs, &mut platform, &mut progress, false).unwrap();

    assert!(result.success);
    assert_eq!(result.pushed_bookmarks, vec!["a", "b", "c"]);
    assert_eq!(vcs.pushed.len(), 3);
    assert_eq!(vcs.pushed[0].1, "origin");
    assert_eq!(platform.created.len(), 3);
    assert_eq!(platform.created[0].1, "main");
    assert_eq!(platform.created[1].1, "a");
    assert_eq!(platform.created[2].1, "b");
    // One stack comment per pull request, each naming all three.
    assert_eq!(platform.comments_created.len(), 3);
    for (_, body) in &platform.comments_created {
        assert!(body.contains("<!--- JJ-RYU_STACK: "));
        assert!(body.contains("#1"));
        assert!(body.contains("#2"));
        assert!(body.contains("#3"));
        assert!(body.contains("\u{1F448}"));
    }
    // The marker sits next to the owning pull request's number.
    assert!(platform.comments_created[0].1.contains("**#1 \u{1F448}**"));
    assert!(platform.comments_created[2].1.contains("**#3 \u{1F448}**"));
}

#[test]
fn test_execute_dry_run_touches_nothing() {
    let plan = three_stack_plan();
    let mut vcs = MockVcs::new();
    let mut platform = MockPlatform::new();
    let mut progress = NoopProgress;
    let result = execute_submission(&plan, &mut vcs, &mut platform, &mut progress, true).unwrap();

    assert!(result.success);
    assert!(result.pushed_bookmarks.is_empty());
    assert!(vcs.pushed.is_empty());
    assert!(platform.created.is_empty());
    assert!(platform.comments_created.is_empty());
}

#[test]
fn test_execute_empty_plan_is_idempotent() {
    // A fully submitted stack plans nothing, and executing the empty plan
    // performs no push, no creation and no base move.
    let analysis = SubmissionAnalysis {
        segments: vec![
            make_segment("a", "Add A", true, true),
            make_segment("b", "Add B", true, true),
        ],
    };
    let existing = vec![Some(make_pr(1, "a", "main")), Some(make_pr(2, "b", "a"))];
    let plan = plan_from_existing_prs(&analysis, &existing, "origin", "main");
    let mut vcs = MockVcs::new();
    let mut platform = MockPlatform::new();
    let mut progress = NoopProgress;
    let result = execute_submission(&plan, &mut vcs, &mut platform, &mut progress, false).unwrap();

    assert!(result.success);
    assert!(vcs.pushed.is_empty());
    assert!(platform.created.is_empty());
    assert!(platform.updated.is_empty());
    // The known pull requests still get their navigation comments.
    assert_eq!(platform.comments_created.len(), 2);
}

#[test]
fn test_execute_push_failure_aborts() {
    let plan = three_stack_plan();
    let mut vcs = MockVcs::new();
    vcs.fail_push = true;
    let mut platform = MockPlatform::new();
    let mut progress = NoopProgress;
    let result = execute_submission(&plan, &mut vcs, &mut platform, &mut progress, false).unwrap();

    assert!(!result.success);
    assert!(result.pushed_bookmarks.is_empty());
    assert!(platform.created.is_empty());
    assert_eq!(result.errors.len(), 1);
    assert!(result.errors[0].contains("Failed to push a"));
}

#[test]
fn test_execute_create_failure_keeps_progress() {
    let plan = three_stack_plan();
    let mut vcs = MockVcs::new();
    let mut platform = MockPlatform::new();
    platform.fail_create = true;
    let mut progress = NoopProgress;
    let result = execute_submission(&plan, &mut vcs, &mut platform, &mut progress, false).unwrap();

    assert!(!result.success);
    // The pushes before the failure stay as genuine progress.
    assert_eq!(result.pushed_bookmarks.len(), 3);
    assert!(result.created_prs.is_empty());
}

#[test]
fn test_execute_updates_existing_comment() {
    let analysis = SubmissionAnalysis {
        segments: vec![make_segment("a", "Add A", true, true)],
    };
    let existing = vec![Some(make_pr(7, "a", "main"))];
    let plan = plan_from_existing_prs(&analysis, &existing, "origin", "main");
    let mut vcs = MockVcs::new();
    let mut platform = MockPlatform::new();
    platform.existing_comments.push((
        7,
        PrComment { id: 42, body: "<!--- JJ-STACK_INFO: old --->".to_string() },
    ));
    let mut progress = NoopProgress;
    let result = execute_submission(&plan, &mut vcs, &mut platform, &mut progress, false).unwrap();

    assert!(result.success);
    // The older marker is recognized: the comment is rewritten, not doubled.
    assert!(platform.comments_created.is_empty());
    assert_eq!(platform.comments_updated.len(), 1);
    assert_eq!(platform.comments_updated[0].0, 7);
    assert_eq!(platform.comments_updated[0].1, 42);
}
