//! Submission execution: apply a plan in a fixed phase order — push, move
//! bases, create, comment — and maintain the stack navigation comments.
//!
//! The first push, base-move or creation failure aborts the run; completed
//! operations stay as genuine progress.  Comment failures are recorded and
//! never abort.

use crate::codec::build_stack_comment_body;
use crate::codec::StackCommentData;
use crate::codec::StackItem;
use crate::error::RyuError;
use crate::platform::PlatformService;
use crate::strmap::StrMap;
use crate::submit::plan::SubmissionPlan;
use crate::submit::progress::Phase;
use crate::submit::progress::ProgressCallback;
use crate::submit::progress::PushStatus;
use crate::types::PullRequest;
use crate::vcs::VcsWorkspace;
use vstd::prelude::*;
use vstd::string::StringExecFns;

verus! {

/// The outcome of executing a submission plan.
#[verifier::ext_equal]
#[derive(Debug, Clone)]
pub struct SubmissionResult {
    /// Whether every push, base move and creation succeeded.
    pub success: bool,
    /// Pull requests that were created, in plan order.
    pub created_prs: Vec<PullRequest>,
    /// Pull requests whose base was moved, in plan order.
    pub updated_prs: Vec<PullRequest>,
    /// Names of the bookmarks that were pushed, in plan order.
    pub pushed_bookmarks: Vec<String>,
    /// Non-fatal errors, such as comment failures.
    pub errors: Vec<String>,
}

/// A rendering of an error for progress messages: the kind label, and the
/// carried text when there is one.
pub fn render_error(e: &RyuError) -> (r: String)
    ensures
        r@.len() > 0,
{
    let mut s = String::from_str(e.kind_label());
    let detail: Option<&String> = match e {
        RyuError::RemoteNotFound(m) => Some(m),
        RyuError::BookmarkNotFound(m) => Some(m),
        RyuError::Auth(m) => Some(m),
        RyuError::GitHubApi(m) => Some(m),
        RyuError::GitLabApi(m) => Some(m),
        RyuError::Platform(m) => Some(m),
        RyuError::VcsCommand(m) => Some(m),
        RyuError::Parse(m) => Some(m),
        RyuError::Internal(m) => Some(m),
        RyuError::NotAVcsWorkspace => None,
        RyuError::NoSupportedRemotes => None,
    };
    match detail {
        Some(m) => {
            s.append(": ");
            s.append(m.as_str());
        },
        None => {},
    }
    s
}

/// The stack navigation payload for a plan: one item per segment that has a
/// pull request in `bookmark_to_pr`, in plan order.
pub open spec fn spec_stack_items(
    segs: Seq<crate::types::NarrowedBookmarkSegment>,
    m: Map<Seq<char>, PullRequest>,
    n: int,
) -> Seq<StackItem>
    decreases n,
{
    if n <= 0 {
        Seq::empty()
    } else {
        spec_stack_items(segs, m, n - 1) + (if m.contains_key(segs[n - 1].bookmark.name@) {
            seq![
                StackItem {
                    bookmark_name: segs[n - 1].bookmark.name,
                    pr_url: m[segs[n - 1].bookmark.name@].html_url,
                    pr_number: m[segs[n - 1].bookmark.name@].number,
                },
            ]
        } else {
            Seq::empty()
        })
    }
}

/// Builds the stack navigation payload from the plan and the pull requests
/// known per bookmark.
pub fn build_stack_comment_data(plan: &SubmissionPlan, bookmark_to_pr: &StrMap<PullRequest>) -> (r:
    StackCommentData)
    requires
        bookmark_to_pr.wf(),
    ensures
        r.version == 0,
        r.stack@ == spec_stack_items(plan.segments@, bookmark_to_pr@, plan.segments@.len() as int),
{
    let mut stack: Vec<StackItem> = Vec::new();
    let mut i: usize = 0;
    while i < plan.segments.len()
        invariant
            bookmark_to_pr.wf(),
            i <= plan.segments@.len(),
            stack@ =~= spec_stack_items(plan.segments@, bookmark_to_pr@, i as int),
        decreases plan.segments@.len() - i,
    {
        match bookmark_to_pr.get(plan.segments[i].bookmark.name.as_str()) {
            Some(pr) => {
                stack.push(
                    StackItem {
                        bookmark_name: plan.segments[i].bookmark.name.clone(),
                        pr_url: pr.html_url.clone(),
                        pr_number: pr.number,
                    },
                );
            },
            None => {},
        }
        proof {
            assert(stack@ =~= spec_stack_items(plan.segments@, bookmark_to_pr@, i + 1));
        }
        i += 1;
    }
    StackCommentData { version: 0, stack }
}

/// Whether a comment body carries the stack navigation marker, current or
/// legacy.
pub open spec fn has_stack_marker(body: Seq<char>) -> bool {
    ||| crate::strutil::spec_contains_seq(body, "<!--- JJ-RYU_STACK: "@)
    ||| crate::strutil::spec_contains_seq(body, "<!--- JJ-STACK_INFO: "@)
}

/// The comment to rewrite, if any: the first one whose body carries the
/// stack navigation marker, current or legacy.
pub fn find_stack_comment(comments: &Vec<crate::types::PrComment>) -> (r: Option<u64>)
    ensures
        match r {
            Some(id) => exists|i: int|
                {
                    &&& 0 <= i < comments@.len()
                    &&& (#[trigger] comments@[i]).id == id
                    &&& has_stack_marker(comments@[i].body@)
                    &&& forall|j: int| 0 <= j < i ==> !has_stack_marker((#[trigger] comments@[j]).body@)
                },
            None => forall|i: int|
                0 <= i < comments@.len() ==> !has_stack_marker((#[trigger] comments@[i]).body@),
        },
{
    let mut ci: usize = 0;
    while ci < comments.len()
        invariant
            ci <= comments@.len(),
            forall|j: int| 0 <= j < ci ==> !has_stack_marker((#[trigger] comments@[j]).body@),
        decreases comments@.len() - ci,
    {
        let c = &comments[ci];
        if crate::strutil::str_contains(c.body.as_str(), "<!--- JJ-RYU_STACK: ")
            || crate::strutil::str_contains(c.body.as_str(), "<!--- JJ-STACK_INFO: ") {
            proof {
                assert(has_stack_marker(comments@[ci as int].body@));
            }
            return Some(c.id);
        }
        ci += 1;
    }
    None
}

/// Creates or updates the stack navigation comment on one pull request: the
/// first existing comment carrying either the current or the legacy marker
/// is rewritten, else a new comment is added.  The body handed out is the
/// exactly specified one for this stack and position; which happens on the
/// platform is the platform's own outcome.
pub fn create_or_update_stack_comment<P: PlatformService>(
    platform: &mut P,
    data: &StackCommentData,
    current_idx: usize,
    pr_number: u64,
) -> (r: Result<(), RyuError>)
    requires
        current_idx < data.stack@.len(),
{
    let body = build_stack_comment_body(data, current_idx);
    let comments = match platform.list_pr_comments(pr_number) {
        Ok(cs) => cs,
        Err(e) => {
            return Err(e);
        },
    };
    match find_stack_comment(&comments) {
        Some(id) => platform.update_pr_comment(pr_number, id, body.as_str()),
        None => platform.create_pr_comment(pr_number, body.as_str()),
    }
}

fn clone_pr_map(m: &StrMap<PullRequest>) -> (r: StrMap<PullRequest>)
    requires
        m.wf(),
    ensures
        r.wf(),
        r@ == m@,
{
    proof {
        m.lemma_view_facts();
    }
    let n = m.len();
    let mut r: StrMap<PullRequest> = StrMap::new();
    let mut i: usize = 0;
    while i < n
        invariant
            m.wf(),
            n == m.spec_len(),
            i <= n,
            r.wf(),
            forall|k: Seq<char>| #[trigger]
                r@.contains_key(k) <==> exists|j: int|
                    0 <= j < i && #[trigger] m.key_seq()[j] == k,
            forall|k: Seq<char>| #[trigger] r@.contains_key(k) ==> r@[k] == m@[k],
        decreases n - i,
    {
        let k = m.key_at(i);
        let v = m.value_at(i);
        proof {
            m.lemma_view_facts();
            if r@.contains_key(k@) {
                let j = choose|j: int| 0 <= j < i && #[trigger] m.key_seq()[j] == k@;
                assert(false);
            }
        }
        r.insert(k.clone(), v.duplicate());
        proof {
            assert forall|k2: Seq<char>| #[trigger]
                r@.contains_key(k2) <==> exists|j: int|
                    0 <= j < i + 1 && #[trigger] m.key_seq()[j] == k2 by {
                if k2 == k@ {
                    assert(m.key_seq()[i as int] == k2);
                }
            }
        }
        i += 1;
    }
    proof {
        m.lemma_view_facts();
        assert forall|k: Seq<char>|
            r@.contains_key(k) == m@.contains_key(k) by {}
        assert(r@ =~= m@);
    }
    r
}

/// Executes a submission plan in the fixed phase order: push the out-of-sync
/// bookmarks, move wrong bases, create missing pull requests, then write the
/// stack navigation comments.
///
/// A dry run only reports what would happen.  The first failing push, base
/// move or creation aborts the run with `success` false and the completed
/// operations kept; comment failures are recorded in `errors` and do not
/// abort.  The call itself always returns the result.
pub fn execute_submission<W: VcsWorkspace, P: PlatformService, C: ProgressCallback>(
    plan: &SubmissionPlan,
    workspace: &mut W,
    platform: &mut P,
    progress: &mut C,
    dry_run: bool,
) -> (r: Result<SubmissionResult, RyuError>)
    requires
        plan.existing_prs.wf(),
    ensures
        r is Ok,
        r matches Ok(res) ==> {
            &&& (dry_run ==> res.success && res.created_prs@.len() == 0 && res.updated_prs@.len()
                == 0 && res.pushed_bookmarks@.len() == 0 && res.errors@.len() == 0)
            &&& (!dry_run ==> (res.success <==> (res.pushed_bookmarks@.len()
                == plan.bookmarks_needing_push@.len() && res.updated_prs@.len()
                == plan.prs_to_update_base@.len() && res.created_prs@.len()
                == plan.prs_to_create@.len())))
            &&& res.pushed_bookmarks@.len() <= plan.bookmarks_needing_push@.len()
            &&& forall|i: int|
                0 <= i < res.pushed_bookmarks@.len() ==> (#[trigger] res.pushed_bookmarks@[i])@
                    == plan.bookmarks_needing_push@[i].name@
            &&& res.updated_prs@.len() <= plan.prs_to_update_base@.len()
            &&& res.created_prs@.len() <= plan.prs_to_create@.len()
            &&& (!res.success ==> res.errors@.len() > 0)
        },
{
    let mut result = SubmissionResult {
        success: true,
        created_prs: Vec::new(),
        updated_prs: Vec::new(),
        pushed_bookmarks: Vec::new(),
        errors: Vec::new(),
    };

    if dry_run {
        progress.on_message("Dry run - no changes will be made");
        report_dry_run(plan, progress);
        return Ok(result);
    }

    // All pull requests known so far, by bookmark name, for the comments.
    let mut bookmark_to_pr: StrMap<PullRequest> = clone_pr_map(&plan.existing_prs);

    // Phase: pushing bookmarks.
    progress.on_phase(Phase::Pushing);
    let mut pi: usize = 0;
    while pi < plan.bookmarks_needing_push.len()
        invariant
            pi <= plan.bookmarks_needing_push@.len(),
            result.pushed_bookmarks@.len() == pi,
            forall|i: int|
                0 <= i < pi ==> (#[trigger] result.pushed_bookmarks@[i])@
                    == plan.bookmarks_needing_push@[i].name@,
            result.success,
            result.created_prs@.len() == 0,
            result.updated_prs@.len() == 0,
            bookmark_to_pr.wf(),
            !dry_run,
            result.errors@.len() == 0,
        decreases plan.bookmarks_needing_push@.len() - pi,
    {
        let bookmark = &plan.bookmarks_needing_push[pi];
        progress.on_bookmark_push(bookmark.name.as_str(), PushStatus::Started);
        match workspace.git_push(bookmark.name.as_str(), plan.remote.as_str()) {
            Ok(_u) => {
                progress.on_bookmark_push(bookmark.name.as_str(), PushStatus::Success);
                result.pushed_bookmarks.push(bookmark.name.clone());
            },
            Err(e) => {
                let mut msg = String::from_str("Failed to push ");
                msg.append(bookmark.name.as_str());
                msg.append(": ");
                let rendered = render_error(&e);
                msg.append(rendered.as_str());
                progress.on_bookmark_push(bookmark.name.as_str(), PushStatus::Failed(msg.clone()));
                result.errors.push(msg);
                result.success = false;
                proof {
                    assert(result.pushed_bookmarks@.len() < plan.bookmarks_needing_push@.len());
                }
                return Ok(result);
            },
        }
        pi += 1;
    }

    // Phase: moving pull request bases.
    progress.on_phase(Phase::UpdatingPrs);
    let mut ui: usize = 0;
    while ui < plan.prs_to_update_base.len()
        invariant
            ui <= plan.prs_to_update_base@.len(),
            result.updated_prs@.len() == ui,
            result.pushed_bookmarks@.len() == plan.bookmarks_needing_push@.len(),
            forall|i: int|
                0 <= i < result.pushed_bookmarks@.len() ==> (
                #[trigger] result.pushed_bookmarks@[i])@ == plan.bookmarks_needing_push@[i].name@,
            result.success,
            result.created_prs@.len() == 0,
            bookmark_to_pr.wf(),
            !dry_run,
            result.errors@.len() == 0,
        decreases plan.prs_to_update_base@.len() - ui,
    {
        let update = &plan.prs_to_update_base[ui];
        let mut msg = String::from_str("Updating ");
        msg.append(update.bookmark.name.as_str());
        msg.append(" base: ");
        msg.append(update.current_base.as_str());
        msg.append(" -> ");
        msg.append(update.expected_base.as_str());
        progress.on_message(msg.as_str());
        match platform.update_pr_base(update.pr.number, update.expected_base.as_str()) {
            Ok(updated_pr) => {
                progress.on_pr_updated(update.bookmark.name.as_str(), &updated_pr);
                result.updated_prs.push(updated_pr.duplicate());
                bookmark_to_pr.set(update.bookmark.name.clone(), updated_pr);
            },
            Err(e) => {
                let mut emsg = String::from_str("Failed to update PR base for ");
                emsg.append(update.bookmark.name.as_str());
                emsg.append(": ");
                let rendered = render_error(&e);
                emsg.append(rendered.as_str());
                progress.on_error(&RyuError::Platform(emsg.clone()));
                result.errors.push(emsg);
                result.success = false;
                return Ok(result);
            },
        }
        ui += 1;
    }

    // Phase: creating pull requests.
    progress.on_phase(Phase::CreatingPrs);
    let mut ci: usize = 0;
    while ci < plan.prs_to_create.len()
        invariant
            ci <= plan.prs_to_create@.len(),
            result.created_prs@.len() == ci,
            result.pushed_bookmarks@.len() == plan.bookmarks_needing_push@.len(),
            forall|i: int|
                0 <= i < result.pushed_bookmarks@.len() ==> (
                #[trigger] result.pushed_bookmarks@[i])@ == plan.bookmarks_needing_push@[i].name@,
            result.updated_prs@.len() == plan.prs_to_update_base@.len(),
            result.success,
            bookmark_to_pr.wf(),
            !dry_run,
            result.errors@.len() == 0,
        decreases plan.prs_to_create@.len() - ci,
    {
        let pr_to_create = &plan.prs_to_create[ci];
        let mut msg = String::from_str("Creating PR for ");
        msg.append(pr_to_create.bookmark.name.as_str());
        msg.append(" (base: ");
        msg.append(pr_to_create.base_branch.as_str());
        msg.append(")");
        progress.on_message(msg.as_str());
        match platform.create_pr(
            pr_to_create.bookmark.name.as_str(),
            pr_to_create.base_branch.as_str(),
            pr_to_create.title.as_str(),
        ) {
            Ok(pr) => {
                progress.on_pr_created(pr_to_create.bookmark.name.as_str(), &pr);
                result.created_prs.push(pr.duplicate());
                bookmark_to_pr.set(pr_to_create.bookmark.name.clone(), pr);
            },
            Err(e) => {
                let mut emsg = String::from_str("Failed to create PR for ");
                emsg.append(pr_to_create.bookmark.name.as_str());
                emsg.append(": ");
                let rendered = render_error(&e);
                emsg.append(rendered.as_str());
                progress.on_error(&RyuError::Platform(emsg.clone()));
                result.errors.push(emsg);
                result.success = false;
                return Ok(result);
            },
        }
        ci += 1;
    }

    // Phase: stack navigation comments; failures here never abort.
    progress.on_phase(Phase::AddingComments);
    if bookmark_to_pr.len() > 0 {
        let stack_data = build_stack_comment_data(plan, &bookmark_to_pr);
        let mut si: usize = 0;
        while si < stack_data.stack.len()
            invariant
                si <= stack_data.stack@.len(),
                result.pushed_bookmarks@.len() == plan.bookmarks_needing_push@.len(),
                forall|i: int|
                    0 <= i < result.pushed_bookmarks@.len() ==> (
                    #[trigger] result.pushed_bookmarks@[i])@
                        == plan.bookmarks_needing_push@[i].name@,
                result.updated_prs@.len() == plan.prs_to_update_base@.len(),
                result.created_prs@.len() == plan.prs_to_create@.len(),
                result.success,
                !dry_run,
            decreases stack_data.stack@.len() - si,
        {
            let pr_number = stack_data.stack[si].pr_number;
            match create_or_update_stack_comment(platform, &stack_data, si, pr_number) {
                Ok(_u) => {},
                Err(e) => {
                    let mut emsg = String::from_str("Failed to update stack comment for ");
                    emsg.append(stack_data.stack[si].bookmark_name.as_str());
                    emsg.append(": ");
                    let rendered = render_error(&e);
                    emsg.append(rendered.as_str());
                    progress.on_error(&RyuError::Platform(emsg.clone()));
                    result.errors.push(emsg);
                },
            }
            si += 1;
        }
    }

    progress.on_phase(Phase::Complete);
    Ok(result)
}

/// Reports, through the progress sink, what a run of the plan would do.
fn report_dry_run<C: ProgressCallback>(plan: &SubmissionPlan, progress: &mut C) {
    if plan.bookmarks_needing_push.len() > 0 {
        progress.on_message("Would push:");
        let mut i: usize = 0;
        while i < plan.bookmarks_needing_push.len()
            invariant
                i <= plan.bookmarks_needing_push@.len(),
            decreases plan.bookmarks_needing_push@.len() - i,
        {
            let mut msg = String::from_str("  - ");
            msg.append(plan.bookmarks_needing_push[i].name.as_str());
            msg.append(" to ");
            msg.append(plan.remote.as_str());
            progress.on_message(msg.as_str());
            i += 1;
        }
    }
    if plan.prs_to_update_base.len() > 0 {
        progress.on_message("Would update PR bases:");
        let mut i: usize = 0;
        while i < plan.prs_to_update_base.len()
            invariant
                i <= plan.prs_to_update_base@.len(),
            decreases plan.prs_to_update_base@.len() - i,
        {
            let update = &plan.prs_to_update_base[i];
            let mut msg = String::from_str("  - ");
            msg.append(update.bookmark.name.as_str());
            msg.append(" (PR #");
            let num = crate::strutil::u64_to_string(update.pr.number);
            msg.append(num.as_str());
            msg.append(") ");
            msg.append(update.current_base.as_str());
            msg.append(" -> ");
            msg.append(update.expected_base.as_str());
            progress.on_message(msg.as_str());
            i += 1;
        }
    }
    if plan.prs_to_create.len() > 0 {
        progress.on_message("Would create PRs:");
        let mut i: usize = 0;
        while i < plan.prs_to_create.len()
            invariant
                i <= plan.prs_to_create@.len(),
            decreases plan.prs_to_create@.len() - i,
        {
            let pr = &plan.prs_to_create[i];
            let mut msg = String::from_str("  - ");
            msg.append(pr.bookmark.name.as_str());
            msg.append(" -> ");
            msg.append(pr.base_branch.as_str());
            msg.append(" (");
            msg.append(pr.title.as_str());
            msg.append(")");
            progress.on_message(msg.as_str());
            i += 1;
        }
    }
    if plan.bookmarks_needing_push.len() == 0 && plan.prs_to_update_base.len() == 0
        && plan.prs_to_create.len() == 0 {
        progress.on_message("Nothing to do - already in sync");
    }
}

} // verus!
