//! Submission planning: the minimal set of operations — pushes, pull-request
//! creations and base moves — that brings the platform to the analyzed stack.

use crate::error::RyuError;
use crate::platform::PlatformService;
use crate::strmap::StrMap;
use crate::submit::analysis::spec_base_for;
use crate::submit::analysis::spec_title_for;
use crate::submit::analysis::segs_distinct;
use crate::submit::analysis::SubmissionAnalysis;
use crate::types::Bookmark;
use crate::types::NarrowedBookmarkSegment;
use crate::types::PullRequest;
use vstd::prelude::*;

verus! {

/// A pull request that has to be created.
#[verifier::ext_equal]
#[derive(Debug, Clone)]
pub struct PrToCreate {
    /// Bookmark for this pull request.
    pub bookmark: Bookmark,
    /// Base branch: the previous bookmark, or the default branch.
    pub base_branch: String,
    /// Generated title.
    pub title: String,
}

/// An existing pull request whose base branch has to move.
#[verifier::ext_equal]
#[derive(Debug, Clone)]
pub struct PrBaseUpdate {
    /// Bookmark for this pull request.
    pub bookmark: Bookmark,
    /// The base branch it has now.
    pub current_base: String,
    /// The base branch it should have.
    pub expected_base: String,
    /// The existing pull request.
    pub pr: PullRequest,
}

/// The planned operations for one submission, additive only: nothing is ever
/// closed, force-pushed or deleted.
#[verifier::ext_equal]
#[derive(Debug, Clone)]
pub struct SubmissionPlan {
    /// Segments to submit, root first.
    pub segments: Vec<NarrowedBookmarkSegment>,
    /// Bookmarks that have to be pushed.
    pub bookmarks_needing_push: Vec<Bookmark>,
    /// Pull requests that have to be created.
    pub prs_to_create: Vec<PrToCreate>,
    /// Pull requests whose base has to move.
    pub prs_to_update_base: Vec<PrBaseUpdate>,
    /// The open pull requests found, by bookmark name.
    pub existing_prs: StrMap<PullRequest>,
    /// Remote to push to.
    pub remote: String,
    /// Default branch name.
    pub default_branch: String,
}

/// Whether the segment at `i` needs its bookmark pushed: no remote
/// counterpart, or out of sync.
pub open spec fn needs_push_at(segs: Seq<NarrowedBookmarkSegment>, i: int) -> bool {
    !(segs[i].bookmark.has_remote && segs[i].bookmark.is_synced)
}

/// How many of the first `upto` segments need a push.
pub open spec fn num_pushes(segs: Seq<NarrowedBookmarkSegment>, upto: int) -> int
    decreases upto,
{
    if upto <= 0 {
        0
    } else {
        num_pushes(segs, upto - 1) + (if needs_push_at(segs, upto - 1) {
            1int
        } else {
            0int
        })
    }
}

/// Whether the segment at `i` needs a pull request created: none was found.
pub open spec fn creates_at(existing: Seq<Option<PullRequest>>, i: int) -> bool {
    existing[i] is None
}

/// How many of the first `upto` segments need a creation.
pub open spec fn num_creates(existing: Seq<Option<PullRequest>>, upto: int) -> int
    decreases upto,
{
    if upto <= 0 {
        0
    } else {
        num_creates(existing, upto - 1) + (if creates_at(existing, upto - 1) {
            1int
        } else {
            0int
        })
    }
}

/// Whether the segment at `i` needs its pull request's base moved: one was
/// found, on a base other than the expected one.
pub open spec fn updates_at(
    segs: Seq<NarrowedBookmarkSegment>,
    existing: Seq<Option<PullRequest>>,
    i: int,
    default_branch: Seq<char>,
) -> bool {
    existing[i] matches Some(pr) && pr.base_ref@ != spec_base_for(segs, i, default_branch)
}

/// How many of the first `upto` segments need a base move.
pub open spec fn num_updates(
    segs: Seq<NarrowedBookmarkSegment>,
    existing: Seq<Option<PullRequest>>,
    default_branch: Seq<char>,
    upto: int,
) -> int
    decreases upto,
{
    if upto <= 0 {
        0
    } else {
        num_updates(segs, existing, default_branch, upto - 1) + (if updates_at(
            segs,
            existing,
            upto - 1,
            default_branch,
        ) {
            1int
        } else {
            0int
        })
    }
}

/// The push count never shrinks as the prefix grows.
pub proof fn lemma_num_pushes_mono(segs: Seq<NarrowedBookmarkSegment>, a: int, b: int)
    requires
        a <= b,
    ensures
        num_pushes(segs, a) <= num_pushes(segs, b),
    decreases b - a,
{
    if a < b {
        lemma_num_pushes_mono(segs, a, b - 1);
    }
}

/// The creation count never shrinks as the prefix grows.
pub proof fn lemma_num_creates_mono(existing: Seq<Option<PullRequest>>, a: int, b: int)
    requires
        a <= b,
    ensures
        num_creates(existing, a) <= num_creates(existing, b),
    decreases b - a,
{
    if a < b {
        lemma_num_creates_mono(existing, a, b - 1);
    }
}

/// The base-move count never shrinks as the prefix grows.
pub proof fn lemma_num_updates_mono(
    segs: Seq<NarrowedBookmarkSegment>,
    existing: Seq<Option<PullRequest>>,
    default_branch: Seq<char>,
    a: int,
    b: int,
)
    requires
        a <= b,
    ensures
        num_updates(segs, existing, default_branch, a) <= num_updates(
            segs,
            existing,
            default_branch,
            b,
        ),
    decreases b - a,
{
    if a < b {
        lemma_num_updates_mono(segs, existing, default_branch, a, b - 1);
    }
}

/// How a plan relates to the analyzed segments, the observed open pull
/// requests (one observation per segment, in order) and the default branch.
/// The operation lists are pinned completely: one push per out-of-sync
/// bookmark, one creation per segment without a pull request (with the
/// expected base and title), one base move per pull request on a wrong base
/// — each in root-to-leaf segment order at the position its prefix count
/// names, with the list lengths equal to the total counts — and the found
/// pull requests keyed by exactly the segment bookmarks observed with one.
pub open spec fn plan_matches(
    plan: SubmissionPlan,
    segs: Seq<NarrowedBookmarkSegment>,
    existing: Seq<Option<PullRequest>>,
    remote: Seq<char>,
    default_branch: Seq<char>,
) -> bool {
    let n = segs.len() as int;
    &&& plan.segments@.len() == segs.len()
    &&& forall|i: int|
        0 <= i < segs.len() ==> (#[trigger] plan.segments@[i]).bookmark == segs[i].bookmark
            && plan.segments@[i].changes.deep_view() == segs[i].changes.deep_view()
    &&& plan.remote@ == remote
    &&& plan.default_branch@ == default_branch
    // Pushes: exactly one per out-of-sync bookmark, in segment order.
    &&& plan.bookmarks_needing_push@.len() == num_pushes(segs, n)
    &&& forall|i: int|
        0 <= i < n && needs_push_at(segs, i) ==> plan.bookmarks_needing_push@[num_pushes(
            segs,
            i,
        )] == (#[trigger] segs[i]).bookmark
    // Creations: exactly one per segment without a pull request, in order.
    &&& plan.prs_to_create@.len() == num_creates(existing, n)
    &&& forall|i: int|
        0 <= i < n && creates_at(existing, i) ==> {
            let c = plan.prs_to_create@[num_creates(existing, i)];
            &&& c.bookmark == (#[trigger] segs[i]).bookmark
            &&& c.base_branch@ == spec_base_for(segs, i, default_branch)
            &&& c.title@ == spec_title_for(segs, i)
        }
    // Base moves: exactly one per pull request on a wrong base, in order.
    &&& plan.prs_to_update_base@.len() == num_updates(segs, existing, default_branch, n)
    &&& forall|i: int|
        0 <= i < n && updates_at(segs, existing, i, default_branch) ==> {
            let u = plan.prs_to_update_base@[num_updates(segs, existing, default_branch, i)];
            &&& u.bookmark == (#[trigger] segs[i]).bookmark
            &&& u.expected_base@ == spec_base_for(segs, i, default_branch)
            &&& (existing[i] matches Some(pr) && u.pr == pr && u.current_base@ == pr.base_ref@)
        }
    // The found pull requests, keyed by exactly the bookmarks observed Some.
    &&& forall|i: int|
        0 <= i < segs.len() ==> match existing[i] {
            Some(pr) => plan.existing_prs@.contains_key((#[trigger] segs[i]).bookmark.name@)
                && plan.existing_prs@[segs[i].bookmark.name@] == pr,
            None => !plan.existing_prs@.contains_key((#[trigger] segs[i]).bookmark.name@),
        }
    &&& forall|m: Seq<char>| #[trigger]
        plan.existing_prs@.contains_key(m) ==> exists|i: int|
            0 <= i < segs.len() && (#[trigger] segs[i]).bookmark.name@ == m && existing[i] is Some
}

/// Walks the segments root to leaf and derives the three operation lists.
#[verifier::rlimit(100)]
fn derive_operations(
    analysis: &SubmissionAnalysis,
    existing: &Vec<Option<PullRequest>>,
    default_branch: &str,
) -> (r: (Vec<Bookmark>, Vec<PrToCreate>, Vec<PrBaseUpdate>))
    requires
        existing@.len() == analysis.segments@.len(),
    ensures
        ({
            let segs = analysis.segments@;
            let n = segs.len() as int;
            &&& r.0@.len() == num_pushes(segs, n)
            &&& forall|i: int|
                0 <= i < n && needs_push_at(segs, i) ==> r.0@[num_pushes(segs, i)] == (
                #[trigger] segs[i]).bookmark
            &&& r.1@.len() == num_creates(existing@, n)
            &&& forall|i: int|
                0 <= i < n && creates_at(existing@, i) ==> {
                    let c = r.1@[num_creates(existing@, i)];
                    &&& c.bookmark == (#[trigger] segs[i]).bookmark
                    &&& c.base_branch@ == spec_base_for(segs, i, default_branch@)
                    &&& c.title@ == spec_title_for(segs, i)
                }
            &&& r.2@.len() == num_updates(segs, existing@, default_branch@, n)
            &&& forall|i: int|
                0 <= i < n && updates_at(segs, existing@, i, default_branch@) ==> {
                    let u = r.2@[num_updates(segs, existing@, default_branch@, i)];
                    &&& u.bookmark == (#[trigger] segs[i]).bookmark
                    &&& u.expected_base@ == spec_base_for(segs, i, default_branch@)
                    &&& (existing@[i] matches Some(pr) && u.pr == pr && u.current_base@
                        == pr.base_ref@)
                }
        }),
{
    let ghost segs = analysis.segments@;
    let n = analysis.segments.len();
    let mut bookmarks_needing_push: Vec<Bookmark> = Vec::new();
    let mut prs_to_create: Vec<PrToCreate> = Vec::new();
    let mut prs_to_update_base: Vec<PrBaseUpdate> = Vec::new();
    let mut j: usize = 0;
    while j < n
        invariant
            segs == analysis.segments@,
            existing@.len() == segs.len(),
            n == segs.len(),
            j <= n,
            bookmarks_needing_push@.len() == num_pushes(segs, j as int),
            forall|t: int|
                0 <= t < j && needs_push_at(segs, t) ==> bookmarks_needing_push@[num_pushes(
                    segs,
                    t,
                )] == (#[trigger] segs[t]).bookmark,
            prs_to_create@.len() == num_creates(existing@, j as int),
            forall|t: int|
                0 <= t < j && creates_at(existing@, t) ==> {
                    let c = prs_to_create@[num_creates(existing@, t)];
                    &&& c.bookmark == (#[trigger] segs[t]).bookmark
                    &&& c.base_branch@ == spec_base_for(segs, t, default_branch@)
                    &&& c.title@ == spec_title_for(segs, t)
                },
            prs_to_update_base@.len() == num_updates(segs, existing@, default_branch@, j as int),
            forall|t: int|
                0 <= t < j && updates_at(segs, existing@, t, default_branch@) ==> {
                    let u = prs_to_update_base@[num_updates(segs, existing@, default_branch@, t)];
                    &&& u.bookmark == (#[trigger] segs[t]).bookmark
                    &&& u.expected_base@ == spec_base_for(segs, t, default_branch@)
                    &&& (existing@[t] matches Some(pr) && u.pr == pr && u.current_base@
                        == pr.base_ref@)
                },
        decreases n - j,
    {
        let ghost old_pushes = bookmarks_needing_push@;
        let ghost old_creates = prs_to_create@;
        let ghost old_updates = prs_to_update_base@;
        let seg = &analysis.segments[j];
        if !(seg.bookmark.has_remote && seg.bookmark.is_synced) {
            bookmarks_needing_push.push(seg.bookmark.duplicate());
            proof {
                assert(bookmarks_needing_push@[num_pushes(segs, j as int)] == segs[j as int].bookmark);
            }
        }
        let expected_base = if j == 0 {
            String::from_str(default_branch)
        } else {
            analysis.segments[j - 1].bookmark.name.clone()
        };
        proof {
            assert(expected_base@ == spec_base_for(segs, j as int, default_branch@));
        }
        match &existing[j] {
            Some(pr) => {
                if !crate::strutil::str_eq(pr.base_ref.as_str(), expected_base.as_str()) {
                    prs_to_update_base.push(
                        PrBaseUpdate {
                            bookmark: seg.bookmark.duplicate(),
                            current_base: pr.base_ref.clone(),
                            expected_base,
                            pr: pr.duplicate(),
                        },
                    );
                    proof {
                        assert(updates_at(segs, existing@, j as int, default_branch@));
                        let u = prs_to_update_base@[num_updates(
                            segs,
                            existing@,
                            default_branch@,
                            j as int,
                        )];
                        assert(u.bookmark == segs[j as int].bookmark);
                    }
                } else {
                    proof {
                        assert(!updates_at(segs, existing@, j as int, default_branch@));
                    }
                }
            },
            None => {
                let title = if seg.changes.len() > 0
                    && !seg.changes[0].description_first_line.as_str().is_empty() {
                    seg.changes[0].description_first_line.clone()
                } else {
                    seg.bookmark.name.clone()
                };
                proof {
                    assert(title@ == spec_title_for(segs, j as int));
                }
                prs_to_create.push(
                    PrToCreate { bookmark: seg.bookmark.duplicate(), base_branch: expected_base, title },
                );
                proof {
                    let c = prs_to_create@[num_creates(existing@, j as int)];
                    assert(c.bookmark == segs[j as int].bookmark);
                }
            },
        }
        proof {
            // Earlier operations keep their positions: each list only grew at
            // the end, and an earlier prefix count stays below the old length.
            assert forall|t: int|
                0 <= t < j + 1 && needs_push_at(segs, t) implies bookmarks_needing_push@[num_pushes(
                segs,
                t,
            )] == (#[trigger] segs[t]).bookmark by {
                lemma_num_pushes_mono(segs, 0, t);
                if t < j {
                    lemma_num_pushes_mono(segs, t + 1, j as int);
                    assert(old_pushes[num_pushes(segs, t)] == segs[t].bookmark);
                    assert(bookmarks_needing_push@[num_pushes(segs, t)] == old_pushes[num_pushes(
                        segs,
                        t,
                    )]);
                }
            }
            assert forall|t: int| 0 <= t < j + 1 && creates_at(existing@, t) implies {
                let c = prs_to_create@[num_creates(existing@, t)];
                &&& c.bookmark == (#[trigger] segs[t]).bookmark
                &&& c.base_branch@ == spec_base_for(segs, t, default_branch@)
                &&& c.title@ == spec_title_for(segs, t)
            } by {
                lemma_num_creates_mono(existing@, 0, t);
                if t < j {
                    lemma_num_creates_mono(existing@, t + 1, j as int);
                    assert(old_creates[num_creates(existing@, t)].bookmark == segs[t].bookmark);
                    assert(prs_to_create@[num_creates(existing@, t)] == old_creates[num_creates(
                        existing@,
                        t,
                    )]);
                }
            }
            assert forall|t: int|
                0 <= t < j + 1 && updates_at(segs, existing@, t, default_branch@) implies {
                let u = prs_to_update_base@[num_updates(segs, existing@, default_branch@, t)];
                &&& u.bookmark == (#[trigger] segs[t]).bookmark
                &&& u.expected_base@ == spec_base_for(segs, t, default_branch@)
                &&& (existing@[t] matches Some(pr) && u.pr == pr && u.current_base@
                    == pr.base_ref@)
            } by {
                lemma_num_updates_mono(segs, existing@, default_branch@, 0, t);
                if t < j {
                    lemma_num_updates_mono(segs, existing@, default_branch@, t + 1, j as int);
                    assert(old_updates[num_updates(segs, existing@, default_branch@, t)].bookmark
                        == segs[t].bookmark);
                    assert(prs_to_update_base@[num_updates(segs, existing@, default_branch@, t)]
                        == old_updates[num_updates(segs, existing@, default_branch@, t)]);
                }
            }
        }
        j += 1;
    }

    (bookmarks_needing_push, prs_to_create, prs_to_update_base)
}

/// Builds the plan from the analyzed segments and the open pull requests
/// observed for them, one observation per segment in stack order.
#[verifier::rlimit(100)]
pub fn plan_from_existing_prs(
    analysis: &SubmissionAnalysis,
    existing: &Vec<Option<PullRequest>>,
    remote: &str,
    default_branch: &str,
) -> (r: SubmissionPlan)
    requires
        existing@.len() == analysis.segments@.len(),
        segs_distinct(analysis.segments@),
    ensures
        plan_matches(r, analysis.segments@, existing@, remote@, default_branch@),
        r.existing_prs.wf(),
{
    let ghost segs = analysis.segments@;
    let n = analysis.segments.len();

    let mut segments: Vec<NarrowedBookmarkSegment> = Vec::new();
    let mut existing_prs: StrMap<PullRequest> = StrMap::new();
    let mut i: usize = 0;
    while i < n
        invariant
            segs == analysis.segments@,
            existing@.len() == segs.len(),
            segs_distinct(segs),
            n == segs.len(),
            i <= n,
            segments@.len() == i,
            forall|t: int|
                0 <= t < i ==> (#[trigger] segments@[t]).bookmark == segs[t].bookmark
                    && segments@[t].changes.deep_view() == segs[t].changes.deep_view(),
            existing_prs.wf(),
            forall|t: int|
                0 <= t < i ==> match existing@[t] {
                    Some(pr) => existing_prs@.contains_key((#[trigger] segs[t]).bookmark.name@)
                        && existing_prs@[segs[t].bookmark.name@] == pr,
                    None => !existing_prs@.contains_key((#[trigger] segs[t]).bookmark.name@),
                },
            forall|m: Seq<char>| #[trigger]
                existing_prs@.contains_key(m) ==> exists|t: int|
                    0 <= t < i && (#[trigger] segs[t]).bookmark.name@ == m && existing@[t] is Some,
        decreases n - i,
    {
        segments.push(analysis.segments[i].duplicate());
        match &existing[i] {
            Some(pr) => {
                if existing_prs.contains_key(analysis.segments[i].bookmark.name.as_str()) {
                    proof {
                        let t = choose|t: int|
                            0 <= t < i && (#[trigger] segs[t]).bookmark.name@ == segs[i as int].bookmark.name@
                                && existing@[t] is Some;
                        assert(false);
                    }
                }
                existing_prs.insert(analysis.segments[i].bookmark.name.clone(), pr.duplicate());
                proof {
                    assert forall|m: Seq<char>| #[trigger]
                        existing_prs@.contains_key(m) implies exists|t: int|
                        0 <= t < i + 1 && (#[trigger] segs[t]).bookmark.name@ == m && existing@[t] is Some by {
                        if m == segs[i as int].bookmark.name@ {
                            assert(0 <= i < i + 1 && segs[i as int].bookmark.name@ == m
                                && existing@[i as int] is Some);
                        }
                    }
                }
            },
            None => {},
        }
        i += 1;
    }

    let (bookmarks_needing_push, prs_to_create, prs_to_update_base) = derive_operations(
        analysis,
        existing,
        default_branch,
    );

    SubmissionPlan {
        segments,
        bookmarks_needing_push,
        prs_to_create,
        prs_to_update_base,
        existing_prs,
        remote: String::from_str(remote),
        default_branch: String::from_str(default_branch),
    }
}

/// Creates the submission plan: looks up the open pull request for every
/// segment's bookmark in stack order, then derives the operations.
///
/// What the platform returns is not constrained, so the plan is exact with
/// respect to whatever observations came back.
pub fn create_submission_plan<P: PlatformService>(
    analysis: &SubmissionAnalysis,
    platform: &mut P,
    remote: &str,
    default_branch: &str,
) -> (r: Result<SubmissionPlan, RyuError>)
    requires
        segs_distinct(analysis.segments@),
    ensures
        r matches Ok(plan) ==> exists|obs: Seq<Option<PullRequest>>|
            obs.len() == analysis.segments@.len() && plan_matches(
                plan,
                analysis.segments@,
                obs,
                remote@,
                default_branch@,
            ) && plan.existing_prs.wf(),
{
    let n = analysis.segments.len();
    let mut existing: Vec<Option<PullRequest>> = Vec::new();
    let mut i: usize = 0;
    while i < n
        invariant
            n == analysis.segments@.len(),
            i <= n,
            existing@.len() == i,
        decreases n - i,
    {
        let found = match platform.find_existing_pr(analysis.segments[i].bookmark.name.as_str()) {
            Ok(f) => f,
            Err(e) => {
                return Err(e);
            },
        };
        existing.push(found);
        i += 1;
    }
    let plan = plan_from_existing_prs(analysis, &existing, remote, default_branch);
    let res: Result<SubmissionPlan, RyuError> = Ok(plan);
    proof {
        let p = res->Ok_0;
        assert(plan_matches(p, analysis.segments@, existing@, remote@, default_branch@));
        assert(exists|obs: Seq<Option<PullRequest>>|
            obs.len() == analysis.segments@.len() && plan_matches(
                p,
                analysis.segments@,
                obs,
                remote@,
                default_branch@,
            ) && p.existing_prs.wf()) by {
            let obs = existing@;
            assert(obs.len() == analysis.segments@.len() && plan_matches(
                p,
                analysis.segments@,
                obs,
                remote@,
                default_branch@,
            ) && p.existing_prs.wf());
        }
    }
    res
}

/// Planner idempotence: a plan drawn against an already submitted stack —
/// every bookmark synced, every segment with an open pull request on its
/// expected base — plans no push, no creation and no base move.
pub proof fn lemma_planner_idempotent(
    plan: SubmissionPlan,
    segs: Seq<NarrowedBookmarkSegment>,
    existing: Seq<Option<PullRequest>>,
    remote: Seq<char>,
    default_branch: Seq<char>,
)
    requires
        existing.len() == segs.len(),
        plan_matches(plan, segs, existing, remote, default_branch),
        forall|i: int|
            0 <= i < segs.len() ==> (#[trigger] segs[i]).bookmark.has_remote
                && segs[i].bookmark.is_synced,
        forall|i: int|
            0 <= i < segs.len() ==> ((#[trigger] existing[i]) matches Some(pr) && pr.base_ref@
                == spec_base_for(segs, i, default_branch)),
    ensures
        plan.bookmarks_needing_push@.len() == 0,
        plan.prs_to_create@.len() == 0,
        plan.prs_to_update_base@.len() == 0,
{
    lemma_num_pushes_zero(segs, segs.len() as int);
    lemma_num_creates_zero(segs, existing, segs.len() as int);
    lemma_num_updates_zero(segs, existing, default_branch, segs.len() as int);
}

proof fn lemma_num_pushes_zero(segs: Seq<NarrowedBookmarkSegment>, upto: int)
    requires
        upto <= segs.len(),
        forall|i: int|
            0 <= i < segs.len() ==> (#[trigger] segs[i]).bookmark.has_remote
                && segs[i].bookmark.is_synced,
    ensures
        num_pushes(segs, upto) == 0,
    decreases upto,
{
    if upto > 0 {
        lemma_num_pushes_zero(segs, upto - 1);
    }
}

proof fn lemma_num_creates_zero(
    segs: Seq<NarrowedBookmarkSegment>,
    existing: Seq<Option<PullRequest>>,
    upto: int,
)
    requires
        upto <= existing.len(),
        forall|i: int| 0 <= i < existing.len() ==> (#[trigger] existing[i]) is Some,
    ensures
        num_creates(existing, upto) == 0,
    decreases upto,
{
    if upto > 0 {
        lemma_num_creates_zero(segs, existing, upto - 1);
    }
}

proof fn lemma_num_updates_zero(
    segs: Seq<NarrowedBookmarkSegment>,
    existing: Seq<Option<PullRequest>>,
    default_branch: Seq<char>,
    upto: int,
)
    requires
        upto <= existing.len(),
        forall|i: int|
            0 <= i < existing.len() ==> ((#[trigger] existing[i]) matches Some(pr) && pr.base_ref@
                == spec_base_for(segs, i, default_branch)),
    ensures
        num_updates(segs, existing, default_branch, upto) == 0,
    decreases upto,
{
    if upto > 0 {
        lemma_num_updates_zero(segs, existing, default_branch, upto - 1);
    }
}

/// Plan coverage: for every analyzed segment, either its pull request already
/// sits on the expected base, or the plan moves it there, or the plan creates
/// it with the expected base.
pub proof fn lemma_plan_covers_segments(
    plan: SubmissionPlan,
    segs: Seq<NarrowedBookmarkSegment>,
    existing: Seq<Option<PullRequest>>,
    remote: Seq<char>,
    default_branch: Seq<char>,
    i: int,
)
    requires
        existing.len() == segs.len(),
        plan_matches(plan, segs, existing, remote, default_branch),
        0 <= i < segs.len(),
    ensures
        ({
            ||| (existing[i] matches Some(pr) && pr.base_ref@ == spec_base_for(
                segs,
                i,
                default_branch,
            ))
            ||| (exists|j: int|
                0 <= j < plan.prs_to_update_base@.len() && (#[trigger] plan.prs_to_update_base@[j]).bookmark
                    == segs[i].bookmark && plan.prs_to_update_base@[j].expected_base@
                    == spec_base_for(segs, i, default_branch))
            ||| (exists|j: int|
                0 <= j < plan.prs_to_create@.len() && (#[trigger] plan.prs_to_create@[j]).bookmark
                    == segs[i].bookmark && plan.prs_to_create@[j].base_branch@ == spec_base_for(
                    segs,
                    i,
                    default_branch,
                ))
        }),
{
    let n = segs.len() as int;
    match existing[i] {
        Some(pr) => {
            if pr.base_ref@ != spec_base_for(segs, i, default_branch) {
                let j = num_updates(segs, existing, default_branch, i);
                lemma_num_updates_mono(segs, existing, default_branch, 0, i);
                lemma_num_updates_mono(segs, existing, default_branch, i + 1, n);
                assert(num_updates(segs, existing, default_branch, i + 1) == j + 1);
                assert(0 <= j < plan.prs_to_update_base@.len());
                assert(plan.prs_to_update_base@[j].bookmark == segs[i].bookmark);
            }
        },
        None => {
            let j = num_creates(existing, i);
            lemma_num_creates_mono(existing, 0, i);
            lemma_num_creates_mono(existing, i + 1, n);
            assert(num_creates(existing, i + 1) == j + 1);
            assert(0 <= j < plan.prs_to_create@.len());
            assert(plan.prs_to_create@[j].bookmark == segs[i].bookmark);
        },
    }
}

} // verus!
