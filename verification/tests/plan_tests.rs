//! Submission analysis and planning: expected bases, titles, the minimal
//! operation set, and planner idempotence.

use jj_ryu::error::RyuError;
use jj_ryu::graph::builder::build_change_graph;
use jj_ryu::strmap::StrMap;
use jj_ryu::submit::analyze_submission;
use jj_ryu::submit::generate_pr_title;
use jj_ryu::submit::get_base_branch;
use jj_ryu::submit::plan::plan_from_existing_prs;
use jj_ryu::submit::PrToCreate;
use jj_ryu::submit::SubmissionPlan;
use jj_ryu::types::Bookmark;
use jj_ryu::types::LogEntry;
use jj_ryu::types::NarrowedBookmarkSegment;
use jj_ryu::types::PullRequest;

fn make_bookmark(name: &str, has_remote: bool, is_synced: bool) -> Bookmark {
    Bookmark {
        name: name.to_string(),
        commit_id: format!("{name}_commit"),
        change_id: format!("{name}_change"),
        has_remote,
        is_synced,
    }
}

fn make_entry(change_id: &str, desc: &str, bookmarks: &[&str]) -> LogEntry {
    LogEntry {
        commit_id: format!("{change_id}_commit"),
        change_id: change_id.to_string(),
        author_name: "Test Author".to_string(),
        author_email: "test@example.com".to_string(),
        description_first_line: desc.to_string(),
        parents: vec!["parent".to_string()],
        local_bookmarks: bookmarks.iter().map(|b| b.to_string()).collect(),
        remote_bookmarks: vec![],
        is_working_copy: false,
        authored_at: 0,
        committed_at: 0,
    }
}

fn make_segment(name: &str, desc: &str, has_remote: bool, is_synced: bool) -> NarrowedBookmarkSegment {
    NarrowedBookmarkSegment {
        bookmark: make_bookmark(name, has_remote, is_synced),
        changes: vec![make_entry(&format!("{name}_change"), desc, &[name])],
    }
}

fn make_pr(number: u64, head: &str, base: &str) -> PullRequest {
    PullRequest {
        number,
        html_url: format!("https://github.com/test/repo/pull/{number}"),
        base_ref: base.to_string(),
        head_ref: head.to_string(),
        title: format!("PR for {head}"),
    }
}

#[test]
fn test_bookmark_needs_push() {
    // No remote tracking
    let bm1 = make_bookmark("feat-a", false, false);
    assert!(!bm1.has_remote || !bm1.is_synced);

    // Has remote but not synced
    let bm2 = make_bookmark("feat-b", true, false);
    assert!(!bm2.has_remote || !bm2.is_synced);

    // Fully synced - doesn't need push
    let bm3 = make_bookmark("feat-c", true, true);
    assert!(bm3.has_remote && bm3.is_synced);
}

#[test]
fn test_pr_to_create_structure() {
    let pr_create = PrToCreate {
        bookmark: make_bookmark("feat-a", false, false),
        base_branch: "main".to_string(),
        title: "Add feature A".to_string(),
    };

    assert_eq!(pr_create.bookmark.name, "feat-a");
    assert_eq!(pr_create.base_branch, "main");
    assert_eq!(pr_create.title, "Add feature A");
}

#[test]
fn test_submission_plan_structure() {
    let plan = SubmissionPlan {
        segments: vec![make_segment("feat-a", "Test", false, false)],
        bookmarks_needing_push: vec![make_bookmark("feat-a", false, false)],
        prs_to_create: vec![PrToCreate {
            bookmark: make_bookmark("feat-a", false, false),
            base_branch: "main".to_string(),
            title: "Test".to_string(),
        }],
        prs_to_update_base: vec![],
        existing_prs: StrMap::new(),
        remote: "origin".to_string(),
        default_branch: "main".to_string(),
    };

    assert_eq!(plan.segments.len(), 1);
    assert_eq!(plan.bookmarks_needing_push.len(), 1);
    assert_eq!(plan.prs_to_create.len(), 1);
    assert!(plan.prs_to_update_base.is_empty());
}

#[test]
fn test_base_branch_derivation() {
    let segments = vec![
        make_segment("a", "Add A", false, false),
        make_segment("b", "Add B", false, false),
    ];
    assert_eq!(get_base_branch("a", &segments, "main").unwrap(), "main");
    assert_eq!(get_base_branch("b", &segments, "main").unwrap(), "a");
    assert!(matches!(
        get_base_branch("zz", &segments, "main").unwrap_err(),
        RyuError::BookmarkNotFound(_)
    ));
}

#[test]
fn test_pr_title_derivation() {
    let segments = vec![
        make_segment("a", "Add feature A", false, false),
        make_segment("b", "", false, false),
    ];
    assert_eq!(generate_pr_title("a", &segments).unwrap(), "Add feature A");
    // An empty description falls back to the bookmark name.
    assert_eq!(generate_pr_title("b", &segments).unwrap(), "b");
    assert!(matches!(
        generate_pr_title("zz", &segments).unwrap_err(),
        RyuError::BookmarkNotFound(_)
    ));
}

#[test]
fn test_plan_three_creates_with_stacked_bases() {
    let analysis = jj_ryu::submit::SubmissionAnalysis {
        segments: vec![
            make_segment("a", "Add A", false, false),
            make_segment("b", "Add B", false, false),
            make_segment("c", "Add C", false, false),
        ],
    };
    let existing: Vec<Option<PullRequest>> = vec![None, None, None];
    let plan = plan_from_existing_prs(&analysis, &existing, "origin", "main");

    assert_eq!(plan.bookmarks_needing_push.len(), 3);
    assert_eq!(plan.prs_to_create.len(), 3);
    assert!(plan.prs_to_update_base.is_empty());
    assert_eq!(plan.prs_to_create[0].base_branch, "main");
    assert_eq!(plan.prs_to_create[1].base_branch, "a");
    assert_eq!(plan.prs_to_create[2].base_branch, "b");
    assert_eq!(plan.prs_to_create[0].title, "Add A");
    assert_eq!(plan.remote, "origin");
    assert_eq!(plan.default_branch, "main");
}

#[test]
fn test_planner_idempotent_on_submitted_stack() {
    // All synced, all pull requests present on their expected bases.
    let analysis = jj_ryu::submit::SubmissionAnalysis {
        segments: vec![
            make_segment("a", "Add A", true, true),
            make_segment("b", "Add B", true, true),
        ],
    };
    let existing = vec![Some(make_pr(1, "a", "main")), Some(make_pr(2, "b", "a"))];
    let plan = plan_from_existing_prs(&analysis, &existing, "origin", "main");

    assert!(plan.bookmarks_needing_push.is_empty());
    assert!(plan.prs_to_create.is_empty());
    assert!(plan.prs_to_update_base.is_empty());
    assert_eq!(plan.existing_prs.len(), 2);
}

#[test]
fn test_plan_moves_base_after_merge() {
    // The pull request for b still targets a after a's merge: the planner
    // moves it onto the default branch.
    let analysis = jj_ryu::submit::SubmissionAnalysis {
        segments: vec![make_segment("sync-b", "Sync B", true, true)],
    };
    let existing = vec![Some(make_pr(2, "sync-b", "sync-a"))];
    let plan = plan_from_existing_prs(&analysis, &existing, "origin", "main");

    assert!(plan.bookmarks_needing_push.is_empty());
    assert!(plan.prs_to_create.is_empty());
    assert_eq!(plan.prs_to_update_base.len(), 1);
    assert_eq!(plan.prs_to_update_base[0].current_base, "sync-a");
    assert_eq!(plan.prs_to_update_base[0].expected_base, "main");
    assert_eq!(plan.prs_to_update_base[0].bookmark.name, "sync-b");
}

#[test]
fn test_analyze_partial_stack() {
    // Submitting b from a three-bookmark stack analyzes only a and b.
    let bookmarks = vec![
        make_bookmark("a", false, false),
        make_bookmark("b", false, false),
        make_bookmark("c", false, false),
    ];
    let logs = vec![
        vec![make_entry("a_change", "Add A", &["a"])],
        vec![
            make_entry("b_change", "Add B", &["b"]),
            make_entry("a_change", "Add A", &["a"]),
        ],
        vec![
            make_entry("c_change", "Add C", &["c"]),
            make_entry("b_change", "Add B", &["b"]),
            make_entry("a_change", "Add A", &["a"]),
        ],
    ];
    let graph = build_change_graph(&bookmarks, &logs).unwrap();
    let analysis = analyze_submission(&graph, "b").unwrap();
    assert_eq!(analysis.segments.len(), 2);
    assert_eq!(analysis.segments[0].bookmark.name, "a");
    assert_eq!(analysis.segments[1].bookmark.name, "b");
}

#[test]
fn test_analyze_unknown_bookmark() {
    let bookmarks = vec![make_bookmark("a", false, false)];
    let logs = vec![vec![make_entry("a_change", "Add A", &["a"])]];
    let graph = build_change_graph(&bookmarks, &logs).unwrap();
    let err = analyze_submission(&graph, "nope").unwrap_err();
    assert!(matches!(err, RyuError::BookmarkNotFound(_)));
}

#[test]
fn test_narrowing_picks_first_bookmark() {
    let bookmarks = vec![
        make_bookmark("x", false, false),
        make_bookmark("y", false, false),
    ];
    let shared = LogEntry {
        local_bookmarks: vec!["x".to_string(), "y".to_string()],
        ..make_entry("shared_change", "Shared", &[])
    };
    let logs = vec![vec![shared.clone()], vec![shared.clone()]];
    let graph = build_change_graph(&bookmarks, &logs).unwrap();
    let analysis = analyze_submission(&graph, "y").unwrap();
    assert_eq!(analysis.segments.len(), 1);
    assert_eq!(analysis.segments[0].bookmark.name, "x");
}
