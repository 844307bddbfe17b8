//! Graph builder behavior: path walking, segment materialization, stack
//! discovery, merge-taint exclusion and multi-bookmark segments.

use jj_ryu::graph::builder::build_change_graph;
use jj_ryu::graph::builder::build_path_to_root;
use jj_ryu::graph::builder::build_segments;
use jj_ryu::strmap::StrMap;
use jj_ryu::types::Bookmark;
use jj_ryu::types::LogEntry;

fn make_bookmark(name: &str) -> Bookmark {
    Bookmark {
        name: name.to_string(),
        commit_id: format!("{name}_commit"),
        change_id: format!("{name}_change"),
        has_remote: false,
        is_synced: false,
    }
}

fn make_entry(change_id: &str, bookmarks: &[&str], parents: &[&str]) -> LogEntry {
    LogEntry {
        commit_id: format!("{change_id}_commit"),
        change_id: change_id.to_string(),
        author_name: "Test Author".to_string(),
        author_email: "test@example.com".to_string(),
        description_first_line: format!("Commit for {change_id}"),
        parents: parents.iter().map(|p| p.to_string()).collect(),
        local_bookmarks: bookmarks.iter().map(|b| b.to_string()).collect(),
        remote_bookmarks: vec![],
        is_working_copy: false,
        authored_at: 0,
        committed_at: 0,
    }
}

#[test]
fn test_build_path_to_root_single() {
    let adjacency: StrMap<String> = StrMap::new();
    let path = build_path_to_root("leaf", &adjacency);
    assert_eq!(path, vec!["leaf"]);
}

#[test]
fn test_build_path_to_root_chain() {
    let mut adjacency: StrMap<String> = StrMap::new();
    adjacency.insert("c".to_string(), "b".to_string());
    adjacency.insert("b".to_string(), "a".to_string());

    let path = build_path_to_root("c", &adjacency);
    assert_eq!(path, vec!["a", "b", "c"]);
}

#[test]
fn test_build_segments_empty() {
    let bookmarks: StrMap<Bookmark> = StrMap::new();
    let change_id_to_segment: StrMap<Vec<LogEntry>> = StrMap::new();

    let segments = build_segments(&vec!["id1".to_string()], &bookmarks, &change_id_to_segment);
    assert!(segments.is_empty());
}

#[test]
fn test_linear_three_bookmark_stack() {
    // Bookmarks a, b, c with a on trunk, b on a, c on b.
    let bookmarks = vec![make_bookmark("a"), make_bookmark("b"), make_bookmark("c")];
    let logs = vec![
        vec![make_entry("a_change", &["a"], &["trunk_commit"])],
        vec![
            make_entry("b_change", &["b"], &["a_change_commit"]),
            make_entry("a_change", &["a"], &["trunk_commit"]),
        ],
        vec![
            make_entry("c_change", &["c"], &["b_change_commit"]),
            make_entry("b_change", &["b"], &["a_change_commit"]),
            make_entry("a_change", &["a"], &["trunk_commit"]),
        ],
    ];
    let graph = build_change_graph(&bookmarks, &logs).unwrap();

    assert_eq!(graph.stacks.len(), 1);
    let stack = &graph.stacks[0];
    assert_eq!(stack.segments.len(), 3);
    assert_eq!(stack.segments[0].bookmarks[0].name, "a");
    assert_eq!(stack.segments[1].bookmarks[0].name, "b");
    assert_eq!(stack.segments[2].bookmarks[0].name, "c");
    assert!(graph.stack_roots.contains("a_change"));
    assert!(graph.stack_leafs.contains("c_change"));
    assert_eq!(graph.excluded_bookmark_count, 0);
    assert_eq!(graph.bookmarks.len(), 3);
}

#[test]
fn test_merge_tainted_bookmark_excluded() {
    // A bookmark whose path holds a two-parent change is excluded, and a
    // sibling whose path reaches the tainted change is excluded in turn.
    let bookmarks = vec![make_bookmark("m"), make_bookmark("d")];
    let logs = vec![
        vec![make_entry("m_change", &["m"], &["p1", "p2"])],
        vec![
            make_entry("d_change", &["d"], &["m_change_commit"]),
            make_entry("m_change", &["m"], &["p1", "p2"]),
        ],
    ];
    let graph = build_change_graph(&bookmarks, &logs).unwrap();
    assert_eq!(graph.excluded_bookmark_count, 2);
    assert_eq!(graph.stacks.len(), 0);
    assert!(!graph.bookmark_to_change_id.contains_key("m"));
    assert!(!graph.bookmark_to_change_id.contains_key("d"));
}

#[test]
fn test_merge_taint_spreads_through_tainted_id() {
    // The descendant's own list shows the tainted change id with a single
    // parent: the recorded taint, not merge detection, excludes it.
    let bookmarks = vec![make_bookmark("m"), make_bookmark("d")];
    let logs = vec![
        vec![make_entry("m_change", &["m"], &["p1", "p2"])],
        vec![
            make_entry("d_change", &["d"], &["m_change_commit"]),
            make_entry("m_change", &[], &["p1"]),
        ],
    ];
    let graph = build_change_graph(&bookmarks, &logs).unwrap();
    assert_eq!(graph.excluded_bookmark_count, 2);
    assert!(!graph.bookmark_to_change_id.contains_key("d"));
}

#[test]
fn test_multi_bookmark_segment() {
    // Two bookmarks at the same change share one segment.
    let bookmarks = vec![make_bookmark("x"), make_bookmark("y")];
    let shared = make_entry("shared_change", &["x", "y"], &["trunk_commit"]);
    let logs = vec![vec![shared.clone()], vec![shared.clone()]];
    let graph = build_change_graph(&bookmarks, &logs).unwrap();

    assert_eq!(graph.stacks.len(), 1);
    assert_eq!(graph.stacks[0].segments.len(), 1);
    let seg = &graph.stacks[0].segments[0];
    assert_eq!(seg.bookmarks.len(), 2);
    assert_eq!(seg.bookmarks[0].name, "x");
    assert_eq!(seg.bookmarks[1].name, "y");
    assert_eq!(graph.bookmark_to_change_id.get("y").unwrap(), "shared_change");
    assert_eq!(graph.bookmark_to_change_id.get("x").unwrap(), "shared_change");
}

#[test]
fn test_interior_changes_belong_to_segment() {
    // Unbookmarked changes above a boundary stay in the bookmark's segment.
    let bookmarks = vec![make_bookmark("a")];
    let logs = vec![vec![
        make_entry("a_change", &["a"], &["mid_commit"]),
        make_entry("mid_change", &[], &["trunk_commit"]),
    ]];
    let graph = build_change_graph(&bookmarks, &logs).unwrap();
    assert_eq!(graph.stacks.len(), 1);
    let seg = &graph.stacks[0].segments[0];
    assert_eq!(seg.changes.len(), 2);
    assert_eq!(seg.changes[0].change_id, "a_change");
    assert_eq!(seg.changes[1].change_id, "mid_change");
}

#[test]
fn test_two_stacks_from_two_roots() {
    let bookmarks = vec![make_bookmark("a"), make_bookmark("x")];
    let logs = vec![
        vec![make_entry("a_change", &["a"], &["trunk_commit"])],
        vec![make_entry("x_change", &["x"], &["trunk_commit"])],
    ];
    let graph = build_change_graph(&bookmarks, &logs).unwrap();
    assert_eq!(graph.stacks.len(), 2);
    assert_eq!(graph.stack_roots.len(), 2);
    assert_eq!(graph.stack_leafs.len(), 2);
}

#[test]
fn test_trunk_level_bookmark_is_silent() {
    // An empty trunk-to-bookmark list yields no segment and no exclusion.
    let bookmarks = vec![make_bookmark("t")];
    let logs: Vec<Vec<LogEntry>> = vec![vec![]];
    let graph = build_change_graph(&bookmarks, &logs).unwrap();
    assert_eq!(graph.excluded_bookmark_count, 0);
    assert_eq!(graph.stacks.len(), 0);
    assert!(!graph.bookmark_to_change_id.contains_key("t"));
}
