//! Core data types: bookmarks, log entries, segments, stacks and platform
//! records.
//!
//! Timestamps are held as seconds since the Unix epoch so that all fields are
//! plain values the contracts can speak about.

use vstd::prelude::*;

verus! {

/// A bookmark: a named movable reference to a commit.
#[verifier::ext_equal]
#[derive(Debug, Clone, PartialEq, Eq)]
pub struct Bookmark {
    /// Bookmark name, unique within a workspace.
    pub name: String,
    /// Commit id (hex) the bookmark points at.
    pub commit_id: String,
    /// Change id (hex) of the change at that commit.
    pub change_id: String,
    /// Whether a tracking counterpart exists on any remote.
    pub has_remote: bool,
    /// Whether the remote tip equals the local tip.
    pub is_synced: bool,
}

/// One change on a trunk-to-bookmark path.
#[verifier::ext_equal]
#[derive(Debug, Clone, PartialEq, Eq)]
pub struct LogEntry {
    /// Commit id (hex).
    pub commit_id: String,
    /// Change id (hex); unique within one traversal.
    pub change_id: String,
    /// Author name.
    pub author_name: String,
    /// Author email.
    pub author_email: String,
    /// First line of the change description.
    pub description_first_line: String,
    /// Parent commit ids, in order.  More than one parent marks a merge.
    pub parents: Vec<String>,
    /// Names of the local bookmarks at this change.
    pub local_bookmarks: Vec<String>,
    /// Names of the remote bookmarks at this change (`name@remote`).
    pub remote_bookmarks: Vec<String>,
    /// Whether this change is the working copy.
    pub is_working_copy: bool,
    /// When the change was authored, in seconds since the Unix epoch.
    pub authored_at: i64,
    /// When the change was committed, in seconds since the Unix epoch.
    pub committed_at: i64,
}

/// The mathematical image of a `LogEntry`: every field as a plain value.
pub struct LogEntryView {
    /// Commit id.
    pub commit_id: Seq<char>,
    /// Change id.
    pub change_id: Seq<char>,
    /// Author name.
    pub author_name: Seq<char>,
    /// Author email.
    pub author_email: Seq<char>,
    /// First description line.
    pub description_first_line: Seq<char>,
    /// Parent commit ids.
    pub parents: Seq<Seq<char>>,
    /// Local bookmark names.
    pub local_bookmarks: Seq<Seq<char>>,
    /// Remote bookmark names.
    pub remote_bookmarks: Seq<Seq<char>>,
    /// Working-copy flag.
    pub is_working_copy: bool,
    /// Author timestamp in seconds.
    pub authored_at: int,
    /// Commit timestamp in seconds.
    pub committed_at: int,
}

impl View for LogEntry {
    type V = LogEntryView;

    open spec fn view(&self) -> LogEntryView {
        LogEntryView {
            commit_id: self.commit_id@,
            change_id: self.change_id@,
            author_name: self.author_name@,
            author_email: self.author_email@,
            description_first_line: self.description_first_line@,
            parents: self.parents.deep_view(),
            local_bookmarks: self.local_bookmarks.deep_view(),
            remote_bookmarks: self.remote_bookmarks.deep_view(),
            is_working_copy: self.is_working_copy,
            authored_at: self.authored_at as int,
            committed_at: self.committed_at as int,
        }
    }
}

impl DeepView for LogEntry {
    type V = LogEntryView;

    open spec fn deep_view(&self) -> LogEntryView {
        self.view()
    }
}

/// An element-wise copy of a vector of strings.
pub fn clone_string_vec(v: &Vec<String>) -> (r: Vec<String>)
    ensures
        r@ == v@,
{
    let mut r: Vec<String> = Vec::new();
    let mut i: usize = 0;
    while i < v.len()
        invariant
            i <= v@.len(),
            r@ =~= v@.take(i as int),
        decreases v@.len() - i,
    {
        r.push(v[i].clone());
        i += 1;
    }
    proof {
        assert(r@ =~= v@);
    }
    r
}

impl Bookmark {
    /// A copy equal to `self`.
    pub fn duplicate(&self) -> (r: Bookmark)
        ensures
            r == *self,
    {
        let r = Bookmark {
            name: self.name.clone(),
            commit_id: self.commit_id.clone(),
            change_id: self.change_id.clone(),
            has_remote: self.has_remote,
            is_synced: self.is_synced,
        };
        proof {
            assert(r =~= *self);
        }
        r
    }
}

impl LogEntry {
    /// A copy equal to `self`.
    pub fn duplicate(&self) -> (r: LogEntry)
        ensures
            r@ == self@,
    {
        let r = LogEntry {
            commit_id: self.commit_id.clone(),
            change_id: self.change_id.clone(),
            author_name: self.author_name.clone(),
            author_email: self.author_email.clone(),
            description_first_line: self.description_first_line.clone(),
            parents: clone_string_vec(&self.parents),
            local_bookmarks: clone_string_vec(&self.local_bookmarks),
            remote_bookmarks: clone_string_vec(&self.remote_bookmarks),
            is_working_copy: self.is_working_copy,
            authored_at: self.authored_at,
            committed_at: self.committed_at,
        };
        proof {
            assert(r.parents.deep_view() =~= self.parents.deep_view());
            assert(r.local_bookmarks.deep_view() =~= self.local_bookmarks.deep_view());
            assert(r.remote_bookmarks.deep_view() =~= self.remote_bookmarks.deep_view());
            assert(r@ =~= self@);
        }
        r
    }
}

/// An element-wise copy of a vector of log entries.
pub fn clone_entries(v: &Vec<LogEntry>) -> (r: Vec<LogEntry>)
    ensures
        r.deep_view() == v.deep_view(),
{
    let mut r: Vec<LogEntry> = Vec::new();
    let mut i: usize = 0;
    while i < v.len()
        invariant
            i <= v@.len(),
            r.deep_view() =~= v.deep_view().take(i as int),
        decreases v@.len() - i,
    {
        let ghost prev = r.deep_view();
        r.push(v[i].duplicate());
        proof {
            assert(r.deep_view() =~= prev.push(v@[i as int]@));
            assert(r.deep_view() =~= v.deep_view().take(i + 1));
        }
        i += 1;
    }
    proof {
        assert(r.deep_view() =~= v.deep_view());
    }
    r
}

/// A maximal run of consecutive changes whose newest change carries one or
/// more local bookmarks.  `changes` is ordered newest first; the segment's
/// identity is `changes[0].change_id`.
#[verifier::ext_equal]
#[derive(Debug, Clone)]
pub struct BookmarkSegment {
    /// Bookmarks at the tip of this segment.
    pub bookmarks: Vec<Bookmark>,
    /// Changes in this segment, newest first.
    pub changes: Vec<LogEntry>,
}

/// A segment narrowed to a single deterministically selected bookmark.
#[verifier::ext_equal]
#[derive(Debug, Clone)]
pub struct NarrowedBookmarkSegment {
    /// The selected bookmark for this segment.
    pub bookmark: Bookmark,
    /// Changes in this segment, newest first.
    pub changes: Vec<LogEntry>,
}

impl NarrowedBookmarkSegment {
    /// A copy equal to `self`.
    pub fn duplicate(&self) -> (r: NarrowedBookmarkSegment)
        ensures
            r.bookmark == self.bookmark,
            r.changes.deep_view() == self.changes.deep_view(),
    {
        NarrowedBookmarkSegment {
            bookmark: self.bookmark.duplicate(),
            changes: clone_entries(&self.changes),
        }
    }
}

/// An ordered list of segments from a trunk-adjacent root to a leaf.
#[verifier::ext_equal]
#[derive(Debug, Clone)]
pub struct BranchStack {
    /// Segments from root (index 0) to leaf (last index).
    pub segments: Vec<BookmarkSegment>,
}

/// The complete change graph for a repository: bookmarks, segments keyed by
/// their head change id, the parent pointer between segment heads, roots,
/// leaves, assembled stacks and the count of merge-excluded bookmarks.
#[derive(Debug, Clone)]
pub struct ChangeGraph {
    /// All bookmarks by name.
    pub bookmarks: crate::strmap::StrMap<Bookmark>,
    /// Bookmark name to the change id of the segment head that carries it.
    pub bookmark_to_change_id: crate::strmap::StrMap<String>,
    /// Child segment head to parent segment head.
    pub bookmarked_change_adjacency_list: crate::strmap::StrMap<String>,
    /// Segment head change id to the changes of that segment, newest first.
    pub bookmarked_change_id_to_segment: crate::strmap::StrMap<Vec<LogEntry>>,
    /// Segment heads with no child.
    pub stack_leafs: crate::strmap::StrSet,
    /// Segment heads whose parent is trunk.
    pub stack_roots: crate::strmap::StrSet,
    /// All stacks, one per leaf, ordered root to leaf inside.
    pub stacks: Vec<BranchStack>,
    /// Bookmarks excluded because of merge changes.
    pub excluded_bookmark_count: usize,
}

/// A pull request or merge request, modeled uniformly.
#[verifier::ext_equal]
#[derive(Debug, Clone, PartialEq, Eq)]
pub struct PullRequest {
    /// PR/MR number.
    pub number: u64,
    /// Web URL of the PR/MR.
    pub html_url: String,
    /// Base branch name.
    pub base_ref: String,
    /// Head branch name.
    pub head_ref: String,
    /// Title.
    pub title: String,
}

impl PullRequest {
    /// A copy equal to `self`.
    pub fn duplicate(&self) -> (r: PullRequest)
        ensures
            r == *self,
    {
        let r = PullRequest {
            number: self.number,
            html_url: self.html_url.clone(),
            base_ref: self.base_ref.clone(),
            head_ref: self.head_ref.clone(),
            title: self.title.clone(),
        };
        proof {
            assert(r =~= *self);
        }
        r
    }
}

/// A comment on a pull request.
#[verifier::ext_equal]
#[derive(Debug, Clone, PartialEq, Eq)]
pub struct PrComment {
    /// Comment id.
    pub id: u64,
    /// Comment body text.
    pub body: String,
}

/// A git remote.
#[verifier::ext_equal]
#[derive(Debug, Clone, PartialEq, Eq)]
pub struct GitRemote {
    /// Remote name, such as `origin`.
    pub name: String,
    /// Remote URL.
    pub url: String,
}

/// The hosting platform a remote was classified as.
#[derive(Debug, Clone, Copy, PartialEq, Eq, Structural)]
pub enum Platform {
    /// GitHub or GitHub Enterprise.
    GitHub,
    /// GitLab or self-hosted GitLab.
    GitLab,
}

/// Classification of one remote: platform, owner path, repository name and
/// an optional self-hosted host.
#[verifier::ext_equal]
#[derive(Debug, Clone, PartialEq, Eq)]
pub struct PlatformConfig {
    /// Platform kind.
    pub platform: Platform,
    /// Repository owner; nested group paths are joined with `/`.
    pub owner: String,
    /// Repository name.
    pub repo: String,
    /// Host when not the public host, else `None`.
    pub host: Option<String>,
}

} // verus!
