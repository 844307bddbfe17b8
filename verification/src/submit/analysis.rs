//! Submission analysis: the ordered list of narrowed segments from trunk up
//! to a target bookmark, and the expected base and title of each one.

use crate::error::RyuError;
use crate::graph::builder::graph_wf;
use crate::graph::builder::resolve_bookmarks;
use crate::strmap::StrMap;
use crate::types::Bookmark;
use crate::types::ChangeGraph;
use crate::types::NarrowedBookmarkSegment;
use vstd::prelude::*;

verus! {

/// The analyzed stack for one submission: narrowed segments ordered from the
/// trunk-adjacent root (index 0) up to the target bookmark's segment.
#[derive(Debug)]
pub struct SubmissionAnalysis {
    /// Narrowed segments, root first.
    pub segments: Vec<NarrowedBookmarkSegment>,
}

/// The head change id of a narrowed segment.
pub open spec fn narrowed_head(s: NarrowedBookmarkSegment) -> Seq<char> {
    s.changes@[0]@.change_id
}

/// The narrowed segments stand for the given path of segment heads in the
/// graph: each one holds the stored changes of its head and the first
/// resolvable bookmark at that head.
pub open spec fn narrowed_matches(
    graph: ChangeGraph,
    ids: Seq<Seq<char>>,
    segs: Seq<NarrowedBookmarkSegment>,
) -> bool {
    let segmap = graph.bookmarked_change_id_to_segment;
    &&& segs.len() == ids.len()
    &&& forall|t: int|
        0 <= t < segs.len() ==> {
            let s = #[trigger] segs[t];
            &&& segmap@.contains_key(ids[t])
            &&& s.changes@.len() > 0
            &&& narrowed_head(s) == ids[t]
            &&& s.changes.deep_view() == segmap@[ids[t]].deep_view()
            &&& resolve_bookmarks(segmap@[ids[t]]@[0]@.local_bookmarks, graph.bookmarks@).len() > 0
            &&& s.bookmark == resolve_bookmarks(
                segmap@[ids[t]]@[0]@.local_bookmarks,
                graph.bookmarks@,
            )[0]
        }
}

/// Picks the bookmark that narrows a segment: the first bookmark listed at
/// the segment's head that the graph knows; none of them known is an internal
/// error.
pub fn select_bookmark_for_segment(
    head_bookmark_names: &Vec<String>,
    bookmarks: &StrMap<Bookmark>,
) -> (r: Result<Bookmark, RyuError>)
    requires
        bookmarks.wf(),
    ensures
        ({
            let resolved = resolve_bookmarks(head_bookmark_names.deep_view(), bookmarks@);
            match r {
                Ok(b) => resolved.len() > 0 && b == resolved[0],
                Err(e) => resolved.len() == 0 && e is Internal,
            }
        }),
{
    let ghost names = head_bookmark_names.deep_view();
    let mut j: usize = 0;
    while j < head_bookmark_names.len()
        invariant
            bookmarks.wf(),
            names == head_bookmark_names.deep_view(),
            j <= names.len(),
            resolve_bookmarks(names.take(j as int), bookmarks@) =~= Seq::<Bookmark>::empty(),
        decreases names.len() - j,
    {
        match bookmarks.get(head_bookmark_names[j].as_str()) {
            Some(b) => {
                proof {
                    lemma_resolve_first(names, bookmarks@, j as int);
                }
                return Ok(b.duplicate());
            },
            None => {
                proof {
                    assert(names.take(j + 1).drop_last() =~= names.take(j as int));
                    assert(names.take(j + 1).last() == names[j as int]);
                    assert(resolve_bookmarks(names.take(j + 1), bookmarks@) =~= Seq::<
                        Bookmark,
                    >::empty());
                }
            },
        }
        j += 1;
    }
    proof {
        assert(names.take(names.len() as int) =~= names);
        reveal_strlit("segment head without a known bookmark");
    }
    Err(RyuError::Internal(String::from_str("segment head without a known bookmark")))
}

/// With no name before `j` resolvable and the name at `j` resolvable, the
/// resolved list starts with the bookmark at `j`.
proof fn lemma_resolve_first(names: Seq<Seq<char>>, bm: Map<Seq<char>, Bookmark>, j: int)
    requires
        0 <= j < names.len(),
        resolve_bookmarks(names.take(j), bm) =~= Seq::<Bookmark>::empty(),
        bm.contains_key(names[j]),
    ensures
        resolve_bookmarks(names, bm).len() > 0,
        resolve_bookmarks(names, bm)[0] == bm[names[j]],
    decreases names.len(),
{
    if names.len() == j + 1 {
        assert(names.drop_last() =~= names.take(j));
        assert(names.last() == names[j]);
    } else {
        assert(names.drop_last().take(j) =~= names.take(j));
        assert(names.drop_last()[j] == names[j]);
        lemma_resolve_first(names.drop_last(), bm, j);
    }
}

/// A name list with some known name resolves to a nonempty bookmark list.
pub proof fn lemma_resolve_nonempty(names: Seq<Seq<char>>, bm: Map<Seq<char>, Bookmark>)
    requires
        exists|j: int| 0 <= j < names.len() && bm.contains_key(#[trigger] names[j]),
    ensures
        resolve_bookmarks(names, bm).len() > 0,
    decreases names.len(),
{
    let j = choose|j: int| 0 <= j < names.len() && bm.contains_key(#[trigger] names[j]);
    if j == names.len() - 1 {
        assert(names.last() == names[j]);
    } else {
        assert(names.drop_last()[j] == names[j]);
        lemma_resolve_nonempty(names.drop_last(), bm);
    }
}

/// The first resolved bookmark is the record of some listed name.
pub proof fn lemma_resolve_member(names: Seq<Seq<char>>, bm: Map<Seq<char>, Bookmark>)
    requires
        resolve_bookmarks(names, bm).len() > 0,
    ensures
        exists|w: int|
            0 <= w < names.len() && bm.contains_key(#[trigger] names[w]) && resolve_bookmarks(
                names,
                bm,
            )[0] == bm[names[w]],
    decreases names.len(),
{
    if names.len() > 0 {
        if resolve_bookmarks(names.drop_last(), bm).len() > 0 {
            lemma_resolve_member(names.drop_last(), bm);
            let w = choose|w: int|
                0 <= w < names.drop_last().len() && bm.contains_key(#[trigger] names.drop_last()[w])
                    && resolve_bookmarks(names.drop_last(), bm)[0] == bm[names.drop_last()[w]];
            assert(names[w] == names.drop_last()[w]);
            assert(resolve_bookmarks(names, bm)[0] == resolve_bookmarks(names.drop_last(), bm)[0]);
        } else {
            assert(bm.contains_key(names.last()));
            assert(resolve_bookmarks(names, bm)[0] == bm[names.last()]);
            assert(names[names.len() - 1] == names.last());
        }
    }
}

/// The bookmark names of narrowed segments are pairwise distinct.
pub open spec fn segs_distinct(segs: Seq<NarrowedBookmarkSegment>) -> bool {
    forall|i: int, j: int|
        0 <= i < j < segs.len() ==> (#[trigger] segs[i]).bookmark.name@ != (
        #[trigger] segs[j]).bookmark.name@
}

/// Every stored segment head resolves to at least one known bookmark.
pub open spec fn graph_heads_resolvable(graph: ChangeGraph) -> bool {
    forall|k: Seq<char>| #[trigger]
        graph.bookmarked_change_id_to_segment@.contains_key(k) ==> resolve_bookmarks(
            graph.bookmarked_change_id_to_segment@[k]@[0]@.local_bookmarks,
            graph.bookmarks@,
        ).len() > 0
}

/// Materializes narrowed segments for a root-to-leaf path of segment heads.
#[verifier::rlimit(60)]
pub fn create_narrowed_segments(
    stack_change_ids: &Vec<String>,
    graph: &ChangeGraph,
) -> (r: Result<Vec<NarrowedBookmarkSegment>, RyuError>)
    requires
        graph_wf(*graph),
        forall|t: int|
            0 <= t < stack_change_ids@.len()
                ==> graph.bookmarked_change_id_to_segment@.contains_key(
                (#[trigger] stack_change_ids@[t])@,
            ),
    ensures
        match r {
            Ok(segs) => narrowed_matches(*graph, stack_change_ids.deep_view(), segs@),
            Err(e) => e is Internal,
        },
        graph_heads_resolvable(*graph) ==> r is Ok,
{
    let ghost ids = stack_change_ids.deep_view();
    let mut segs: Vec<NarrowedBookmarkSegment> = Vec::new();
    let mut t: usize = 0;
    while t < stack_change_ids.len()
        invariant
            graph_wf(*graph),
            ids == stack_change_ids.deep_view(),
            forall|u: int|
                0 <= u < ids.len() ==> graph.bookmarked_change_id_to_segment@.contains_key(
                    (#[trigger] stack_change_ids@[u])@,
                ),
            t <= ids.len(),
            segs@.len() == t,
            narrowed_matches(*graph, ids.take(t as int), segs@),
        decreases ids.len() - t,
    {
        let id = &stack_change_ids[t];
        match graph.bookmarked_change_id_to_segment.get(id.as_str()) {
            Some(changes) => {
                let bookmark = match select_bookmark_for_segment(
                    &changes[0].local_bookmarks,
                    &graph.bookmarks,
                ) {
                    Ok(b) => b,
                    Err(e) => {
                        proof {
                            assert(changes@[0]@.local_bookmarks
                                == changes[0].local_bookmarks.deep_view());
                        }
                        return Err(e);
                    },
                };
                let seg = NarrowedBookmarkSegment {
                    bookmark,
                    changes: crate::types::clone_entries(changes),
                };
                proof {
                    assert(seg.changes.deep_view() == changes.deep_view());
                    assert(seg.changes.deep_view().len() == seg.changes@.len());
                    assert(changes.deep_view().len() == changes@.len());
                    assert(seg.changes@[0]@ == seg.changes.deep_view()[0]);
                    assert(changes@[0]@ == changes.deep_view()[0]);
                    assert(changes@[0]@.local_bookmarks == changes[0].local_bookmarks.deep_view());
                }
                segs.push(seg);
                proof {
                    assert(ids.take(t + 1).drop_last() =~= ids.take(t as int));
                    assert(segs@.drop_last() =~= segs@.take(t as int));
                    assert(narrowed_matches(*graph, ids.take(t + 1), segs@));
                }
            },
            None => {
                proof {
                    assert(false);
                }
            },
        }
        t += 1;
    }
    proof {
        assert(ids.take(ids.len() as int) =~= ids);
    }
    Ok(segs)
}

/// Narrowed segments over pairwise-distinct heads carry pairwise-distinct
/// bookmarks: each selected name is registered at exactly its own head.
proof fn lemma_narrowed_distinct(
    graph: ChangeGraph,
    ids: Seq<Seq<char>>,
    segs: Seq<NarrowedBookmarkSegment>,
)
    requires
        graph_wf(graph),
        narrowed_matches(graph, ids, segs),
        forall|t1: int, t2: int| 0 <= t1 < t2 < ids.len() ==> (#[trigger] ids[t1]) != (#[trigger] ids[t2]),
    ensures
        segs_distinct(segs),
{
    let segmap = graph.bookmarked_change_id_to_segment;
    assert forall|t1: int, t2: int| 0 <= t1 < t2 < segs.len() implies (
    #[trigger] segs[t1]).bookmark.name@ != (#[trigger] segs[t2]).bookmark.name@ by {
        assert(ids[t1] != ids[t2]);
        assert(narrowed_head(segs[t1]) == ids[t1]);
        assert(narrowed_head(segs[t2]) == ids[t2]);
        let names1 = segmap@[ids[t1]]@[0]@.local_bookmarks;
        let names2 = segmap@[ids[t2]]@[0]@.local_bookmarks;
        assert(resolve_bookmarks(names1, graph.bookmarks@).len() > 0);
        assert(resolve_bookmarks(names2, graph.bookmarks@).len() > 0);
        lemma_resolve_member(names1, graph.bookmarks@);
        lemma_resolve_member(names2, graph.bookmarks@);
        let w1 = choose|w: int|
            0 <= w < names1.len() && graph.bookmarks@.contains_key(#[trigger] names1[w])
                && resolve_bookmarks(names1, graph.bookmarks@)[0] == graph.bookmarks@[names1[w]];
        let w2 = choose|w: int|
            0 <= w < names2.len() && graph.bookmarks@.contains_key(#[trigger] names2[w])
                && resolve_bookmarks(names2, graph.bookmarks@)[0] == graph.bookmarks@[names2[w]];
        assert(segs[t1].bookmark.name@ == names1[w1]);
        assert(segs[t2].bookmark.name@ == names2[w2]);
        assert(names1.contains(names1[w1]));
        assert(names2.contains(names2[w2]));
        assert(segmap@[ids[t1]]@[0]@.local_bookmarks.contains(names1[w1]));
        assert(segmap@[ids[t2]]@[0]@.local_bookmarks.contains(names2[w2]));
        if names1[w1] == names2[w2] {
            assert(graph.bookmark_to_change_id@[names1[w1]]@ == ids[t1]);
            assert(graph.bookmark_to_change_id@[names2[w2]]@ == ids[t2]);
            assert(false);
        }
    }
}

/// Analyzes a submission: walks the parent pointer from the target bookmark's
/// segment back to its root and narrows every segment on the way.
///
/// Fails with `BookmarkNotFound` exactly when the target bookmark was never
/// collected into the graph; an unresolvable bookmark along the path is an
/// internal error.
#[verifier::rlimit(60)]
pub fn analyze_submission(graph: &ChangeGraph, target_bookmark: &str) -> (r: Result<
    SubmissionAnalysis,
    RyuError,
>)
    requires
        graph_wf(*graph),
    ensures
        r is Err ==> (r matches Err(e) ==> e is BookmarkNotFound || e is Internal),
        (r matches Err(e) && e is BookmarkNotFound) <==> !graph.bookmark_to_change_id@.contains_key(
            target_bookmark@,
        ),
        r matches Ok(a) ==> {
            let adj = graph.bookmarked_change_adjacency_list;
            let segs = a.segments@;
            &&& segs.len() >= 1
            &&& narrowed_head(segs[segs.len() - 1]) == graph.bookmark_to_change_id@[
                target_bookmark@]@
            &&& !adj@.contains_key(narrowed_head(segs[0]))
            &&& forall|i: int|
                1 <= i < segs.len() ==> adj@.contains_key(narrowed_head(#[trigger] segs[i]))
                    && adj@[narrowed_head(segs[i])]@ == narrowed_head(segs[i - 1])
            &&& exists|ids: Seq<Seq<char>>| narrowed_matches(*graph, ids, segs)
            &&& segs_distinct(segs)
        },
        (graph_heads_resolvable(*graph) && graph.bookmark_to_change_id@.contains_key(
            target_bookmark@,
        )) ==> r is Ok,
{
    let head = match graph.bookmark_to_change_id.get(target_bookmark) {
        Some(h) => h,
        None => {
            return Err(
                RyuError::BookmarkNotFound(String::from_str(target_bookmark)),
            );
        },
    };
    let path = crate::graph::builder::build_path_to_root(
        head.as_str(),
        &graph.bookmarked_change_adjacency_list,
    );
    proof {
        assert forall|t: int| 0 <= t < path@.len() implies
            graph.bookmarked_change_id_to_segment@.contains_key((#[trigger] path@[t])@) by {
            if t == path@.len() - 1 {
                assert(path@[t]@ == head@);
            } else {
                assert(graph.bookmarked_change_adjacency_list@.contains_key(path@[t + 1]@)
                    && graph.bookmarked_change_adjacency_list@[path@[t + 1]@]@ == path@[t]@);
            }
        }
    }
    let segments = match create_narrowed_segments(&path, graph) {
        Ok(s) => s,
        Err(e) => {
            return Err(e);
        },
    };
    proof {
        assert(narrowed_matches(*graph, path.deep_view(), segments@));
        assert(path.deep_view().len() == path@.len());
        assert forall|t: int| 0 <= t < path@.len() implies path.deep_view()[t] == (
        #[trigger] path@[t])@ by {}
        assert(narrowed_head(segments@[segments@.len() - 1]) == path@[path@.len() - 1]@);
        assert(!graph.bookmarked_change_adjacency_list@.contains_key(narrowed_head(segments@[0])));
        assert forall|i: int| 1 <= i < segments@.len() implies
            graph.bookmarked_change_adjacency_list@.contains_key(
                narrowed_head(#[trigger] segments@[i]),
            ) && graph.bookmarked_change_adjacency_list@[narrowed_head(segments@[i])]@
            == narrowed_head(segments@[i - 1]) by {
            assert(narrowed_head(segments@[i]) == path@[i]@);
            assert(narrowed_head(segments@[i - 1]) == path@[i - 1]@);
            assert(graph.bookmarked_change_adjacency_list@.contains_key(
                (path@[(i - 1) + 1])@,
            ) && graph.bookmarked_change_adjacency_list@[path@[(i - 1) + 1]@]@ == path@[i - 1]@);
        }
        assert forall|t1: int, t2: int| 0 <= t1 < t2 < path.deep_view().len() implies (
        #[trigger] path.deep_view()[t1]) != (#[trigger] path.deep_view()[t2]) by {
            assert(path@[t1]@ != path@[t2]@);
        }
        lemma_narrowed_distinct(*graph, path.deep_view(), segments@);
    }
    Ok(SubmissionAnalysis { segments })
}

/// The expected base branch of the segment at `i`: the previous segment's
/// bookmark, or the default branch for the root segment.
pub open spec fn spec_base_for(
    segs: Seq<NarrowedBookmarkSegment>,
    i: int,
    default_branch: Seq<char>,
) -> Seq<char> {
    if i == 0 {
        default_branch
    } else {
        segs[i - 1].bookmark.name@
    }
}

/// The title of the segment at `i`: the first description line of its newest
/// change, or the bookmark name when that line is empty.
pub open spec fn spec_title_for(segs: Seq<NarrowedBookmarkSegment>, i: int) -> Seq<char> {
    if segs[i].changes@.len() > 0 && segs[i].changes@[0]@.description_first_line.len() > 0 {
        segs[i].changes@[0]@.description_first_line
    } else {
        segs[i].bookmark.name@
    }
}

/// The position of `name` among the segments' bookmarks, if any.
pub open spec fn seg_index_of(segs: Seq<NarrowedBookmarkSegment>, name: Seq<char>) -> int {
    choose|i: int| 0 <= i < segs.len() && (#[trigger] segs[i]).bookmark.name@ == name
}

/// Whether `name` is one of the segments' bookmarks.
pub open spec fn seg_has_name(segs: Seq<NarrowedBookmarkSegment>, name: Seq<char>) -> bool {
    exists|i: int| 0 <= i < segs.len() && (#[trigger] segs[i]).bookmark.name@ == name
}

/// The expected base branch for the named bookmark: the bookmark of the
/// segment below it, or the default branch for the lowest segment.
///
/// Fails with `BookmarkNotFound` exactly when the name is not among the
/// segments.
pub fn get_base_branch(
    bookmark_name: &str,
    segments: &Vec<NarrowedBookmarkSegment>,
    default_branch: &str,
) -> (r: Result<String, RyuError>)
    ensures
        match r {
            Ok(base) => seg_has_name(segments@, bookmark_name@) && exists|i: int|
                0 <= i < segments@.len() && (#[trigger] segments@[i]).bookmark.name@
                    == bookmark_name@ && base@ == spec_base_for(segments@, i, default_branch@),
            Err(e) => e is BookmarkNotFound && !seg_has_name(segments@, bookmark_name@),
        },
{
    let mut i: usize = 0;
    while i < segments.len()
        invariant
            i <= segments@.len(),
            forall|t: int| 0 <= t < i ==> (#[trigger] segments@[t]).bookmark.name@ != bookmark_name@,
        decreases segments@.len() - i,
    {
        if crate::strutil::str_eq(segments[i].bookmark.name.as_str(), bookmark_name) {
            if i == 0 {
                return Ok(String::from_str(default_branch));
            } else {
                return Ok(segments[i - 1].bookmark.name.clone());
            }
        }
        i += 1;
    }
    Err(RyuError::BookmarkNotFound(String::from_str(bookmark_name)))
}

/// The title for the named bookmark's pull request: the first description
/// line of its segment's newest change, or the bookmark name when empty.
///
/// Fails with `BookmarkNotFound` exactly when the name is not among the
/// segments.
pub fn generate_pr_title(bookmark_name: &str, segments: &Vec<NarrowedBookmarkSegment>) -> (r:
    Result<String, RyuError>)
    ensures
        match r {
            Ok(title) => seg_has_name(segments@, bookmark_name@) && exists|i: int|
                0 <= i < segments@.len() && (#[trigger] segments@[i]).bookmark.name@
                    == bookmark_name@ && title@ == spec_title_for(segments@, i),
            Err(e) => e is BookmarkNotFound && !seg_has_name(segments@, bookmark_name@),
        },
{
    let mut i: usize = 0;
    while i < segments.len()
        invariant
            i <= segments@.len(),
            forall|t: int| 0 <= t < i ==> (#[trigger] segments@[t]).bookmark.name@ != bookmark_name@,
        decreases segments@.len() - i,
    {
        if crate::strutil::str_eq(segments[i].bookmark.name.as_str(), bookmark_name) {
            let seg = &segments[i];
            if seg.changes.len() > 0 && !seg.changes[0].description_first_line.as_str().is_empty() {
                return Ok(seg.changes[0].description_first_line.clone());
            } else {
                return Ok(seg.bookmark.name.clone());
            }
        }
        i += 1;
    }
    Err(RyuError::BookmarkNotFound(String::from_str(bookmark_name)))
}

} // verus!
