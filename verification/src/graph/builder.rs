//! The graph builder: segmentation of trunk-to-bookmark change lists,
//! merge-taint exclusion, segment adjacency and stack assembly.

use crate::strmap::StrMap;
use crate::strmap::StrSet;
use crate::types::LogEntry;
use crate::types::LogEntryView;
use vstd::prelude::*;

verus! {

/// A raw segment before bookmark resolution: the names at its head and its
/// changes, newest first.
pub struct RawSegment {
    /// Names of the local bookmarks at the head change.
    pub bookmark_names: Vec<String>,
    /// Changes in this segment, newest first.
    pub changes: Vec<LogEntry>,
}

/// The outcome of traversing one bookmark toward trunk.
pub struct TraversalResult {
    /// Segments discovered, ordered from the bookmark back toward trunk.
    pub segments: Vec<RawSegment>,
    /// The change id of the boundary where an already-collected bookmark was
    /// met, if the walk halted there.
    pub already_seen_change_id: Option<String>,
    /// 1 when the bookmark was excluded because of a merge or tainted change.
    pub excluded_bookmark_count: usize,
    /// Change ids to taint for later traversals, set only on exclusion.
    pub newly_tainted_change_ids: Vec<String>,
}

/// Whether position `k` of `cv` is a merge change or an already tainted one.
pub open spec fn hit_at(cv: Seq<LogEntryView>, tainted: Set<Seq<char>>, k: int) -> bool {
    cv[k].parents.len() > 1 || tainted.contains(cv[k].change_id)
}

/// Whether any change of `cv` is a merge or already tainted.
pub open spec fn taint_hit(cv: Seq<LogEntryView>, tainted: Set<Seq<char>>) -> bool {
    exists|k: int| 0 <= k < cv.len() && hit_at(cv, tainted, k)
}

/// The change ids of `cv`, in order.
pub open spec fn ids_of(cv: Seq<LogEntryView>) -> Seq<Seq<char>> {
    cv.map_values(|e: LogEntryView| e.change_id)
}

/// A well-formed raw segment: nonempty, and its names are exactly the local
/// bookmarks of its head change.
pub open spec fn seg_wf(s: RawSegment) -> bool {
    &&& s.changes@.len() > 0
    &&& s.bookmark_names@.len() > 0
    &&& s.changes@[0]@.local_bookmarks == s.bookmark_names.deep_view()
}

/// Whether any of `names` is in `dom`.
pub open spec fn any_name_in(names: Seq<Seq<char>>, dom: Set<Seq<char>>) -> bool {
    exists|j: int| 0 <= j < names.len() && dom.contains(names[j])
}

/// How many changes of `cv` carry at least one local bookmark.
pub open spec fn num_boundaries(cv: Seq<LogEntryView>) -> int
    decreases cv.len(),
{
    if cv.len() == 0 {
        0
    } else {
        num_boundaries(cv.drop_last()) + (if cv.last().local_bookmarks.len() > 0 {
            1int
        } else {
            0int
        })
    }
}

proof fn lemma_num_boundaries_step(cv: Seq<LogEntryView>, i: int)
    requires
        0 <= i < cv.len(),
    ensures
        num_boundaries(cv.take(i + 1)) == num_boundaries(cv.take(i)) + (if cv[i].local_bookmarks.len()
            > 0 {
            1int
        } else {
            0int
        }),
{
    assert(cv.take(i + 1).drop_last() =~= cv.take(i));
    assert(cv.take(i + 1).last() == cv[i]);
}

fn any_name_in_map(v: &Vec<String>, m: &StrMap<String>) -> (r: bool)
    ensures
        r == any_name_in(v.deep_view(), m@.dom()),
{
    let mut j: usize = 0;
    while j < v.len()
        invariant
            j <= v@.len(),
            forall|t: int| 0 <= t < j ==> !m@.dom().contains(v.deep_view()[t]),
        decreases v@.len() - j,
    {
        if m.contains_key(v[j].as_str()) {
            proof {
                assert(m@.dom().contains(v.deep_view()[j as int]));
            }
            return true;
        }
        j += 1;
    }
    false
}

/// Walks one bookmark's trunk-to-bookmark changes (newest first) and cuts
/// them into raw segments at bookmark boundaries.
///
/// A merge change, or a change already tainted, excludes the whole bookmark:
/// no segments are produced, and every change id scanned up to and with the
/// offending one is reported for tainting.  A boundary whose bookmarks were
/// already collected halts the walk and is reported as the already-seen
/// parent.
pub fn traverse_and_discover_segments(
    changes: &Vec<LogEntry>,
    fully_collected: &StrMap<String>,
    tainted: &StrSet,
) -> (r: TraversalResult)
    ensures
        ({
            let cv = changes.deep_view();
            let hit = taint_hit(cv, tainted@);
            &&& r.excluded_bookmark_count == (if hit {
                1usize
            } else {
                0usize
            })
            &&& (hit ==> {
                &&& r.segments@.len() == 0
                &&& r.already_seen_change_id is None
                &&& exists|k: int|
                    {
                        &&& 0 <= k < cv.len()
                        &&& #[trigger] hit_at(cv, tainted@, k)
                        &&& (forall|t: int| 0 <= t < k ==> !hit_at(cv, tainted@, t))
                        &&& r.newly_tainted_change_ids.deep_view() == ids_of(cv).take(k + 1)
                    }
            })
            &&& (!hit ==> {
                &&& r.newly_tainted_change_ids@.len() == 0
                &&& forall|si: int|
                    0 <= si < r.segments@.len() ==> seg_wf(#[trigger] r.segments@[si])
                &&& forall|si: int|
                    0 <= si < r.segments@.len() ==> exists|k: int|
                        0 <= k < cv.len() && (#[trigger] r.segments@[si]).changes@[0]@ == cv[k]
                &&& forall|si: int, t: int|
                    #![trigger r.segments@[si].changes@[t]]
                    0 <= si < r.segments@.len() && 1 <= t < r.segments@[si].changes@.len()
                        ==> r.segments@[si].changes@[t]@.local_bookmarks.len() == 0
                &&& exists|h: int|
                    {
                        &&& 0 <= h <= cv.len()
                        &&& (r.already_seen_change_id is None ==> h == cv.len())
                        &&& (r.already_seen_change_id matches Some(id) ==> h < cv.len() && id@
                            == cv[h].change_id && cv[h].local_bookmarks.len() > 0 && any_name_in(
                            cv[h].local_bookmarks,
                            fully_collected@.dom(),
                        ))
                        &&& r.segments@.len() == num_boundaries(cv.take(h))
                    }
                &&& (cv.len() > 0 && cv[0].local_bookmarks.len() > 0 ==> {
                    if any_name_in(cv[0].local_bookmarks, fully_collected@.dom()) {
                        &&& r.segments@.len() == 0
                        &&& r.already_seen_change_id matches Some(id) && id@ == cv[0].change_id
                    } else {
                        &&& r.segments@.len() >= 1
                        &&& r.segments@[0].changes@[0]@.change_id == cv[0].change_id
                        &&& r.segments@[0].bookmark_names.deep_view() == cv[0].local_bookmarks
                    }
                })
            })
        }),
{
    let ghost cv = changes.deep_view();
    // Scan for merge or tainted changes first: any hit excludes the bookmark.
    let mut seen_ids: Vec<String> = Vec::new();
    let mut k: usize = 0;
    while k < changes.len()
        invariant
            cv == changes.deep_view(),
            k <= cv.len(),
            seen_ids.deep_view() =~= ids_of(cv).take(k as int),
            forall|t: int| 0 <= t < k ==> !hit_at(cv, tainted@, t),
        decreases cv.len() - k,
    {
        let e = &changes[k];
        let ghost prev_ids = seen_ids.deep_view();
        seen_ids.push(e.change_id.clone());
        proof {
            assert(seen_ids.deep_view() =~= prev_ids.push(cv[k as int].change_id));
            assert(seen_ids.deep_view() =~= ids_of(cv).take(k + 1));
        }
        if e.parents.len() > 1 || tainted.contains(e.change_id.as_str()) {
            proof {
                assert(hit_at(cv, tainted@, k as int));
            }
            return TraversalResult {
                segments: Vec::new(),
                already_seen_change_id: None,
                excluded_bookmark_count: 1,
                newly_tainted_change_ids: seen_ids,
            };
        }
        k += 1;
    }
    proof {
        assert(!taint_hit(cv, tainted@));
    }
    // No merge anywhere: cut the list into segments at bookmark boundaries.
    let mut segments: Vec<RawSegment> = Vec::new();
    let mut have_cur: bool = false;
    let mut cur_names: Vec<String> = Vec::new();
    let mut cur_changes: Vec<LogEntry> = Vec::new();
    let mut already_seen: Option<String> = None;
    let mut halted: bool = false;
    let ghost first_headed = cv.len() > 0 && cv[0].local_bookmarks.len() > 0;
    let ghost first_collected = first_headed && any_name_in(
        cv[0].local_bookmarks,
        fully_collected@.dom(),
    );
    let mut i: usize = 0;
    while i < changes.len() && !halted
        invariant
            cv == changes.deep_view(),
            i <= cv.len(),
            first_headed == (cv.len() > 0 && cv[0].local_bookmarks.len() > 0),
            first_collected == (first_headed && any_name_in(
                cv[0].local_bookmarks,
                fully_collected@.dom(),
            )),
            forall|si: int| 0 <= si < segments@.len() ==> seg_wf(#[trigger] segments@[si]),
            forall|si: int|
                0 <= si < segments@.len() ==> exists|k: int|
                    0 <= k < cv.len() && (#[trigger] segments@[si]).changes@[0]@ == cv[k],
            forall|si: int, t: int|
                #![trigger segments@[si].changes@[t]]
                0 <= si < segments@.len() && 1 <= t < segments@[si].changes@.len()
                    ==> segments@[si].changes@[t]@.local_bookmarks.len() == 0,
            have_cur ==> forall|t: int|
                1 <= t < cur_changes@.len() ==> (#[trigger] cur_changes@[t])@.local_bookmarks.len()
                    == 0,
            !halted ==> segments@.len() + (if have_cur {
                1int
            } else {
                0int
            }) == num_boundaries(cv.take(i as int)),
            halted ==> !have_cur,
            halted ==> (already_seen matches Some(id) && exists|h: int|
                0 <= h < cv.len() && i == h && id@ == cv[h].change_id && cv[h].local_bookmarks.len()
                    > 0 && any_name_in(cv[h].local_bookmarks, fully_collected@.dom())
                    && segments@.len() == num_boundaries(cv.take(h))),
            have_cur ==> cur_changes@.len() > 0 && cur_names@.len() > 0 && cur_changes@[0]@.local_bookmarks
                == cur_names.deep_view(),
            have_cur ==> exists|k: int| 0 <= k < cv.len() && cur_changes@[0]@ == cv[k],
            halted <==> already_seen is Some,
            !halted && i == 0 ==> segments@.len() == 0 && !have_cur,
            halted && i == 0 ==> first_collected,
            first_headed && !first_collected && (i > 0 || halted) ==> ({
                ||| (segments@.len() > 0 && segments@[0].changes@[0]@.change_id == cv[0].change_id
                    && segments@[0].bookmark_names.deep_view() == cv[0].local_bookmarks)
                ||| (segments@.len() == 0 && have_cur && cur_changes@[0]@.change_id
                    == cv[0].change_id && cur_names.deep_view() == cv[0].local_bookmarks)
            }),
            first_collected ==> (i == 0 && !halted) || (halted && segments@.len() == 0 && !have_cur
                && (already_seen matches Some(id) && id@ == cv[0].change_id)),
        decreases cv.len() - i + (if halted { 0int } else { 1int }),
    {
        let e = &changes[i];
        if e.local_bookmarks.len() > 0 {
            if have_cur {
                segments.push(RawSegment { bookmark_names: cur_names, changes: cur_changes });
                cur_names = Vec::new();
                cur_changes = Vec::new();
                have_cur = false;
            }
            if any_name_in_map(&e.local_bookmarks, fully_collected) {
                already_seen = Some(e.change_id.clone());
                halted = true;
                proof {
                    let ghost h = i as int;
                    assert(cv[h].local_bookmarks == e.local_bookmarks.deep_view());
                    assert(cv[h].local_bookmarks.len() > 0);
                    assert(any_name_in(cv[h].local_bookmarks, fully_collected@.dom()));
                    assert((already_seen matches Some(id) && id@ == cv[h].change_id));
                    assert(segments@.len() == num_boundaries(cv.take(h)));
                }
            } else {
                cur_names = crate::types::clone_string_vec(&e.local_bookmarks);
                cur_changes = Vec::new();
                have_cur = true;
            }
        }
        if !halted {
            if have_cur {
                let ghost was_empty = cur_changes@.len() == 0;
                cur_changes.push(e.duplicate());
                proof {
                    if was_empty {
                        assert(cur_changes@[0]@ == cv[i as int]);
                    }
                }
            }
            proof {
                lemma_num_boundaries_step(cv, i as int);
            }
            i += 1;
        }
    }
    let ghost pre_push_len = segments@.len();
    if have_cur {
        segments.push(RawSegment { bookmark_names: cur_names, changes: cur_changes });
    }
    proof {
        if first_headed && !first_collected {
            assert(i > 0 || halted);
            assert(segments@.len() >= 1);
            assert(segments@[0].changes@[0]@.change_id == cv[0].change_id);
            assert(segments@[0].bookmark_names.deep_view() == cv[0].local_bookmarks);
        }
        if halted {
            let h = choose|h: int|
                0 <= h < cv.len() && i == h && (already_seen matches Some(id) && id@
                    == cv[h].change_id) && cv[h].local_bookmarks.len() > 0 && any_name_in(
                    cv[h].local_bookmarks,
                    fully_collected@.dom(),
                ) && pre_push_len == num_boundaries(cv.take(h));
            assert(!have_cur);
            assert(segments@.len() == num_boundaries(cv.take(h)));
        } else {
            assert(i == cv.len());
            assert(cv.take(cv.len() as int) =~= cv);
            assert(segments@.len() == num_boundaries(cv));
        }
    }
    TraversalResult {
        segments,
        already_seen_change_id: already_seen,
        excluded_bookmark_count: 0,
        newly_tainted_change_ids: Vec::new(),
    }
}

/// A witness that every parent pointer strictly decreases: the adjacency has
/// no cycle.
pub open spec fn is_rank(adj: Map<Seq<char>, String>, rank: Map<Seq<char>, nat>) -> bool {
    forall|k: Seq<char>| #[trigger]
        adj.contains_key(k) ==> {
            &&& rank.contains_key(k)
            &&& rank.contains_key(adj[k]@)
            &&& rank[adj[k]@] < rank[k]
        }
}

/// The adjacency admits a rank witness, hence is acyclic.
pub open spec fn acyclic(adj: Map<Seq<char>, String>) -> bool {
    exists|rank: Map<Seq<char>, nat>| is_rank(adj, rank)
}

/// The head change id of a materialized segment.
pub open spec fn seg_head(s: crate::types::BookmarkSegment) -> Seq<char> {
    s.changes@[0]@.change_id
}

/// A stack whose first segment is a root, whose consecutive segments are
/// linked by the parent pointer, and whose segments all are nonempty.
pub open spec fn stack_chain_ok(
    adj: Map<Seq<char>, String>,
    s: crate::types::BranchStack,
) -> bool {
    &&& s.segments@.len() > 0
    &&& forall|i: int| 0 <= i < s.segments@.len() ==> (#[trigger] s.segments@[i]).changes@.len() > 0
    &&& !adj.contains_key(seg_head(s.segments@[0]))
    &&& forall|i: int|
        1 <= i < s.segments@.len() ==> adj.contains_key(seg_head(#[trigger] s.segments@[i]))
            && adj[seg_head(s.segments@[i])]@ == seg_head(s.segments@[i - 1])
}

/// Walks the parent pointer from a leaf back to its root and returns the
/// change ids in root-to-leaf order.
///
/// The walk consumes at most one step per adjacency entry; on an acyclic
/// adjacency the first returned id therefore has no parent.
pub fn build_path_to_root(leaf_change_id: &str, adjacency_list: &StrMap<String>) -> (r: Vec<
    String,
>)
    requires
        adjacency_list.wf(),
    ensures
        r@.len() >= 1,
        r@[r@.len() - 1]@ == leaf_change_id@,
        forall|t: int|
            0 <= t < r@.len() - 1 ==> adjacency_list@.contains_key((#[trigger] r@[t + 1])@)
                && adjacency_list@[r@[t + 1]@]@ == r@[t]@,
        acyclic(adjacency_list@) ==> !adjacency_list@.contains_key(r@[0]@) && r@.len()
            <= adjacency_list.spec_len() + 1,
        acyclic(adjacency_list@) ==> forall|t1: int, t2: int|
            0 <= t1 < t2 < r@.len() ==> (#[trigger] r@[t1])@ != (#[trigger] r@[t2])@,
{
    let ghost aj = adjacency_list@;
    let ghost rnk: Map<Seq<char>, nat> = if acyclic(aj) {
        choose|rk: Map<Seq<char>, nat>| is_rank(aj, rk)
    } else {
        Map::empty()
    };
    let mut path: Vec<String> = Vec::new();
    let mut cur: String = String::from_str(leaf_change_id);
    path.push(cur.clone());
    let mut fuel: usize = adjacency_list.len();
    let ghost mut seen: Set<Seq<char>> = Set::empty();
    let mut done: bool = false;
    while !done && fuel > 0
        invariant
            adjacency_list.wf(),
            aj == adjacency_list@,
            acyclic(aj) ==> is_rank(aj, rnk),
            path@.len() >= 1,
            path@[0]@ == leaf_change_id@,
            cur@ == path@[path@.len() - 1]@,
            forall|t: int|
                0 <= t < path@.len() - 1 ==> aj.contains_key((#[trigger] path@[t])@)
                    && aj[path@[t]@]@ == path@[t + 1]@,
            done ==> !aj.contains_key(cur@),
            fuel <= adjacency_list.spec_len(),
            acyclic(aj) ==> {
                &&& seen.finite()
                &&& seen.len() + fuel == adjacency_list.spec_len()
                &&& seen.subset_of(aj.dom())
                &&& forall|s: Seq<char>| #[trigger]
                    seen.contains(s) ==> rnk.contains_key(s) && (aj.contains_key(cur@)
                        ==> rnk[s] > rnk[cur@])
                &&& forall|t1: int, t2: int|
                    0 <= t1 < t2 < path@.len() ==> rnk.contains_key((#[trigger] path@[t1])@)
                        && rnk.contains_key((#[trigger] path@[t2])@) && rnk[path@[t1]@]
                        > rnk[path@[t2]@]
            },
            path@.len() == adjacency_list.spec_len() - fuel + 1,
        decreases fuel + (if done {
            0int
        } else {
            1int
        }),
    {
        let nxt = adjacency_list.get(cur.as_str());
        match nxt {
            Some(p) => {
                let ghost curv = cur@;
                proof {
                    if acyclic(aj) {
                        assert(!seen.contains(curv));
                        seen = seen.insert(curv);
                    }
                }
                let pc = p.clone();
                path.push(pc.clone());
                cur = pc;
                fuel = fuel - 1;
            },
            None => {
                done = true;
            },
        }
    }
    proof {
        if acyclic(aj) && aj.contains_key(cur@) {
            assert(!done);
            assert(fuel == 0);
            assert(!seen.contains(cur@));
            assert(seen.insert(cur@).subset_of(aj.dom()));
            adjacency_list.lemma_dom_card();
            vstd::set_lib::lemma_len_subset(seen.insert(cur@), aj.dom());
            assert(false);
        }
    }
    // Reverse into root-to-leaf order.
    let mut out: Vec<String> = Vec::new();
    let mut i: usize = path.len();
    while i > 0
        invariant
            i <= path@.len(),
            out@.len() == path@.len() - i,
            forall|u: int| 0 <= u < out@.len() ==> (#[trigger] out@[u])@ == path@[path@.len() - 1
                - u]@,
        decreases i,
    {
        i -= 1;
        out.push(path[i].clone());
    }
    proof {
        assert(out@[out@.len() - 1]@ == path@[0]@);
        assert forall|t: int| 0 <= t < out@.len() - 1 implies aj.contains_key(
            (#[trigger] out@[t + 1])@,
        ) && aj[out@[t + 1]@]@ == out@[t]@ by {
            let w = path@.len() - 2 - t;
            assert(out@[t + 1]@ == path@[w]@);
            assert(out@[t]@ == path@[w + 1]@);
            assert(aj.contains_key(path@[w]@) && aj[path@[w]@]@ == path@[w + 1]@);
        }
        assert(out@[0]@ == cur@);
        if acyclic(aj) {
            assert forall|t1: int, t2: int| 0 <= t1 < t2 < out@.len() implies (
            #[trigger] out@[t1])@ != (#[trigger] out@[t2])@ by {
                let w1 = path@.len() - 1 - t1;
                let w2 = path@.len() - 1 - t2;
                assert(out@[t1]@ == path@[w1]@);
                assert(out@[t2]@ == path@[w2]@);
                if path@.len() >= 2 {
                    assert(rnk[path@[w2]@] > rnk[path@[w1]@]);
                }
            }
        }
    }
    out
}

/// The bookmarks among `names`, in order, resolved through `bm`; names
/// without a bookmark record are dropped.
pub open spec fn resolve_bookmarks(
    names: Seq<Seq<char>>,
    bm: Map<Seq<char>, crate::types::Bookmark>,
) -> Seq<crate::types::Bookmark>
    decreases names.len(),
{
    if names.len() == 0 {
        Seq::empty()
    } else {
        resolve_bookmarks(names.drop_last(), bm) + (if bm.contains_key(names.last()) {
            seq![bm[names.last()]]
        } else {
            Seq::empty()
        })
    }
}

/// Whether the id at `t` has a stored, nonempty segment.
pub open spec fn seg_present(
    ids: Seq<String>,
    segmap: Map<Seq<char>, Vec<LogEntry>>,
    t: int,
) -> bool {
    segmap.contains_key(ids[t]@) && segmap[ids[t]@]@.len() > 0
}

/// How many of the first `upto` ids have a stored, nonempty segment.
pub open spec fn num_present(
    ids: Seq<String>,
    segmap: Map<Seq<char>, Vec<LogEntry>>,
    upto: int,
) -> int
    decreases upto,
{
    if upto <= 0 {
        0
    } else {
        num_present(ids, segmap, upto - 1) + (if seg_present(ids, segmap, upto - 1) {
            1int
        } else {
            0int
        })
    }
}

/// The present count never shrinks as the prefix grows.
pub proof fn lemma_num_present_mono(
    ids: Seq<String>,
    segmap: Map<Seq<char>, Vec<LogEntry>>,
    a: int,
    b: int,
)
    requires
        a <= b,
    ensures
        num_present(ids, segmap, a) <= num_present(ids, segmap, b),
    decreases b - a,
{
    if a < b {
        lemma_num_present_mono(ids, segmap, a, b - 1);
    }
}

/// Materializes the segments along a path of head change ids, resolving the
/// bookmarks at each head; ids without a stored segment are skipped: the
/// result holds exactly one segment per present id, in order.
pub fn build_segments(
    stack_change_ids: &Vec<String>,
    bookmarks: &StrMap<crate::types::Bookmark>,
    change_id_to_segment: &StrMap<Vec<LogEntry>>,
) -> (r: Vec<crate::types::BookmarkSegment>)
    requires
        bookmarks.wf(),
        change_id_to_segment.wf(),
    ensures
        r@.len() == num_present(stack_change_ids@, change_id_to_segment@, stack_change_ids@.len() as int),
        forall|t: int|
            0 <= t < stack_change_ids@.len() && seg_present(stack_change_ids@, change_id_to_segment@, t)
                ==> {
                let s = #[trigger] r@[num_present(stack_change_ids@, change_id_to_segment@, t)];
                &&& s.changes.deep_view() == change_id_to_segment@[stack_change_ids@[t]@].deep_view()
                &&& s.bookmarks@ == resolve_bookmarks(
                    change_id_to_segment@[stack_change_ids@[t]@]@[0]@.local_bookmarks,
                    bookmarks@,
                )
            },
        r@.len() <= stack_change_ids@.len(),
        (forall|t: int|
            0 <= t < stack_change_ids@.len() ==> change_id_to_segment@.contains_key(
                (#[trigger] stack_change_ids@[t])@,
            ) && change_id_to_segment@[stack_change_ids@[t]@]@.len() > 0) ==> {
            &&& r@.len() == stack_change_ids@.len()
            &&& forall|t: int|
                0 <= t < r@.len() ==> {
                    &&& (#[trigger] r@[t]).changes.deep_view()
                        == change_id_to_segment@[stack_change_ids@[t]@].deep_view()
                    &&& r@[t].bookmarks@ == resolve_bookmarks(
                        change_id_to_segment@[stack_change_ids@[t]@]@[0]@.local_bookmarks,
                        bookmarks@,
                    )
                }
        },
{
    let ghost all_present = forall|t: int|
        0 <= t < stack_change_ids@.len() ==> change_id_to_segment@.contains_key(
            (#[trigger] stack_change_ids@[t])@,
        ) && change_id_to_segment@[stack_change_ids@[t]@]@.len() > 0;
    let mut segments: Vec<crate::types::BookmarkSegment> = Vec::new();
    let mut i: usize = 0;
    while i < stack_change_ids.len()
        invariant
            bookmarks.wf(),
            change_id_to_segment.wf(),
            i <= stack_change_ids@.len(),
            segments@.len() == num_present(stack_change_ids@, change_id_to_segment@, i as int),
            forall|t: int|
                0 <= t < i && seg_present(stack_change_ids@, change_id_to_segment@, t) ==> {
                    let s = #[trigger] segments@[num_present(
                        stack_change_ids@,
                        change_id_to_segment@,
                        t,
                    )];
                    &&& s.changes.deep_view() == change_id_to_segment@[stack_change_ids@[t]@].deep_view()
                    &&& s.bookmarks@ == resolve_bookmarks(
                        change_id_to_segment@[stack_change_ids@[t]@]@[0]@.local_bookmarks,
                        bookmarks@,
                    )
                },
            segments@.len() <= i,
            all_present == (forall|t: int|
                0 <= t < stack_change_ids@.len() ==> change_id_to_segment@.contains_key(
                    (#[trigger] stack_change_ids@[t])@,
                ) && change_id_to_segment@[stack_change_ids@[t]@]@.len() > 0),
            all_present ==> segments@.len() == i,
            all_present ==> forall|t: int|
                0 <= t < segments@.len() ==> {
                    &&& (#[trigger] segments@[t]).changes.deep_view()
                        == change_id_to_segment@[stack_change_ids@[t]@].deep_view()
                    &&& segments@[t].bookmarks@ == resolve_bookmarks(
                        change_id_to_segment@[stack_change_ids@[t]@]@[0]@.local_bookmarks,
                        bookmarks@,
                    )
                },
        decreases stack_change_ids@.len() - i,
    {
        let ghost old_segments = segments@;
        let id = &stack_change_ids[i];
        match change_id_to_segment.get(id.as_str()) {
            Some(changes) => {
                if changes.len() > 0 {
                    let head = &changes[0];
                    let mut bookmark_list: Vec<crate::types::Bookmark> = Vec::new();
                    let mut j: usize = 0;
                    while j < head.local_bookmarks.len()
                        invariant
                            bookmarks.wf(),
                            j <= head.local_bookmarks@.len(),
                            bookmark_list@ =~= resolve_bookmarks(
                                head.local_bookmarks.deep_view().take(j as int),
                                bookmarks@,
                            ),
                        decreases head.local_bookmarks@.len() - j,
                    {
                        let ghost prefix = head.local_bookmarks.deep_view().take(j as int);
                        match bookmarks.get(head.local_bookmarks[j].as_str()) {
                            Some(bm) => {
                                bookmark_list.push(bm.duplicate());
                            },
                            None => {
                            },
                        }
                        proof {
                            assert(head.local_bookmarks.deep_view().take(j + 1).drop_last()
                                =~= prefix);
                            assert(head.local_bookmarks.deep_view().take(j + 1).last()
                                == head.local_bookmarks.deep_view()[j as int]);
                            assert(bookmark_list@ =~= resolve_bookmarks(
                                head.local_bookmarks.deep_view().take(j + 1),
                                bookmarks@,
                            ));
                        }
                        j += 1;
                    }
                    proof {
                        assert(head.local_bookmarks.deep_view().take(
                            head.local_bookmarks@.len() as int,
                        ) =~= head.local_bookmarks.deep_view());
                    }
                    segments.push(
                        crate::types::BookmarkSegment {
                            bookmarks: bookmark_list,
                            changes: crate::types::clone_entries(changes),
                        },
                    );
                    proof {
                        assert(seg_present(stack_change_ids@, change_id_to_segment@, i as int));
                        let sg = segments@[num_present(
                            stack_change_ids@,
                            change_id_to_segment@,
                            i as int,
                        )];
                        assert(sg.changes.deep_view() == change_id_to_segment@[stack_change_ids@[
                            i as int]@].deep_view());
                    }
                } else {
                    proof {
                        assert(!seg_present(stack_change_ids@, change_id_to_segment@, i as int));
                    }
                }
            },
            None => {
                proof {
                    assert(!seg_present(stack_change_ids@, change_id_to_segment@, i as int));
                }
            },
        }
        proof {
            let ghost ids = stack_change_ids@;
            let ghost sm = change_id_to_segment@;
            assert forall|t: int| 0 <= t < i + 1 && seg_present(ids, sm, t) implies {
                let sg = #[trigger] segments@[num_present(ids, sm, t)];
                &&& sg.changes.deep_view() == sm[ids[t]@].deep_view()
                &&& sg.bookmarks@ == resolve_bookmarks(sm[ids[t]@]@[0]@.local_bookmarks, bookmarks@)
            } by {
                lemma_num_present_mono(ids, sm, 0, t);
                if t < i {
                    lemma_num_present_mono(ids, sm, t + 1, i as int);
                    assert(old_segments[num_present(ids, sm, t)].changes.deep_view()
                        == sm[ids[t]@].deep_view());
                    assert(segments@[num_present(ids, sm, t)] == old_segments[num_present(
                        ids,
                        sm,
                        t,
                    )]);
                }
            }
        }
        i += 1;
    }
    segments
}

/// Bookmark names are pairwise distinct.
pub open spec fn bookmarks_distinct(bs: Seq<crate::types::Bookmark>) -> bool {
    forall|i: int, j: int| 0 <= i < j < bs.len() ==> bs[i].name@ != bs[j].name@
}

/// Each bookmark's change list is nonempty and its newest change carries the
/// bookmark's own name.
pub open spec fn logs_wf(bs: Seq<crate::types::Bookmark>, logs: Seq<Seq<LogEntryView>>) -> bool {
    forall|i: int|
        0 <= i < bs.len() ==> (#[trigger] logs[i]).len() > 0 && logs[i][0].local_bookmarks.contains(
            bs[i].name@,
        )
}

/// The change list holds a merge change.
pub open spec fn has_merge(log: Seq<LogEntryView>) -> bool {
    exists|p: int| 0 <= p < log.len() && log[p].parents.len() > 1
}

/// The change lists agree with one another: a tracked bookmark name occurs
/// only at that bookmark's own head change, and two lists that reach the same
/// change continue identically from there toward trunk.
pub open spec fn logs_consistent(
    bs: Seq<crate::types::Bookmark>,
    logs: Seq<Seq<LogEntryView>>,
) -> bool {
    &&& forall|i: int, j: int, k: int|
        #![trigger logs[j][k].local_bookmarks.contains(bs[i].name@)]
        0 <= i < bs.len() && 0 <= j < logs.len() && 0 <= k < logs[j].len()
            && logs[j][k].local_bookmarks.contains(bs[i].name@) ==> logs[i].len() > 0
            && logs[j][k].change_id == logs[i][0].change_id
    &&& forall|i: int, j: int, k: int|
        #![trigger logs[j].skip(k), logs[i].len()]
        0 <= i < logs.len() && 0 <= j < logs.len() && 0 <= k < logs[j].len() && logs[i].len() > 0
            && logs[j][k].change_id == logs[i][0].change_id ==> logs[j].skip(k) == logs[i]
}

/// How many of `bs` have their name in `dom`.
pub open spec fn num_collected(bs: Seq<crate::types::Bookmark>, dom: Set<Seq<char>>) -> int
    decreases bs.len(),
{
    if bs.len() == 0 {
        0
    } else {
        num_collected(bs.drop_last(), dom) + (if dom.contains(bs.last().name@) {
            1int
        } else {
            0int
        })
    }
}

proof fn lemma_num_collected_step(bs: Seq<crate::types::Bookmark>, dom: Set<Seq<char>>, i: int)
    requires
        0 <= i < bs.len(),
    ensures
        num_collected(bs.take(i + 1), dom) == num_collected(bs.take(i), dom) + (if dom.contains(
            bs[i].name@,
        ) {
            1int
        } else {
            0int
        }),
{
    assert(bs.take(i + 1).drop_last() =~= bs.take(i));
    assert(bs.take(i + 1).last() == bs[i]);
}

proof fn lemma_num_collected_stable(
    bs: Seq<crate::types::Bookmark>,
    dom1: Set<Seq<char>>,
    dom2: Set<Seq<char>>,
)
    requires
        forall|j: int|
            0 <= j < bs.len() ==> (dom1.contains((#[trigger] bs[j]).name@) <==> dom2.contains(
                bs[j].name@,
            )),
    ensures
        num_collected(bs, dom1) == num_collected(bs, dom2),
    decreases bs.len(),
{
    if bs.len() > 0 {
        assert(forall|j: int|
            0 <= j < bs.drop_last().len() ==> bs.drop_last()[j] == bs[j]);
        lemma_num_collected_stable(bs.drop_last(), dom1, dom2);
        assert(bs.last() == bs[bs.len() - 1]);
    }
}

/// The structural invariants of a built change graph: adjacency endpoints are
/// segment heads, adjacency keys and roots partition the heads, segments are
/// nonempty and keyed by their head change id, leaves are exactly the heads
/// without a child, collected bookmarks point at heads, the adjacency is
/// acyclic, and every stack runs from a root to its leaf along the adjacency.
pub open spec fn graph_wf(g: crate::types::ChangeGraph) -> bool {
    let segmap = g.bookmarked_change_id_to_segment;
    let adj = g.bookmarked_change_adjacency_list;
    &&& g.bookmarks.wf()
    &&& g.bookmark_to_change_id.wf()
    &&& adj.wf()
    &&& segmap.wf()
    &&& g.stack_roots.wf()
    &&& g.stack_leafs.wf()
    &&& forall|k: Seq<char>| #[trigger]
        adj@.contains_key(k) ==> segmap@.contains_key(k) && segmap@.contains_key(adj@[k]@)
    &&& forall|k: Seq<char>| #[trigger]
        segmap@.contains_key(k) ==> (adj@.contains_key(k) <==> !g.stack_roots@.contains(k))
    &&& forall|k: Seq<char>| #[trigger] g.stack_roots@.contains(k) ==> segmap@.contains_key(k)
    &&& forall|n: Seq<char>| #[trigger]
        g.bookmarks@.contains_key(n) ==> g.bookmarks@[n].name@ == n
    &&& forall|k: Seq<char>| #[trigger]
        segmap@.contains_key(k) ==> segmap@[k]@.len() > 0 && segmap@[k]@[0]@.change_id == k
            && segmap@[k]@[0]@.local_bookmarks.len() > 0
    &&& forall|k: Seq<char>, n: Seq<char>|
        #![trigger segmap@[k]@[0]@.local_bookmarks.contains(n)]
        segmap@.contains_key(k) && segmap@[k]@[0]@.local_bookmarks.contains(n)
            ==> g.bookmark_to_change_id@.contains_key(n) && g.bookmark_to_change_id@[n]@ == k
    &&& forall|k: Seq<char>|
        #![trigger g.stack_leafs@.contains(k)]
        g.stack_leafs@.contains(k) <==> (segmap@.contains_key(k) && !(exists|k2: Seq<char>| #[trigger]
            adj@.contains_key(k2) && adj@[k2]@ == k))
    &&& forall|n: Seq<char>| #[trigger]
        g.bookmark_to_change_id@.contains_key(n) ==> segmap@.contains_key(
            g.bookmark_to_change_id@[n]@,
        ) && segmap@[g.bookmark_to_change_id@[n]@]@[0]@.local_bookmarks.contains(n)
    &&& acyclic(adj@)
    &&& g.stacks@.len() == g.stack_leafs.spec_len()
    &&& forall|si: int|
        0 <= si < g.stacks@.len() ==> {
            let s = #[trigger] g.stacks@[si];
            &&& stack_chain_ok(adj@, s)
            &&& g.stack_roots@.contains(seg_head(s.segments@[0]))
            &&& seg_head(s.segments@[s.segments@.len() - 1]) == g.stack_leafs.elem_seq()[si]
            &&& forall|t: int|
                0 <= t < s.segments@.len() ==> {
                    let h = seg_head(#[trigger] s.segments@[t]);
                    &&& segmap@.contains_key(h)
                    &&& s.segments@[t].changes.deep_view() == segmap@[h].deep_view()
                    &&& s.segments@[t].bookmarks@ == resolve_bookmarks(
                        segmap@[h]@[0]@.local_bookmarks,
                        g.bookmarks@,
                    )
                }
        }
}

fn map_has_value(m: &StrMap<String>, t: &str) -> (r: bool)
    requires
        m.wf(),
    ensures
        r == exists|k2: Seq<char>| #[trigger] m@.contains_key(k2) && m@[k2]@ == t@,
{
    proof {
        m.lemma_view_facts();
    }
    let n = m.len();
    let mut j: usize = 0;
    while j < n
        invariant
            m.wf(),
            n == m.spec_len(),
            j <= n,
            forall|u: int| 0 <= u < j ==> (#[trigger] m.val_seq()[u])@ != t@,
        decreases n - j,
    {
        if crate::strutil::str_eq(m.value_at(j).as_str(), t) {
            proof {
                m.lemma_view_facts();
                assert(m@.contains_key(m.key_seq()[j as int]) && m@[m.key_seq()[j as int]]@ == t@);
            }
            return true;
        }
        j += 1;
    }
    proof {
        m.lemma_view_facts();
        assert forall|k2: Seq<char>| m@.contains_key(k2) implies m@[k2]@ != t@ by {
            let u = choose|u: int| 0 <= u < m.spec_len() && #[trigger] m.key_seq()[u] == k2;
            assert(m@[k2] == m.val_seq()[u]);
        }
    }
    false
}

/// Builds the change graph from the local bookmarks and, for each bookmark,
/// the changes of `trunk()..bookmark` ordered newest first.
///
/// Bookmarks whose change list holds a merge change, or a change tainted by
/// an earlier merge, are excluded and counted.  Inconsistent change lists
/// (a repeated segment head, a bookmark name reused across heads, a halt
/// boundary that was never recorded) yield an internal error; on success the
/// graph satisfies `graph_wf`, every bookmark is either collected or counted
/// as excluded, and a merge-tainted bookmark appears in no segment.
#[verifier::loop_isolation(false)]
#[verifier::rlimit(60)]
pub fn build_change_graph(
    all_bookmarks: &Vec<crate::types::Bookmark>,
    bookmark_logs: &Vec<Vec<LogEntry>>,
) -> (r: Result<crate::types::ChangeGraph, crate::error::RyuError>)
    requires
        all_bookmarks@.len() == bookmark_logs@.len(),
        bookmarks_distinct(all_bookmarks@),
    ensures
        r matches Err(e) ==> e is Internal,
        r matches Ok(g) ==> {
            let bs = all_bookmarks@;
            let logs = bookmark_logs.deep_view();
            &&& graph_wf(g)
            &&& g.bookmarks.spec_len() == bs.len()
            &&& forall|i: int|
                0 <= i < bs.len() ==> g.bookmarks@.contains_key((#[trigger] bs[i]).name@)
                    && g.bookmarks@[bs[i].name@] == bs[i]
            &&& (logs_wf(bs, logs) ==> g.excluded_bookmark_count == bs.len() - num_collected(
                bs,
                g.bookmark_to_change_id@.dom(),
            ))
            &&& ((logs_wf(bs, logs) && logs_consistent(bs, logs)) ==> forall|i: int|
                0 <= i < bs.len() && has_merge(#[trigger] logs[i])
                    ==> !g.bookmark_to_change_id@.contains_key(bs[i].name@))
        },
{
    let ghost bs = all_bookmarks@;
    let ghost logs = bookmark_logs.deep_view();
    let n = all_bookmarks.len();

    // Bookmarks by name.
    let mut bookmarks_by_name: StrMap<crate::types::Bookmark> = StrMap::new();
    let mut bi: usize = 0;
    while bi < n
        invariant
            bookmarks_by_name.wf(),
            bi <= n,
            bookmarks_by_name.spec_len() == bi,
            forall|i: int|
                0 <= i < bi ==> bookmarks_by_name@.contains_key((#[trigger] bs[i]).name@)
                    && bookmarks_by_name@[bs[i].name@] == bs[i],
            forall|m: Seq<char>| #[trigger]
                bookmarks_by_name@.contains_key(m) ==> exists|i: int|
                    0 <= i < bi && m == (#[trigger] bs[i]).name@,
        decreases n - bi,
    {
        let b = &all_bookmarks[bi];
        if bookmarks_by_name.contains_key(b.name.as_str()) {
            proof {
                let i = choose|i: int| 0 <= i < bi && b.name@ == (#[trigger] bs[i]).name@;
                assert(false);
            }
        }
        bookmarks_by_name.insert(b.name.clone(), b.duplicate());
        bi += 1;
    }

    let mut bookmark_to_change_id: StrMap<String> = StrMap::new();
    let mut adjacency: StrMap<String> = StrMap::new();
    let mut segmap: StrMap<Vec<LogEntry>> = StrMap::new();
    let mut stack_roots: StrSet = StrSet::new();
    let mut tainted: StrSet = StrSet::new();
    let mut excluded_names: StrSet = StrSet::new();
    let mut total_excluded: usize = 0;
    let ghost mut rnk: Map<Seq<char>, nat> = Map::empty();

    let mut i: usize = 0;
    while i < n
        invariant
            i <= n,
            bookmark_to_change_id.wf(),
            adjacency.wf(),
            segmap.wf(),
            stack_roots.wf(),
            tainted.wf(),
            excluded_names.wf(),
            forall|k: Seq<char>| #[trigger]
                adjacency@.contains_key(k) ==> segmap@.contains_key(k) && segmap@.contains_key(
                    adjacency@[k]@,
                ) && rnk[adjacency@[k]@] < rnk[k],
            forall|k: Seq<char>| #[trigger]
                segmap@.contains_key(k) <==> #[trigger] rnk.contains_key(k),
            forall|k: Seq<char>| #[trigger]
                segmap@.contains_key(k) ==> rnk[k] < segmap.spec_len(),
            forall|k: Seq<char>| #[trigger]
                segmap@.contains_key(k) ==> (adjacency@.contains_key(k) <==> !stack_roots@.contains(
                    k,
                )),
            forall|k: Seq<char>| #[trigger] stack_roots@.contains(k) ==> segmap@.contains_key(k),
            forall|k: Seq<char>| #[trigger]
                segmap@.contains_key(k) ==> segmap@[k]@.len() > 0 && segmap@[k]@[0]@.change_id
                    == k && segmap@[k]@[0]@.local_bookmarks.len() > 0,
            forall|k: Seq<char>, n: Seq<char>|
                #![trigger segmap@[k]@[0]@.local_bookmarks.contains(n)]
                segmap@.contains_key(k) && segmap@[k]@[0]@.local_bookmarks.contains(n)
                    ==> bookmark_to_change_id@.contains_key(n) && bookmark_to_change_id@[n]@ == k,
            forall|m: Seq<char>| #[trigger]
                bookmark_to_change_id@.contains_key(m) ==> segmap@.contains_key(
                    bookmark_to_change_id@[m]@,
                ) && segmap@[bookmark_to_change_id@[m]@]@[0]@.local_bookmarks.contains(m),
            total_excluded <= i,
            forall|e: Seq<char>| #[trigger]
                excluded_names@.contains(e) ==> !bookmark_to_change_id@.contains_key(e),
            logs_wf(bs, logs) ==> total_excluded == i - num_collected(
                bs.take(i as int),
                bookmark_to_change_id@.dom(),
            ),
            logs_wf(bs, logs) ==> forall|j: int|
                0 <= j < i ==> bookmark_to_change_id@.contains_key((#[trigger] bs[j]).name@)
                    || excluded_names@.contains(bs[j].name@),
            (logs_wf(bs, logs) && logs_consistent(bs, logs)) ==> forall|i2: int|
                0 <= i2 < bs.len() && has_merge(#[trigger] logs[i2])
                    ==> !bookmark_to_change_id@.contains_key(bs[i2].name@),
        decreases n - i,
    {
        let bookmark = &all_bookmarks[i];
        let ghost name_i = bs[i as int].name@;
        if !bookmark_to_change_id.contains_key(bookmark.name.as_str()) {
            let ghost tcall = tainted@;
            let ghost b2c_start = bookmark_to_change_id@;
            let ghost cvi = bookmark_logs@[i as int].deep_view();
            proof {
                assert(cvi == logs[i as int]);
            }
            let result = traverse_and_discover_segments(
                &bookmark_logs[i],
                &bookmark_to_change_id,
                &tainted,
            );
            if result.excluded_bookmark_count > 0 {
                // Merge or tainted change: exclude this bookmark, taint its path.
                let mut t: usize = 0;
                while t < result.newly_tainted_change_ids.len()
                    invariant
                        tainted.wf(),
                        t <= result.newly_tainted_change_ids@.len(),
                    decreases result.newly_tainted_change_ids@.len() - t,
                {
                    tainted.add(result.newly_tainted_change_ids[t].clone());
                    t += 1;
                }
                excluded_names.add(bookmark.name.clone());
                total_excluded += 1;
                proof {
                    if logs_wf(bs, logs) {
                        lemma_num_collected_step(bs, bookmark_to_change_id@.dom(), i as int);
                    }
                }
            } else {
                // Consistency guards on the traversal's shape.
                if result.segments.len() == 0 && result.already_seen_change_id.is_some() {
                    return Err(
                        crate::error::RyuError::Internal(
                            String::from_str("already-seen boundary without a recorded segment"),
                        ),
                    );
                }
                let parent_id: Option<String> = match &result.already_seen_change_id {
                    Some(x) => Some(x.clone()),
                    None => None,
                };
                match &parent_id {
                    Some(pid) => {
                        if !segmap.contains_key(pid.as_str()) {
                            return Err(
                                crate::error::RyuError::Internal(
                                    String::from_str("dangling parent reference"),
                                ),
                            );
                        }
                    },
                    None => {},
                }
                let ghost base = segmap.spec_len();
                let ghost lcount = result.segments@.len();
                let ghost heads = Seq::new(
                    lcount,
                    |s: int| result.segments@[s].changes@[0]@.change_id,
                );
                let ghost old_segdom = segmap@.dom();
                // Record the segments and collect their bookmarks.
                let mut s: usize = 0;
                while s < result.segments.len()
                    invariant
                        s <= lcount,
                        bookmark_to_change_id.wf(),
                        segmap.wf(),
                        segmap.spec_len() == base + s,
                        forall|k: Seq<char>| #[trigger]
                            old_segdom.contains(k) ==> segmap@.contains_key(k)
                                && rnk.contains_key(k) && rnk[k] < base,
                        forall|k: Seq<char>| #[trigger]
                            segmap@.contains_key(k) <==> #[trigger] rnk.contains_key(k),
                        forall|k: Seq<char>| #[trigger]
                            segmap@.contains_key(k) ==> old_segdom.contains(k) || (exists|s2: int|
                                0 <= s2 < s && k == heads[s2]),
                        forall|s2: int|
                            0 <= s2 < s ==> segmap@.contains_key(#[trigger] heads[s2])
                                && rnk[heads[s2]] == base + lcount - 1 - s2,
                        forall|s2: int, t2: int|
                            #![trigger result.segments@[s2].bookmark_names@[t2]]
                            0 <= s2 < s && 0 <= t2 < result.segments@[s2].bookmark_names@.len()
                                ==> bookmark_to_change_id@.contains_key(
                                result.segments@[s2].bookmark_names@[t2]@,
                            ),
                        forall|k: Seq<char>| #[trigger]
                            adjacency@.contains_key(k) ==> segmap@.contains_key(k)
                                && segmap@.contains_key(adjacency@[k]@) && rnk[adjacency@[k]@]
                                < rnk[k],
                        forall|k: Seq<char>| #[trigger]
                            adjacency@.contains_key(k) ==> old_segdom.contains(k),
                        forall|k: Seq<char>| #[trigger]
                            stack_roots@.contains(k) ==> old_segdom.contains(k),
                        forall|k: Seq<char>| #[trigger]
                            old_segdom.contains(k) ==> (adjacency@.contains_key(k)
                                <==> !stack_roots@.contains(k)),
                        forall|k: Seq<char>| #[trigger]
                            segmap@.contains_key(k) ==> segmap@[k]@.len() > 0
                                && segmap@[k]@[0]@.change_id == k
                                && segmap@[k]@[0]@.local_bookmarks.len() > 0,
                        forall|k: Seq<char>, n: Seq<char>|
                            #![trigger segmap@[k]@[0]@.local_bookmarks.contains(n)]
                            segmap@.contains_key(k) && segmap@[k]@[0]@.local_bookmarks.contains(n)
                                ==> bookmark_to_change_id@.contains_key(n)
                                && bookmark_to_change_id@[n]@ == k,
                        forall|m: Seq<char>| #[trigger]
                            bookmark_to_change_id@.contains_key(m) ==> segmap@.contains_key(
                                bookmark_to_change_id@[m]@,
                            ) && segmap@[bookmark_to_change_id@[m]@]@[0]@.local_bookmarks.contains(
                                m,
                            ),
                        forall|m: Seq<char>| #[trigger]
                            b2c_start.contains_key(m) ==> bookmark_to_change_id@.contains_key(m)
                                && bookmark_to_change_id@[m] == b2c_start[m],
                        forall|e: Seq<char>| #[trigger]
                            excluded_names@.contains(e) ==> !bookmark_to_change_id@.contains_key(
                                e,
                            ),
                        (logs_wf(bs, logs) && logs_consistent(bs, logs)) ==> forall|i2: int|
                            0 <= i2 < bs.len() && has_merge(#[trigger] logs[i2])
                                ==> !bookmark_to_change_id@.contains_key(bs[i2].name@),
                    decreases lcount - s,
                {
                    let seg = &result.segments[s];
                    let first_change_id: String = seg.changes[0].change_id.clone();
                    proof {
                        assert(first_change_id@ == heads[s as int]);
                    }
                    if segmap.contains_key(first_change_id.as_str()) {
                        return Err(
                            crate::error::RyuError::Internal(
                                String::from_str("repeated segment head"),
                            ),
                        );
                    }
                    let cloned_changes = crate::types::clone_entries(&seg.changes);
                    proof {
                        assert(seg_wf(result.segments@[s as int]));
                        assert(cloned_changes.deep_view() == seg.changes.deep_view());
                        assert(cloned_changes@.len() == cloned_changes.deep_view().len());
                        assert(cloned_changes@.len() == seg.changes@.len());
                        assert(cloned_changes@[0]@ == cloned_changes.deep_view()[0]);
                        assert(cloned_changes@[0]@.change_id == first_change_id@);
                        assert(cloned_changes@[0]@.local_bookmarks
                            == seg.bookmark_names.deep_view());
                        assert(cloned_changes@[0]@.local_bookmarks.len() > 0);
                    }
                    segmap.insert(first_change_id.clone(), cloned_changes);
                    proof {
                        rnk = rnk.insert(heads[s as int], (base + lcount - 1 - s) as nat);
                    }
                    let mut nj: usize = 0;
                    while nj < seg.bookmark_names.len()
                        invariant
                            nj <= seg.bookmark_names@.len(),
                            bookmark_to_change_id.wf(),
                            segmap@.contains_key(first_change_id@),
                            forall|t2: int|
                                0 <= t2 < nj ==> bookmark_to_change_id@.contains_key(
                                    (#[trigger] seg.bookmark_names@[t2])@,
                                ) && bookmark_to_change_id@[seg.bookmark_names@[t2]@]@
                                    == first_change_id@,
                            forall|k: Seq<char>, n: Seq<char>|
                                #![trigger segmap@[k]@[0]@.local_bookmarks.contains(n)]
                                segmap@.contains_key(k) && k != first_change_id@
                                    && segmap@[k]@[0]@.local_bookmarks.contains(n)
                                    ==> bookmark_to_change_id@.contains_key(n)
                                    && bookmark_to_change_id@[n]@ == k,
                            forall|s2: int, t2: int|
                                #![trigger result.segments@[s2].bookmark_names@[t2]]
                                0 <= s2 < s && 0 <= t2
                                    < result.segments@[s2].bookmark_names@.len()
                                    ==> bookmark_to_change_id@.contains_key(
                                    result.segments@[s2].bookmark_names@[t2]@,
                                ),
                            forall|m: Seq<char>| #[trigger]
                                bookmark_to_change_id@.contains_key(m) ==> segmap@.contains_key(
                                    bookmark_to_change_id@[m]@,
                                ) && segmap@[bookmark_to_change_id@[m]@]@[0]@.local_bookmarks.contains(
                                    m,
                                ),
                            forall|m: Seq<char>| #[trigger]
                                b2c_start.contains_key(m) ==> bookmark_to_change_id@.contains_key(
                                    m,
                                ) && bookmark_to_change_id@[m] == b2c_start[m],
                            forall|e: Seq<char>| #[trigger]
                                excluded_names@.contains(e)
                                    ==> !bookmark_to_change_id@.contains_key(e),
                            (logs_wf(bs, logs) && logs_consistent(bs, logs)) ==> forall|i2: int|
                                0 <= i2 < bs.len() && has_merge(#[trigger] logs[i2])
                                    ==> !bookmark_to_change_id@.contains_key(bs[i2].name@),
                        decreases seg.bookmark_names@.len() - nj,
                    {
                        let nm = &seg.bookmark_names[nj];
                        if bookmark_to_change_id.contains_key(nm.as_str())
                            || excluded_names.contains(nm.as_str()) {
                            return Err(
                                crate::error::RyuError::Internal(
                                    String::from_str("bookmark collected twice"),
                                ),
                            );
                        }
                        proof {
                            if logs_wf(bs, logs) && logs_consistent(bs, logs) {
                                assert forall|i2: int|
                                    0 <= i2 < bs.len() && has_merge(#[trigger] logs[i2]) implies nm@
                                    != bs[i2].name@ by {
                                    if nm@ == bs[i2].name@ {
                                        assert(seg_wf(result.segments@[s as int]));
                                        let k = choose|k: int|
                                            0 <= k < cvi.len() && (
                                            #[trigger] result.segments@[s as int]).changes@[0]@
                                                == cvi[k];
                                        assert(cvi[k].local_bookmarks
                                            == seg.bookmark_names.deep_view());
                                        assert(seg.bookmark_names.deep_view()[nj as int] == nm@);
                                        assert(cvi[k].local_bookmarks.contains(bs[i2].name@));
                                        assert(logs[i2].len() > 0 && logs[i as int][k].change_id
                                            == logs[i2][0].change_id);
                                        assert(logs[i as int].skip(k) == logs[i2]);
                                        let p = choose|p: int|
                                            0 <= p < logs[i2].len() && (#[trigger] logs[i2][p]).parents.len()
                                                > 1;
                                        assert(logs[i as int].skip(k)[p] == logs[i as int][k + p]);
                                        assert(hit_at(cvi, tcall, k + p));
                                        assert(taint_hit(cvi, tcall));
                                        assert(false);
                                    }
                                }
                            }
                        }
                        proof {
                            assert(seg_wf(result.segments@[s as int]));
                            assert(segmap@[first_change_id@].deep_view()
                                == seg.changes.deep_view());
                            assert(segmap@[first_change_id@]@[0]@ == seg.changes@[0]@);
                            assert(seg.changes@[0]@.local_bookmarks
                                == seg.bookmark_names.deep_view());
                            assert(seg.bookmark_names.deep_view()[nj as int] == nm@);
                            assert(segmap@[first_change_id@]@[0]@.local_bookmarks.contains(nm@));
                        }
                        bookmark_to_change_id.insert(nm.clone(), first_change_id.clone());
                        nj += 1;
                    }
                    proof {
                        assert forall|k: Seq<char>, n: Seq<char>|
                            segmap@.contains_key(k) && #[trigger] segmap@[k]@[0]@.local_bookmarks.contains(
                                n,
                            ) implies bookmark_to_change_id@.contains_key(n)
                            && bookmark_to_change_id@[n]@ == k by {
                            if k == first_change_id@ {
                                assert(segmap@[k]@[0]@.local_bookmarks
                                    == seg.bookmark_names.deep_view());
                                let t2 = choose|t2: int|
                                    0 <= t2 < seg.bookmark_names.deep_view().len()
                                        && seg.bookmark_names.deep_view()[t2] == n;
                                assert((#[trigger] seg.bookmark_names@[t2])@ == n);
                            }
                        }
                    }
                    s += 1;
                }
                // Stacking edges between consecutive segments, child toward leaf.
                let mut e2: usize = 0;
                while e2 + 1 < result.segments.len()
                    invariant
                        e2 <= lcount,
                        lcount >= 1 ==> e2 + 1 <= lcount,
                        adjacency.wf(),
                        forall|k: Seq<char>| #[trigger]
                            old_segdom.contains(k) ==> (adjacency@.contains_key(k)
                                <==> !stack_roots@.contains(k)),
                        forall|k: Seq<char>| #[trigger]
                            adjacency@.contains_key(k) ==> segmap@.contains_key(k)
                                && segmap@.contains_key(adjacency@[k]@) && rnk[adjacency@[k]@]
                                < rnk[k],
                        forall|k: Seq<char>| #[trigger]
                            adjacency@.contains_key(k) ==> old_segdom.contains(k) || (exists|
                                s2: int,
                            |
                                0 <= s2 < e2 && k == heads[s2]),
                        forall|s2: int|
                            0 <= s2 < e2 ==> adjacency@.contains_key(#[trigger] heads[s2]),
                    decreases lcount - e2,
                {
                    let child: String = result.segments[e2].changes[0].change_id.clone();
                    let parent: String = result.segments[e2 + 1].changes[0].change_id.clone();
                    proof {
                        assert(child@ == heads[e2 as int]);
                        assert(parent@ == heads[e2 + 1]);
                        assert(!old_segdom.contains(child@));
                        assert forall|s2: int| 0 <= s2 < lcount && s2 != e2 implies heads[s2]
                            != child@ by {
                            assert(rnk[heads[s2]] != rnk[heads[e2 as int]]);
                        }
                    }
                    adjacency.insert(child, parent);
                    e2 += 1;
                }
                // The trunk-most segment: link to the already-seen head, or root.
                if result.segments.len() > 0 {
                    let last_idx = result.segments.len() - 1;
                    let last_id: String = result.segments[last_idx].changes[0].change_id.clone();
                    proof {
                        assert(last_id@ == heads[last_idx as int]);
                        assert(!old_segdom.contains(last_id@));
                        assert forall|s2: int| 0 <= s2 < lcount && s2 != last_idx implies heads[s2]
                            != last_id@ by {
                            assert(rnk[heads[s2]] != rnk[heads[last_idx as int]]);
                        }
                    }
                    match parent_id {
                        Some(pid) => {
                            proof {
                                assert(rnk[pid@] < base);
                                assert(rnk[last_id@] == base);
                            }
                            adjacency.insert(last_id, pid);
                        },
                        None => {
                            stack_roots.add(last_id);
                        },
                    }
                }
                proof {
                    assert forall|k: Seq<char>| #[trigger]
                        segmap@.contains_key(k) implies (adjacency@.contains_key(k)
                        <==> !stack_roots@.contains(k)) by {
                        if !old_segdom.contains(k) {
                            let s2 = choose|s2: int| 0 <= s2 < lcount && k == #[trigger] heads[s2];
                            assert(rnk[heads[s2]] == base + lcount - 1 - s2);
                            if s2 < lcount - 1 {
                                assert(adjacency@.contains_key(heads[s2]));
                                assert(!stack_roots@.contains(k));
                            }
                        }
                    }
                    // Restore the counting invariant: this bookmark is now
                    // collected, and the standing of every earlier bookmark is
                    // unchanged.
                    if logs_wf(bs, logs) {
                        assert(cvi.len() > 0 && cvi[0].local_bookmarks.contains(name_i));
                        assert(cvi[0].local_bookmarks.len() > 0);
                        if any_name_in(cvi[0].local_bookmarks, b2c_start.dom()) {
                            assert(false);
                        }
                        assert(result.segments@[0].bookmark_names.deep_view()
                            == cvi[0].local_bookmarks);
                        let w = choose|w: int|
                            0 <= w < cvi[0].local_bookmarks.len() && cvi[0].local_bookmarks[w]
                                == name_i;
                        assert(bookmark_to_change_id@.contains_key(
                            result.segments@[0].bookmark_names@[w]@,
                        ));
                        assert(bookmark_to_change_id@.contains_key(name_i));
                        assert forall|j: int| 0 <= j < bs.take(i as int).len() implies (
                        b2c_start.dom().contains((#[trigger] bs.take(i as int)[j]).name@)
                            <==> bookmark_to_change_id@.dom().contains(
                            bs.take(i as int)[j].name@,
                        )) by {
                            let m = bs.take(i as int)[j].name@;
                            if !b2c_start.contains_key(m) {
                                assert(excluded_names@.contains(m)
                                    || bookmark_to_change_id@.contains_key(m) == b2c_start.contains_key(m));
                            }
                        }
                        lemma_num_collected_stable(
                            bs.take(i as int),
                            b2c_start.dom(),
                            bookmark_to_change_id@.dom(),
                        );
                        lemma_num_collected_step(bs, bookmark_to_change_id@.dom(), i as int);
                    }
                }
            }
        } else {
            proof {
                if logs_wf(bs, logs) {
                    lemma_num_collected_step(bs, bookmark_to_change_id@.dom(), i as int);
                }
            }
        }
        proof {
            if logs_wf(bs, logs) {
                assert(bs.take(i + 1).len() == i + 1);
            }
        }
        i += 1;
    }
    proof {
        assert(bs.take(n as int) =~= bs);
    }

    // Leaves: heads that are no segment's parent.
    let mut stack_leafs: StrSet = StrSet::new();
    let segcount = segmap.len();
    let mut ki: usize = 0;
    while ki < segcount
        invariant
            stack_leafs.wf(),
            ki <= segcount,
            forall|k: Seq<char>| #[trigger]
                stack_leafs@.contains(k) ==> segmap@.contains_key(k) && !(exists|k2: Seq<char>| #[trigger]
                    adjacency@.contains_key(k2) && adjacency@[k2]@ == k),
            forall|u: int|
                0 <= u < ki ==> (#[trigger] stack_leafs@.contains(segmap.key_seq()[u])) || (exists|
                    k2: Seq<char>,
                |
                    #[trigger] adjacency@.contains_key(k2) && adjacency@[k2]@ == segmap.key_seq()[u]),
        decreases segcount - ki,
    {
        let k = segmap.key_at(ki);
        if !map_has_value(&adjacency, k.as_str()) {
            stack_leafs.add(k.clone());
        }
        ki += 1;
    }
    proof {
        segmap.lemma_view_facts();
        assert forall|k: Seq<char>|
            stack_leafs@.contains(k) <==> (segmap@.contains_key(k) && !(exists|k2: Seq<char>| #[trigger]
                adjacency@.contains_key(k2) && adjacency@[k2]@ == k)) by {
            if segmap@.contains_key(k) && !(exists|k2: Seq<char>| #[trigger]
                adjacency@.contains_key(k2) && adjacency@[k2]@ == k) {
                let u = choose|u: int|
                    0 <= u < segmap.spec_len() && #[trigger] segmap.key_seq()[u] == k;
                assert(stack_leafs@.contains(segmap.key_seq()[u]));
            }
        }
        assert(is_rank(adjacency@, rnk));
        assert(acyclic(adjacency@));
    }

    // Stacks: one per leaf, root first.
    let stacks = group_segments_into_stacks(
        &bookmarks_by_name,
        &stack_leafs,
        &adjacency,
        &segmap,
    );

    let graph = crate::types::ChangeGraph {
        bookmarks: bookmarks_by_name,
        bookmark_to_change_id,
        bookmarked_change_adjacency_list: adjacency,
        bookmarked_change_id_to_segment: segmap,
        stack_leafs,
        stack_roots,
        stacks,
        excluded_bookmark_count: total_excluded,
    };
    proof {
        assert(graph.bookmarks.wf());
        assert(graph.bookmark_to_change_id.wf());
        assert forall|n: Seq<char>| #[trigger]
            graph.bookmarks@.contains_key(n) implies graph.bookmarks@[n].name@ == n by {
            let i2 = choose|i2: int| 0 <= i2 < bi && n == (#[trigger] bs[i2]).name@;
            assert(graph.bookmarks@[bs[i2].name@] == bs[i2]);
        }
        assert(forall|k: Seq<char>| #[trigger]
            graph.bookmarked_change_adjacency_list@.contains_key(k)
                ==> graph.bookmarked_change_id_to_segment@.contains_key(k)
                && graph.bookmarked_change_id_to_segment@.contains_key(
                graph.bookmarked_change_adjacency_list@[k]@,
            ));
        assert(forall|k: Seq<char>| #[trigger]
            graph.bookmarked_change_id_to_segment@.contains_key(k) ==> (
            graph.bookmarked_change_adjacency_list@.contains_key(k)
                <==> !graph.stack_roots@.contains(k)));
        assert(forall|k: Seq<char>| #[trigger]
            graph.stack_roots@.contains(k) ==> graph.bookmarked_change_id_to_segment@.contains_key(
                k,
            ));
        assert(forall|k: Seq<char>| #[trigger]
            graph.bookmarked_change_id_to_segment@.contains_key(k)
                ==> graph.bookmarked_change_id_to_segment@[k]@.len() > 0
                && graph.bookmarked_change_id_to_segment@[k]@[0]@.change_id == k
                && graph.bookmarked_change_id_to_segment@[k]@[0]@.local_bookmarks.len() > 0);
        assert(forall|k: Seq<char>, n: Seq<char>|
            #![trigger graph.bookmarked_change_id_to_segment@[k]@[0]@.local_bookmarks.contains(n)]
            graph.bookmarked_change_id_to_segment@.contains_key(k)
                && graph.bookmarked_change_id_to_segment@[k]@[0]@.local_bookmarks.contains(n)
                ==> graph.bookmark_to_change_id@.contains_key(n)
                && graph.bookmark_to_change_id@[n]@ == k);
        assert(forall|k: Seq<char>|
            #![trigger graph.stack_leafs@.contains(k)]
            graph.stack_leafs@.contains(k) <==> (
            graph.bookmarked_change_id_to_segment@.contains_key(k) && !(exists|k2: Seq<char>| #[trigger]
                graph.bookmarked_change_adjacency_list@.contains_key(k2)
                    && graph.bookmarked_change_adjacency_list@[k2]@ == k)));
        assert(forall|n: Seq<char>| #[trigger]
            graph.bookmark_to_change_id@.contains_key(n)
                ==> graph.bookmarked_change_id_to_segment@.contains_key(
                graph.bookmark_to_change_id@[n]@,
            ));
        assert(acyclic(graph.bookmarked_change_adjacency_list@));
        assert(graph.stacks@.len() == graph.stack_leafs.spec_len());
        assert(forall|si: int|
            0 <= si < graph.stacks@.len() ==> {
                let s = #[trigger] graph.stacks@[si];
                &&& stack_chain_ok(graph.bookmarked_change_adjacency_list@, s)
                &&& seg_head(s.segments@[s.segments@.len() - 1])
                    == graph.stack_leafs.elem_seq()[si]
                &&& forall|t: int|
                    0 <= t < s.segments@.len() ==> {
                        let h = seg_head(#[trigger] s.segments@[t]);
                        &&& graph.bookmarked_change_id_to_segment@.contains_key(h)
                        &&& s.segments@[t].changes.deep_view()
                            == graph.bookmarked_change_id_to_segment@[h].deep_view()
                        &&& s.segments@[t].bookmarks@ == resolve_bookmarks(
                            graph.bookmarked_change_id_to_segment@[h]@[0]@.local_bookmarks,
                            graph.bookmarks@,
                        )
                    }
            });
        assert(forall|si: int|
            0 <= si < graph.stacks@.len() ==> graph.stack_roots@.contains(
                seg_head((#[trigger] graph.stacks@[si]).segments@[0]),
            ));
        assert(graph_wf(graph));
    }
    Ok(graph)
}

/// Assembles one stack per leaf: the path from the leaf to its root is
/// materialized into bookmark segments, ordered root first.
pub fn group_segments_into_stacks(
    bookmarks: &StrMap<crate::types::Bookmark>,
    stack_leafs: &StrSet,
    adjacency_list: &StrMap<String>,
    change_id_to_segment: &StrMap<Vec<LogEntry>>,
) -> (r: Vec<crate::types::BranchStack>)
    requires
        bookmarks.wf(),
        stack_leafs.wf(),
        adjacency_list.wf(),
        change_id_to_segment.wf(),
        acyclic(adjacency_list@),
        forall|k: Seq<char>| #[trigger]
            adjacency_list@.contains_key(k) ==> change_id_to_segment@.contains_key(k)
                && change_id_to_segment@.contains_key(adjacency_list@[k]@),
        forall|k: Seq<char>| #[trigger]
            change_id_to_segment@.contains_key(k) ==> change_id_to_segment@[k]@.len() > 0
                && change_id_to_segment@[k]@[0]@.change_id == k,
        forall|k: Seq<char>| #[trigger]
            stack_leafs@.contains(k) ==> change_id_to_segment@.contains_key(k),
    ensures
        r@.len() == stack_leafs.spec_len(),
        forall|si: int|
            0 <= si < r@.len() ==> {
                let s = #[trigger] r@[si];
                &&& stack_chain_ok(adjacency_list@, s)
                &&& seg_head(s.segments@[s.segments@.len() - 1]) == stack_leafs.elem_seq()[si]
                &&& forall|t: int|
                    0 <= t < s.segments@.len() ==> {
                        let h = seg_head(#[trigger] s.segments@[t]);
                        &&& change_id_to_segment@.contains_key(h)
                        &&& s.segments@[t].changes.deep_view() == change_id_to_segment@[h].deep_view()
                        &&& s.segments@[t].bookmarks@ == resolve_bookmarks(
                            change_id_to_segment@[h]@[0]@.local_bookmarks,
                            bookmarks@,
                        )
                    }
            },
{
    let mut stacks: Vec<crate::types::BranchStack> = Vec::new();
    let nleafs = stack_leafs.len();
    let mut li: usize = 0;
    while li < nleafs
        invariant
            bookmarks.wf(),
            stack_leafs.wf(),
            adjacency_list.wf(),
            change_id_to_segment.wf(),
            acyclic(adjacency_list@),
            nleafs == stack_leafs.spec_len(),
            forall|k: Seq<char>| #[trigger]
                adjacency_list@.contains_key(k) ==> change_id_to_segment@.contains_key(k)
                    && change_id_to_segment@.contains_key(adjacency_list@[k]@),
            forall|k: Seq<char>| #[trigger]
                change_id_to_segment@.contains_key(k) ==> change_id_to_segment@[k]@.len() > 0
                    && change_id_to_segment@[k]@[0]@.change_id == k,
            forall|k: Seq<char>| #[trigger]
                stack_leafs@.contains(k) ==> change_id_to_segment@.contains_key(k),
            li <= nleafs,
            stacks@.len() == li,
            forall|si: int|
                0 <= si < li ==> {
                    let s = #[trigger] stacks@[si];
                    &&& stack_chain_ok(adjacency_list@, s)
                    &&& seg_head(s.segments@[s.segments@.len() - 1]) == stack_leafs.elem_seq()[si]
                    &&& forall|t: int|
                        0 <= t < s.segments@.len() ==> {
                            let h = seg_head(#[trigger] s.segments@[t]);
                            &&& change_id_to_segment@.contains_key(h)
                            &&& s.segments@[t].changes.deep_view() == change_id_to_segment@[h].deep_view()
                            &&& s.segments@[t].bookmarks@ == resolve_bookmarks(
                                change_id_to_segment@[h]@[0]@.local_bookmarks,
                                bookmarks@,
                            )
                        }
                },
        decreases nleafs - li,
    {
        let leaf = stack_leafs.elem_at(li);
        let path = build_path_to_root(leaf.as_str(), adjacency_list);
        proof {
            assert forall|t: int| 0 <= t < path@.len() implies change_id_to_segment@.contains_key(
                (#[trigger] path@[t])@,
            ) && change_id_to_segment@[path@[t]@]@.len() > 0 by {
                if t == path@.len() - 1 {
                    assert(path@[t]@ == leaf@);
                } else {
                    assert(adjacency_list@.contains_key(path@[t + 1]@)
                        && adjacency_list@[path@[t + 1]@]@ == path@[t]@);
                }
            }
        }
        let segments = build_segments(&path, bookmarks, change_id_to_segment);
        proof {
            assert(segments@.len() == path@.len());
            assert forall|t: int| 0 <= t < segments@.len() implies (
            #[trigger] segments@[t]).changes@.len() > 0 && seg_head(segments@[t]) == path@[t]@ by {
                assert(segments@[t].changes.deep_view()
                    == change_id_to_segment@[path@[t]@].deep_view());
                assert(segments@[t].changes.deep_view().len()
                    == change_id_to_segment@[path@[t]@]@.len());
                assert(segments@[t].changes.deep_view()[0]
                    == change_id_to_segment@[path@[t]@]@[0]@);
            }
        }
        let stack = crate::types::BranchStack { segments };
        proof {
            assert(!adjacency_list@.contains_key(path@[0]@));
            assert(seg_head(stack.segments@[0]) == path@[0]@);
            assert forall|i2: int| 1 <= i2 < stack.segments@.len() implies adjacency_list@.contains_key(
                seg_head(#[trigger] stack.segments@[i2]),
            ) && adjacency_list@[seg_head(stack.segments@[i2])]@ == seg_head(
                stack.segments@[i2 - 1],
            ) by {
                assert(seg_head(stack.segments@[i2]) == path@[i2]@);
                assert(seg_head(stack.segments@[i2 - 1]) == path@[i2 - 1]@);
                assert(adjacency_list@.contains_key((path@[(i2 - 1) + 1])@)
                    && adjacency_list@[path@[(i2 - 1) + 1]@]@ == path@[i2 - 1]@);
            }
            assert(stack_chain_ok(adjacency_list@, stack));
            assert(seg_head(stack.segments@[stack.segments@.len() - 1])
                == stack_leafs.elem_seq()[li as int]);
        }
        stacks.push(stack);
        li += 1;
    }
    stacks
}

} // verus!
