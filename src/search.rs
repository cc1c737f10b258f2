//! Layered search: greedy descent through the upper layers, then an
//! `ef`-bounded best-first exploration of layer 0 with a dense visited filter.
//! Distances are compared by the IEEE 754 total order, so no input makes the
//! search panic, and it ends on any graph, cyclic or not.
use crate::counting::lemma_distinct_below_len;
use crate::distance::{spec_total_rank, total_rank, VectorDistance};
use crate::error::ChassisError;
use crate::graph::HnswGraph;
use crate::node::NodeId;
use vstd::prelude::*;
use vstd::set_lib::{lemma_int_range, set_int_range};

verus! {

broadcast use vstd::seq_lib::group_seq_properties, vstd::set::group_set_axioms;

/// A search hit: a node id and its distance to the query, as the bit pattern
/// of an `f32`.
#[derive(Debug, Clone, Copy)]
pub struct SearchResult {
    /// Node id.
    pub id: NodeId,
    /// Distance to the query, as `f32` bits.
    pub distance: u32,
}

impl SearchResult {
    /// Compares two hits by distance in the total order: `-1`, `0` or `1`.
    pub fn cmp_distance(&self, other: &SearchResult) -> (r: i8)
        ensures
            r == -1 <==> spec_total_rank(self.distance) < spec_total_rank(other.distance),
            r == 0 <==> spec_total_rank(self.distance) == spec_total_rank(other.distance),
            r == 1 <==> spec_total_rank(self.distance) > spec_total_rank(other.distance),
    {
        let a = total_rank(self.distance);
        let b = total_rank(other.distance);
        if a < b {
            -1
        } else if a == b {
            0
        } else {
            1
        }
    }
}

/// The hits are in non-decreasing order of distance, by the total order.
pub open spec fn sorted_by_distance(s: Seq<SearchResult>) -> bool {
    forall|i: int, j: int|
        0 <= i < j < s.len() ==> spec_total_rank(#[trigger] s[i].distance) <= spec_total_rank(
            #[trigger] s[j].distance,
        )
}

/// No two hits name the same node.
pub open spec fn unique_ids(s: Seq<SearchResult>) -> bool {
    forall|i: int, j: int| 0 <= i < s.len() && 0 <= j < s.len() && i != j ==> #[trigger] s[i].id != #[trigger] s[j].id
}

/// The ids of the hits.
pub open spec fn result_ids(s: Seq<SearchResult>) -> Seq<u64> {
    Seq::new(s.len(), |i: int| s[i].id)
}

/// A dense filter of visited nodes: one flag per node.
pub struct VisitedFilter {
    visited: Vec<bool>,
    marked: Ghost<Set<int>>,
}

impl VisitedFilter {
    /// The nodes visited so far.
    pub closed spec fn spec_marked(&self) -> Set<int> {
        self.marked@
    }

    /// Number of nodes the filter has a flag for.
    pub closed spec fn spec_len(&self) -> nat {
        self.visited@.len()
    }

    /// The flags match the visited set, which lies below the length.
    pub closed spec fn wf(&self) -> bool {
        &&& forall|i: int| 0 <= i < self.visited@.len() ==> (self.visited@[i] <==> self.marked@.contains(i))
        &&& forall|i: int| self.marked@.contains(i) ==> 0 <= i < self.visited@.len()
    }

    /// The visited set is finite and no larger than the number of flags.
    pub proof fn lemma_marked_bound(&self)
        requires
            self.wf(),
        ensures
            self.spec_marked().finite(),
            self.spec_marked().len() <= self.spec_len(),
    {
        lemma_int_range(0, self.visited@.len() as int);
        assert(self.marked@.subset_of(set_int_range(0, self.visited@.len() as int)));
        vstd::set_lib::lemma_len_subset(self.marked@, set_int_range(0, self.visited@.len() as int));
    }

    /// A filter for `node_count` nodes, none visited.
    pub fn new(node_count: usize) -> (r: Self)
        ensures
            r.wf(),
            r.spec_len() == node_count,
            r.spec_marked() == Set::<int>::empty(),
    {
        let mut visited: Vec<bool> = Vec::with_capacity(node_count);
        let mut i: usize = 0;
        while i < node_count
            invariant
                i <= node_count,
                visited@.len() == i,
                forall|k: int| 0 <= k < i ==> !visited@[k],
            decreases node_count - i,
        {
            visited.push(false);
            i = i + 1;
        }
        VisitedFilter { visited, marked: Ghost(Set::empty()) }
    }

    /// Whether a node has been visited; ids past the end never are.
    pub fn is_visited(&self, node_id: NodeId) -> (r: bool)
        requires
            self.wf(),
        ensures
            r == self.spec_marked().contains(node_id as int),
    {
        if node_id < self.visited.len() as u64 {
            self.visited[node_id as usize]
        } else {
            false
        }
    }

    /// Marks a node visited; `true` when it was not visited before. Ids past
    /// the end cannot be visited and give `false`.
    pub fn visit(&mut self, node_id: NodeId) -> (r: bool)
        requires
            old(self).wf(),
        ensures
            final(self).wf(),
            final(self).spec_len() == old(self).spec_len(),
            r == (node_id < old(self).spec_len() && !old(self).spec_marked().contains(node_id as int)),
            final(self).spec_marked() == if r {
                old(self).spec_marked().insert(node_id as int)
            } else {
                old(self).spec_marked()
            },
    {
        if node_id < self.visited.len() as u64 {
            let idx = node_id as usize;
            let was = self.visited[idx];
            self.visited.set(idx, true);
            if !was {
                self.marked = Ghost(self.marked@.insert(idx as int));
            }
            !was
        } else {
            false
        }
    }
}

/// Inserts a hit into a list sorted by distance, after the hits that are not
/// farther.
fn insert_sorted(v: &mut Vec<SearchResult>, item: SearchResult)
    requires
        sorted_by_distance(old(v)@),
    ensures
        sorted_by_distance(final(v)@),
        exists|p: int| 0 <= p <= old(v)@.len() && final(v)@ == old(v)@.insert(p, item),
{
    let key = total_rank(item.distance);
    let mut p: usize = 0;
    while p < v.len() && total_rank(v[p].distance) <= key
        invariant
            p <= v@.len(),
            v@ == old(v)@,
            forall|k: int| 0 <= k < p ==> spec_total_rank(v@[k].distance) <= key,
        decreases v@.len() - p,
    {
        p = p + 1;
    }
    let ghost before = v@;
    v.insert(p, item);
    proof {
        assert forall|i: int, j: int| 0 <= i < j < v@.len() implies spec_total_rank(
            #[trigger] v@[i].distance,
        ) <= spec_total_rank(#[trigger] v@[j].distance) by {
            if j < p {
            } else if j == p {
                assert(v@[i] == before[i]);
            } else if i < p {
                assert(v@[j] == before[j - 1]);
                assert(v@[i] == before[i]);
                if p < before.len() {
                    assert(spec_total_rank(before[p as int].distance) > key);
                    assert(spec_total_rank(before[i].distance) <= spec_total_rank(
                        before[p as int].distance,
                    ));
                }
            } else if i == p {
                assert(v@[j] == before[j - 1]);
                assert(spec_total_rank(before[p as int].distance) > key);
            } else {
                assert(v@[j] == before[j - 1]);
                assert(v@[i] == before[i - 1]);
            }
        }
    }
}

impl HnswGraph {
    /// Greedy descent on one layer: from `entry`, moves to a strictly closer
    /// neighbour until none is closer, and returns where it stopped.
    pub fn search_layer_greedy<D: VectorDistance>(
        &self,
        metric: &D,
        query: &[u8],
        entry: NodeId,
        layer: usize,
    ) -> (r: Result<NodeId, ChassisError>)
        requires
            self.wf(),
        ensures
            r is Ok ==> r->Ok_0 == entry || r->Ok_0 < self.node_count,
            entry < self.node_count && self.vectors_cover() ==> r is Ok,
    {
        let ghost cover = entry < self.node_count && self.vectors_cover();
        let mut best_id = entry;
        let mut best_dist = match self.compute_distance_zero_copy(metric, query, entry) {
            Ok(d) => d,
            Err(e) => {
                return Err(e);
            },
        };
        let n = if self.node_count > usize::MAX as u64 {
            usize::MAX
        } else {
            self.node_count as usize
        };
        let mut visited = VisitedFilter::new(n);
        visited.visit(entry);
        let mut changed = true;
        proof {
            visited.lemma_marked_bound();
        }
        while changed
            invariant
                self.wf(),
                visited.wf(),
                visited.spec_len() == n,
                n <= self.node_count,
                visited.spec_marked().finite(),
                visited.spec_marked().len() <= n,
                best_id == entry || best_id < self.node_count,
                cover ==> best_id < self.node_count && self.vectors_cover(),
            decreases (n - visited.spec_marked().len()) + if changed {
                1int
            } else {
                0int
            },
        {
            let ghost start = visited.spec_marked().len();
            changed = false;
            let mut it = match self.neighbors_iter_from_mmap(best_id, layer) {
                Ok(it) => it,
                Err(e) => {
                    return Err(e);
                },
            };
            loop
                invariant
                    self.wf(),
                    visited.wf(),
                    visited.spec_len() == n,
                    n <= self.node_count,
                    visited.spec_marked().finite(),
                    visited.spec_marked().len() <= n,
                    best_id == entry || best_id < self.node_count,
                    cover ==> best_id < self.node_count && self.vectors_cover(),
                    start <= visited.spec_marked().len(),
                    changed ==> start < visited.spec_marked().len(),
                decreases it.remaining(),
            {
                let neighbor = match it.next() {
                    Some(x) => x,
                    None => {
                        break;
                    },
                };
                let ghost before = visited.spec_marked();
                if visited.visit(neighbor) {
                    proof {
                        visited.lemma_marked_bound();
                        assert(!before.contains(neighbor as int));
                    }
                    let dist = match self.compute_distance_zero_copy(metric, query, neighbor) {
                        Ok(d) => d,
                        Err(e) => {
                            return Err(e);
                        },
                    };
                    if total_rank(dist) < total_rank(best_dist) {
                        best_id = neighbor;
                        best_dist = dist;
                        changed = true;
                    }
                }
            }
        }
        Ok(best_id)
    }

    /// Best-first search of one layer from `entry`, keeping the `ef` closest
    /// hits found; returns them in ascending order of distance.
    pub fn search_layer_optimized<D: VectorDistance>(
        &self,
        metric: &D,
        query: &[u8],
        entry: NodeId,
        ef: usize,
        layer: usize,
    ) -> (r: Result<Vec<SearchResult>, ChassisError>)
        requires
            self.wf(),
            entry < self.node_count,
        ensures
            r is Ok ==> {
                let res = r->Ok_0@;
                &&& unique_ids(res)
                &&& sorted_by_distance(res)
                &&& forall|i: int| 0 <= i < res.len() ==> #[trigger] res[i].id < self.node_count
                &&& 1 <= res.len() <= if ef == 0 {
                    1
                } else {
                    ef
                }
            },
            self.vectors_cover() ==> r is Ok,
    {
        let ghost cover = self.vectors_cover();
        let n = if self.node_count > usize::MAX as u64 {
            usize::MAX
        } else {
            self.node_count as usize
        };
        let mut visited = VisitedFilter::new(n);
        let entry_dist = match self.compute_distance_zero_copy(metric, query, entry) {
            Ok(d) => d,
            Err(e) => {
                return Err(e);
            },
        };
        let mut candidates: Vec<SearchResult> = Vec::new();
        let mut results: Vec<SearchResult> = Vec::new();
        candidates.push(SearchResult { id: entry, distance: entry_dist });
        results.push(SearchResult { id: entry, distance: entry_dist });
        visited.visit(entry);
        proof {
            visited.lemma_marked_bound();
        }
        let cap: usize = if ef == 0 {
            1
        } else {
            ef
        };
        while candidates.len() > 0
            invariant
                self.wf(),
                visited.wf(),
                visited.spec_len() == n,
                n <= self.node_count,
                visited.spec_marked().finite(),
                visited.spec_marked().len() <= n,
                cap == if ef == 0 {
                    1
                } else {
                    ef
                },
                1 <= results@.len() <= cap,
                cover == self.vectors_cover(),
                sorted_by_distance(results@),
                sorted_by_distance(candidates@),
                unique_ids(results@),
                forall|i: int|
                    0 <= i < results@.len() ==> visited.spec_marked().contains(
                        #[trigger] results@[i].id as int,
                    ) || results@[i].id >= n,
                forall|i: int| 0 <= i < results@.len() ==> #[trigger] results@[i].id < self.node_count,
                forall|i: int| 0 <= i < candidates@.len() ==> #[trigger] candidates@[i].id < self.node_count,
            decreases n - visited.spec_marked().len(), candidates@.len(),
        {
            let ghost start_marked = visited.spec_marked().len();
            let ghost start_cands = candidates@.len();
            let ghost pc = candidates@;
            let current = candidates.remove(0);
            proof {
                assert forall|i: int| 0 <= i < candidates@.len() implies candidates@[i] == pc[i + 1] by {}
                assert forall|i: int, j: int| 0 <= i < j < candidates@.len() implies spec_total_rank(
                    #[trigger] candidates@[i].distance,
                ) <= spec_total_rank(#[trigger] candidates@[j].distance) by {
                    assert(candidates@[i] == pc[i + 1]);
                    assert(candidates@[j] == pc[j + 1]);
                }
                assert forall|i: int| 0 <= i < candidates@.len() implies #[trigger] candidates@[i].id
                    < self.node_count by {
                    assert(candidates@[i] == pc[i + 1]);
                }
            }
            if results.len() >= ef {
                let worst = results[results.len() - 1];
                if total_rank(current.distance) > total_rank(worst.distance) {
                    break;
                }
            }
            let mut it = match self.neighbors_iter_from_mmap(current.id, layer) {
                Ok(it) => it,
                Err(e) => {
                    return Err(e);
                },
            };
            loop
                invariant
                    self.wf(),
                    visited.wf(),
                    visited.spec_len() == n,
                    n <= self.node_count,
                    visited.spec_marked().finite(),
                    visited.spec_marked().len() <= n,
                    cap == if ef == 0 {
                        1
                    } else {
                        ef
                    },
                    1 <= results@.len() <= cap,
                    cover == self.vectors_cover(),
                    current.id < self.node_count,
                    sorted_by_distance(results@),
                    sorted_by_distance(candidates@),
                    unique_ids(results@),
                    forall|i: int|
                        0 <= i < results@.len() ==> visited.spec_marked().contains(
                            #[trigger] results@[i].id as int,
                        ) || results@[i].id >= n,
                    forall|i: int| 0 <= i < results@.len() ==> #[trigger] results@[i].id < self.node_count,
                    forall|i: int|
                        0 <= i < candidates@.len() ==> #[trigger] candidates@[i].id < self.node_count,
                    start_marked <= visited.spec_marked().len(),
                    candidates@.len() + start_marked + 1 <= start_cands + visited.spec_marked().len(),
                decreases it.remaining(),
            {
                let neighbor = match it.next() {
                    Some(x) => x,
                    None => {
                        break;
                    },
                };
                let ghost before = visited.spec_marked();
                if visited.visit(neighbor) {
                    proof {
                        visited.lemma_marked_bound();
                    }
                    let dist = match self.compute_distance_zero_copy(metric, query, neighbor) {
                        Ok(d) => d,
                        Err(e) => {
                            return Err(e);
                        },
                    };
                    let should_add = if results.len() < ef {
                        true
                    } else {
                        total_rank(dist) < total_rank(results[results.len() - 1].distance)
                    };
                    if should_add {
                        let hit = SearchResult { id: neighbor, distance: dist };
                        proof {
                            assert forall|i: int| 0 <= i < results@.len() implies results@[i].id
                                != neighbor by {
                                assert(before.contains(results@[i].id as int) || results@[i].id >= n);
                            }
                        }
                        let ghost prev_cands = candidates@;
                        insert_sorted(&mut candidates, hit);
                        proof {
                            let p = choose|p: int|
                                0 <= p <= prev_cands.len() && candidates@ == prev_cands.insert(p, hit);
                            assert forall|i: int| 0 <= i < candidates@.len() implies #[trigger] candidates@[i].id
                                < self.node_count by {
                                if i < p {
                                    assert(candidates@[i] == prev_cands[i]);
                                } else if i > p {
                                    assert(candidates@[i] == prev_cands[i - 1]);
                                }
                            }
                        }
                        let ghost prev_results = results@;
                        insert_sorted(&mut results, hit);
                        proof {
                            let p = choose|p: int|
                                0 <= p <= prev_results.len() && results@ == prev_results.insert(p, hit);
                            assert forall|i: int| 0 <= i < results@.len() implies #[trigger] results@[i].id
                                < self.node_count && (visited.spec_marked().contains(results@[i].id as int)
                                || results@[i].id >= n) by {
                                if i < p {
                                    assert(results@[i] == prev_results[i]);
                                } else if i > p {
                                    assert(results@[i] == prev_results[i - 1]);
                                }
                            }
                            assert forall|i: int, j: int|
                                0 <= i < results@.len() && 0 <= j < results@.len() && i != j implies #[trigger] results@[i].id
                                != #[trigger] results@[j].id by {
                                let ii = if i < p {
                                    i
                                } else {
                                    i - 1
                                };
                                let jj = if j < p {
                                    j
                                } else {
                                    j - 1
                                };
                                if i != p && j != p {
                                    assert(results@[i] == prev_results[ii]);
                                    assert(results@[j] == prev_results[jj]);
                                } else if i == p {
                                    assert(results@[j] == prev_results[jj]);
                                } else {
                                    assert(results@[i] == prev_results[ii]);
                                }
                            }
                        }
                        if results.len() > cap {
                            let ghost full = results@;
                            results.pop();
                            proof {
                                assert forall|i: int| 0 <= i < results@.len() implies results@[i]
                                    == full[i] by {}
                            }
                        }
                    }
                }
            }
        }
        Ok(results)
    }

    /// The `k` nearest nodes to `query` that the search finds, in ascending
    /// order of distance. `ef` is raised to `k` when smaller; an empty graph
    /// gives no hits.
    pub fn search<D: VectorDistance>(&self, metric: &D, query: &[u8], k: usize, ef: usize) -> (r:
        Result<Vec<SearchResult>, ChassisError>)
        requires
            self.wf(),
        ensures
            self.entry_point is None ==> (r matches Ok(v) && v@.len() == 0),
            r is Ok ==> {
                let res = r->Ok_0@;
                &&& unique_ids(res)
                &&& sorted_by_distance(res)
                &&& res.len() <= k
                &&& res.len() <= self.node_count
                &&& (k > 0 && self.node_count > 0 ==> res.len() >= 1)
                &&& forall|i: int| 0 <= i < res.len() ==> #[trigger] res[i].id < self.node_count
            },
            self.vectors_cover() ==> r is Ok,
    {
        let entry = match self.entry_point {
            None => {
                return Ok(Vec::new());
            },
            Some(e) => e,
        };
        let ef = if ef < k {
            k
        } else {
            ef
        };
        let mut current = entry;
        let mut layer = self.max_layer;
        while layer > 0
            invariant
                self.wf(),
                current < self.node_count,
            decreases layer,
        {
            current = match self.search_layer_greedy(metric, query, current, layer) {
                Ok(c) => c,
                Err(e) => {
                    return Err(e);
                },
            };
            layer = layer - 1;
        }
        let mut found = match self.search_layer_optimized(metric, query, current, ef, 0) {
            Ok(v) => v,
            Err(e) => {
                return Err(e);
            },
        };
        let ghost all = found@;
        found.truncate(k);
        proof {
            assert forall|i: int| 0 <= i < found@.len() implies found@[i] == all[i] by {}
            assert(unique_ids(found@));
            lemma_results_bounded(found@, self.node_count as nat);
        }
        Ok(found)
    }
}

/// Hits with distinct ids, all below `n`, are at most `n`.
pub proof fn lemma_results_bounded(s: Seq<SearchResult>, n: nat)
    requires
        unique_ids(s),
        forall|i: int| 0 <= i < s.len() ==> #[trigger] s[i].id < n,
    ensures
        s.len() <= n,
{
    let ids = result_ids(s);
    assert forall|i: int, j: int| 0 <= i < ids.len() && 0 <= j < ids.len() && i != j implies ids[i]
        != ids[j] by {
        assert(s[i].id != s[j].id);
    }
    assert forall|i: int| 0 <= i < ids.len() implies ids[i] < n by {
        assert(s[i].id < n);
    }
    lemma_distinct_below_len(ids, n);
}

} // verus!
