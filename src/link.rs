//! Bidirectional linking with the diversity heuristic.
//!
//! A new node's record is written first, with its forward edges; then each
//! neighbour gets a back-link, pruned by the heuristic when its layer is full;
//! publishing the node comes last. A crash in between leaves at worst one-way
//! edges and never a reference to an unwritten record.
use crate::counting::lemma_covering_len;
use crate::distance::{total_rank, VectorDistance};
use crate::error::ChassisError;
use crate::graph::{lemma_other_record_kept, HnswGraph};
use crate::node::{layer_slots, layer_view, NodeId, NodeRecord, INVALID_NODE_ID};
use vstd::prelude::*;

verus! {

broadcast use vstd::seq_lib::group_seq_properties;

/// Most candidates the heuristic looks at: a full layer of 32 and one more.
pub const MAX_CANDIDATES: usize = 33;

/// Cells of the distance cache: a 33 x 33 matrix.
pub const CACHE_SIZE: usize = 1089;

/// Each element of `s` below `bound` once, at its first occurrence.
pub open spec fn dedup(s: Seq<u64>, bound: nat) -> Seq<u64>
    decreases s.len(),
{
    if s.len() == 0 {
        s
    } else {
        let d = dedup(s.drop_last(), bound);
        if s.last() >= bound || d.contains(s.last()) {
            d
        } else {
            d.push(s.last())
        }
    }
}

/// `dedup` keeps no duplicate, and exactly the elements of its argument
/// below the bound.
pub proof fn lemma_dedup(s: Seq<u64>, bound: nat)
    ensures
        dedup(s, bound).no_duplicates(),
        forall|x: u64| #[trigger] dedup(s, bound).contains(x) <==> s.contains(x) && x < bound,
        dedup(s, bound).len() <= s.len(),
    decreases s.len(),
{
    if s.len() > 0 {
        let p = s.drop_last();
        let last = s.last();
        lemma_dedup(p, bound);
        let d = dedup(p, bound);
        let e = d.push(last);
        assert forall|x: u64| s.contains(x) <==> (p.contains(x) || x == last) by {
            if s.contains(x) {
                let i = choose|i: int| 0 <= i < s.len() && s[i] == x;
                if i < s.len() - 1 {
                    assert(p[i] == x);
                }
            }
            if p.contains(x) {
                let j = choose|j: int| 0 <= j < p.len() && p[j] == x;
                assert(s[j] == x);
            }
            if x == last {
                assert(s[s.len() - 1] == x);
            }
        }
        assert forall|x: u64| e.contains(x) <==> (d.contains(x) || x == last) by {
            if e.contains(x) {
                let i = choose|i: int| 0 <= i < e.len() && e[i] == x;
                if i < d.len() {
                    assert(d[i] == x);
                }
            }
            if d.contains(x) {
                let j = choose|j: int| 0 <= j < d.len() && d[j] == x;
                assert(e[j] == x);
            }
            if x == last {
                assert(e[d.len() as int] == x);
            }
        }
        assert forall|x: u64| #[trigger] dedup(s, bound).contains(x) <==> s.contains(x) && x < bound by {
            assert(d.contains(x) <==> p.contains(x) && x < bound);
            if last >= bound || d.contains(last) {
                assert(dedup(s, bound) == d);
            } else {
                assert(dedup(s, bound) == e);
            }
        }
        if !d.contains(last) && last < bound {
            assert forall|i: int, j: int| 0 <= i < e.len() && 0 <= j < e.len() && i != j implies e[i]
                != e[j] by {
                if i < d.len() && j < d.len() {
                    assert(e[i] == d[i] && e[j] == d[j]);
                } else if i < d.len() {
                    assert(e[i] == d[i]);
                    assert(d.contains(e[i]));
                } else {
                    assert(e[j] == d[j]);
                    assert(d.contains(e[j]));
                }
            }
        }
    }
}

/// The candidates the heuristic chooses from: of the first
/// `MAX_CANDIDATES` given, those with a stored vector (below `count`), each
/// once.
pub open spec fn heuristic_pool(candidates: Seq<u64>, count: nat) -> Seq<u64> {
    dedup(
        if candidates.len() > MAX_CANDIDATES {
            candidates.take(MAX_CANDIDATES as int)
        } else {
            candidates
        },
        count,
    )
}

/// Result of a neighbour selection.
#[derive(Debug)]
pub struct SelectionResult {
    /// The selected neighbours.
    pub selected: Vec<NodeId>,
    /// Whether the new node is among them.
    pub includes_new_node: bool,
}

/// A lazily filled symmetric matrix of distances between the candidates of
/// one selection, kept on the stack.
pub struct DistanceCache {
    data: [u32; CACHE_SIZE],
    known: [bool; CACHE_SIZE],
    size: usize,
}

impl DistanceCache {
    /// Side of the matrix.
    pub closed spec fn spec_size(&self) -> nat {
        self.size as nat
    }

    /// Whether cell `(i, j)` holds a distance.
    pub closed spec fn spec_known(&self, i: int, j: int) -> bool {
        self.known@[i * self.size + j]
    }

    /// The distance in cell `(i, j)`.
    pub closed spec fn spec_get(&self, i: int, j: int) -> u32 {
        self.data@[i * self.size + j]
    }

    /// A cache for `num_candidates` candidates with nothing computed yet.
    pub fn new(num_candidates: usize) -> (r: Self)
        requires
            num_candidates <= MAX_CANDIDATES,
        ensures
            r.spec_size() == num_candidates,
            forall|i: int, j: int|
                0 <= i < num_candidates && 0 <= j < num_candidates ==> !#[trigger] r.spec_known(i, j),
    {
        let r = DistanceCache { data: [0u32; 1089], known: [false; 1089], size: num_candidates };
        proof {
            assert forall|i: int, j: int|
                0 <= i < num_candidates && 0 <= j < num_candidates implies !#[trigger] r.spec_known(
                i,
                j,
            ) by {
                assert(i * num_candidates + j < 1089) by (nonlinear_arith)
                    requires
                        0 <= i < num_candidates,
                        0 <= j < num_candidates,
                        num_candidates <= 33,
                ;
            }
        }
        r
    }

    proof fn lemma_cell(&self, i: int, j: int)
        requires
            self.size <= MAX_CANDIDATES,
            0 <= i < self.size,
            0 <= j < self.size,
        ensures
            0 <= i * self.size + j < 1089,
    {
        assert(0 <= i * self.size + j < 1089) by (nonlinear_arith)
            requires
                0 <= i < self.size,
                0 <= j < self.size,
                self.size <= 33,
        ;
    }

    /// The distance in cell `(i, j)`.
    pub fn get(&self, i: usize, j: usize) -> (r: u32)
        requires
            self.spec_size() <= MAX_CANDIDATES,
            i < self.spec_size(),
            j < self.spec_size(),
        ensures
            r == self.spec_get(i as int, j as int),
    {
        proof {
            self.lemma_cell(i as int, j as int);
        }
        self.data[i * self.size + j]
    }

    /// Stores `distance` in cells `(i, j)` and `(j, i)`.
    pub fn set(&mut self, i: usize, j: usize, distance: u32)
        requires
            old(self).spec_size() <= MAX_CANDIDATES,
            i < old(self).spec_size(),
            j < old(self).spec_size(),
        ensures
            final(self).spec_size() == old(self).spec_size(),
            final(self).spec_known(i as int, j as int) && final(self).spec_known(j as int, i as int),
            final(self).spec_get(i as int, j as int) == distance && final(self).spec_get(j as int, i as int)
                == distance,
            forall|a: int, b: int|
                0 <= a < old(self).spec_size() && 0 <= b < old(self).spec_size() && !(a == i && b == j)
                    && !(a == j && b == i) ==> #[trigger] final(self).spec_known(a, b) == old(
                    self,
                ).spec_known(a, b) && final(self).spec_get(a, b) == old(self).spec_get(a, b),
    {
        proof {
            self.lemma_cell(i as int, j as int);
            self.lemma_cell(j as int, i as int);
        }
        let ij = i * self.size + j;
        let ji = j * self.size + i;
        self.data.set(ij, distance);
        self.data.set(ji, distance);
        self.known.set(ij, true);
        self.known.set(ji, true);
        proof {
            let n = self.size as int;
            assert forall|a: int, b: int|
                0 <= a < n && 0 <= b < n && !(a == i && b == j) && !(a == j && b == i) implies #[trigger] self.spec_known(
                a,
                b,
            ) == old(self).spec_known(a, b) && self.spec_get(a, b) == old(self).spec_get(a, b) by {
                self.lemma_cell(a, b);
                assert(a * n + b != i * n + j) by (nonlinear_arith)
                    requires
                        0 <= a < n,
                        0 <= b < n,
                        0 <= i < n,
                        0 <= j < n,
                        !(a == i && b == j),
                ;
                assert(a * n + b != j * n + i) by (nonlinear_arith)
                    requires
                        0 <= a < n,
                        0 <= b < n,
                        0 <= i < n,
                        0 <= j < n,
                        !(a == j && b == i),
                ;
            }
        }
    }

    /// Whether cell `(i, j)` holds a distance.
    pub fn is_computed(&self, i: usize, j: usize) -> (r: bool)
        requires
            self.spec_size() <= MAX_CANDIDATES,
            i < self.spec_size(),
            j < self.spec_size(),
        ensures
            r == self.spec_known(i as int, j as int),
    {
        proof {
            self.lemma_cell(i as int, j as int);
        }
        self.known[i * self.size + j]
    }
}

/// Whether `v` holds `x`.
fn contains_id(v: &Vec<u64>, x: u64) -> (r: bool)
    ensures
        r == v@.contains(x),
{
    let mut i: usize = 0;
    while i < v.len()
        invariant
            i <= v@.len(),
            forall|k: int| 0 <= k < i ==> v@[k] != x,
        decreases v@.len() - i,
    {
        if v[i] == x {
            return true;
        }
        i = i + 1;
    }
    false
}

/// Whether `v` holds `x`.
fn contains_index(v: &Vec<usize>, x: usize) -> (r: bool)
    ensures
        r == v@.contains(x),
{
    let mut i: usize = 0;
    while i < v.len()
        invariant
            i <= v@.len(),
            forall|k: int| 0 <= k < i ==> v@[k] != x,
        decreases v@.len() - i,
    {
        if v[i] == x {
            return true;
        }
        i = i + 1;
    }
    false
}

/// The neighbours that a node may be given on creation: not itself, not the
/// sentinel, and only nodes that already exist.
pub open spec fn forward_filter(node_id: u64, node_count: u64) -> spec_fn(u64) -> bool {
    |x: u64| x != node_id && x != INVALID_NODE_ID && x < node_count
}

/// The forward neighbours of one layer: `ns` filtered, cut to `cap`.
pub open spec fn forward_neighbors(ns: Seq<u64>, node_id: u64, node_count: u64, cap: nat) -> Seq<u64> {
    let f = ns.filter(forward_filter(node_id, node_count));
    if f.len() > cap {
        f.take(cap as int)
    } else {
        f
    }
}

impl HnswGraph {
    /// The neighbours of `layer` in the stored record of node `id`.
    pub open spec fn stored_layer(&self, id: int, layer: int) -> Seq<u64> {
        layer_view(self.record_params, self.stored_header(id), self.stored_slots(id), layer)
    }

    /// Loads the candidate pool: the first `MAX_CANDIDATES` ids, each once.
    fn candidate_pool(candidates: &[u64], count: u64) -> (r: Vec<u64>)
        ensures
            r@ == heuristic_pool(candidates@, count as nat),
            r@.len() <= MAX_CANDIDATES,
    {
        let limit = if candidates.len() > MAX_CANDIDATES {
            MAX_CANDIDATES
        } else {
            candidates.len()
        };
        let ghost src = if candidates@.len() > MAX_CANDIDATES {
            candidates@.take(MAX_CANDIDATES as int)
        } else {
            candidates@
        };
        let mut pool: Vec<u64> = Vec::new();
        let mut i: usize = 0;
        while i < limit
            invariant
                i <= limit,
                limit == src.len(),
                limit <= candidates@.len(),
                forall|k: int| 0 <= k < limit ==> src[k] == candidates@[k],
                pool@ == dedup(src.take(i as int), count as nat),
            decreases limit - i,
        {
            let c = candidates[i];
            proof {
                assert(src.take(i + 1).drop_last() =~= src.take(i as int));
                assert(src.take(i + 1).last() == c);
            }
            if c < count && !contains_id(&pool, c) {
                pool.push(c);
            }
            i = i + 1;
        }
        proof {
            assert(src.take(limit as int) =~= src);
            lemma_dedup(src, count as nat);
        }
        pool
    }

    /// Chooses up to `max_count` neighbours for `base_node` from `candidates`
    /// by HNSW's second heuristic.
    ///
    /// The first `MAX_CANDIDATES` distinct candidates are ranked by their
    /// distance to `base_node`. In that order a candidate is accepted when it
    /// is strictly closer to `base_node` than to every candidate already
    /// accepted, until `max_count` are. When fewer than `max_count / 2` are
    /// accepted, the closest others are added up to that floor. A `priority`
    /// id among the `max_count` closest that was left out takes the place of
    /// the last accepted one. Distances between candidates are computed at
    /// most once, in a cache on the stack.
    pub fn select_neighbors_heuristic<D: VectorDistance>(
        &self,
        metric: &D,
        base_node: NodeId,
        candidates: &[u64],
        layer: usize,
        max_count: usize,
        priority: Option<NodeId>,
    ) -> (r: Result<Vec<NodeId>, ChassisError>)
        requires
            self.wf(),
        ensures
            r is Ok <==> base_node < self.storage.spec_count(),
            r is Ok ==> {
                let sel = r->Ok_0@;
                let pool = heuristic_pool(candidates@, self.storage.spec_count());
                &&& sel.no_duplicates()
                &&& forall|i: int| 0 <= i < sel.len() ==> pool.contains(sel[i])
                &&& sel.len() <= max_count
                &&& sel.len() >= if pool.len() < max_count / 2 {
                    pool.len() as int
                } else {
                    (max_count / 2) as int
                }
                &&& (priority is Some && pool.contains(priority->Some_0) && pool.len() <= max_count
                    ==> sel.contains(priority->Some_0))
            },
    {
        let pool = Self::candidate_pool(candidates, self.storage.count());
        let n = pool.len();
        proof {
            lemma_dedup(
                if candidates@.len() > MAX_CANDIDATES {
                    candidates@.take(MAX_CANDIDATES as int)
                } else {
                    candidates@
                },
                self.storage.spec_count(),
            );
            assert forall|k: int| 0 <= k < n implies pool@[k] < self.storage.spec_count() by {
                assert(pool@.contains(pool@[k]));
            }
        }
        let base = match self.storage.get_vector_slice(base_node) {
            Ok(b) => b,
            Err(e) => {
                return Err(e);
            },
        };
        // Rank of each candidate's distance to the base node.
        let mut rank: Vec<u32> = Vec::with_capacity(n);
        let mut i: usize = 0;
        while i < n
            invariant
                i <= n,
                n == pool@.len(),
                n <= MAX_CANDIDATES,
                rank@.len() == i,
                self.wf(),
                pool@ == heuristic_pool(candidates@, self.storage.spec_count()),
                base_node < self.storage.spec_count(),
                forall|k: int| 0 <= k < n ==> pool@[k] < self.storage.spec_count(),
            decreases n - i,
        {
            let v = match self.storage.get_vector_slice(pool[i]) {
                Ok(v) => v,
                Err(e) => {
                    return Err(e);
                },
            };
            rank.push(total_rank(metric.distance(base, v)));
            i = i + 1;
        }
        // Candidate indices in ascending order of rank; ties keep input order.
        let mut order: Vec<usize> = Vec::with_capacity(n);
        let mut i: usize = 0;
        while i < n
            invariant
                i <= n,
                n == rank@.len(),
                order@.len() == i,
                order@.no_duplicates(),
                forall|k: int| 0 <= k < order@.len() ==> order@[k] < i,
                forall|k: usize| k < i ==> #[trigger] order@.contains(k),
            decreases n - i,
        {
            let mut p: usize = 0;
            while p < order.len() && rank[order[p]] <= rank[i]
                invariant
                    p <= order@.len(),
                    n == rank@.len(),
                    i < n,
                    forall|k: int| 0 <= k < order@.len() ==> order@[k] < i,
                decreases order@.len() - p,
            {
                p = p + 1;
            }
            let ghost before = order@;
            order.insert(p, i);
            proof {
                assert(order@ == before.insert(p as int, i));
                assert forall|k: int| 0 <= k < order@.len() implies order@[k] < i + 1 by {
                    if k < p {
                        assert(order@[k] == before[k]);
                    } else if k > p {
                        assert(order@[k] == before[k - 1]);
                    }
                }
                assert forall|k: usize| k < i + 1 implies #[trigger] order@.contains(k) by {
                    if k == i {
                        assert(order@[p as int] == i);
                    } else {
                        assert(before.contains(k));
                        let j = choose|j: int| 0 <= j < before.len() && before[j] == k;
                        if j < p {
                            assert(order@[j] == k);
                        } else {
                            assert(order@[j + 1] == k);
                        }
                    }
                }
                assert forall|a: int, b: int|
                    0 <= a < order@.len() && 0 <= b < order@.len() && a != b implies order@[a]
                    != order@[b] by {
                    let ia = if a < p {
                        a
                    } else {
                        a - 1
                    };
                    let ib = if b < p {
                        b
                    } else {
                        b - 1
                    };
                    if a != p && b != p {
                        assert(order@[a] == before[ia]);
                        assert(order@[b] == before[ib]);
                    } else if a == p {
                        assert(order@[b] == before[ib]);
                    } else {
                        assert(order@[a] == before[ia]);
                    }
                }
            }
            i = i + 1;
        }
        // Diversity phase.
        let mut cache = DistanceCache::new(n);
        let mut chosen: Vec<usize> = Vec::new();
        let mut t: usize = 0;
        while t < n
            invariant
                t <= n,
                n == order@.len(),
                n == pool@.len(),
                n == rank@.len(),
                n <= MAX_CANDIDATES,
                cache.spec_size() == n,
                self.wf(),
                order@.no_duplicates(),
                forall|k: int| 0 <= k < n ==> order@[k] < n,
                forall|k: usize| k < n ==> #[trigger] order@.contains(k),
                forall|k: int| 0 <= k < n ==> pool@[k] < self.storage.spec_count(),
                chosen@.no_duplicates(),
                chosen@.len() <= max_count,
                forall|k: int| 0 <= k < chosen@.len() ==> chosen@[k] < n,
                forall|k: int|
                    0 <= k < chosen@.len() ==> exists|u: int| 0 <= u < t && order@[u] == #[trigger] chosen@[k],
            decreases n - t,
        {
            if chosen.len() >= max_count {
                break;
            }
            let c = order[t];
            let mut diverse = true;
            let mut s: usize = 0;
            while s < chosen.len()
                invariant
                    s <= chosen@.len(),
                    n == pool@.len(),
                    n == rank@.len(),
                    n <= MAX_CANDIDATES,
                    c < n,
                    cache.spec_size() == n,
                    self.wf(),
                    forall|k: int| 0 <= k < chosen@.len() ==> chosen@[k] < n,
                    forall|k: int| 0 <= k < n ==> pool@[k] < self.storage.spec_count(),
                decreases chosen@.len() - s,
            {
                let other = chosen[s];
                let between = if cache.is_computed(c, other) {
                    cache.get(c, other)
                } else {
                    let a = match self.storage.get_vector_slice(pool[c]) {
                        Ok(v) => v,
                        Err(e) => {
                            return Err(e);
                        },
                    };
                    let b = match self.storage.get_vector_slice(pool[other]) {
                        Ok(v) => v,
                        Err(e) => {
                            return Err(e);
                        },
                    };
                    let d = metric.distance(a, b);
                    cache.set(c, other, d);
                    d
                };
                if total_rank(between) <= rank[c] {
                    diverse = false;
                    break;
                }
                s = s + 1;
            }
            if diverse {
                proof {
                    assert forall|k: int| 0 <= k < chosen@.len() implies chosen@[k] != c by {
                        let u = choose|u: int| 0 <= u < t && order@[u] == chosen@[k];
                        assert(order@[u] != order@[t as int]);
                    }
                }
                chosen.push(c);
            }
            proof {
                assert forall|k: int| 0 <= k < chosen@.len() implies exists|u: int|
                    0 <= u < t + 1 && order@[u] == #[trigger] chosen@[k] by {
                    if k < chosen@.len() - 1 || !diverse {
                        let u = choose|u: int| 0 <= u < t && order@[u] == chosen@[k];
                        assert(0 <= u < t + 1 && order@[u] == chosen@[k]);
                    } else {
                        assert(order@[t as int] == chosen@[k]);
                    }
                }
            }
            t = t + 1;
        }
        // Starvation fallback: fill up to half the capacity with the closest.
        let floor = max_count / 2;
        let mut t: usize = 0;
        while t < n && chosen.len() < floor
            invariant
                t <= n,
                n == order@.len(),
                n <= MAX_CANDIDATES,
                floor == max_count / 2,
                forall|k: int| 0 <= k < n ==> order@[k] < n,
                forall|k: usize| k < n ==> #[trigger] order@.contains(k),
                chosen@.no_duplicates(),
                chosen@.len() <= max_count,
                forall|k: int| 0 <= k < chosen@.len() ==> chosen@[k] < n,
                chosen@.len() < floor ==> forall|u: int| 0 <= u < t ==> chosen@.contains(#[trigger] order@[u]),
            decreases n - t,
        {
            let c = order[t];
            if !contains_index(&chosen, c) {
                chosen.push(c);
            }
            t = t + 1;
        }
        proof {
            if chosen@.len() < floor {
                assert forall|k: usize| k < n implies #[trigger] chosen@.contains(k) by {
                    assert(order@.contains(k));
                    let u = choose|u: int| 0 <= u < n && order@[u] == k;
                    assert(chosen@.contains(order@[u]));
                }
                lemma_covering_len(chosen@, n as nat);
            }
        }
        // Connectivity: a close enough priority node is kept.
        let ghost mut kept: int = -1;
        match priority {
            Some(p) => {
                let mut pos: usize = 0;
                while pos < n && pool[order[pos]] != p
                    invariant
                        pos <= n,
                        n == order@.len(),
                        n == pool@.len(),
                        forall|k: int| 0 <= k < n ==> order@[k] < n,
                        forall|u: int| 0 <= u < pos ==> pool@[order@[u] as int] != p,
                    decreases n - pos,
                {
                    pos = pos + 1;
                }
                proof {
                    if pool@.contains(p) && pos >= n {
                        let j = choose|j: int| 0 <= j < pool@.len() && pool@[j] == p;
                        assert(order@.contains(j as usize));
                        let u = choose|u: int| 0 <= u < n && order@[u] == j as usize;
                        assert(pool@[order@[u] as int] != p);
                    }
                }
                if pos < n && pos < max_count {
                    let c = order[pos];
                    if !contains_index(&chosen, c) {
                        if chosen.len() > 0 {
                            chosen.pop();
                        }
                        chosen.push(c);
                        proof {
                            assert(chosen@[chosen@.len() - 1] == c);
                        }
                    }
                    proof {
                        kept = c as int;
                        assert(chosen@.contains(c));
                    }
                }
            },
            None => {},
        }
        // The chosen indices as node ids.
        let mut selected: Vec<NodeId> = Vec::with_capacity(chosen.len());
        let mut k: usize = 0;
        while k < chosen.len()
            invariant
                k <= chosen@.len(),
                n == pool@.len(),
                pool@.no_duplicates(),
                forall|j: int| 0 <= j < chosen@.len() ==> chosen@[j] < n,
                chosen@.no_duplicates(),
                selected@.len() == k,
                forall|j: int| 0 <= j < k ==> selected@[j] == pool@[chosen@[j] as int],
            decreases chosen@.len() - k,
        {
            selected.push(pool[chosen[k]]);
            k = k + 1;
        }
        proof {
            assert forall|a: int, b: int|
                0 <= a < selected@.len() && 0 <= b < selected@.len() && a != b implies selected@[a]
                != selected@[b] by {
                assert(chosen@[a] != chosen@[b]);
            }
            assert forall|j: int| 0 <= j < selected@.len() implies pool@.contains(selected@[j]) by {
                assert(pool@[chosen@[j] as int] == selected@[j]);
            }
            if kept >= 0 {
                let j = choose|j: int| 0 <= j < chosen@.len() && chosen@[j] == kept as usize;
                assert(selected@[j] == pool@[kept]);
                assert(selected@.contains(pool@[kept]));
            }
        }
        Ok(selected)
    }

    /// Chooses which of `current_neighbors` and `new_node` a full layer of
    /// `base_node` keeps, with `new_node` as the priority node.
    pub fn select_diverse_neighbors_cached<D: VectorDistance>(
        &self,
        metric: &D,
        base_node: NodeId,
        current_neighbors: &[NodeId],
        new_node: NodeId,
        layer: usize,
        max_count: usize,
    ) -> (r: Result<SelectionResult, ChassisError>)
        requires
            self.wf(),
        ensures
            r is Ok <==> base_node < self.storage.spec_count(),
            r is Ok ==> {
                let sel = r->Ok_0.selected@;
                let pool = heuristic_pool(current_neighbors@.push(new_node), self.storage.spec_count());
                &&& sel.no_duplicates()
                &&& forall|i: int| 0 <= i < sel.len() ==> pool.contains(sel[i])
                &&& sel.len() <= max_count
                &&& sel.len() >= if pool.len() < max_count / 2 {
                    pool.len() as int
                } else {
                    (max_count / 2) as int
                }
                &&& r->Ok_0.includes_new_node == sel.contains(new_node)
                &&& (current_neighbors@.len() < MAX_CANDIDATES && new_node < self.storage.spec_count()
                    && pool.len() <= max_count ==> sel.contains(new_node))
            },
    {
        let mut candidates: Vec<NodeId> = Vec::new();
        let mut i: usize = 0;
        while i < current_neighbors.len()
            invariant
                i <= current_neighbors@.len(),
                candidates@ == current_neighbors@.take(i as int),
            decreases current_neighbors@.len() - i,
        {
            candidates.push(current_neighbors[i]);
            i = i + 1;
            assert(candidates@ =~= current_neighbors@.take(i as int));
        }
        candidates.push(new_node);
        assert(candidates@ =~= current_neighbors@.push(new_node));
        proof {
            let c = candidates@;
            let src = if c.len() > MAX_CANDIDATES {
                c.take(MAX_CANDIDATES as int)
            } else {
                c
            };
            lemma_dedup(src, self.storage.spec_count());
            if c.len() <= MAX_CANDIDATES && new_node < self.storage.spec_count() {
                assert(c[c.len() - 1] == new_node);
                assert(src.contains(new_node));
                assert(heuristic_pool(c, self.storage.spec_count()).contains(new_node));
            }
        }
        let selected = match self.select_neighbors_heuristic(
            metric,
            base_node,
            candidates.as_slice(),
            layer,
            max_count,
            Some(new_node),
        ) {
            Ok(s) => s,
            Err(e) => {
                return Err(e);
            },
        };
        let includes_new_node = contains_id(&selected, new_node);
        Ok(SelectionResult { selected, includes_new_node })
    }

    /// Adds `new_node` to the neighbours of `neighbor_id` on `layer`.
    ///
    /// A link that is already there is left alone, which makes the call
    /// idempotent: once the link is in place, calling again changes nothing.
    /// A layer with room gets the link appended. A full layer is pruned by the
    /// heuristic over its neighbours and `new_node`.
    pub fn add_backward_link_with_pruning<D: VectorDistance>(
        &mut self,
        metric: &D,
        neighbor_id: NodeId,
        new_node: NodeId,
        layer: usize,
    ) -> (r: Result<(), ChassisError>)
        requires
            old(self).wf(),
        ensures
            final(self).wf(),
            final(self).node_count == old(self).node_count,
            final(self).entry_point == old(self).entry_point,
            final(self).max_layer == old(self).max_layer,
            final(self).params == old(self).params,
            final(self).record_params == old(self).record_params,
            final(self).storage.vectors() == old(self).storage.vectors(),
            final(self).storage.spec_count() == old(self).storage.spec_count(),
            final(self).storage.spec_dims() == old(self).storage.spec_dims(),
            final(self).storage.bytes().len() == old(self).storage.bytes().len(),
            r is Ok ==> layer < old(self).record_params.max_layers && neighbor_id < old(self).node_count,
            layer < old(self).record_params.max_layers && neighbor_id < old(self).node_count
                && neighbor_id < old(self).storage.spec_count() ==> r is Ok,
            r is Ok && old(self).stored_layer(neighbor_id as int, layer as int).contains(new_node)
                ==> *final(self) == *old(self),
            r is Err ==> *final(self) == *old(self),
            r is Ok && new_node != INVALID_NODE_ID && !old(self).stored_layer(neighbor_id as int, layer as int).contains(new_node)
                && layer < old(self).stored_header(neighbor_id as int).layer_count
                && old(self).stored_layer(neighbor_id as int, layer as int).len()
                >= old(self).record_params.spec_max_neighbors(layer as int) ==> {
                let kept = final(self).stored_layer(neighbor_id as int, layer as int);
                let pool = heuristic_pool(
                    old(self).stored_layer(neighbor_id as int, layer as int).push(new_node),
                    old(self).storage.spec_count(),
                );
                let cap = old(self).record_params.spec_max_neighbors(layer as int);
                &&& kept.no_duplicates()
                &&& forall|i: int| 0 <= i < kept.len() ==> pool.contains(kept[i])
                &&& kept.len() <= cap
                &&& kept.len() >= if pool.len() < cap / 2 {
                    pool.len() as int
                } else {
                    (cap / 2) as int
                }
            },
            r is Ok && new_node != INVALID_NODE_ID && !old(self).stored_layer(neighbor_id as int, layer as int).contains(new_node)
                && layer < old(self).stored_header(neighbor_id as int).layer_count
                && old(self).stored_layer(neighbor_id as int, layer as int).len()
                < old(self).record_params.spec_max_neighbors(layer as int) ==> {
                let slots = layer_slots(
                    old(self).record_params,
                    old(self).stored_slots(neighbor_id as int),
                    layer as int,
                );
                &&& final(self).stored_header(neighbor_id as int) == old(self).stored_header(neighbor_id as int)
                &&& exists|k: int|
                    0 <= k < slots.len() && slots[k] == INVALID_NODE_ID && (forall|j: int|
                        0 <= j < k ==> slots[j] != INVALID_NODE_ID) && final(self).stored_slots(
                        neighbor_id as int,
                    ) == old(self).stored_slots(neighbor_id as int).update(
                        old(self).record_params.layer_start(layer as int) + k,
                        new_node,
                    )
            },
            r is Ok && new_node != INVALID_NODE_ID && layer < old(self).stored_header(
                neighbor_id as int,
            ).layer_count && old(self).stored_layer(neighbor_id as int, layer as int).len()
                < old(self).record_params.spec_max_neighbors(layer as int) ==> final(self).stored_layer(
                neighbor_id as int,
                layer as int,
            ).contains(new_node),
            r is Ok ==> forall|k: int|
                0 <= k < old(self).storage.bytes().len() && !(crate::graph::record_offset(
                    old(self).record_params,
                    neighbor_id as int,
                ) <= k < crate::graph::record_offset(old(self).record_params, neighbor_id as int)
                    + old(self).record_params.spec_record_size()) ==> final(self).storage.bytes()[k]
                    == old(self).storage.bytes()[k],
    {
        if layer >= self.record_params.max_layers as usize {
            return Err(
                ChassisError::LayerOutOfRange {
                    layer: layer as u64,
                    max_layers: self.record_params.max_layers,
                },
            );
        }
        if neighbor_id >= self.node_count {
            return Err(
                ChassisError::InvariantViolation { expected: self.node_count, actual: neighbor_id },
            );
        }
        proof {
            assert(self.record_sound(neighbor_id as int));
        }
        let mut record = match self.read_node_record(neighbor_id) {
            Ok(rec) => rec,
            Err(e) => {
                return Err(e);
            },
        };
        if record.header.node_id != neighbor_id {
            return Err(ChassisError::InvalidRecord);
        }
        let current = record.get_neighbors(layer);
        assert(current@ == old(self).stored_layer(neighbor_id as int, layer as int));
        if contains_id(&current, new_node) || new_node == INVALID_NODE_ID {
            return Ok(());
        }
        let max_neighbors = self.record_params.max_neighbors(layer);
        if current.len() < max_neighbors {
            let ghost before = record;
            let added = record.add_neighbor(layer, new_node);
            proof {
                if layer < before.header.layer_count {
                    lemma_room_means_empty_slot(before, layer as int);
                    assert(added);
                    let k = choose|k: int|
                        0 <= k < before.slots(layer as int).len() && before.slots(layer as int)[k]
                            == INVALID_NODE_ID && (forall|j: int|
                            0 <= j < k ==> before.slots(layer as int)[j] != INVALID_NODE_ID)
                            && record.neighbors@ == before.neighbors@.update(
                            before.params.layer_start(layer as int) + k,
                            new_node,
                        );
                    before.params.lemma_layer_fits(layer as int);
                    assert(record.slots(layer as int)[k] == new_node);
                    assert(record.slots(layer as int).contains(new_node));
                    record.slots(layer as int).lemma_filter_contains(
                        crate::node::occupied(),
                        k,
                    );
                }
            }
            return self.update_node_record(&record);
        }
        let selection = match self.select_diverse_neighbors_cached(
            metric,
            neighbor_id,
            current.as_slice(),
            new_node,
            layer,
            max_neighbors,
        ) {
            Ok(s) => s,
            Err(e) => {
                return Err(e);
            },
        };
        let ghost prev = record;
        record.set_neighbors(layer, selection.selected.as_slice());
        proof {
            let sel = selection.selected@;
            let pool = heuristic_pool(current@.push(new_node), self.storage.spec_count());
            self.storage.lemma_wf_facts();
            assert forall|k: int| 0 <= k < sel.len() implies sel[k] != INVALID_NODE_ID by {
                assert(pool.contains(sel[k]));
                crate::link::lemma_dedup(
                    if current@.push(new_node).len() > MAX_CANDIDATES {
                        current@.push(new_node).take(MAX_CANDIDATES as int)
                    } else {
                        current@.push(new_node)
                    },
                    self.storage.spec_count(),
                );
            }
            if layer < prev.header.layer_count {
                lemma_set_layer_view(prev, record, layer as int, sel);
            }
        }
        self.update_node_record(&record)
    }

    /// Gives every forward neighbour of `node_id` its back-link, layer by layer.
    fn link_back_layers<D: VectorDistance>(
        &mut self,
        metric: &D,
        node_id: NodeId,
        forward: &Vec<Vec<NodeId>>,
    ) -> (r: Result<(), ChassisError>)
        requires
            old(self).wf(),
            node_id == old(self).node_count,
            old(self).record_in_range(node_id as int),
            forward@.len() <= old(self).record_params.max_layers,
            forall|j: int| 0 <= j < forward@.len() ==> forall|k: int|
                0 <= k < (#[trigger] forward@[j])@.len() ==> forward@[j]@[k] < node_id,
        ensures
            final(self).wf(),
            old(self).vectors_cover() ==> r is Ok,
            final(self).storage.bytes().len() == old(self).storage.bytes().len(),
            final(self).node_count == old(self).node_count,
            final(self).entry_point == old(self).entry_point,
            final(self).max_layer == old(self).max_layer,
            final(self).record_params == old(self).record_params,
            final(self).params == old(self).params,
            final(self).storage.spec_dims() == old(self).storage.spec_dims(),
            final(self).storage.vectors() == old(self).storage.vectors(),
            final(self).storage.spec_count() == old(self).storage.spec_count(),
            final(self).stored_header(node_id as int) == old(self).stored_header(node_id as int),
            final(self).stored_slots(node_id as int) == old(self).stored_slots(node_id as int),
    {
        let layers = forward.len();
        let mut l: usize = 0;
        while l < layers
            invariant
                l <= layers,
                layers == forward@.len(),
                layers <= self.record_params.max_layers,
                self.wf(),
                old(self).vectors_cover() ==> self.vectors_cover(),
                self.node_count == old(self).node_count,
                node_id == old(self).node_count,
                self.entry_point == old(self).entry_point,
                self.max_layer == old(self).max_layer,
                self.record_params == old(self).record_params,
                self.params == old(self).params,
                self.storage.spec_dims() == old(self).storage.spec_dims(),
                self.storage.vectors() == old(self).storage.vectors(),
                self.storage.spec_count() == old(self).storage.spec_count(),
                self.storage.bytes().len() == old(self).storage.bytes().len(),
                self.record_in_range(node_id as int),
                self.stored_header(node_id as int) == old(self).stored_header(node_id as int),
                self.stored_slots(node_id as int) == old(self).stored_slots(node_id as int),
                forall|j: int| 0 <= j < forward@.len() ==> forall|k: int|
                    0 <= k < (#[trigger] forward@[j])@.len() ==> forward@[j]@[k] < node_id,
            decreases layers - l,
        {
            let ns = &forward[l];
            let mut k: usize = 0;
            while k < ns.len()
                invariant
                    k <= ns@.len(),
                    l < layers,
                    layers <= self.record_params.max_layers,
                    self.wf(),
                    old(self).vectors_cover() ==> self.vectors_cover(),
                    self.node_count == old(self).node_count,
                    node_id == old(self).node_count,
                    self.entry_point == old(self).entry_point,
                    self.max_layer == old(self).max_layer,
                    self.record_params == old(self).record_params,
                    self.params == old(self).params,
                    self.storage.spec_dims() == old(self).storage.spec_dims(),
                    self.storage.vectors() == old(self).storage.vectors(),
                    self.storage.spec_count() == old(self).storage.spec_count(),
                    self.storage.bytes().len() == old(self).storage.bytes().len(),
                    self.record_in_range(node_id as int),
                    self.stored_header(node_id as int) == old(self).stored_header(node_id as int),
                    self.stored_slots(node_id as int) == old(self).stored_slots(node_id as int),
                    forall|j: int| 0 <= j < ns@.len() ==> ns@[j] < node_id,
                decreases ns@.len() - k,
            {
                let neighbor = ns[k];
                let ghost before = *self;
                match self.add_backward_link_with_pruning(metric, neighbor, node_id, l) {
                    Ok(()) => {},
                    Err(e) => {
                        return Err(e);
                    },
                }
                proof {
                    lemma_other_record_kept(before, *self, neighbor as int, node_id as int);
                }
                k = k + 1;
            }
            l = l + 1;
        }
        Ok(())
    }

    /// Phase two of an insertion: writes the record of `node_id`, which must
    /// be `node_count`, with its forward neighbours per layer, then links each
    /// of them back. The node stays unpublished.
    ///
    /// Forward neighbours leave out the node itself, the sentinel and every id
    /// not below `node_count`, and are cut to the layer's capacity. The record
    /// of the new node is written before any back-link.
    pub fn write_node_and_backlinks<D: VectorDistance>(
        &mut self,
        metric: &D,
        node_id: NodeId,
        layer_count: usize,
        neighbors_per_layer: &[Vec<NodeId>],
    ) -> (r: Result<(), ChassisError>)
        requires
            old(self).wf(),
        ensures
            final(self).wf(),
            node_id != old(self).node_count ==> r == Err::<(), ChassisError>(
                ChassisError::InvariantViolation { expected: old(self).node_count, actual: node_id },
            ),
            node_id == old(self).node_count && neighbors_per_layer@.len() != layer_count ==> r == Err::<
                (),
                ChassisError,
            >(
                ChassisError::LayerCountMismatch {
                    expected: layer_count as u64,
                    actual: neighbors_per_layer@.len() as u64,
                },
            ),
            final(self).node_count == old(self).node_count,
            final(self).entry_point == old(self).entry_point,
            final(self).max_layer == old(self).max_layer,
            final(self).params == old(self).params,
            final(self).record_params == old(self).record_params,
            final(self).storage.spec_dims() == old(self).storage.spec_dims(),
            final(self).storage.vectors() == old(self).storage.vectors(),
            final(self).storage.spec_count() == old(self).storage.spec_count(),
            r is Ok ==> final(self).stored_header(node_id as int).node_id == node_id
                && final(self).stored_header(node_id as int).layer_count == layer_count && forall|l: int|
                0 <= l < layer_count ==> #[trigger] final(self).stored_layer(node_id as int, l)
                    == forward_neighbors(
                    neighbors_per_layer@[l]@,
                    node_id,
                    old(self).node_count,
                    old(self).record_params.spec_max_neighbors(l),
                ),
            r is Ok ==> node_id == old(self).node_count && neighbors_per_layer@.len() == layer_count
                && 0 < layer_count <= old(self).record_params.max_layers && old(self).record_in_range(
                node_id as int,
            ),
            node_id == old(self).node_count && neighbors_per_layer@.len() == layer_count && 0 < layer_count
                <= old(self).record_params.max_layers && old(self).record_in_range(node_id as int)
                && old(self).vectors_cover() ==> r is Ok,
            r is Ok ==> final(self).record_sound(node_id as int),
            !(node_id == old(self).node_count && neighbors_per_layer@.len() == layer_count && 0
                < layer_count <= old(self).record_params.max_layers) ==> *final(self) == *old(self),
            final(self).storage.bytes().len() == old(self).storage.bytes().len(),
    {
        if node_id != self.node_count {
            return Err(ChassisError::InvariantViolation { expected: self.node_count, actual: node_id });
        }
        if neighbors_per_layer.len() != layer_count {
            return Err(
                ChassisError::LayerCountMismatch {
                    expected: layer_count as u64,
                    actual: neighbors_per_layer.len() as u64,
                },
            );
        }
        if layer_count == 0 || layer_count > self.record_params.max_layers as usize {
            return Err(
                ChassisError::LayerOutOfRange {
                    layer: layer_count as u64,
                    max_layers: self.record_params.max_layers,
                },
            );
        }
        let count = self.node_count;
        let mut record = NodeRecord::new(node_id, layer_count as u8, self.record_params);
        let mut forward: Vec<Vec<NodeId>> = Vec::with_capacity(layer_count);
        let mut l: usize = 0;
        while l < layer_count
            invariant
                l <= layer_count,
                layer_count <= record.params.max_layers,
                layer_count == neighbors_per_layer@.len(),
                record.wf(),
                record.params == self.record_params,
                record.header == (crate::node::NodeHeader { node_id, layer_count: layer_count as u8, flags: 0 }),
                forward@.len() == l,
                forall|j: int|
                    0 <= j < l ==> (#[trigger] forward@[j])@ == forward_neighbors(
                        neighbors_per_layer@[j]@,
                        node_id,
                        count,
                        record.params.spec_max_neighbors(j),
                    ),
                forall|j: int| 0 <= j < l ==> #[trigger] record.layer_neighbors(j) == forward@[j]@,
            decreases layer_count - l,
        {
            let cap = self.record_params.max_neighbors(l);
            let kept = filter_forward(neighbors_per_layer[l].as_slice(), node_id, count, cap);
            let ghost prev = record;
            record.set_neighbors(l, kept.as_slice());
            proof {
                lemma_set_layer_view(prev, record, l as int, kept@);
                lemma_layers_below_kept(prev, record, l as int);
            }
            forward.push(kept);
            l = l + 1;
        }
        proof {
            let id = node_id as int;
            let rs = self.record_params.spec_record_size() as int;
            assert(rs >= 16) by {
                self.record_params.lemma_record_size_at_least_header();
            }
            assert(id * rs >= id) by (nonlinear_arith)
                requires
                    rs >= 16,
                    id >= 0,
            ;
        }
        match self.write_node_record(&record) {
            Ok(()) => {},
            Err(e) => {
                return Err(e);
            },
        }
        let ghost written = *self;
        assert(written.record_sound(node_id as int));
        match self.link_back_layers(metric, node_id, &forward) {
            Ok(()) => {},
            Err(e) => {
                return Err(e);
            },
        }
        proof {
            assert forall|l: int| 0 <= l < layer_count implies #[trigger] self.stored_layer(
                node_id as int,
                l,
            ) == forward_neighbors(
                neighbors_per_layer@[l]@,
                node_id,
                old(self).node_count,
                old(self).record_params.spec_max_neighbors(l),
            ) by {
                assert(record.layer_neighbors(l) == forward@[l]@);
            }
        }
        Ok(())
    }

    /// Links a node in one go: writes it with its back-links, then publishes it.
    pub fn link_node_bidirectional<D: VectorDistance>(
        &mut self,
        metric: &D,
        node_id: NodeId,
        layer_count: usize,
        neighbors_per_layer: &[Vec<NodeId>],
    ) -> (r: Result<(), ChassisError>)
        requires
            old(self).wf(),
        ensures
            final(self).wf(),
            node_id != old(self).node_count ==> r == Err::<(), ChassisError>(
                ChassisError::InvariantViolation { expected: old(self).node_count, actual: node_id },
            ),
            node_id == old(self).node_count && neighbors_per_layer@.len() != layer_count ==> r == Err::<
                (),
                ChassisError,
            >(
                ChassisError::LayerCountMismatch {
                    expected: layer_count as u64,
                    actual: neighbors_per_layer@.len() as u64,
                },
            ),
            r is Ok ==> final(self).node_count == old(self).node_count + 1,
            r is Ok ==> final(self).stored_header(node_id as int).layer_count == layer_count && forall|l: int|
                0 <= l < layer_count ==> #[trigger] final(self).stored_layer(node_id as int, l)
                    == forward_neighbors(
                    neighbors_per_layer@[l]@,
                    node_id,
                    old(self).node_count,
                    old(self).record_params.spec_max_neighbors(l),
                ),
            r is Ok ==> if old(self).entry_point is None || layer_count - 1 > old(self).max_layer {
                final(self).entry_point == Some(node_id) && final(self).max_layer == layer_count - 1
            } else {
                final(self).entry_point == old(self).entry_point && final(self).max_layer == old(
                    self,
                ).max_layer
            },
            r is Ok ==> node_id == old(self).node_count && neighbors_per_layer@.len() == layer_count
                && 0 < layer_count <= old(self).record_params.max_layers && old(self).record_in_range(
                node_id as int,
            ),
            node_id == old(self).node_count && neighbors_per_layer@.len() == layer_count && 0 < layer_count
                <= old(self).record_params.max_layers && old(self).record_in_range(node_id as int)
                && old(self).vectors_cover() ==> r is Ok,
            r is Err ==> final(self).node_count == old(self).node_count && final(self).entry_point == old(
                self,
            ).entry_point && final(self).max_layer == old(self).max_layer,
            !(node_id == old(self).node_count && neighbors_per_layer@.len() == layer_count && 0
                < layer_count <= old(self).record_params.max_layers) ==> *final(self) == *old(self),
            final(self).storage.vectors() == old(self).storage.vectors(),
    {
        match self.write_node_and_backlinks(metric, node_id, layer_count, neighbors_per_layer) {
            Ok(()) => {},
            Err(e) => {
                return Err(e);
            },
        }
        let ghost mid = *self;
        let r = self.publish_node(node_id, layer_count);
        proof {
            assert forall|l: int| 0 <= l < layer_count implies #[trigger] self.stored_layer(node_id as int, l)
                == mid.stored_layer(node_id as int, l) by {
                assert(self.record_bytes(node_id as int) == mid.record_bytes(node_id as int));
            }
            assert(self.stored_header(node_id as int) == mid.stored_header(node_id as int));
        }
        r
    }
}

/// The forward neighbours of one layer.
fn filter_forward(ns: &[NodeId], node_id: NodeId, node_count: u64, cap: usize) -> (r: Vec<NodeId>)
    ensures
        r@ == forward_neighbors(ns@, node_id, node_count, cap as nat),
        r@.len() <= cap,
        forall|k: int| 0 <= k < r@.len() ==> r@[k] < node_count && r@[k] != INVALID_NODE_ID,
{
    let mut out: Vec<NodeId> = Vec::new();
    let mut i: usize = 0;
    while i < ns.len()
        invariant
            i <= ns@.len(),
            out@ == ns@.take(i as int).filter(forward_filter(node_id, node_count)),
        decreases ns@.len() - i,
    {
        let x = ns[i];
        proof {
            assert(ns@.take(i + 1) =~= ns@.take(i as int).push(x));
            ns@.take(i as int).lemma_filter_push(x, forward_filter(node_id, node_count));
        }
        if x != node_id && x != INVALID_NODE_ID && x < node_count {
            out.push(x);
        }
        i = i + 1;
    }
    proof {
        assert(ns@.take(ns@.len() as int) =~= ns@);
    }
    let ghost all = out@;
    if out.len() > cap {
        out.truncate(cap);
        assert(out@ =~= all.take(cap as int));
    }
    proof {
        assert forall|k: int| 0 <= k < out@.len() implies out@[k] < node_count && out@[k]
            != INVALID_NODE_ID by {
            assert(all.contains(out@[k]));
            let j = choose|j: int| 0 <= j < all.len() && all[j] == out@[k];
            ns@.lemma_filter_pred(forward_filter(node_id, node_count), j);
        }
    }
    out
}

/// A layer with fewer neighbours than slots has an empty slot.
proof fn lemma_room_means_empty_slot(rec: NodeRecord, layer: int)
    requires
        rec.wf(),
        0 <= layer < rec.params.max_layers,
        layer < rec.header.layer_count,
        rec.layer_neighbors(layer).len() < rec.params.spec_max_neighbors(layer),
    ensures
        rec.slots(layer).contains(INVALID_NODE_ID),
{
    rec.params.lemma_layer_fits(layer);
    let s = rec.slots(layer);
    if !s.contains(INVALID_NODE_ID) {
        assert(s.filter(crate::node::occupied()) =~= s) by {
            lemma_filter_all(s);
        }
    }
}

/// Filtering a sequence without empty slots keeps it whole.
proof fn lemma_filter_all(s: Seq<u64>)
    requires
        !s.contains(INVALID_NODE_ID),
    ensures
        s.filter(crate::node::occupied()) == s,
    decreases s.len(),
{
    if s.len() > 0 {
        assert(!s.drop_last().contains(INVALID_NODE_ID)) by {
            if s.drop_last().contains(INVALID_NODE_ID) {
                let i = choose|i: int| 0 <= i < s.drop_last().len() && s.drop_last()[i] == INVALID_NODE_ID;
                assert(s[i] == INVALID_NODE_ID);
            }
        }
        lemma_filter_all(s.drop_last());
        assert(s.drop_last().push(s.last()) =~= s);
        s.drop_last().lemma_filter_push(s.last(), crate::node::occupied());
        assert(s[s.len() - 1] != INVALID_NODE_ID);
    }
}

/// Setting a layer of a record to ids without the sentinel makes those ids
/// the layer's neighbours, when the node is on that layer.
proof fn lemma_set_layer_view(prev: NodeRecord, next: NodeRecord, layer: int, ids: Seq<u64>)
    requires
        prev.wf(),
        next.header == prev.header,
        next.params == prev.params,
        0 <= layer < prev.params.max_layers,
        layer < prev.header.layer_count,
        ids.len() <= prev.params.spec_max_neighbors(layer),
        forall|k: int| 0 <= k < ids.len() ==> ids[k] != INVALID_NODE_ID,
        next.slots(layer) == ids + Seq::new(
            (prev.params.spec_max_neighbors(layer) - ids.len()) as nat,
            |k: int| INVALID_NODE_ID,
        ),
    ensures
        next.layer_neighbors(layer) == ids,
{
    let pad = Seq::new(
        (prev.params.spec_max_neighbors(layer) - ids.len()) as nat,
        |k: int| INVALID_NODE_ID,
    );
    assert(!ids.contains(INVALID_NODE_ID));
    lemma_filter_all(ids);
    lemma_filter_none(pad);
    Seq::filter_distributes_over_add(ids, pad, crate::node::occupied());
    assert(pad.filter(crate::node::occupied()) =~= Seq::<u64>::empty());
    assert(ids + Seq::<u64>::empty() =~= ids);
}

/// Rewriting the slots of layer `l` keeps the neighbours of the layers below it.
proof fn lemma_layers_below_kept(prev: NodeRecord, next: NodeRecord, l: int)
    requires
        prev.wf(),
        next.params == prev.params,
        next.header == prev.header,
        next.neighbors@.len() == prev.neighbors@.len(),
        0 <= l < prev.params.max_layers,
        forall|i: int|
            0 <= i < prev.neighbors@.len() && !(prev.params.layer_start(l) <= i < prev.params.layer_start(l)
                + prev.params.spec_max_neighbors(l)) ==> next.neighbors@[i] == prev.neighbors@[i],
    ensures
        forall|j: int| 0 <= j < l ==> #[trigger] next.layer_neighbors(j) == prev.layer_neighbors(j),
{
    assert forall|j: int| 0 <= j < l implies #[trigger] next.layer_neighbors(j) == prev.layer_neighbors(
        j,
    ) by {
        crate::node::lemma_layers_disjoint(prev.params, j, l);
        prev.params.lemma_layer_fits(j);
        assert(next.slots(j) =~= prev.slots(j));
    }
}

/// Filtering a run of empty slots leaves nothing.
proof fn lemma_filter_none(s: Seq<u64>)
    requires
        forall|k: int| 0 <= k < s.len() ==> s[k] == INVALID_NODE_ID,
    ensures
        s.filter(crate::node::occupied()).len() == 0,
    decreases s.len(),
{
    if s.len() > 0 {
        lemma_filter_none(s.drop_last());
        assert(s.drop_last().push(s.last()) =~= s);
        s.drop_last().lemma_filter_push(s.last(), crate::node::occupied());
    }
}

} // verus!
