//! The index facade: opening with ghost reconciliation, the three-phase
//! insertion, and search.
//!
//! An insertion persists the vector, writes the node record and its
//! back-links, then publishes the node. A vector persisted without its node (a
//! ghost, left by a crash) is rolled back when the index is opened, so that the
//! next insertion takes its id again.
use crate::distance::VectorDistance;
use crate::error::ChassisError;
use crate::graph::{
    graph_open_check, lemma_records_kept, record_offset, stored_node_count, HnswGraph, HnswParams,
    GRAPH_HEADER_SIZE,
};
use crate::link::MAX_CANDIDATES;
use crate::node::NodeId;
use crate::search::{sorted_by_distance, unique_ids, SearchResult};
use crate::header::decode_header_fields;
use crate::storage::{encode_words, page_align, spec_page_align, vector_zone_end, Storage, GRAPH_ZONE_START};
use vstd::prelude::*;

verus! {

/// Number of layers every record of an index has room for.
pub const INDEX_MAX_LAYERS: u8 = 16;

/// Configuration of an index.
#[derive(Debug, Clone, Copy)]
pub struct IndexOptions {
    /// Maximum connections per node on the upper layers (M).
    pub max_connections: u16,
    /// Candidate list size while inserting.
    pub ef_construction: usize,
    /// Candidate list size while searching.
    pub ef_search: usize,
}

impl Default for IndexOptions {
    fn default() -> (r: Self)
        ensures
            r.max_connections == 16 && r.ef_construction == 200 && r.ef_search == 50,
    {
        IndexOptions { max_connections: 16, ef_construction: 200, ef_search: 50 }
    }
}

/// The graph parameters an index opens its graph with.
pub open spec fn index_params(options: IndexOptions) -> HnswParams {
    HnswParams {
        max_connections: options.max_connections,
        ef_construction: options.ef_construction,
        ef_search: options.ef_search,
        max_layers: INDEX_MAX_LAYERS,
    }
}

/// A vector index over a mapped file.
pub struct VectorIndex<D> {
    graph: HnswGraph,
    options: IndexOptions,
    metric: D,
}

impl<D: VectorDistance> VectorIndex<D> {
    /// The graph is well formed, every stored vector has a published node,
    /// and the graph was opened with these options.
    pub closed spec fn wf(&self) -> bool {
        &&& self.graph.wf()
        &&& self.graph.storage.spec_count() == self.graph.node_count
        &&& self.graph.params.max_connections == self.options.max_connections
        &&& self.graph.params.ef_construction == self.options.ef_construction
        &&& self.graph.params.ef_search == self.options.ef_search
        &&& self.graph.params.max_layers == INDEX_MAX_LAYERS
    }

    /// Number of indexed vectors.
    pub closed spec fn spec_len(&self) -> nat {
        self.graph.node_count as nat
    }

    /// Number of components of every vector.
    pub closed spec fn spec_dims(&self) -> nat {
        self.graph.storage.spec_dims()
    }

    /// The indexed vectors, as the bit patterns of their components, by id.
    pub closed spec fn vectors(&self) -> Seq<Seq<u32>> {
        self.graph.storage.vectors()
    }

    /// The bytes of the mapping.
    pub closed spec fn bytes(&self) -> Seq<u8> {
        self.graph.storage.bytes()
    }

    /// The shape of the node records.
    pub closed spec fn spec_record_params(&self) -> crate::node::NodeRecordParams {
        self.graph.record_params
    }

    /// Mapping length the next `add` needs: room for one more vector and one
    /// more node record, each rounded up to a page.
    pub closed spec fn spec_required_len(&self) -> nat {
        let v = spec_page_align(vector_zone_end(self.spec_dims(), self.spec_len() + 1));
        let g = spec_page_align(
            (GRAPH_ZONE_START + GRAPH_HEADER_SIZE + (self.spec_len() + 1)
                * self.graph.record_params.spec_record_size()) as nat,
        );
        if g > v {
            g
        } else {
            v
        }
    }

    /// The options the index was opened with.
    pub closed spec fn spec_options(&self) -> IndexOptions {
        self.options
    }

    /// Opens an index over `storage`: opens the graph with the options, then
    /// reconciles the vector count with the node count. Fewer vectors than
    /// nodes is corruption; more means vectors were persisted without their
    /// nodes (ghosts), and storage is rolled back to the node count. The index
    /// then counts exactly the published nodes, so the next `add` takes the
    /// id of the first ghost.
    pub fn open(storage: Storage, options: IndexOptions, metric: D) -> (r: Result<Self, ChassisError>)
        requires
            storage.wf(),
        ensures
            r is Ok <==> graph_open_check(storage.bytes(), index_params(options)) is None
                && stored_node_count(storage.bytes()) <= storage.spec_count(),
            graph_open_check(storage.bytes(), index_params(options)) is Some ==> r
                == Err::<Self, ChassisError>(graph_open_check(storage.bytes(), index_params(options))->Some_0),
            graph_open_check(storage.bytes(), index_params(options)) is None && stored_node_count(
                storage.bytes(),
            ) > storage.spec_count() ==> r == Err::<Self, ChassisError>(
                ChassisError::GraphAheadOfStorage {
                    nodes: stored_node_count(storage.bytes()),
                    vectors: storage.spec_count() as u64,
                },
            ),
            r is Ok ==> {
                let ix = r->Ok_0;
                &&& ix.wf()
                &&& ix.spec_dims() == storage.spec_dims()
                &&& ix.spec_len() == stored_node_count(storage.bytes())
                &&& ix.spec_len() <= storage.spec_count()
                &&& ix.vectors() == storage.vectors().take(ix.spec_len() as int)
                &&& ix.spec_options() == options
            },
    {
        let params = HnswParams {
            max_connections: options.max_connections,
            ef_construction: options.ef_construction,
            ef_search: options.ef_search,
            max_layers: INDEX_MAX_LAYERS,
        };
        let mut graph = match HnswGraph::open(storage, params) {
            Ok(g) => g,
            Err(e) => {
                return Err(e);
            },
        };
        let stored = graph.storage.count();
        let nodes = graph.node_count();
        if stored < nodes {
            return Err(ChassisError::GraphAheadOfStorage { nodes, vectors: stored });
        }
        let ghost before = graph;
        graph.storage.truncate_logical(nodes);
        proof {
            lemma_records_kept(before, graph);
        }
        Ok(VectorIndex { graph, options, metric })
    }

    /// Number of indexed vectors.
    pub fn len(&self) -> (r: u64)
        ensures
            r == self.spec_len(),
    {
        self.graph.node_count
    }

    /// Whether no vector is indexed.
    pub fn is_empty(&self) -> (r: bool)
        ensures
            r == (self.spec_len() == 0),
    {
        self.graph.node_count == 0
    }

    /// Number of components of every vector.
    pub fn dimensions(&self) -> (r: u32)
        requires
            self.wf(),
        ensures
            r == self.spec_dims(),
    {
        self.graph.storage.dimensions()
    }

    /// The graph, for inspection.
    pub fn graph(&self) -> &HnswGraph {
        &self.graph
    }

    /// The stored vector of `id`, as the bit patterns of its components.
    pub fn get_vector(&self, id: u64) -> (r: Result<Vec<u32>, ChassisError>)
        requires
            self.wf(),
        ensures
            r is Ok <==> id < self.spec_len(),
            r is Ok ==> r->Ok_0@ == self.vectors()[id as int],
    {
        self.graph.storage.get_vector(id)
    }

    /// Mapping length that the next `add` needs, rounded up to a page: room
    /// for one more vector and one more node record. `None` when the vector
    /// zone is full.
    pub fn required_len_for_add(&self) -> (r: Option<u64>)
        requires
            self.wf(),
        ensures
            r is None <==> vector_zone_end(self.spec_dims(), self.spec_len() + 1) > GRAPH_ZONE_START,
            r is Some ==> r->Some_0 == self.spec_required_len(),
            r is Some ==> r->Some_0 >= vector_zone_end(self.spec_dims(), self.spec_len() + 1)
                && r->Some_0 >= record_offset(self.spec_record_params(), self.spec_len() + 1 as int),
    {
        let vectors_end = match self.graph.storage.required_len_for_insert() {
            Some(n) => n,
            None => {
                return None;
            },
        };
        proof {
            self.graph.storage.lemma_wf_facts();
            self.graph.record_params.lemma_record_size_at_least_header();
        }
        let rs = self.graph.record_params.record_size() as u64;
        let count = self.graph.node_count;
        proof {
            assert((count + 1) * rs <= 1073741824 * (16 + 8 * 255 * 65535)) by (nonlinear_arith)
                requires
                    count < 1073741824,
                    rs <= 16 + 8 * 255 * 65535,
            ;
        }
        let records_end = page_align(GRAPH_ZONE_START + GRAPH_HEADER_SIZE as u64 + (count + 1) * rs);
        if records_end > vectors_end {
            Some(records_end)
        } else {
            Some(vectors_end)
        }
    }

    /// Adds a vector with its node on layers `0..=layer` (the layer clamped to
    /// the top layer a record has room for) and returns its id, which is the
    /// number of vectors indexed before.
    ///
    /// The mapping must already have the length `required_len_for_add` gives;
    /// otherwise nothing changes and the length it needs is reported. Once
    /// those checks pass, the three phases cannot fail.
    pub fn add(&mut self, vector: &[u32], layer: usize) -> (r: Result<u64, ChassisError>)
        requires
            old(self).wf(),
        ensures
            final(self).wf(),
            vector@.len() != old(self).spec_dims() ==> r == Err::<u64, ChassisError>(
                ChassisError::DimensionMismatch {
                    expected: old(self).spec_dims() as u32,
                    actual: vector@.len() as u64,
                },
            ),
            vector@.len() == old(self).spec_dims() && vector_zone_end(
                old(self).spec_dims(),
                old(self).spec_len() + 1,
            ) > GRAPH_ZONE_START ==> r == Err::<u64, ChassisError>(ChassisError::CapacityExceeded),
            vector@.len() == old(self).spec_dims() && vector_zone_end(
                old(self).spec_dims(),
                old(self).spec_len() + 1,
            ) <= GRAPH_ZONE_START && old(self).bytes().len() < old(self).spec_required_len() ==> r
                == Err::<u64, ChassisError>(
                ChassisError::MappingTooSmall { required: old(self).spec_required_len() as u64 },
            ),
            r is Ok <==> vector@.len() == old(self).spec_dims() && vector_zone_end(
                old(self).spec_dims(),
                old(self).spec_len() + 1,
            ) <= GRAPH_ZONE_START && old(self).spec_required_len() <= old(self).bytes().len(),
            r is Ok ==> {
                &&& r->Ok_0 == old(self).spec_len()
                &&& final(self).spec_len() == old(self).spec_len() + 1
                &&& final(self).vectors() == old(self).vectors().push(vector@)
            },
            r is Err ==> *final(self) == *old(self),
            final(self).spec_dims() == old(self).spec_dims(),
            final(self).spec_options() == old(self).spec_options(),
    {
        proof {
            self.graph.storage.lemma_wf_facts();
        }
        let dims = self.graph.storage.dimensions();
        if vector.len() != dims as usize {
            return Err(ChassisError::DimensionMismatch { expected: dims, actual: vector.len() as u64 });
        }
        let required = match self.required_len_for_add() {
            Some(n) => n,
            None => {
                return Err(ChassisError::CapacityExceeded);
            },
        };
        let mapped = self.graph.storage.mapped_len();
        if (mapped as u64) < required {
            return Err(ChassisError::MappingTooSmall { required });
        }
        let ghost before = self.graph;
        let new_id = match self.graph.storage.insert(vector) {
            Ok(id) => id,
            Err(e) => {
                return Err(e);
            },
        };
        proof {
            lemma_records_kept(before, self.graph);
            crate::graph::lemma_node_offset_step(self.graph.record_params, new_id as int);
            assert(self.graph.wf());
            assert(self.graph.record_in_range(new_id as int));
        }
        // Storage now holds one vector more than the graph has nodes: a ghost
        // until the node is published.
        let layer = if layer >= INDEX_MAX_LAYERS as usize {
            INDEX_MAX_LAYERS as usize - 1
        } else {
            layer
        };
        let layer_count = layer + 1;
        let query = encode_words(vector);
        let neighbors = if self.graph.node_count() == 0 {
            empty_layers(layer_count)
        } else {
            match self.select_neighbors(query.as_slice(), new_id, layer) {
                Ok(n) => n,
                Err(e) => {
                    return Err(e);
                },
            }
        };
        match self.graph.write_node_and_backlinks(&self.metric, new_id, layer_count, neighbors.as_slice()) {
            Ok(()) => {},
            Err(e) => {
                return Err(e);
            },
        }
        match self.graph.publish_node(new_id, layer_count) {
            Ok(()) => {},
            Err(e) => {
                return Err(e);
            },
        }
        Ok(new_id)
    }

    /// Forward neighbours of a new node for each of its layers: a greedy
    /// descent to just above `target_layer`, then on each layer the node shares
    /// with the graph a search of `ef_construction` candidates, of which the
    /// closest `MAX_CANDIDATES` go through the heuristic.
    fn select_neighbors(&self, vector: &[u8], new_id: NodeId, target_layer: usize) -> (r: Result<
        Vec<Vec<NodeId>>,
        ChassisError,
    >)
        requires
            self.graph.wf(),
            self.graph.node_count > 0,
            self.graph.vectors_cover(),
            new_id < self.graph.storage.spec_count(),
            target_layer < INDEX_MAX_LAYERS,
        ensures
            r is Ok,
            r is Ok ==> r->Ok_0@.len() == target_layer + 1,
            r is Ok ==> forall|l: int| 0 <= l < r->Ok_0@.len() ==> {
                let ns = #[trigger] r->Ok_0@[l]@;
                &&& ns.no_duplicates()
                &&& ns.len() <= if l == 0 {
                    2 * self.options.max_connections
                } else {
                    self.options.max_connections as int
                }
                &&& forall|i: int| 0 <= i < ns.len() ==> ns[i] < self.graph.node_count
            },
    {
        let entry = match self.graph.entry_point {
            Some(e) => e,
            None => {
                return Err(ChassisError::CorruptedGraphHeader);
            },
        };
        let max_layer = self.graph.max_layer;
        let mut neighbors = empty_layers(target_layer + 1);
        let mut curr = entry;
        let mut layer = max_layer;
        while layer > target_layer
            invariant
                self.graph.wf(),
                self.graph.vectors_cover(),
                curr < self.graph.node_count,
                neighbors@.len() == target_layer + 1,
                forall|l: int| 0 <= l < neighbors@.len() ==> (#[trigger] neighbors@[l])@.len() == 0,
            decreases layer,
        {
            curr = match self.graph.search_layer_greedy(&self.metric, vector, curr, layer) {
                Ok(c) => c,
                Err(e) => {
                    return Err(e);
                },
            };
            layer = layer - 1;
        }
        let top = if target_layer < max_layer {
            target_layer
        } else {
            max_layer
        };
        let mut step: usize = 0;
        while step <= top
            invariant
                self.graph.wf(),
                self.graph.vectors_cover(),
                new_id < self.graph.storage.spec_count(),
                curr < self.graph.node_count,
                neighbors@.len() == target_layer + 1,
                top <= target_layer,
                forall|l: int| 0 <= l < neighbors@.len() ==> {
                    let ns = #[trigger] neighbors@[l]@;
                    &&& ns.no_duplicates()
                    &&& ns.len() <= if l == 0 {
                        2 * self.options.max_connections
                    } else {
                        self.options.max_connections as int
                    }
                    &&& forall|i: int| 0 <= i < ns.len() ==> ns[i] < self.graph.node_count
                },
            decreases top + 1 - step,
        {
            let layer = top - step;
            let candidates = match self.graph.search_layer_optimized(
                &self.metric,
                vector,
                curr,
                self.options.ef_construction,
                layer,
            ) {
                Ok(c) => c,
                Err(e) => {
                    return Err(e);
                },
            };
            let mut ids: Vec<NodeId> = Vec::new();
            let mut i: usize = 0;
            while i < candidates.len() && i < MAX_CANDIDATES
                invariant
                    i <= candidates@.len(),
                    i <= MAX_CANDIDATES,
                    ids@.len() == i,
                    forall|j: int| 0 <= j < i ==> ids@[j] < self.graph.node_count,
                    forall|j: int| 0 <= j < candidates@.len() ==> #[trigger] candidates@[j].id < self.graph.node_count,
                decreases candidates@.len() - i,
            {
                ids.push(candidates[i].id);
                i = i + 1;
            }
            let max_neighbors = if layer == 0 {
                self.options.max_connections as usize * 2
            } else {
                self.options.max_connections as usize
            };
            let selected = match self.graph.select_neighbors_heuristic(
                &self.metric,
                new_id,
                ids.as_slice(),
                layer,
                max_neighbors,
                None,
            ) {
                Ok(s) => s,
                Err(e) => {
                    return Err(e);
                },
            };
            proof {
                crate::link::lemma_dedup(ids@, self.graph.storage.spec_count());
                assert forall|i: int| 0 <= i < selected@.len() implies selected@[i] < self.graph.node_count by {
                    assert(ids@.contains(selected@[i]));
                }
            }
            let ghost prev = neighbors@;
            neighbors.set(layer, selected);
            proof {
                assert forall|l: int| 0 <= l < neighbors@.len() && l != layer implies #[trigger] neighbors@[l]
                    == prev[l] by {}
            }
            if candidates.len() > 0 {
                curr = candidates[0].id;
            }
            if step == top {
                break;
            }
            step = step + 1;
        }
        Ok(neighbors)
    }

    /// The `k` nearest indexed vectors to `query` that the search finds, in
    /// ascending order of distance, searched with `ef_search` candidates.
    pub fn search(&self, query: &[u32], k: usize) -> (r: Result<Vec<SearchResult>, ChassisError>)
        requires
            self.wf(),
        ensures
            query@.len() != self.spec_dims() ==> r == Err::<Vec<SearchResult>, ChassisError>(
                ChassisError::DimensionMismatch {
                    expected: self.spec_dims() as u32,
                    actual: query@.len() as u64,
                },
            ),
            query@.len() == self.spec_dims() ==> r is Ok,
            query@.len() == self.spec_dims() && self.spec_len() == 0 ==> (r matches Ok(v) && v@.len()
                == 0),
            r is Ok ==> {
                let res = r->Ok_0@;
                &&& unique_ids(res)
                &&& sorted_by_distance(res)
                &&& res.len() <= k
                &&& res.len() <= self.spec_len()
                &&& (k > 0 && self.spec_len() > 0 ==> res.len() >= 1)
                &&& forall|i: int| 0 <= i < res.len() ==> #[trigger] res[i].id < self.spec_len()
            },
    {
        proof {
            self.graph.storage.lemma_wf_facts();
        }
        let dims = self.graph.storage.dimensions();
        if query.len() != dims as usize {
            return Err(ChassisError::DimensionMismatch { expected: dims, actual: query.len() as u64 });
        }
        let bytes = encode_words(query);
        self.graph.search(&self.metric, bytes.as_slice(), k, self.options.ef_search)
    }

    /// Writes the graph header of the index as it stands into the mapping;
    /// flushing the mapping afterwards makes it durable.
    pub fn write_graph_header(&mut self) -> (r: Result<(), ChassisError>)
        requires
            old(self).wf(),
        ensures
            final(self).wf(),
            r is Ok,
            final(self).spec_len() == old(self).spec_len(),
            final(self).spec_dims() == old(self).spec_dims(),
            final(self).vectors() == old(self).vectors(),
            final(self).spec_options() == old(self).spec_options(),
            stored_node_count(final(self).bytes()) == final(self).spec_len(),
            graph_open_check(final(self).bytes(), index_params(final(self).spec_options())) is None,
    {
        let r = self.graph.write_graph_header();
        proof {
            let h = self.graph.storage.bytes().subrange(
                GRAPH_ZONE_START as int,
                GRAPH_ZONE_START + GRAPH_HEADER_SIZE,
            );
            assert(crate::graph::GRAPH_MAGIC@ =~= crate::graph::graph_magic_seq());
            assert(h.subrange(0, 4) =~= crate::graph::graph_magic_seq());
        }
        r
    }

    /// Gives the storage back, closing the index.
    pub fn into_storage(self) -> (r: Storage)
        requires
            self.wf(),
        ensures
            r.wf(),
            r.spec_count() == self.spec_len(),
            r.spec_dims() == self.spec_dims(),
            r.vectors() == self.vectors(),
            r.bytes() == self.bytes(),
    {
        self.graph.storage
    }

    /// The storage, for flushing its mapping.
    pub fn storage(&self) -> &Storage {
        &self.graph.storage
    }

    /// Length of the mapping in bytes.
    pub fn mapped_len(&self) -> (r: usize)
        ensures
            r == self.bytes().len(),
    {
        self.graph.storage.mapped_len()
    }

    /// Replaces the mapping with one of the grown file; see [`HnswGraph::remap`].
    pub fn remap(&mut self, map: memmap2::MmapMut) -> (r: Result<(), ChassisError>)
        requires
            old(self).wf(),
        ensures
            final(self).wf(),
            final(self).spec_len() == old(self).spec_len(),
            final(self).spec_dims() == old(self).spec_dims(),
            final(self).spec_options() == old(self).spec_options(),
    {
        self.graph.remap(map)
    }
}

/// What survives a close: once the graph header of an index has been
/// written (as `write_graph_header` leaves it), opening an index again over
/// the same bytes with the same options succeeds (the condition of
/// `VectorIndex::open` holds), and the reopened index counts the same
/// vectors and resolves every id to the same vector.
pub proof fn lemma_reopen_keeps_vectors<D: VectorDistance>(
    closed: VectorIndex<D>,
    storage: Storage,
    reopened: VectorIndex<D>,
)
    requires
        closed.wf(),
        stored_node_count(closed.bytes()) == closed.spec_len(),
        graph_open_check(closed.bytes(), index_params(closed.spec_options())) is None,
        storage.bytes() == closed.bytes(),
        storage.spec_dims() == closed.spec_dims(),
        storage.spec_count() == decode_header_fields(storage.bytes()).3,
        reopened.spec_len() == stored_node_count(storage.bytes()),
        reopened.vectors() == storage.vectors().take(reopened.spec_len() as int),
    ensures
        graph_open_check(storage.bytes(), index_params(closed.spec_options())) is None,
        stored_node_count(storage.bytes()) <= storage.spec_count(),
        reopened.spec_len() == closed.spec_len(),
        reopened.vectors() == closed.vectors(),
{
    closed.graph.storage.lemma_same_bytes_same_vectors(storage);
    closed.graph.storage.lemma_wf_facts();
    assert(storage.vectors().take(reopened.spec_len() as int) =~= storage.vectors());
}

/// `n` empty neighbour lists.
fn empty_layers(n: usize) -> (r: Vec<Vec<NodeId>>)
    ensures
        r@.len() == n,
        forall|l: int| 0 <= l < n ==> (#[trigger] r@[l])@.len() == 0,
{
    let mut out: Vec<Vec<NodeId>> = Vec::with_capacity(n);
    let mut i: usize = 0;
    while i < n
        invariant
            i <= n,
            out@.len() == i,
            forall|l: int| 0 <= l < i ==> (#[trigger] out@[l])@.len() == 0,
        decreases n - i,
    {
        out.push(Vec::new());
        i = i + 1;
    }
    out
}

} // verus!
