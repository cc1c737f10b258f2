//! Building a graph of bare nodes over vectors already in storage.
use crate::error::ChassisError;
use crate::graph::{graph_open_check, record_offset, stored_node_count, HnswGraph, HnswParams};
use crate::storage::Storage;
use vstd::prelude::*;

verus! {

/// Builds a graph over the vectors of a storage.
pub struct HnswBuilder {
    params: HnswParams,
}

impl HnswBuilder {
    /// The parameters the graph will be opened with.
    pub closed spec fn spec_params(&self) -> HnswParams {
        self.params
    }

    /// A builder for graphs with these parameters.
    pub fn new(params: HnswParams) -> (r: Self)
        ensures
            r.spec_params() == params,
    {
        HnswBuilder { params }
    }

    /// Opens the graph of `storage` and gives every stored vector, in order,
    /// a node without neighbours whose top layer is the matching entry of
    /// `layers`. Fails when fewer layers than vectors are given.
    pub fn build(self, storage: Storage, layers: &[usize]) -> (r: Result<HnswGraph, ChassisError>)
        requires
            storage.wf(),
        ensures
            r is Ok ==> {
                let g = r->Ok_0;
                &&& g.wf()
                &&& g.params == self.spec_params()
                &&& g.node_count == storage.spec_count()
                &&& g.storage.vectors() == storage.vectors()
            },
            layers@.len() < storage.spec_count() ==> r is Err,
            layers@.len() >= storage.spec_count() && graph_open_check(storage.bytes(), self.spec_params())
                is None && stored_node_count(storage.bytes()) == 0 && (forall|i: int|
                0 <= i < storage.spec_count() ==> layers@[i] < self.spec_params().max_layers)
                && record_offset(self.spec_params().spec_record_params(), storage.spec_count() as int)
                <= storage.bytes().len() && record_offset(
                self.spec_params().spec_record_params(),
                storage.spec_count() as int,
            ) <= usize::MAX ==> r is Ok,
    {
        let count = storage.count();
        if (layers.len() as u64) < count {
            return Err(ChassisError::LayerCountMismatch { expected: count, actual: layers.len() as u64 });
        }
        let mut graph = match HnswGraph::open(storage, self.params) {
            Ok(g) => g,
            Err(e) => {
                return Err(e);
            },
        };
        let ghost ok_pre = layers@.len() >= storage.spec_count() && stored_node_count(storage.bytes()) == 0
            && (forall|i: int| 0 <= i < storage.spec_count() ==> layers@[i] < self.params.max_layers)
            && record_offset(self.params.spec_record_params(), storage.spec_count() as int)
            <= storage.bytes().len() && record_offset(
            self.params.spec_record_params(),
            storage.spec_count() as int,
        ) <= usize::MAX;
        let mut node_id: u64 = 0;
        while node_id < count
            invariant
                graph.wf(),
                node_id <= count,
                count <= layers@.len(),
                graph.params == self.params,
                graph.storage.spec_count() == count,
                graph.storage.vectors() == storage.vectors(),
                graph.storage.bytes().len() == storage.bytes().len(),
                graph.record_params == self.params.spec_record_params(),
                node_id == 0 || graph.node_count == node_id,
                stored_node_count(storage.bytes()) == 0 ==> graph.node_count == node_id,
                ok_pre ==> graph.node_count == node_id,
                ok_pre == (layers@.len() >= storage.spec_count() && stored_node_count(storage.bytes()) == 0
                    && (forall|i: int| 0 <= i < storage.spec_count() ==> layers@[i] < self.params.max_layers)
                    && record_offset(self.params.spec_record_params(), storage.spec_count() as int)
                    <= storage.bytes().len() && record_offset(
                    self.params.spec_record_params(),
                    storage.spec_count() as int,
                ) <= usize::MAX),
                ok_pre ==> (forall|i: int| 0 <= i < count ==> layers@[i] < graph.params.max_layers),
                ok_pre ==> record_offset(graph.record_params, count as int) <= graph.storage.bytes().len()
                    && record_offset(graph.record_params, count as int) <= usize::MAX,
            decreases count - node_id,
        {
            proof {
                crate::graph::lemma_node_offset_step(graph.record_params, node_id as int);
                assert(record_offset(graph.record_params, node_id + 1) <= record_offset(
                    graph.record_params,
                    count as int,
                )) by (nonlinear_arith)
                    requires
                        node_id + 1 <= count,
                        graph.record_params.spec_record_size() >= 0,
                        record_offset(graph.record_params, node_id + 1) == crate::storage::GRAPH_ZONE_START
                            + 64 + (node_id + 1) * graph.record_params.spec_record_size(),
                        record_offset(graph.record_params, count as int) == crate::storage::GRAPH_ZONE_START
                            + 64 + count * graph.record_params.spec_record_size(),
                ;
                assert(ok_pre ==> graph.record_in_range(node_id as int));
            }
            match graph.insert(node_id, layers[node_id as usize]) {
                Ok(()) => {},
                Err(e) => {
                    return Err(e);
                },
            }
            node_id = node_id + 1;
        }
        if graph.node_count != count {
            return Err(ChassisError::InvariantViolation { expected: count, actual: graph.node_count });
        }
        Ok(graph)
    }
}

} // verus!
