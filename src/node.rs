//! Fixed-width node records: every record of a file has the same size, so the
//! record of node `id` sits at `start + id * record_size`.
//!
//! A record is a 16-byte header (`node_id` as a little-endian `u64`,
//! `layer_count`, `flags`, six zero bytes) followed by one array of neighbour
//! ids per layer: `m0` slots for layer 0, `m` slots for every upper layer.
//! Empty slots hold [`INVALID_NODE_ID`].
use vstd::bytes::{spec_u64_from_le_bytes, spec_u64_to_le_bytes, u64_from_le_bytes, u64_to_le_bytes};
use vstd::prelude::*;
use vstd::slice::slice_subrange;

verus! {

broadcast use vstd::seq_lib::group_seq_properties, vstd::seq_lib::group_seq_lib_default;

/// File offset.
pub type Offset = u64;

/// Node id: the index of the node's vector in storage.
pub type NodeId = u64;

/// Sentinel of an empty neighbour slot and of "no entry point".
pub const INVALID_NODE_ID: NodeId = 0xffff_ffff_ffff_ffff;

/// Default maximum number of neighbours on the upper layers.
pub const DEFAULT_M: u16 = 16;

/// Default number of layers a record has room for.
pub const DEFAULT_MAX_LAYERS: u8 = 16;

/// Default maximum number of neighbours on layer 0.
pub const DEFAULT_M0: u16 = DEFAULT_M * 2;

/// Size in bytes of the record header.
pub const NODE_HEADER_SIZE: usize = 16;

/// Whether an id names a node rather than an empty slot.
pub open spec fn is_node_id(id: u64) -> bool {
    id != INVALID_NODE_ID
}

/// The predicate that keeps the occupied slots of a neighbour array.
pub open spec fn occupied() -> spec_fn(u64) -> bool {
    |id: u64| is_node_id(id)
}

/// The id stored in the 8 bytes at `at`.
pub open spec fn id_at(bytes: Seq<u8>, at: int) -> u64 {
    spec_u64_from_le_bytes(bytes.subrange(at, at + 8))
}

/// The slots of a layer in a flattened slot array, empty for a layer that
/// records of these parameters have no room for.
pub open spec fn layer_slots(params: NodeRecordParams, slots: Seq<u64>, layer: int) -> Seq<u64> {
    if 0 <= layer < params.max_layers {
        let start = params.layer_start(layer) as int;
        slots.subrange(start, start + params.spec_max_neighbors(layer))
    } else {
        Seq::empty()
    }
}

/// The neighbours of a layer of a record: the occupied slots of the layer, in
/// order, and none for a layer the node is not on.
pub open spec fn layer_view(params: NodeRecordParams, header: NodeHeader, slots: Seq<u64>, layer: int) -> Seq<u64> {
    if 0 <= layer < header.layer_count {
        layer_slots(params, slots, layer).filter(occupied())
    } else {
        Seq::empty()
    }
}

/// Header of a node record.
#[derive(Debug, Clone, Copy, PartialEq, Eq, Structural)]
pub struct NodeHeader {
    /// Id of the node (also the index of its vector).
    pub node_id: NodeId,
    /// Number of layers the node belongs to (1 = layer 0 only).
    pub layer_count: u8,
    /// Flag bits; bit 0 marks a deleted node.
    pub flags: u8,
}

/// The header that the first 16 bytes of a record hold.
pub open spec fn decode_node_header(bytes: Seq<u8>) -> NodeHeader {
    NodeHeader { node_id: id_at(bytes, 0), layer_count: bytes[8], flags: bytes[9] }
}

/// The 16 bytes that hold a header.
pub open spec fn node_header_bytes(h: NodeHeader) -> Seq<u8> {
    spec_u64_to_le_bytes(h.node_id) + seq![h.layer_count, h.flags, 0u8, 0u8, 0u8, 0u8, 0u8, 0u8]
}

impl NodeHeader {
    /// Size of the header in bytes.
    pub const SIZE: usize = 16;

    /// A header is accepted when the node has a layer and its id is not the sentinel.
    pub open spec fn spec_is_sound(self) -> bool {
        self.layer_count > 0 && is_node_id(self.node_id)
    }

    /// A header with no flags set.
    pub fn new(node_id: NodeId, layer_count: u8) -> (r: Self)
        ensures
            r == (NodeHeader { node_id, layer_count, flags: 0 }),
    {
        NodeHeader { node_id, layer_count, flags: 0 }
    }

    /// Reads a header from the front of `bytes`, rejecting a short buffer, a
    /// layer count of zero and the sentinel id.
    pub fn from_bytes(bytes: &[u8]) -> (r: Result<Self, &'static str>)
        ensures
            r is Ok <==> bytes@.len() >= 16 && decode_node_header(bytes@).spec_is_sound(),
            r is Ok ==> r->Ok_0 == decode_node_header(bytes@),
    {
        if bytes.len() < 16 {
            return Err("Buffer too small for NodeHeader");
        }
        let node_id = u64_from_le_bytes(slice_subrange(bytes, 0, 8));
        let header = NodeHeader { node_id, layer_count: bytes[8], flags: bytes[9] };
        if header.layer_count == 0 {
            return Err("Invalid NodeHeader: layer_count cannot be 0");
        }
        if header.node_id == INVALID_NODE_ID {
            return Err("Invalid NodeHeader: node_id is INVALID_NODE_ID sentinel");
        }
        Ok(header)
    }

    /// Whether the deleted flag is set.
    pub fn is_deleted(&self) -> (r: bool)
        ensures
            r == (self.flags & 1 != 0),
    {
        self.flags & 1 != 0
    }

    /// Sets the deleted flag.
    pub fn set_deleted(&mut self)
        ensures
            final(self).flags == old(self).flags | 1,
            final(self).node_id == old(self).node_id,
            final(self).layer_count == old(self).layer_count,
    {
        self.flags = self.flags | 1;
    }

    /// The 16 bytes of the header.
    pub fn to_bytes(&self) -> (r: Vec<u8>)
        ensures
            r@ == node_header_bytes(*self),
            decode_node_header(r@) == *self,
    {
        let mut out = u64_to_le_bytes(self.node_id);
        out.push(self.layer_count);
        out.push(self.flags);
        let mut i: usize = 0;
        while i < 6
            invariant
                i <= 6,
                out@ == spec_u64_to_le_bytes(self.node_id) + seq![self.layer_count, self.flags]
                    + Seq::new(i as nat, |k: int| 0u8),
            decreases 6 - i,
        {
            out.push(0);
            i = i + 1;
            proof {
                assert(out@ =~= spec_u64_to_le_bytes(self.node_id) + seq![self.layer_count, self.flags]
                    + Seq::new(i as nat, |k: int| 0u8));
            }
        }
        proof {
            vstd::bytes::lemma_auto_spec_u64_to_from_le_bytes();
            assert(out@ =~= node_header_bytes(*self));
            assert(out@.subrange(0, 8) =~= spec_u64_to_le_bytes(self.node_id));
        }
        out
    }
}

/// Parameters that fix the size of every record of a file.
#[derive(Debug, Clone, Copy, PartialEq, Eq, Structural)]
pub struct NodeRecordParams {
    /// Maximum neighbours on each upper layer.
    pub m: u16,
    /// Maximum neighbours on layer 0.
    pub m0: u16,
    /// Number of layers a record has room for.
    pub max_layers: u8,
}

impl Default for NodeRecordParams {
    fn default() -> (r: Self)
        ensures
            r == (NodeRecordParams { m: DEFAULT_M, m0: DEFAULT_M0, max_layers: DEFAULT_MAX_LAYERS }),
    {
        NodeRecordParams { m: DEFAULT_M, m0: DEFAULT_M0, max_layers: DEFAULT_MAX_LAYERS }
    }
}

/// `x` rounded up to a multiple of 8.
pub open spec fn align_up_8(x: nat) -> nat {
    ((x + 7) / 8 * 8) as nat
}

impl NodeRecordParams {
    /// Slots on the layers above 0.
    pub open spec fn upper_slots(self) -> nat {
        if self.max_layers > 1 {
            ((self.max_layers - 1) * self.m) as nat
        } else {
            0
        }
    }

    /// Neighbour slots of a whole record.
    pub open spec fn spec_total_max_neighbors(self) -> nat {
        (self.m0 + self.upper_slots()) as nat
    }

    /// Size in bytes of a record.
    pub open spec fn spec_record_size(self) -> nat {
        align_up_8((16 + self.m0 * 8 + self.upper_slots() * 8) as nat)
    }

    /// Capacity of a layer.
    pub open spec fn spec_max_neighbors(self, layer: int) -> nat {
        if layer == 0 {
            self.m0 as nat
        } else {
            self.m as nat
        }
    }

    /// Index of the first slot of a layer in the flattened neighbour array.
    pub open spec fn layer_start(self, layer: int) -> nat {
        if layer <= 0 {
            0
        } else {
            (self.m0 + (layer - 1) * self.m) as nat
        }
    }

    /// Parameters with these values.
    pub fn new(m: u16, m0: u16, max_layers: u8) -> (r: Self)
        ensures
            r == (NodeRecordParams { m, m0, max_layers }),
    {
        NodeRecordParams { m, m0, max_layers }
    }

    /// `16 + m0 * 8 + (max_layers - 1) * m * 8`, rounded up to a multiple of 8.
    pub fn record_size(&self) -> (r: usize)
        ensures
            r == self.spec_record_size(),
            r == 16 + 8 * self.spec_total_max_neighbors(),
            r % 8 == 0,
            16 <= r <= 16 + 8 * 255 * 65535,
    {
        proof {
            self.lemma_bounds();
        }
        let layer0 = self.m0 as usize * 8;
        let upper: usize = if self.max_layers > 1 {
            (self.max_layers as usize - 1) * self.m as usize * 8
        } else {
            0
        };
        let total = 16 + layer0 + upper;
        let r = (total + 7) / 8 * 8;
        proof {
            let t = self.spec_total_max_neighbors();
            assert(total == 8 * (2 + t)) by (nonlinear_arith)
                requires
                    total == 16 + layer0 + upper,
                    layer0 == self.m0 * 8,
                    upper == self.upper_slots() * 8,
                    t == self.m0 + self.upper_slots(),
            ;
            assert((8 * (2 + t) + 7) / 8 * 8 == 8 * (2 + t)) by (nonlinear_arith)
                requires
                    t >= 0,
            ;
        }
        r
    }

    /// A record is at least as long as its header.
    pub proof fn lemma_record_size_at_least_header(self)
        ensures
            self.spec_record_size() >= 16,
            self.spec_record_size() == 16 + 8 * self.spec_total_max_neighbors(),
    {
        let t = self.spec_total_max_neighbors();
        assert(16 + self.m0 * 8 + self.upper_slots() * 8 == 8 * (2 + t));
        assert((8 * (2 + t) + 7) / 8 * 8 == 8 * (2 + t)) by (nonlinear_arith)
            requires
                t >= 0,
        ;
    }

    proof fn lemma_bounds(self)
        ensures
            self.upper_slots() <= 254 * 65535,
            self.spec_total_max_neighbors() <= 255 * 65535,
    {
        if self.max_layers > 1 {
            assert((self.max_layers - 1) * self.m <= 254 * 65535) by (nonlinear_arith)
                requires
                    self.max_layers <= 255,
                    self.m <= 65535,
                    self.max_layers > 1,
            ;
        }
    }

    /// Layers below `layer` take exactly the slots before `layer_start(layer)`,
    /// and a layer that exists ends inside the record.
    pub proof fn lemma_layer_fits(self, layer: int)
        requires
            0 <= layer < self.max_layers,
        ensures
            self.layer_start(layer) + self.spec_max_neighbors(layer) <= self.spec_total_max_neighbors(),
            self.spec_total_max_neighbors() <= 255 * 65535,
    {
        self.lemma_bounds();
        if layer > 0 {
            assert((layer - 1) * self.m + self.m <= (self.max_layers - 1) * self.m) by (nonlinear_arith)
                requires
                    1 <= layer < self.max_layers,
                    self.m >= 0,
            ;
        }
    }

    /// Byte offset of a layer's neighbour array inside a record; `None` for a
    /// layer the record has no room for.
    pub fn layer_offset(&self, layer: usize) -> (r: Option<usize>)
        ensures
            layer >= self.max_layers ==> r is None,
            layer < self.max_layers ==> r == Some((16 + 8 * self.layer_start(layer as int)) as usize),
    {
        if layer >= self.max_layers as usize {
            return None;
        }
        proof {
            self.lemma_layer_fits(layer as int);
        }
        let start = self.layer_slot_start(layer);
        Some(16 + start * 8)
    }

    fn layer_slot_start(&self, layer: usize) -> (r: usize)
        requires
            layer < self.max_layers,
        ensures
            r == self.layer_start(layer as int),
    {
        proof {
            self.lemma_layer_fits(layer as int);
        }
        if layer == 0 {
            0
        } else {
            proof {
                assert((layer - 1) * self.m <= 254 * 65535) by (nonlinear_arith)
                    requires
                        1 <= layer < self.max_layers,
                        self.max_layers <= 255,
                        self.m <= 65535,
                ;
            }
            self.m0 as usize + (layer - 1) * self.m as usize
        }
    }

    /// Capacity of a layer: `m0` for layer 0, `m` above.
    pub fn max_neighbors(&self, layer: usize) -> (r: usize)
        ensures
            r == self.spec_max_neighbors(layer as int),
    {
        if layer == 0 {
            self.m0 as usize
        } else {
            self.m as usize
        }
    }

    /// Neighbour slots of a whole record.
    pub fn total_max_neighbors(&self) -> (r: usize)
        ensures
            r == self.spec_total_max_neighbors(),
    {
        proof {
            self.lemma_bounds();
        }
        let layer0 = self.m0 as usize;
        let upper: usize = if self.max_layers > 1 {
            (self.max_layers as usize - 1) * self.m as usize
        } else {
            0
        };
        layer0 + upper
    }
}

/// A node record as it is laid out on disk.
#[derive(Debug)]
pub struct NodeRecord {
    /// The record header.
    pub header: NodeHeader,
    /// The neighbour slots of all layers, layer 0 first.
    pub neighbors: Vec<NodeId>,
    /// The parameters that shape the slot array.
    pub params: NodeRecordParams,
}

impl NodeRecord {
    /// The parameters that shape this record.
    pub open spec fn spec_params(&self) -> NodeRecordParams {
        self.params
    }

    /// The slot array has the length that the parameters give.
    pub open spec fn wf(&self) -> bool {
        self.neighbors@.len() == self.params.spec_total_max_neighbors()
    }

    /// The slots of a layer, empty for a layer the record has no room for.
    pub open spec fn slots(&self, layer: int) -> Seq<u64> {
        layer_slots(self.params, self.neighbors@, layer)
    }

    /// The neighbours of a layer: its occupied slots in order, none for a
    /// layer the node is not on.
    pub open spec fn layer_neighbors(&self, layer: int) -> Seq<u64> {
        layer_view(self.params, self.header, self.neighbors@, layer)
    }

    /// The parameters that shape this record.
    pub fn params(&self) -> (r: NodeRecordParams)
        ensures
            r == self.params,
    {
        self.params
    }

    /// An empty record: every slot holds the sentinel.
    pub fn new(node_id: NodeId, layer_count: u8, params: NodeRecordParams) -> (r: Self)
        ensures
            r.wf(),
            r.header == (NodeHeader { node_id, layer_count, flags: 0 }),
            r.params == params,
            forall|i: int| 0 <= i < r.neighbors@.len() ==> r.neighbors@[i] == INVALID_NODE_ID,
    {
        let total = params.total_max_neighbors();
        let mut neighbors: Vec<NodeId> = Vec::with_capacity(total);
        let mut i: usize = 0;
        while i < total
            invariant
                i <= total,
                neighbors@.len() == i,
                forall|k: int| 0 <= k < i ==> neighbors@[k] == INVALID_NODE_ID,
            decreases total - i,
        {
            neighbors.push(INVALID_NODE_ID);
            i = i + 1;
        }
        NodeRecord { header: NodeHeader::new(node_id, layer_count), neighbors, params }
    }

    /// Size in bytes of this record on disk.
    pub fn record_size(&self) -> (r: usize)
        ensures
            r == self.params.spec_record_size(),
    {
        self.params.record_size()
    }

    /// First slot and capacity of a layer the record has room for.
    fn layer_slice_bounds(&self, layer: usize) -> (r: (usize, usize))
        requires
            self.wf(),
            layer < self.params.max_layers,
        ensures
            r.0 == self.params.layer_start(layer as int),
            r.1 == self.params.spec_max_neighbors(layer as int),
            r.0 + r.1 <= self.neighbors@.len(),
            self.neighbors@.len() <= 255 * 65535,
    {
        proof {
            self.params.lemma_layer_fits(layer as int);
        }
        let start = self.params.layer_slot_start(layer);
        let count = self.params.max_neighbors(layer);
        (start, count)
    }

    /// The neighbours of a layer, the same as `get_neighbors` gives.
    pub fn neighbors_iter(&self, layer: usize) -> (r: Vec<NodeId>)
        requires
            self.wf(),
        ensures
            r@ == self.layer_neighbors(layer as int),
    {
        self.get_neighbors(layer)
    }

    /// The neighbours of a layer, without the empty slots.
    pub fn get_neighbors(&self, layer: usize) -> (r: Vec<NodeId>)
        requires
            self.wf(),
        ensures
            r@ == self.layer_neighbors(layer as int),
    {
        let mut out: Vec<NodeId> = Vec::new();
        if layer >= self.header.layer_count as usize || layer >= self.params.max_layers as usize {
            return out;
        }
        let (start, count) = self.layer_slice_bounds(layer);
        let ghost slots = self.slots(layer as int);
        let mut i: usize = 0;
        while i < count
            invariant
                self.wf(),
                i <= count,
                start + count <= self.neighbors@.len(),
                self.neighbors@.len() <= 255 * 65535,
                slots == self.neighbors@.subrange(start as int, start + count),
                out@ == slots.subrange(0, i as int).filter(occupied()),
            decreases count - i,
        {
            let id = self.neighbors[start + i];
            proof {
                assert(slots.subrange(0, i + 1) =~= slots.subrange(0, i as int).push(id));
                slots.subrange(0, i as int).lemma_filter_push(id, occupied());
            }
            if id != INVALID_NODE_ID {
                out.push(id);
            }
            i = i + 1;
        }
        proof {
            assert(slots.subrange(0, count as int) =~= slots);
        }
        out
    }

    /// Number of neighbours on a layer.
    pub fn neighbor_count(&self, layer: usize) -> (r: usize)
        requires
            self.wf(),
        ensures
            r == self.layer_neighbors(layer as int).len(),
    {
        if layer >= self.header.layer_count as usize || layer >= self.params.max_layers as usize {
            return 0;
        }
        let (start, count) = self.layer_slice_bounds(layer);
        let ghost slots = self.slots(layer as int);
        let mut n: usize = 0;
        let mut i: usize = 0;
        while i < count
            invariant
                self.wf(),
                i <= count,
                n <= i,
                start + count <= self.neighbors@.len(),
                self.neighbors@.len() <= 255 * 65535,
                slots == self.neighbors@.subrange(start as int, start + count),
                n == slots.subrange(0, i as int).filter(occupied()).len(),
            decreases count - i,
        {
            let id = self.neighbors[start + i];
            proof {
                assert(slots.subrange(0, i + 1) =~= slots.subrange(0, i as int).push(id));
                slots.subrange(0, i as int).lemma_filter_push(id, occupied());
            }
            if id != INVALID_NODE_ID {
                n = n + 1;
            }
            i = i + 1;
        }
        proof {
            assert(slots.subrange(0, count as int) =~= slots);
        }
        n
    }

    /// Overwrites the slots of a layer with `neighbors`, padding with the sentinel.
    pub fn set_neighbors(&mut self, layer: usize, neighbors: &[NodeId])
        requires
            old(self).wf(),
            layer < old(self).params.max_layers,
            neighbors@.len() <= old(self).params.spec_max_neighbors(layer as int),
        ensures
            final(self).wf(),
            final(self).header == old(self).header,
            final(self).params == old(self).params,
            final(self).slots(layer as int) == neighbors@ + Seq::new(
                (old(self).params.spec_max_neighbors(layer as int) - neighbors@.len()) as nat,
                |k: int| INVALID_NODE_ID,
            ),
            forall|i: int|
                0 <= i < old(self).neighbors@.len() && !(old(self).params.layer_start(layer as int) <= i
                    < old(self).params.layer_start(layer as int) + old(self).params.spec_max_neighbors(
                    layer as int,
                )) ==> final(self).neighbors@[i] == old(self).neighbors@[i],
    {
        let (start, count) = self.layer_slice_bounds(layer);
        let ghost before = self.neighbors@;
        let n = neighbors.len();
        let mut i: usize = 0;
        while i < count
            invariant
                i <= count,
                n <= count,
                n == neighbors@.len(),
                start + count <= before.len(),
                before.len() <= 255 * 65535,
                self.neighbors@.len() == before.len(),
                self.params == old(self).params,
                self.header == old(self).header,
                forall|k: int|
                    0 <= k < before.len() && !(start <= k < start + i) ==> self.neighbors@[k]
                        == before[k],
                forall|k: int|
                    start <= k < start + i ==> self.neighbors@[k] == if k - start < n {
                        neighbors@[k - start]
                    } else {
                        INVALID_NODE_ID
                    },
            decreases count - i,
        {
            if i < n {
                self.neighbors.set(start + i, neighbors[i]);
            } else {
                self.neighbors.set(start + i, INVALID_NODE_ID);
            }
            i = i + 1;
        }
        proof {
            assert(self.slots(layer as int) =~= neighbors@ + Seq::new(
                (count - n) as nat,
                |k: int| INVALID_NODE_ID,
            ));
        }
    }

    /// Puts `neighbor` in the first empty slot of a layer; `false` when the
    /// layer is full or the record has no room for it.
    pub fn add_neighbor(&mut self, layer: usize, neighbor: NodeId) -> (r: bool)
        requires
            old(self).wf(),
        ensures
            final(self).wf(),
            final(self).header == old(self).header,
            final(self).params == old(self).params,
            r == old(self).slots(layer as int).contains(INVALID_NODE_ID),
            !r ==> final(self).neighbors@ == old(self).neighbors@,
            r ==> exists|k: int|
                0 <= k < old(self).slots(layer as int).len() && old(self).slots(layer as int)[k]
                    == INVALID_NODE_ID && (forall|j: int|
                    0 <= j < k ==> old(self).slots(layer as int)[j] != INVALID_NODE_ID)
                    && final(self).neighbors@ == old(self).neighbors@.update(
                    old(self).params.layer_start(layer as int) + k,
                    neighbor,
                ),
    {
        if layer >= self.params.max_layers as usize {
            return false;
        }
        let (start, count) = self.layer_slice_bounds(layer);
        let ghost slots = self.slots(layer as int);
        let mut i: usize = 0;
        while i < count
            invariant
                self.wf(),
                self.neighbors@ == old(self).neighbors@,
                self.params == old(self).params,
                self.header == old(self).header,
                slots == old(self).slots(layer as int),
                start == old(self).params.layer_start(layer as int),
                i <= count,
                start + count <= self.neighbors@.len(),
                self.neighbors@.len() <= 255 * 65535,
                slots == self.neighbors@.subrange(start as int, start + count),
                forall|j: int| 0 <= j < i ==> slots[j] != INVALID_NODE_ID,
            decreases count - i,
        {
            if self.neighbors[start + i] == INVALID_NODE_ID {
                self.neighbors.set(start + i, neighbor);
                proof {
                    assert(slots[i as int] == INVALID_NODE_ID);
                    assert(slots.contains(INVALID_NODE_ID));
                    assert(self.neighbors@ == old(self).neighbors@.update(start + i, neighbor));
                    let k = i as int;
                    assert(0 <= k < slots.len() && slots[k] == INVALID_NODE_ID && (forall|j: int|
                        0 <= j < k ==> slots[j] != INVALID_NODE_ID));
                }
                return true;
            }
            i = i + 1;
        }
        proof {
            assert forall|j: int| 0 <= j < slots.len() implies slots[j] != INVALID_NODE_ID by {}
        }
        false
    }

    /// The record as bytes: header, then every slot as a little-endian `u64`.
    pub fn to_bytes(&self) -> (r: Vec<u8>)
        requires
            self.wf(),
        ensures
            r@.len() == self.params.spec_record_size(),
            r@.subrange(0, 16) == node_header_bytes(self.header),
            forall|i: int|
                0 <= i < self.neighbors@.len() ==> #[trigger] r@.subrange(16 + 8 * i, 24 + 8 * i)
                    == spec_u64_to_le_bytes(self.neighbors@[i]),
    {
        let size = self.params.record_size();
        proof {
            self.params.lemma_bounds();
            vstd::bytes::lemma_auto_spec_u64_to_from_le_bytes();
        }
        let mut out = self.header.to_bytes();
        assert(out@.subrange(0, 16) =~= out@);
        let total = self.neighbors.len();
        let mut i: usize = 0;
        while i < total
            invariant
                i <= total,
                total == self.neighbors@.len(),
                total == self.params.spec_total_max_neighbors(),
                total <= 255 * 65535,
                out@.len() == 16 + 8 * i,
                out@.subrange(0, 16) == node_header_bytes(self.header),
                forall|j: int|
                    0 <= j < i ==> #[trigger] out@.subrange(16 + 8 * j, 24 + 8 * j)
                        == spec_u64_to_le_bytes(self.neighbors@[j]),
            decreases total - i,
        {
            let mut b = u64_to_le_bytes(self.neighbors[i]);
            let ghost prev = out@;
            out.append(&mut b);
            proof {
                assert(out@.subrange(0, 16) =~= prev.subrange(0, 16));
                assert forall|j: int| 0 <= j < i + 1 implies #[trigger] out@.subrange(
                    16 + 8 * j,
                    24 + 8 * j,
                ) == spec_u64_to_le_bytes(self.neighbors@[j]) by {
                    if j < i {
                        assert(out@.subrange(16 + 8 * j, 24 + 8 * j) =~= prev.subrange(
                            16 + 8 * j,
                            24 + 8 * j,
                        ));
                    } else {
                        assert(out@.subrange(16 + 8 * j, 24 + 8 * j) =~= spec_u64_to_le_bytes(
                            self.neighbors@[j],
                        ));
                    }
                }
            }
            i = i + 1;
        }
        proof {
            self.params.lemma_bounds();
        }
        assert(out@.len() == size);
        out
    }

    /// Reads a record laid out by `to_bytes`, checking the length and the header.
    pub fn from_bytes(bytes: &[u8], params: NodeRecordParams) -> (r: Result<Self, &'static str>)
        ensures
            r is Ok <==> bytes@.len() >= params.spec_record_size() && decode_node_header(
                bytes@,
            ).spec_is_sound(),
            r is Ok ==> r->Ok_0.wf() && r->Ok_0.header == decode_node_header(bytes@)
                && r->Ok_0.params == params && forall|i: int|
                0 <= i < params.spec_total_max_neighbors() ==> r->Ok_0.neighbors@[i] == id_at(
                    bytes@,
                    16 + 8 * i,
                ),
    {
        let expected = params.record_size();
        if bytes.len() < expected {
            return Err("Byte slice too small for node record");
        }
        let header = match NodeHeader::from_bytes(bytes) {
            Ok(h) => h,
            Err(e) => {
                return Err(e);
            },
        };
        let total = params.total_max_neighbors();
        proof {
            params.lemma_bounds();
        }
        let mut neighbors: Vec<NodeId> = Vec::with_capacity(total);
        let mut i: usize = 0;
        while i < total
            invariant
                i <= total,
                total == params.spec_total_max_neighbors(),
                total <= 255 * 65535,
                16 + 8 * total <= bytes@.len(),
                neighbors@.len() == i,
                forall|j: int| 0 <= j < i ==> neighbors@[j] == id_at(bytes@, 16 + 8 * j),
            decreases total - i,
        {
            let at = 16 + 8 * i;
            let id = u64_from_le_bytes(slice_subrange(bytes, at, at + 8));
            neighbors.push(id);
            i = i + 1;
        }
        Ok(NodeRecord { header, neighbors, params })
    }
}

/// A node as a list of neighbour lists, one per layer.
#[derive(Debug, Clone)]
pub struct Node {
    /// Node id.
    pub id: NodeId,
    /// File offset of the node's record, when known.
    pub offset: Offset,
    /// Neighbours per layer, layer 0 first.
    pub layers: Vec<Vec<NodeId>>,
}

impl Node {
    /// A node with `layer_count` empty layers.
    pub fn new(id: NodeId, layer_count: usize) -> (r: Self)
        ensures
            r.id == id,
            r.offset == 0,
            r.layers@.len() == layer_count,
            forall|l: int| 0 <= l < layer_count ==> (#[trigger] r.layers@[l])@.len() == 0,
    {
        let mut layers: Vec<Vec<NodeId>> = Vec::with_capacity(layer_count);
        let mut i: usize = 0;
        while i < layer_count
            invariant
                i <= layer_count,
                layers@.len() == i,
                forall|l: int| 0 <= l < i ==> (#[trigger] layers@[l])@.len() == 0,
            decreases layer_count - i,
        {
            layers.push(Vec::new());
            i = i + 1;
        }
        Node { id, offset: 0, layers }
    }

    /// The highest layer of the node (0 for a node without layers).
    pub fn top_layer(&self) -> (r: usize)
        ensures
            r == if self.layers@.len() == 0 {
                0
            } else {
                self.layers@.len() - 1
            },
    {
        self.layers.len().saturating_sub(1)
    }

    /// The record of this node, with each layer's neighbours in its slots.
    pub fn to_record(&self, params: NodeRecordParams) -> (r: NodeRecord)
        requires
            self.layers@.len() <= params.max_layers,
            forall|l: int|
                0 <= l < self.layers@.len() ==> (#[trigger] self.layers@[l])@.len()
                    <= params.spec_max_neighbors(l),
        ensures
            r.wf(),
            r.params == params,
            r.header == (NodeHeader { node_id: self.id, layer_count: self.layers@.len() as u8, flags: 0 }),
            forall|l: int|
                0 <= l < self.layers@.len() ==> #[trigger] r.slots(l) == self.layers@[l]@ + Seq::new(
                    (params.spec_max_neighbors(l) - self.layers@[l]@.len()) as nat,
                    |k: int| INVALID_NODE_ID,
                ),
    {
        let n = self.layers.len();
        let mut record = NodeRecord::new(self.id, n as u8, params);
        let mut l: usize = 0;
        while l < n
            invariant
                l <= n,
                n == self.layers@.len(),
                n <= params.max_layers,
                record.wf(),
                record.params == params,
                record.header == (NodeHeader { node_id: self.id, layer_count: n as u8, flags: 0 }),
                forall|l: int|
                    0 <= l < self.layers@.len() ==> (#[trigger] self.layers@[l])@.len()
                        <= params.spec_max_neighbors(l),
                forall|j: int|
                    0 <= j < l ==> #[trigger] record.slots(j) == self.layers@[j]@ + Seq::new(
                        (params.spec_max_neighbors(j) - self.layers@[j]@.len()) as nat,
                        |k: int| INVALID_NODE_ID,
                    ),
            decreases n - l,
        {
            let ghost prev = record;
            record.set_neighbors(l, self.layers[l].as_slice());
            proof {
                assert forall|j: int| 0 <= j < l implies #[trigger] record.slots(j) == prev.slots(
                    j,
                ) by {
                    lemma_layers_disjoint(params, j, l as int);
                    params.lemma_layer_fits(j);
                    let st = params.layer_start(j) as int;
                    let c = params.spec_max_neighbors(j) as int;
                    assert forall|x: int| st <= x < st + c implies record.neighbors@[x]
                        == prev.neighbors@[x] by {}
                    assert(record.slots(j) =~= prev.slots(j));
                }
            }
            l = l + 1;
        }
        record
    }

    /// The node that a record describes: the neighbours of each of its layers.
    pub fn from_record(record: &NodeRecord) -> (r: Self)
        requires
            record.wf(),
        ensures
            r.id == record.header.node_id,
            r.offset == 0,
            r.layers@.len() == record.header.layer_count,
            forall|l: int|
                0 <= l < record.header.layer_count ==> (#[trigger] r.layers@[l])@
                    == record.layer_neighbors(l),
    {
        let layer_count = record.header.layer_count as usize;
        let mut layers: Vec<Vec<NodeId>> = Vec::with_capacity(layer_count);
        let mut l: usize = 0;
        while l < layer_count
            invariant
                l <= layer_count,
                layer_count == record.header.layer_count,
                record.wf(),
                layers@.len() == l,
                forall|j: int| 0 <= j < l ==> (#[trigger] layers@[j])@ == record.layer_neighbors(j),
            decreases layer_count - l,
        {
            layers.push(record.get_neighbors(l));
            l = l + 1;
        }
        Node { id: record.header.node_id, offset: 0, layers }
    }
}

/// The slots that the bytes of a record hold, `total` of them.
pub open spec fn decoded_slots(bytes: Seq<u8>, total: nat) -> Seq<u64> {
    Seq::new(total, |i: int| id_at(bytes, 16 + 8 * i))
}

/// Bytes laid out as `to_bytes` lays out a record decode to that record.
pub proof fn lemma_record_bytes_decode(rec: NodeRecord, bytes: Seq<u8>)
    requires
        rec.wf(),
        bytes.len() >= 16 + 8 * rec.neighbors@.len(),
        bytes.subrange(0, 16) == node_header_bytes(rec.header),
        forall|i: int|
            0 <= i < rec.neighbors@.len() ==> #[trigger] bytes.subrange(16 + 8 * i, 24 + 8 * i)
                == spec_u64_to_le_bytes(rec.neighbors@[i]),
    ensures
        decode_node_header(bytes) == rec.header,
        decoded_slots(bytes, rec.params.spec_total_max_neighbors()) == rec.neighbors@,
{
    vstd::bytes::lemma_auto_spec_u64_to_from_le_bytes();
    let h = node_header_bytes(rec.header);
    assert(bytes.subrange(0, 8) =~= h.subrange(0, 8));
    assert(h.subrange(0, 8) =~= spec_u64_to_le_bytes(rec.header.node_id));
    assert(bytes[8] == h[8]);
    assert(bytes[9] == h[9]);
    let total = rec.params.spec_total_max_neighbors();
    assert forall|i: int| 0 <= i < total implies decoded_slots(bytes, total)[i] == rec.neighbors@[i] by {
        assert(bytes.subrange(16 + 8 * i, 24 + 8 * i) == spec_u64_to_le_bytes(rec.neighbors@[i]));
    }
    assert(decoded_slots(bytes, total) =~= rec.neighbors@);
}

/// Two different layers occupy disjoint slot ranges.
pub proof fn lemma_layers_disjoint(params: NodeRecordParams, a: int, b: int)
    requires
        0 <= a < params.max_layers,
        0 <= b < params.max_layers,
        a != b,
    ensures
        params.layer_start(a) + params.spec_max_neighbors(a) <= params.layer_start(b)
            || params.layer_start(b) + params.spec_max_neighbors(b) <= params.layer_start(a),
{
    if a < b {
        if a > 0 {
            assert((a - 1) * params.m + params.m <= (b - 1) * params.m) by (nonlinear_arith)
                requires
                    1 <= a < b,
                    params.m >= 0,
            ;
        }
    } else {
        if b > 0 {
            assert((b - 1) * params.m + params.m <= (a - 1) * params.m) by (nonlinear_arith)
                requires
                    1 <= b < a,
                    params.m >= 0,
            ;
        }
    }
}

/// `graph_start + node_id * record_size`.
pub open spec fn spec_node_offset(graph_start: int, node_id: int, record_size: int) -> int {
    graph_start + node_id * record_size
}

/// File offset of a node's record: `graph_start + node_id * record_size`.
pub fn compute_node_offset(graph_start: Offset, node_id: NodeId, record_size: usize) -> (r: Offset)
    requires
        graph_start + node_id * record_size <= u64::MAX,
    ensures
        r == spec_node_offset(graph_start as int, node_id as int, record_size as int),
{
    proof {
        assert(node_id * record_size <= u64::MAX) by (nonlinear_arith)
            requires
                graph_start + node_id * record_size <= u64::MAX,
                graph_start >= 0,
        ;
    }
    graph_start + node_id * record_size as u64
}

} // verus!
