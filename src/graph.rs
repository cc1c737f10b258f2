//! The HNSW graph zone: a 64-byte graph header at `GRAPH_ZONE_START`, then
//! one fixed-width record per node, node `id` at
//! `GRAPH_ZONE_START + 64 + id * record_size`.
//!
//! Graph header layout, little-endian: `magic[4] = "HNSW"`, `version: u32`,
//! `entry_point: u64` (the sentinel when empty), `node_count: u64`,
//! `max_layer: u32`, `m: u16`, `m0: u16`, `max_layers: u8`, 31 zero bytes.
use crate::distance::VectorDistance;
use crate::error::ChassisError;
use crate::node::{
    decode_node_header, decoded_slots, id_at, layer_slots, lemma_record_bytes_decode, occupied, NodeHeader, NodeId, NodeRecord,
    NodeRecordParams, Offset, INVALID_NODE_ID,
};
use crate::storage::{Storage, GRAPH_ZONE_START};
use vstd::bytes::{
    spec_u16_from_le_bytes, spec_u16_to_le_bytes, spec_u32_from_le_bytes, spec_u32_to_le_bytes,
    spec_u64_from_le_bytes, spec_u64_to_le_bytes, u16_from_le_bytes, u16_to_le_bytes, u32_from_le_bytes,
    u32_to_le_bytes, u64_from_le_bytes, u64_to_le_bytes,
};
use vstd::prelude::*;
use vstd::slice::slice_subrange;

verus! {

broadcast use vstd::seq_lib::group_seq_properties;

/// Size of the graph header in bytes.
pub const GRAPH_HEADER_SIZE: usize = 64;

/// Magic bytes of the graph header: `HNSW`.
pub const GRAPH_MAGIC: [u8; 4] = [0x48, 0x4e, 0x53, 0x57];

/// Current graph format version.
pub const GRAPH_VERSION: u32 = 1;

/// The graph magic as a sequence.
pub open spec fn graph_magic_seq() -> Seq<u8> {
    seq![0x48u8, 0x4eu8, 0x53u8, 0x57u8]
}

/// HNSW construction parameters.
#[derive(Debug, Clone, Copy)]
pub struct HnswParams {
    /// Maximum connections per node on the upper layers (M); layer 0 has twice as many.
    pub max_connections: u16,
    /// Size of the candidate list while inserting.
    pub ef_construction: usize,
    /// Size of the candidate list while searching.
    pub ef_search: usize,
    /// Number of layers a record has room for.
    pub max_layers: u8,
}

impl Default for HnswParams {
    fn default() -> (r: Self)
        ensures
            r.max_connections == 16 && r.ef_construction == 200 && r.ef_search == 50 && r.max_layers
                == 16,
    {
        HnswParams { max_connections: 16, ef_construction: 200, ef_search: 50, max_layers: 16 }
    }
}

impl HnswParams {
    /// The record shape: `m = M`, `m0 = 2 * M`.
    pub open spec fn spec_record_params(self) -> NodeRecordParams {
        NodeRecordParams {
            m: self.max_connections,
            m0: (2 * self.max_connections) as u16,
            max_layers: self.max_layers,
        }
    }

    /// The record shape: `m = M`, `m0 = 2 * M`.
    pub fn to_record_params(&self) -> (r: NodeRecordParams)
        requires
            self.max_connections <= 0x7fff,
        ensures
            r == self.spec_record_params(),
    {
        NodeRecordParams::new(self.max_connections, self.max_connections * 2, self.max_layers)
    }
}

/// The graph header.
#[derive(Debug, Clone, Copy)]
pub struct GraphHeader {
    /// Magic bytes (`HNSW`).
    pub magic: [u8; 4],
    /// Format version.
    pub version: u32,
    /// Entry point node id, the sentinel when the graph is empty.
    pub entry_point: NodeId,
    /// Number of published nodes.
    pub node_count: u64,
    /// Highest layer in the graph.
    pub max_layer: u32,
    /// Maximum connections per upper layer.
    pub m: u16,
    /// Maximum connections on layer 0.
    pub m0: u16,
    /// Number of layers a record has room for.
    pub max_layers: u8,
}

/// Whether `bytes` hold the fields of `h` at their places.
pub open spec fn graph_header_matches(h: GraphHeader, bytes: Seq<u8>) -> bool {
    &&& bytes.len() >= GRAPH_HEADER_SIZE
    &&& h.magic@ == bytes.subrange(0, 4)
    &&& h.version == spec_u32_from_le_bytes(bytes.subrange(4, 8))
    &&& h.entry_point == spec_u64_from_le_bytes(bytes.subrange(8, 16))
    &&& h.node_count == spec_u64_from_le_bytes(bytes.subrange(16, 24))
    &&& h.max_layer == spec_u32_from_le_bytes(bytes.subrange(24, 28))
    &&& h.m == spec_u16_from_le_bytes(bytes.subrange(28, 30))
    &&& h.m0 == spec_u16_from_le_bytes(bytes.subrange(30, 32))
    &&& h.max_layers == bytes[32]
}

impl GraphHeader {
    /// Whether the magic and version are the current ones.
    pub open spec fn spec_is_valid(&self) -> bool {
        self.magic@ == graph_magic_seq() && self.version == GRAPH_VERSION
    }

    /// An empty graph's header for records of these parameters.
    pub fn new(params: NodeRecordParams) -> (r: Self)
        ensures
            r.spec_is_valid(),
            r.entry_point == INVALID_NODE_ID,
            r.node_count == 0,
            r.max_layer == 0,
            r.m == params.m && r.m0 == params.m0 && r.max_layers == params.max_layers,
    {
        let r = GraphHeader {
            magic: GRAPH_MAGIC,
            version: GRAPH_VERSION,
            entry_point: INVALID_NODE_ID,
            node_count: 0,
            max_layer: 0,
            m: params.m,
            m0: params.m0,
            max_layers: params.max_layers,
        };
        assert(r.magic@ =~= graph_magic_seq());
        r
    }

    /// Whether the magic and version are the current ones.
    pub fn is_valid(&self) -> (r: bool)
        ensures
            r == self.spec_is_valid(),
    {
        let ok = self.magic[0] == 0x48 && self.magic[1] == 0x4e && self.magic[2] == 0x53 && self.magic[3]
            == 0x57;
        proof {
            if ok {
                assert(self.magic@ =~= graph_magic_seq());
            }
        }
        ok && self.version == GRAPH_VERSION
    }

    /// The 64 bytes of the header.
    pub fn to_bytes(&self) -> (r: Vec<u8>)
        ensures
            r@.len() == GRAPH_HEADER_SIZE,
            graph_header_matches(*self, r@),
            forall|i: int| 33 <= i < GRAPH_HEADER_SIZE ==> r@[i] == 0,
    {
        proof {
            vstd::bytes::lemma_auto_spec_u16_to_from_le_bytes();
            vstd::bytes::lemma_auto_spec_u32_to_from_le_bytes();
            vstd::bytes::lemma_auto_spec_u64_to_from_le_bytes();
        }
        let mut out: Vec<u8> = Vec::with_capacity(GRAPH_HEADER_SIZE);
        out.push(self.magic[0]);
        out.push(self.magic[1]);
        out.push(self.magic[2]);
        out.push(self.magic[3]);
        let mut b = u32_to_le_bytes(self.version);
        out.append(&mut b);
        let mut b = u64_to_le_bytes(self.entry_point);
        out.append(&mut b);
        let mut b = u64_to_le_bytes(self.node_count);
        out.append(&mut b);
        let mut b = u32_to_le_bytes(self.max_layer);
        out.append(&mut b);
        let mut b = u16_to_le_bytes(self.m);
        out.append(&mut b);
        let mut b = u16_to_le_bytes(self.m0);
        out.append(&mut b);
        out.push(self.max_layers);
        let ghost front = out@;
        assert(front =~= self.magic@ + spec_u32_to_le_bytes(self.version) + spec_u64_to_le_bytes(
            self.entry_point,
        ) + spec_u64_to_le_bytes(self.node_count) + spec_u32_to_le_bytes(self.max_layer)
            + spec_u16_to_le_bytes(self.m) + spec_u16_to_le_bytes(self.m0) + seq![self.max_layers]);
        while out.len() < GRAPH_HEADER_SIZE
            invariant
                33 <= out@.len() <= GRAPH_HEADER_SIZE,
                out@.subrange(0, 33) == front,
                forall|k: int| 33 <= k < out@.len() ==> out@[k] == 0,
            decreases GRAPH_HEADER_SIZE - out@.len(),
        {
            out.push(0);
            assert(out@.subrange(0, 33) =~= front);
        }
        proof {
            assert(out@.subrange(0, 4) =~= front.subrange(0, 4));
            assert(out@.subrange(4, 8) =~= front.subrange(4, 8));
            assert(out@.subrange(8, 16) =~= front.subrange(8, 16));
            assert(out@.subrange(16, 24) =~= front.subrange(16, 24));
            assert(out@.subrange(24, 28) =~= front.subrange(24, 28));
            assert(out@.subrange(28, 30) =~= front.subrange(28, 30));
            assert(out@.subrange(30, 32) =~= front.subrange(30, 32));
            assert(front.subrange(0, 4) =~= self.magic@);
            assert(front.subrange(4, 8) =~= spec_u32_to_le_bytes(self.version));
            assert(front.subrange(8, 16) =~= spec_u64_to_le_bytes(self.entry_point));
            assert(front.subrange(16, 24) =~= spec_u64_to_le_bytes(self.node_count));
            assert(front.subrange(24, 28) =~= spec_u32_to_le_bytes(self.max_layer));
            assert(front.subrange(28, 30) =~= spec_u16_to_le_bytes(self.m));
            assert(front.subrange(30, 32) =~= spec_u16_to_le_bytes(self.m0));
            assert(out@[32] == front[32]);
        }
        out
    }

    /// Reads the header fields from the first 64 bytes.
    pub fn from_bytes(bytes: &[u8]) -> (r: Result<Self, ChassisError>)
        ensures
            r is Ok <==> bytes@.len() >= GRAPH_HEADER_SIZE,
            r is Err ==> r == Err::<Self, ChassisError>(ChassisError::CorruptedGraphHeader),
            r is Ok ==> graph_header_matches(r->Ok_0, bytes@),
    {
        if bytes.len() < GRAPH_HEADER_SIZE {
            return Err(ChassisError::CorruptedGraphHeader);
        }
        let magic: [u8; 4] = [bytes[0], bytes[1], bytes[2], bytes[3]];
        let h = GraphHeader {
            magic,
            version: u32_from_le_bytes(slice_subrange(bytes, 4, 8)),
            entry_point: u64_from_le_bytes(slice_subrange(bytes, 8, 16)),
            node_count: u64_from_le_bytes(slice_subrange(bytes, 16, 24)),
            max_layer: u32_from_le_bytes(slice_subrange(bytes, 24, 28)),
            m: u16_from_le_bytes(slice_subrange(bytes, 28, 30)),
            m0: u16_from_le_bytes(slice_subrange(bytes, 30, 32)),
            max_layers: bytes[32],
        };
        assert(h.magic@ =~= bytes@.subrange(0, 4));
        Ok(h)
    }

    /// The record shape that the header declares.
    pub fn to_record_params(&self) -> (r: NodeRecordParams)
        ensures
            r == (NodeRecordParams { m: self.m, m0: self.m0, max_layers: self.max_layers }),
    {
        NodeRecordParams::new(self.m, self.m0, self.max_layers)
    }
}

/// The node count that the graph header in a mapping declares: the one it
/// stores when the graph magic is there, none otherwise.
pub open spec fn stored_node_count(bytes: Seq<u8>) -> u64 {
    let h = bytes.subrange(GRAPH_ZONE_START as int, GRAPH_ZONE_START + GRAPH_HEADER_SIZE);
    if h.subrange(0, 4) == graph_magic_seq() {
        spec_u64_from_le_bytes(h.subrange(16, 24))
    } else {
        0
    }
}

/// Whether the graph zone of a mapping starts with the graph magic.
pub open spec fn graph_magic_present(bytes: Seq<u8>) -> bool {
    bytes.subrange(GRAPH_ZONE_START as int, GRAPH_ZONE_START + 4) == graph_magic_seq()
}

/// The record parameters that the graph header in a mapping declares.
pub open spec fn stored_record_params(bytes: Seq<u8>) -> NodeRecordParams {
    let h = bytes.subrange(GRAPH_ZONE_START as int, GRAPH_ZONE_START + GRAPH_HEADER_SIZE);
    NodeRecordParams {
        m: spec_u16_from_le_bytes(h.subrange(28, 30)),
        m0: spec_u16_from_le_bytes(h.subrange(30, 32)),
        max_layers: h[32],
    }
}

/// The header bytes of the graph zone of a mapping.
pub open spec fn graph_header_bytes(bytes: Seq<u8>) -> Seq<u8> {
    bytes.subrange(GRAPH_ZONE_START as int, GRAPH_ZONE_START + GRAPH_HEADER_SIZE)
}

/// The entry point and node count of a stored graph header agree: no entry
/// point for no nodes, else an entry point below the count.
pub open spec fn stored_entry_consistent(bytes: Seq<u8>) -> bool {
    let h = graph_header_bytes(bytes);
    let entry = spec_u64_from_le_bytes(h.subrange(8, 16));
    let count = spec_u64_from_le_bytes(h.subrange(16, 24));
    if entry == INVALID_NODE_ID {
        count == 0
    } else {
        entry < count
    }
}

/// The record of node `id` in a mapping lies inside it and is addressable,
/// has a sound header, and names `id`.
pub open spec fn stored_record_sound(bytes: Seq<u8>, rp: NodeRecordParams, id: int) -> bool {
    let off = record_offset(rp, id);
    let end = off + rp.spec_record_size();
    &&& end <= bytes.len()
    &&& end <= usize::MAX
    &&& decode_node_header(bytes.subrange(off, end)).spec_is_sound()
    &&& decode_node_header(bytes.subrange(off, end)).node_id == id
}

/// The reason, if any, that the graph zone of a mapping cannot be opened with
/// `params`: parameters records cannot be shaped by, no room for the graph
/// header, or a present header with another version, other record
/// parameters, an entry point that disagrees with its count, or a published
/// record that is out of range or unsound. A zone without the graph magic
/// opens as a new, empty graph.
pub open spec fn graph_open_check(bytes: Seq<u8>, params: HnswParams) -> Option<ChassisError> {
    let h = graph_header_bytes(bytes);
    let rp = params.spec_record_params();
    if params.max_connections > 0x7fff {
        Some(ChassisError::InvalidParams)
    } else if bytes.len() < GRAPH_ZONE_START + GRAPH_HEADER_SIZE {
        Some(
            ChassisError::MappingTooSmall {
                required: crate::storage::spec_page_align((GRAPH_ZONE_START + GRAPH_HEADER_SIZE) as nat) as u64,
            },
        )
    } else if !graph_magic_present(bytes) {
        None
    } else if spec_u32_from_le_bytes(h.subrange(4, 8)) != GRAPH_VERSION {
        Some(ChassisError::CorruptedGraphHeader)
    } else if stored_record_params(bytes) != rp {
        Some(ChassisError::ParamsMismatch)
    } else if !stored_entry_consistent(bytes) {
        Some(ChassisError::CorruptedGraphHeader)
    } else if !(forall|id: int|
        0 <= id < stored_node_count(bytes) ==> #[trigger] stored_record_sound(bytes, rp, id)) {
        Some(ChassisError::InvalidRecord)
    } else {
        None
    }
}

/// Records of different nodes do not overlap: updating the record of
/// `changed` keeps the record of any other node.
pub proof fn lemma_other_record_kept(before: HnswGraph, after: HnswGraph, changed: int, kept: int)
    requires
        changed != kept,
        changed >= 0,
        kept >= 0,
        after.record_params == before.record_params,
        after.storage.bytes().len() == before.storage.bytes().len(),
        forall|k: int|
            0 <= k < before.storage.bytes().len() && !(record_offset(before.record_params, changed) <= k
                < record_offset(before.record_params, changed) + before.record_params.spec_record_size())
                ==> after.storage.bytes()[k] == before.storage.bytes()[k],
        record_offset(before.record_params, kept) + before.record_params.spec_record_size()
            <= before.storage.bytes().len(),
    ensures
        after.stored_header(kept) == before.stored_header(kept),
        after.stored_slots(kept) == before.stored_slots(kept),
        after.record_bytes(kept) == before.record_bytes(kept),
{
    let rs = before.record_params.spec_record_size() as int;
    let oc = record_offset(before.record_params, changed);
    let ok = record_offset(before.record_params, kept);
    assert(ok + rs <= oc || oc + rs <= ok) by (nonlinear_arith)
        requires
            changed != kept,
            oc == GRAPH_ZONE_START + 64 + changed * rs,
            ok == GRAPH_ZONE_START + 64 + kept * rs,
            rs >= 0,
    ;
    assert(after.record_bytes(kept) =~= before.record_bytes(kept));
}

/// Records lie past the start of the graph zone, so a change that keeps the
/// bytes from there on keeps every record as sound as it was.
pub proof fn lemma_records_kept(before: HnswGraph, after: HnswGraph)
    requires
        after.record_params == before.record_params,
        after.storage.bytes().len() == before.storage.bytes().len(),
        forall|k: int|
            GRAPH_ZONE_START <= k < before.storage.bytes().len() ==> after.storage.bytes()[k]
                == before.storage.bytes()[k],
    ensures
        forall|id: int| 0 <= id ==> #[trigger] after.record_sound(id) == before.record_sound(id),
{
    assert forall|id: int| 0 <= id implies #[trigger] after.record_sound(id) == before.record_sound(id) by {
        lemma_record_offset_past_header(before.record_params, id);
        let off = record_offset(before.record_params, id);
        let end = off + before.record_params.spec_record_size();
        if end <= before.storage.bytes().len() {
            assert(after.storage.bytes().subrange(off, end) =~= before.storage.bytes().subrange(off, end));
        }
    }
}

/// Every record lies past the graph header.
pub proof fn lemma_record_offset_past_header(rp: NodeRecordParams, id: int)
    requires
        id >= 0,
    ensures
        record_offset(rp, id) >= GRAPH_ZONE_START + GRAPH_HEADER_SIZE,
{
    assert(id * rp.spec_record_size() >= 0) by (nonlinear_arith)
        requires
            id >= 0,
    ;
}

/// Offset of the record of node `id`.
pub open spec fn record_offset(rp: NodeRecordParams, id: int) -> int {
    GRAPH_ZONE_START + GRAPH_HEADER_SIZE + id * rp.spec_record_size()
}

/// Consecutive records lie exactly one record size apart.
pub proof fn lemma_node_offset_step(rp: NodeRecordParams, a: int)
    ensures
        record_offset(rp, a + 1) - record_offset(rp, a) == rp.spec_record_size(),
{
    assert((a + 1) * rp.spec_record_size() == a * rp.spec_record_size() + rp.spec_record_size())
        by (nonlinear_arith);
}

/// The HNSW graph over its storage.
#[derive(Debug)]
pub struct HnswGraph {
    /// The vectors and the mapping the graph zone lives in.
    pub storage: Storage,
    /// Construction parameters.
    pub params: HnswParams,
    /// Shape of every node record.
    pub record_params: NodeRecordParams,
    /// Entry point of every search, the node on the highest layer.
    pub entry_point: Option<NodeId>,
    /// Highest layer of the graph.
    pub max_layer: usize,
    /// Number of published nodes.
    pub node_count: u64,
}

/// A zero-copy cursor over the neighbour slots of one layer of a record.
pub struct NeighborIterator<'a> {
    bytes: &'a [u8],
    start_offset: usize,
    count: usize,
    pos: usize,
}

impl<'a> NeighborIterator<'a> {
    /// Slots not yet looked at.
    pub closed spec fn remaining(&self) -> nat {
        if self.pos <= self.count {
            (self.count - self.pos) as nat
        } else {
            0
        }
    }

    /// The slots not yet looked at.
    pub closed spec fn slot_run(&self) -> Seq<u64> {
        Seq::new(self.remaining(), |k: int| id_at(self.bytes@, self.start_offset + 8 * (self.pos + k)))
    }

    /// The neighbours the cursor has still to yield, in order.
    pub closed spec fn rest(&self) -> Seq<u64> {
        self.slot_run().filter(occupied())
    }

    /// The slots the cursor walks lie inside its bytes.
    pub closed spec fn iter_wf(&self) -> bool {
        self.pos <= self.count && self.start_offset + 8 * self.count <= self.bytes@.len()
    }

    /// The next occupied slot, skipping empty ones.
    pub fn next(&mut self) -> (r: Option<NodeId>)
        ensures
            r is Some ==> r->Some_0 != INVALID_NODE_ID && final(self).remaining() < old(self).remaining(),
            r is None ==> final(self).remaining() == 0,
            old(self).iter_wf() ==> final(self).iter_wf(),
            old(self).iter_wf() ==> (r is None <==> old(self).rest().len() == 0),
            old(self).iter_wf() && r is Some ==> old(self).rest().len() > 0 && r->Some_0 == old(
                self,
            ).rest()[0] && final(self).rest() == old(self).rest().drop_first(),
    {
        while self.pos < self.count
            invariant
                self.remaining() <= old(self).remaining(),
                self.bytes == old(self).bytes,
                self.start_offset == old(self).start_offset,
                self.count == old(self).count,
                old(self).iter_wf() ==> self.iter_wf() && self.rest() == old(self).rest(),
            decreases self.count - self.pos,
        {
            let pos = self.pos;
            let ghost before = *self;
            self.pos = pos + 1;
            proof {
                if before.iter_wf() {
                    assert(before.slot_run() =~= seq![id_at(self.bytes@, self.start_offset + 8 * pos)]
                        + self.slot_run());
                    self.slot_run().lemma_filter_prepend(
                        id_at(self.bytes@, self.start_offset + 8 * pos),
                        occupied(),
                    );
                }
            }
            if self.start_offset <= self.bytes.len() && pos <= (self.bytes.len() - self.start_offset) / 8 {
                let offset = self.start_offset + pos * 8;
                if offset <= self.bytes.len() && 8 <= self.bytes.len() - offset {
                    let id = u64_from_le_bytes(slice_subrange(self.bytes, offset, offset + 8));
                    if id != INVALID_NODE_ID {
                        proof {
                            if before.iter_wf() {
                                assert(id == id_at(self.bytes@, self.start_offset + 8 * pos));
                                assert(before.rest() =~= seq![id] + self.rest());
                                assert((seq![id] + self.rest()).drop_first() =~= self.rest());
                            }
                        }
                        return Some(id);
                    }
                    proof {
                        if before.iter_wf() {
                            assert(id == id_at(self.bytes@, self.start_offset + 8 * pos));
                            assert(before.rest() =~= self.rest());
                        }
                    }
                } else {
                    proof {
                        assert(!before.iter_wf());
                    }
                }
            } else {
                proof {
                    assert(!before.iter_wf()) by (nonlinear_arith)
                        requires
                            before.iter_wf() ==> before.start_offset + 8 * before.count <= before.bytes@.len(),
                            pos < before.count,
                            !(before.start_offset <= before.bytes@.len() && pos <= (before.bytes@.len()
                                - before.start_offset) / 8),
                    ;
                }
            }
        }
        proof {
            if old(self).iter_wf() {
                assert(self.slot_run() =~= Seq::<u64>::empty());
                assert(self.slot_run().filter(occupied()) =~= Seq::<u64>::empty()) by {
                    reveal(Seq::filter);
                }
            }
        }
        None
    }
}

impl HnswGraph {
    /// The graph header lies in the mapping, the records have the shape that
    /// the parameters give, and the entry point is a published node.
    pub open spec fn wf(&self) -> bool {
        &&& self.storage.wf()
        &&& self.params.max_connections <= 0x7fff
        &&& self.record_params == self.params.spec_record_params()
        &&& GRAPH_ZONE_START + GRAPH_HEADER_SIZE <= self.storage.bytes().len()
        &&& (self.entry_point matches Some(e) ==> e < self.node_count)
        &&& (self.node_count > 0 ==> self.entry_point is Some)
        &&& forall|id: int| 0 <= id < self.node_count ==> #[trigger] self.record_sound(id)
    }

    /// The record of node `id` lies in the mapping, has a sound header, and
    /// names `id` as its node.
    pub open spec fn record_sound(&self, id: int) -> bool {
        stored_record_sound(self.storage.bytes(), self.record_params, id)
    }

    /// Every published node's vector is stored.
    pub open spec fn vectors_cover(&self) -> bool {
        self.node_count <= self.storage.spec_count()
    }

    /// The bytes of the record of node `id`.
    pub open spec fn record_bytes(&self, id: int) -> Seq<u8> {
        let off = record_offset(self.record_params, id);
        self.storage.bytes().subrange(off, off + self.record_params.spec_record_size())
    }

    /// Whether the record of node `id` lies inside the mapping and is addressable.
    pub open spec fn record_in_range(&self, id: int) -> bool {
        let end = record_offset(self.record_params, id) + self.record_params.spec_record_size();
        end <= self.storage.bytes().len() && end <= usize::MAX
    }

    /// The header of the record of node `id`.
    pub open spec fn stored_header(&self, id: int) -> NodeHeader {
        decode_node_header(self.record_bytes(id))
    }

    /// The neighbour slots of the record of node `id`.
    pub open spec fn stored_slots(&self, id: int) -> Seq<u64> {
        decoded_slots(self.record_bytes(id), self.record_params.spec_total_max_neighbors())
    }

    /// Opens the graph zone of `storage`: writes a fresh graph header when
    /// none is there, otherwise checks its version and record parameters
    /// against `params` and loads the entry point, top layer and node count.
    pub fn open(storage: Storage, params: HnswParams) -> (r: Result<HnswGraph, ChassisError>)
        requires
            storage.wf(),
        ensures
            r is Ok <==> graph_open_check(storage.bytes(), params) is None,
            r is Err ==> graph_open_check(storage.bytes(), params) == Some(r->Err_0),
            r is Ok ==> {
                let g = r->Ok_0;
                &&& g.wf()
                &&& g.params == params
                &&& g.storage.spec_count() == storage.spec_count()
                &&& g.storage.spec_dims() == storage.spec_dims()
                &&& g.storage.vectors() == storage.vectors()
                &&& g.node_count == stored_node_count(storage.bytes())
                &&& g.storage.bytes().len() == storage.bytes().len()
                &&& (graph_magic_present(storage.bytes()) ==> stored_record_params(storage.bytes())
                    == params.spec_record_params())
            },
    {
        if params.max_connections > 0x7fff {
            return Err(ChassisError::InvalidParams);
        }
        let record_params = params.to_record_params();
        let header_end = GRAPH_ZONE_START + GRAPH_HEADER_SIZE as u64;
        match storage.ensure_graph_capacity(header_end) {
            Ok(()) => {},
            Err(e) => {
                return Err(e);
            },
        }
        let mut storage = storage;
        let zone = match storage.graph_zone(GRAPH_ZONE_START as usize, GRAPH_HEADER_SIZE) {
            Ok(z) => z,
            Err(e) => {
                return Err(e);
            },
        };
        let header = match GraphHeader::from_bytes(zone) {
            Ok(h) => h,
            Err(e) => {
                return Err(e);
            },
        };
        let present = header.magic[0] == 0x48 && header.magic[1] == 0x4e && header.magic[2] == 0x53
            && header.magic[3] == 0x57;
        proof {
            assert(zone@ == graph_header_bytes(storage.bytes()));
            assert(graph_header_matches(header, graph_header_bytes(storage.bytes())));
            let h = storage.bytes().subrange(GRAPH_ZONE_START as int, GRAPH_ZONE_START + GRAPH_HEADER_SIZE);
            assert(zone@ == h);
            assert(h.subrange(0, 4) == header.magic@);
            assert(storage.bytes().subrange(GRAPH_ZONE_START as int, GRAPH_ZONE_START + 4) =~= h.subrange(
                0,
                4,
            ));
            if present {
                assert(header.magic@ =~= graph_magic_seq());
            } else {
                assert(header.magic@ != graph_magic_seq()) by {
                    if header.magic@ == graph_magic_seq() {
                        assert(header.magic@[0] == 0x48u8);
                        assert(header.magic@[1] == 0x4eu8);
                        assert(header.magic@[2] == 0x53u8);
                        assert(header.magic@[3] == 0x57u8);
                    }
                }
            }
        }
        if present {
            if header.version != GRAPH_VERSION {
                return Err(ChassisError::CorruptedGraphHeader);
            }
            if header.to_record_params() != record_params {
                return Err(ChassisError::ParamsMismatch);
            }
            let entry_point = if header.entry_point == INVALID_NODE_ID {
                None
            } else {
                Some(header.entry_point)
            };
            match entry_point {
                Some(e) => {
                    if e >= header.node_count {
                        return Err(ChassisError::CorruptedGraphHeader);
                    }
                },
                None => {
                    if header.node_count > 0 {
                        return Err(ChassisError::CorruptedGraphHeader);
                    }
                },
            }
            let graph = HnswGraph {
                storage,
                params,
                record_params,
                entry_point,
                max_layer: header.max_layer as usize,
                node_count: header.node_count,
            };
            proof {
                assert(stored_node_count(graph.storage.bytes()) == header.node_count);
                assert(stored_record_params(graph.storage.bytes()) == record_params);
                assert(stored_entry_consistent(graph.storage.bytes()));
            }
            if !graph.scan_records() {
                return Err(ChassisError::InvalidRecord);
            }
            proof {
                assert(forall|id: int|
                    0 <= id < stored_node_count(graph.storage.bytes()) ==> #[trigger] stored_record_sound(
                        graph.storage.bytes(),
                        params.spec_record_params(),
                        id,
                    ) == graph.record_sound(id));
            }
            Ok(graph)
        } else {
            let fresh = GraphHeader::new(record_params);
            let bytes = fresh.to_bytes();
            match storage.write_graph_zone(GRAPH_ZONE_START as usize, bytes.as_slice()) {
                Ok(()) => {},
                Err(e) => {
                    return Err(e);
                },
            }
            Ok(
                HnswGraph {
                    storage,
                    params,
                    record_params,
                    entry_point: None,
                    max_layer: 0,
                    node_count: 0,
                },
            )
        }
    }

    /// Whether the record of every published node lies in the mapping, has a
    /// sound header and names its node.
    fn scan_records(&self) -> (r: bool)
        ensures
            r == forall|id: int| 0 <= id < self.node_count ==> #[trigger] self.record_sound(id),
    {
        let mut id: u64 = 0;
        while id < self.node_count
            invariant
                id <= self.node_count,
                forall|j: int| 0 <= j < id ==> #[trigger] self.record_sound(j),
            decreases self.node_count - id,
        {
            let off = match self.record_span(id) {
                Some(o) => o,
                None => {
                    assert(!self.record_sound(id as int));
                    return false;
                },
            };
            let rs = self.record_params.record_size();
            let bytes = match self.storage.graph_zone(off, rs) {
                Ok(b) => b,
                Err(_) => {
                    assert(!self.record_sound(id as int));
                    return false;
                },
            };
            assert(bytes@ == self.record_bytes(id as int));
            match NodeHeader::from_bytes(bytes) {
                Ok(h) => {
                    if h.node_id != id {
                        assert(!self.record_sound(id as int));
                        return false;
                    }
                },
                Err(_) => {
                    assert(!self.record_sound(id as int));
                    return false;
                },
            }
            assert(self.record_sound(id as int));
            id = id + 1;
        }
        true
    }

    /// Replaces the mapping with one of the grown file. The new mapping must
    /// hold the same file header and vector count, be at least as long, and
    /// hold a sound record for every published node; otherwise the graph
    /// keeps its mapping.
    pub fn remap(&mut self, map: memmap2::MmapMut) -> (r: Result<(), ChassisError>)
        requires
            old(self).wf(),
        ensures
            final(self).wf(),
            final(self).node_count == old(self).node_count,
            final(self).entry_point == old(self).entry_point,
            final(self).max_layer == old(self).max_layer,
            final(self).params == old(self).params,
            final(self).record_params == old(self).record_params,
            final(self).storage.spec_count() == old(self).storage.spec_count(),
            final(self).storage.spec_dims() == old(self).storage.spec_dims(),
            r is Err ==> *final(self) == *old(self),
            r is Ok ==> final(self).storage.bytes() == crate::mapping::mapped_bytes(map)
                && final(self).storage.bytes().len() >= old(self).storage.bytes().len(),
    {
        let mut candidate = match Storage::open(map, self.storage.dimensions()) {
            Ok(s) => s,
            Err(e) => {
                return Err(e);
            },
        };
        if candidate.count() != self.storage.count() || candidate.mapped_len() < self.storage.mapped_len() {
            return Err(ChassisError::CorruptedHeader);
        }
        core::mem::swap(&mut self.storage, &mut candidate);
        if !self.scan_records() {
            core::mem::swap(&mut self.storage, &mut candidate);
            return Err(ChassisError::InvalidRecord);
        }
        Ok(())
    }

    /// Reads the graph header from the mapping, checking its magic and version.
    pub fn read_graph_header(&self) -> (r: Result<GraphHeader, ChassisError>)
        requires
            self.wf(),
        ensures
            r is Ok ==> r->Ok_0.spec_is_valid() && graph_header_matches(
                r->Ok_0,
                self.storage.bytes().subrange(
                    GRAPH_ZONE_START as int,
                    GRAPH_ZONE_START + GRAPH_HEADER_SIZE,
                ),
            ),
    {
        let zone = match self.storage.graph_zone(GRAPH_ZONE_START as usize, GRAPH_HEADER_SIZE) {
            Ok(z) => z,
            Err(e) => {
                return Err(e);
            },
        };
        let header = match GraphHeader::from_bytes(zone) {
            Ok(h) => h,
            Err(e) => {
                return Err(e);
            },
        };
        if !header.is_valid() {
            return Err(ChassisError::CorruptedGraphHeader);
        }
        Ok(header)
    }

    /// The header that describes the graph as it stands.
    pub fn current_header(&self) -> (r: GraphHeader)
        ensures
            r.spec_is_valid(),
            r.entry_point == match self.entry_point {
                Some(e) => e,
                None => INVALID_NODE_ID,
            },
            r.node_count == self.node_count,
            r.max_layer == self.max_layer as u32,
            r.m == self.record_params.m && r.m0 == self.record_params.m0 && r.max_layers
                == self.record_params.max_layers,
    {
        let mut header = GraphHeader::new(self.record_params);
        header.entry_point = match self.entry_point {
            Some(e) => e,
            None => INVALID_NODE_ID,
        };
        header.max_layer = self.max_layer as u32;
        header.node_count = self.node_count;
        header
    }

    /// Writes the graph header of the graph as it stands into the mapping.
    pub fn write_graph_header(&mut self) -> (r: Result<(), ChassisError>)
        requires
            old(self).wf(),
        ensures
            final(self).wf(),
            r is Ok,
            final(self).node_count == old(self).node_count,
            final(self).entry_point == old(self).entry_point,
            final(self).max_layer == old(self).max_layer,
            final(self).params == old(self).params,
            final(self).record_params == old(self).record_params,
            final(self).storage.vectors() == old(self).storage.vectors(),
            final(self).storage.spec_count() == old(self).storage.spec_count(),
            final(self).storage.spec_dims() == old(self).storage.spec_dims(),
            final(self).storage.bytes().len() == old(self).storage.bytes().len(),
            graph_header_matches(
                old(self).current_header_spec(),
                final(self).storage.bytes().subrange(
                    GRAPH_ZONE_START as int,
                    GRAPH_ZONE_START + GRAPH_HEADER_SIZE,
                ),
            ),
            forall|k: int|
                GRAPH_ZONE_START + GRAPH_HEADER_SIZE <= k < old(self).storage.bytes().len() ==> final(self).storage.bytes()[k] == old(self).storage.bytes()[k],
            stored_node_count(final(self).storage.bytes()) == final(self).node_count,
            graph_open_check(final(self).storage.bytes(), final(self).params) is None,
    {
        let header = self.current_header();
        let bytes = header.to_bytes();
        let r = self.storage.write_graph_zone(GRAPH_ZONE_START as usize, bytes.as_slice());
        proof {
            let b = self.storage.bytes().subrange(
                GRAPH_ZONE_START as int,
                GRAPH_ZONE_START + GRAPH_HEADER_SIZE,
            );
            assert(b =~= bytes@);
            assert forall|id: int| 0 <= id < self.node_count implies #[trigger] self.record_sound(id) by {
                assert(old(self).record_sound(id));
                lemma_record_offset_past_header(self.record_params, id);
                assert(self.record_bytes(id) =~= old(self).record_bytes(id));
            }
            let all = self.storage.bytes();
            assert(GRAPH_MAGIC@ =~= graph_magic_seq());
            assert(b.subrange(0, 4) =~= all.subrange(GRAPH_ZONE_START as int, GRAPH_ZONE_START + 4));
            assert(graph_magic_present(all));
            assert(graph_header_bytes(all) == b);
            assert(stored_node_count(all) == self.node_count);
            assert(stored_record_params(all) == self.record_params);
            assert(stored_entry_consistent(all));
            assert forall|id: int| 0 <= id < stored_node_count(all) implies #[trigger] stored_record_sound(
                all,
                self.params.spec_record_params(),
                id,
            ) by {
                assert(self.record_sound(id));
            }
        }
        r
    }

    /// The header that `current_header` returns.
    pub open spec fn current_header_spec(&self) -> GraphHeader {
        GraphHeader {
            magic: GRAPH_MAGIC,
            version: GRAPH_VERSION,
            entry_point: match self.entry_point {
                Some(e) => e,
                None => INVALID_NODE_ID,
            },
            node_count: self.node_count,
            max_layer: self.max_layer as u32,
            m: self.record_params.m,
            m0: self.record_params.m0,
            max_layers: self.record_params.max_layers,
        }
    }

    /// File offset of the record of node `node_id`:
    /// `GRAPH_ZONE_START + 64 + node_id * record_size`.
    pub fn node_offset(&self, node_id: NodeId) -> (r: Offset)
        requires
            record_offset(self.record_params, node_id as int) <= u64::MAX,
        ensures
            r == record_offset(self.record_params, node_id as int),
    {
        let rs = self.record_params.record_size() as u64;
        proof {
            assert(node_id * rs <= u64::MAX) by (nonlinear_arith)
                requires
                    GRAPH_ZONE_START + GRAPH_HEADER_SIZE + node_id * rs <= u64::MAX,
            ;
        }
        GRAPH_ZONE_START + GRAPH_HEADER_SIZE as u64 + node_id * rs
    }

    /// Offset of the record of `node_id` as a `usize`, when the whole record
    /// is addressable.
    fn record_span(&self, node_id: NodeId) -> (r: Option<usize>)
        ensures
            r is Some <==> record_offset(self.record_params, node_id as int)
                + self.record_params.spec_record_size() <= usize::MAX,
            r is Some ==> r->Some_0 == record_offset(self.record_params, node_id as int),
    {
        let rs = self.record_params.record_size() as u64;
        let base = GRAPH_ZONE_START + GRAPH_HEADER_SIZE as u64;
        if node_id > (u64::MAX - base - rs) / rs {
            proof {
                assert(node_id * rs > u64::MAX - base - rs) by (nonlinear_arith)
                    requires
                        node_id as int > (u64::MAX as int - base as int - rs as int) / rs as int,
                        rs > 0,
                ;
            }
            return None;
        }
        proof {
            assert(node_id * rs <= u64::MAX - base - rs) by (nonlinear_arith)
                requires
                    node_id as int <= (u64::MAX as int - base as int - rs as int) / rs as int,
                    rs > 0,
            ;
        }
        let off = base + node_id * rs;
        if off + rs > usize::MAX as u64 {
            return None;
        }
        Some(off as usize)
    }

    /// The bytes of a node's record, borrowed from the mapping.
    pub fn get_node_bytes(&self, node_id: NodeId) -> (r: Result<&[u8], ChassisError>)
        requires
            self.wf(),
        ensures
            r is Ok <==> self.record_in_range(node_id as int),
            r is Ok ==> r->Ok_0@ == self.record_bytes(node_id as int),
    {
        let rs = self.record_params.record_size();
        let off = match self.record_span(node_id) {
            Some(o) => o,
            None => {
                return Err(ChassisError::NodeOutOfRange { node_id });
            },
        };
        self.storage.graph_zone(off, rs)
    }

    /// Reads the record of a node from the mapping.
    pub fn read_node_record(&self, node_id: NodeId) -> (r: Result<NodeRecord, ChassisError>)
        requires
            self.wf(),
        ensures
            r is Ok <==> self.record_in_range(node_id as int) && self.stored_header(
                node_id as int,
            ).spec_is_sound(),
            r is Ok ==> {
                let rec = r->Ok_0;
                &&& rec.wf()
                &&& rec.params == self.record_params
                &&& rec.header == self.stored_header(node_id as int)
                &&& rec.neighbors@ == self.stored_slots(node_id as int)
            },
    {
        let bytes = match self.get_node_bytes(node_id) {
            Ok(b) => b,
            Err(e) => {
                return Err(e);
            },
        };
        match NodeRecord::from_bytes(bytes, self.record_params) {
            Ok(rec) => {
                assert(rec.neighbors@ =~= self.stored_slots(node_id as int));
                Ok(rec)
            },
            Err(_) => Err(ChassisError::InvalidRecord),
        }
    }

    /// Writes a record into the mapping at the place of its node id.
    pub fn write_node_record(&mut self, record: &NodeRecord) -> (r: Result<(), ChassisError>)
        requires
            old(self).wf(),
            record.wf(),
            record.params == old(self).record_params,
        ensures
            final(self).wf(),
            r is Ok <==> old(self).record_in_range(record.header.node_id as int)
                && record.header.spec_is_sound(),
            r is Err ==> *final(self) == *old(self),
            r is Ok ==> final(self).stored_header(record.header.node_id as int) == record.header
                && final(self).stored_slots(record.header.node_id as int) == record.neighbors@,
            r is Ok ==> forall|k: int|
                0 <= k < old(self).storage.bytes().len() && !(record_offset(
                    old(self).record_params,
                    record.header.node_id as int,
                ) <= k < record_offset(old(self).record_params, record.header.node_id as int)
                    + old(self).record_params.spec_record_size()) ==> final(self).storage.bytes()[k]
                    == old(self).storage.bytes()[k],
            final(self).node_count == old(self).node_count,
            final(self).entry_point == old(self).entry_point,
            final(self).max_layer == old(self).max_layer,
            final(self).params == old(self).params,
            final(self).record_params == old(self).record_params,
            final(self).storage.vectors() == old(self).storage.vectors(),
            final(self).storage.spec_count() == old(self).storage.spec_count(),
            final(self).storage.spec_dims() == old(self).storage.spec_dims(),
            final(self).storage.bytes().len() == old(self).storage.bytes().len(),
    {
        let node_id = record.header.node_id;
        if record.header.layer_count == 0 || node_id == INVALID_NODE_ID {
            return Err(ChassisError::InvalidRecord);
        }
        let off = match self.record_span(node_id) {
            Some(o) => o,
            None => {
                return Err(ChassisError::NodeOutOfRange { node_id });
            },
        };
        let rs = self.record_params.record_size();
        if self.storage.mapped_len() < off || rs > self.storage.mapped_len() - off {
            return Err(ChassisError::MappingTooSmall { required: (off + rs) as u64 });
        }
        let bytes = record.to_bytes();
        let r = self.storage.write_graph_zone(off, bytes.as_slice());
        proof {
            let rb = self.record_bytes(node_id as int);
            assert(rb =~= bytes@);
            assert(rb.subrange(0, 16) =~= bytes@.subrange(0, 16));
            assert forall|i: int| 0 <= i < record.neighbors@.len() implies #[trigger] rb.subrange(
                16 + 8 * i,
                24 + 8 * i,
            ) == spec_u64_to_le_bytes(record.neighbors@[i]) by {
                assert(rb.subrange(16 + 8 * i, 24 + 8 * i) =~= bytes@.subrange(16 + 8 * i, 24 + 8 * i));
            }
            lemma_record_bytes_decode(*record, rb);
            assert forall|id: int| 0 <= id < self.node_count implies #[trigger] self.record_sound(id) by {
                if id != node_id {
                    assert(old(self).record_sound(id));
                    lemma_other_record_kept(*old(self), *self, node_id as int, id);
                }
            }
        }
        r
    }

    /// Overwrites the record of a published node (`node_id < node_count`).
    pub fn update_node_record(&mut self, record: &NodeRecord) -> (r: Result<(), ChassisError>)
        requires
            old(self).wf(),
            record.wf(),
            record.params == old(self).record_params,
        ensures
            final(self).wf(),
            record.header.node_id >= old(self).node_count ==> r == Err::<(), ChassisError>(
                ChassisError::InvariantViolation {
                    expected: old(self).node_count,
                    actual: record.header.node_id,
                },
            ),
            r is Ok <==> record.header.node_id < old(self).node_count && old(self).record_in_range(
                record.header.node_id as int,
            ) && record.header.spec_is_sound(),
            r is Err ==> *final(self) == *old(self),
            r is Ok ==> final(self).stored_header(record.header.node_id as int) == record.header
                && final(self).stored_slots(record.header.node_id as int) == record.neighbors@,
            r is Ok ==> forall|k: int|
                0 <= k < old(self).storage.bytes().len() && !(record_offset(
                    old(self).record_params,
                    record.header.node_id as int,
                ) <= k < record_offset(old(self).record_params, record.header.node_id as int)
                    + old(self).record_params.spec_record_size()) ==> final(self).storage.bytes()[k]
                    == old(self).storage.bytes()[k],
            final(self).node_count == old(self).node_count,
            final(self).entry_point == old(self).entry_point,
            final(self).max_layer == old(self).max_layer,
            final(self).params == old(self).params,
            final(self).record_params == old(self).record_params,
            final(self).storage.vectors() == old(self).storage.vectors(),
            final(self).storage.spec_count() == old(self).storage.spec_count(),
            final(self).storage.spec_dims() == old(self).storage.spec_dims(),
            final(self).storage.bytes().len() == old(self).storage.bytes().len(),
    {
        if record.header.node_id >= self.node_count {
            return Err(
                ChassisError::InvariantViolation {
                    expected: self.node_count,
                    actual: record.header.node_id,
                },
            );
        }
        self.write_node_record(record)
    }

    /// Makes a written node visible: counts it, and makes it the entry point
    /// when it is the first node or reaches above the current top layer. The
    /// node's record must already be written, with a sound header naming it.
    pub fn publish_node(&mut self, node_id: NodeId, layer_count: usize) -> (r: Result<(), ChassisError>)
        requires
            old(self).wf(),
        ensures
            final(self).wf(),
            node_id != old(self).node_count ==> r == Err::<(), ChassisError>(
                ChassisError::InvariantViolation { expected: old(self).node_count, actual: node_id },
            ),
            node_id == old(self).node_count && layer_count == 0 ==> r == Err::<(), ChassisError>(
                ChassisError::LayerCountMismatch { expected: 1, actual: 0 },
            ),
            r is Ok <==> node_id == old(self).node_count && layer_count > 0 && node_id < u64::MAX
                && old(self).record_sound(node_id as int),
            r is Err ==> *final(self) == *old(self),
            r is Ok ==> final(self).node_count == old(self).node_count + 1 && if old(self).entry_point is None || layer_count - 1 > old(self).max_layer {
                final(self).entry_point == Some(node_id) && final(self).max_layer == layer_count - 1
            } else {
                final(self).entry_point == old(self).entry_point && final(self).max_layer == old(self).max_layer
            },
            final(self).storage == old(self).storage,
            final(self).params == old(self).params,
            final(self).record_params == old(self).record_params,
    {
        if node_id != self.node_count {
            return Err(ChassisError::InvariantViolation { expected: self.node_count, actual: node_id });
        }
        if layer_count == 0 {
            return Err(ChassisError::LayerCountMismatch { expected: 1, actual: 0 });
        }
        if node_id == u64::MAX {
            return Err(ChassisError::NodeOutOfRange { node_id });
        }
        let bytes = match self.get_node_bytes(node_id) {
            Ok(b) => b,
            Err(e) => {
                return Err(e);
            },
        };
        match NodeHeader::from_bytes(bytes) {
            Ok(h) => {
                if h.node_id != node_id {
                    return Err(ChassisError::InvalidRecord);
                }
            },
            Err(_) => {
                return Err(ChassisError::InvalidRecord);
            },
        }
        let ghost before = *self;
        self.node_count = node_id + 1;
        if self.entry_point.is_none() || layer_count - 1 > self.max_layer {
            self.entry_point = Some(node_id);
            self.max_layer = layer_count - 1;
        }
        proof {
            assert forall|id: int| 0 <= id < self.node_count implies #[trigger] self.record_sound(id) by {
                if id < before.node_count {
                    assert(before.record_sound(id));
                }
            }
        }
        Ok(())
    }

    /// Appends a node without neighbours on layers `0..=layer` at
    /// `vector_id == node_count`, and publishes it.
    pub fn insert(&mut self, vector_id: NodeId, layer: usize) -> (r: Result<(), ChassisError>)
        requires
            old(self).wf(),
        ensures
            final(self).wf(),
            vector_id != old(self).node_count ==> r == Err::<(), ChassisError>(
                ChassisError::InvariantViolation { expected: old(self).node_count, actual: vector_id },
            ),
            vector_id == old(self).node_count && layer >= old(self).record_params.max_layers ==> r
                == Err::<(), ChassisError>(
                ChassisError::LayerOutOfRange {
                    layer: layer as u64,
                    max_layers: old(self).record_params.max_layers,
                },
            ),
            r is Ok <==> vector_id == old(self).node_count && layer < old(self).record_params.max_layers && old(self).record_in_range(vector_id as int),
            r is Err ==> *final(self) == *old(self),
            r is Ok ==> {
                &&& final(self).node_count == old(self).node_count + 1
                &&& final(self).stored_header(vector_id as int) == (NodeHeader {
                    node_id: vector_id,
                    layer_count: (layer + 1) as u8,
                    flags: 0,
                })
                &&& forall|i: int|
                    0 <= i < final(self).stored_slots(vector_id as int).len() ==> final(self).stored_slots(vector_id as int)[i] == INVALID_NODE_ID
                &&& if old(self).entry_point is None || layer > old(self).max_layer {
                    final(self).entry_point == Some(vector_id) && final(self).max_layer == layer
                } else {
                    final(self).entry_point == old(self).entry_point && final(self).max_layer == old(self).max_layer
                }
            },
            final(self).storage.vectors() == old(self).storage.vectors(),
            final(self).storage.spec_count() == old(self).storage.spec_count(),
            final(self).params == old(self).params,
            final(self).record_params == old(self).record_params,
            final(self).storage.bytes().len() == old(self).storage.bytes().len(),
    {
        if vector_id != self.node_count {
            return Err(
                ChassisError::InvariantViolation { expected: self.node_count, actual: vector_id },
            );
        }
        if layer >= self.record_params.max_layers as usize {
            return Err(
                ChassisError::LayerOutOfRange {
                    layer: layer as u64,
                    max_layers: self.record_params.max_layers,
                },
            );
        }
        let record = NodeRecord::new(vector_id, (layer + 1) as u8, self.record_params);
        self.write_node(&record)
    }

    /// Writes a fresh record at `node_id == node_count` and publishes it.
    fn write_node(&mut self, record: &NodeRecord) -> (r: Result<(), ChassisError>)
        requires
            old(self).wf(),
            record.wf(),
            record.params == old(self).record_params,
            record.header.node_id == old(self).node_count,
            record.header.layer_count >= 1,
        ensures
            final(self).wf(),
            r is Ok <==> old(self).record_in_range(record.header.node_id as int),
            r is Err ==> *final(self) == *old(self),
            r is Ok ==> {
                &&& final(self).node_count == old(self).node_count + 1
                &&& final(self).stored_header(record.header.node_id as int) == record.header
                &&& final(self).stored_slots(record.header.node_id as int) == record.neighbors@
                &&& if old(self).entry_point is None || record.header.layer_count - 1 > old(self).max_layer {
                    final(self).entry_point == Some(record.header.node_id) && final(self).max_layer
                        == record.header.layer_count - 1
                } else {
                    final(self).entry_point == old(self).entry_point && final(self).max_layer == old(self).max_layer
                }
            },
            final(self).storage.vectors() == old(self).storage.vectors(),
            final(self).storage.spec_count() == old(self).storage.spec_count(),
            final(self).params == old(self).params,
            final(self).record_params == old(self).record_params,
            final(self).storage.bytes().len() == old(self).storage.bytes().len(),
    {
        proof {
            let id = record.header.node_id as int;
            let rs = self.record_params.spec_record_size() as int;
            assert(rs >= 16) by {
                self.record_params.lemma_record_size_at_least_header();
            }
            assert(id * rs >= id) by (nonlinear_arith)
                requires
                    rs >= 16,
                    id >= 0,
            ;
        }
        match self.write_node_record(record) {
            Ok(()) => {},
            Err(e) => {
                return Err(e);
            },
        }
        self.publish_node(record.header.node_id, record.header.layer_count as usize)
    }

    /// The stored record parameters.
    pub fn record_params(&self) -> (r: NodeRecordParams)
        ensures
            r == self.record_params,
    {
        self.record_params
    }

    /// Number of published nodes.
    pub fn node_count(&self) -> (r: u64)
        ensures
            r == self.node_count,
    {
        self.node_count
    }

    /// A cursor over the neighbours of `node_id` on `layer`, read straight from
    /// the mapping after the record header is checked; empty for a layer the
    /// node is not on or records have no room for.
    pub fn neighbors_iter_from_mmap(&self, node_id: NodeId, layer: usize) -> (r: Result<
        NeighborIterator<'_>,
        ChassisError,
    >)
        requires
            self.wf(),
        ensures
            r is Ok <==> self.record_in_range(node_id as int) && self.stored_header(
                node_id as int,
            ).spec_is_sound(),
            node_id < self.node_count ==> r is Ok,
            r is Ok ==> r->Ok_0.iter_wf() && r->Ok_0.rest() == self.stored_layer(node_id as int, layer as int),
    {
        proof {
            if node_id < self.node_count {
                assert(self.record_sound(node_id as int));
            }
            assert(Seq::<u64>::empty().filter(occupied()) =~= Seq::<u64>::empty()) by {
                reveal(Seq::filter);
            }
            self.record_params.lemma_record_size_at_least_header();
        }
        let bytes = match self.get_node_bytes(node_id) {
            Ok(b) => b,
            Err(e) => {
                return Err(e);
            },
        };
        let header = match NodeHeader::from_bytes(bytes) {
            Ok(h) => h,
            Err(_) => {
                return Err(ChassisError::InvalidRecord);
            },
        };
        let start_offset = match self.record_params.layer_offset(layer) {
            Some(o) => o,
            None => {
                return Ok(NeighborIterator { bytes, start_offset: 0, count: 0, pos: 0 });
            },
        };
        if layer >= header.layer_count as usize {
            return Ok(NeighborIterator { bytes, start_offset: 0, count: 0, pos: 0 });
        }
        let count = self.record_params.max_neighbors(layer);
        let it = NeighborIterator { bytes, start_offset, count, pos: 0 };
        proof {
            self.record_params.lemma_layer_fits(layer as int);
            assert(it.slot_run() =~= layer_slots(
                self.record_params,
                self.stored_slots(node_id as int),
                layer as int,
            ));
        }
        Ok(it)
    }

    /// Distance from `query` (the bytes of its components) to the stored
    /// vector of `node_id`, read in place.
    pub fn compute_distance_zero_copy<D: VectorDistance>(
        &self,
        metric: &D,
        query: &[u8],
        node_id: NodeId,
    ) -> (r: Result<u32, ChassisError>)
        requires
            self.wf(),
        ensures
            r is Ok <==> node_id < self.storage.spec_count(),
    {
        let v = match self.storage.get_vector_slice(node_id) {
            Ok(v) => v,
            Err(e) => {
                return Err(e);
            },
        };
        Ok(metric.distance(query, v))
    }
}

} // verus!
