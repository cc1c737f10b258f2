//! The file header: the first page of an index file.
//!
//! Layout, little-endian: `magic[8] = "CHASSIS\0"`, `version: u32`,
//! `dimensions: u32`, `count: u64`, then zeros up to 4096 bytes.
use vstd::bytes::{
    spec_u32_from_le_bytes, spec_u32_to_le_bytes, spec_u64_from_le_bytes, spec_u64_to_le_bytes,
    u32_from_le_bytes, u32_to_le_bytes, u64_from_le_bytes, u64_to_le_bytes,
};
use vstd::prelude::*;
use vstd::slice::slice_subrange;

verus! {

broadcast use vstd::seq_lib::group_seq_properties;

/// Magic bytes at the start of every index file: `CHASSIS\0`.
pub const MAGIC: [u8; 8] = [0x43, 0x48, 0x41, 0x53, 0x53, 0x49, 0x53, 0x00];

/// Current file format version.
pub const VERSION: u32 = 1;

/// Largest number of dimensions a file may declare.
pub const MAX_DIMENSIONS: u32 = 4096;

/// Size of the file header: one page.
pub const HEADER_SIZE: usize = 4096;

/// Offset of the `count` field inside the header.
pub const COUNT_OFFSET: usize = 16;

/// The magic bytes as a sequence.
pub open spec fn magic_seq() -> Seq<u8> {
    seq![0x43u8, 0x48u8, 0x41u8, 0x53u8, 0x53u8, 0x49u8, 0x53u8, 0x00u8]
}

/// The file header.
#[derive(Debug, Clone, Copy)]
pub struct Header {
    /// Magic bytes identifying the file type.
    pub magic: [u8; 8],
    /// File format version.
    pub version: u32,
    /// Number of dimensions of every vector.
    pub dimensions: u32,
    /// Number of vectors stored.
    pub count: u64,
}

/// The header that a page of bytes holds.
pub open spec fn decode_header_fields(bytes: Seq<u8>) -> (Seq<u8>, u32, u32, u64) {
    (
        bytes.subrange(0, 8),
        spec_u32_from_le_bytes(bytes.subrange(8, 12)),
        spec_u32_from_le_bytes(bytes.subrange(12, 16)),
        spec_u64_from_le_bytes(bytes.subrange(16, 24)),
    )
}

/// Whether a header with these fields is accepted: the magic matches, the
/// version is known, and `0 < dimensions <= MAX_DIMENSIONS`.
pub open spec fn header_fields_valid(magic: Seq<u8>, version: u32, dimensions: u32) -> bool {
    &&& magic == magic_seq()
    &&& 0 < version <= VERSION
    &&& 0 < dimensions <= MAX_DIMENSIONS
}

impl Header {
    /// The fields of the header as plain values.
    pub open spec fn fields(&self) -> (Seq<u8>, u32, u32, u64) {
        (self.magic@, self.version, self.dimensions, self.count)
    }

    /// Whether the header is accepted.
    pub open spec fn spec_is_valid(&self) -> bool {
        header_fields_valid(self.magic@, self.version, self.dimensions)
    }

    /// A header for an empty file of vectors of `dimensions` components.
    pub fn new(dimensions: u32) -> (r: Self)
        ensures
            r.magic@ == magic_seq(),
            r.version == VERSION,
            r.dimensions == dimensions,
            r.count == 0,
    {
        let r = Header { magic: MAGIC, version: VERSION, dimensions, count: 0 };
        assert(r.magic@ =~= magic_seq());
        r
    }

    /// Whether the magic, version and dimensions are acceptable.
    pub fn is_valid(&self) -> (r: bool)
        ensures
            r == self.spec_is_valid(),
    {
        magic_matches(self.magic.as_slice()) && self.version > 0 && self.version <= VERSION
            && self.dimensions > 0 && self.dimensions <= MAX_DIMENSIONS
    }

    /// Copies every field from `other`.
    pub fn copy_from(&mut self, other: &Header)
        ensures
            final(self).fields() == other.fields(),
    {
        self.magic = other.magic;
        self.version = other.version;
        self.dimensions = other.dimensions;
        self.count = other.count;
    }

    /// The header as the 4096 bytes of the first page.
    pub fn to_bytes(&self) -> (r: Vec<u8>)
        ensures
            r@.len() == HEADER_SIZE,
            decode_header_fields(r@) == self.fields(),
            forall|i: int| 24 <= i < HEADER_SIZE ==> r@[i] == 0,
    {
        proof {
            vstd::bytes::lemma_auto_spec_u32_to_from_le_bytes();
            vstd::bytes::lemma_auto_spec_u64_to_from_le_bytes();
        }
        let mut out: Vec<u8> = Vec::with_capacity(HEADER_SIZE);
        let mut i: usize = 0;
        while i < 8
            invariant
                i <= 8,
                out@ == self.magic@.subrange(0, i as int),
            decreases 8 - i,
        {
            out.push(self.magic[i]);
            i = i + 1;
            assert(out@ =~= self.magic@.subrange(0, i as int));
        }
        let mut v = u32_to_le_bytes(self.version);
        out.append(&mut v);
        let mut d = u32_to_le_bytes(self.dimensions);
        out.append(&mut d);
        let mut c = u64_to_le_bytes(self.count);
        out.append(&mut c);
        let ghost front = out@;
        assert(front =~= self.magic@ + spec_u32_to_le_bytes(self.version) + spec_u32_to_le_bytes(
            self.dimensions,
        ) + spec_u64_to_le_bytes(self.count));
        while out.len() < HEADER_SIZE
            invariant
                24 <= out@.len() <= HEADER_SIZE,
                out@.subrange(0, 24) == front,
                forall|k: int| 24 <= k < out@.len() ==> out@[k] == 0,
            decreases HEADER_SIZE - out@.len(),
        {
            out.push(0);
            assert(out@.subrange(0, 24) =~= front);
        }
        proof {
            assert(out@.subrange(0, 8) =~= front.subrange(0, 8));
            assert(front.subrange(0, 8) =~= self.magic@);
            assert(out@.subrange(8, 12) =~= front.subrange(8, 12));
            assert(out@.subrange(12, 16) =~= front.subrange(12, 16));
            assert(out@.subrange(16, 24) =~= front.subrange(16, 24));
            assert(out@.subrange(8, 12) =~= spec_u32_to_le_bytes(self.version));
            assert(out@.subrange(12, 16) =~= spec_u32_to_le_bytes(self.dimensions));
            assert(out@.subrange(16, 24) =~= spec_u64_to_le_bytes(self.count));
        }
        out
    }

    /// Reads the header fields from the front of a page; `None` when fewer
    /// than 24 bytes are given.
    pub fn from_bytes(bytes: &[u8]) -> (r: Option<Header>)
        ensures
            r is Some <==> bytes@.len() >= 24,
            r is Some ==> r->Some_0.fields() == decode_header_fields(bytes@),
    {
        if bytes.len() < 24 {
            return None;
        }
        let mut magic: [u8; 8] = [0u8; 8];
        let mut i: usize = 0;
        while i < 8
            invariant
                i <= 8,
                bytes@.len() >= 24,
                forall|k: int| 0 <= k < i ==> magic@[k] == bytes@[k],
            decreases 8 - i,
        {
            magic.set(i, bytes[i]);
            i = i + 1;
        }
        let version = u32_from_le_bytes(slice_subrange(bytes, 8, 12));
        let dimensions = u32_from_le_bytes(slice_subrange(bytes, 12, 16));
        let count = u64_from_le_bytes(slice_subrange(bytes, 16, 24));
        let h = Header { magic, version, dimensions, count };
        assert(h.magic@ =~= bytes@.subrange(0, 8));
        Some(h)
    }
}

/// Whether `m` holds the magic bytes.
pub fn magic_matches(m: &[u8]) -> (r: bool)
    ensures
        r == (m@ == magic_seq()),
{
    if m.len() != 8 {
        return false;
    }
    let mut i: usize = 0;
    while i < 8
        invariant
            i <= 8,
            m@.len() == 8,
            forall|k: int| 0 <= k < i ==> m@[k] == magic_seq()[k],
        decreases 8 - i,
    {
        if m[i] != MAGIC[i] {
            return false;
        }
        i = i + 1;
    }
    assert(m@ =~= magic_seq());
    true
}

} // verus!
