//! Vector storage over the mapping of the index file.
//!
//! The first page holds the file header. Vector `i` occupies the
//! `dims * 4` bytes at `HEADER_SIZE + i * dims * 4`, the little-endian bytes of
//! its `f32` components. The vector zone ends before `GRAPH_ZONE_START`; the
//! graph zone lies past it. The vector bytes are always written before the
//! count that makes them visible.
use crate::error::ChassisError;
use crate::header::{decode_header_fields, header_fields_valid, magic_matches, magic_seq, Header, HEADER_SIZE};
use crate::mapping::{mapped_bytes, mapped_len, mapped_range, write_mapped_range};
use memmap2::MmapMut;
use vstd::bytes::{spec_u32_from_le_bytes, spec_u32_to_le_bytes, spec_u64_to_le_bytes, u32_to_le_bytes, u64_to_le_bytes};
use vstd::prelude::*;

verus! {

broadcast use vstd::seq_lib::group_seq_properties;

/// Granularity of file growth.
pub const PAGE_SIZE: usize = 4096;

/// Offset of the graph zone: the vector zone never reaches it.
pub const GRAPH_ZONE_START: u64 = 1073741824;

/// `x` rounded up to a whole number of pages.
pub open spec fn spec_page_align(x: nat) -> nat {
    ((x + 4095) / 4096 * 4096) as nat
}

/// `x` rounded up to a whole number of pages.
pub fn page_align(x: u64) -> (r: u64)
    requires
        x <= u64::MAX - 4095,
    ensures
        r == spec_page_align(x as nat),
        r >= x,
        r % 4096 == 0,
{
    (x + 4095) / 4096 * 4096
}

/// The words that a run of little-endian bytes holds, four bytes each.
pub open spec fn decode_words(bytes: Seq<u8>) -> Seq<u32> {
    Seq::new(bytes.len() / 4, |j: int| spec_u32_from_le_bytes(bytes.subrange(4 * j, 4 * j + 4)))
}

/// End of the vector zone when `count` vectors of `dims` components are stored.
pub open spec fn vector_zone_end(dims: nat, count: nat) -> nat {
    (HEADER_SIZE + count * dims * 4) as nat
}

/// Each word as its four little-endian bytes.
pub fn encode_words(words: &[u32]) -> (r: Vec<u8>)
    requires
        words@.len() <= 0x3fff_ffff,
    ensures
        r@.len() == 4 * words@.len(),
        decode_words(r@) == words@,
{
    proof {
        vstd::bytes::lemma_auto_spec_u32_to_from_le_bytes();
    }
    let mut out: Vec<u8> = Vec::with_capacity(4 * words.len());
    let mut i: usize = 0;
    while i < words.len()
        invariant
            i <= words@.len() <= 0x3fff_ffff,
            out@.len() == 4 * i,
            forall|j: int|
                0 <= j < i ==> #[trigger] out@.subrange(4 * j, 4 * j + 4) == spec_u32_to_le_bytes(
                    words@[j],
                ),
        decreases words@.len() - i,
    {
        let ghost prev = out@;
        let mut b = u32_to_le_bytes(words[i]);
        out.append(&mut b);
        proof {
            assert forall|j: int| 0 <= j < i + 1 implies #[trigger] out@.subrange(4 * j, 4 * j + 4)
                == spec_u32_to_le_bytes(words@[j]) by {
                if j < i {
                    assert(out@.subrange(4 * j, 4 * j + 4) =~= prev.subrange(4 * j, 4 * j + 4));
                } else {
                    assert(out@.subrange(4 * j, 4 * j + 4) =~= spec_u32_to_le_bytes(words@[j]));
                }
            }
        }
        i = i + 1;
    }
    proof {
        assert forall|j: int| 0 <= j < words@.len() implies decode_words(out@)[j] == words@[j] by {
            assert(out@.subrange(4 * j, 4 * j + 4) == spec_u32_to_le_bytes(words@[j]));
        }
        assert(decode_words(out@) =~= words@);
    }
    out
}

/// The reason, if any, that a mapping cannot be opened as a file of vectors
/// of `dims` components: a missing or wrong magic, an invalid header, other
/// dimensions, or a vector zone that overruns the mapping or the graph zone.
pub open spec fn open_check(bytes: Seq<u8>, dims: u32) -> Option<ChassisError> {
    let f = decode_header_fields(bytes);
    if bytes.len() < HEADER_SIZE || f.0 != magic_seq() {
        Some(ChassisError::NotAnIndexFile)
    } else if !header_fields_valid(f.0, f.1, f.2) {
        Some(ChassisError::CorruptedHeader)
    } else if f.2 != dims {
        Some(ChassisError::DimensionConflict { stored: f.2, requested: dims })
    } else if vector_zone_end(dims as nat, f.3 as nat) > GRAPH_ZONE_START {
        Some(ChassisError::CapacityExceeded)
    } else if vector_zone_end(dims as nat, f.3 as nat) > bytes.len() {
        Some(ChassisError::CorruptedHeader)
    } else {
        None
    }
}

/// Two byte runs that agree on their first `upto` bytes (at least the
/// magic, version and dimensions) hold the same header fields there; with
/// `upto == 24` the counts agree too.
proof fn lemma_header_fields_agree(a: Seq<u8>, b: Seq<u8>, upto: int)
    requires
        16 <= upto <= 24,
        a.len() >= 24,
        b.len() >= 24,
        forall|i: int| 0 <= i < upto ==> a[i] == b[i],
    ensures
        decode_header_fields(a).0 == decode_header_fields(b).0,
        decode_header_fields(a).1 == decode_header_fields(b).1,
        decode_header_fields(a).2 == decode_header_fields(b).2,
        upto == 24 ==> decode_header_fields(a).3 == decode_header_fields(b).3,
{
    assert(a.subrange(0, 8) =~= b.subrange(0, 8));
    assert(a.subrange(8, 12) =~= b.subrange(8, 12));
    assert(a.subrange(12, 16) =~= b.subrange(12, 16));
    if upto == 24 {
        assert(a.subrange(16, 24) =~= b.subrange(16, 24));
    }
}

/// Storage of fixed-dimension vectors in a mapped index file.
#[derive(Debug)]
pub struct Storage {
    map: MmapMut,
    dims: u32,
    count: u64,
}

/// Vectors of `dims` components before `i` end no later than vector `i` starts.
proof fn lemma_vector_before(dims: nat, i: nat, count: nat)
    requires
        i < count,
    ensures
        vector_zone_end(dims, i + 1) <= vector_zone_end(dims, count),
        vector_zone_end(dims, i + 1) == vector_zone_end(dims, i) + dims * 4,
{
    assert((i + 1) * dims * 4 <= count * dims * 4) by (nonlinear_arith)
        requires
            i < count,
    ;
    assert((i + 1) * dims * 4 == i * dims * 4 + dims * 4) by (nonlinear_arith);
}

impl Storage {
    /// The bytes of the whole mapping.
    pub closed spec fn bytes(&self) -> Seq<u8> {
        mapped_bytes(self.map)
    }

    /// Number of vectors stored.
    pub closed spec fn spec_count(&self) -> nat {
        self.count as nat
    }

    /// Number of components of every vector.
    pub closed spec fn spec_dims(&self) -> nat {
        self.dims as nat
    }

    /// The mapping holds a valid header that matches the cached fields, and
    /// the vector zone fits in the mapping and ends before the graph zone.
    pub closed spec fn wf(&self) -> bool {
        let b = mapped_bytes(self.map);
        let f = decode_header_fields(b);
        &&& b.len() >= HEADER_SIZE
        &&& header_fields_valid(f.0, f.1, f.2)
        &&& f.2 == self.dims
        &&& f.3 == self.count
        &&& vector_zone_end(self.dims as nat, self.count as nat) <= b.len()
        &&& vector_zone_end(self.dims as nat, self.count as nat) <= GRAPH_ZONE_START
    }

    /// The bytes of vector `i`.
    pub closed spec fn vector_bytes(&self, i: int) -> Seq<u8> {
        self.bytes().subrange(
            vector_zone_end(self.dims as nat, i as nat) as int,
            vector_zone_end(self.dims as nat, (i + 1) as nat) as int,
        )
    }

    /// The stored vectors, as the bit patterns of their components.
    pub closed spec fn vectors(&self) -> Seq<Seq<u32>> {
        Seq::new(self.count as nat, |i: int| decode_words(self.vector_bytes(i)))
    }

    /// A well-formed storage has one vector per stored index, each of `dims`
    /// components, and a count that stays below the graph zone.
    pub proof fn lemma_wf_facts(&self)
        requires
            self.wf(),
        ensures
            self.vectors().len() == self.spec_count(),
            vector_zone_end(self.spec_dims(), self.spec_count()) <= GRAPH_ZONE_START,
            0 < self.spec_dims() <= 4096,
            self.spec_count() < 1073741824,
            self.bytes().len() >= HEADER_SIZE,
    {
        assert(self.count * self.dims * 4 >= self.count) by (nonlinear_arith)
            requires
                self.dims >= 1,
        ;
    }

    /// Two storages over the same bytes, with the same dimensions and the
    /// count that the header holds, store the same vectors.
    pub proof fn lemma_same_bytes_same_vectors(&self, other: Storage)
        requires
            self.wf(),
            other.bytes() == self.bytes(),
            other.spec_dims() == self.spec_dims(),
            other.spec_count() == decode_header_fields(other.bytes()).3,
        ensures
            other.spec_count() == self.spec_count(),
            other.vectors() == self.vectors(),
    {
        assert(other.vectors() =~= self.vectors());
    }

    /// Round trip: after `insert` of `v` has returned `id` (its `ensures`
    /// relate `before` and `after` so), the vector stored under `id` is `v`,
    /// bit for bit, and every vector stored before keeps its value.
    pub proof fn lemma_insert_get_round_trip(before: Storage, after: Storage, v: Seq<u32>, id: u64)
        requires
            before.wf(),
            id == before.spec_count(),
            after.vectors() == before.vectors().push(v),
        ensures
            after.vectors()[id as int] == v,
            forall|i: int| 0 <= i < id ==> #[trigger] after.vectors()[i] == before.vectors()[i],
    {
        before.lemma_wf_facts();
    }

    /// Starts a new file in a mapping of at least one page: writes an empty
    /// header for vectors of `dimensions` components.
    pub fn create(map: MmapMut, dimensions: u32) -> (r: Result<Storage, ChassisError>)
        ensures
            mapped_bytes(map).len() < HEADER_SIZE ==> r == Err::<Storage, ChassisError>(
                ChassisError::MappingTooSmall { required: HEADER_SIZE as u64 },
            ),
            mapped_bytes(map).len() >= HEADER_SIZE && !(0 < dimensions <= 4096) ==> r == Err::<
                Storage,
                ChassisError,
            >(ChassisError::CorruptedHeader),
            r is Ok <==> mapped_bytes(map).len() >= HEADER_SIZE && 0 < dimensions <= 4096,
            r is Ok ==> {
                let s = r->Ok_0;
                &&& s.wf()
                &&& s.spec_dims() == dimensions
                &&& s.spec_count() == 0
                &&& s.vectors() == Seq::<Seq<u32>>::empty()
                &&& s.bytes().len() == mapped_bytes(map).len()
            },
    {
        let mut map = map;
        let len = mapped_len(&map);
        if len < HEADER_SIZE {
            return Err(ChassisError::MappingTooSmall { required: HEADER_SIZE as u64 });
        }
        if dimensions == 0 || dimensions > 4096 {
            return Err(ChassisError::CorruptedHeader);
        }
        let header = Header::new(dimensions);
        let page = header.to_bytes();
        write_mapped_range(&mut map, 0, HEADER_SIZE, page.as_slice());
        proof {
            lemma_header_fields_agree(mapped_bytes(map), page@, 24);
        }
        let s = Storage { map, dims: dimensions, count: 0 };
        assert(s.vectors() =~= Seq::<Seq<u32>>::empty());
        Ok(s)
    }

    /// Opens an existing file: checks the magic, the header, the dimensions
    /// and that the vectors it counts lie inside the mapping.
    pub fn open(map: MmapMut, dimensions: u32) -> (r: Result<Storage, ChassisError>)
        ensures
            r is Err ==> open_check(mapped_bytes(map), dimensions) == Some(r->Err_0),
            r is Ok <==> open_check(mapped_bytes(map), dimensions) is None,
            r is Ok ==> {
                let s = r->Ok_0;
                &&& s.wf()
                &&& s.spec_dims() == dimensions
                &&& s.bytes() == mapped_bytes(map)
                &&& s.spec_count() == decode_header_fields(mapped_bytes(map)).3
            },
    {
        let len = mapped_len(&map);
        if len < HEADER_SIZE {
            return Err(ChassisError::NotAnIndexFile);
        }
        let page = mapped_range(&map, 0, 24);
        let header = match Header::from_bytes(page) {
            Some(h) => h,
            None => {
                return Err(ChassisError::NotAnIndexFile);
            },
        };
        proof {
            lemma_header_fields_agree(page@, mapped_bytes(map), 24);
        }
        if !magic_matches(header.magic.as_slice()) {
            return Err(ChassisError::NotAnIndexFile);
        }
        if !header.is_valid() {
            return Err(ChassisError::CorruptedHeader);
        }
        if header.dimensions != dimensions {
            return Err(ChassisError::DimensionConflict { stored: header.dimensions, requested: dimensions });
        }
        let count = header.count;
        let zone = (dimensions as u64) * 4;
        if count > (GRAPH_ZONE_START - HEADER_SIZE as u64) / zone {
            proof {
                assert(count * zone > GRAPH_ZONE_START - HEADER_SIZE) by (nonlinear_arith)
                    requires
                        count as int > (GRAPH_ZONE_START as int - HEADER_SIZE as int) / zone as int,
                        zone > 0,
                ;
                assert(count * dimensions * 4 == count * zone) by (nonlinear_arith)
                    requires
                        zone == dimensions * 4,
                ;
            }
            return Err(ChassisError::CapacityExceeded);
        }
        proof {
            assert(count * zone <= GRAPH_ZONE_START - HEADER_SIZE) by (nonlinear_arith)
                requires
                    count as int <= (GRAPH_ZONE_START as int - HEADER_SIZE as int) / zone as int,
                    zone > 0,
            ;
            assert(count * dimensions * 4 == count * zone) by (nonlinear_arith)
                requires
                    zone == dimensions * 4,
            ;
        }
        let end = HEADER_SIZE as u64 + count * zone;
        if end > len as u64 {
            return Err(ChassisError::CorruptedHeader);
        }
        Ok(Storage { map, dims: dimensions, count })
    }

    /// Number of vectors stored.
    pub fn count(&self) -> (r: u64)
        ensures
            r == self.spec_count(),
    {
        self.count
    }

    /// Number of components of every vector.
    pub fn dimensions(&self) -> (r: u32)
        ensures
            r == self.spec_dims(),
    {
        self.dims
    }

    /// Length of the mapping in bytes.
    pub fn mapped_len(&self) -> (r: usize)
        ensures
            r == self.bytes().len(),
    {
        mapped_len(&self.map)
    }

    /// The mapping, for flushing it to the file.
    pub fn mapping(&self) -> (r: &MmapMut)
        ensures
            mapped_bytes(*r) == self.bytes(),
    {
        &self.map
    }

    /// Mapping length that the next insertion needs, rounded up to a page;
    /// `None` when the next vector would not fit before the graph zone.
    pub fn required_len_for_insert(&self) -> (r: Option<u64>)
        requires
            self.wf(),
        ensures
            r is None <==> vector_zone_end(self.spec_dims(), self.spec_count() + 1) > GRAPH_ZONE_START,
            r is Some ==> r->Some_0 == spec_page_align(
                vector_zone_end(self.spec_dims(), self.spec_count() + 1),
            ),
    {
        proof {
            self.lemma_wf_facts();
            lemma_vector_before(self.dims as nat, self.count as nat, (self.count + 1) as nat);
        }
        let stride = self.dims as u64 * 4;
        proof {
            assert(self.count * stride == self.count * self.dims * 4) by (nonlinear_arith)
                requires
                    stride == self.dims * 4,
            ;
            assert(4096 + self.count * self.dims * 4 <= GRAPH_ZONE_START);
        }
        let end = HEADER_SIZE as u64 + self.count * stride + stride;
        if end > GRAPH_ZONE_START {
            None
        } else {
            Some(page_align(end))
        }
    }

    /// Appends a vector of bit patterns and returns its index. The bytes of
    /// the vector are written before the count in the header that covers them.
    pub fn insert(&mut self, vector: &[u32]) -> (r: Result<u64, ChassisError>)
        requires
            old(self).wf(),
        ensures
            final(self).wf(),
            final(self).spec_dims() == old(self).spec_dims(),
            final(self).bytes().len() == old(self).bytes().len(),
            vector@.len() != old(self).spec_dims() ==> r == Err::<u64, ChassisError>(
                ChassisError::DimensionMismatch {
                    expected: old(self).spec_dims() as u32,
                    actual: vector@.len() as u64,
                },
            ),
            vector@.len() == old(self).spec_dims() && vector_zone_end(
                old(self).spec_dims(),
                old(self).spec_count() + 1,
            ) > GRAPH_ZONE_START ==> r == Err::<u64, ChassisError>(ChassisError::CapacityExceeded),
            vector@.len() == old(self).spec_dims() && vector_zone_end(
                old(self).spec_dims(),
                old(self).spec_count() + 1,
            ) <= GRAPH_ZONE_START && vector_zone_end(old(self).spec_dims(), old(self).spec_count() + 1)
                > old(self).bytes().len() ==> r == Err::<u64, ChassisError>(
                ChassisError::MappingTooSmall {
                    required: spec_page_align(
                        vector_zone_end(old(self).spec_dims(), old(self).spec_count() + 1),
                    ) as u64,
                },
            ),
            r is Ok <==> vector@.len() == old(self).spec_dims() && vector_zone_end(
                old(self).spec_dims(),
                old(self).spec_count() + 1,
            ) <= GRAPH_ZONE_START && vector_zone_end(old(self).spec_dims(), old(self).spec_count() + 1)
                <= old(self).bytes().len(),
            r is Ok ==> r->Ok_0 == old(self).spec_count() && final(self).spec_count() == old(
                self,
            ).spec_count() + 1 && final(self).vectors() == old(self).vectors().push(vector@),
            r is Err ==> *final(self) == *old(self),
            forall|k: int|
                GRAPH_ZONE_START <= k < old(self).bytes().len() ==> final(self).bytes()[k] == old(
                    self,
                ).bytes()[k],
    {
        proof {
            self.lemma_wf_facts();
            assert(4096 + self.count * self.dims * 4 <= GRAPH_ZONE_START);
        }
        if vector.len() != self.dims as usize {
            return Err(
                ChassisError::DimensionMismatch { expected: self.dims, actual: vector.len() as u64 },
            );
        }
        let needed = self.required_len_for_insert();
        let required = match needed {
            None => {
                return Err(ChassisError::CapacityExceeded);
            },
            Some(n) => n,
        };
        let len = mapped_len(&self.map);
        let stride = self.dims as usize * 4;
        let ghost d = self.dims as nat;
        let ghost c = self.count as nat;
        proof {
            lemma_vector_before(d, c, c + 1);
            assert(self.count * stride == self.count * self.dims * 4) by (nonlinear_arith)
                requires
                    stride == self.dims * 4,
            ;
        }
        let start = HEADER_SIZE + self.count as usize * stride;
        let end = start + stride;
        if end > len {
            return Err(ChassisError::MappingTooSmall { required });
        }
        let bytes = encode_words(vector);
        let ghost b0 = mapped_bytes(self.map);
        write_mapped_range(&mut self.map, start, end, bytes.as_slice());
        let ghost b1 = mapped_bytes(self.map);
        let new_count = self.count + 1;
        let count_bytes = u64_to_le_bytes(new_count);
        write_mapped_range(&mut self.map, 16, 24, count_bytes.as_slice());
        let ghost b2 = mapped_bytes(self.map);
        let id = self.count;
        self.count = new_count;
        proof {
            vstd::bytes::lemma_auto_spec_u64_to_from_le_bytes();
            assert(b2.len() == b0.len());
            assert forall|k: int| 0 <= k < b0.len() && !(16 <= k < 24) && !(start <= k < end) implies b2[k]
                == b0[k] by {}
            lemma_header_fields_agree(b2, b0, 16);
            assert(b2.subrange(16, 24) =~= spec_u64_to_le_bytes(new_count));
            let old_vectors = old(self).vectors();
            let new_vectors = self.vectors();
            assert forall|i: int| 0 <= i < c implies #[trigger] new_vectors[i] == old_vectors[i] by {
                lemma_vector_before(d, i as nat, c);
                assert(HEADER_SIZE <= vector_zone_end(d, i as nat)) by (nonlinear_arith);
                assert(self.vector_bytes(i) =~= old(self).vector_bytes(i));
            }
            assert(self.vector_bytes(c as int) =~= bytes@);
            assert(new_vectors =~= old_vectors.push(vector@));
        }
        Ok(id)
    }

    /// The bytes of a stored vector, borrowed from the mapping.
    pub fn get_vector_slice(&self, index: u64) -> (r: Result<&[u8], ChassisError>)
        requires
            self.wf(),
        ensures
            r is Ok <==> index < self.spec_count(),
            r is Err ==> r == Err::<&[u8], ChassisError>(
                ChassisError::IndexOutOfBounds { index, count: self.spec_count() as u64 },
            ),
            r is Ok ==> r->Ok_0@ == self.vector_bytes(index as int) && decode_words(r->Ok_0@)
                == self.vectors()[index as int] && r->Ok_0@.len() == 4 * self.spec_dims(),
            r is Ok ==> r->Ok_0@ == self.bytes().subrange(
                vector_zone_end(self.spec_dims(), index as nat) as int,
                vector_zone_end(self.spec_dims(), index as nat + 1) as int,
            ),
    {
        if index >= self.count {
            return Err(ChassisError::IndexOutOfBounds { index, count: self.count });
        }
        let stride = self.dims as usize * 4;
        proof {
            self.lemma_wf_facts();
            lemma_vector_before(self.dims as nat, index as nat, self.count as nat);
            assert(index * stride == index * self.dims * 4) by (nonlinear_arith)
                requires
                    stride == self.dims * 4,
            ;
        }
        let start = HEADER_SIZE + index as usize * stride;
        Ok(mapped_range(&self.map, start, start + stride))
    }

    /// An owned copy of a stored vector.
    pub fn get_vector(&self, index: u64) -> (r: Result<Vec<u32>, ChassisError>)
        requires
            self.wf(),
        ensures
            r is Ok <==> index < self.spec_count(),
            r is Err ==> r == Err::<Vec<u32>, ChassisError>(
                ChassisError::IndexOutOfBounds { index, count: self.spec_count() as u64 },
            ),
            r is Ok ==> r->Ok_0@ == self.vectors()[index as int],
    {
        let bytes = match self.get_vector_slice(index) {
            Ok(b) => b,
            Err(e) => {
                return Err(e);
            },
        };
        let n = self.dims as usize;
        proof {
            self.lemma_wf_facts();
        }
        let mut out: Vec<u32> = Vec::with_capacity(n);
        let mut j: usize = 0;
        while j < n
            invariant
                j <= n,
                n <= 4096,
                bytes@.len() == 4 * n,
                out@ == decode_words(bytes@).subrange(0, j as int),
            decreases n - j,
        {
            let w = vstd::bytes::u32_from_le_bytes(vstd::slice::slice_subrange(bytes, 4 * j, 4 * j + 4));
            out.push(w);
            j = j + 1;
            assert(out@ =~= decode_words(bytes@).subrange(0, j as int));
        }
        assert(decode_words(bytes@).subrange(0, n as int) =~= decode_words(bytes@));
        Ok(out)
    }

    /// Rolls the stored count back to `n`, leaving the file length alone;
    /// a count of `n` or fewer is kept as it is.
    pub fn truncate_logical(&mut self, n: u64)
        requires
            old(self).wf(),
        ensures
            final(self).wf(),
            final(self).spec_dims() == old(self).spec_dims(),
            final(self).bytes().len() == old(self).bytes().len(),
            final(self).spec_count() == if n < old(self).spec_count() {
                n as nat
            } else {
                old(self).spec_count()
            },
            final(self).vectors() == old(self).vectors().take(final(self).spec_count() as int),
            forall|k: int|
                GRAPH_ZONE_START <= k < old(self).bytes().len() ==> final(self).bytes()[k] == old(
                    self,
                ).bytes()[k],
    {
        if n >= self.count {
            assert(self.vectors() =~= self.vectors().take(self.count as int));
            return;
        }
        let count_bytes = u64_to_le_bytes(n);
        let ghost b0 = mapped_bytes(self.map);
        write_mapped_range(&mut self.map, 16, 24, count_bytes.as_slice());
        self.count = n;
        proof {
            vstd::bytes::lemma_auto_spec_u64_to_from_le_bytes();
            let b2 = mapped_bytes(self.map);
            lemma_header_fields_agree(b2, b0, 16);
            assert(b2.subrange(16, 24) =~= spec_u64_to_le_bytes(n));
            let d = self.dims as nat;
            let oc = old(self).count as nat;
            assert(vector_zone_end(d, n as nat) <= vector_zone_end(d, oc)) by (nonlinear_arith)
                requires
                    n < oc,
            ;
            assert forall|i: int| 0 <= i < n implies #[trigger] self.vectors()[i] == old(
                self,
            ).vectors()[i] by {
                lemma_vector_before(d, i as nat, n as nat);
                assert(HEADER_SIZE <= vector_zone_end(d, i as nat)) by (nonlinear_arith);
                assert(self.vector_bytes(i) =~= old(self).vector_bytes(i));
            }
            assert(self.vectors() =~= old(self).vectors().take(n as int));
        }
    }

    /// A borrowed range of the mapping: `len` bytes from `offset`.
    pub fn graph_zone(&self, offset: usize, len: usize) -> (r: Result<&[u8], ChassisError>)
        ensures
            r is Ok <==> offset + len <= self.bytes().len(),
            r is Err ==> r == Err::<&[u8], ChassisError>(
                ChassisError::OutOfRange { offset: offset as u64, len: len as u64 },
            ),
            r is Ok ==> r->Ok_0@ == self.bytes().subrange(offset as int, offset + len),
    {
        let total = mapped_len(&self.map);
        if offset > total || len > total - offset {
            return Err(ChassisError::OutOfRange { offset: offset as u64, len: len as u64 });
        }
        Ok(mapped_range(&self.map, offset, offset + len))
    }

    /// Overwrites bytes of the graph zone: `bytes` at `offset`, which must lie
    /// past the start of the graph zone and inside the mapping.
    pub fn write_graph_zone(&mut self, offset: usize, bytes: &[u8]) -> (r: Result<(), ChassisError>)
        requires
            old(self).wf(),
        ensures
            final(self).wf(),
            r is Ok <==> GRAPH_ZONE_START <= offset && offset + bytes@.len() <= old(self).bytes().len(),
            r is Err ==> r == Err::<(), ChassisError>(
                ChassisError::OutOfRange { offset: offset as u64, len: bytes@.len() as u64 },
            ) && *final(self) == *old(self),
            final(self).spec_dims() == old(self).spec_dims(),
            final(self).spec_count() == old(self).spec_count(),
            final(self).vectors() == old(self).vectors(),
            r is Ok ==> final(self).bytes() == old(self).bytes().subrange(0, offset as int) + bytes@
                + old(self).bytes().subrange(offset + bytes@.len(), old(self).bytes().len() as int),
    {
        let total = mapped_len(&self.map);
        if (offset as u64) < GRAPH_ZONE_START || offset > total || bytes.len() > total - offset {
            return Err(ChassisError::OutOfRange { offset: offset as u64, len: bytes.len() as u64 });
        }
        let ghost b0 = mapped_bytes(self.map);
        write_mapped_range(&mut self.map, offset, offset + bytes.len(), bytes);
        proof {
            let b2 = mapped_bytes(self.map);
            let d = self.dims as nat;
            let c = self.count as nat;
            lemma_header_fields_agree(b2, b0, 24);
            assert forall|i: int| 0 <= i < c implies #[trigger] self.vectors()[i] == old(
                self,
            ).vectors()[i] by {
                lemma_vector_before(d, i as nat, c);
                assert(HEADER_SIZE <= vector_zone_end(d, i as nat)) by (nonlinear_arith);
                assert(self.vector_bytes(i) =~= old(self).vector_bytes(i));
            }
            assert(self.vectors() =~= old(self).vectors());
        }
        Ok(())
    }

    /// Checks that the mapping reaches `required_size` bytes; when it does not,
    /// says to which page-aligned length it must first be grown.
    pub fn ensure_graph_capacity(&self, required_size: u64) -> (r: Result<(), ChassisError>)
        requires
            required_size <= u64::MAX - 4095,
        ensures
            r is Ok <==> required_size <= self.bytes().len(),
            r is Err ==> r == Err::<(), ChassisError>(
                ChassisError::MappingTooSmall { required: spec_page_align(required_size as nat) as u64 },
            ),
    {
        if (mapped_len(&self.map) as u64) < required_size {
            return Err(ChassisError::MappingTooSmall { required: page_align(required_size) });
        }
        Ok(())
    }

    /// Replaces the mapping with one of the grown file. The new mapping must be
    /// at least as long and hold the same header; the old one is handed back
    /// on refusal.
    pub fn remap(&mut self, map: MmapMut) -> (r: Result<(), MmapMut>)
        requires
            old(self).wf(),
        ensures
            final(self).wf(),
            final(self).spec_dims() == old(self).spec_dims(),
            final(self).spec_count() == old(self).spec_count(),
            r is Ok ==> final(self).bytes() == mapped_bytes(map) && final(self).bytes().len() >= old(
                self,
            ).bytes().len(),
            r is Err ==> *final(self) == *old(self),
    {
        let len = mapped_len(&map);
        if len < mapped_len(&self.map) {
            return Err(map);
        }
        let page = mapped_range(&map, 0, 24);
        let header = match Header::from_bytes(page) {
            Some(h) => h,
            None => {
                return Err(map);
            },
        };
        proof {
            lemma_header_fields_agree(page@, mapped_bytes(map), 24);
        }
        if !header.is_valid() || header.dimensions != self.dims || header.count != self.count {
            return Err(map);
        }
        self.map = map;
        Ok(())
    }

    /// Gives the mapping back.
    pub fn into_mapping(self) -> (r: MmapMut)
        ensures
            mapped_bytes(r) == self.bytes(),
    {
        self.map
    }
}

} // verus!
