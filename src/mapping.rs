//! The memory mapping of the index file, as Verus sees it: a sequence of
//! bytes that only writes through a unique borrow change.
use memmap2::MmapMut;
use vstd::prelude::*;

verus! {

#[verifier::external_type_specification]
#[verifier::external_body]
pub struct ExMmapMut(memmap2::MmapMut);

/// The bytes that a writable mapping shows.
pub uninterp spec fn mapped_bytes(m: MmapMut) -> Seq<u8>;

/// Relies on `MmapMut`'s `Deref<Target = [u8]>`: the length of the mapped region.
#[verifier::external_body]
pub(crate) fn mapped_len(m: &MmapMut) -> (r: usize)
    ensures
        r == mapped_bytes(*m).len(),
{
    m.len()
}

/// Relies on `MmapMut`'s `Deref<Target = [u8]>`: a borrowed range of the mapped bytes.
#[verifier::external_body]
pub(crate) fn mapped_range(m: &MmapMut, start: usize, end: usize) -> (r: &[u8])
    requires
        start <= end <= mapped_bytes(*m).len(),
    ensures
        r@ == mapped_bytes(*m).subrange(start as int, end as int),
{
    &m[start..end]
}

/// Relies on `MmapMut`'s `DerefMut<Target = [u8]>` and `<[u8]>::copy_from_slice`:
/// overwrites a range of the mapped bytes and leaves the others as they were.
#[verifier::external_body]
pub(crate) fn write_mapped_range(m: &mut MmapMut, start: usize, end: usize, bytes: &[u8])
    requires
        start <= end <= mapped_bytes(*old(m)).len(),
        end - start == bytes@.len(),
    ensures
        mapped_bytes(*final(m)) == mapped_bytes(*old(m)).subrange(0, start as int) + bytes@
            + mapped_bytes(*old(m)).subrange(end as int, mapped_bytes(*old(m)).len() as int),
{
    m[start..end].copy_from_slice(bytes)
}

} // verus!
