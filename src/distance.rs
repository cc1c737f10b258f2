//! Distances between vectors.
//!
//! Vectors reach the engine as the little-endian bytes of their `f32`
//! components, and distances come back as the bit pattern of an `f32`. The
//! arithmetic is supplied by an implementation of [`VectorDistance`]; the
//! engine only compares distances, by the IEEE 754 total order.
use vstd::prelude::*;

verus! {

/// Distance metric for vector comparison.
#[derive(Debug, Clone, Copy, PartialEq, Eq, Structural)]
pub enum DistanceMetric {
    Euclidean,
    Cosine,
    DotProduct,
}

/// A distance function over two vectors of equal length.
pub trait VectorDistance {
    /// The distance between `a` and `b`, each given as the little-endian bytes
    /// of its `f32` components, as the bit pattern of an `f32`.
    fn distance(&self, a: &[u8], b: &[u8]) -> u32;
}

/// The rank of an `f32` bit pattern in the IEEE 754 total order (the order of
/// `f32::total_cmp`): negative values are flipped whole, others get the sign
/// bit set, so that unsigned comparison of ranks is the total order.
pub open spec fn spec_total_rank(bits: u32) -> u32 {
    if bits & 0x8000_0000 != 0 {
        !bits
    } else {
        bits | 0x8000_0000
    }
}

/// The rank of an `f32` bit pattern in the IEEE 754 total order.
pub fn total_rank(bits: u32) -> (r: u32)
    ensures
        r == spec_total_rank(bits),
{
    if bits & 0x8000_0000 != 0 {
        !bits
    } else {
        bits | 0x8000_0000
    }
}

/// Two bit patterns with the same rank are the same.
pub proof fn lemma_total_rank_injective(a: u32, b: u32)
    ensures
        spec_total_rank(a) == spec_total_rank(b) ==> a == b,
{
    assert(((a & 0x8000_0000 != 0) && (b & 0x8000_0000 != 0) && !a == !b) ==> a == b) by (bit_vector);
    assert(((a & 0x8000_0000 == 0) && (b & 0x8000_0000 == 0) && (a | 0x8000_0000) == (b
        | 0x8000_0000)) ==> a == b) by (bit_vector);
    assert(((a & 0x8000_0000 != 0) && (b & 0x8000_0000 == 0)) ==> !a != (b | 0x8000_0000))
        by (bit_vector);
    assert(((a & 0x8000_0000 == 0) && (b & 0x8000_0000 != 0)) ==> (a | 0x8000_0000) != !b)
        by (bit_vector);
}

/// Whether `a` comes before `b` in the total order.
pub open spec fn spec_total_lt(a: u32, b: u32) -> bool {
    spec_total_rank(a) < spec_total_rank(b)
}

/// Compares two `f32` bit patterns by the IEEE 754 total order: `-1`, `0` or `1`.
pub fn total_cmp_bits(a: u32, b: u32) -> (r: i8)
    ensures
        r == -1 <==> spec_total_lt(a, b),
        r == 0 <==> a == b,
        r == 1 <==> spec_total_lt(b, a),
{
    proof {
        lemma_total_rank_injective(a, b);
    }
    let ra = total_rank(a);
    let rb = total_rank(b);
    if ra < rb {
        -1
    } else if ra == rb {
        0
    } else {
        1
    }
}

} // verus!
