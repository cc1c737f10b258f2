//! The errors of the engine.
use vstd::prelude::*;

verus! {

/// What went wrong.
#[derive(Debug, Clone, Copy, PartialEq, Eq, Structural)]
pub enum ChassisError {
    /// A vector or query whose length differs from the index dimensions.
    DimensionMismatch { expected: u32, actual: u64 },
    /// A vector index at or past the stored count.
    IndexOutOfBounds { index: u64, count: u64 },
    /// The vector zone would grow past the start of the graph zone.
    CapacityExceeded,
    /// The mapping must first be grown to at least `required` bytes.
    MappingTooSmall { required: u64 },
    /// A byte range that lies outside the mapping or outside the graph zone.
    OutOfRange { offset: u64, len: u64 },
    /// The file does not start with the magic bytes.
    NotAnIndexFile,
    /// The file header is not valid (version or dimensions).
    CorruptedHeader,
    /// The file declares other dimensions than the ones asked for.
    DimensionConflict { stored: u32, requested: u32 },
    /// The graph header has a bad magic or version.
    CorruptedGraphHeader,
    /// The graph header was written with other record parameters.
    ParamsMismatch,
    /// The graph knows more nodes than storage holds vectors.
    GraphAheadOfStorage { nodes: u64, vectors: u64 },
    /// A node record with the sentinel id or no layer.
    InvalidRecord,
    /// A node whose record would lie past the addressable range.
    NodeOutOfRange { node_id: u64 },
    /// A layer that node records have no room for.
    LayerOutOfRange { layer: u64, max_layers: u8 },
    /// Graph parameters that records cannot be shaped by.
    InvalidParams,
    /// A node id other than the next one in insertion order.
    InvariantViolation { expected: u64, actual: u64 },
    /// Neighbour lists given for another number of layers than declared.
    LayerCountMismatch { expected: u64, actual: u64 },
}

impl ChassisError {
    /// The kind of the error, as a lower-case phrase.
    pub fn describe(&self) -> (r: &'static str) {
        match self {
            ChassisError::DimensionMismatch { .. } => "dimension mismatch",
            ChassisError::IndexOutOfBounds { .. } => "index out of bounds",
            ChassisError::CapacityExceeded => "vector zone capacity exceeded",
            ChassisError::MappingTooSmall { .. } => "mapping too small",
            ChassisError::OutOfRange { .. } => "byte range out of bounds",
            ChassisError::NotAnIndexFile => "file is not a valid index",
            ChassisError::CorruptedHeader => "corrupted or incompatible file header",
            ChassisError::DimensionConflict { .. } => "dimension mismatch with stored file",
            ChassisError::CorruptedGraphHeader => "invalid graph header magic or version",
            ChassisError::ParamsMismatch => "graph header params mismatch",
            ChassisError::GraphAheadOfStorage { .. } => "index corruption: graph ahead of storage",
            ChassisError::InvalidRecord => "invalid node record",
            ChassisError::NodeOutOfRange { .. } => "node record out of range",
            ChassisError::LayerOutOfRange { .. } => "layer exceeds max_layers",
            ChassisError::InvalidParams => "invalid graph parameters",
            ChassisError::InvariantViolation { .. } => "node id invariant violated",
            ChassisError::LayerCountMismatch { .. } => "layer count mismatch",
        }
    }
}

} // verus!
