//! Chassis: an embeddable, single-file, on-disk approximate nearest-neighbour
//! index built on a Hierarchical Navigable Small World graph.
//!
//! The library holds the logic of the engine: the file and graph headers, the
//! fixed-width node record codec, the vector zone and graph zone laid over a
//! memory mapping, the crash-consistent linking protocol with its diversity
//! heuristic, the layered search and the facade that drives them. Vectors are
//! handled as the bit patterns of their `f32` components; the arithmetic on
//! them is supplied by an implementation of [`distance::VectorDistance`].
use vstd::prelude::*;

pub mod builder;
pub mod counting;
pub mod distance;
pub mod error;
pub mod graph;
pub mod header;
pub mod index;
pub mod link;
pub mod mapping;
pub mod node;
pub mod search;
pub mod storage;

pub use builder::HnswBuilder;
pub use distance::{DistanceMetric, VectorDistance};
pub use error::ChassisError;
pub use graph::{GraphHeader, HnswGraph, HnswParams};
pub use header::{Header, HEADER_SIZE, MAGIC, VERSION};
pub use index::{IndexOptions, VectorIndex};
pub use node::{compute_node_offset, Node, NodeHeader, NodeId, NodeRecord, NodeRecordParams, Offset, INVALID_NODE_ID};
pub use search::SearchResult;
pub use storage::Storage;

verus! {

} // verus!
