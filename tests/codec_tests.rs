use chassis::distance::total_cmp_bits;
use chassis::graph::GRAPH_HEADER_SIZE;
use chassis::header::MAX_DIMENSIONS;
use chassis::search::VisitedFilter;
use chassis::{
    compute_node_offset, GraphHeader, Header, Node, NodeHeader, NodeRecord, NodeRecordParams, Offset,
    HEADER_SIZE, INVALID_NODE_ID,
};

// File header

#[test]
fn test_header_size() {
    assert_eq!(HEADER_SIZE, 4096, "Header must be exactly one page (4KB)");
}

#[test]
fn test_header_alignment() {
    let header = Header::new(768);
    let bytes = header.to_bytes();
    assert_eq!(bytes.len() % 4096, 0, "Header must be 4KB aligned");
    assert_eq!(HEADER_SIZE % 4096, 0, "Header must be 4KB aligned");
}

#[test]
fn test_new_header_is_valid() {
    let header = Header::new(768);
    assert!(header.is_valid());
    assert_eq!(header.dimensions, 768);
    assert_eq!(header.count, 0);
}

#[test]
fn test_invalid_dimensions() {
    let mut header = Header::new(768);
    header.dimensions = 0;
    assert!(!header.is_valid());

    header.dimensions = MAX_DIMENSIONS + 1;
    assert!(!header.is_valid());
}

#[test]
fn test_invalid_magic() {
    let mut header = Header::new(768);
    header.magic = *b"INVALID\0";
    assert!(!header.is_valid());
}

#[test]
fn header_bytes_roundtrip_and_copy() {
    let mut header = Header::new(3);
    header.count = 0x0102_0304_0506_0708;
    let bytes = header.to_bytes();
    assert_eq!(&bytes[0..8], b"CHASSIS\0");
    assert_eq!(&bytes[8..12], &[1, 0, 0, 0]);
    assert_eq!(&bytes[12..16], &[3, 0, 0, 0]);
    assert_eq!(&bytes[16..24], &[8, 7, 6, 5, 4, 3, 2, 1]);
    assert!(bytes[24..].iter().all(|&b| b == 0));
    let back = Header::from_bytes(&bytes).unwrap();
    assert_eq!(back.count, header.count);
    assert_eq!(back.dimensions, 3);
    assert!(Header::from_bytes(&bytes[..23]).is_none());

    let mut other = Header::new(9);
    other.copy_from(&back);
    assert_eq!(other.dimensions, 3);
    assert_eq!(other.count, header.count);
}

// Graph header

#[test]
fn test_graph_header_size() {
    let header = GraphHeader::new(NodeRecordParams::new(16, 32, 8));
    assert_eq!(header.to_bytes().len(), GRAPH_HEADER_SIZE, "GraphHeader must be exactly 64 bytes");
    assert_eq!(GRAPH_HEADER_SIZE, 64, "GraphHeader must be exactly 64 bytes");
}

#[test]
fn test_graph_header_alignment() {
    assert_eq!(GRAPH_HEADER_SIZE % 8, 0, "GraphHeader must be 8-byte aligned");
}

#[test]
fn graph_test_graph_header_roundtrip() {
    let params = NodeRecordParams::new(16, 32, 8);
    let mut header = GraphHeader::new(params);
    header.entry_point = 42;
    header.max_layer = 3;
    header.node_count = 1000;

    let bytes = header.to_bytes();
    let restored = GraphHeader::from_bytes(&bytes).unwrap();

    assert!(restored.is_valid());
    assert_eq!(restored.entry_point, 42);
    assert_eq!(restored.max_layer, 3);
    assert_eq!(restored.node_count, 1000);
    assert_eq!(restored.m, 16);
    assert_eq!(restored.m0, 32);
    assert_eq!(restored.max_layers, 8);
}

#[test]
fn graph_io_tests_test_graph_header_roundtrip() {
    let params = NodeRecordParams::new(16, 32, 8);
    let mut header = GraphHeader::new(params);
    header.entry_point = 42;
    header.max_layer = 5;
    header.node_count = 100;

    let bytes = header.to_bytes();
    assert_eq!(bytes.len(), 64);

    let restored = GraphHeader::from_bytes(&bytes).unwrap();
    assert_eq!(restored.entry_point, 42);
    assert_eq!(restored.max_layer, 5);
    assert_eq!(restored.node_count, 100);
    assert_eq!(restored.m, 16);
    assert_eq!(restored.m0, 32);
    assert_eq!(restored.max_layers, 8);
}

#[test]
fn test_graph_header_magic_validation() {
    let params = NodeRecordParams::new(16, 32, 8);
    let header = GraphHeader::new(params);

    assert!(header.is_valid());

    let mut bytes = header.to_bytes();
    bytes[0] = b'X'; // Corrupt magic

    let corrupted = GraphHeader::from_bytes(&bytes).unwrap();
    assert!(!corrupted.is_valid());
}

#[test]
fn graph_header_short_buffer_is_rejected() {
    let bytes = GraphHeader::new(NodeRecordParams::default()).to_bytes();
    assert!(GraphHeader::from_bytes(&bytes[..63]).is_err());
    assert_eq!(&bytes[0..4], b"HNSW");
    let p = GraphHeader::from_bytes(&bytes).unwrap().to_record_params();
    assert_eq!(p, NodeRecordParams::default());
}

// Node records

#[test]
fn test_node_header_size() {
    assert_eq!(NodeHeader::SIZE, 16, "NodeHeader must be exactly 16 bytes");
}

#[test]
fn test_node_header_alignment() {
    assert_eq!(NodeHeader::SIZE % 8, 0, "NodeHeader must be 8-byte aligned");
    assert_eq!(NodeHeader::new(1, 1).to_bytes().len() % 8, 0, "NodeHeader must be 8-byte aligned");
}

#[test]
fn test_default_record_params() {
    let params = NodeRecordParams::default();
    assert_eq!(params.m, 16);
    assert_eq!(params.m0, 32);
    assert_eq!(params.max_layers, 16);
}

#[test]
fn test_record_size_calculation() {
    let params = NodeRecordParams::new(16, 32, 4);
    assert_eq!(params.record_size(), 656);
}

#[test]
fn test_record_size_is_8_byte_aligned() {
    for m in [8, 12, 16, 32, 64] {
        for max_layers in [1, 4, 8, 16] {
            let params = NodeRecordParams::new(m, m * 2, max_layers);
            let size = params.record_size();
            assert_eq!(
                size % 8,
                0,
                "Record size {} is not 8-byte aligned for m={}, max_layers={}",
                size,
                m,
                max_layers
            );
        }
    }
}

#[test]
fn test_layer_offset_calculation() {
    let params = NodeRecordParams::new(16, 32, 4);
    assert_eq!(params.layer_offset(0), Some(16));
    assert_eq!(params.layer_offset(1), Some(16 + 32 * 8));
    assert_eq!(params.layer_offset(2), Some(16 + 32 * 8 + 16 * 8));
    assert_eq!(params.layer_offset(3), Some(16 + 32 * 8 + 16 * 8 + 16 * 8));
    assert_eq!(params.layer_offset(4), None);
}

#[test]
fn test_max_neighbors_per_layer() {
    let params = NodeRecordParams::new(16, 32, 4);
    assert_eq!(params.max_neighbors(0), 32);
    assert_eq!(params.max_neighbors(1), 16);
    assert_eq!(params.max_neighbors(2), 16);
    assert_eq!(params.max_neighbors(3), 16);
}

#[test]
fn test_total_max_neighbors() {
    let params = NodeRecordParams::new(16, 32, 4);
    assert_eq!(params.total_max_neighbors(), 80);
}

#[test]
fn test_node_record_creation() {
    let params = NodeRecordParams::new(16, 32, 4);
    let record = NodeRecord::new(42, 3, params);

    assert_eq!(record.header.node_id, 42);
    assert_eq!(record.header.layer_count, 3);
    assert_eq!(record.neighbors.len(), params.total_max_neighbors());
    assert!(record.neighbors.iter().all(|&id| id == INVALID_NODE_ID));
}

#[test]
fn test_set_and_get_neighbors() {
    let params = NodeRecordParams::new(16, 32, 4);
    let mut record = NodeRecord::new(0, 3, params);

    record.set_neighbors(0, &[1, 2, 3, 4, 5]);
    assert_eq!(record.get_neighbors(0), vec![1, 2, 3, 4, 5]);

    record.set_neighbors(1, &[10, 20]);
    assert_eq!(record.get_neighbors(1), vec![10, 20]);

    assert!(record.get_neighbors(2).is_empty());
}

#[test]
fn test_add_neighbor() {
    let params = NodeRecordParams::new(2, 4, 2);
    let mut record = NodeRecord::new(0, 2, params);

    assert!(record.add_neighbor(0, 1));
    assert!(record.add_neighbor(0, 2));
    assert!(record.add_neighbor(0, 3));
    assert!(record.add_neighbor(0, 4));
    assert!(!record.add_neighbor(0, 5));

    assert_eq!(record.get_neighbors(0), vec![1, 2, 3, 4]);
}

#[test]
fn test_neighbor_count() {
    let params = NodeRecordParams::new(16, 32, 4);
    let mut record = NodeRecord::new(0, 2, params);

    assert_eq!(record.neighbor_count(0), 0);

    record.set_neighbors(0, &[1, 2, 3]);
    assert_eq!(record.neighbor_count(0), 3);

    record.set_neighbors(1, &[10, 20, 30, 40, 50]);
    assert_eq!(record.neighbor_count(1), 5);
}

#[test]
fn test_serialization_roundtrip() {
    let params = NodeRecordParams::new(16, 32, 4);
    let mut record = NodeRecord::new(123, 3, params);

    record.set_neighbors(0, &[1, 2, 3, 4, 5]);
    record.set_neighbors(1, &[10, 20]);
    record.set_neighbors(2, &[100]);

    let bytes = record.to_bytes();
    assert_eq!(bytes.len(), params.record_size());

    let restored = NodeRecord::from_bytes(&bytes, params).unwrap();

    assert_eq!(restored.header.node_id, 123);
    assert_eq!(restored.header.layer_count, 3);
    assert_eq!(restored.get_neighbors(0), vec![1, 2, 3, 4, 5]);
    assert_eq!(restored.get_neighbors(1), vec![10, 20]);
    assert_eq!(restored.get_neighbors(2), vec![100]);
}

#[test]
fn record_bytes_are_little_endian_and_checked() {
    let params = NodeRecordParams::new(1, 2, 1);
    let mut record = NodeRecord::new(0x0102, 1, params);
    record.set_neighbors(0, &[7]);
    let bytes = record.to_bytes();
    assert_eq!(bytes.len(), 32);
    assert_eq!(&bytes[0..10], &[2, 1, 0, 0, 0, 0, 0, 0, 1, 0]);
    assert_eq!(&bytes[16..24], &[7, 0, 0, 0, 0, 0, 0, 0]);
    assert_eq!(&bytes[24..32], &[0xff; 8]);

    assert!(NodeRecord::from_bytes(&bytes[..31], params).is_err());
    let mut zero_layers = bytes.clone();
    zero_layers[8] = 0;
    assert!(NodeRecord::from_bytes(&zero_layers, params).is_err());
    let mut sentinel = bytes.clone();
    sentinel[0..8].copy_from_slice(&[0xff; 8]);
    assert!(NodeHeader::from_bytes(&sentinel).is_err());
    assert!(NodeHeader::from_bytes(&bytes[..15]).is_err());
}

#[test]
fn test_node_to_record_conversion() {
    let params = NodeRecordParams::new(16, 32, 4);

    let mut node = Node::new(42, 3);
    node.layers[0] = vec![1, 2, 3];
    node.layers[1] = vec![10, 20];
    node.layers[2] = vec![100];

    let record = node.to_record(params);

    assert_eq!(record.header.node_id, 42);
    assert_eq!(record.get_neighbors(0), vec![1, 2, 3]);
    assert_eq!(record.get_neighbors(1), vec![10, 20]);
    assert_eq!(record.get_neighbors(2), vec![100]);

    let restored = Node::from_record(&record);
    assert_eq!(restored.id, 42);
    assert_eq!(restored.layers[0], vec![1, 2, 3]);
    assert_eq!(restored.layers[1], vec![10, 20]);
    assert_eq!(restored.layers[2], vec![100]);
    assert_eq!(restored.top_layer(), 2);
    assert_eq!(Node::new(1, 0).top_layer(), 0);
}

#[test]
fn test_compute_node_offset() {
    let graph_start: Offset = 8192;
    let record_size = 656;

    assert_eq!(compute_node_offset(graph_start, 0, record_size), 8192);
    assert_eq!(compute_node_offset(graph_start, 1, record_size), 8192 + 656);
    assert_eq!(compute_node_offset(graph_start, 2, record_size), 8192 + 1312);
    assert_eq!(compute_node_offset(graph_start, 100, record_size), 8192 + 100 * 656);
}

#[test]
fn test_node_header_deleted_flag() {
    let mut header = NodeHeader::new(0, 1);

    assert!(!header.is_deleted());

    header.set_deleted();
    assert!(header.is_deleted());
}

#[test]
fn test_addressing_formula_consistency() {
    let params = NodeRecordParams::default();
    let graph_start: Offset = 4096;
    let record_size = params.record_size();

    for node_id in [0, 1, 10, 100, 1000, 10000] {
        let offset = compute_node_offset(graph_start, node_id, record_size);
        assert_eq!(offset, graph_start + (node_id * record_size as u64));
        let computed_id = (offset - graph_start) / record_size as u64;
        assert_eq!(computed_id, node_id);
    }
}

#[test]
fn test_single_layer_record() {
    let params = NodeRecordParams::new(16, 32, 1);

    assert_eq!(params.record_size(), 16 + 32 * 8);
    assert_eq!(params.total_max_neighbors(), 32);
    assert_eq!(params.layer_offset(0), Some(16));
    assert_eq!(params.layer_offset(1), None);
}

#[test]
fn test_record_size_stability() {
    let params = NodeRecordParams::new(16, 32, 8);
    let size = params.record_size();

    for layer_count in 1..=8 {
        let record = NodeRecord::new(0, layer_count, params);
        assert_eq!(
            record.record_size(),
            size,
            "Record size should be constant regardless of layer_count"
        );
    }
}

// Visited filter and ordering

#[test]
fn test_visited_filter() {
    let mut filter = VisitedFilter::new(10);

    assert!(filter.visit(0));
    assert!(filter.visit(5));
    assert!(filter.visit(9));

    assert!(!filter.visit(0));
    assert!(!filter.visit(5));
    assert!(!filter.visit(9));

    assert!(filter.is_visited(0));
    assert!(filter.is_visited(5));
    assert!(filter.is_visited(9));
    assert!(!filter.is_visited(1));
    assert!(!filter.is_visited(7));
}

#[test]
fn test_visited_filter_out_of_bounds() {
    let mut filter = VisitedFilter::new(10);

    assert!(!filter.visit(100));
    assert!(!filter.is_visited(100));
}

#[test]
fn test_ef_less_than_k_correction() {
    // The correction itself is exercised by the search tests on built graphs.
}

#[test]
fn test_total_cmp_properties() {
    let values = [0.0f32, -0.0, 1.0, -1.0, f32::INFINITY, f32::NEG_INFINITY, f32::NAN];

    for &a in &values {
        for &b in &values {
            let ours = total_cmp_bits(a.to_bits(), b.to_bits());
            let expected = match a.total_cmp(&b) {
                std::cmp::Ordering::Less => -1,
                std::cmp::Ordering::Equal => 0,
                std::cmp::Ordering::Greater => 1,
            };
            assert_eq!(ours, expected);
        }
    }

    assert_eq!(total_cmp_bits(f32::NAN.to_bits(), f32::NAN.to_bits()), 0);
    assert_eq!(total_cmp_bits(f32::NAN.to_bits(), 0.0f32.to_bits()), 1);
    assert_eq!(total_cmp_bits(f32::NAN.to_bits(), f32::INFINITY.to_bits()), 1);
}

// Search hits

fn hit(id: u64, d: f32) -> chassis::SearchResult {
    chassis::SearchResult { id, distance: d.to_bits() }
}

#[test]
fn test_search_result_ordering() {
    let r1 = hit(1, 0.5);
    let r2 = hit(2, 1.0);
    let r3 = hit(3, 0.5);

    assert_eq!(r1.cmp_distance(&r2), -1);
    assert_eq!(r1.cmp_distance(&r3), 0);
    assert_eq!(r2.cmp_distance(&r1), 1);
}

#[test]
fn test_search_result_in_heap() {
    let mut heap = vec![hit(1, 0.5), hit(2, 1.0), hit(3, 0.1)];
    // Largest distance first, as a max-heap pops them.
    heap.sort_by(|a, b| b.cmp_distance(a).cmp(&0));
    assert_eq!(heap.remove(0).id, 2);
    assert_eq!(heap.remove(0).id, 1);
    assert_eq!(heap.remove(0).id, 3);
}

#[test]
fn test_nan_safe_ordering() {
    let mut results = vec![hit(1, 0.5), hit(2, f32::NAN), hit(3, 1.0)];
    results.sort_by(|a, b| a.cmp_distance(b).cmp(&0));
    assert!(!f32::from_bits(results[0].distance).is_nan());
    assert!(!f32::from_bits(results[1].distance).is_nan());
}
