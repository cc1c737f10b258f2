use chassis::storage::GRAPH_ZONE_START;
use chassis::{ChassisError, HnswGraph, HnswParams, IndexOptions, SearchResult, Storage, VectorDistance, VectorIndex};
use memmap2::MmapMut;

const SPAN: usize = GRAPH_ZONE_START as usize + (32 << 20);

/// Euclidean distance over little-endian `f32` bytes.
struct L2;

impl VectorDistance for L2 {
    fn distance(&self, a: &[u8], b: &[u8]) -> u32 {
        let mut sum = 0.0f32;
        for (x, y) in a.chunks_exact(4).zip(b.chunks_exact(4)) {
            let x = f32::from_le_bytes([x[0], x[1], x[2], x[3]]);
            let y = f32::from_le_bytes([y[0], y[1], y[2], y[3]]);
            let d = x - y;
            sum += d * d;
        }
        sum.sqrt().to_bits()
    }
}

fn bits(v: &[f32]) -> Vec<u32> {
    v.iter().map(|x| x.to_bits()).collect()
}

fn dist(r: &SearchResult) -> f32 {
    f32::from_bits(r.distance)
}

/// A layer drawn by exponential decay from a fixed sequence of uniforms.
fn layer_for(i: u64, m: u16) -> usize {
    let h = i.wrapping_mul(0x9E37_79B9_7F4A_7C15).rotate_left(17) >> 40;
    let u = ((h as f32) + 1.0) / ((1u64 << 24) as f32 + 2.0);
    (-u.ln() * (1.0 / (m as f32).ln())).floor() as usize
}

fn create(dims: u32, options: IndexOptions) -> VectorIndex<L2> {
    let storage = Storage::create(MmapMut::map_anon(SPAN).unwrap(), dims).unwrap();
    VectorIndex::open(storage, options, L2).unwrap()
}

fn add(index: &mut VectorIndex<L2>, v: &[f32]) -> Result<u64, ChassisError> {
    let layer = layer_for(index.len(), 16);
    index.add(&bits(v), layer)
}

fn search(index: &VectorIndex<L2>, v: &[f32], k: usize) -> Result<Vec<SearchResult>, ChassisError> {
    index.search(&bits(v), k)
}

fn flush(index: &mut VectorIndex<L2>) {
    index.storage().mapping().flush().unwrap();
    index.write_graph_header().unwrap();
    index.storage().mapping().flush().unwrap();
}

fn reopen(index: VectorIndex<L2>, dims: u32, options: IndexOptions) -> Result<VectorIndex<L2>, ChassisError> {
    let map = index.into_storage().into_mapping();
    VectorIndex::open(Storage::open(map, dims)?, options, L2)
}

#[test]
fn test_vector_index_create_and_add() {
    let mut index = create(128, IndexOptions::default());
    assert_eq!(index.len(), 0);
    assert!(index.is_empty());
    assert_eq!(index.dimensions(), 128);

    let id = add(&mut index, &vec![0.1; 128]).unwrap();
    assert_eq!(id, 0);
    assert_eq!(index.len(), 1);
    assert!(!index.is_empty());
}

#[test]
fn test_vector_index_dimension_mismatch() {
    let mut index = create(128, IndexOptions::default());
    let result = add(&mut index, &vec![0.1; 64]);
    assert!(result.is_err());
    assert!(result.unwrap_err().describe().contains("dimension mismatch"));
}

#[test]
fn test_vector_index_search() {
    let mut index = create(128, IndexOptions::default());
    for i in 0..10 {
        let mut vector = vec![0.0; 128];
        vector[0] = i as f32 / 10.0;
        add(&mut index, &vector).unwrap();
    }
    let results = search(&index, &vec![0.5; 128], 5).unwrap();
    assert!(results.len() <= 5);
    assert!(results.len() <= 10);
}

#[test]
fn test_vector_index_persistence() {
    let mut index = create(128, IndexOptions::default());
    for i in 0..5 {
        let mut vector = vec![0.0; 128];
        vector[0] = i as f32;
        add(&mut index, &vector).unwrap();
    }
    flush(&mut index);

    let index = reopen(index, 128, IndexOptions::default()).unwrap();
    assert_eq!(index.len(), 5);
    let mut query = vec![0.0; 128];
    query[0] = 2.0;
    assert!(!search(&index, &query, 3).unwrap().is_empty());
}

#[test]
fn lib_test_ghost_node_recovery() {
    let mut storage = Storage::create(MmapMut::map_anon(SPAN).unwrap(), 128).unwrap();
    storage.insert(&bits(&vec![1.0; 128])).unwrap();
    let graph = HnswGraph::open(storage, HnswParams::default()).unwrap();
    assert_eq!(graph.storage.count(), 1);
    assert_eq!(graph.node_count(), 0);
    let map = graph.storage.into_mapping();

    let mut index = VectorIndex::open(Storage::open(map, 128).unwrap(), IndexOptions::default(), L2).unwrap();
    assert_eq!(index.len(), 0);
    let id = add(&mut index, &vec![2.0; 128]).unwrap();
    assert_eq!(id, 0);
    assert_eq!(index.len(), 1);
    assert_eq!(index.get_vector(0).unwrap(), bits(&vec![2.0; 128]));
}

#[test]
fn test_diverse_neighbor_selection() {
    let mut index = create(128, IndexOptions::default());
    for i in 0..20 {
        let mut vector = vec![0.0; 128];
        vector[0] = i as f32;
        add(&mut index, &vector).unwrap();
    }
    assert_eq!(index.len(), 20);
    assert!(!search(&index, &vec![10.0; 128], 5).unwrap().is_empty());
}

#[test]
fn test_index_lifecycle_basic() {
    let mut index = create(128, IndexOptions::default());
    assert_eq!(index.len(), 0);
    assert!(index.is_empty());
    assert_eq!(index.dimensions(), 128);

    assert_eq!(add(&mut index, &vec![0.1; 128]).unwrap(), 0);
    assert_eq!(add(&mut index, &vec![0.2; 128]).unwrap(), 1);
    assert_eq!(add(&mut index, &vec![0.3; 128]).unwrap(), 2);
    assert_eq!(index.len(), 3);

    let results = search(&index, &vec![0.15; 128], 2).unwrap();
    assert_eq!(results.len(), 2);
    assert!(dist(&results[0]) <= dist(&results[1]));
    flush(&mut index);
}

#[test]
fn test_index_persistence() {
    let mut index = create(256, IndexOptions::default());
    for i in 0..20 {
        let mut vec = vec![0.0; 256];
        vec[0] = i as f32 / 20.0;
        vec[1] = ((i % 5) as f32) / 5.0;
        add(&mut index, &vec).unwrap();
    }
    assert_eq!(index.len(), 20);
    flush(&mut index);

    let index = reopen(index, 256, IndexOptions::default()).unwrap();
    assert_eq!(index.len(), 20);
    assert_eq!(index.dimensions(), 256);
    assert_eq!(search(&index, &vec![0.5; 256], 5).unwrap().len(), 5);
}

#[test]
fn test_dimension_validation() {
    let mut index = create(128, IndexOptions::default());
    let result = add(&mut index, &vec![0.1; 64]);
    assert!(result.unwrap_err().describe().contains("dimension mismatch"));
    let result = search(&index, &vec![0.1; 64], 5);
    assert!(result.unwrap_err().describe().contains("dimension mismatch"));
}

#[test]
fn test_search_empty_index() {
    let index = create(128, IndexOptions::default());
    assert!(search(&index, &vec![0.5; 128], 10).unwrap().is_empty());
}

#[test]
fn test_search_single_vector() {
    let mut index = create(128, IndexOptions::default());
    add(&mut index, &vec![0.5; 128]).unwrap();
    let results = search(&index, &vec![0.5; 128], 5).unwrap();
    assert_eq!(results.len(), 1);
    assert_eq!(results[0].id, 0);
    assert!(dist(&results[0]) < 0.001);
}

#[test]
fn test_search_quality() {
    let mut index = create(2, IndexOptions::default());
    for i in 0..10 {
        add(&mut index, &[i as f32, 0.0]).unwrap();
    }
    let results = search(&index, &[4.5, 0.0], 3).unwrap();
    assert_eq!(results.len(), 3);
    let top_two_ids: Vec<u64> = results.iter().take(2).map(|r| r.id).collect();
    assert!(top_two_ids.contains(&4));
    assert!(top_two_ids.contains(&5));
}

#[test]
fn test_large_batch_insert() {
    let mut index = create(128, IndexOptions::default());
    for i in 0..100 {
        let mut vec = vec![0.0; 128];
        vec[0] = (i as f32) / 100.0;
        vec[1] = ((i % 10) as f32) / 10.0;
        assert_eq!(add(&mut index, &vec).unwrap(), i as u64);
    }
    assert_eq!(index.len(), 100);
    let results = search(&index, &vec![0.5; 128], 10).unwrap();
    assert_eq!(results.len(), 10);
    for i in 1..results.len() {
        assert!(dist(&results[i - 1]) <= dist(&results[i]));
    }
}

#[test]
fn test_custom_options() {
    let options = IndexOptions { max_connections: 8, ef_construction: 100, ef_search: 25 };
    let mut index = create(128, options);
    for i in 0..20 {
        add(&mut index, &vec![i as f32 / 20.0; 128]).unwrap();
    }
    assert!(search(&index, &vec![0.5; 128], 5).unwrap().len() <= 5);
}

#[test]
fn test_flush_durability() {
    let mut index = create(128, IndexOptions::default());
    for i in 0..10 {
        add(&mut index, &vec![i as f32; 128]).unwrap();
    }
    flush(&mut index);
    let index = reopen(index, 128, IndexOptions::default()).unwrap();
    assert_eq!(index.len(), 10);
}

#[test]
fn test_no_flush_loses_data() {
    let mut index = create(128, IndexOptions::default());
    for i in 0..5 {
        add(&mut index, &vec![i as f32; 128]).unwrap();
    }
    let index = reopen(index, 128, IndexOptions::default()).unwrap();
    assert!(index.len() <= 5);
}

#[test]
fn index_integration_test_ghost_node_recovery() {
    let mut storage = Storage::create(MmapMut::map_anon(SPAN).unwrap(), 128).unwrap();
    storage.insert(&bits(&vec![1.0; 128])).unwrap();
    storage.insert(&bits(&vec![2.0; 128])).unwrap();
    let mut graph = HnswGraph::open(storage, HnswParams::default()).unwrap();
    graph.write_node_and_backlinks(&L2, 0, 1, &[vec![]]).unwrap();
    graph.publish_node(0, 1).unwrap();
    graph.write_graph_header().unwrap();
    let map = graph.storage.into_mapping();

    let mut index = VectorIndex::open(Storage::open(map, 128).unwrap(), IndexOptions::default(), L2).unwrap();
    assert_eq!(index.len(), 1);
    let id = add(&mut index, &vec![3.0; 128]).unwrap();
    assert_eq!(id, 1);
    assert_eq!(index.len(), 2);
}

#[test]
fn test_dimension_mismatch_on_reopen() {
    let mut index = create(128, IndexOptions::default());
    add(&mut index, &vec![1.0; 128]).unwrap();
    flush(&mut index);
    let result = reopen(index, 256, IndexOptions::default());
    assert!(result.is_err());
    assert!(result.err().unwrap().describe().contains("mismatch"));
}

#[test]
fn test_search_returns_k_or_fewer() {
    let mut index = create(128, IndexOptions::default());
    for i in 0..5 {
        add(&mut index, &vec![i as f32; 128]).unwrap();
    }
    assert_eq!(search(&index, &vec![0.0; 128], 10).unwrap().len(), 5);
    assert_eq!(search(&index, &vec![0.0; 128], 3).unwrap().len(), 3);
}

#[test]
fn index_integration_test_identical_vectors() {
    let mut index = create(128, IndexOptions::default());
    for _ in 0..10 {
        add(&mut index, &vec![0.5; 128]).unwrap();
    }
    let results = search(&index, &vec![0.5; 128], 5).unwrap();
    assert_eq!(results.len(), 5);
    for result in results {
        assert!(dist(&result) < 0.001);
    }
}

#[test]
fn test_search_with_k_zero() {
    let mut index = create(128, IndexOptions::default());
    add(&mut index, &vec![1.0; 128]).unwrap();
    assert!(search(&index, &vec![1.0; 128], 0).unwrap().is_empty());
}

#[test]
fn test_stress_sequential_adds() {
    let mut index = create(128, IndexOptions::default());
    for i in 0..1000 {
        let mut vec = vec![0.0; 128];
        vec[0] = (i as f32) / 1000.0;
        vec[1] = ((i % 100) as f32) / 100.0;
        vec[2] = ((i % 10) as f32) / 10.0;
        assert_eq!(add(&mut index, &vec).unwrap(), i as u64);
    }
    assert_eq!(index.len(), 1000);
    let results = search(&index, &vec![0.5; 128], 20).unwrap();
    assert_eq!(results.len(), 20);
    for i in 1..results.len() {
        assert!(dist(&results[i - 1]) <= dist(&results[i]));
    }
}

#[test]
fn fresh_file_one_add_search() {
    let options = IndexOptions { ef_search: 10, ..IndexOptions::default() };
    let mut index = create(4, options);
    assert_eq!(add(&mut index, &[1.0, 2.0, 3.0, 4.0]).unwrap(), 0);
    let results = search(&index, &[1.0, 2.0, 3.0, 4.0], 5).unwrap();
    assert_eq!(results.len(), 1);
    assert_eq!(results[0].id, 0);
    assert_eq!(dist(&results[0]), 0.0);
}

#[test]
fn persistence_of_ten_vectors() {
    let mut index = create(4, IndexOptions::default());
    for i in 0..10 {
        let x = i as f32;
        add(&mut index, &[x, x, x, x]).unwrap();
    }
    flush(&mut index);
    let index = reopen(index, 4, IndexOptions::default()).unwrap();
    assert_eq!(index.len(), 10);
    assert_eq!(index.get_vector(7).unwrap(), bits(&[7.0, 7.0, 7.0, 7.0]));
    let results = search(&index, &[5.0, 5.0, 5.0, 5.0], 3).unwrap();
    assert_eq!(results.len(), 3);
    let top: Vec<u64> = results.iter().take(2).map(|r| r.id).collect();
    assert!(top.contains(&4) && top.contains(&5));
    assert!(results[2].id == 3 || results[2].id == 6);
}

#[test]
fn ghost_vector_is_reclaimed() {
    let mut index = create(4, IndexOptions::default());
    add(&mut index, &[1.0, 1.0, 1.0, 1.0]).unwrap();
    flush(&mut index);
    let mut storage = index.into_storage();
    storage.insert(&bits(&[2.0, 2.0, 2.0, 2.0])).unwrap();
    storage.mapping().flush().unwrap();
    assert_eq!(storage.count(), 2);

    let mut index = VectorIndex::open(Storage::open(storage.into_mapping(), 4).unwrap(), IndexOptions::default(), L2).unwrap();
    assert_eq!(index.len(), 1);
    assert_eq!(add(&mut index, &[9.0, 9.0, 9.0, 9.0]).unwrap(), 1);
    assert_eq!(index.get_vector(1).unwrap(), bits(&[9.0, 9.0, 9.0, 9.0]));
}

#[test]
fn reopen_with_other_dimensions_fails() {
    let index = create(128, IndexOptions::default());
    let result = reopen(index, 256, IndexOptions::default());
    assert_eq!(result.err(), Some(ChassisError::DimensionConflict { stored: 128, requested: 256 }));
}

#[test]
fn round_trip_keeps_every_vector() {
    let mut index = create(3, IndexOptions::default());
    let vs: Vec<Vec<f32>> = (0..30).map(|i| vec![i as f32, -(i as f32), 0.25 * i as f32]).collect();
    for (i, v) in vs.iter().enumerate() {
        assert_eq!(add(&mut index, v).unwrap(), i as u64);
    }
    for (i, v) in vs.iter().enumerate() {
        assert_eq!(index.get_vector(i as u64).unwrap(), bits(v));
    }
    assert!(index.get_vector(30).is_err());
}

#[test]
fn add_reports_a_short_mapping_and_changes_nothing() {
    let storage = Storage::create(MmapMut::map_anon(GRAPH_ZONE_START as usize + 64).unwrap(), 4).unwrap();
    let mut index = VectorIndex::open(storage, IndexOptions::default(), L2).unwrap();
    let need = index.required_len_for_add().unwrap();
    assert!(need > GRAPH_ZONE_START + 64);
    assert_eq!(need % 4096, 0);
    let r = index.add(&[0, 0, 0, 0], 0);
    assert_eq!(r, Err(ChassisError::MappingTooSmall { required: need }));
    assert_eq!(index.len(), 0);
}

#[test]
fn graph_ahead_of_storage_is_corruption() {
    let mut storage = Storage::create(MmapMut::map_anon(SPAN).unwrap(), 4).unwrap();
    storage.insert(&[0, 0, 0, 0]).unwrap();
    let mut graph = HnswGraph::open(storage, HnswParams::default()).unwrap();
    graph.insert(0, 0).unwrap();
    graph.write_graph_header().unwrap();
    let mut storage = graph.storage;
    storage.truncate_logical(0);
    let r = VectorIndex::open(Storage::open(storage.into_mapping(), 4).unwrap(), IndexOptions::default(), L2);
    assert_eq!(r.err(), Some(ChassisError::GraphAheadOfStorage { nodes: 1, vectors: 0 }));
}
