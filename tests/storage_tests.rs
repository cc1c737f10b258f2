use chassis::storage::GRAPH_ZONE_START;
use chassis::{ChassisError, Storage};
use memmap2::MmapMut;

const SPAN: usize = GRAPH_ZONE_START as usize + (16 << 20);

fn anon() -> MmapMut {
    MmapMut::map_anon(SPAN).unwrap()
}

fn create(dims: u32) -> Storage {
    Storage::create(anon(), dims).unwrap()
}

fn reopen(storage: Storage, dims: u32) -> Result<Storage, ChassisError> {
    Storage::open(storage.into_mapping(), dims)
}

fn bits(v: &[f32]) -> Vec<u32> {
    v.iter().map(|x| x.to_bits()).collect()
}

fn floats(bytes: &[u8]) -> Vec<f32> {
    bytes.chunks_exact(4).map(|c| f32::from_le_bytes([c[0], c[1], c[2], c[3]])).collect()
}

#[test]
fn test_create_and_open() {
    let storage = create(128);
    assert_eq!(storage.count(), 0);
    assert_eq!(storage.dimensions(), 128);

    let storage = reopen(storage, 128).unwrap();
    assert_eq!(storage.count(), 0);
    assert_eq!(storage.dimensions(), 128);
}

#[test]
fn test_dimension_mismatch() {
    let storage = create(128);
    let result = reopen(storage, 256);
    assert!(result.is_err());
    assert!(result.unwrap_err().describe().contains("dimension mismatch"));
}

#[test]
fn test_insert_and_retrieve() {
    let mut storage = create(128);
    let vector = vec![1.0f32, 2.0, 3.0].into_iter().cycle().take(128).collect::<Vec<_>>();

    let id = storage.insert(&bits(&vector)).unwrap();
    assert_eq!(id, 0);
    assert_eq!(storage.count(), 1);

    let retrieved = storage.get_vector(0).unwrap();
    assert_eq!(retrieved, bits(&vector));
}

#[test]
fn test_insert_multiple() {
    let mut storage = create(128);
    for i in 0..100 {
        let id = storage.insert(&bits(&vec![i as f32; 128])).unwrap();
        assert_eq!(id, i);
    }
    assert_eq!(storage.count(), 100);
    for i in 0..100 {
        assert_eq!(storage.get_vector(i).unwrap(), bits(&vec![i as f32; 128]));
    }
}

#[test]
fn test_commit_durability() {
    let mut storage = create(128);
    storage.insert(&bits(&vec![42.0; 128])).unwrap();
    storage.mapping().flush().unwrap();

    let storage = reopen(storage, 128).unwrap();
    assert_eq!(storage.count(), 1);
    assert_eq!(storage.get_vector(0).unwrap(), bits(&vec![42.0; 128]));
}

#[test]
fn test_out_of_bounds_read() {
    let storage = create(128);
    let result = storage.get_vector(0);
    assert!(result.is_err());
    assert!(result.unwrap_err().describe().contains("out of bounds"));
}

#[test]
fn test_wrong_dimension_insert() {
    let mut storage = create(128);
    let result = storage.insert(&bits(&vec![1.0; 256]));
    assert!(result.is_err());
    assert!(result.unwrap_err().describe().contains("dimension mismatch"));
    assert_eq!(storage.count(), 0);
}

#[test]
fn test_persistence_across_reopens() {
    let mut storage = create(128);
    for i in 0..10 {
        storage.insert(&bits(&vec![i as f32; 128])).unwrap();
    }

    let storage = reopen(storage, 128).unwrap();
    assert_eq!(storage.count(), 10);
    for i in 0..10 {
        assert_eq!(storage.get_vector(i).unwrap(), bits(&vec![i as f32; 128]));
    }

    let mut storage = reopen(storage, 128).unwrap();
    assert_eq!(storage.count(), 10);
    storage.insert(&bits(&vec![99.0; 128])).unwrap();

    let storage = reopen(storage, 128).unwrap();
    assert_eq!(storage.count(), 11);
    assert_eq!(storage.get_vector(10).unwrap(), bits(&vec![99.0; 128]));
}

#[test]
fn test_get_vector_slice_returns_correct_data() {
    let mut storage = create(128);
    let vector = (0..128).map(|i| i as f32).collect::<Vec<_>>();
    storage.insert(&bits(&vector)).unwrap();

    let slice = floats(storage.get_vector_slice(0).unwrap());
    assert_eq!(slice.len(), 128);
    for (i, &val) in slice.iter().enumerate() {
        assert_eq!(val, i as f32, "Mismatch at index {}", i);
    }
}

#[test]
fn test_get_vector_slice_matches_get_vector() {
    let mut storage = create(768);
    for i in 0..10 {
        storage.insert(&bits(&vec![i as f32 * 1.5; 768])).unwrap();
    }
    for i in 0..10 {
        let slice = floats(storage.get_vector_slice(i).unwrap());
        let owned = storage.get_vector(i).unwrap();
        assert_eq!(slice.len(), owned.len());
        assert_eq!(bits(&slice), owned);
    }
}

#[test]
fn test_get_vector_slice_out_of_bounds() {
    let storage = create(128);
    let result = storage.get_vector_slice(0);
    assert!(result.is_err());
    assert!(result.unwrap_err().describe().contains("out of bounds"));
}

#[test]
fn test_get_vector_slice_out_of_bounds_with_data() {
    let mut storage = create(128);
    storage.insert(&bits(&vec![1.0; 128])).unwrap();

    let result = storage.get_vector_slice(1);
    assert!(result.is_err());
    assert!(result.unwrap_err().describe().contains("out of bounds"));

    assert_eq!(storage.get_vector_slice(0).unwrap().len(), 128 * 4);
}

#[test]
fn test_get_vector_slice_correct_length() {
    for dims in [1u32, 64, 128, 384, 768, 1536] {
        let mut storage = create(dims);
        storage.insert(&bits(&vec![42.0; dims as usize])).unwrap();
        let slice = floats(storage.get_vector_slice(0).unwrap());
        assert_eq!(slice.len(), dims as usize, "Slice length mismatch for {} dimensions", dims);
        for &val in &slice {
            assert_eq!(val, 42.0);
        }
    }
}

#[test]
fn test_get_vector_slice_multiple_vectors() {
    let mut storage = create(128);
    for i in 0..1000 {
        storage.insert(&bits(&vec![i as f32; 128])).unwrap();
    }
    for i in 0..1000 {
        let slice = floats(storage.get_vector_slice(i).unwrap());
        assert_eq!(slice.len(), 128);
        assert!(slice.iter().all(|&v| v == i as f32));
    }
}

#[test]
fn test_get_vector_slice_after_reopen() {
    let mut storage = create(256);
    for i in 0..10 {
        storage.insert(&bits(&vec![i as f32 + 0.5; 256])).unwrap();
    }
    let storage = reopen(storage, 256).unwrap();
    for i in 0..10 {
        let slice = floats(storage.get_vector_slice(i).unwrap());
        assert_eq!(slice.len(), 256);
        assert!(slice.iter().all(|&v| v == (i as f32 + 0.5)));
    }
}

#[test]
fn test_get_vector_slice_no_allocation() {
    let mut storage = create(128);
    storage.insert(&bits(&vec![3.14; 128])).unwrap();

    let slice1 = storage.get_vector_slice(0).unwrap();
    let slice2 = storage.get_vector_slice(0).unwrap();
    assert_eq!(slice1.as_ptr(), slice2.as_ptr(), "Slices should point to the same memory (zero-copy)");
    assert_eq!(slice1, slice2);
    assert!(floats(slice1).iter().all(|&v| v == 3.14));
}

#[test]
fn test_get_vector_slice_alignment() {
    let mut storage = create(768);
    for i in 0..10 {
        storage.insert(&bits(&vec![i as f32; 768])).unwrap();
    }
    for i in 0..10 {
        let ptr = storage.get_vector_slice(i).unwrap().as_ptr() as usize;
        assert_eq!(ptr % 4, 0, "Slice at index {} has misaligned pointer: 0x{:x}", i, ptr);
    }
}

#[test]
fn test_get_vector_slice_distance_calculation() {
    let mut storage = create(128);
    storage.insert(&bits(&vec![1.0; 128])).unwrap();
    storage.insert(&bits(&vec![2.0; 128])).unwrap();

    let slice1 = floats(storage.get_vector_slice(0).unwrap());
    let slice2 = floats(storage.get_vector_slice(1).unwrap());
    let distance: f32 = slice1
        .iter()
        .zip(slice2.iter())
        .map(|(a, b)| {
            let diff = a - b;
            diff * diff
        })
        .sum::<f32>()
        .sqrt();
    let expected = (128.0_f32).sqrt();
    assert!((distance - expected).abs() < 0.01, "Distance calculation incorrect: expected {}, got {}", expected, distance);
}

#[test]
fn test_multiple_simultaneous_slices() {
    let mut storage = create(128);
    for i in 0..5 {
        storage.insert(&bits(&vec![i as f32; 128])).unwrap();
    }
    let slices: Vec<&[u8]> = (0..5).map(|i| storage.get_vector_slice(i).unwrap()).collect();
    for (i, s) in slices.iter().enumerate() {
        assert!(floats(s).iter().all(|&v| v == i as f32));
    }
}

#[test]
fn test_slice_then_read_only_operations() {
    let mut storage = create(128);
    storage.insert(&bits(&vec![1.0; 128])).unwrap();
    storage.insert(&bits(&vec![2.0; 128])).unwrap();

    let slice = storage.get_vector_slice(0).unwrap();
    assert_eq!(storage.count(), 2);
    assert_eq!(storage.dimensions(), 128);
    let other_slice = storage.get_vector_slice(1).unwrap();
    let owned = storage.get_vector(1).unwrap();
    assert_eq!(slice.len(), 128 * 4);
    assert_eq!(other_slice.len(), 128 * 4);
    assert_eq!(owned.len(), 128);
}

#[test]
fn test_zero_dimensional_vectors_not_supported() {
    assert!(Storage::create(anon(), 0).is_err());
}

#[test]
fn nan_components_roundtrip_bit_for_bit() {
    let mut storage = create(3);
    let v = vec![f32::NAN.to_bits() | 0x1234, (-0.0f32).to_bits(), f32::INFINITY.to_bits()];
    let id = storage.insert(&v).unwrap();
    assert_eq!(storage.get_vector(id).unwrap(), v);
}

#[test]
fn vector_bytes_sit_after_the_header_page() {
    let mut storage = create(2);
    storage.insert(&[0x0403_0201, 0x0807_0605]).unwrap();
    let page = storage.graph_zone(0, 4096 + 8).unwrap();
    assert_eq!(&page[0..8], b"CHASSIS\0");
    assert_eq!(&page[16..24], &[1, 0, 0, 0, 0, 0, 0, 0]);
    assert_eq!(&page[4096..4104], &[1, 2, 3, 4, 5, 6, 7, 8]);
}

#[test]
fn short_mapping_is_reported_with_its_page_aligned_need() {
    let map = MmapMut::map_anon(4096).unwrap();
    let mut storage = Storage::create(map, 4).unwrap();
    assert_eq!(storage.required_len_for_insert(), Some(8192));
    let r = storage.insert(&[0, 0, 0, 0]);
    assert_eq!(r, Err(ChassisError::MappingTooSmall { required: 8192 }));
    assert_eq!(storage.count(), 0);
    assert!(Storage::create(MmapMut::map_anon(100).unwrap(), 4).is_err());
}

#[test]
fn truncate_logical_rolls_back_the_count_only() {
    let mut storage = create(4);
    for i in 0..3u32 {
        storage.insert(&[i, i, i, i]).unwrap();
    }
    storage.truncate_logical(1);
    assert_eq!(storage.count(), 1);
    assert!(storage.get_vector(1).is_err());
    storage.truncate_logical(5);
    assert_eq!(storage.count(), 1);
    assert_eq!(storage.insert(&[9, 9, 9, 9]).unwrap(), 1);
    assert_eq!(storage.get_vector(1).unwrap(), vec![9, 9, 9, 9]);
}

#[test]
fn graph_zone_writes_stay_past_the_vector_zone() {
    let mut storage = create(4);
    assert!(storage.write_graph_zone(4096, &[1, 2, 3]).is_err());
    let at = GRAPH_ZONE_START as usize;
    storage.write_graph_zone(at, &[1, 2, 3]).unwrap();
    assert_eq!(storage.graph_zone(at, 3).unwrap(), &[1, 2, 3]);
    assert!(storage.graph_zone(SPAN - 2, 3).is_err());
    assert!(storage.write_graph_zone(SPAN - 2, &[1, 2, 3]).is_err());
}

#[test]
fn open_rejects_foreign_and_corrupt_files() {
    let map = anon();
    assert_eq!(Storage::open(map, 4).err(), Some(ChassisError::NotAnIndexFile));

    let storage = create(4);
    let mut map = storage.into_mapping();
    map[12] = 0;
    assert_eq!(Storage::open(map, 4).err(), Some(ChassisError::CorruptedHeader));
}
