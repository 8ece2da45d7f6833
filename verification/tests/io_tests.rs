use nn_engine::error::EngineError;
use nn_engine::gpu::pool::{GpuBufferPool, GpuPoolStats};
use nn_engine::io::safetensors::{check_stored_tensors, load_safetensors_bytes, save_safetensors_bytes, StoredTensor, TensorDtype};

fn f32_entry(name: &str, shape: &[usize], values: &[f32]) -> StoredTensor {
    let mut data = Vec::new();
    for v in values {
        data.extend_from_slice(&v.to_le_bytes());
    }
    StoredTensor { name: name.to_string(), dtype: TensorDtype::F32, shape: shape.to_vec(), data }
}

#[test]
fn safetensors_round_trip() {
    let entries = vec![
        f32_entry("weight", &[2, 2], &[1.0, 2.0, 3.0, 4.0]),
        f32_entry("bias", &[2], &[0.5, -0.5]),
    ];
    let bytes = save_safetensors_bytes(&entries).unwrap();
    let mut loaded = load_safetensors_bytes(&bytes).unwrap();
    loaded.sort_by(|a, b| a.name.cmp(&b.name));
    assert_eq!(loaded.len(), 2);
    assert_eq!(loaded[0].name, "bias");
    assert_eq!(loaded[0].shape, vec![2]);
    assert_eq!(loaded[0].data, entries[1].data);
    assert_eq!(loaded[1].name, "weight");
    assert_eq!(loaded[1].shape, vec![2, 2]);
    assert_eq!(loaded[1].data, entries[0].data);
}

#[test]
fn safetensors_refuses_mismatched_bytes_and_garbage() {
    let mut wrong = f32_entry("w", &[3], &[1.0, 2.0]);
    assert!(matches!(save_safetensors_bytes(&vec![f32_entry("ok", &[1], &[1.0]), wrong]), Err(EngineError::SerializationError(_))));
    wrong = f32_entry("w", &[3], &[1.0, 2.0]);
    assert!(matches!(check_stored_tensors(vec![wrong]), Err(EngineError::SerializationError(_))));
    assert!(matches!(load_safetensors_bytes(&[1, 2, 3]), Err(EngineError::SerializationError(_))));
}

#[test]
fn only_f32_tensors_are_accepted() {
    let other = StoredTensor { name: "ids".to_string(), dtype: TensorDtype::Other, shape: vec![2], data: vec![0; 8] };
    assert!(matches!(check_stored_tensors(vec![other]), Err(EngineError::SerializationError(_))));
    let ok = check_stored_tensors(vec![f32_entry("x", &[2, 1], &[1.0, 2.0])]).unwrap();
    assert_eq!(ok.len(), 1);
    assert!(check_stored_tensors(Vec::new()).unwrap().is_empty());
}

#[test]
fn buffer_pool_counts_misses_and_is_cleared() {
    let mut pool = GpuBufferPool::new(1 << 20);
    let (buf, size) = pool.pop(300);
    assert!(buf.is_none());
    assert_eq!(size, 512);
    let (buf, size) = pool.pop(100);
    assert!(buf.is_none());
    assert_eq!(size, 256);
    let (_, size) = pool.pop((1 << 30) + 5);
    assert_eq!(size, (1 << 30) + 5);
    let s = pool.stats();
    assert_eq!(s.hits, 0);
    assert_eq!(s.misses, 3);
    assert_eq!(s.allocated_bytes, 512 + 256 + (1 << 30) + 5);
    assert_eq!(s.free_buffers, 0);
    pool.set_enabled(false);
    pool.clear();
    let s = pool.stats();
    assert_eq!(s.cached_bytes, 0);
    assert_eq!(s.misses, 3);
}

#[test]
fn pool_stats_default_to_zero() {
    let s = GpuPoolStats::default();
    assert_eq!(s.hits + s.misses + s.cached_bytes + s.allocated_bytes + s.free_buffers, 0);
}

#[test]
fn safetensors_header_past_the_end_is_refused() {
    let mut announced_too_long = 1000u64.to_le_bytes().to_vec();
    announced_too_long.extend_from_slice(b"{}");
    assert!(matches!(load_safetensors_bytes(&announced_too_long), Err(EngineError::SerializationError(_))));
    let mut over_limit = 200_000_000u64.to_le_bytes().to_vec();
    over_limit.extend_from_slice(b"{}");
    assert!(matches!(load_safetensors_bytes(&over_limit), Err(EngineError::SerializationError(_))));
}

#[test]
fn safetensors_loaded_bytes_lie_in_the_buffer() {
    let entries = vec![f32_entry("a", &[3], &[1.0, -2.0, 3.5])];
    let bytes = save_safetensors_bytes(&entries).unwrap();
    let loaded = load_safetensors_bytes(&bytes).unwrap();
    assert_eq!(loaded.len(), 1);
    let header = u64::from_le_bytes(bytes[0..8].try_into().unwrap()) as usize;
    let data = &loaded[0].data;
    assert!(bytes[8 + header..].windows(data.len()).any(|w| w == data.as_slice()));
    assert_eq!(data, &entries[0].data);
}

#[test]
fn safetensors_data_end_past_usize_is_refused() {
    let header = br#"{"x":{"dtype":"U8","shape":[18446744073709551608],"data_offsets":[0,18446744073709551608]}}"#;
    let mut buffer = (header.len() as u64).to_le_bytes().to_vec();
    buffer.extend_from_slice(header);
    assert!(matches!(load_safetensors_bytes(&buffer), Err(EngineError::SerializationError(_))));
}

#[test]
fn safetensors_with_a_non_f32_tensor_is_refused() {
    let header = br#"{"ids":{"dtype":"I32","shape":[2],"data_offsets":[0,8]}}"#;
    let mut buffer = (header.len() as u64).to_le_bytes().to_vec();
    buffer.extend_from_slice(header);
    buffer.extend_from_slice(&[0u8; 8]);
    assert!(matches!(load_safetensors_bytes(&buffer), Err(EngineError::SerializationError(_))));
    let header = br#"{"w":{"dtype":"F32","shape":[2],"data_offsets":[0,8]}}"#;
    let mut buffer = (header.len() as u64).to_le_bytes().to_vec();
    buffer.extend_from_slice(header);
    buffer.extend_from_slice(&[0u8; 8]);
    let loaded = load_safetensors_bytes(&buffer).unwrap();
    assert_eq!(loaded.len(), 1);
    assert_eq!(loaded[0].name, "w");
    assert_eq!(loaded[0].shape, vec![2]);
}
