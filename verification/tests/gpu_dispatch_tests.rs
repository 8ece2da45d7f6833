use nn_engine::error::EngineError;
use nn_engine::gpu::dispatch::{
    check_upload, div_ceil_u32, elementwise_plan, matmul_plan, norm_plan, softmax_plan, GPU_OP_ADD, GPU_OP_RELU,
    GPU_OP_SCALE,
};

fn op_of(e: EngineError) -> (&'static str, Vec<Vec<usize>>) {
    match e {
        EngineError::IncompatibleShapes { op, shapes } => (op, shapes),
        _ => panic!("expected IncompatibleShapes"),
    }
}

#[test]
fn div_ceil_rounds_up() {
    assert_eq!(div_ceil_u32(0, 64), 0);
    assert_eq!(div_ceil_u32(1, 64), 1);
    assert_eq!(div_ceil_u32(64, 64), 1);
    assert_eq!(div_ceil_u32(65, 64), 2);
    assert_eq!(div_ceil_u32(u32::MAX, 256), 16_777_216);
    assert_eq!(div_ceil_u32(u32::MAX, 1), u32::MAX);
}

#[test]
fn matmul_plan_dimensions_and_workgroups() {
    let p = matmul_plan(&[2, 3], &[3, 4]).unwrap();
    assert_eq!(p.out_shape, vec![2, 4]);
    assert_eq!(p.out_bytes, 32);
    assert_eq!(p.params, vec![2, 3, 4, 0]);
    assert_eq!(p.workgroups, (1, 1));
    assert_eq!(p.placeholder_len, 0);

    let q = matmul_plan(&[128, 5], &[5, 130]).unwrap();
    assert_eq!(q.workgroups, (3, 2));
    assert_eq!(q.out_bytes, 128 * 130 * 4);
}

#[test]
fn matmul_plan_refusals() {
    let (op, shapes) = op_of(matmul_plan(&[3], &[3, 4]).err().unwrap());
    assert_eq!(op, "GpuTensor::matmul");
    assert_eq!(shapes, vec![vec![3], vec![3, 4]]);
    let (op, _) = op_of(matmul_plan(&[2, 3], &[4, 5]).err().unwrap());
    assert_eq!(op, "GpuTensor::matmul (inner dimensions mismatch)");
}

#[test]
fn elementwise_plan_broadcast_rule() {
    let a = [3usize, 4];
    let same = elementwise_plan(&a, Some(&[3, 4]), GPU_OP_ADD, 0).unwrap();
    assert_eq!(same.params, vec![12, GPU_OP_ADD, 0, 12]);
    assert_eq!(same.out_shape, vec![3, 4]);
    assert_eq!(same.out_bytes, 48);
    assert_eq!(same.workgroups, (1, 1));
    assert_eq!(same.placeholder_len, 0);

    assert_eq!(elementwise_plan(&a, Some(&[1]), GPU_OP_ADD, 0).unwrap().params[3], 1);
    assert_eq!(elementwise_plan(&a, Some(&[4]), GPU_OP_ADD, 0).unwrap().params[3], 4);
    assert_eq!(elementwise_plan(&a, Some(&[1, 4]), GPU_OP_ADD, 0).unwrap().params[3], 4);
    let (op, shapes) = op_of(elementwise_plan(&a, Some(&[3]), GPU_OP_ADD, 0).err().unwrap());
    assert_eq!(op, "GpuTensor elementwise");
    assert_eq!(shapes, vec![vec![3, 4], vec![3]]);

    let relu = elementwise_plan(&a, None, GPU_OP_RELU, 0).unwrap();
    assert_eq!(relu.params, vec![12, GPU_OP_RELU, 0, 1]);
    assert_eq!(relu.placeholder_len, 1);

    let scale = elementwise_plan(&[1000], None, GPU_OP_SCALE, 2.5f32.to_bits()).unwrap();
    assert_eq!(scale.params, vec![1000, GPU_OP_SCALE, 2.5f32.to_bits(), 1]);
    assert_eq!(scale.workgroups, (4, 1));
}

#[test]
fn row_kernel_plans() {
    let s = softmax_plan(&[5, 7]).unwrap();
    assert_eq!(s.params, vec![5, 7, 0, 0]);
    assert_eq!(s.out_bytes, 140);
    assert_eq!(s.workgroups, (1, 1));
    let (op, _) = op_of(softmax_plan(&[5]).err().unwrap());
    assert_eq!(op, "GpuTensor::softmax (expected 2D tensor)");

    let eps = 1e-5f32.to_bits();
    let ln = norm_plan(&[130, 8], eps, false, true);
    assert_eq!(ln.params, vec![130, 8, eps, 0]);
    assert_eq!(ln.workgroups, (3, 1));
    assert_eq!(ln.placeholder_len, 0);
    assert_eq!(norm_plan(&[130, 8], eps, false, false).placeholder_len, 8);
    let rms = norm_plan(&[2, 8], eps, true, false);
    assert_eq!(rms.params, vec![2, 8, eps, 1]);
    assert_eq!(rms.placeholder_len, 8);
}

#[test]
fn upload_counts_must_agree() {
    assert!(check_upload(6, &[2, 3]).is_ok());
    let (op, shapes) = op_of(check_upload(5, &[2, 3]).err().unwrap());
    assert_eq!(op, "GpuTensor::from_slice");
    assert_eq!(shapes, vec![vec![5], vec![2, 3]]);
}
