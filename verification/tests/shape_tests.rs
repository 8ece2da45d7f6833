use nn_engine::gpu::pool::bucket_idx;
use nn_engine::nn::init::calculate_fan_in_and_fan_out;
use nn_engine::shape::{
    broadcast_shapes, check_permutation, checked_numel, conv_out_dim, inverse_permutation, matmul_shape, numel,
    pool_out_dim, permute_shape, shape_has_elements, squeeze_shape, transpose_shape, unsqueeze_shape,
};

#[test]
fn broadcast_follows_numpy_rules() {
    assert_eq!(broadcast_shapes(&[2, 1, 4], &[3, 1]), Some(vec![2, 3, 4]));
    assert_eq!(broadcast_shapes(&[5, 4], &[4]), Some(vec![5, 4]));
    assert_eq!(broadcast_shapes(&[2, 3], &[4, 3]), None);
}

#[test]
fn broadcast_commutes_on_examples() {
    let a: &[usize] = &[8, 1, 6, 1];
    let b: &[usize] = &[7, 1, 5];
    assert_eq!(broadcast_shapes(a, b), broadcast_shapes(b, a));
    assert_eq!(broadcast_shapes(a, b), Some(vec![8, 7, 6, 5]));
}

#[test]
fn broadcast_with_scalar_is_identity() {
    assert_eq!(broadcast_shapes(&[3, 4], &[]), Some(vec![3, 4]));
    assert_eq!(broadcast_shapes(&[], &[]), Some(vec![]));
}

#[test]
fn broadcast_of_zero_and_one_gives_zero() {
    assert_eq!(broadcast_shapes(&[1, 3], &[0, 3]), Some(vec![0, 3]));
}

#[test]
fn element_counts() {
    assert_eq!(numel(&[2, 3, 4]), 24);
    assert_eq!(numel(&[]), 1);
    assert_eq!(checked_numel(&[0, 7]), Some(0));
    assert_eq!(checked_numel(&[usize::MAX, 2]), None);
    assert!(shape_has_elements(&[2, 3]));
    assert!(!shape_has_elements(&[2, 0, 3]));
}

#[test]
fn matmul_shapes() {
    assert_eq!(matmul_shape(&[2, 3], &[3, 4], false), Some(vec![2, 4]));
    assert_eq!(matmul_shape(&[5, 2, 3], &[3, 4], false), Some(vec![5, 2, 4]));
    assert_eq!(matmul_shape(&[2, 3], &[4, 3], true), Some(vec![2, 4]));
    assert_eq!(matmul_shape(&[2, 3], &[2, 3], false), None);
    assert_eq!(matmul_shape(&[3], &[3, 4], false), None);
}

#[test]
fn conv_and_pool_output_sizes() {
    // (32 + 2*1 - 1*(3-1) - 1) / 1 + 1 = 32
    assert_eq!(conv_out_dim(32, 3, 1, 1, 1), Some(32));
    // (28 - 5) / 1 + 1 = 24
    assert_eq!(conv_out_dim(28, 5, 1, 0, 1), Some(24));
    // (7 + 0 - 2*(3-1) - 1) / 2 + 1 = 2
    assert_eq!(conv_out_dim(7, 3, 2, 0, 2), Some(2));
    // a kernel larger than the padded input does not fit
    assert_eq!(conv_out_dim(2, 5, 1, 1, 1), None);
    assert_eq!(conv_out_dim(5, 0, 1, 0, 1), None);
    assert_eq!(pool_out_dim(28, 2, 2), Some(14));
    assert_eq!(pool_out_dim(7, 3, 2), Some(3));
    assert_eq!(pool_out_dim(2, 3, 1), None);
}

#[test]
fn permutation_and_inverse() {
    assert!(check_permutation(&[2, 0, 1], 3));
    assert!(!check_permutation(&[0, 0, 1], 3));
    assert!(!check_permutation(&[0, 1], 3));
    let inv = inverse_permutation(&[2, 0, 1]);
    assert_eq!(inv, vec![1, 2, 0]);
    let s = permute_shape(&[4, 5, 6], &[2, 0, 1]);
    assert_eq!(s, vec![6, 4, 5]);
    assert_eq!(permute_shape(&s, &inv), vec![4, 5, 6]);
}

#[test]
fn transpose_twice_and_squeeze_unsqueeze_are_identities() {
    let t = transpose_shape(&[2, 3, 4], 0, 2);
    assert_eq!(t, vec![4, 3, 2]);
    assert_eq!(transpose_shape(&t, 0, 2), vec![2, 3, 4]);
    let u = unsqueeze_shape(&[2, 3], 1);
    assert_eq!(u, vec![2, 1, 3]);
    assert_eq!(squeeze_shape(&u, 1), vec![2, 3]);
    assert_eq!(squeeze_shape(&[2, 3], 1), vec![2, 3]);
}

#[test]
fn fans_of_weight_shapes() {
    assert_eq!(calculate_fan_in_and_fan_out(&[]), (1, 1));
    assert_eq!(calculate_fan_in_and_fan_out(&[7]), (7, 7));
    assert_eq!(calculate_fan_in_and_fan_out(&[10, 20]), (20, 10));
    assert_eq!(calculate_fan_in_and_fan_out(&[16, 3, 5, 5]), (75, 400));
}

#[test]
fn buffer_buckets() {
    assert_eq!(bucket_idx(0), 0);
    assert_eq!(bucket_idx(256), 0);
    assert_eq!(bucket_idx(257), 1);
    assert_eq!(bucket_idx(512), 1);
    assert_eq!(bucket_idx(1 << 20), 12);
    assert_eq!(bucket_idx(1 << 30), 22);
    assert_eq!(bucket_idx((1 << 30) + 1), 22);
    assert_eq!(bucket_idx(u64::MAX), 22);
}
