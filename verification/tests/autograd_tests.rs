use nn_engine::autograd::context::{is_grad_enabled, no_grad, set_grad_enabled, NoGradGuard};
use nn_engine::autograd::node::{unbroadcast_to, Conv2dParams, Graph, LeafInit, Op};
use nn_engine::nn::init::{ones_, zeros_};
use nn_engine::autograd::tensor::Tensor;
use nn_engine::error::EngineError;

#[test]
fn elementwise_ops_broadcast() {
    let mut g = Graph::new();
    let a = Tensor::new(&mut g, &[4, 1, 3], true);
    let b = Tensor::new(&mut g, &[5, 3], false);
    let c = a.add(&mut g, &b).unwrap();
    assert_eq!(c.shape(&g), vec![4, 5, 3]);
    let d = c.mul(&mut g, &b).unwrap();
    assert_eq!(d.shape(&g), vec![4, 5, 3]);
    assert!(matches!(g.nodes[d.id].op, Op::Mul));
    assert_eq!(g.nodes[d.id].inputs, vec![c.id, b.id]);
}

#[test]
fn incompatible_shapes_are_refused_and_leave_the_graph_unchanged() {
    let mut g = Graph::new();
    let a = Tensor::new(&mut g, &[2, 3], true);
    let b = Tensor::new(&mut g, &[4, 3], true);
    let n = g.nodes.len();
    match a.sub(&mut g, &b) {
        Err(EngineError::IncompatibleShapes { op, shapes }) => {
            assert_eq!(op, "sub");
            assert_eq!(shapes, vec![vec![2, 3], vec![4, 3]]);
        },
        other => panic!("unexpected result {:?}", other),
    }
    assert_eq!(g.nodes.len(), n);
}

#[test]
fn matmul_and_transposed_matmul() {
    let mut g = Graph::new();
    let x = Tensor::new(&mut g, &[8, 2, 3], false);
    let w = Tensor::new(&mut g, &[3, 5], true);
    let y = x.matmul(&mut g, &w).unwrap();
    assert_eq!(y.shape(&g), vec![8, 2, 5]);
    let wt = Tensor::new(&mut g, &[5, 3], true);
    let z = x.matmul_transposed_b(&mut g, &wt).unwrap();
    assert_eq!(z.shape(&g), vec![8, 2, 5]);
    assert!(matches!(x.matmul(&mut g, &wt), Err(EngineError::IncompatibleShapes { .. })));
}

#[test]
fn reductions_and_axis_errors() {
    let mut g = Graph::new();
    let x = Tensor::new(&mut g, &[2, 3, 4], true);
    assert_eq!(x.sum(&mut g, 1, false).unwrap().shape(&g), vec![2, 4]);
    assert_eq!(x.mean(&mut g, 2, true).unwrap().shape(&g), vec![2, 3, 1]);
    assert_eq!(x.sum_all(&mut g).shape(&g), Vec::<usize>::new());
    assert!(matches!(x.sum(&mut g, 3, false), Err(EngineError::DimensionOutOfBounds { axis: 3, ndim: 3 })));
    assert!(matches!(x.softmax(&mut g, 5), Err(EngineError::DimensionOutOfBounds { axis: 5, ndim: 3 })));
    assert_eq!(x.log_softmax(&mut g, 2).unwrap().shape(&g), vec![2, 3, 4]);
}

#[test]
fn layout_operations() {
    let mut g = Graph::new();
    let x = Tensor::new(&mut g, &[2, 3, 4], true);
    assert_eq!(x.reshape(&mut g, &[6, 4]).unwrap().shape(&g), vec![6, 4]);
    match x.reshape(&mut g, &[5, 5]) {
        Err(EngineError::ShapeMismatch { expected, actual }) => {
            assert_eq!(expected, vec![5, 5]);
            assert_eq!(actual, vec![2, 3, 4]);
        },
        other => panic!("unexpected result {:?}", other),
    }
    assert_eq!(x.transpose(&mut g, 0, 2).unwrap().shape(&g), vec![4, 3, 2]);
    assert_eq!(x.permute(&mut g, &[1, 2, 0]).unwrap().shape(&g), vec![3, 4, 2]);
    assert!(matches!(x.permute(&mut g, &[0, 0, 1]), Err(EngineError::InvalidArgument(_))));
    assert_eq!(x.slice(&mut g, 2, 1, 3).unwrap().shape(&g), vec![2, 3, 2]);
    assert!(matches!(x.slice(&mut g, 2, 1, 5), Err(EngineError::IndexOutOfBounds { index: 5, size: 4 })));
    assert!(matches!(x.slice(&mut g, 2, 3, 1), Err(EngineError::IndexOutOfBounds { index: 3, size: 1 })));
    assert_eq!(x.unsqueeze(&mut g, 0).unwrap().shape(&g), vec![1, 2, 3, 4]);
    let y = x.slice(&mut g, 0, 0, 1).unwrap();
    assert_eq!(y.squeeze(&mut g, 0).unwrap().shape(&g), vec![3, 4]);
    assert_eq!(x.squeeze(&mut g, 1).unwrap().shape(&g), vec![2, 3, 4]);
    assert_eq!(x.flatten(&mut g).unwrap().shape(&g), vec![24]);
}

#[test]
fn transpose_twice_restores_the_shape() {
    let mut g = Graph::new();
    let x = Tensor::new(&mut g, &[2, 7, 5], true);
    let t = x.transpose(&mut g, 1, 2).unwrap();
    let back = t.transpose(&mut g, 1, 2).unwrap();
    assert_eq!(back.shape(&g), x.shape(&g));
}

#[test]
fn concatenation() {
    let mut g = Graph::new();
    let a = Tensor::new(&mut g, &[2, 3], true);
    let b = Tensor::new(&mut g, &[2, 5], true);
    let c = Tensor::cat(&mut g, &[a, b], 1).unwrap();
    assert_eq!(c.shape(&g), vec![2, 8]);
    assert!(matches!(Tensor::cat(&mut g, &[a, b], 0), Err(EngineError::IncompatibleShapes { .. })));
    assert!(matches!(Tensor::cat(&mut g, &[], 0), Err(EngineError::InvalidArgument(_))));
    assert!(matches!(Tensor::cat(&mut g, &[a], 2), Err(EngineError::DimensionOutOfBounds { axis: 2, ndim: 2 })));
}

#[test]
fn convolution_pooling_and_embedding() {
    let mut g = Graph::new();
    let x = Tensor::new(&mut g, &[1, 3, 32, 32], false);
    let w = Tensor::new(&mut g, &[16, 3, 3, 3], true);
    let b = Tensor::new(&mut g, &[16], true);
    let params = Conv2dParams { stride: (1, 1), padding: (1, 1), dilation: (1, 1) };
    let y = x.conv2d(&mut g, &w, Some(&b), params).unwrap();
    assert_eq!(y.shape(&g), vec![1, 16, 32, 32]);
    let p = y.max_pool2d(&mut g, (2, 2), (2, 2)).unwrap();
    assert_eq!(p.shape(&g), vec![1, 16, 16, 16]);
    let table = Tensor::new(&mut g, &[10, 4], true);
    let e = table.embedding(&mut g, &[1, 2, 9]).unwrap();
    assert_eq!(e.shape(&g), vec![3, 4]);
    assert!(matches!(table.embedding(&mut g, &[10]), Err(EngineError::IndexOutOfBounds { .. })));
}

#[test]
fn topk_selects_along_the_last_axis() {
    let mut g = Graph::new();
    let x = Tensor::new(&mut g, &[6, 8], true);
    let (vals, idx) = x.topk(&mut g, 2).unwrap();
    assert_eq!(vals.shape(&g), vec![6, 2]);
    assert_eq!(idx.shape(&g), vec![6, 2]);
    assert!(vals.requires_grad(&g));
    assert!(!idx.requires_grad(&g));
    assert!(matches!(x.topk(&mut g, 9), Err(EngineError::InvalidArgument(_))));
}

#[test]
fn backward_through_a_small_graph() {
    // c = a * b + a; loss = sum(c)
    let mut g = Graph::new();
    let a = Tensor::new(&mut g, &[2], true);
    let b = Tensor::new(&mut g, &[2], true);
    let ab = a.mul(&mut g, &b).unwrap();
    let c = ab.add(&mut g, &a).unwrap();
    let loss = c.sum_all(&mut g);
    let topo = loss.backward(&mut g);
    assert_eq!(*topo.last().unwrap(), loss.id);
    let pos = |id: usize| topo.iter().position(|&t| t == id).unwrap();
    assert!(pos(a.id) < pos(ab.id));
    assert!(pos(b.id) < pos(ab.id));
    assert!(pos(ab.id) < pos(c.id));
    assert_eq!(a.grad(&g), Some(vec![2]));
    assert_eq!(b.grad(&g), Some(vec![2]));
}

#[test]
fn broadcast_operand_gets_a_gradient_of_its_own_shape() {
    let mut g = Graph::new();
    let x = Tensor::new(&mut g, &[4, 3], false);
    let bias = Tensor::new(&mut g, &[3], true);
    let y = x.add(&mut g, &bias).unwrap();
    let loss = y.mean_all(&mut g);
    loss.backward(&mut g);
    assert_eq!(bias.grad(&g), Some(vec![3]));
    assert_eq!(x.grad(&g), None);
}

#[test]
fn gradients_accumulate_and_reset() {
    let mut g = Graph::new();
    let w = Tensor::new(&mut g, &[3], true);
    let s1 = w.sum_all(&mut g);
    s1.backward(&mut g);
    let s2 = w.sum_all(&mut g);
    s2.backward(&mut g);
    assert_eq!(w.grad(&g), Some(vec![3]));
    w.zero_grad(&mut g);
    assert_eq!(w.grad(&g), None);
}

#[test]
fn reducing_a_broadcast_gradient() {
    assert_eq!(unbroadcast_to(&[4, 5, 3], &[5, 1]).unwrap(), vec![5, 1]);
    assert_eq!(unbroadcast_to(&[4, 3], &[3]).unwrap(), vec![3]);
    assert_eq!(unbroadcast_to(&[2, 3], &[]).unwrap(), Vec::<usize>::new());
    assert_eq!(unbroadcast_to(&[2, 3], &[2, 3]).unwrap(), vec![2, 3]);
    // a dimension of size 1 broadcast to 0 cannot be summed back to 1
    assert!(matches!(unbroadcast_to(&[0], &[1]), Err(EngineError::ShapeMismatch { .. })));
}

#[test]
fn no_grad_records_detached_nodes_and_restores_the_switch() {
    let mut g = Graph::new();
    let w = Tensor::new(&mut g, &[2, 2], true);
    let y = no_grad(&mut g, |h: &mut Graph| w.neg(h));
    assert!(!y.requires_grad(&g));
    assert!(g.nodes[y.id].parents.is_empty());
    assert!(is_grad_enabled(&g));
    let z = w.neg(&mut g);
    assert!(z.requires_grad(&g));
    assert_eq!(g.nodes[z.id].parents, vec![w.id]);
}

#[test]
fn guard_disables_and_release_restores() {
    let mut g = Graph::new();
    set_grad_enabled(&mut g, true);
    let guard = NoGradGuard::new(&mut g);
    assert!(!is_grad_enabled(&g));
    let inner = NoGradGuard::new(&mut g);
    inner.release(&mut g);
    assert!(!is_grad_enabled(&g));
    guard.release(&mut g);
    assert!(is_grad_enabled(&g));
}

#[test]
fn requires_grad_flag_can_be_changed() {
    let mut g = Graph::new();
    let t = Tensor::zeros(&mut g, &[3], false);
    assert!(!t.requires_grad(&g));
    t.set_requires_grad(&mut g, true);
    assert!(t.requires_grad(&g));
    assert_eq!(t.numel(&g), 3);
    assert_eq!(t.ndim(&g), 1);
    let o = Tensor::ones(&mut g, &[2, 2], false);
    assert_eq!(o.shape(&g), vec![2, 2]);
    t.set_grad(&mut g, Some(vec![3]));
    assert_eq!(t.grad(&g), Some(vec![3]));
}

#[test]
fn set_data_replaces_values_and_keeps_gradient_bookkeeping() {
    let mut g = Graph::new();
    let a = Tensor::randn(&mut g, &[2, 3], 0, 1.0f32.to_bits(), true);
    let b = a.mul_scalar(&mut g, 2.0f32.to_bits()).unwrap();
    let n = g.nodes.len();
    let parents = g.nodes[b.id].parents.clone();
    b.set_data(&mut g, &[3, 2]);
    assert_eq!(g.nodes.len(), n);
    assert_eq!(b.shape(&g), vec![3, 2]);
    assert!(matches!(g.nodes[b.id].op, Op::Leaf(LeafInit::Data)));
    assert!(g.nodes[b.id].inputs.is_empty());
    assert_eq!(g.nodes[b.id].parents, parents);
    assert!(b.requires_grad(&g));
    assert_eq!(a.shape(&g), vec![2, 3]);
}

#[test]
fn zeros_and_ones_fill_existing_tensors() {
    let mut g = Graph::new();
    let w = Tensor::randn(&mut g, &[4, 5], 0, 1.0f32.to_bits(), true);
    zeros_(&mut g, &w);
    assert!(matches!(g.nodes[w.id].op, Op::Leaf(LeafInit::Zeros)));
    assert_eq!(w.shape(&g), vec![4, 5]);
    assert!(w.requires_grad(&g));
    ones_(&mut g, &w);
    assert!(matches!(g.nodes[w.id].op, Op::Leaf(LeafInit::Ones)));
    assert_eq!(w.shape(&g), vec![4, 5]);
}
