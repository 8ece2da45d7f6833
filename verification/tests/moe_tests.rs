use nn_engine::autograd::node::{Graph, Op};
use nn_engine::autograd::tensor::Tensor;
use nn_engine::error::EngineError;
use nn_engine::nn::module::Module;
use nn_engine::nn::moe::{MoEConfig, MoELayer, SparseMoEBlock, TopKRouter, AUX_LOSS_COEFF_BITS};

#[test]
fn moe_configurations() {
    let c = MoEConfig::mixtral_style(16);
    assert_eq!((c.d_model, c.hidden_dim, c.num_experts, c.top_k), (16, 64, 8, 2));
    assert_eq!(c.aux_loss_coeff_bits, 0.01f32.to_bits());
    assert_eq!(AUX_LOSS_COEFF_BITS, 0.01f32.to_bits());

    let m = MoEConfig::mini(8, 4);
    assert_eq!((m.d_model, m.hidden_dim, m.num_experts, m.top_k), (8, 16, 4, 2));
    let one = MoEConfig::mini(8, 1);
    assert_eq!(one.top_k, 1);
}

#[test]
fn router_selects_top_k_per_token() {
    let mut g = Graph::new();
    let router = TopKRouter::new(&mut g, 8, 4, 2);
    let x = Tensor::randn(&mut g, &[2, 3, 8], 0, 1.0f32.to_bits(), false);
    let (weights, indices, logits) = router.route(&mut g, &x).unwrap();
    assert_eq!(logits.shape(&g), vec![6, 4]);
    assert_eq!(weights.shape(&g), vec![6, 2]);
    assert_eq!(indices.shape(&g), vec![6, 2]);
}

#[test]
fn moe_layer_keeps_rank_three_shape_and_returns_scalar_loss() {
    let mut g = Graph::new();
    let moe = MoELayer::new(&mut g, MoEConfig::mini(8, 4));
    assert_eq!(moe.experts.len(), 4);
    let x = Tensor::randn(&mut g, &[2, 3, 8], 0, 1.0f32.to_bits(), true);
    let (out, aux) = moe.forward_with_aux(&mut g, &x).unwrap();
    assert_eq!(out.shape(&g), vec![2, 3, 8]);
    assert_eq!(aux.shape(&g), Vec::<usize>::new());

    let s = out.sum_all(&mut g);
    let total = s.add(&mut g, &aux).unwrap();
    total.backward(&mut g);
    assert!(x.grad(&g).is_some());
    // The router learns through the load-balancing loss.
    assert!(moe.router.gate.weight.grad(&g).is_some());
    assert!(moe.experts[0].down_proj.weight.grad(&g).is_some());
}

#[test]
fn moe_layer_on_token_rows() {
    let mut g = Graph::new();
    let moe = MoELayer::new(&mut g, MoEConfig::mini(8, 3));
    let x = Tensor::randn(&mut g, &[5, 8], 0, 1.0f32.to_bits(), false);
    let (out, aux) = moe.forward_with_aux(&mut g, &x).unwrap();
    assert_eq!(out.shape(&g), vec![5, 8]);
    assert_eq!(aux.shape(&g), Vec::<usize>::new());
}

#[test]
fn moe_routing_columns_do_not_send_gradients_back() {
    let mut g = Graph::new();
    let moe = MoELayer::new(&mut g, MoEConfig::mini(8, 2));
    let x = Tensor::randn(&mut g, &[4, 8], 0, 1.0f32.to_bits(), false);
    let before = g.nodes.len();
    moe.forward_with_aux(&mut g, &x).unwrap();
    let gates: Vec<usize> = (before..g.nodes.len())
        .filter(|&i| matches!(g.nodes[i].op, Op::ExpertGate { .. }))
        .collect();
    assert_eq!(gates.len(), 2);
    for i in gates {
        assert_eq!(g.nodes[i].shape, vec![4, 1]);
        assert!(g.nodes[i].parents.is_empty());
        assert!(g.nodes[i].requires_grad);
    }
}

#[test]
fn moe_layer_refuses_wrong_width() {
    let mut g = Graph::new();
    let moe = MoELayer::new(&mut g, MoEConfig::mini(8, 2));
    let x = Tensor::randn(&mut g, &[5, 7], 0, 1.0f32.to_bits(), false);
    assert!(matches!(moe.forward_with_aux(&mut g, &x), Err(EngineError::IncompatibleShapes { .. })));
    let y = Tensor::randn(&mut g, &[2, 3, 7], 0, 1.0f32.to_bits(), false);
    assert!(matches!(moe.forward_with_aux(&mut g, &y), Err(EngineError::ShapeMismatch { .. })));
}

#[test]
fn sparse_moe_block_keeps_shape() {
    let mut g = Graph::new();
    let block = SparseMoEBlock::new(&mut g, 8, 2, MoEConfig::mini(8, 4));
    let x = Tensor::randn(&mut g, &[1, 4, 8], 0, 1.0f32.to_bits(), true);
    let (out, aux) = block.forward_with_aux(&mut g, &x).unwrap();
    assert_eq!(out.shape(&g), vec![1, 4, 8]);
    assert_eq!(aux.shape(&g), Vec::<usize>::new());
    let n = block.parameters().len();
    // Two norms (2 each), four attention projections with bias, router gate, 4 experts x 3.
    assert_eq!(n, 2 + 8 + 2 + 1 + 12);
}

#[test]
fn moe_modules_through_the_common_interface() {
    use_module_interface();
}

fn use_module_interface() {
    let mut g = Graph::new();
    let moe = MoELayer::new(&mut g, MoEConfig::mini(8, 2));
    let x = Tensor::randn(&mut g, &[2, 3, 8], 0, 1.0f32.to_bits(), false);
    let y = Module::forward(&moe, &mut g, &x).unwrap();
    assert_eq!(y.shape(&g), vec![2, 3, 8]);
    assert_eq!(Module::parameters(&moe).len(), moe.parameters().len());

    let zero = MoELayer::new(&mut g, MoEConfig::mini(0, 2));
    let z = Tensor::randn(&mut g, &[2, 0], 0, 1.0f32.to_bits(), false);
    assert!(matches!(Module::forward(&zero, &mut g, &z), Err(EngineError::InvalidArgument(_))));

    let block = SparseMoEBlock::new(&mut g, 8, 2, MoEConfig::mini(8, 2));
    let h = Tensor::randn(&mut g, &[1, 5, 8], 0, 1.0f32.to_bits(), false);
    let out = Module::forward(&block, &mut g, &h).unwrap();
    assert_eq!(out.shape(&g), vec![1, 5, 8]);
}
