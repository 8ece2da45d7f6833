use nn_engine::autograd::node::{Graph, LeafInit, Op};
use nn_engine::autograd::tensor::Tensor;
use nn_engine::error::EngineError;
use nn_engine::nn::activations::{ReLU, Softmax, Tanh};
use nn_engine::nn::attention::MultiHeadAttention;
use nn_engine::nn::bert::BertPooler;
use nn_engine::nn::conv::Conv2d;
use nn_engine::nn::dropout::Dropout;
use nn_engine::nn::embedding::Embedding;
use nn_engine::nn::kv_cache::KVCache;
use nn_engine::nn::linear::Linear;
use nn_engine::nn::llama::{GroupedQueryAttention, RotaryEmbedding, SwiGLU};
use nn_engine::nn::loss::{BCEWithLogitsLoss, CrossEntropyLoss, L1Loss, MSELoss};
use nn_engine::nn::module::Module;
use nn_engine::nn::moe::TopKRouter;
use nn_engine::nn::pooling::MaxPool2d;
use nn_engine::nn::rnn::{GRUCell, LSTMCell, RNNActivation, RNNCell, GRU, LSTM, RNN};
use nn_engine::nn::sequential::Sequential;
use nn_engine::nn::transformer::TransformerBlock;
use nn_engine::nn::vit::ViTConfig;
use nn_engine::nn::whisper::WhisperConfig;

#[test]
fn linear_layer_shapes_and_parameters() {
    let mut g = Graph::new();
    let lin = Linear::new(&mut g, 4, 3);
    let x = Tensor::new(&mut g, &[5, 4], false);
    let y = lin.forward_linear(&mut g, &x).unwrap();
    assert_eq!(y.shape(&g), vec![5, 3]);
    assert_eq!(lin.weight.shape(&g), vec![3, 4]);
    assert_eq!(lin.parameters().len(), 2);
    let nb = Linear::without_bias(&mut g, 4, 3);
    assert_eq!(nb.parameters().len(), 1);
    let bad = Tensor::new(&mut g, &[5, 7], false);
    assert!(matches!(lin.forward_linear(&mut g, &bad), Err(EngineError::IncompatibleShapes { .. })));
}

#[test]
fn sequential_mlp_and_training_step_shapes() {
    let mut g = Graph::new();
    let model = Sequential::new()
        .add(Linear::new(&mut g, 2, 32))
        .add(ReLU)
        .add(Linear::new(&mut g, 32, 3));
    let x = Tensor::new(&mut g, &[64, 2], false);
    let logits = model.forward(&mut g, &x).unwrap();
    assert_eq!(logits.shape(&g), vec![64, 3]);
    let labels = vec![0usize; 64];
    let loss = CrossEntropyLoss::forward_with_indices(&mut g, &logits, &labels).unwrap();
    assert_eq!(loss.shape(&g), Vec::<usize>::new());
    loss.backward(&mut g);
    let params = model.parameters();
    assert_eq!(params.len(), 4);
    for p in params.iter() {
        assert!(p.grad(&g).is_some());
    }
}

#[test]
fn activations_keep_the_shape() {
    let mut g = Graph::new();
    let x = Tensor::new(&mut g, &[2, 5], false);
    assert_eq!(Tanh.forward(&mut g, &x).unwrap().shape(&g), vec![2, 5]);
    assert_eq!(Softmax::new(1).forward(&mut g, &x).unwrap().shape(&g), vec![2, 5]);
    assert!(Softmax::new(2).forward(&mut g, &x).is_err());
}

#[test]
fn losses() {
    let mut g = Graph::new();
    let p = Tensor::new(&mut g, &[4, 3], true);
    let t = Tensor::new(&mut g, &[4, 3], false);
    assert_eq!(MSELoss::forward(&mut g, &p, &t).unwrap().shape(&g), Vec::<usize>::new());
    assert_eq!(L1Loss::forward(&mut g, &p, &t).unwrap().shape(&g), Vec::<usize>::new());
    assert_eq!(BCEWithLogitsLoss::forward(&mut g, &p, &t).unwrap().shape(&g), Vec::<usize>::new());
    assert_eq!(CrossEntropyLoss::forward_with_probabilities(&mut g, &p, &t).unwrap().shape(&g), Vec::<usize>::new());
    assert!(matches!(CrossEntropyLoss::forward_with_indices(&mut g, &p, &[0, 1, 3, 0]), Err(EngineError::InvalidArgument(_))));
    assert!(matches!(CrossEntropyLoss::forward_with_indices(&mut g, &p, &[0, 1]), Err(EngineError::ShapeMismatch { .. })));
    let bad = Tensor::new(&mut g, &[2, 3], false);
    assert!(matches!(MSELoss::forward(&mut g, &p, &bad), Err(EngineError::IncompatibleShapes { .. })));
}

#[test]
fn convolution_and_pooling_layers() {
    let mut g = Graph::new();
    let conv = Conv2d::new(&mut g, 1, 8, (3, 3));
    let x = Tensor::new(&mut g, &[2, 1, 28, 28], false);
    let y = conv.forward(&mut g, &x).unwrap();
    assert_eq!(y.shape(&g), vec![2, 8, 26, 26]);
    let pooled = MaxPool2d::square(2).forward(&mut g, &y).unwrap();
    assert_eq!(pooled.shape(&g), vec![2, 8, 13, 13]);
    let strided = Conv2d::with_options(&mut g, 3, 16, (3, 3), (2, 2), (1, 1), (1, 1), false);
    let img = Tensor::new(&mut g, &[1, 3, 32, 32], false);
    assert_eq!(strided.forward(&mut g, &img).unwrap().shape(&g), vec![1, 16, 16, 16]);
    assert!(strided.forward(&mut g, &x).is_err());
}

#[test]
fn embedding_lookup() {
    let mut g = Graph::new();
    let emb = Embedding::new(&mut g, 100, 16);
    let e = emb.forward_indices(&mut g, &[3, 7, 99, 0]).unwrap();
    assert_eq!(e.shape(&g), vec![4, 16]);
    assert!(matches!(emb.forward_indices(&mut g, &[100]), Err(EngineError::IndexOutOfBounds { index: 100, size: 100 })));
}

#[test]
fn recurrent_cells() {
    let mut g = Graph::new();
    let x = Tensor::new(&mut g, &[4, 10], false);
    let rnn = RNNCell::new(&mut g, 10, 20, RNNActivation::Tanh);
    let h = rnn.forward_step(&mut g, &x, None).unwrap();
    assert_eq!(h.shape(&g), vec![4, 20]);
    let h2 = rnn.forward_step(&mut g, &x, Some(&h)).unwrap();
    assert_eq!(h2.shape(&g), vec![4, 20]);
    assert_eq!(rnn.parameters().len(), 4);

    let lstm = LSTMCell::new(&mut g, 10, 20);
    let (hl, cl) = lstm.forward_step(&mut g, &x, None).unwrap();
    assert_eq!(hl.shape(&g), vec![4, 20]);
    assert_eq!(cl.shape(&g), vec![4, 20]);
    let (hl2, cl2) = lstm.forward_step(&mut g, &x, Some((&hl, &cl))).unwrap();
    assert_eq!(hl2.shape(&g), vec![4, 20]);
    assert_eq!(cl2.shape(&g), vec![4, 20]);

    let gru = GRUCell::new(&mut g, 10, 20);
    let hg = gru.forward_step(&mut g, &x, None).unwrap();
    assert_eq!(hg.shape(&g), vec![4, 20]);
    let hg2 = gru.forward_step(&mut g, &x, Some(&hg)).unwrap();
    assert_eq!(hg2.shape(&g), vec![4, 20]);

    let wrong = Tensor::new(&mut g, &[4, 11], false);
    assert!(rnn.forward_step(&mut g, &wrong, None).is_err());
    assert!(gru.forward_step(&mut g, &wrong, None).is_err());
    assert!(lstm.forward_step(&mut g, &wrong, None).is_err());
}

#[test]
fn recurrent_sequence_modules() {
    let mut g = Graph::new();
    let x = Tensor::new(&mut g, &[3, 7, 5], false);

    let rnn = RNN::new(&mut g, 5, 8, 2, RNNActivation::ReLU, false, 0);
    let (out, h_n) = rnn.forward_seq(&mut g, &x, None).unwrap();
    assert_eq!(out.shape(&g), vec![3, 7, 8]);
    assert_eq!(h_n.shape(&g), vec![2, 3, 8]);

    let gru = GRU::new(&mut g, 5, 8, 2, true, 0x3e80_0000);
    let (out, h_n) = gru.forward_seq(&mut g, &x, None).unwrap();
    assert_eq!(out.shape(&g), vec![3, 7, 16]);
    assert_eq!(h_n.shape(&g), vec![4, 3, 8]);
    let h0 = Tensor::zeros(&mut g, &[4, 3, 8], false);
    let (out2, h_n2) = gru.forward_seq(&mut g, &x, Some(&h0)).unwrap();
    assert_eq!(out2.shape(&g), vec![3, 7, 16]);
    assert_eq!(h_n2.shape(&g), vec![4, 3, 8]);

    let lstm = LSTM::new(&mut g, 5, 6, 3, true, 0);
    let (out, (h_n, c_n)) = lstm.forward_seq(&mut g, &x, None).unwrap();
    assert_eq!(out.shape(&g), vec![3, 7, 12]);
    assert_eq!(h_n.shape(&g), vec![6, 3, 6]);
    assert_eq!(c_n.shape(&g), vec![6, 3, 6]);

    let not_3d = Tensor::new(&mut g, &[7, 5], false);
    match rnn.forward_seq(&mut g, &not_3d, None) {
        Err(EngineError::ShapeMismatch { expected, actual }) => {
            assert_eq!(expected, vec![0, 0, 5]);
            assert_eq!(actual, vec![7, 5]);
        },
        other => panic!("unexpected result {:?}", other),
    }
    let wrong_features = Tensor::new(&mut g, &[3, 7, 4], false);
    assert!(lstm.forward_seq(&mut g, &wrong_features, None).is_err());
}

#[test]
fn self_and_cross_attention() {
    let mut g = Graph::new();
    let mha = MultiHeadAttention::new(&mut g, 32, 4, true);
    assert_eq!(mha.head_dim, 8);
    let x = Tensor::new(&mut g, &[2, 6, 32], false);
    assert_eq!(mha.forward_attention(&mut g, &x).unwrap().shape(&g), vec![2, 6, 32]);
    let mem = Tensor::new(&mut g, &[2, 9, 32], false);
    assert_eq!(mha.forward_cross_attention(&mut g, &x, &mem).unwrap().shape(&g), vec![2, 6, 32]);
    let bad_batch = Tensor::new(&mut g, &[3, 9, 32], false);
    assert!(matches!(mha.forward_cross_attention(&mut g, &x, &bad_batch), Err(EngineError::IncompatibleShapes { .. })));
    let two_d = Tensor::new(&mut g, &[6, 32], false);
    assert!(matches!(mha.forward_attention(&mut g, &two_d), Err(EngineError::IncompatibleShapes { .. })));
    assert_eq!(mha.parameters().len(), 8);
}

#[test]
fn bert_pooler_takes_the_first_token() {
    let mut g = Graph::new();
    let pooler = BertPooler::new(&mut g, 16);
    let seq = Tensor::new(&mut g, &[3, 5, 16], false);
    assert_eq!(pooler.forward_pooler(&mut g, &seq).unwrap().shape(&g), vec![3, 16]);
    let empty = Tensor::new(&mut g, &[3, 0, 16], false);
    assert!(pooler.forward_pooler(&mut g, &empty).is_err());
    let flat = Tensor::new(&mut g, &[3, 16], false);
    assert!(matches!(pooler.forward_pooler(&mut g, &flat), Err(EngineError::IncompatibleShapes { .. })));
}

#[test]
fn rotary_embedding_keeps_the_shape_and_checks_positions() {
    let mut g = Graph::new();
    let rope = RotaryEmbedding::new(&mut g, 8, 16, 10000.0f32.to_bits());
    let x = Tensor::new(&mut g, &[2, 4, 5, 8], false);
    assert_eq!(rope.apply(&mut g, &x, 3).unwrap().shape(&g), vec![2, 4, 5, 8]);
    assert!(matches!(rope.apply(&mut g, &x, 12), Err(EngineError::InvalidArgument(_))));
    assert!(matches!(rope.apply(&mut g, &x, usize::MAX), Err(EngineError::InvalidArgument(_))));
    let wrong_dim = Tensor::new(&mut g, &[2, 4, 5, 6], false);
    match rope.apply(&mut g, &wrong_dim, 0) {
        Err(EngineError::ShapeMismatch { expected, actual }) => {
            assert_eq!(expected, vec![8]);
            assert_eq!(actual, vec![6]);
        },
        other => panic!("unexpected result {:?}", other),
    }
    let three_d = Tensor::new(&mut g, &[4, 5, 8], false);
    assert!(matches!(rope.apply(&mut g, &three_d, 0), Err(EngineError::InvalidArgument(_))));
}

#[test]
fn grouped_query_attention_with_and_without_cache() {
    let mut g = Graph::new();
    let gqa = GroupedQueryAttention::new(&mut g, 64, 4, 2, 32, 10000.0f32.to_bits());
    assert_eq!(gqa.head_dim, 16);
    assert_eq!(gqa.num_queries_per_kv, 2);
    let x = Tensor::new(&mut g, &[1, 5, 64], false);
    assert_eq!(gqa.forward_gqa(&mut g, &x, 0).unwrap().shape(&g), vec![1, 5, 64]);

    let k0 = Tensor::zeros(&mut g, &[1, 2, 0, 16], false);
    let v0 = Tensor::zeros(&mut g, &[1, 2, 0, 16], false);
    let mut slot = (k0, v0);
    let y = gqa.forward_gqa_cached(&mut g, &x, 0, Some(&mut slot)).unwrap();
    assert_eq!(y.shape(&g), vec![1, 5, 64]);
    assert_eq!(slot.0.shape(&g), vec![1, 2, 5, 16]);
    let step = Tensor::new(&mut g, &[1, 1, 64], false);
    let y2 = gqa.forward_gqa_cached(&mut g, &step, 5, Some(&mut slot)).unwrap();
    assert_eq!(y2.shape(&g), vec![1, 1, 64]);
    assert_eq!(slot.0.shape(&g), vec![1, 2, 6, 16]);
    assert_eq!(slot.1.shape(&g), vec![1, 2, 6, 16]);

    let too_long = Tensor::new(&mut g, &[1, 40, 64], false);
    assert!(gqa.forward_gqa(&mut g, &too_long, 0).is_err());
    let two_d = Tensor::new(&mut g, &[5, 64], false);
    assert!(matches!(gqa.forward_gqa(&mut g, &two_d, 0), Err(EngineError::IncompatibleShapes { .. })));
}

#[test]
fn swiglu_feed_forward() {
    let mut g = Graph::new();
    let ffn = SwiGLU::new(&mut g, 64, 160);
    let x = Tensor::new(&mut g, &[2, 7, 64], false);
    assert_eq!(ffn.forward(&mut g, &x).unwrap().shape(&g), vec![2, 7, 64]);
    assert_eq!(ffn.parameters().len(), 3);
}

#[test]
fn router_selects_top_k_experts() {
    let mut g = Graph::new();
    let router = TopKRouter::new(&mut g, 32, 8, 2);
    let x = Tensor::new(&mut g, &[2, 5, 32], false);
    let (weights, indices, logits) = router.route(&mut g, &x).unwrap();
    assert_eq!(logits.shape(&g), vec![10, 8]);
    assert_eq!(weights.shape(&g), vec![10, 2]);
    assert_eq!(indices.shape(&g), vec![10, 2]);
    assert_eq!(router.parameters().len(), 1);
    let too_many = TopKRouter::new(&mut g, 32, 2, 3);
    assert!(too_many.route(&mut g, &x).is_err());
}

#[test]
fn kv_cache_grows_by_the_new_steps_and_resets() {
    let mut g = Graph::new();
    let mut cache = KVCache::new(2);
    assert_eq!(cache.num_layers(), 2);
    assert_eq!(cache.current_seq_len(&g, 0), 0);
    let k = Tensor::new(&mut g, &[1, 2, 4, 8], false);
    let v = Tensor::new(&mut g, &[1, 2, 4, 8], false);
    cache.update(&mut g, 0, &k, &v).unwrap();
    assert_eq!(cache.current_seq_len(&g, 0), 4);
    let k1 = Tensor::new(&mut g, &[1, 2, 1, 8], false);
    let v1 = Tensor::new(&mut g, &[1, 2, 1, 8], false);
    let (k_all, v_all) = cache.update(&mut g, 0, &k1, &v1).unwrap();
    assert_eq!(k_all.shape(&g), vec![1, 2, 5, 8]);
    assert_eq!(v_all.shape(&g), vec![1, 2, 5, 8]);
    assert_eq!(cache.current_seq_len(&g, 0), 5);
    assert_eq!(cache.current_seq_len(&g, 1), 0);
    assert!(matches!(cache.update(&mut g, 2, &k1, &v1), Err(EngineError::InvalidArgument(_))));
    cache.reset();
    assert_eq!(cache.current_seq_len(&g, 0), 0);
    assert_eq!(cache.num_layers(), 2);
}

#[test]
fn dropout_is_the_identity_in_evaluation_mode() {
    let mut g = Graph::new();
    let mut drop = Dropout::new(0.5f32.to_bits());
    let x = Tensor::new(&mut g, &[4, 4], true);
    let y = drop.forward_dropout(&mut g, &x);
    assert_eq!(y.shape(&g), vec![4, 4]);
    assert_ne!(y.id, x.id);
    drop.eval();
    let z = drop.forward_dropout(&mut g, &x);
    assert_eq!(z.id, x.id);
    drop.train();
    assert!(drop.is_training);
    let zero = Dropout::new(0);
    assert_eq!(zero.forward_dropout(&mut g, &x).id, x.id);
}

#[test]
fn model_presets() {
    let c10 = ViTConfig::cifar10();
    assert_eq!(c10.num_patches(), 64);
    assert_eq!(c10.num_classes, 10);
    let c100 = ViTConfig::cifar100();
    assert_eq!(c100.num_patches(), 64);
    assert_eq!(c100.num_classes, 100);
    let mnist = ViTConfig::mnist();
    assert_eq!(mnist.num_patches(), 49);
    assert_eq!(mnist.in_channels, 1);
    let w = WhisperConfig::tiny();
    assert_eq!(w.n_mels, 64);
    assert_eq!(w.d_model, 64);
    assert_eq!(w.vocab_size, 350);
    assert_eq!(w.max_target_positions, 48);
}

#[test]
fn recurrent_modules_through_the_common_interface() {
    let mut g = Graph::new();
    let x = Tensor::new(&mut g, &[3, 7, 5], false);

    let rnn = RNN::new(&mut g, 5, 8, 2, RNNActivation::Tanh, false, 0);
    assert_eq!(Module::forward(&rnn, &mut g, &x).unwrap().shape(&g), vec![3, 7, 8]);
    // Two cells, each with two weights and two biases.
    assert_eq!(Module::parameters(&rnn).len(), 8);

    let mut gru = GRU::new(&mut g, 5, 8, 2, true, 0x3e80_0000);
    assert_eq!(Module::forward(&gru, &mut g, &x).unwrap().shape(&g), vec![3, 7, 16]);
    assert_eq!(Module::parameters(&gru).len(), 16);
    Module::eval(&mut gru);
    assert!(!gru.dropout.unwrap().is_training);
    Module::train(&mut gru);
    assert!(gru.dropout.unwrap().is_training);

    let lstm = LSTM::new(&mut g, 5, 6, 3, true, 0);
    assert_eq!(Module::forward(&lstm, &mut g, &x).unwrap().shape(&g), vec![3, 7, 12]);
    assert_eq!(Module::parameters(&lstm).len(), 24);

    let empty = Tensor::new(&mut g, &[3, 0, 5], false);
    assert!(matches!(Module::forward(&rnn, &mut g, &empty), Err(EngineError::InvalidArgument(_))));
    let flat = Tensor::new(&mut g, &[7, 5], false);
    assert!(matches!(Module::forward(&lstm, &mut g, &flat), Err(EngineError::ShapeMismatch { .. })));
}

#[test]
fn sequential_without_layers_hands_the_input_back() {
    let mut g = Graph::new();
    let x = Tensor::new(&mut g, &[3, 2], false);
    let before = g.nodes.len();
    let y = Sequential::new().forward(&mut g, &x).unwrap();
    assert_eq!(y.id, x.id);
    assert_eq!(g.nodes.len(), before);
}

#[test]
fn sequential_parameters_follow_the_layer_order() {
    let mut g = Graph::new();
    let a = Linear::new(&mut g, 2, 4);
    let b = Linear::without_bias(&mut g, 4, 1);
    let ids = vec![a.weight.id, a.bias.unwrap().id, b.weight.id];
    let mut model = Sequential::new().add(a).add(ReLU);
    model.push(b);
    assert_eq!(model.layers.len(), 3);
    let got: Vec<usize> = model.parameters().iter().map(|t| t.id).collect();
    assert_eq!(got, ids);
}

#[test]
fn sequential_train_and_eval_reach_every_layer() {
    let mut g = Graph::new();
    let mut model = Sequential::new().add(Dropout::new(0.5f32.to_bits())).add(Dropout::new(0.5f32.to_bits()));
    let x = Tensor::new(&mut g, &[4, 4], false);
    model.eval();
    let before = g.nodes.len();
    let y = model.forward(&mut g, &x).unwrap();
    assert_eq!(y.id, x.id);
    assert_eq!(g.nodes.len(), before);
    model.train();
    let z = model.forward(&mut g, &x).unwrap();
    assert_ne!(z.id, x.id);
    assert!(g.nodes.len() > before);
}

#[test]
fn module_zero_grad_clears_only_the_parameters() {
    let mut g = Graph::new();
    let lin = Linear::new(&mut g, 3, 2);
    let other = Tensor::new(&mut g, &[2], true);
    let x = Tensor::new(&mut g, &[1, 3], false);
    let y = lin.forward_linear(&mut g, &x).unwrap();
    let s = y.add(&mut g, &other).unwrap().sum_all(&mut g);
    s.backward(&mut g);
    assert!(lin.weight.grad(&g).is_some());
    assert!(other.grad(&g).is_some());
    Module::zero_grad(&lin, &mut g);
    assert!(lin.weight.grad(&g).is_none());
    assert!(lin.bias.unwrap().grad(&g).is_none());
    assert!(other.grad(&g).is_some());
}

#[test]
fn gqa_masks_causally_from_the_start_position() {
    let mut g = Graph::new();
    let gqa = GroupedQueryAttention::new(&mut g, 64, 4, 2, 32, 10000.0f32.to_bits());
    let x = Tensor::new(&mut g, &[1, 3, 64], false);
    let before = g.nodes.len();
    let out = gqa.forward_gqa(&mut g, &x, 5).unwrap();
    assert_eq!(out.shape(&g), vec![1, 3, 64]);
    assert!(g.nodes[before..].iter().any(|n| matches!(n.op, Op::Leaf(LeafInit::CausalMask { offset: 5 }))));
    assert!(!g.nodes[before..].iter().any(|n| matches!(n.op, Op::Leaf(LeafInit::CausalMask { offset: 0 }))));
}

#[test]
fn bidirectional_lstm_last_states_follow_layer_and_direction() {
    let mut g = Graph::new();
    let lstm = LSTM::new(&mut g, 5, 6, 2, true, 0);
    let x = Tensor::new(&mut g, &[3, 4, 5], false);
    let (out, (h_n, _c_n)) = lstm.forward_seq(&mut g, &x, None).unwrap();
    assert!(matches!(g.nodes[h_n.id].op, Op::Cat { axis: 0 }));
    assert_eq!(g.nodes[h_n.id].inputs.len(), 4);
    for &u in g.nodes[h_n.id].inputs.iter() {
        assert!(matches!(g.nodes[u].op, Op::Unsqueeze { axis: 0 }));
    }
    // the last layer's output joins its forward and backward passes, each 4 steps long
    assert!(matches!(g.nodes[out.id].op, Op::Cat { axis: 2 }));
    let fwd = g.nodes[out.id].inputs[0];
    let bwd = g.nodes[out.id].inputs[1];
    assert_eq!(g.nodes[fwd].inputs.len(), 4);
    assert_eq!(g.nodes[bwd].inputs.len(), 4);
    // the forward pass ends at time 3, the backward pass at time 0: entry 2 (layer 1 forward)
    // is the step the forward pass put last, entry 3 the step the backward pass put first
    let last_fwd = g.nodes[g.nodes[fwd].inputs[3]].inputs[0];
    let first_bwd = g.nodes[g.nodes[bwd].inputs[0]].inputs[0];
    assert_eq!(g.nodes[g.nodes[h_n.id].inputs[2]].inputs[0], last_fwd);
    assert_eq!(g.nodes[g.nodes[h_n.id].inputs[3]].inputs[0], first_bwd);
}

#[test]
fn linear_output_is_the_bias_added_to_the_product() {
    let mut g = Graph::new();
    let lin = Linear::new(&mut g, 4, 3);
    let x = Tensor::new(&mut g, &[2, 4], false);
    let y = lin.forward_linear(&mut g, &x).unwrap();
    assert!(matches!(g.nodes[y.id].op, Op::Add));
    assert_eq!(g.nodes[y.id].inputs[1], lin.bias.unwrap().id);
    let prod = g.nodes[y.id].inputs[0];
    assert!(matches!(g.nodes[prod].op, Op::MatMul));
    assert_eq!(g.nodes[prod].inputs[0], x.id);
    let nb = Linear::without_bias(&mut g, 4, 3);
    let z = nb.forward_linear(&mut g, &x).unwrap();
    assert!(matches!(g.nodes[z.id].op, Op::MatMul));
    assert_eq!(g.nodes[z.id].inputs[0], x.id);
}

#[test]
fn attention_scores_queries_against_transposed_keys() {
    let mut g = Graph::new();
    let mha = MultiHeadAttention::new(&mut g, 16, 4, true);
    let x = Tensor::new(&mut g, &[2, 5, 16], false);
    let before = g.nodes.len();
    let out = mha.forward_attention(&mut g, &x).unwrap();
    // the output is the output projection: its bias added last
    assert!(matches!(g.nodes[out.id].op, Op::Add));
    assert_eq!(g.nodes[out.id].inputs[1], mha.out_proj.bias.unwrap().id);
    // a causal mask from position 0 is added to the scores
    assert!(g.nodes[before..].iter().any(|n| matches!(n.op, Op::Leaf(LeafInit::CausalMask { offset: 0 }))));
    // softmax over the last axis feeds a product whose second factor is the values
    let soft = g.nodes[before..].iter().position(|n| matches!(n.op, Op::Softmax { axis: 3 })).unwrap() + before;
    let ctx = (soft + 1..g.nodes.len()).find(|&i| matches!(g.nodes[i].op, Op::MatMul) && g.nodes[i].inputs[0] == soft).unwrap();
    let values = g.nodes[ctx].inputs[1];
    assert!(matches!(g.nodes[values].op, Op::Transpose { dim0: 1, dim1: 2 }));
}

#[test]
fn transformer_block_adds_both_residuals() {
    let mut g = Graph::new();
    let block = TransformerBlock::new(&mut g, 16, 4, true);
    let x = Tensor::new(&mut g, &[1, 3, 16], false);
    let out = block.forward_block(&mut g, &x).unwrap();
    assert!(matches!(g.nodes[out.id].op, Op::Add));
    let h = g.nodes[out.id].inputs[0];
    assert!(matches!(g.nodes[h].op, Op::Add));
    assert_eq!(g.nodes[h].inputs[0], x.id);
}
