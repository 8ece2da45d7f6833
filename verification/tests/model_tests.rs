use nn_engine::autograd::node::{Graph, LeafInit, Op};
use nn_engine::autograd::tensor::Tensor;
use nn_engine::error::EngineError;
use nn_engine::nn::activations::LeakyReLU;
use nn_engine::nn::kv_cache::KVCache;
use nn_engine::nn::llama2::{Llama2Block, Llama2LM, LlamaConfig};
use nn_engine::nn::module::Module;
use nn_engine::nn::quantized::{qlinear_memory_bytes, qlinear_plan};
use nn_engine::nn::norm::{BatchNorm1d, BatchNorm2d, LayerNorm, RMSNorm, MOMENTUM_BITS};
use nn_engine::nn::resnet::{BottleneckBlock, ResNet, ResidualBlock};
use nn_engine::nn::transformer::{TransformerBlock, TransformerLM};
use nn_engine::nn::vit::{ViTConfig, VisionTransformer};

#[test]
fn scalar_operations_record_a_scalar_leaf() {
    let mut g = Graph::new();
    let x = Tensor::new(&mut g, &[2, 3], true);
    let y = x.add_scalar(&mut g, 1.5f32.to_bits()).unwrap();
    assert_eq!(y.shape(&g), vec![2, 3]);
    assert_eq!(y.id, x.id + 2);
    assert!(matches!(g.nodes[x.id + 1].op, Op::Leaf(LeafInit::Constant { bits }) if bits == 1.5f32.to_bits()));
    assert!(g.nodes[x.id + 1].shape.is_empty());
    assert!(matches!(g.nodes[y.id].op, Op::Add));
    assert!(y.requires_grad(&g));
    let m = x.mul_scalar(&mut g, 2.0f32.to_bits()).unwrap();
    assert!(matches!(g.nodes[m.id].op, Op::Mul));
    let d = x.div_scalar(&mut g, 4.0f32.to_bits()).unwrap();
    assert!(matches!(g.nodes[d.id].op, Op::Div));
    let p = x.powf(&mut g, 3.0f32.to_bits()).unwrap();
    assert_eq!(p.shape(&g), vec![2, 3]);
    assert!(matches!(g.nodes[p.id].op, Op::Powf { exponent_bits } if exponent_bits == 3.0f32.to_bits()));
    let s = Tensor::scalar(&mut g, 7.0f32.to_bits(), false);
    assert!(s.shape(&g).is_empty());
    let r = Tensor::randn(&mut g, &[4], 0, 1.0f32.to_bits(), false);
    assert_eq!(r.shape(&g), vec![4]);
    let u = Tensor::uniform(&mut g, &[2, 2], 0, 1.0f32.to_bits(), true);
    assert!(u.requires_grad(&g));
}

#[test]
fn leaky_relu_layer_keeps_the_shape() {
    let mut g = Graph::new();
    let x = Tensor::new(&mut g, &[3, 5], false);
    let layer = LeakyReLU::default();
    assert_eq!(layer.negative_slope_bits, 0.01f32.to_bits());
    let y = layer.forward(&mut g, &x).unwrap();
    assert_eq!(y.shape(&g), vec![3, 5]);
    assert!(matches!(g.nodes[y.id].op, Op::LeakyRelu { slope_bits } if slope_bits == 0.01f32.to_bits()));
    let custom = LeakyReLU::new(0.2f32.to_bits());
    let z = custom.forward(&mut g, &x).unwrap();
    assert!(matches!(g.nodes[z.id].op, Op::LeakyRelu { slope_bits } if slope_bits == 0.2f32.to_bits()));
}

#[test]
fn moving_average_is_never_differentiated() {
    let mut g = Graph::new();
    let a = Tensor::new(&mut g, &[1, 4], true);
    let b = Tensor::new(&mut g, &[1, 4], true);
    let m = a.moving_average(&mut g, &b, MOMENTUM_BITS).unwrap();
    assert_eq!(m.shape(&g), vec![1, 4]);
    assert!(!m.requires_grad(&g));
    assert!(g.nodes[m.id].parents.is_empty());
    assert_eq!(g.nodes[m.id].inputs, vec![a.id, b.id]);
    let c = Tensor::new(&mut g, &[3], false);
    assert!(matches!(a.moving_average(&mut g, &c, MOMENTUM_BITS), Err(EngineError::IncompatibleShapes { .. })));
}

#[test]
fn layer_norm_checks_the_last_dimension() {
    let mut g = Graph::new();
    let ln = LayerNorm::new(&mut g, 8);
    assert_eq!(ln.eps_bits, 1e-5f32.to_bits());
    let x = Tensor::new(&mut g, &[2, 3, 8], true);
    let y = ln.forward_norm(&mut g, &x).unwrap();
    assert_eq!(y.shape(&g), vec![2, 3, 8]);
    assert!(matches!(g.nodes[y.id].op, Op::Add));
    assert_eq!(g.nodes[y.id].inputs[1], ln.bias.id);
    let n = g.nodes.len();
    let bad = Tensor::new(&mut g, &[2, 3, 7], false);
    match ln.forward_norm(&mut g, &bad) {
        Err(EngineError::ShapeMismatch { expected, actual }) => {
            assert_eq!(expected, vec![8]);
            assert_eq!(actual, vec![7]);
        },
        other => panic!("unexpected {:?}", other),
    }
    assert_eq!(g.nodes.len(), n + 1);
    let scalar = Tensor::scalar(&mut g, 0, false);
    assert!(matches!(ln.forward_norm(&mut g, &scalar), Err(EngineError::InvalidArgument(_))));
    assert_eq!(ln.parameters().len(), 2);
}

#[test]
fn rms_norm_scales_by_the_weight() {
    let mut g = Graph::new();
    let rms = RMSNorm::new(&mut g, 6);
    assert_eq!(rms.eps_bits, 1e-6f32.to_bits());
    let x = Tensor::new(&mut g, &[4, 6], false);
    let y = rms.forward(&mut g, &x).unwrap();
    assert_eq!(y.shape(&g), vec![4, 6]);
    assert!(matches!(g.nodes[y.id].op, Op::Mul));
    assert_eq!(g.nodes[y.id].inputs[1], rms.weight.id);
    let bad = Tensor::new(&mut g, &[4, 5], false);
    assert!(matches!(rms.forward(&mut g, &bad), Err(EngineError::ShapeMismatch { .. })));
}

#[test]
fn batch_norm_training_moves_the_running_statistics() {
    let mut g = Graph::new();
    let mut bn = BatchNorm1d::new(&mut g, 4);
    let mean0 = bn.running_mean(&g);
    let var0 = bn.running_var(&g);
    assert_eq!(mean0.shape(&g), vec![1, 4]);
    assert!(matches!(g.nodes[mean0.id].op, Op::Leaf(LeafInit::Zeros)));
    assert!(matches!(g.nodes[var0.id].op, Op::Leaf(LeafInit::Ones)));
    let x = Tensor::new(&mut g, &[8, 4], true);
    let y = bn.forward(&mut g, &x).unwrap();
    assert_eq!(y.shape(&g), vec![8, 4]);
    let mean1 = bn.running_mean(&g);
    let var1 = bn.running_var(&g);
    assert_ne!(mean1.id, mean0.id);
    assert_ne!(var1.id, var0.id);
    assert!(matches!(g.nodes[mean1.id].op, Op::MovingAverage { momentum_bits } if momentum_bits == 0.1f32.to_bits()));
    assert_eq!(g.nodes[mean1.id].inputs[0], mean0.id);
    assert_eq!(g.nodes[var1.id].inputs[0], var0.id);
    assert_eq!(mean1.shape(&g), vec![1, 4]);
    assert!(!mean1.requires_grad(&g));

    bn.eval();
    let z = bn.forward(&mut g, &x).unwrap();
    assert_eq!(z.shape(&g), vec![8, 4]);
    assert_eq!(bn.running_mean(&g).id, mean1.id);
    assert_eq!(bn.running_var(&g).id, var1.id);

    let wrong_rank = Tensor::new(&mut g, &[8, 4, 1], false);
    assert!(matches!(bn.forward(&mut g, &wrong_rank), Err(EngineError::InvalidArgument(_))));
    let wrong_features = Tensor::new(&mut g, &[8, 3], false);
    match bn.forward(&mut g, &wrong_features) {
        Err(EngineError::ShapeMismatch { expected, actual }) => {
            assert_eq!(expected, vec![4]);
            assert_eq!(actual, vec![3]);
        },
        other => panic!("unexpected {:?}", other),
    }
}

#[test]
fn batch_norm_2d_over_channels() {
    let mut g = Graph::new();
    let bn = BatchNorm2d::new(&mut g, 3);
    assert_eq!(bn.weight.shape(&g), vec![1, 3, 1, 1]);
    let x = Tensor::new(&mut g, &[2, 3, 5, 5], false);
    let y = bn.forward_batch_norm(&mut g, &x).unwrap();
    assert_eq!(y.shape(&g), vec![2, 3, 5, 5]);
    assert_eq!(bn.running_mean(&g).shape(&g), vec![1, 3, 1, 1]);
    let bad = Tensor::new(&mut g, &[2, 4, 5, 5], false);
    assert!(matches!(bn.forward_batch_norm(&mut g, &bad), Err(EngineError::ShapeMismatch { .. })));
}

#[test]
fn transformer_block_keeps_the_shape() {
    let mut g = Graph::new();
    let block = TransformerBlock::new(&mut g, 16, 4, true);
    assert_eq!(block.mlp_fc1.out_features, 64);
    let x = Tensor::new(&mut g, &[2, 5, 16], false);
    let y = block.forward_block(&mut g, &x).unwrap();
    assert_eq!(y.shape(&g), vec![2, 5, 16]);
    let z = block.forward(&mut g, &x).unwrap();
    assert_eq!(z.shape(&g), vec![2, 5, 16]);
    let bad = Tensor::new(&mut g, &[2, 5, 8], false);
    assert!(block.forward_block(&mut g, &bad).is_err());
    // ln1, attention (4 linear layers with bias), ln2, two linear layers with bias
    assert_eq!(block.parameters().len(), 2 + 8 + 2 + 2 + 2);
}

#[test]
fn transformer_language_model_logits() {
    let mut g = Graph::new();
    let lm = TransformerLM::new(&mut g, 11, 8, 16, 2, 2);
    assert_eq!(lm.blocks.len(), 2);
    let tokens = [1, 2, 3, 4, 5, 6];
    let logits = lm.forward_tokens(&mut g, &tokens, 2, 3).unwrap();
    assert_eq!(logits.shape(&g), vec![2, 3, 11]);
    let bad_tokens = [1, 2, 30];
    match lm.forward_tokens(&mut g, &bad_tokens, 1, 3) {
        Err(EngineError::IndexOutOfBounds { index, size }) => {
            assert_eq!(index, 30);
            assert_eq!(size, 11);
        },
        other => panic!("unexpected {:?}", other),
    }
    assert_eq!(lm.parameters().len(), 2 + 2 * 16 + 2 + 2);
}

#[test]
fn vision_transformer_classifies_patches() {
    let mut g = Graph::new();
    let config = ViTConfig { image_size: 8, patch_size: 4, in_channels: 3, num_classes: 5, d_model: 16, num_layers: 1, num_heads: 2, mlp_dim: 32 };
    let vit = VisionTransformer::new(&mut g, config);
    assert_eq!(vit.pos_embed.shape(&g), vec![1, 4, 16]);
    let x = Tensor::new(&mut g, &[2, 3, 8, 8], false);
    let y = vit.forward_vit(&mut g, &x).unwrap();
    assert_eq!(y.shape(&g), vec![2, 5]);
    let n = g.nodes.len();
    let wrong_rank = Tensor::new(&mut g, &[3, 8, 8], false);
    assert!(matches!(vit.forward_vit(&mut g, &wrong_rank), Err(EngineError::IncompatibleShapes { .. })));
    let wrong_size = Tensor::new(&mut g, &[2, 3, 8, 9], false);
    match vit.forward_vit(&mut g, &wrong_size) {
        Err(EngineError::ShapeMismatch { expected, actual }) => {
            assert_eq!(expected, vec![2, 3, 8, 8]);
            assert_eq!(actual, vec![2, 3, 8, 9]);
        },
        other => panic!("unexpected {:?}", other),
    }
    assert_eq!(g.nodes.len(), n + 2);
    assert_eq!(vit.parameters().len(), 2 + 1 + 16 + 2 + 2);
}

#[test]
fn llama_mini_config() {
    let c = LlamaConfig::mini(100, 32);
    assert_eq!(c.d_model, 64);
    assert_eq!(c.hidden_dim, 192);
    assert_eq!(c.num_heads, 4);
    assert_eq!(c.num_kv_heads, 2);
    assert_eq!(c.num_layers, 2);
    assert_eq!(c.max_seq_len, 32);
    assert_eq!(c.norm_eps_bits, 1e-6f32.to_bits());
    assert_eq!(c.rope_theta_bits, 10000.0f32.to_bits());
}

#[test]
fn llama_block_with_and_without_cache() {
    let mut g = Graph::new();
    let config = LlamaConfig::mini(50, 16);
    let block = Llama2Block::new(&mut g, &config);
    let x = Tensor::new(&mut g, &[1, 3, 64], false);
    let y = block.forward_block(&mut g, &x, 0).unwrap();
    assert_eq!(y.shape(&g), vec![1, 3, 64]);
    let e = Tensor::zeros(&mut g, &[0], false);
    let mut slot = (e, e);
    let y2 = block.forward_block_cached(&mut g, &x, 0, Some(&mut slot)).unwrap();
    assert_eq!(y2.shape(&g), vec![1, 3, 64]);
    assert_eq!(slot.0.shape(&g), vec![1, 2, 3, 16]);
    let step = Tensor::new(&mut g, &[1, 1, 64], false);
    let y3 = block.forward_block_cached(&mut g, &step, 3, Some(&mut slot)).unwrap();
    assert_eq!(y3.shape(&g), vec![1, 1, 64]);
    assert_eq!(slot.0.shape(&g), vec![1, 2, 4, 16]);
    assert_eq!(slot.1.shape(&g), vec![1, 2, 4, 16]);
    let too_far = block.forward_block(&mut g, &x, 14);
    assert!(too_far.is_err());
}

#[test]
fn llama_language_model_and_generation_steps() {
    let mut g = Graph::new();
    let config = LlamaConfig::mini(40, 6);
    let lm = Llama2LM::new(&mut g, config);
    let logits = lm.forward_tokens(&mut g, &[1, 2, 3, 4], 2, 2, 0).unwrap();
    assert_eq!(logits.shape(&g), vec![2, 2, 40]);

    let mut cache = lm.generation_cache(&mut g);
    assert_eq!(cache.layers.len(), 2);
    let prompt = [5, 6, 7];
    let last = lm.generate_prefill(&mut g, &prompt, &mut cache).unwrap();
    assert_eq!(last.shape(&g), vec![40]);
    let (k0, _) = cache.layers[0].unwrap();
    assert_eq!(k0.shape(&g), vec![1, 2, 3, 16]);

    let mut tokens = prompt.to_vec();
    let step = lm.generate_step(&mut g, &mut tokens, 9, 1, 4, &mut cache).unwrap();
    assert_eq!(tokens, vec![5, 6, 7, 9]);
    let logits = step.unwrap();
    assert_eq!(logits.shape(&g), vec![40]);
    let (k1, v1) = cache.layers[1].unwrap();
    assert_eq!(k1.shape(&g), vec![1, 2, 4, 16]);
    assert_eq!(v1.shape(&g), vec![1, 2, 4, 16]);

    let before = g.nodes.len();
    let last_step = lm.generate_step(&mut g, &mut tokens, 3, 4, 4, &mut cache).unwrap();
    assert!(last_step.is_none());
    assert_eq!(tokens, vec![5, 6, 7, 9, 3]);
    assert_eq!(g.nodes.len(), before);

    let full = lm.generate_step(&mut g, &mut tokens, 2, 2, 10, &mut cache).unwrap();
    assert!(full.is_none());
    assert_eq!(tokens.len(), 6);

    let mut unused = KVCache::new(0);
    let plain = lm.forward_tokens_cached(&mut g, &[1], 1, 1, 0, Some(&mut unused)).unwrap();
    assert_eq!(plain.shape(&g), vec![1, 1, 40]);
}

#[test]
fn residual_blocks_follow_the_stride() {
    let mut g = Graph::new();
    let block = ResidualBlock::new(&mut g, 3, 8, 2);
    assert!(block.downsample.is_some());
    let x = Tensor::new(&mut g, &[2, 3, 9, 9], false);
    let y = block.forward(&mut g, &x).unwrap();
    assert_eq!(y.shape(&g), vec![2, 8, 5, 5]);
    let same = ResidualBlock::new(&mut g, 8, 8, 1);
    assert!(same.downsample.is_none());
    let z = same.forward(&mut g, &y).unwrap();
    assert_eq!(z.shape(&g), vec![2, 8, 5, 5]);
    let wrong = Tensor::new(&mut g, &[2, 4, 9, 9], false);
    assert!(block.forward(&mut g, &wrong).is_err());
    // conv1, bn1 (2), conv2, bn2 (2), projection conv and bn (3)
    assert_eq!(block.parameters().len(), 1 + 2 + 1 + 2 + 1 + 2);

    let bottleneck = BottleneckBlock::new(&mut g, 16, 4, 1);
    assert!(bottleneck.downsample.is_none());
    let b_in = Tensor::new(&mut g, &[1, 16, 6, 6], false);
    let b_out = bottleneck.forward(&mut g, &b_in).unwrap();
    assert_eq!(b_out.shape(&g), vec![1, 16, 6, 6]);
    let strided = BottleneckBlock::new(&mut g, 16, 8, 2);
    let s_out = strided.forward(&mut g, &b_in).unwrap();
    assert_eq!(s_out.shape(&g), vec![1, 32, 3, 3]);
}

#[test]
fn cifar_resnet_classifies_and_evaluation_keeps_statistics() {
    let mut g = Graph::new();
    let mut net = ResNet::cifar_resnet18(&mut g, 3, 10);
    assert!(net.maxpool.is_none());
    assert_eq!(net.layer1.len(), 2);
    let x = Tensor::new(&mut g, &[1, 3, 8, 8], false);
    let features = net.forward_features(&mut g, &x).unwrap();
    assert_eq!(features.shape(&g), vec![1, 512, 1, 1]);
    let before = g.buffers.clone();
    let y = net.forward(&mut g, &x).unwrap();
    assert_eq!(y.shape(&g), vec![1, 10]);
    assert_ne!(g.buffers, before);
    net.eval();
    let kept = g.buffers.clone();
    let y2 = net.forward(&mut g, &x).unwrap();
    assert_eq!(y2.shape(&g), vec![1, 10]);
    assert_eq!(g.buffers, kept);
    net.train();
    assert!(net.bn1.is_training);
    let bad = Tensor::new(&mut g, &[1, 1, 8, 8], false);
    assert!(net.forward(&mut g, &bad).is_err());
    assert!(!net.parameters().is_empty());
}

#[test]
fn resnet_presets() {
    let mut g = Graph::new();
    let r18 = ResNet::resnet18(&mut g, 3, 7);
    assert!(r18.maxpool.is_some());
    assert_eq!(r18.fc.in_features, 512);
    let r34 = ResNet::resnet34(&mut g, 3, 7);
    assert_eq!((r34.layer1.len(), r34.layer2.len(), r34.layer3.len(), r34.layer4.len()), (3, 4, 6, 3));
    let r50 = ResNet::resnet50(&mut g, 3, 7);
    assert_eq!(r50.fc.in_features, 2048);
    let x = Tensor::new(&mut g, &[1, 3, 32, 32], false);
    let y = r18.forward(&mut g, &x).unwrap();
    assert_eq!(y.shape(&g), vec![1, 7]);
}

#[test]
fn quantized_layer_shape_rules_and_bytes() {
    let (out, rows) = qlinear_plan(&[2, 3, 8], 8, 5).unwrap();
    assert_eq!(out, vec![2, 3, 5]);
    assert_eq!(rows, 6);
    assert!(matches!(qlinear_plan(&[8], 8, 5), Err(EngineError::InvalidArgument(_))));
    match qlinear_plan(&[4, 7], 8, 5) {
        Err(EngineError::ShapeMismatch { expected, actual }) => {
            assert_eq!(expected, vec![8]);
            assert_eq!(actual, vec![7]);
        }
        _ => panic!("a wrong input width must be refused"),
    }
    // 32 x 64 int8 weights, 32 scales and 32 bias entries.
    assert_eq!(qlinear_memory_bytes(2048, 32, Some(32)), 2048 + 128 + 128);
    assert_eq!(qlinear_memory_bytes(2048, 32, None), 2048 + 128);
}

#[test]
fn llama_model_parameters_in_order() {
    let mut g = Graph::new();
    let lm = Llama2LM::new(&mut g, LlamaConfig::mini(50, 16));
    let params = lm.parameters();
    // Token table; per layer two norms, four bias-free projections and three feed-forward
    // projections; the final norm and the head.
    assert_eq!(params.len(), 1 + 2 * (2 + 4 + 3) + 1 + 1);
    assert_eq!(params[0].id, lm.tok_embeddings.weight.id);
    assert_eq!(params[params.len() - 2].id, lm.norm.weight.id);
    assert_eq!(params[params.len() - 1].id, lm.lm_head.weight.id);
}

#[test]
fn vision_transformer_through_the_common_interface() {
    let mut g = Graph::new();
    let config = ViTConfig { image_size: 8, patch_size: 4, in_channels: 3, num_classes: 5, d_model: 16, num_layers: 1, num_heads: 2, mlp_dim: 32 };
    let vit = VisionTransformer::new(&mut g, config);
    let x = Tensor::new(&mut g, &[2, 3, 8, 8], false);
    let y = Module::forward(&vit, &mut g, &x).unwrap();
    assert_eq!(y.shape(&g), vec![2, 5]);
    assert_eq!(Module::parameters(&vit).len(), vit.parameters().len());

    let mut broken = VisionTransformer::new(&mut g, config);
    broken.config.patch_size = 0;
    assert!(matches!(Module::forward(&broken, &mut g, &x), Err(EngineError::InvalidArgument(_))));
}

#[test]
fn resnet_through_the_common_interface() {
    let mut g = Graph::new();
    let mut net = ResNet::cifar_resnet18(&mut g, 3, 10);
    let x = Tensor::new(&mut g, &[2, 3, 8, 8], false);
    let y = Module::forward(&net, &mut g, &x).unwrap();
    assert_eq!(y.shape(&g), vec![2, 10]);
    assert_eq!(Module::parameters(&net).len(), net.parameters().len());
    Module::eval(&mut net);
    assert!(!net.bn1.is_training);
    let kept = g.buffers.clone();
    Module::forward(&net, &mut g, &x).unwrap();
    assert_eq!(g.buffers, kept);
    Module::train(&mut net);
    assert!(net.bn1.is_training);
}
