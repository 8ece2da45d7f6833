use nn_engine::autograd::node::Graph;
use nn_engine::autograd::tensor::Tensor;
use nn_engine::error::EngineError;
use nn_engine::nn::bert::{BertConfig, BertEncoder, BertForQuestionAnswering, BertForSequenceEmbedding, BertLayer, BertModel};
use nn_engine::nn::module::Module;

fn small_config() -> BertConfig {
    BertConfig {
        vocab_size: 100,
        d_model: 32,
        num_layers: 2,
        num_heads: 2,
        d_ff: 64,
        max_position_embeddings: 64,
        type_vocab_size: 2,
        layer_norm_eps_bits: 1e-6f32.to_bits(),
    }
}

#[test]
fn test_bert_model_forward_and_backward() {
    let mut g = Graph::new();
    let bert = BertModel::new(&mut g, small_config());

    // Token ids: [batch = 2, seq_len = 8]
    let input_ids = [2, 15, 30, 3, 45, 60, 75, 3, 2, 10, 20, 3, 40, 50, 60, 3];
    // Segments: 0 for the question, 1 for the context
    let token_type_ids = [0, 0, 0, 0, 1, 1, 1, 1, 0, 0, 0, 0, 1, 1, 1, 1];

    let (seq_out, pooled_out) = bert.forward_bert(&mut g, &input_ids, 2, 8, Some(&token_type_ids)).unwrap();
    assert_eq!(seq_out.shape(&g), vec![2, 8, 32]);
    assert_eq!(pooled_out.shape(&g), vec![2, 32]);

    let loss = seq_out.sum_all(&mut g);
    loss.backward(&mut g);

    assert!(bert.embeddings.word_embeddings.weight.grad(&g).is_some());
    assert!(bert.embeddings.position_embeddings.weight.grad(&g).is_some());
    assert!(bert.embeddings.token_type_embeddings.weight.grad(&g).is_some());
}

#[test]
fn test_bert_qa_head_forward_and_backward() {
    let mut g = Graph::new();
    let qa_model = BertForQuestionAnswering::new(&mut g, BertConfig::tiny());

    let input_ids = [2, 10, 3, 20, 30, 3];
    let (start_logits, end_logits) = qa_model.forward_qa(&mut g, &input_ids, 1, 6, None).unwrap();

    assert_eq!(start_logits.shape(&g), vec![1, 6]);
    assert_eq!(end_logits.shape(&g), vec![1, 6]);

    let s = start_logits.sum_all(&mut g);
    let e = end_logits.sum_all(&mut g);
    let loss = s.add(&mut g, &e).unwrap();
    loss.backward(&mut g);

    assert!(qa_model.qa_outputs.weight.grad(&g).is_some());
}

#[test]
fn bert_tiny_configuration() {
    let c = BertConfig::tiny();
    assert_eq!((c.vocab_size, c.d_model, c.num_layers, c.num_heads), (350, 64, 2, 4));
    assert_eq!((c.d_ff, c.max_position_embeddings, c.type_vocab_size), (160, 128, 2));
    assert_eq!(c.layer_norm_eps_bits, 1e-6f32.to_bits());
}

#[test]
fn bert_refuses_long_sequences_and_unknown_tokens() {
    let mut g = Graph::new();
    let mut config = small_config();
    config.max_position_embeddings = 4;
    let bert = BertModel::new(&mut g, config);
    let n = g.nodes.len();
    let ids = [1, 2, 3, 4, 5];
    assert!(matches!(
        bert.forward_bert(&mut g, &ids, 1, 5, None),
        Err(EngineError::IncompatibleShapes { .. })
    ));
    assert_eq!(g.nodes.len(), n);
    let unknown = [1, 200];
    match bert.forward_bert(&mut g, &unknown, 1, 2, None) {
        Err(EngineError::IndexOutOfBounds { index, size }) => {
            assert_eq!(index, 200);
            assert_eq!(size, 100);
        },
        other => panic!("unexpected {:?}", other),
    }
    let bad_segments = [0, 5];
    assert!(bert.forward_bert(&mut g, &[1, 2], 1, 2, Some(&bad_segments)).is_err());
}

#[test]
fn bert_layer_and_sentence_embeddings() {
    let mut g = Graph::new();
    let layer = BertLayer::new(&mut g, 16, 4, 32, 1e-5f32.to_bits());
    let x = Tensor::new(&mut g, &[3, 5, 16], false);
    let y = layer.forward(&mut g, &x).unwrap();
    assert_eq!(y.shape(&g), vec![3, 5, 16]);
    assert_eq!(layer.parameters().len(), 8 + 2 + 2 + 2 + 2);

    let model = BertForSequenceEmbedding::new(&mut g, small_config());
    let pooled = model.forward_embedding(&mut g, &[5, 6, 7], 1, 3, None).unwrap();
    assert_eq!(pooled.shape(&g), vec![1, 32]);
    assert!(!model.bert.parameters().is_empty());
}

#[test]
fn bert_encoder_through_the_common_interface() {
    let mut g = Graph::new();
    let encoder = BertEncoder::new(&mut g, &small_config());
    let h = Tensor::new(&mut g, &[2, 4, 32], false);
    let y = Module::forward(&encoder, &mut g, &h).unwrap();
    assert_eq!(y.shape(&g), vec![2, 4, 32]);
    assert_eq!(Module::parameters(&encoder).len(), encoder.parameters().len());
}
