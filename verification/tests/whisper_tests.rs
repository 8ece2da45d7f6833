use nn_engine::autograd::node::Graph;
use nn_engine::autograd::tensor::Tensor;
use nn_engine::error::EngineError;
use nn_engine::nn::module::Module;
use nn_engine::nn::whisper::{Whisper, WhisperConfig};

fn small_config() -> WhisperConfig {
    WhisperConfig {
        n_mels: 32,
        d_model: 32,
        encoder_layers: 1,
        decoder_layers: 1,
        encoder_heads: 2,
        decoder_heads: 2,
        d_ff: 64,
        vocab_size: 100,
        max_source_positions: 64,
        max_target_positions: 32,
    }
}

#[test]
fn test_whisper_forward_and_backward() {
    let mut g = Graph::new();
    let whisper = Whisper::new(&mut g, small_config());

    // Input mel: [batch = 2, n_mels = 32, time = 20]
    let mel = Tensor::randn(&mut g, &[2, 32, 20], 0.0f32.to_bits(), 1.0f32.to_bits(), true);
    // Text tokens: [batch = 2, t_text = 5]
    let tokens = [1, 10, 12, 15, 2, 1, 5, 8, 9, 2];

    let logits = whisper.forward_model(&mut g, &mel, &tokens, 2, 5).unwrap();
    assert_eq!(logits.shape(&g), vec![2, 5, 100]);

    let loss = logits.sum_all(&mut g);
    loss.backward(&mut g);

    assert!(mel.grad(&g).is_some());
    assert_eq!(mel.grad(&g).unwrap(), vec![2, 32, 20]);
    assert!(whisper.encoder.conv1.weight.grad(&g).is_some());
    assert!(whisper.decoder.lm_head.weight.grad(&g).is_some());
}

#[test]
fn whisper_tiny_configuration() {
    let c = WhisperConfig::tiny();
    assert_eq!((c.n_mels, c.d_model, c.encoder_layers, c.decoder_layers), (64, 64, 2, 2));
    assert_eq!((c.encoder_heads, c.decoder_heads, c.d_ff, c.vocab_size), (4, 4, 160, 350));
    assert_eq!((c.max_source_positions, c.max_target_positions), (128, 48));
}

#[test]
fn whisper_encoder_halves_the_time_axis() {
    let mut g = Graph::new();
    let whisper = Whisper::new(&mut g, small_config());
    // Stride 2 with padding 1 and kernel 3: (21 + 2 - 3) / 2 + 1 = 11 frames.
    let mel = Tensor::randn(&mut g, &[1, 32, 21], 0, 1.0f32.to_bits(), false);
    let memory = whisper.encode(&mut g, &mel).unwrap();
    assert_eq!(memory.shape(&g), vec![1, 11, 32]);
    let logits = whisper.decode(&mut g, &[1, 2, 3], 1, 3, &memory).unwrap();
    assert_eq!(logits.shape(&g), vec![1, 3, 100]);
}

#[test]
fn whisper_encoder_refuses_wrong_rank_and_mel_bins() {
    let mut g = Graph::new();
    let whisper = Whisper::new(&mut g, small_config());
    let flat = Tensor::randn(&mut g, &[32, 20], 0, 1.0f32.to_bits(), false);
    let n = g.nodes.len();
    assert!(matches!(whisper.encode(&mut g, &flat), Err(EngineError::IncompatibleShapes { .. })));
    assert_eq!(g.nodes.len(), n);

    let wrong = Tensor::randn(&mut g, &[2, 16, 20], 0, 1.0f32.to_bits(), false);
    match whisper.encode(&mut g, &wrong) {
        Err(EngineError::ShapeMismatch { expected, actual }) => {
            assert_eq!(expected, vec![2, 32, 20]);
            assert_eq!(actual, vec![2, 16, 20]);
        }
        _ => panic!("a spectrogram with the wrong number of Mel bins must be refused"),
    }
}

#[test]
fn whisper_decoder_refuses_unknown_tokens_and_long_text() {
    let mut g = Graph::new();
    let whisper = Whisper::new(&mut g, small_config());
    let mel = Tensor::randn(&mut g, &[1, 32, 20], 0, 1.0f32.to_bits(), false);
    assert!(whisper.forward_model(&mut g, &mel, &[1, 100], 1, 2).is_err());

    let long: Vec<usize> = (0..33).map(|i| i % 100).collect();
    assert!(whisper.forward_model(&mut g, &mel, &long, 1, 33).is_err());
    let longest: Vec<usize> = (0..32).map(|i| i % 100).collect();
    let logits = whisper.forward_model(&mut g, &mel, &longest, 1, 32).unwrap();
    assert_eq!(logits.shape(&g), vec![1, 32, 100]);
}

#[test]
fn whisper_parameters_cover_both_halves() {
    let mut g = Graph::new();
    let whisper = Whisper::new(&mut g, small_config());
    let enc = whisper.encoder.parameters();
    let dec = whisper.decoder.parameters();
    let all = whisper.parameters();
    assert_eq!(all.len(), enc.len() + dec.len());
    // The head has no bias: token table, positions, one block, final norm (2), head weight.
    assert_eq!(dec.first().map(|t| t.id), Some(whisper.decoder.token_embedding.weight.id));
    assert_eq!(dec.last().map(|t| t.id), Some(whisper.decoder.lm_head.weight.id));
    assert!(whisper.decoder.lm_head.bias.is_none());
}

#[test]
fn whisper_encoder_through_the_common_interface() {
    let mut g = Graph::new();
    let whisper = Whisper::new(&mut g, small_config());
    let mel = Tensor::randn(&mut g, &[1, 32, 20], 0, 1.0f32.to_bits(), false);
    let memory = Module::forward(&whisper.encoder, &mut g, &mel).unwrap();
    assert_eq!(memory.shape(&g), vec![1, 10, 32]);
    assert_eq!(Module::parameters(&whisper.encoder).len(), whisper.encoder.parameters().len());
}

#[test]
fn transcription_step_stops_on_end_token_and_on_the_step_limit() {
    let mut g = Graph::new();
    let whisper = Whisper::new(&mut g, small_config());
    let mel = Tensor::randn(&mut g, &[1, 32, 20], 0, 1.0f32.to_bits(), false);
    let memory = whisper.encode(&mut g, &mel).unwrap();
    let mut ids = vec![1usize];
    let before = g.nodes.len();
    assert!(whisper.transcription_step(&mut g, &mut ids, 2, 2, 0, 5, &memory).unwrap().is_none());
    assert_eq!(ids, vec![1]);
    assert!(whisper.transcription_step(&mut g, &mut ids, 7, 2, 5, 5, &memory).unwrap().is_none());
    assert_eq!(ids, vec![1]);
    assert_eq!(g.nodes.len(), before);
    // the last allowed step appends the token without decoding again
    assert!(whisper.transcription_step(&mut g, &mut ids, 7, 2, 4, 5, &memory).unwrap().is_none());
    assert_eq!(ids, vec![1, 7]);
    assert_eq!(g.nodes.len(), before);
    let logits = whisper.transcription_step(&mut g, &mut ids, 9, 2, 1, 5, &memory).unwrap().unwrap();
    assert_eq!(ids, vec![1, 7, 9]);
    assert_eq!(logits.shape(&g), vec![1, 3, 100]);
}

#[test]
fn transcription_ids_drop_the_start_token() {
    assert_eq!(Whisper::transcription_ids(&vec![1, 5, 6]), vec![5, 6]);
    assert_eq!(Whisper::transcription_ids(&vec![1]), vec![1]);
    assert_eq!(Whisper::transcription_ids(&Vec::new()), Vec::<usize>::new());
}
