//! Layers, losses, initialization helpers and model configurations.

pub mod activations;
pub mod attention;
pub mod bert;
pub mod conv;
pub mod dropout;
pub mod embedding;
pub mod flash_attention;
pub mod init;
pub mod kv_cache;
pub mod linear;
pub mod llama;
pub mod llama2;
pub mod loss;
pub mod module;
pub mod moe;
pub mod norm;
pub mod pooling;
pub mod quantized;
pub mod resnet;
pub mod rnn;
pub mod sequential;
pub mod transformer;
pub mod vit;
pub mod whisper;
