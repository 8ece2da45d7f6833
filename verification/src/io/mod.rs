//! Reading and writing tensors in the safetensors format.

pub mod safetensors;
