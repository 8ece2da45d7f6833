//! Reverse-mode automatic differentiation over shape-level tensors.

pub mod backward;
pub mod context;
pub mod node;
pub mod tensor;
