//! Error type shared by every tensor, autograd and layer operation.

use vstd::prelude::*;

verus! {

/// Every way in which a tensor, autograd or layer operation can be refused.
#[derive(Debug)]
pub enum EngineError {
    /// A tensor had another shape than the operation expected.
    ShapeMismatch { expected: Vec<usize>, actual: Vec<usize> },
    /// The shapes handed to an operation cannot be combined.
    IncompatibleShapes { op: &'static str, shapes: Vec<Vec<usize>> },
    /// An axis named a dimension that the tensor does not have.
    DimensionOutOfBounds { axis: usize, ndim: usize },
    /// One shape cannot be broadcast to another.
    BroadcastError { from: Vec<usize>, to: Vec<usize> },
    /// An index lies outside the dimension that it indexes.
    IndexOutOfBounds { index: usize, size: usize },
    /// Stride, padding, dilation or kernel sizes do not fit the input.
    InvalidConvParams { details: String },
    /// The gradient computation could not proceed.
    GradientError(String),
    /// A tensor file could not be written or read back.
    SerializationError(String),
    /// An argument or configuration value is out of its range.
    InvalidArgument(String),
    /// The tokenizer refused its input.
    TokenizerError(String),
    /// The GPU backend failed.
    GpuError(String),
    /// The operation needs a tensor laid out contiguously.
    NonContiguousTensor,
}

} // verus!
