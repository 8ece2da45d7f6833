//! Spatial max pooling layer.

use vstd::prelude::*;
use crate::autograd::node::{Graph, Op};
use crate::autograd::tensor::{Tensor, pool_ok, pool_spec};
use crate::error::EngineError;
use crate::nn::module::Module;

verus! {

/// 2D max pooling with a `(height, width)` window and stride.
#[derive(Clone, Copy)]
pub struct MaxPool2d {
    pub kernel_size: (usize, usize),
    pub stride: (usize, usize),
}

impl MaxPool2d {
    /// Pooling with the given window and stride.
    pub fn new(kernel_size: (usize, usize), stride: (usize, usize)) -> (r: MaxPool2d)
        ensures
            r.kernel_size == kernel_size,
            r.stride == stride,
    {
        MaxPool2d { kernel_size, stride }
    }

    /// Square pooling whose stride equals its window.
    pub fn square(size: usize) -> (r: MaxPool2d)
        ensures
            r.kernel_size == (size, size),
            r.stride == (size, size),
    {
        MaxPool2d { kernel_size: (size, size), stride: (size, size) }
    }
}

impl Module for MaxPool2d {
    open spec fn mode_is(&self, training: bool) -> bool {
        true
    }

    open spec fn param_list(&self) -> Seq<Tensor> {
        crate::nn::module::tensors_of(self.tensor_shapes())
    }

    open spec fn buffer_shapes(&self) -> Seq<(usize, Seq<usize>)> {
        Seq::empty()
    }

    open spec fn tensor_shapes(&self) -> Seq<(Tensor, Seq<usize>)> {
        Seq::empty()
    }

    fn forward(&self, g: &mut Graph, input: &Tensor) -> (r: Result<Tensor, EngineError>)
        ensures
            r is Ok <==> pool_ok(input.shape_of(*old(g)), self.kernel_size, self.stride),
            r matches Ok(t) ==> t.shape_of(*final(g)) == pool_spec(input.shape_of(*old(g)), self.kernel_size, self.stride),
            r matches Ok(t) ==> final(g).nodes@[t.id as int].op == (Op::MaxPool2d { kernel_size: self.kernel_size, stride: self.stride })
                && final(g).nodes@[t.id as int].inputs@ == seq![input.id],
    {
        input.max_pool2d(g, self.kernel_size, self.stride)
    }

    fn parameters(&self) -> (r: Vec<Tensor>)
        ensures
            r@.len() == 0,
    {
        Vec::new()
    }

    /// Nothing switches between training and evaluation.
    fn train(&mut self) {
    }

    /// Nothing switches between training and evaluation.
    fn eval(&mut self) {
    }
}

} // verus!
