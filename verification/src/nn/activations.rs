//! Activation layers.

use vstd::prelude::*;
use crate::autograd::node::{Graph, Op};
use crate::autograd::tensor::{Tensor, axis_result, unary_result};
use crate::error::EngineError;
use crate::nn::module::Module;

verus! {

/// Rectified linear unit layer.
#[derive(Clone, Copy, Default)]
pub struct ReLU;

/// Gaussian error linear unit layer.
#[derive(Clone, Copy, Default)]
pub struct GELU;

/// Logistic sigmoid layer.
#[derive(Clone, Copy, Default)]
pub struct Sigmoid;

/// Hyperbolic tangent layer.
#[derive(Clone, Copy, Default)]
pub struct Tanh;

/// Leaky rectified linear unit layer: negative entries are scaled by the slope.
#[derive(Clone, Copy)]
pub struct LeakyReLU {
    /// Bit pattern of the `f32` negative slope.
    pub negative_slope_bits: u32,
}

impl LeakyReLU {
    /// The layer with the given negative slope.
    pub fn new(negative_slope_bits: u32) -> (r: LeakyReLU)
        ensures
            r.negative_slope_bits == negative_slope_bits,
    {
        LeakyReLU { negative_slope_bits }
    }
}

impl Default for LeakyReLU {
    /// Negative slope `0.01`.
    fn default() -> (r: LeakyReLU)
        ensures
            r.negative_slope_bits == 0x3c23_d70a,
    {
        LeakyReLU { negative_slope_bits: 0x3c23_d70a }
    }
}

impl Module for LeakyReLU {
    open spec fn mode_is(&self, training: bool) -> bool {
        true
    }

    open spec fn param_list(&self) -> Seq<Tensor> {
        crate::nn::module::tensors_of(self.tensor_shapes())
    }

    open spec fn buffer_shapes(&self) -> Seq<(usize, Seq<usize>)> {
        Seq::empty()
    }

    open spec fn tensor_shapes(&self) -> Seq<(Tensor, Seq<usize>)> {
        Seq::empty()
    }

    fn forward(&self, g: &mut Graph, input: &Tensor) -> (r: Result<Tensor, EngineError>)
        ensures
            r matches Ok(t) && unary_result(*old(g), *final(g), *input, t, Op::LeakyRelu { slope_bits: self.negative_slope_bits }),
    {
        input.leaky_relu(g, self.negative_slope_bits)
    }

    fn parameters(&self) -> (r: Vec<Tensor>)
        ensures
            r@.len() == 0,
    {
        Vec::new()
    }

    /// Nothing switches between training and evaluation.
    fn train(&mut self) {
    }

    /// Nothing switches between training and evaluation.
    fn eval(&mut self) {
    }
}

/// Softmax layer along a fixed axis.
#[derive(Clone, Copy)]
pub struct Softmax {
    pub axis: usize,
}

impl Softmax {
    /// Softmax along `axis`.
    pub fn new(axis: usize) -> (r: Softmax)
        ensures
            r.axis == axis,
    {
        Softmax { axis }
    }
}

impl Module for ReLU {
    open spec fn mode_is(&self, training: bool) -> bool {
        true
    }

    open spec fn param_list(&self) -> Seq<Tensor> {
        crate::nn::module::tensors_of(self.tensor_shapes())
    }

    open spec fn buffer_shapes(&self) -> Seq<(usize, Seq<usize>)> {
        Seq::empty()
    }

    open spec fn tensor_shapes(&self) -> Seq<(Tensor, Seq<usize>)> {
        Seq::empty()
    }

    fn forward(&self, g: &mut Graph, input: &Tensor) -> (r: Result<Tensor, EngineError>)
        ensures
            r matches Ok(t) && unary_result(*old(g), *final(g), *input, t, Op::Relu),
    {
        input.relu(g)
    }

    fn parameters(&self) -> (r: Vec<Tensor>)
        ensures
            r@.len() == 0,
    {
        Vec::new()
    }

    /// Nothing switches between training and evaluation.
    fn train(&mut self) {
    }

    /// Nothing switches between training and evaluation.
    fn eval(&mut self) {
    }
}

impl Module for GELU {
    open spec fn mode_is(&self, training: bool) -> bool {
        true
    }

    open spec fn param_list(&self) -> Seq<Tensor> {
        crate::nn::module::tensors_of(self.tensor_shapes())
    }

    open spec fn buffer_shapes(&self) -> Seq<(usize, Seq<usize>)> {
        Seq::empty()
    }

    open spec fn tensor_shapes(&self) -> Seq<(Tensor, Seq<usize>)> {
        Seq::empty()
    }

    fn forward(&self, g: &mut Graph, input: &Tensor) -> (r: Result<Tensor, EngineError>)
        ensures
            r matches Ok(t) && unary_result(*old(g), *final(g), *input, t, Op::Gelu),
    {
        input.gelu(g)
    }

    fn parameters(&self) -> (r: Vec<Tensor>)
        ensures
            r@.len() == 0,
    {
        Vec::new()
    }

    /// Nothing switches between training and evaluation.
    fn train(&mut self) {
    }

    /// Nothing switches between training and evaluation.
    fn eval(&mut self) {
    }
}

impl Module for Sigmoid {
    open spec fn mode_is(&self, training: bool) -> bool {
        true
    }

    open spec fn param_list(&self) -> Seq<Tensor> {
        crate::nn::module::tensors_of(self.tensor_shapes())
    }

    open spec fn buffer_shapes(&self) -> Seq<(usize, Seq<usize>)> {
        Seq::empty()
    }

    open spec fn tensor_shapes(&self) -> Seq<(Tensor, Seq<usize>)> {
        Seq::empty()
    }

    fn forward(&self, g: &mut Graph, input: &Tensor) -> (r: Result<Tensor, EngineError>)
        ensures
            r matches Ok(t) && unary_result(*old(g), *final(g), *input, t, Op::Sigmoid),
    {
        input.sigmoid(g)
    }

    fn parameters(&self) -> (r: Vec<Tensor>)
        ensures
            r@.len() == 0,
    {
        Vec::new()
    }

    /// Nothing switches between training and evaluation.
    fn train(&mut self) {
    }

    /// Nothing switches between training and evaluation.
    fn eval(&mut self) {
    }
}

impl Module for Tanh {
    open spec fn mode_is(&self, training: bool) -> bool {
        true
    }

    open spec fn param_list(&self) -> Seq<Tensor> {
        crate::nn::module::tensors_of(self.tensor_shapes())
    }

    open spec fn buffer_shapes(&self) -> Seq<(usize, Seq<usize>)> {
        Seq::empty()
    }

    open spec fn tensor_shapes(&self) -> Seq<(Tensor, Seq<usize>)> {
        Seq::empty()
    }

    fn forward(&self, g: &mut Graph, input: &Tensor) -> (r: Result<Tensor, EngineError>)
        ensures
            r matches Ok(t) && unary_result(*old(g), *final(g), *input, t, Op::Tanh),
    {
        input.tanh(g)
    }

    fn parameters(&self) -> (r: Vec<Tensor>)
        ensures
            r@.len() == 0,
    {
        Vec::new()
    }

    /// Nothing switches between training and evaluation.
    fn train(&mut self) {
    }

    /// Nothing switches between training and evaluation.
    fn eval(&mut self) {
    }
}

impl Module for Softmax {
    open spec fn mode_is(&self, training: bool) -> bool {
        true
    }

    open spec fn param_list(&self) -> Seq<Tensor> {
        crate::nn::module::tensors_of(self.tensor_shapes())
    }

    open spec fn buffer_shapes(&self) -> Seq<(usize, Seq<usize>)> {
        Seq::empty()
    }

    open spec fn tensor_shapes(&self) -> Seq<(Tensor, Seq<usize>)> {
        Seq::empty()
    }

    fn forward(&self, g: &mut Graph, input: &Tensor) -> (r: Result<Tensor, EngineError>)
        ensures
            axis_result(*old(g), *final(g), *input, self.axis, r, Op::Softmax { axis: self.axis }),
    {
        input.softmax(g, self.axis)
    }

    fn parameters(&self) -> (r: Vec<Tensor>)
        ensures
            r@.len() == 0,
    {
        Vec::new()
    }

    /// Nothing switches between training and evaluation.
    fn train(&mut self) {
    }

    /// Nothing switches between training and evaluation.
    fn eval(&mut self) {
    }
}

} // verus!
