//! Dropout: during training, zeroes each entry with probability `p` and rescales the rest.

use vstd::prelude::*;
use crate::autograd::node::{Graph, LeafInit, Op};
use crate::autograd::tensor::Tensor;
use crate::error::EngineError;
use crate::nn::module::Module;

verus! {

/// `bits` encodes an `f32` in `[0, 1)`: `-0.0`, or a non-negative number below `1.0`
/// (whose bit patterns are ordered like the numbers).
pub open spec fn probability_bits(bits: u32) -> bool {
    bits < 0x3f80_0000 || bits == 0x8000_0000
}

/// `bits` encodes an `f32` that is zero (of either sign).
pub open spec fn zero_bits(bits: u32) -> bool {
    bits == 0 || bits == 0x8000_0000
}

/// `bits` encodes an `f32` greater than zero (up to infinity; not NaN).
pub open spec fn positive_bits(bits: u32) -> bool {
    0 < bits <= 0x7f80_0000
}

/// Dropout with probability `p` (the `f32` whose bit pattern is `p_bits`).
#[derive(Clone, Copy)]
pub struct Dropout {
    pub p_bits: u32,
    pub is_training: bool,
}

impl Dropout {
    /// A dropout layer in training mode; `p` must lie in `[0, 1)`.
    pub fn new(p_bits: u32) -> (r: Dropout)
        requires
            probability_bits(p_bits),
        ensures
            r.p_bits == p_bits,
            r.is_training,
    {
        Dropout { p_bits, is_training: true }
    }

    /// The input itself in evaluation mode or when `p` is zero; otherwise the input times a
    /// fresh dropout mask of its shape.
    pub fn forward_dropout(&self, g: &mut Graph, input: &Tensor) -> (r: Tensor)
        requires
            old(g).wf(),
            input.valid(*old(g)),
        ensures
            final(g).wf(),
            old(g).extended_by(*final(g)),
            r.valid(*final(g)),
            r.shape_of(*final(g)) == input.shape_of(*old(g)),
            (!self.is_training || zero_bits(self.p_bits)) ==> r == *input && *final(g) == *old(g),
            (self.is_training && !zero_bits(self.p_bits)) ==> final(g).nodes@[r.id as int].op == Op::Mul
                && final(g).nodes@[r.id as int].inputs@.len() == 2
                && final(g).nodes@[r.id as int].inputs@[0] == input.id
                && final(g).nodes@[final(g).nodes@[r.id as int].inputs@[1] as int].op == Op::Leaf(LeafInit::DropoutMask { p_bits: self.p_bits }),
    {
        if !self.is_training || self.p_bits == 0 || self.p_bits == 0x8000_0000 {
            return *input;
        }
        let ghost g0 = *g;
        let shape = input.shape(g);
        let mask = Tensor::leaf(g, shape.as_slice(), LeafInit::DropoutMask { p_bits: self.p_bits }, false);
        let ghost g1 = *g;
        proof {
            crate::shape::lemma_broadcast_self(shape@);
        }
        let out = match input.mul(g, &mask) {
            Ok(t) => t,
            Err(_) => {
                proof { assert(false); }
                *input
            },
        };
        proof {
            g0.lemma_extended_trans(g1, *g);
            assert(g.nodes@[mask.id as int] == g1.nodes@[mask.id as int]);
        }
        out
    }
}

impl Module for Dropout {
    open spec fn mode_is(&self, training: bool) -> bool {
        self.is_training == training
    }

    open spec fn param_list(&self) -> Seq<Tensor> {
        crate::nn::module::tensors_of(self.tensor_shapes())
    }

    open spec fn buffer_shapes(&self) -> Seq<(usize, Seq<usize>)> {
        Seq::empty()
    }

    open spec fn tensor_shapes(&self) -> Seq<(Tensor, Seq<usize>)> {
        Seq::empty()
    }

    fn forward(&self, g: &mut Graph, input: &Tensor) -> (r: Result<Tensor, EngineError>)
        ensures
            r matches Ok(t) && t.shape_of(*final(g)) == input.shape_of(*old(g)),
    {
        Ok(self.forward_dropout(g, input))
    }

    fn parameters(&self) -> (r: Vec<Tensor>)
        ensures
            r@.len() == 0,
    {
        Vec::new()
    }

    fn train(&mut self)
        ensures
            final(self).is_training,
            final(self).p_bits == old(self).p_bits,
    {
        self.is_training = true;
    }

    fn eval(&mut self)
        ensures
            !final(self).is_training,
            final(self).p_bits == old(self).p_bits,
    {
        self.is_training = false;
    }
}

} // verus!
