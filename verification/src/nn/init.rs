//! Fan computations for weight initialization, and filling existing tensors with zeros or
//! ones.

use vstd::prelude::*;
use crate::autograd::node::{Graph, LeafInit, Op};
use crate::autograd::tensor::Tensor;
use crate::shape::{numel, numel_spec, shape_fits};

verus! {

/// Whether a Kaiming initialization scales by the fan-in or the fan-out.
#[derive(Clone, Copy, PartialEq, Eq, Structural)]
pub enum FanMode {
    FanIn,
    FanOut,
}

/// Product of the dimensions after the first two (the receptive field of a convolution kernel).
pub open spec fn receptive_field(shape: Seq<usize>) -> int {
    numel_spec(shape.subrange(2, shape.len() as int))
}

/// `(fan_in, fan_out)` of a weight of the given shape: `(1, 1)` for a scalar, `(n, n)` for a
/// vector of length `n`, `(in, out)` for an `[out, in]` matrix, and for `[out, in, k...]`
/// kernels `(in * rf, out * rf)` where `rf` is the product of the kernel dimensions.
pub open spec fn fan_spec(shape: Seq<usize>) -> (int, int) {
    if shape.len() == 0 {
        (1, 1)
    } else if shape.len() == 1 {
        (shape[0] as int, shape[0] as int)
    } else if shape.len() == 2 {
        (shape[1] as int, shape[0] as int)
    } else {
        (shape[1] * receptive_field(shape), shape[0] * receptive_field(shape))
    }
}

/// The products that `calculate_fan_in_and_fan_out` forms fit in a `usize`.
pub open spec fn fans_fit(shape: Seq<usize>) -> bool {
    shape.len() >= 3 ==> {
        &&& shape_fits(shape.subrange(2, shape.len() as int))
        &&& shape[1] * receptive_field(shape) <= usize::MAX
        &&& shape[0] * receptive_field(shape) <= usize::MAX
    }
}

/// Computes the fan-in and fan-out of a weight shape.
pub fn calculate_fan_in_and_fan_out(shape: &[usize]) -> (r: (usize, usize))
    requires
        fans_fit(shape@),
    ensures
        r.0 == fan_spec(shape@).0,
        r.1 == fan_spec(shape@).1,
{
    if shape.len() == 0 {
        return (1, 1);
    }
    if shape.len() == 1 {
        return (shape[0], shape[0]);
    }
    if shape.len() == 2 {
        return (shape[1], shape[0]);
    }
    let mut rest: Vec<usize> = Vec::with_capacity(shape.len() - 2);
    let mut i: usize = 2;
    while i < shape.len()
        invariant
            2 <= i <= shape@.len(),
            rest@ == shape@.subrange(2, i as int),
        decreases shape.len() - i,
    {
        rest.push(shape[i]);
        i = i + 1;
        assert(rest@ =~= shape@.subrange(2, i as int));
    }
    let rf = numel(rest.as_slice());
    (shape[1] * rf, shape[0] * rf)
}

/// Fills an existing tensor with zeros: it keeps its shape and gradient bookkeeping, and its
/// node becomes a zero leaf (see [`Tensor::reinit`]).
pub fn zeros_(g: &mut Graph, tensor: &Tensor)
    requires
        old(g).wf(),
        tensor.valid(*old(g)),
    ensures
        final(g).wf(),
        final(g).nodes@.len() == old(g).nodes@.len(),
        forall|j: int| 0 <= j < old(g).nodes@.len() && j != tensor.id ==> #[trigger] final(g).nodes@[j] == old(g).nodes@[j],
        tensor.shape_of(*final(g)) == tensor.shape_of(*old(g)),
        final(g).nodes@[tensor.id as int].op == Op::Leaf(LeafInit::Zeros),
        final(g).nodes@[tensor.id as int].requires_grad == old(g).nodes@[tensor.id as int].requires_grad,
{
    let shape = tensor.shape(g);
    tensor.reinit(g, shape.as_slice(), LeafInit::Zeros);
}

/// Fills an existing tensor with ones: it keeps its shape and gradient bookkeeping, and its
/// node becomes a leaf of ones (see [`Tensor::reinit`]).
pub fn ones_(g: &mut Graph, tensor: &Tensor)
    requires
        old(g).wf(),
        tensor.valid(*old(g)),
    ensures
        final(g).wf(),
        final(g).nodes@.len() == old(g).nodes@.len(),
        forall|j: int| 0 <= j < old(g).nodes@.len() && j != tensor.id ==> #[trigger] final(g).nodes@[j] == old(g).nodes@[j],
        tensor.shape_of(*final(g)) == tensor.shape_of(*old(g)),
        final(g).nodes@[tensor.id as int].op == Op::Leaf(LeafInit::Ones),
        final(g).nodes@[tensor.id as int].requires_grad == old(g).nodes@[tensor.id as int].requires_grad,
{
    let shape = tensor.shape(g);
    tensor.reinit(g, shape.as_slice(), LeafInit::Ones);
}

} // verus!
