//! Fully connected layer `y = x W^T + b`.

use vstd::prelude::*;
use crate::autograd::node::{Graph, LeafInit, Op};
use crate::autograd::tensor::{Tensor, leaf_recorded, lemma_reads_extend, lemma_reads_self, lemma_reads_through, reads};
use crate::error::EngineError;
use crate::nn::module::Module;
use crate::shape::{broadcast_spec, lemma_broadcast_suffix, lemma_matmul_by_matrix, matmul_spec, transpose_spec};

verus! {

/// Fully connected layer with a `[out_features, in_features]` weight and an optional
/// `[out_features]` bias.
#[derive(Clone, Copy)]
pub struct Linear {
    pub weight: Tensor,
    pub bias: Option<Tensor>,
    pub in_features: usize,
    pub out_features: usize,
}

/// Shape of a fully connected layer's output: the input with its last dimension replaced.
pub open spec fn linear_out(x: Seq<usize>, out_features: usize) -> Seq<usize> {
    x.update(x.len() - 1, out_features)
}

impl Linear {
    /// The layer's tensors live in `g` with the expected shapes.
    pub open spec fn wf_in(&self, g: Graph) -> bool {
        &&& self.weight.valid(g)
        &&& self.weight.shape_of(g) == seq![self.out_features, self.in_features]
        &&& self.bias matches Some(b) ==> b.valid(g) && b.shape_of(g) == seq![self.out_features]
    }

    /// The layer's tensors with their expected shapes.
    pub open spec fn shapes(&self) -> Seq<(Tensor, Seq<usize>)> {
        match self.bias {
            Some(b) => seq![(self.weight, seq![self.out_features, self.in_features]), (b, seq![self.out_features])],
            None => seq![(self.weight, seq![self.out_features, self.in_features])],
        }
    }

    /// `wf_in` says the same as the list of expected shapes.
    pub proof fn lemma_wf_in_shapes(&self, g: Graph)
        ensures
            self.wf_in(g) <==> crate::nn::module::shapes_hold(g, self.shapes()),
    {
        if self.wf_in(g) {
            assert(crate::nn::module::shapes_hold(g, self.shapes()));
        }
        if crate::nn::module::shapes_hold(g, self.shapes()) {
            assert(self.shapes()[0].0 == self.weight);
            if let Some(b) = self.bias {
                assert(self.shapes()[1].0 == b);
            }
        }
    }

    /// The layer's learnable tensors: the weight, then the bias if there is one.
    pub open spec fn param_seq(&self) -> Seq<Tensor> {
        match self.bias {
            Some(b) => seq![self.weight, b],
            None => seq![self.weight],
        }
    }

    /// The layer accepts input of shape `x`: rank at least 2, last dimension `in_features`.
    pub open spec fn accepts(&self, x: Seq<usize>) -> bool {
        x.len() >= 2 && x[x.len() - 1] == self.in_features
    }

    /// A layer with a Kaiming-uniform weight and a bias drawn uniformly from
    /// `[-1/sqrt(in_features), 1/sqrt(in_features))`.
    pub fn new(g: &mut Graph, in_features: usize, out_features: usize) -> (r: Linear)
        requires
            old(g).wf(),
        ensures
            final(g).wf(),
            old(g).extended_by(*final(g)),
            r.wf_in(*final(g)),
            r.in_features == in_features,
            r.out_features == out_features,
            r.bias is Some,
            final(g).nodes@[r.weight.id as int].op == crate::autograd::node::Op::Leaf(LeafInit::KaimingUniform { fan_in: in_features }),
            final(g).nodes@[r.weight.id as int].requires_grad,
            r.bias matches Some(b) && final(g).nodes@[b.id as int].op == crate::autograd::node::Op::Leaf(LeafInit::FanInUniform { fan_in: in_features })
                && final(g).nodes@[b.id as int].requires_grad,
    {
        Self::with_bias(g, in_features, out_features, true)
    }

    /// A layer with a Kaiming-uniform weight and, when `has_bias`, a uniform bias.
    pub fn with_bias(g: &mut Graph, in_features: usize, out_features: usize, has_bias: bool) -> (r: Linear)
        requires
            old(g).wf(),
        ensures
            final(g).wf(),
            old(g).extended_by(*final(g)),
            r.wf_in(*final(g)),
            r.in_features == in_features,
            r.out_features == out_features,
            r.bias is Some == has_bias,
            final(g).nodes@[r.weight.id as int].op == crate::autograd::node::Op::Leaf(LeafInit::KaimingUniform { fan_in: in_features }),
            final(g).nodes@[r.weight.id as int].requires_grad,
            r.bias matches Some(b) ==> final(g).nodes@[b.id as int].op == crate::autograd::node::Op::Leaf(LeafInit::FanInUniform { fan_in: in_features })
                && final(g).nodes@[b.id as int].requires_grad,
    {
        let ghost g0 = *g;
        let mut ws: Vec<usize> = Vec::new();
        ws.push(out_features);
        ws.push(in_features);
        let weight = Tensor::kaiming_uniform(g, ws.as_slice(), in_features, true);
        let ghost g1 = *g;
        let bias = if has_bias {
            let mut bs: Vec<usize> = Vec::new();
            bs.push(out_features);
            let b = Tensor::leaf(g, bs.as_slice(), LeafInit::FanInUniform { fan_in: in_features }, true);
            assert(bs@ =~= seq![out_features]);
            Some(b)
        } else {
            None
        };
        assert(ws@ =~= seq![out_features, in_features]);
        assert(g1.extended_by(*g));
        assert(g.nodes@[weight.id as int] == g1.nodes@[weight.id as int]);
        Linear { weight, bias, in_features, out_features }
    }

    /// A layer without bias.
    pub fn without_bias(g: &mut Graph, in_features: usize, out_features: usize) -> (r: Linear)
        requires
            old(g).wf(),
        ensures
            final(g).wf(),
            old(g).extended_by(*final(g)),
            r.wf_in(*final(g)),
            r.in_features == in_features,
            r.out_features == out_features,
            r.bias is None,
    {
        Self::with_bias(g, in_features, out_features, false)
    }

    /// Applies the layer: `x @ W^T (+ b)`.
    pub fn forward_linear(&self, g: &mut Graph, input: &Tensor) -> (r: Result<Tensor, EngineError>)
        requires
            old(g).wf(),
            self.wf_in(*old(g)),
            input.valid(*old(g)),
        ensures
            final(g).wf(),
            old(g).extended_by(*final(g)),
            final(g).buffers == old(g).buffers,
            r is Ok <==> self.accepts(input.shape_of(*old(g))),
            r matches Ok(t) ==> t.valid(*final(g)) && t.shape_of(*final(g)) == linear_out(input.shape_of(*old(g)), self.out_features),
            r matches Ok(t) ==> linear_result(*final(g), t.id as int, *self, input.id as int),
            r matches Err(e) ==> e is IncompatibleShapes,
    {
        let ghost g0 = *g;
        let ghost x = input.shape_of(*g);
        let w_t = match self.weight.transpose(g, 0, 1) {
            Ok(t) => t,
            Err(e) => {
                return Err(e);
            },
        };
        assert(transpose_spec(seq![self.out_features, self.in_features], 0, 1) =~= seq![self.in_features, self.out_features]);
        let ghost g1 = *g;
        assert(g1.nodes@[input.id as int] == g0.nodes@[input.id as int]);
        let out = match input.matmul(g, &w_t) {
            Ok(t) => t,
            Err(e) => {
                proof {
                    if x.len() >= 2 && x[x.len() - 1] == self.in_features {
                        lemma_matmul_by_matrix(x, self.in_features, self.out_features);
                    }
                }
                return Err(e);
            },
        };
        proof {
            lemma_matmul_by_matrix(x, self.in_features, self.out_features);
        }
        let ghost g2 = *g;
        proof {
            lemma_reads_self(g1, input.id as int);
            lemma_reads_through(g1, g2, out.id as int, 0, input.id as int);
            lemma_reads_self(g0, self.weight.id as int);
            lemma_reads_through(g0, g1, w_t.id as int, 0, self.weight.id as int);
            lemma_reads_through(g1, g2, out.id as int, 1, self.weight.id as int);
        }
        match self.bias {
            Some(b) => {
                assert(g2.nodes@[b.id as int] == g0.nodes@[b.id as int]);
                let ghost xo = out.shape_of(g2);
                proof {
                    assert(seq![self.out_features] =~= xo.subrange(xo.len() - 1, xo.len() as int));
                    lemma_broadcast_suffix(xo, seq![self.out_features]);
                }
                let res = out.add(g, &b);
                match res {
                    Ok(t) => {
                        proof {
                            lemma_reads_through(g2, *g, t.id as int, 0, input.id as int);
                            lemma_reads_through(g2, *g, t.id as int, 0, self.weight.id as int);
                            assert(g.nodes@[out.id as int] == g2.nodes@[out.id as int]);
                        }
                        Ok(t)
                    },
                    Err(e) => Err(e),
                }
            },
            None => Ok(out),
        }
    }
}

/// Node `t` of `g` is what `lin` makes of node `x`: it reads `x` and the weight, and it is the
/// bias added to a matrix product, or, without a bias, the product of `x` with the transposed
/// weight.
pub open spec fn linear_result(g: Graph, t: int, lin: Linear, x: int) -> bool {
    let ins = g.nodes@[t].inputs@;
    &&& reads(g, t, x)
    &&& reads(g, t, lin.weight.id as int)
    &&& ins.len() == 2
    &&& match lin.bias {
        Some(b) => g.nodes@[t].op == Op::Add && ins[1] == b.id && g.nodes@[ins[0] as int].op == Op::MatMul,
        None => g.nodes@[t].op == Op::MatMul && ins[0] == x,
    }
}

/// Recording more nodes keeps what a linear layer made.
pub proof fn lemma_linear_result_extend(g1: Graph, g2: Graph, t: int, lin: Linear, x: int)
    requires
        g1.wf(),
        0 <= t < g1.nodes@.len(),
        linear_result(g1, t, lin, x),
        g1.extended_by(g2),
    ensures
        linear_result(g2, t, lin, x),
{
    assert(crate::autograd::node::node_wf(g1.nodes@[t], t));
    let a = g1.nodes@[t].inputs@[0] as int;
    assert(g2.nodes@[t] == g1.nodes@[t]);
    assert(g2.nodes@[a] == g1.nodes@[a]);
    lemma_reads_extend(g1, g2, t, x);
    lemma_reads_extend(g1, g2, t, lin.weight.id as int);
}

impl Module for Linear {
    open spec fn mode_is(&self, training: bool) -> bool {
        true
    }

    open spec fn param_list(&self) -> Seq<Tensor> {
        self.param_seq()
    }

    open spec fn buffer_shapes(&self) -> Seq<(usize, Seq<usize>)> {
        Seq::empty()
    }

    open spec fn tensor_shapes(&self) -> Seq<(Tensor, Seq<usize>)> {
        self.shapes()
    }

    fn forward(&self, g: &mut Graph, input: &Tensor) -> (r: Result<Tensor, EngineError>)
        ensures
            r is Ok <==> self.accepts(input.shape_of(*old(g))),
            r matches Ok(t) ==> t.shape_of(*final(g)) == linear_out(input.shape_of(*old(g)), self.out_features),
    {
        proof {
            self.lemma_wf_in_shapes(*g);
        }
        self.forward_linear(g, input)
    }

    fn parameters(&self) -> (r: Vec<Tensor>)
        ensures
            r@ == self.param_seq(),
    {
        proof {
            assert forall|g: Graph| #[trigger] crate::nn::module::shapes_hold(g, self.tensor_shapes()) implies self.wf_in(g) by {
                self.lemma_wf_in_shapes(g);
            }
        }
        let mut params: Vec<Tensor> = Vec::new();
        params.push(self.weight);
        match self.bias {
            Some(b) => {
                params.push(b);
            },
            None => {},
        }
        assert(params@ =~= (match self.bias { Some(b) => seq![self.weight, b], None => seq![self.weight] }));
        assert(params@ == self.param_list());
        params
    }

    /// Nothing switches between training and evaluation.
    fn train(&mut self) {
    }

    /// Nothing switches between training and evaluation.
    fn eval(&mut self) {
    }
}

} // verus!
