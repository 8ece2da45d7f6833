//! 2D convolution layer.

use vstd::prelude::*;
use crate::autograd::node::{Conv2dParams, Graph, LeafInit, Op};
use crate::autograd::tensor::{Tensor, conv_spec, conv_window_ok};
use crate::error::EngineError;
use crate::nn::module::Module;

verus! {

/// 2D convolution with an `[out_channels, in_channels, KH, KW]` weight and an optional
/// `[out_channels]` bias.
#[derive(Clone, Copy)]
pub struct Conv2d {
    pub weight: Tensor,
    pub bias: Option<Tensor>,
    pub in_channels: usize,
    pub out_channels: usize,
    pub kernel_size: (usize, usize),
    pub params: Conv2dParams,
}

/// Shape of the weight of a convolution layer.
pub open spec fn conv_weight(c: Conv2d) -> Seq<usize> {
    seq![c.out_channels, c.in_channels, c.kernel_size.0, c.kernel_size.1]
}

impl Conv2d {
    /// The layer's tensors live in `g` with the expected shapes.
    pub open spec fn wf_in(&self, g: Graph) -> bool {
        &&& self.weight.valid(g)
        &&& self.weight.shape_of(g) == seq![self.out_channels, self.in_channels, self.kernel_size.0, self.kernel_size.1]
        &&& self.bias matches Some(b) ==> b.valid(g) && b.shape_of(g) == seq![self.out_channels]
    }

    /// The layer's tensors with their expected shapes.
    pub open spec fn shapes(&self) -> Seq<(Tensor, Seq<usize>)> {
        match self.bias {
            Some(b) => seq![(self.weight, seq![self.out_channels, self.in_channels, self.kernel_size.0, self.kernel_size.1]), (b, seq![self.out_channels])],
            None => seq![(self.weight, seq![self.out_channels, self.in_channels, self.kernel_size.0, self.kernel_size.1])],
        }
    }

    /// `wf_in` says the same as the list of expected shapes.
    pub proof fn lemma_wf_in_shapes(&self, g: Graph)
        ensures
            self.wf_in(g) <==> crate::nn::module::shapes_hold(g, self.shapes()),
    {
        if self.wf_in(g) {
            assert(crate::nn::module::shapes_hold(g, self.shapes()));
        }
        if crate::nn::module::shapes_hold(g, self.shapes()) {
            assert(self.shapes()[0].0 == self.weight);
            if let Some(b) = self.bias {
                assert(self.shapes()[1].0 == b);
            }
        }
    }

    /// Stride 1, no padding, dilation 1, with bias.
    pub fn new(g: &mut Graph, in_channels: usize, out_channels: usize, kernel_size: (usize, usize)) -> (r: Conv2d)
        requires
            old(g).wf(),
            in_channels * kernel_size.0 * kernel_size.1 <= usize::MAX,
        ensures
            final(g).wf(),
            old(g).extended_by(*final(g)),
            r.wf_in(*final(g)),
            r.in_channels == in_channels,
            r.out_channels == out_channels,
            r.kernel_size == kernel_size,
            r.params == (Conv2dParams { stride: (1, 1), padding: (0, 0), dilation: (1, 1) }),
            r.bias is Some,
            final(g).nodes@[r.weight.id as int].requires_grad,
            r.bias matches Some(b) && final(g).nodes@[b.id as int].requires_grad,
    {
        Self::with_options(g, in_channels, out_channels, kernel_size, (1, 1), (0, 0), (1, 1), true)
    }

    /// A layer with a Kaiming-uniform weight for fan-in `in_channels * KH * KW` and, when
    /// `has_bias`, a bias uniform in `[-1/sqrt(fan_in), 1/sqrt(fan_in))`.
    pub fn with_options(
        g: &mut Graph,
        in_channels: usize,
        out_channels: usize,
        kernel_size: (usize, usize),
        stride: (usize, usize),
        padding: (usize, usize),
        dilation: (usize, usize),
        has_bias: bool,
    ) -> (r: Conv2d)
        requires
            old(g).wf(),
            in_channels * kernel_size.0 * kernel_size.1 <= usize::MAX,
        ensures
            final(g).wf(),
            old(g).extended_by(*final(g)),
            r.wf_in(*final(g)),
            r.in_channels == in_channels,
            r.out_channels == out_channels,
            r.kernel_size == kernel_size,
            r.params == (Conv2dParams { stride, padding, dilation }),
            r.bias is Some == has_bias,
            final(g).nodes@[r.weight.id as int].op == Op::Leaf(LeafInit::KaimingUniform { fan_in: (in_channels * kernel_size.0 * kernel_size.1) as usize }),
            r.bias matches Some(b) ==> final(g).nodes@[b.id as int].op == Op::Leaf(LeafInit::FanInUniform { fan_in: (in_channels * kernel_size.0 * kernel_size.1) as usize }),
            final(g).nodes@[r.weight.id as int].requires_grad,
            r.bias matches Some(b) ==> final(g).nodes@[b.id as int].requires_grad,
    {
        assert(in_channels * kernel_size.0 <= in_channels * kernel_size.0 * kernel_size.1 || kernel_size.1 == 0) by (nonlinear_arith);
        let fan_in: usize = if kernel_size.1 == 0 {
            0
        } else {
            in_channels * kernel_size.0 * kernel_size.1
        };
        assert(fan_in == in_channels * kernel_size.0 * kernel_size.1) by (nonlinear_arith)
            requires
                kernel_size.1 == 0 ==> fan_in == 0,
                kernel_size.1 != 0 ==> fan_in == in_channels * kernel_size.0 * kernel_size.1,
        ;
        let mut ws: Vec<usize> = Vec::new();
        ws.push(out_channels);
        ws.push(in_channels);
        ws.push(kernel_size.0);
        ws.push(kernel_size.1);
        let weight = Tensor::kaiming_uniform(g, ws.as_slice(), fan_in, true);
        let ghost g1 = *g;
        let bias = if has_bias {
            let mut bs: Vec<usize> = Vec::new();
            bs.push(out_channels);
            let b = Tensor::leaf(g, bs.as_slice(), LeafInit::FanInUniform { fan_in }, true);
            assert(bs@ =~= seq![out_channels]);
            Some(b)
        } else {
            None
        };
        assert(ws@ =~= seq![out_channels, in_channels, kernel_size.0, kernel_size.1]);
        assert(g.nodes@[weight.id as int] == g1.nodes@[weight.id as int]);
        Conv2d {
            weight,
            bias,
            in_channels,
            out_channels,
            kernel_size,
            params: Conv2dParams { stride, padding, dilation },
        }
    }
}

impl Module for Conv2d {
    open spec fn mode_is(&self, training: bool) -> bool {
        true
    }

    open spec fn param_list(&self) -> Seq<Tensor> {
        crate::nn::module::tensors_of(self.tensor_shapes())
    }

    open spec fn buffer_shapes(&self) -> Seq<(usize, Seq<usize>)> {
        Seq::empty()
    }

    open spec fn tensor_shapes(&self) -> Seq<(Tensor, Seq<usize>)> {
        self.shapes()
    }

    fn forward(&self, g: &mut Graph, input: &Tensor) -> (r: Result<Tensor, EngineError>)
        ensures
            r is Ok <==> ({
                let x = input.shape_of(*old(g));
                x.len() == 4 && x[1] == self.in_channels && conv_window_ok(x, self.weight.shape_of(*old(g)), self.params)
            }),
            r matches Ok(t) ==> t.shape_of(*final(g)) == conv_spec(input.shape_of(*old(g)), self.weight.shape_of(*old(g)), self.params),
            r matches Ok(t) ==> final(g).nodes@[t.id as int].op == (Op::Conv2d { params: self.params })
                && final(g).nodes@[t.id as int].inputs@ == (match self.bias {
                    Some(b) => seq![input.id, self.weight.id, b.id],
                    None => seq![input.id, self.weight.id],
                }),
    {
        proof {
            self.lemma_wf_in_shapes(*g);
        }
        match self.bias {
            Some(b) => input.conv2d(g, &self.weight, Some(&b), self.params),
            None => input.conv2d(g, &self.weight, None, self.params),
        }
    }

    fn parameters(&self) -> (r: Vec<Tensor>)
        ensures
            r@ == (match self.bias { Some(b) => seq![self.weight, b], None => seq![self.weight] }),
    {
        proof {
            assert forall|g: Graph| #[trigger] crate::nn::module::shapes_hold(g, self.tensor_shapes()) implies self.wf_in(g) by {
                self.lemma_wf_in_shapes(g);
            }
        }
        let mut params: Vec<Tensor> = Vec::new();
        params.push(self.weight);
        match self.bias {
            Some(b) => {
                params.push(b);
            },
            None => {},
        }
        assert(params@ =~= (match self.bias { Some(b) => seq![self.weight, b], None => seq![self.weight] }));
        params
    }

    /// Nothing switches between training and evaluation.
    fn train(&mut self) {
    }

    /// Nothing switches between training and evaluation.
    fn eval(&mut self) {
    }
}

} // verus!
