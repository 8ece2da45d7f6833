//! Residual networks: basic and bottleneck residual blocks with batch normalization, and the
//! ResNet-18/34/50 architectures with ImageNet or CIFAR stems.

use vstd::prelude::*;
use crate::autograd::node::{Graph, Op};
use crate::autograd::tensor::{Tensor, conv_spec, conv_window_ok, pool_ok, pool_spec};
use crate::error::EngineError;
use crate::nn::conv::{Conv2d, conv_weight};
use crate::nn::linear::{Linear, linear_out};
use crate::nn::module::{
    Module, tensors_of, lemma_tensors_valid, buffers_hold, lemma_buffers_hold_concat, lemma_buffers_hold_extend, lemma_seq_buffers_hold, lemma_seq_shapes_hold,
    lemma_shapes_hold_concat, lemma_shapes_hold_extend, seq_buffers, seq_shapes, shapes_hold,
};
use crate::nn::norm::BatchNorm2d;
use crate::nn::pooling::MaxPool2d;
use crate::shape::{broadcast_spec, broadcastable, squeeze_spec};

verus! {

/// Shape after a convolution followed by batch normalization, for input of shape `x`; `None`
/// where either refuses.
pub open spec fn conv_bn_out(c: Conv2d, b: BatchNorm2d, x: Seq<usize>) -> Option<Seq<usize>> {
    if x.len() == 4 && x[1] == c.in_channels && conv_window_ok(x, conv_weight(c), c.params) {
        let y = conv_spec(x, conv_weight(c), c.params);
        if y[1] == b.num_features {
            Some(y)
        } else {
            None
        }
    } else {
        None
    }
}

/// Applying `f` after `prev`, propagating refusal.
pub open spec fn then_conv_bn(prev: Option<Seq<usize>>, c: Conv2d, b: BatchNorm2d) -> Option<Seq<usize>> {
    match prev {
        Some(x) => conv_bn_out(c, b, x),
        None => None,
    }
}

/// A batch normalization layer whose tensors and buffers live in `g`, after more recording.
proof fn lemma_bn_extend(b: BatchNorm2d, g1: Graph, g2: Graph)
    requires
        b.wf_in(g1),
        g1.extended_by(g2),
    ensures
        b.wf_in(g2),
{
    lemma_shapes_hold_extend(g1, g2, b.shapes());
    lemma_buffers_hold_extend(g1, g2, b.buffers());
}

/// A convolution layer whose tensors live in `g`, after more recording.
proof fn lemma_conv_extend(c: Conv2d, g1: Graph, g2: Graph)
    requires
        c.wf_in(g1),
        g1.extended_by(g2),
    ensures
        c.wf_in(g2),
{
    c.lemma_wf_in_shapes(g1);
    lemma_shapes_hold_extend(g1, g2, c.shapes());
    c.lemma_wf_in_shapes(g2);
}

/// Convolution, batch normalization and, when `relu`, a ReLU.
fn conv_bn(g: &mut Graph, c: &Conv2d, b: &BatchNorm2d, x: &Tensor, relu: bool) -> (r: Result<Tensor, EngineError>)
    requires
        old(g).wf(),
        c.wf_in(*old(g)),
        b.wf_in(*old(g)),
        x.valid(*old(g)),
    ensures
        final(g).wf(),
        old(g).extended_by(*final(g)),
        final(g).buffers@.len() == old(g).buffers@.len(),
        !b.is_training ==> final(g).buffers == old(g).buffers,
        r is Ok <==> conv_bn_out(*c, *b, x.shape_of(*old(g))) is Some,
        r matches Ok(t) ==> t.valid(*final(g)) && conv_bn_out(*c, *b, x.shape_of(*old(g))) == Some(t.shape_of(*final(g))),
{
    let ghost g0 = *g;
    let y = match c.bias {
        Some(bias) => x.conv2d(g, &c.weight, Some(&bias), c.params),
        None => x.conv2d(g, &c.weight, None, c.params),
    };
    let y = match y {
        Ok(t) => t,
        Err(e) => {
            return Err(e);
        },
    };
    let ghost g1 = *g;
    proof {
        lemma_bn_extend(*b, g0, g1);
    }
    let z = match b.forward_batch_norm(g, &y) {
        Ok(t) => t,
        Err(e) => {
            return Err(e);
        },
    };
    let ghost g2 = *g;
    proof {
        g0.lemma_extended_trans(g1, g2);
    }
    if relu {
        let out = z.relu(g);
        proof {
            g0.lemma_extended_trans(g2, *g);
        }
        out
    } else {
        Ok(z)
    }
}

/// Parameters of a convolution with stride `s`, padding `p` and dilation 1 on both axes.
pub open spec fn conv_params(s: usize, p: usize) -> crate::autograd::node::Conv2dParams {
    crate::autograd::node::Conv2dParams { stride: (s, s), padding: (p, p), dilation: (1, 1) }
}

/// `c` is a square `k x k` convolution from `i` to `o` channels with stride `s` and padding `p`.
pub open spec fn conv_is(c: Conv2d, i: usize, o: usize, k: usize, s: usize, p: usize) -> bool {
    &&& c.in_channels == i
    &&& c.out_channels == o
    &&& c.kernel_size == (k, k)
    &&& c.params == conv_params(s, p)
}

/// Spatial size after a residual block of stride `s`: `(n - 1) / s + 1`.
pub open spec fn strided(n: usize, s: usize) -> usize {
    ((n - 1) / (s as int) + 1) as usize
}

/// Shape after a residual block of stride `s` with `o` output channels for `[b, c, h, w]`.
pub open spec fn strided_shape(x: Seq<usize>, o: usize, s: usize) -> Seq<usize> {
    seq![x[0], o, strided(x[2], s), strided(x[3], s)]
}

/// Basic residual block: two 3x3 convolutions with batch normalization, added to the input
/// (through a 1x1 convolution and batch normalization when the shape changes), then ReLU.
#[derive(Clone, Copy)]
pub struct ResidualBlock {
    pub conv1: Conv2d,
    pub bn1: BatchNorm2d,
    pub conv2: Conv2d,
    pub bn2: BatchNorm2d,
    pub downsample: Option<(Conv2d, BatchNorm2d)>,
    pub in_channels: usize,
    pub out_channels: usize,
    pub stride: usize,
}

impl ResidualBlock {
    /// Every part lives in `g` with its expected shapes and buffers.
    pub open spec fn wf_in(&self, g: Graph) -> bool {
        &&& self.conv1.wf_in(g)
        &&& self.bn1.wf_in(g)
        &&& self.conv2.wf_in(g)
        &&& self.bn2.wf_in(g)
        &&& self.downsample matches Some((c, b)) ==> c.wf_in(g) && b.wf_in(g)
    }

    /// The block's tensors with their expected shapes, in the order of its parameters.
    pub open spec fn shapes(&self) -> Seq<(Tensor, Seq<usize>)> {
        self.conv1.shapes() + self.bn1.shapes() + self.conv2.shapes() + self.bn2.shapes() + projection_shapes(self.downsample)
    }

    /// Some batch normalization of the block is in training mode.
    pub open spec fn training(&self) -> bool {
        self.bn1.is_training || self.bn2.is_training || (self.downsample matches Some((_, b)) && b.is_training)
    }

    /// Shape after the two convolutions.
    pub open spec fn main_out(&self, x: Seq<usize>) -> Option<Seq<usize>> {
        then_conv_bn(conv_bn_out(self.conv1, self.bn1, x), self.conv2, self.bn2)
    }

    /// Shape of the shortcut.
    pub open spec fn shortcut_out(&self, x: Seq<usize>) -> Option<Seq<usize>> {
        match self.downsample {
            Some((c, b)) => conv_bn_out(c, b, x),
            None => Some(x),
        }
    }

    /// Shape of the block's output for input of shape `x`; `None` where it refuses.
    pub open spec fn block_out(&self, x: Seq<usize>) -> Option<Seq<usize>> {
        match (self.main_out(x), self.shortcut_out(x)) {
            (Some(m), Some(sc)) => if broadcastable(m, sc) {
                Some(broadcast_spec(m, sc))
            } else {
                None
            },
            _ => None,
        }
    }

    /// The block as `new` builds it.
    pub open spec fn consistent(&self) -> bool {
        let (i, o, s) = (self.in_channels, self.out_channels, self.stride);
        &&& conv_is(self.conv1, i, o, 3, s, 1)
        &&& self.bn1.num_features == o
        &&& conv_is(self.conv2, o, o, 3, 1, 1)
        &&& self.bn2.num_features == o
        &&& match self.downsample {
            Some((c, b)) => conv_is(c, i, o, 1, s, 0) && b.num_features == o,
            None => s == 1 && i == o,
        }
    }

    /// A block from `in_channels` to `out_channels` whose first convolution has stride
    /// `stride`; the shortcut is projected when the stride is not 1 or the channels differ.
    pub fn new(g: &mut Graph, in_channels: usize, out_channels: usize, stride: usize) -> (r: ResidualBlock)
        requires
            old(g).wf(),
            in_channels * 9 <= usize::MAX,
            out_channels * 9 <= usize::MAX,
        ensures
            final(g).wf(),
            old(g).extended_by(*final(g)),
            r.wf_in(*final(g)),
            r.consistent(),
            r.training(),
            r.in_channels == in_channels,
            r.out_channels == out_channels,
            r.stride == stride,
            r.downsample is Some <==> (stride != 1 || in_channels != out_channels),
    {
        let ghost g0 = *g;
        assert(in_channels * 3 * 3 == in_channels * 9) by (nonlinear_arith);
        assert(out_channels * 3 * 3 == out_channels * 9) by (nonlinear_arith);
        assert(in_channels * 1 * 1 == in_channels) by (nonlinear_arith);
        let conv1 = Conv2d::with_options(g, in_channels, out_channels, (3, 3), (stride, stride), (1, 1), (1, 1), false);
        let ghost g1 = *g;
        let bn1 = BatchNorm2d::new(g, out_channels);
        let ghost g2 = *g;
        let conv2 = Conv2d::with_options(g, out_channels, out_channels, (3, 3), (1, 1), (1, 1), (1, 1), false);
        let ghost g3 = *g;
        let bn2 = BatchNorm2d::new(g, out_channels);
        let ghost g4 = *g;
        let downsample = if stride != 1 || in_channels != out_channels {
            let ds_conv = Conv2d::with_options(g, in_channels, out_channels, (1, 1), (stride, stride), (0, 0), (1, 1), false);
            let ghost g5 = *g;
            let ds_bn = BatchNorm2d::new(g, out_channels);
            proof {
                lemma_conv_extend(ds_conv, g5, *g);
            }
            Some((ds_conv, ds_bn))
        } else {
            None
        };
        proof {
            g0.lemma_extended_trans(g1, g2);
            g0.lemma_extended_trans(g2, g3);
            g0.lemma_extended_trans(g3, g4);
            g0.lemma_extended_trans(g4, *g);
            g1.lemma_extended_trans(g2, *g);
            g2.lemma_extended_trans(g3, *g);
            g3.lemma_extended_trans(g4, *g);
            lemma_conv_extend(conv1, g1, *g);
            lemma_bn_extend(bn1, g2, *g);
            lemma_conv_extend(conv2, g3, *g);
            lemma_bn_extend(bn2, g4, *g);
        }
        ResidualBlock { conv1, bn1, conv2, bn2, downsample, in_channels, out_channels, stride }
    }

    /// Applies the block. Succeeds exactly when the block accepts the input's shape; the
    /// buffers keep their number, and are left as they are when no batch normalization trains.
    pub fn forward(&self, g: &mut Graph, x: &Tensor) -> (r: Result<Tensor, EngineError>)
        requires
            old(g).wf(),
            self.wf_in(*old(g)),
            x.valid(*old(g)),
        ensures
            final(g).wf(),
            old(g).extended_by(*final(g)),
            final(g).buffers@.len() == old(g).buffers@.len(),
            !self.training() ==> final(g).buffers == old(g).buffers,
            r is Ok <==> self.block_out(x.shape_of(*old(g))) is Some,
            r matches Ok(t) ==> t.valid(*final(g)) && self.block_out(x.shape_of(*old(g))) == Some(t.shape_of(*final(g))),
            r matches Ok(t) ==> residual_sum(*final(g), t.id as int, x.id as int, self.downsample is None),
    {
        let ghost g0 = *g;
        let a = match conv_bn(g, &self.conv1, &self.bn1, x, true) {
            Ok(t) => t,
            Err(e) => {
                return Err(e);
            },
        };
        let ghost g1 = *g;
        proof {
            lemma_conv_extend(self.conv2, g0, g1);
            lemma_bn_extend(self.bn2, g0, g1);
        }
        let m = match conv_bn(g, &self.conv2, &self.bn2, &a, false) {
            Ok(t) => t,
            Err(e) => {
                proof {
                    g0.lemma_extended_trans(g1, *g);
                }
                return Err(e);
            },
        };
        let ghost g2 = *g;
        proof {
            g0.lemma_extended_trans(g1, g2);
        }
        let shortcut = match self.downsample {
            Some((c, b)) => {
                proof {
                    lemma_conv_extend(c, g0, g2);
                    lemma_bn_extend(b, g0, g2);
                }
                assert(g2.nodes@[x.id as int] == g0.nodes@[x.id as int]);
                match conv_bn(g, &c, &b, x, false) {
                    Ok(t) => t,
                    Err(e) => {
                        proof {
                            g0.lemma_extended_trans(g2, *g);
                        }
                        return Err(e);
                    },
                }
            },
            None => *x,
        };
        let ghost g3 = *g;
        proof {
            g0.lemma_extended_trans(g2, g3);
            assert(g3.nodes@[m.id as int] == g2.nodes@[m.id as int]);
            assert(g3.nodes@[x.id as int] == g0.nodes@[x.id as int]);
        }
        let sum = match m.add(g, &shortcut) {
            Ok(t) => t,
            Err(e) => {
                return Err(e);
            },
        };
        let ghost g4 = *g;
        let out = sum.relu(g);
        proof {
            g0.lemma_extended_trans(g3, g4);
            g0.lemma_extended_trans(g4, *g);
            assert(g.nodes@[sum.id as int] == g4.nodes@[sum.id as int]);
        }
        out
    }
}

/// Node `o` of `g` closes a residual block: the ReLU of the sum of the main path and the
/// shortcut, the shortcut being the block's input `x` itself when `identity`.
pub open spec fn residual_sum(g: Graph, o: int, x: int, identity: bool) -> bool {
    let s = g.nodes@[o].inputs@[0] as int;
    &&& g.nodes@[o].op == Op::Relu && g.nodes@[o].inputs@.len() == 1
    &&& g.nodes@[s].op == Op::Add && g.nodes@[s].inputs@.len() == 2
    &&& identity ==> g.nodes@[s].inputs@[1] == x
}

/// A residual block as `new` builds it maps `[b, in, h, w]` (with `h, w >= 1`, stride at
/// least 1, and room for the padding) to `[b, out, (h - 1) / stride + 1, (w - 1) / stride + 1]`.
pub proof fn lemma_residual_block_shape(blk: ResidualBlock, x: Seq<usize>)
    requires
        blk.consistent(),
        blk.stride >= 1,
        x.len() == 4,
        x[1] == blk.in_channels,
        x[2] >= 1 && x[3] >= 1,
        x[2] + 2 <= usize::MAX && x[3] + 2 <= usize::MAX,
    ensures
        blk.block_out(x) == Some(strided_shape(x, blk.out_channels, blk.stride)),
{
    let s = blk.stride;
    let h1 = strided(x[2], s);
    let w1 = strided(x[3], s);
    assert(0 <= (x[2] - 1) / (s as int) <= x[2] - 1) by (nonlinear_arith)
        requires
            s >= 1,
            x[2] >= 1,
    ;
    assert(0 <= (x[3] - 1) / (s as int) <= x[3] - 1) by (nonlinear_arith)
        requires
            s >= 1,
            x[3] >= 1,
    ;
    let a = seq![x[0], blk.out_channels, h1, w1];
    assert(conv_bn_out(blk.conv1, blk.bn1, x) == Some(a));
    assert(conv_bn_out(blk.conv2, blk.bn2, a) == Some(a));
    assert(blk.main_out(x) == Some(a));
    match blk.downsample {
        Some((c, b)) => {
            assert(crate::shape::conv_dim_spec(x[2] as int, 1, s as int, 0, 1) == h1);
            assert(crate::shape::conv_dim_spec(x[3] as int, 1, s as int, 0, 1) == w1);
            assert(conv_window_ok(x, conv_weight(c), c.params));
            assert(conv_spec(x, conv_weight(c), c.params) =~= a);
            assert(conv_bn_out(c, b, x) == Some(a));
        },
        None => {
            assert(a =~= x);
        },
    }
    crate::shape::lemma_broadcast_self(a);
    assert(strided_shape(x, blk.out_channels, s) == a);
}

/// `b` switched to training (`t`) or evaluation mode.
pub open spec fn bn_in_mode(b: BatchNorm2d, t: bool) -> BatchNorm2d {
    BatchNorm2d {
        num_features: b.num_features,
        weight: b.weight,
        bias: b.bias,
        running_mean: b.running_mean,
        running_var: b.running_var,
        eps_bits: b.eps_bits,
        momentum_bits: b.momentum_bits,
        is_training: t,
    }
}

/// Switches a batch normalization layer's mode.
fn set_bn_mode(b: &mut BatchNorm2d, t: bool)
    ensures
        *final(b) == bn_in_mode(*old(b), t),
{
    if t {
        b.train();
    } else {
        b.eval();
    }
}

/// The learnable tensors of a convolution and a batch normalization, appended to `params`.
fn push_conv_bn(params: &mut Vec<Tensor>, c: &Conv2d, b: &BatchNorm2d)
    ensures
        final(params)@ == old(params)@ + tensors_of(c.shapes() + b.shapes()),
        final(params)@.len() >= old(params)@.len(),
        forall|k: int| 0 <= k < old(params)@.len() ==> #[trigger] final(params)@[k] == old(params)@[k],
        forall|g: Graph| c.wf_in(g) && #[trigger] b.wf_in(g) ==> forall|k: int| old(params)@.len() <= k < final(params)@.len() ==> (#[trigger] final(params)@[k]).valid(g),
{
    let ghost before = params@;
    let mut p = c.parameters();
    params.append(&mut p);
    params.push(b.weight);
    params.push(b.bias);
    proof {
        assert(params@ =~= before + tensors_of(c.shapes() + b.shapes()));
        assert forall|g: Graph| c.wf_in(g) && #[trigger] b.wf_in(g) implies forall|k: int| before.len() <= k < params@.len() ==> (#[trigger] params@[k]).valid(g) by {
            c.lemma_wf_in_shapes(g);
            assert(b.shapes()[0].0 == b.weight && b.shapes()[1].0 == b.bias);
            assert forall|k: int| before.len() <= k < params@.len() implies (#[trigger] params@[k]).valid(g) by {
                if c.bias is Some {
                    assert(c.shapes()[1].0 == c.bias->Some_0);
                }
                assert(c.shapes()[0].0 == c.weight);
            }
        }
    }
}

impl ResidualBlock {
    /// The block with every batch normalization switched to training (`t`) or evaluation mode.
    pub open spec fn in_mode(&self, t: bool) -> ResidualBlock {
        ResidualBlock {
            conv1: self.conv1,
            bn1: bn_in_mode(self.bn1, t),
            conv2: self.conv2,
            bn2: bn_in_mode(self.bn2, t),
            downsample: match self.downsample {
                Some((c, b)) => Some((c, bn_in_mode(b, t))),
                None => None,
            },
            in_channels: self.in_channels,
            out_channels: self.out_channels,
            stride: self.stride,
        }
    }

    fn set_mode(&mut self, t: bool)
        ensures
            *final(self) == old(self).in_mode(t),
    {
        set_bn_mode(&mut self.bn1, t);
        set_bn_mode(&mut self.bn2, t);
        if let Some((c, b)) = self.downsample {
            let mut b2 = b;
            set_bn_mode(&mut b2, t);
            self.downsample = Some((c, b2));
        }
    }

    /// Switches every batch normalization to training mode.
    pub fn train(&mut self)
        ensures
            *final(self) == old(self).in_mode(true),
    {
        self.set_mode(true);
    }

    /// Switches every batch normalization to evaluation mode.
    pub fn eval(&mut self)
        ensures
            *final(self) == old(self).in_mode(false),
    {
        self.set_mode(false);
    }

    /// The learnable tensors: both convolutions and normalizations, then the projection's.
    pub fn parameters(&self) -> (r: Vec<Tensor>)
        ensures
            r@ == tensors_of(self.shapes()),
            forall|g: Graph| #[trigger] self.wf_in(g) ==> forall|k: int| 0 <= k < r@.len() ==> (#[trigger] r@[k]).valid(g),
    {
        let mut params: Vec<Tensor> = Vec::new();
        push_conv_bn(&mut params, &self.conv1, &self.bn1);
        let ghost p1 = params@;
        push_conv_bn(&mut params, &self.conv2, &self.bn2);
        let ghost p2 = params@;
        if let Some((c, b)) = self.downsample {
            push_conv_bn(&mut params, &c, &b);
        }
        proof {
            let (c1, n1, c2, n2, d) = (self.conv1.shapes(), self.bn1.shapes(), self.conv2.shapes(), self.bn2.shapes(), projection_shapes(self.downsample));
            crate::nn::module::lemma_tensors_of_concat(c1, n1);
            crate::nn::module::lemma_tensors_of_concat(c2, n2);
            crate::nn::module::lemma_tensors_of_concat(c1 + n1, c2);
            crate::nn::module::lemma_tensors_of_concat(c1 + n1 + c2, n2);
            crate::nn::module::lemma_tensors_of_concat(c1 + n1 + c2 + n2, d);
            if self.downsample is None {
                assert(tensors_of(d) =~= Seq::<Tensor>::empty());
            }
            assert(params@ =~= tensors_of(self.shapes()));
        }
        proof {
            assert forall|g: Graph| #[trigger] self.wf_in(g) implies forall|k: int| 0 <= k < params@.len() ==> (#[trigger] params@[k]).valid(g) by {
                assert forall|k: int| 0 <= k < params@.len() implies (#[trigger] params@[k]).valid(g) by {
                    if k < p1.len() {
                        assert(params@[k] == p2[k]);
                        assert(p2[k] == p1[k]);
                        assert(self.bn1.wf_in(g));
                    } else if k < p2.len() {
                        assert(params@[k] == p2[k]);
                        assert(self.bn2.wf_in(g));
                    } else {
                        assert(self.downsample is Some);
                        assert(self.downsample->Some_0.1.wf_in(g));
                    }
                }
            }
        }
        params
    }
}

/// Channel expansion of a bottleneck block.
pub const EXPANSION: usize = 4;

/// Bottleneck residual block: 1x1 reduction, 3x3 convolution and 1x1 expansion (by 4), each
/// with batch normalization, added to the input (through a projection when the shape changes),
/// then ReLU.
#[derive(Clone, Copy)]
pub struct BottleneckBlock {
    pub conv1: Conv2d,
    pub bn1: BatchNorm2d,
    pub conv2: Conv2d,
    pub bn2: BatchNorm2d,
    pub conv3: Conv2d,
    pub bn3: BatchNorm2d,
    pub downsample: Option<(Conv2d, BatchNorm2d)>,
    pub in_channels: usize,
    pub out_channels: usize,
    pub expansion: usize,
    pub stride: usize,
}

impl BottleneckBlock {
    /// Every part lives in `g` with its expected shapes and buffers.
    pub open spec fn wf_in(&self, g: Graph) -> bool {
        &&& self.conv1.wf_in(g)
        &&& self.bn1.wf_in(g)
        &&& self.conv2.wf_in(g)
        &&& self.bn2.wf_in(g)
        &&& self.conv3.wf_in(g)
        &&& self.bn3.wf_in(g)
        &&& self.downsample matches Some((c, b)) ==> c.wf_in(g) && b.wf_in(g)
    }

    /// The block's tensors with their expected shapes, in the order of its parameters.
    pub open spec fn shapes(&self) -> Seq<(Tensor, Seq<usize>)> {
        self.conv1.shapes() + self.bn1.shapes() + self.conv2.shapes() + self.bn2.shapes()
            + self.conv3.shapes() + self.bn3.shapes() + projection_shapes(self.downsample)
    }

    /// Some batch normalization of the block is in training mode.
    pub open spec fn training(&self) -> bool {
        self.bn1.is_training || self.bn2.is_training || self.bn3.is_training
            || (self.downsample matches Some((_, b)) && b.is_training)
    }

    /// Shape after the three convolutions.
    pub open spec fn main_out(&self, x: Seq<usize>) -> Option<Seq<usize>> {
        then_conv_bn(then_conv_bn(conv_bn_out(self.conv1, self.bn1, x), self.conv2, self.bn2), self.conv3, self.bn3)
    }

    /// Shape of the shortcut.
    pub open spec fn shortcut_out(&self, x: Seq<usize>) -> Option<Seq<usize>> {
        match self.downsample {
            Some((c, b)) => conv_bn_out(c, b, x),
            None => Some(x),
        }
    }

    /// Shape of the block's output for input of shape `x`; `None` where it refuses.
    pub open spec fn block_out(&self, x: Seq<usize>) -> Option<Seq<usize>> {
        match (self.main_out(x), self.shortcut_out(x)) {
            (Some(m), Some(sc)) => if broadcastable(m, sc) {
                Some(broadcast_spec(m, sc))
            } else {
                None
            },
            _ => None,
        }
    }

    /// The block as `new` builds it.
    pub open spec fn consistent(&self) -> bool {
        let (i, o, s) = (self.in_channels, self.out_channels, self.stride);
        let e = (o * EXPANSION) as usize;
        &&& self.expansion == EXPANSION
        &&& o * EXPANSION <= usize::MAX
        &&& conv_is(self.conv1, i, o, 1, 1, 0)
        &&& self.bn1.num_features == o
        &&& conv_is(self.conv2, o, o, 3, s, 1)
        &&& self.bn2.num_features == o
        &&& conv_is(self.conv3, o, e, 1, 1, 0)
        &&& self.bn3.num_features == e
        &&& match self.downsample {
            Some((c, b)) => conv_is(c, i, e, 1, s, 0) && b.num_features == e,
            None => s == 1 && i == e,
        }
    }

    /// A block from `in_channels` through `out_channels` to `4 * out_channels`, whose 3x3
    /// convolution has stride `stride`; the shortcut is projected when the stride is not 1 or
    /// the channels differ.
    pub fn new(g: &mut Graph, in_channels: usize, out_channels: usize, stride: usize) -> (r: BottleneckBlock)
        requires
            old(g).wf(),
            out_channels * 9 <= usize::MAX,
        ensures
            final(g).wf(),
            old(g).extended_by(*final(g)),
            r.wf_in(*final(g)),
            r.consistent(),
            r.training(),
            r.in_channels == in_channels,
            r.out_channels == out_channels,
            r.stride == stride,
            r.downsample is Some <==> (stride != 1 || in_channels != out_channels * EXPANSION),
    {
        let ghost g0 = *g;
        assert(out_channels * 3 * 3 == out_channels * 9) by (nonlinear_arith);
        assert(in_channels * 1 * 1 == in_channels) by (nonlinear_arith);
        assert(out_channels * 1 * 1 == out_channels) by (nonlinear_arith);
        let expanded = out_channels * EXPANSION;
        let conv1 = Conv2d::with_options(g, in_channels, out_channels, (1, 1), (1, 1), (0, 0), (1, 1), false);
        let ghost g1 = *g;
        let bn1 = BatchNorm2d::new(g, out_channels);
        let ghost g2 = *g;
        let conv2 = Conv2d::with_options(g, out_channels, out_channels, (3, 3), (stride, stride), (1, 1), (1, 1), false);
        let ghost g3 = *g;
        let bn2 = BatchNorm2d::new(g, out_channels);
        let ghost g4 = *g;
        let conv3 = Conv2d::with_options(g, out_channels, expanded, (1, 1), (1, 1), (0, 0), (1, 1), false);
        let ghost g5 = *g;
        let bn3 = BatchNorm2d::new(g, expanded);
        let ghost g6 = *g;
        let downsample = if stride != 1 || in_channels != expanded {
            let ds_conv = Conv2d::with_options(g, in_channels, expanded, (1, 1), (stride, stride), (0, 0), (1, 1), false);
            let ghost g7 = *g;
            let ds_bn = BatchNorm2d::new(g, expanded);
            proof {
                lemma_conv_extend(ds_conv, g7, *g);
            }
            Some((ds_conv, ds_bn))
        } else {
            None
        };
        proof {
            g0.lemma_extended_trans(g1, g2);
            g0.lemma_extended_trans(g2, g3);
            g0.lemma_extended_trans(g3, g4);
            g0.lemma_extended_trans(g4, g5);
            g0.lemma_extended_trans(g5, g6);
            g0.lemma_extended_trans(g6, *g);
            g1.lemma_extended_trans(g2, *g);
            g2.lemma_extended_trans(g3, *g);
            g3.lemma_extended_trans(g4, *g);
            g4.lemma_extended_trans(g5, *g);
            g5.lemma_extended_trans(g6, *g);
            lemma_conv_extend(conv1, g1, *g);
            lemma_bn_extend(bn1, g2, *g);
            lemma_conv_extend(conv2, g3, *g);
            lemma_bn_extend(bn2, g4, *g);
            lemma_conv_extend(conv3, g5, *g);
            lemma_bn_extend(bn3, g6, *g);
        }
        BottleneckBlock { conv1, bn1, conv2, bn2, conv3, bn3, downsample, in_channels, out_channels, expansion: EXPANSION, stride }
    }

    /// Applies the block. Succeeds exactly when the block accepts the input's shape; the
    /// buffers keep their number, and are left as they are when no batch normalization trains.
    pub fn forward(&self, g: &mut Graph, x: &Tensor) -> (r: Result<Tensor, EngineError>)
        requires
            old(g).wf(),
            self.wf_in(*old(g)),
            x.valid(*old(g)),
        ensures
            final(g).wf(),
            old(g).extended_by(*final(g)),
            final(g).buffers@.len() == old(g).buffers@.len(),
            !self.training() ==> final(g).buffers == old(g).buffers,
            r is Ok <==> self.block_out(x.shape_of(*old(g))) is Some,
            r matches Ok(t) ==> t.valid(*final(g)) && self.block_out(x.shape_of(*old(g))) == Some(t.shape_of(*final(g))),
            r matches Ok(t) ==> residual_sum(*final(g), t.id as int, x.id as int, self.downsample is None),
    {
        let ghost g0 = *g;
        let a = match conv_bn(g, &self.conv1, &self.bn1, x, true) {
            Ok(t) => t,
            Err(e) => {
                return Err(e);
            },
        };
        let ghost g1 = *g;
        proof {
            lemma_conv_extend(self.conv2, g0, g1);
            lemma_bn_extend(self.bn2, g0, g1);
        }
        let b2 = match conv_bn(g, &self.conv2, &self.bn2, &a, true) {
            Ok(t) => t,
            Err(e) => {
                proof {
                    g0.lemma_extended_trans(g1, *g);
                }
                return Err(e);
            },
        };
        let ghost g2 = *g;
        proof {
            g0.lemma_extended_trans(g1, g2);
            lemma_conv_extend(self.conv3, g0, g2);
            lemma_bn_extend(self.bn3, g0, g2);
        }
        let m = match conv_bn(g, &self.conv3, &self.bn3, &b2, false) {
            Ok(t) => t,
            Err(e) => {
                proof {
                    g0.lemma_extended_trans(g2, *g);
                }
                return Err(e);
            },
        };
        let ghost g3 = *g;
        proof {
            g0.lemma_extended_trans(g2, g3);
        }
        let shortcut = match self.downsample {
            Some((c, b)) => {
                proof {
                    lemma_conv_extend(c, g0, g3);
                    lemma_bn_extend(b, g0, g3);
                }
                assert(g3.nodes@[x.id as int] == g0.nodes@[x.id as int]);
                match conv_bn(g, &c, &b, x, false) {
                    Ok(t) => t,
                    Err(e) => {
                        proof {
                            g0.lemma_extended_trans(g3, *g);
                        }
                        return Err(e);
                    },
                }
            },
            None => *x,
        };
        let ghost g4 = *g;
        proof {
            g0.lemma_extended_trans(g3, g4);
            assert(g4.nodes@[m.id as int] == g3.nodes@[m.id as int]);
            assert(g4.nodes@[x.id as int] == g0.nodes@[x.id as int]);
        }
        let sum = match m.add(g, &shortcut) {
            Ok(t) => t,
            Err(e) => {
                return Err(e);
            },
        };
        let ghost g5 = *g;
        let out = sum.relu(g);
        proof {
            g0.lemma_extended_trans(g4, g5);
            g0.lemma_extended_trans(g5, *g);
        }
        out
    }

    /// The block with every batch normalization switched to training (`t`) or evaluation mode.
    pub open spec fn in_mode(&self, t: bool) -> BottleneckBlock {
        BottleneckBlock {
            conv1: self.conv1,
            bn1: bn_in_mode(self.bn1, t),
            conv2: self.conv2,
            bn2: bn_in_mode(self.bn2, t),
            conv3: self.conv3,
            bn3: bn_in_mode(self.bn3, t),
            downsample: match self.downsample {
                Some((c, b)) => Some((c, bn_in_mode(b, t))),
                None => None,
            },
            in_channels: self.in_channels,
            out_channels: self.out_channels,
            expansion: self.expansion,
            stride: self.stride,
        }
    }

    fn set_mode(&mut self, t: bool)
        ensures
            *final(self) == old(self).in_mode(t),
    {
        set_bn_mode(&mut self.bn1, t);
        set_bn_mode(&mut self.bn2, t);
        set_bn_mode(&mut self.bn3, t);
        if let Some((c, b)) = self.downsample {
            let mut b2 = b;
            set_bn_mode(&mut b2, t);
            self.downsample = Some((c, b2));
        }
    }

    /// Switches every batch normalization to training mode.
    pub fn train(&mut self)
        ensures
            *final(self) == old(self).in_mode(true),
    {
        self.set_mode(true);
    }

    /// Switches every batch normalization to evaluation mode.
    pub fn eval(&mut self)
        ensures
            *final(self) == old(self).in_mode(false),
    {
        self.set_mode(false);
    }

    /// The learnable tensors: the three convolutions and normalizations, then the projection's.
    pub fn parameters(&self) -> (r: Vec<Tensor>)
        ensures
            r@ == tensors_of(self.shapes()),
            forall|g: Graph| #[trigger] self.wf_in(g) ==> forall|k: int| 0 <= k < r@.len() ==> (#[trigger] r@[k]).valid(g),
    {
        let mut params: Vec<Tensor> = Vec::new();
        push_conv_bn(&mut params, &self.conv1, &self.bn1);
        let ghost p1 = params@;
        push_conv_bn(&mut params, &self.conv2, &self.bn2);
        let ghost p2 = params@;
        push_conv_bn(&mut params, &self.conv3, &self.bn3);
        let ghost p3 = params@;
        if let Some((c, b)) = self.downsample {
            push_conv_bn(&mut params, &c, &b);
        }
        proof {
            let (c1, n1, c2, n2) = (self.conv1.shapes(), self.bn1.shapes(), self.conv2.shapes(), self.bn2.shapes());
            let (c3, n3, d) = (self.conv3.shapes(), self.bn3.shapes(), projection_shapes(self.downsample));
            crate::nn::module::lemma_tensors_of_concat(c1, n1);
            crate::nn::module::lemma_tensors_of_concat(c2, n2);
            crate::nn::module::lemma_tensors_of_concat(c3, n3);
            crate::nn::module::lemma_tensors_of_concat(c1 + n1, c2);
            crate::nn::module::lemma_tensors_of_concat(c1 + n1 + c2, n2);
            crate::nn::module::lemma_tensors_of_concat(c1 + n1 + c2 + n2, c3);
            crate::nn::module::lemma_tensors_of_concat(c1 + n1 + c2 + n2 + c3, n3);
            crate::nn::module::lemma_tensors_of_concat(c1 + n1 + c2 + n2 + c3 + n3, d);
            if self.downsample is None {
                assert(tensors_of(d) =~= Seq::<Tensor>::empty());
            }
            assert(params@ =~= tensors_of(self.shapes()));
        }
        proof {
            assert forall|g: Graph| #[trigger] self.wf_in(g) implies forall|k: int| 0 <= k < params@.len() ==> (#[trigger] params@[k]).valid(g) by {
                assert forall|k: int| 0 <= k < params@.len() implies (#[trigger] params@[k]).valid(g) by {
                    if k < p1.len() {
                        assert(params@[k] == p3[k] && p3[k] == p2[k] && p2[k] == p1[k]);
                        assert(self.bn1.wf_in(g));
                    } else if k < p2.len() {
                        assert(params@[k] == p3[k] && p3[k] == p2[k]);
                        assert(self.bn2.wf_in(g));
                    } else if k < p3.len() {
                        assert(params@[k] == p3[k]);
                        assert(self.bn3.wf_in(g));
                    } else {
                        assert(self.downsample is Some);
                        assert(self.downsample->Some_0.1.wf_in(g));
                    }
                }
            }
        }
        params
    }
}

/// A bottleneck block as `new` builds it maps `[b, in, h, w]` (with `h, w >= 1`, stride at
/// least 1, and room for the padding) to `[b, 4 * out, (h - 1) / stride + 1, (w - 1) / stride + 1]`.
pub proof fn lemma_bottleneck_block_shape(blk: BottleneckBlock, x: Seq<usize>)
    requires
        blk.consistent(),
        blk.stride >= 1,
        x.len() == 4,
        x[1] == blk.in_channels,
        x[2] >= 1 && x[3] >= 1,
        x[2] + 2 <= usize::MAX && x[3] + 2 <= usize::MAX,
    ensures
        blk.block_out(x) == Some(strided_shape(x, (blk.out_channels * EXPANSION) as usize, blk.stride)),
{
    let s = blk.stride;
    let o = blk.out_channels;
    let e = (o * EXPANSION) as usize;
    let h1 = strided(x[2], s);
    let w1 = strided(x[3], s);
    assert(0 <= (x[2] - 1) / (s as int) <= x[2] - 1) by (nonlinear_arith)
        requires
            s >= 1,
            x[2] >= 1,
    ;
    assert(0 <= (x[3] - 1) / (s as int) <= x[3] - 1) by (nonlinear_arith)
        requires
            s >= 1,
            x[3] >= 1,
    ;
    let a1 = seq![x[0], o, x[2], x[3]];
    assert(crate::shape::conv_dim_spec(x[2] as int, 1, 1, 0, 1) == x[2]);
    assert(crate::shape::conv_dim_spec(x[3] as int, 1, 1, 0, 1) == x[3]);
    assert(conv_spec(x, conv_weight(blk.conv1), blk.conv1.params) =~= a1);
    assert(conv_bn_out(blk.conv1, blk.bn1, x) == Some(a1));
    let a2 = seq![x[0], o, h1, w1];
    assert(conv_spec(a1, conv_weight(blk.conv2), blk.conv2.params) =~= a2);
    assert(conv_bn_out(blk.conv2, blk.bn2, a1) == Some(a2));
    let a3 = seq![x[0], e, h1, w1];
    assert(crate::shape::conv_dim_spec(h1 as int, 1, 1, 0, 1) == h1);
    assert(crate::shape::conv_dim_spec(w1 as int, 1, 1, 0, 1) == w1);
    assert(conv_spec(a2, conv_weight(blk.conv3), blk.conv3.params) =~= a3);
    assert(conv_bn_out(blk.conv3, blk.bn3, a2) == Some(a3));
    assert(blk.main_out(x) == Some(a3));
    match blk.downsample {
        Some((c, b)) => {
            assert(crate::shape::conv_dim_spec(x[2] as int, 1, s as int, 0, 1) == h1);
            assert(crate::shape::conv_dim_spec(x[3] as int, 1, s as int, 0, 1) == w1);
            assert(conv_window_ok(x, conv_weight(c), c.params));
            assert(conv_spec(x, conv_weight(c), c.params) =~= a3);
            assert(conv_bn_out(c, b, x) == Some(a3));
        },
        None => {
            assert(a3 =~= x);
        },
    }
    crate::shape::lemma_broadcast_self(a3);
    assert(strided_shape(x, e, s) == a3);
}

/// A residual block of either kind.
#[derive(Clone, Copy)]
pub enum ResBlock {
    Basic(ResidualBlock),
    Bottleneck(BottleneckBlock),
}

impl ResBlock {
    /// The block lives in `g`.
    pub open spec fn wf_in(&self, g: Graph) -> bool {
        match self {
            ResBlock::Basic(b) => b.wf_in(g),
            ResBlock::Bottleneck(b) => b.wf_in(g),
        }
    }

    /// Some batch normalization of the block is in training mode.
    pub open spec fn training(&self) -> bool {
        match self {
            ResBlock::Basic(b) => b.training(),
            ResBlock::Bottleneck(b) => b.training(),
        }
    }

    /// Shape of the block's output for input of shape `x`.
    pub open spec fn block_out(&self, x: Seq<usize>) -> Option<Seq<usize>> {
        match self {
            ResBlock::Basic(b) => b.block_out(x),
            ResBlock::Bottleneck(b) => b.block_out(x),
        }
    }

    /// The block with every batch normalization switched to training (`t`) or evaluation mode.
    pub open spec fn in_mode(&self, t: bool) -> ResBlock {
        match self {
            ResBlock::Basic(b) => ResBlock::Basic(b.in_mode(t)),
            ResBlock::Bottleneck(b) => ResBlock::Bottleneck(b.in_mode(t)),
        }
    }

    /// Applies the block.
    pub fn forward(&self, g: &mut Graph, x: &Tensor) -> (r: Result<Tensor, EngineError>)
        requires
            old(g).wf(),
            self.wf_in(*old(g)),
            x.valid(*old(g)),
        ensures
            final(g).wf(),
            old(g).extended_by(*final(g)),
            final(g).buffers@.len() == old(g).buffers@.len(),
            !self.training() ==> final(g).buffers == old(g).buffers,
            r is Ok <==> self.block_out(x.shape_of(*old(g))) is Some,
            r matches Ok(t) ==> t.valid(*final(g)) && self.block_out(x.shape_of(*old(g))) == Some(t.shape_of(*final(g))),
            r matches Ok(t) ==> residual_sum(*final(g), t.id as int, x.id as int, match self {
                ResBlock::Basic(b) => b.downsample is None,
                ResBlock::Bottleneck(b) => b.downsample is None,
            }),
    {
        match self {
            ResBlock::Basic(b) => b.forward(g, x),
            ResBlock::Bottleneck(b) => b.forward(g, x),
        }
    }

    /// The learnable tensors of the block.
    pub fn parameters(&self) -> (r: Vec<Tensor>)
        ensures
            r@ == tensors_of(self.shapes()),
            forall|g: Graph| #[trigger] self.wf_in(g) ==> forall|k: int| 0 <= k < r@.len() ==> (#[trigger] r@[k]).valid(g),
    {
        match self {
            ResBlock::Basic(b) => b.parameters(),
            ResBlock::Bottleneck(b) => b.parameters(),
        }
    }

    /// Switches the block to training mode.
    pub fn train(&mut self)
        ensures
            *final(self) == old(self).in_mode(true),
    {
        match self {
            ResBlock::Basic(b) => b.train(),
            ResBlock::Bottleneck(b) => b.train(),
        }
    }

    /// Switches the block to evaluation mode.
    pub fn eval(&mut self)
        ensures
            *final(self) == old(self).in_mode(false),
    {
        match self {
            ResBlock::Basic(b) => b.eval(),
            ResBlock::Bottleneck(b) => b.eval(),
        }
    }
}

/// Shape after applying `blocks` in order to input of shape `x`, if each accepts.
pub open spec fn stage_out(blocks: Seq<ResBlock>, x: Option<Seq<usize>>) -> Option<Seq<usize>>
    decreases blocks.len(),
{
    if blocks.len() == 0 {
        x
    } else {
        match stage_out(blocks.drop_last(), x) {
            Some(y) => blocks.last().block_out(y),
            None => None,
        }
    }
}

/// Once a prefix of the blocks refuses, the whole stage does.
proof fn lemma_stage_none_extends(blocks: Seq<ResBlock>, k: int, x: Option<Seq<usize>>)
    requires
        0 <= k <= blocks.len(),
        stage_out(blocks.take(k), x) is None,
    ensures
        stage_out(blocks, x) is None,
    decreases blocks.len() - k,
{
    if k < blocks.len() {
        assert(blocks.take(k + 1).drop_last() =~= blocks.take(k));
        lemma_stage_none_extends(blocks, k + 1, x);
    } else {
        assert(blocks.take(k) =~= blocks);
    }
}

/// A stage that receives nothing returns nothing.
proof fn lemma_stage_none(blocks: Seq<ResBlock>)
    ensures
        stage_out(blocks, None) is None,
    decreases blocks.len(),
{
    if blocks.len() > 0 {
        lemma_stage_none(blocks.drop_last());
    }
}

/// Every block of a stage lives in `g`.
pub open spec fn stage_wf(blocks: Seq<ResBlock>, g: Graph) -> bool {
    forall|k: int| 0 <= k < blocks.len() ==> (#[trigger] blocks[k]).wf_in(g)
}

/// No block of a stage is in training mode.
pub open spec fn stage_eval(blocks: Seq<ResBlock>) -> bool {
    forall|k: int| 0 <= k < blocks.len() ==> !(#[trigger] blocks[k]).training()
}

/// A stage whose blocks live in `g`, after more recording.
proof fn lemma_stage_extend(blocks: Seq<ResBlock>, g1: Graph, g2: Graph)
    requires
        stage_wf(blocks, g1),
        g1.extended_by(g2),
    ensures
        stage_wf(blocks, g2),
{
    assert forall|k: int| 0 <= k < blocks.len() implies (#[trigger] blocks[k]).wf_in(g2) by {
        match blocks[k] {
            ResBlock::Basic(b) => {
                lemma_conv_extend(b.conv1, g1, g2);
                lemma_bn_extend(b.bn1, g1, g2);
                lemma_conv_extend(b.conv2, g1, g2);
                lemma_bn_extend(b.bn2, g1, g2);
                if let Some((c, n)) = b.downsample {
                    lemma_conv_extend(c, g1, g2);
                    lemma_bn_extend(n, g1, g2);
                }
            },
            ResBlock::Bottleneck(b) => {
                lemma_conv_extend(b.conv1, g1, g2);
                lemma_bn_extend(b.bn1, g1, g2);
                lemma_conv_extend(b.conv2, g1, g2);
                lemma_bn_extend(b.bn2, g1, g2);
                lemma_conv_extend(b.conv3, g1, g2);
                lemma_bn_extend(b.bn3, g1, g2);
                if let Some((c, n)) = b.downsample {
                    lemma_conv_extend(c, g1, g2);
                    lemma_bn_extend(n, g1, g2);
                }
            },
        }
    }
}

/// Applies the blocks of a stage in order.
fn forward_stage(g: &mut Graph, blocks: &Vec<ResBlock>, x: &Tensor) -> (r: Result<Tensor, EngineError>)
    requires
        old(g).wf(),
        stage_wf(blocks@, *old(g)),
        x.valid(*old(g)),
    ensures
        final(g).wf(),
        old(g).extended_by(*final(g)),
        final(g).buffers@.len() == old(g).buffers@.len(),
        stage_eval(blocks@) ==> final(g).buffers == old(g).buffers,
        r is Ok <==> stage_out(blocks@, Some(x.shape_of(*old(g)))) is Some,
        r matches Ok(t) ==> t.valid(*final(g)) && stage_out(blocks@, Some(x.shape_of(*old(g)))) == Some(t.shape_of(*final(g))),
{
    let ghost g0 = *g;
    let ghost xs = Some(x.shape_of(*g));
    let mut cur = *x;
    let mut k: usize = 0;
    proof {
        assert(blocks@.take(0) =~= Seq::<ResBlock>::empty());
        assert(blocks@.take(blocks@.len() as int) =~= blocks@);
    }
    while k < blocks.len()
        invariant
            g0 == *old(g),
            xs == Some(x.shape_of(g0)),
            g.wf(),
            g0.extended_by(*g),
            g.buffers@.len() == g0.buffers@.len(),
            stage_eval(blocks@) ==> g.buffers == g0.buffers,
            stage_wf(blocks@, g0),
            cur.valid(*g),
            k <= blocks@.len(),
            blocks@.take(blocks@.len() as int) == blocks@,
            stage_out(blocks@.take(k as int), xs) == Some(cur.shape_of(*g)),
        decreases blocks.len() - k,
    {
        let ghost gk = *g;
        proof {
            lemma_stage_extend(blocks@, g0, gk);
            assert(blocks@.take(k + 1).drop_last() =~= blocks@.take(k as int));
        }
        match blocks[k].forward(g, &cur) {
            Ok(t) => {
                cur = t;
            },
            Err(e) => {
                proof {
                    g0.lemma_extended_trans(gk, *g);
                    lemma_stage_none_extends(blocks@, (k + 1) as int, xs);
                }
                return Err(e);
            },
        }
        proof {
            g0.lemma_extended_trans(gk, *g);
        }
        k = k + 1;
    }
    assert(blocks@.take(k as int) == blocks@);
    Ok(cur)
}

/// Shape after global average pooling of `[b, c, h, w]`: `[b, c]`.
pub open spec fn global_pool(y: Seq<usize>) -> Seq<usize> {
    squeeze_spec(squeeze_spec(y.update(3, 1).update(2, 1), 3), 2)
}

/// Global average pooling of `[b, c, h, w]` to `[b, c]`: means over the width and the
/// height, keeping the axes, then both squeezed.
fn global_average_pool(g: &mut Graph, t: &Tensor) -> (r: Tensor)
    requires
        old(g).wf(),
        t.valid(*old(g)),
        t.shape_of(*old(g)).len() == 4,
    ensures
        final(g).wf(),
        old(g).extended_by(*final(g)),
        final(g).buffers == old(g).buffers,
        r.valid(*final(g)),
        r.shape_of(*final(g)) == global_pool(t.shape_of(*old(g))),
{
    let ghost g0 = *g;
    let m3 = match t.mean(g, 3, true) {
        Ok(v) => v,
        Err(_) => {
            assert(false);
            return *t;
        },
    };
    let ghost g1 = *g;
    let m2 = match m3.mean(g, 2, true) {
        Ok(v) => v,
        Err(_) => {
            assert(false);
            return *t;
        },
    };
    let ghost g2 = *g;
    let s3 = match m2.squeeze(g, 3) {
        Ok(v) => v,
        Err(_) => {
            assert(false);
            return *t;
        },
    };
    let ghost g3 = *g;
    let pooled = match s3.squeeze(g, 2) {
        Ok(v) => v,
        Err(_) => {
            assert(false);
            return *t;
        },
    };
    proof {
        g0.lemma_extended_trans(g1, g2);
        g0.lemma_extended_trans(g2, g3);
        g0.lemma_extended_trans(g3, *g);
    }
    pooled
}

/// Residual network: a stem (convolution, batch normalization, ReLU and, for ImageNet
/// inputs, max pooling), four stages of residual blocks, global average pooling and a
/// linear classifier.
pub struct ResNet {
    pub conv1: Conv2d,
    pub bn1: BatchNorm2d,
    pub maxpool: Option<MaxPool2d>,
    pub layer1: Vec<ResBlock>,
    pub layer2: Vec<ResBlock>,
    pub layer3: Vec<ResBlock>,
    pub layer4: Vec<ResBlock>,
    pub fc: Linear,
    pub in_channels: usize,
    pub num_classes: usize,
}

impl ResNet {
    /// Every part lives in `g`.
    pub open spec fn wf_in(&self, g: Graph) -> bool {
        &&& self.conv1.wf_in(g)
        &&& self.bn1.wf_in(g)
        &&& stage_wf(self.layer1@, g)
        &&& stage_wf(self.layer2@, g)
        &&& stage_wf(self.layer3@, g)
        &&& stage_wf(self.layer4@, g)
        &&& self.fc.wf_in(g)
    }

    /// No batch normalization of the network is in training mode.
    pub open spec fn evaluating(&self) -> bool {
        &&& !self.bn1.is_training
        &&& stage_eval(self.layer1@)
        &&& stage_eval(self.layer2@)
        &&& stage_eval(self.layer3@)
        &&& stage_eval(self.layer4@)
    }

    /// Shape after the stem.
    pub open spec fn stem_out(&self, x: Seq<usize>) -> Option<Seq<usize>> {
        match conv_bn_out(self.conv1, self.bn1, x) {
            Some(y) => match self.maxpool {
                Some(mp) => if pool_ok(y, mp.kernel_size, mp.stride) {
                    Some(pool_spec(y, mp.kernel_size, mp.stride))
                } else {
                    None
                },
                None => Some(y),
            },
            None => None,
        }
    }

    /// Shape after the four stages.
    pub open spec fn features(&self, x: Seq<usize>) -> Option<Seq<usize>> {
        stage_out(self.layer4@, stage_out(self.layer3@, stage_out(self.layer2@, stage_out(self.layer1@, self.stem_out(x)))))
    }

    /// The network accepts images of shape `x`.
    pub open spec fn accepts(&self, x: Seq<usize>) -> bool {
        &&& self.features(x) is Some
        &&& self.features(x)->Some_0.len() == 4
        &&& self.fc.accepts(global_pool(self.features(x)->Some_0))
    }

    /// Shape of the class scores.
    pub open spec fn out_shape(&self, x: Seq<usize>) -> Seq<usize> {
        linear_out(global_pool(self.features(x)->Some_0), self.fc.out_features)
    }

    /// The features of a batch of images: stem and four stages. Succeeds exactly when every
    /// stage accepts what reaches it; in evaluation mode the running statistics are left as
    /// they are.
    pub fn forward_features(&self, g: &mut Graph, x: &Tensor) -> (r: Result<Tensor, EngineError>)
        requires
            old(g).wf(),
            self.wf_in(*old(g)),
            x.valid(*old(g)),
        ensures
            final(g).wf(),
            old(g).extended_by(*final(g)),
            final(g).buffers@.len() == old(g).buffers@.len(),
            self.evaluating() ==> final(g).buffers == old(g).buffers,
            r is Ok <==> self.features(x.shape_of(*old(g))) is Some,
            r matches Ok(t) ==> t.valid(*final(g)) && self.features(x.shape_of(*old(g))) == Some(t.shape_of(*final(g))),
    {
        let ghost g0 = *g;
        let ghost xs = x.shape_of(*g);
        let stem = match conv_bn(g, &self.conv1, &self.bn1, x, true) {
            Ok(t) => t,
            Err(e) => {
                proof {
                    lemma_stage_none(self.layer1@);
                    lemma_stage_none(self.layer2@);
                    lemma_stage_none(self.layer3@);
                    lemma_stage_none(self.layer4@);
                }
                return Err(e);
            },
        };
        let ghost g1 = *g;
        let out = match self.maxpool {
            Some(mp) => match stem.max_pool2d(g, mp.kernel_size, mp.stride) {
                Ok(t) => t,
                Err(e) => {
                    proof {
                        lemma_stage_none(self.layer1@);
                        lemma_stage_none(self.layer2@);
                        lemma_stage_none(self.layer3@);
                        lemma_stage_none(self.layer4@);
                    }
                    return Err(e);
                },
            },
            None => stem,
        };
        let ghost g2 = *g;
        proof {
            g0.lemma_extended_trans(g1, g2);
            lemma_stage_extend(self.layer1@, g0, g2);
            assert(Some(out.shape_of(g2)) == self.stem_out(xs));
        }
        let out = match forward_stage(g, &self.layer1, &out) {
            Ok(t) => t,
            Err(e) => {
                proof {
                    g0.lemma_extended_trans(g2, *g);
                    lemma_stage_none(self.layer2@);
                    lemma_stage_none(self.layer3@);
                    lemma_stage_none(self.layer4@);
                }
                return Err(e);
            },
        };
        let ghost g3 = *g;
        proof {
            g0.lemma_extended_trans(g2, g3);
            lemma_stage_extend(self.layer2@, g0, g3);
        }
        let out = match forward_stage(g, &self.layer2, &out) {
            Ok(t) => t,
            Err(e) => {
                proof {
                    g0.lemma_extended_trans(g3, *g);
                    lemma_stage_none(self.layer3@);
                    lemma_stage_none(self.layer4@);
                }
                return Err(e);
            },
        };
        let ghost g4 = *g;
        proof {
            g0.lemma_extended_trans(g3, g4);
            lemma_stage_extend(self.layer3@, g0, g4);
        }
        let out = match forward_stage(g, &self.layer3, &out) {
            Ok(t) => t,
            Err(e) => {
                proof {
                    g0.lemma_extended_trans(g4, *g);
                    lemma_stage_none(self.layer4@);
                }
                return Err(e);
            },
        };
        let ghost g5 = *g;
        proof {
            g0.lemma_extended_trans(g4, g5);
            lemma_stage_extend(self.layer4@, g0, g5);
        }
        let out = match forward_stage(g, &self.layer4, &out) {
            Ok(t) => t,
            Err(e) => {
                proof {
                    g0.lemma_extended_trans(g5, *g);
                }
                return Err(e);
            },
        };
        proof {
            g0.lemma_extended_trans(g5, *g);
        }
        Ok(out)
    }

    /// Class scores for a batch of images: features, global average pooling and the
    /// classifier. Succeeds exactly when the network accepts the images' shape; in evaluation
    /// mode the running statistics are left as they are.
    #[verifier::spinoff_prover]
    pub fn forward(&self, g: &mut Graph, x: &Tensor) -> (r: Result<Tensor, EngineError>)
        requires
            old(g).wf(),
            self.wf_in(*old(g)),
            x.valid(*old(g)),
        ensures
            final(g).wf(),
            old(g).extended_by(*final(g)),
            final(g).buffers@.len() == old(g).buffers@.len(),
            self.evaluating() ==> final(g).buffers == old(g).buffers,
            r is Ok <==> self.accepts(x.shape_of(*old(g))),
            r matches Ok(t) ==> t.valid(*final(g)) && t.shape_of(*final(g)) == self.out_shape(x.shape_of(*old(g))),
    {
        let ghost g0 = *g;
        let ghost xs = x.shape_of(*g);
        let out = self.forward_features(g, x)?;
        let ghost g6 = *g;
        let ghost y = out.shape_of(g6);
        let shape = out.shape(g);
        if shape.len() != 4 {
            let mut shapes: Vec<Vec<usize>> = Vec::new();
            shapes.push(shape);
            return Err(EngineError::IncompatibleShapes { op: "ResNet pooling (expected 4D features)", shapes });
        }
        let pooled = global_average_pool(g, &out);
        let ghost g10 = *g;
        assert(self.features(xs) == Some(y));
        assert(pooled.shape_of(g10) == global_pool(y));
        proof {
            g0.lemma_extended_trans(g6, g10);
            self.fc.lemma_wf_in_shapes(g0);
            lemma_shapes_hold_extend(g0, g10, self.fc.shapes());
            self.fc.lemma_wf_in_shapes(g10);
        }
        let res = self.fc.forward_linear(g, &pooled);
        proof {
            g0.lemma_extended_trans(g10, *g);
        }
        res
    }
}

/// Every block of a stage switched to training (`t`) or evaluation mode.
pub open spec fn stage_in_mode(blocks: Seq<ResBlock>, t: bool) -> Seq<ResBlock> {
    Seq::new(blocks.len(), |k: int| blocks[k].in_mode(t))
}

/// Switching a block's mode keeps its tensors and buffers, and switching it again to the same
/// mode changes nothing.
pub proof fn lemma_block_in_mode_keeps(b: ResBlock, t: bool)
    ensures
        b.in_mode(t).shapes() == b.shapes(),
        b.in_mode(t).buffers() == b.buffers(),
        b.in_mode(t).in_mode(t) == b.in_mode(t),
{
}

/// Switching a stage's mode keeps its tensors, parameters and buffers, and switching it again
/// to the same mode changes nothing.
pub proof fn lemma_stage_in_mode_keeps(blocks: Seq<ResBlock>, t: bool)
    ensures
        seq_shapes(stage_in_mode(blocks, t)) == seq_shapes(blocks),
        seq_buffers(stage_in_mode(blocks, t)) == seq_buffers(blocks),
        crate::nn::module::seq_params(stage_in_mode(blocks, t)) == crate::nn::module::seq_params(blocks),
        stage_in_mode(stage_in_mode(blocks, t), t) == stage_in_mode(blocks, t),
    decreases blocks.len(),
{
    let s = stage_in_mode(blocks, t);
    if blocks.len() > 0 {
        assert(s.drop_last() =~= stage_in_mode(blocks.drop_last(), t));
        lemma_stage_in_mode_keeps(blocks.drop_last(), t);
        lemma_block_in_mode_keeps(blocks.last(), t);
        assert(s.last() == blocks.last().in_mode(t));
    }
    assert forall|k: int| 0 <= k < s.len() implies #[trigger] stage_in_mode(s, t)[k] == s[k] by {
        lemma_block_in_mode_keeps(blocks[k], t);
    }
    assert(stage_in_mode(s, t) =~= s);
}

/// Switches every block of a stage to training (`t`) or evaluation mode.
fn set_stage_mode(blocks: &mut Vec<ResBlock>, t: bool)
    ensures
        final(blocks)@ == stage_in_mode(old(blocks)@, t),
{
    let ghost b0 = blocks@;
    let mut i: usize = 0;
    while i < blocks.len()
        invariant
            blocks@.len() == b0.len(),
            i <= b0.len(),
            forall|k: int| 0 <= k < i ==> #[trigger] blocks@[k] == b0[k].in_mode(t),
            forall|k: int| i <= k < b0.len() ==> #[trigger] blocks@[k] == b0[k],
        decreases blocks.len() - i,
    {
        let mut b = blocks[i];
        if t {
            b.train();
        } else {
            b.eval();
        }
        blocks.set(i, b);
        i = i + 1;
    }
    assert(blocks@ =~= stage_in_mode(b0, t));
}

/// The learnable tensors of a stage, appended to `params`.
fn push_stage(params: &mut Vec<Tensor>, blocks: &Vec<ResBlock>)
    ensures
        final(params)@ == old(params)@ + crate::nn::module::seq_params(blocks@),
        final(params)@.len() >= old(params)@.len(),
        forall|k: int| 0 <= k < old(params)@.len() ==> #[trigger] final(params)@[k] == old(params)@[k],
        forall|g: Graph| #[trigger] stage_wf(blocks@, g) ==> forall|k: int| old(params)@.len() <= k < final(params)@.len() ==> (#[trigger] final(params)@[k]).valid(g),
{
    let ghost p0 = params@;
    let mut i: usize = 0;
    proof {
        assert(blocks@.take(0) =~= Seq::<ResBlock>::empty());
        assert(p0 + crate::nn::module::seq_params(blocks@.take(0)) =~= p0);
    }
    while i < blocks.len()
        invariant
            i <= blocks@.len(),
            params@ == p0 + crate::nn::module::seq_params(blocks@.take(i as int)),
            params@.len() >= p0.len(),
            forall|k: int| 0 <= k < p0.len() ==> #[trigger] params@[k] == p0[k],
            forall|g: Graph| #[trigger] stage_wf(blocks@, g) ==> forall|k: int| p0.len() <= k < params@.len() ==> (#[trigger] params@[k]).valid(g),
        decreases blocks.len() - i,
    {
        let ghost before = params@;
        let ghost b = blocks@[i as int];
        let mut p = blocks[i].parameters();
        params.append(&mut p);
        proof {
            crate::nn::module::lemma_seq_params_step(blocks@, i as int);
            assert(params@ =~= p0 + crate::nn::module::seq_params(blocks@.take(i + 1)));
            assert forall|g: Graph| #[trigger] stage_wf(blocks@, g) implies forall|k: int| p0.len() <= k < params@.len() ==> (#[trigger] params@[k]).valid(g) by {
                assert(b.wf_in(g));
                assert forall|k: int| p0.len() <= k < params@.len() implies (#[trigger] params@[k]).valid(g) by {
                    if k < before.len() {
                        assert(params@[k] == before[k]);
                    }
                }
            }
        }
        i = i + 1;
    }
    proof {
        assert(blocks@.take(blocks@.len() as int) =~= blocks@);
    }
}

/// The first block of a stage from `in_channels` to `out_channels` (`4 * out_channels` for
/// bottlenecks) with the stage's stride.
pub open spec fn stage_first_ok(b: ResBlock, in_channels: usize, out_channels: usize, stride: usize, bottleneck: bool) -> bool {
    if bottleneck {
        b matches ResBlock::Bottleneck(x) && x.consistent() && x.in_channels == in_channels
            && x.out_channels == out_channels && x.stride == stride
    } else {
        b matches ResBlock::Basic(x) && x.consistent() && x.in_channels == in_channels
            && x.out_channels == out_channels && x.stride == stride
    }
}

impl ResNet {
    /// The tensors that `parameters` gives, in order.
    pub open spec fn param_seq(&self) -> Seq<Tensor> {
        tensors_of(self.conv1.shapes() + self.bn1.shapes()) + crate::nn::module::seq_params(self.layer1@) + crate::nn::module::seq_params(self.layer2@)
            + crate::nn::module::seq_params(self.layer3@) + crate::nn::module::seq_params(self.layer4@) + self.fc.param_seq()
    }
}

impl ResNet {
    /// The network with every batch normalization switched to training (`t`) or evaluation mode.
    pub open spec fn in_mode(&self, t: bool) -> ResNet {
        ResNet {
            conv1: self.conv1,
            bn1: bn_in_mode(self.bn1, t),
            maxpool: self.maxpool,
            layer1: self.layer1,
            layer2: self.layer2,
            layer3: self.layer3,
            layer4: self.layer4,
            fc: self.fc,
            in_channels: self.in_channels,
            num_classes: self.num_classes,
        }
    }

    fn set_mode(&mut self, t: bool)
        ensures
            final(self).conv1 == old(self).conv1,
            final(self).bn1 == bn_in_mode(old(self).bn1, t),
            final(self).maxpool == old(self).maxpool,
            final(self).layer1@ == stage_in_mode(old(self).layer1@, t),
            final(self).layer2@ == stage_in_mode(old(self).layer2@, t),
            final(self).layer3@ == stage_in_mode(old(self).layer3@, t),
            final(self).layer4@ == stage_in_mode(old(self).layer4@, t),
            final(self).fc == old(self).fc,
            final(self).in_channels == old(self).in_channels,
            final(self).num_classes == old(self).num_classes,
    {
        set_bn_mode(&mut self.bn1, t);
        set_stage_mode(&mut self.layer1, t);
        set_stage_mode(&mut self.layer2, t);
        set_stage_mode(&mut self.layer3, t);
        set_stage_mode(&mut self.layer4, t);
    }

    /// Switches every batch normalization to training mode.
    pub fn train(&mut self)
        ensures
            final(self).conv1 == old(self).conv1,
            final(self).bn1 == bn_in_mode(old(self).bn1, true),
            final(self).maxpool == old(self).maxpool,
            final(self).layer1@ == stage_in_mode(old(self).layer1@, true),
            final(self).layer2@ == stage_in_mode(old(self).layer2@, true),
            final(self).layer3@ == stage_in_mode(old(self).layer3@, true),
            final(self).layer4@ == stage_in_mode(old(self).layer4@, true),
            final(self).fc == old(self).fc,
            final(self).in_channels == old(self).in_channels,
            final(self).num_classes == old(self).num_classes,
    {
        self.set_mode(true);
    }

    /// Switches every batch normalization to evaluation mode.
    pub fn eval(&mut self)
        ensures
            final(self).conv1 == old(self).conv1,
            final(self).bn1 == bn_in_mode(old(self).bn1, false),
            final(self).maxpool == old(self).maxpool,
            final(self).layer1@ == stage_in_mode(old(self).layer1@, false),
            final(self).layer2@ == stage_in_mode(old(self).layer2@, false),
            final(self).layer3@ == stage_in_mode(old(self).layer3@, false),
            final(self).layer4@ == stage_in_mode(old(self).layer4@, false),
            final(self).fc == old(self).fc,
            final(self).in_channels == old(self).in_channels,
            final(self).num_classes == old(self).num_classes,
    {
        self.set_mode(false);
    }

    /// The learnable tensors: the stem's, every block's in order, then the classifier's.
    pub fn parameters(&self) -> (r: Vec<Tensor>)
        ensures
            r@ == self.param_seq(),
            forall|g: Graph| #[trigger] self.wf_in(g) ==> forall|k: int| 0 <= k < r@.len() ==> (#[trigger] r@[k]).valid(g),
    {
        let mut params: Vec<Tensor> = Vec::new();
        push_conv_bn(&mut params, &self.conv1, &self.bn1);
        let ghost p0 = params@;
        push_stage(&mut params, &self.layer1);
        let ghost p1 = params@;
        push_stage(&mut params, &self.layer2);
        let ghost p2 = params@;
        push_stage(&mut params, &self.layer3);
        let ghost p3 = params@;
        push_stage(&mut params, &self.layer4);
        let ghost p4 = params@;
        let mut f = self.fc.parameters();
        params.append(&mut f);
        proof {
            assert forall|g: Graph| #[trigger] self.wf_in(g) implies forall|k: int| 0 <= k < params@.len() ==> (#[trigger] params@[k]).valid(g) by {
                assert(stage_wf(self.layer1@, g));
                assert(stage_wf(self.layer2@, g));
                assert(stage_wf(self.layer3@, g));
                assert(stage_wf(self.layer4@, g));
                self.fc.lemma_wf_in_shapes(g);
                assert forall|k: int| 0 <= k < params@.len() implies (#[trigger] params@[k]).valid(g) by {
                    if k < p0.len() {
                        assert(params@[k] == p4[k] && p4[k] == p3[k] && p3[k] == p2[k] && p2[k] == p1[k] && p1[k] == p0[k]);
                    } else if k < p1.len() {
                        assert(params@[k] == p4[k] && p4[k] == p3[k] && p3[k] == p2[k] && p2[k] == p1[k]);
                    } else if k < p2.len() {
                        assert(params@[k] == p4[k] && p4[k] == p3[k] && p3[k] == p2[k]);
                    } else if k < p3.len() {
                        assert(params@[k] == p4[k] && p4[k] == p3[k]);
                    } else if k < p4.len() {
                        assert(params@[k] == p4[k]);
                    } else {
                        assert(params@[k] == self.fc.param_seq()[k - p4.len()]);
                    }
                }
            }
        }
        proof {
            assert(params@ =~= self.param_seq());
        }
        params
    }

    /// One stage of `max(num_blocks, 1)` blocks: the first from `*current_channels` with stride
    /// `stride`, the rest of stride 1; `*current_channels` becomes the stage's output channels.
    fn make_layer(g: &mut Graph, current_channels: &mut usize, out_channels: usize, num_blocks: usize, stride: usize, is_bottleneck: bool) -> (r: Vec<ResBlock>)
        requires
            old(g).wf(),
            *old(current_channels) * 9 <= usize::MAX,
            out_channels * 9 <= usize::MAX,
        ensures
            final(g).wf(),
            old(g).extended_by(*final(g)),
            stage_wf(r@, *final(g)),
            r@.len() == if num_blocks == 0 { 1 } else { num_blocks },
            *final(current_channels) == (if is_bottleneck { (out_channels * EXPANSION) as usize } else { out_channels }),
            stage_first_ok(r@[0], *old(current_channels), out_channels, stride, is_bottleneck),
    {
        let ghost g0 = *g;
        let mut blocks: Vec<ResBlock> = Vec::new();
        let first = if is_bottleneck {
            ResBlock::Bottleneck(BottleneckBlock::new(g, *current_channels, out_channels, stride))
        } else {
            ResBlock::Basic(ResidualBlock::new(g, *current_channels, out_channels, stride))
        };
        blocks.push(first);
        *current_channels = if is_bottleneck { out_channels * EXPANSION } else { out_channels };
        let mut i: usize = 1;
        while i < num_blocks
            invariant
                g.wf(),
                g0.extended_by(*g),
                out_channels * 9 <= usize::MAX,
                *current_channels == (if is_bottleneck { (out_channels * EXPANSION) as usize } else { out_channels }),
                1 <= i,
                i <= num_blocks || (num_blocks == 0 && i == 1),
                blocks@.len() == i,
                blocks@[0] == first,
                stage_wf(blocks@, *g),
            decreases num_blocks - i,
        {
            let ghost gi = *g;
            let b = if is_bottleneck {
                ResBlock::Bottleneck(BottleneckBlock::new(g, *current_channels, out_channels, 1))
            } else {
                ResBlock::Basic(ResidualBlock::new(g, *current_channels, out_channels, 1))
            };
            proof {
                g0.lemma_extended_trans(gi, *g);
                lemma_stage_extend(blocks@, gi, *g);
            }
            blocks.push(b);
            proof {
                assert forall|k: int| 0 <= k < blocks@.len() implies (#[trigger] blocks@[k]).wf_in(*g) by {
                    if k < i {
                        assert(blocks@[k] == blocks@.drop_last()[k]);
                    }
                }
            }
            i = i + 1;
        }
        blocks
    }

    /// A network with `layers[i]` blocks in stage `i` (at least one), basic or bottleneck
    /// blocks, and the ImageNet stem (7x7 convolution of stride 2 and 3x3 max pooling of
    /// stride 2) or the CIFAR stem (3x3 convolution of stride 1, no pooling).
    pub fn build(g: &mut Graph, in_channels: usize, num_classes: usize, layers: &[usize; 4], is_bottleneck: bool, use_imagenet_stem: bool) -> (r: ResNet)
        requires
            old(g).wf(),
            in_channels * 49 <= usize::MAX,
        ensures
            final(g).wf(),
            old(g).extended_by(*final(g)),
            r.wf_in(*final(g)),
            r.in_channels == in_channels,
            r.num_classes == num_classes,
            r.fc.in_features == (if is_bottleneck { 2048usize } else { 512usize }),
            r.fc.out_features == num_classes,
            r.maxpool is Some <==> use_imagenet_stem,
            r.layer1@.len() == (if layers[0] == 0 { 1 } else { layers[0] }),
            r.layer2@.len() == (if layers[1] == 0 { 1 } else { layers[1] }),
            r.layer3@.len() == (if layers[2] == 0 { 1 } else { layers[2] }),
            r.layer4@.len() == (if layers[3] == 0 { 1 } else { layers[3] }),
    {
        let ghost g0 = *g;
        assert(in_channels * 7 * 7 == in_channels * 49) by (nonlinear_arith);
        assert(in_channels * 3 * 3 <= in_channels * 49) by (nonlinear_arith);
        let base_channels: usize = 64;
        let (conv1, bn1, maxpool) = if use_imagenet_stem {
            let c1 = Conv2d::with_options(g, in_channels, base_channels, (7, 7), (2, 2), (3, 3), (1, 1), false);
            let ghost ga = *g;
            let b1 = BatchNorm2d::new(g, base_channels);
            proof {
                lemma_conv_extend(c1, ga, *g);
            }
            (c1, b1, Some(MaxPool2d::new((3, 3), (2, 2))))
        } else {
            let c1 = Conv2d::with_options(g, in_channels, base_channels, (3, 3), (1, 1), (1, 1), (1, 1), false);
            let ghost ga = *g;
            let b1 = BatchNorm2d::new(g, base_channels);
            proof {
                lemma_conv_extend(c1, ga, *g);
            }
            (c1, b1, None)
        };
        let ghost g1 = *g;
        let mut current: usize = base_channels;
        let layer1 = Self::make_layer(g, &mut current, 64, layers[0], 1, is_bottleneck);
        let ghost g2 = *g;
        let layer2 = Self::make_layer(g, &mut current, 128, layers[1], 2, is_bottleneck);
        let ghost g3 = *g;
        let layer3 = Self::make_layer(g, &mut current, 256, layers[2], 2, is_bottleneck);
        let ghost g4 = *g;
        let layer4 = Self::make_layer(g, &mut current, 512, layers[3], 2, is_bottleneck);
        let ghost g5 = *g;
        let fc = Linear::new(g, current, num_classes);
        proof {
            g0.lemma_extended_trans(g1, g2);
            g0.lemma_extended_trans(g2, g3);
            g0.lemma_extended_trans(g3, g4);
            g0.lemma_extended_trans(g4, g5);
            g0.lemma_extended_trans(g5, *g);
            g1.lemma_extended_trans(g2, *g);
            g2.lemma_extended_trans(g3, *g);
            g3.lemma_extended_trans(g4, *g);
            g4.lemma_extended_trans(g5, *g);
            lemma_conv_extend(conv1, g1, *g);
            lemma_bn_extend(bn1, g1, *g);
            lemma_stage_extend(layer1@, g2, *g);
            lemma_stage_extend(layer2@, g3, *g);
            lemma_stage_extend(layer3@, g4, *g);
            lemma_stage_extend(layer4@, g5, *g);
        }
        ResNet { conv1, bn1, maxpool, layer1, layer2, layer3, layer4, fc, in_channels, num_classes }
    }

    /// ResNet-18 for ImageNet-style inputs: basic blocks `[2, 2, 2, 2]`, ImageNet stem.
    pub fn resnet18(g: &mut Graph, in_channels: usize, num_classes: usize) -> (r: ResNet)
        requires
            old(g).wf(),
            in_channels * 49 <= usize::MAX,
        ensures
            final(g).wf(),
            old(g).extended_by(*final(g)),
            r.wf_in(*final(g)),
            r.fc.in_features == 512 && r.fc.out_features == num_classes,
            r.maxpool is Some,
            r.layer1@.len() == 2 && r.layer2@.len() == 2 && r.layer3@.len() == 2 && r.layer4@.len() == 2,
    {
        Self::build(g, in_channels, num_classes, &[2, 2, 2, 2], false, true)
    }

    /// ResNet-18 for 32x32 CIFAR images: basic blocks `[2, 2, 2, 2]`, CIFAR stem.
    pub fn cifar_resnet18(g: &mut Graph, in_channels: usize, num_classes: usize) -> (r: ResNet)
        requires
            old(g).wf(),
            in_channels * 49 <= usize::MAX,
        ensures
            final(g).wf(),
            old(g).extended_by(*final(g)),
            r.wf_in(*final(g)),
            r.fc.in_features == 512 && r.fc.out_features == num_classes,
            r.maxpool is None,
            r.layer1@.len() == 2 && r.layer2@.len() == 2 && r.layer3@.len() == 2 && r.layer4@.len() == 2,
    {
        Self::build(g, in_channels, num_classes, &[2, 2, 2, 2], false, false)
    }

    /// ResNet-34: basic blocks `[3, 4, 6, 3]`, ImageNet stem.
    pub fn resnet34(g: &mut Graph, in_channels: usize, num_classes: usize) -> (r: ResNet)
        requires
            old(g).wf(),
            in_channels * 49 <= usize::MAX,
        ensures
            final(g).wf(),
            old(g).extended_by(*final(g)),
            r.wf_in(*final(g)),
            r.fc.in_features == 512 && r.fc.out_features == num_classes,
            r.maxpool is Some,
            r.layer1@.len() == 3 && r.layer2@.len() == 4 && r.layer3@.len() == 6 && r.layer4@.len() == 3,
    {
        Self::build(g, in_channels, num_classes, &[3, 4, 6, 3], false, true)
    }

    /// ResNet-50: bottleneck blocks `[3, 4, 6, 3]`, ImageNet stem.
    pub fn resnet50(g: &mut Graph, in_channels: usize, num_classes: usize) -> (r: ResNet)
        requires
            old(g).wf(),
            in_channels * 49 <= usize::MAX,
        ensures
            final(g).wf(),
            old(g).extended_by(*final(g)),
            r.wf_in(*final(g)),
            r.fc.in_features == 2048 && r.fc.out_features == num_classes,
            r.maxpool is Some,
            r.layer1@.len() == 3 && r.layer2@.len() == 4 && r.layer3@.len() == 6 && r.layer4@.len() == 3,
    {
        Self::build(g, in_channels, num_classes, &[3, 4, 6, 3], true, true)
    }
}

/// The tensors of an optional projection shortcut.
pub open spec fn projection_shapes(d: Option<(Conv2d, BatchNorm2d)>) -> Seq<(Tensor, Seq<usize>)> {
    match d {
        Some((c, b)) => c.shapes() + b.shapes(),
        None => Seq::empty(),
    }
}

/// The buffers of an optional projection shortcut.
pub open spec fn projection_buffers(d: Option<(Conv2d, BatchNorm2d)>) -> Seq<(usize, Seq<usize>)> {
    match d {
        Some((_, b)) => b.buffers(),
        None => Seq::empty(),
    }
}

/// A projection whose tensors and buffers hold lives in `g`.
proof fn lemma_projection_wf(g: Graph, d: Option<(Conv2d, BatchNorm2d)>)
    requires
        shapes_hold(g, projection_shapes(d)),
        buffers_hold(g, projection_buffers(d)),
    ensures
        d matches Some((c, b)) ==> c.wf_in(g) && b.wf_in(g),
{
    match d {
        Some((c, b)) => {
            lemma_shapes_hold_concat(g, c.shapes(), b.shapes());
            c.lemma_wf_in_shapes(g);
        },
        None => {},
    }
}

impl ResBlock {
    /// The block's tensors with their expected shapes, layer by layer.
    pub open spec fn shapes(&self) -> Seq<(Tensor, Seq<usize>)> {
        match self {
            ResBlock::Basic(b) => b.shapes(),
            ResBlock::Bottleneck(b) => b.shapes(),
        }
    }

    /// The block's buffers: the running statistics of each batch normalization.
    pub open spec fn buffers(&self) -> Seq<(usize, Seq<usize>)> {
        match self {
            ResBlock::Basic(b) => b.bn1.buffers() + b.bn2.buffers() + projection_buffers(b.downsample),
            ResBlock::Bottleneck(b) => b.bn1.buffers() + b.bn2.buffers() + b.bn3.buffers() + projection_buffers(b.downsample),
        }
    }

    /// A graph that holds the block's tensors and buffers holds the block.
    pub proof fn lemma_shapes_wf_in(&self, g: Graph)
        requires
            shapes_hold(g, self.shapes()),
            buffers_hold(g, self.buffers()),
        ensures
            self.wf_in(g),
    {
        match self {
            ResBlock::Basic(b) => {
                let (c1, n1, c2, n2, d) = (b.conv1.shapes(), b.bn1.shapes(), b.conv2.shapes(), b.bn2.shapes(), projection_shapes(b.downsample));
                lemma_shapes_hold_concat(g, c1 + n1 + c2 + n2, d);
                lemma_shapes_hold_concat(g, c1 + n1 + c2, n2);
                lemma_shapes_hold_concat(g, c1 + n1, c2);
                lemma_shapes_hold_concat(g, c1, n1);
                lemma_buffers_hold_concat(g, b.bn1.buffers() + b.bn2.buffers(), projection_buffers(b.downsample));
                lemma_buffers_hold_concat(g, b.bn1.buffers(), b.bn2.buffers());
                b.conv1.lemma_wf_in_shapes(g);
                b.conv2.lemma_wf_in_shapes(g);
                lemma_projection_wf(g, b.downsample);
            },
            ResBlock::Bottleneck(b) => {
                let (c1, n1, c2, n2) = (b.conv1.shapes(), b.bn1.shapes(), b.conv2.shapes(), b.bn2.shapes());
                let (c3, n3, d) = (b.conv3.shapes(), b.bn3.shapes(), projection_shapes(b.downsample));
                lemma_shapes_hold_concat(g, c1 + n1 + c2 + n2 + c3 + n3, d);
                lemma_shapes_hold_concat(g, c1 + n1 + c2 + n2 + c3, n3);
                lemma_shapes_hold_concat(g, c1 + n1 + c2 + n2, c3);
                lemma_shapes_hold_concat(g, c1 + n1 + c2, n2);
                lemma_shapes_hold_concat(g, c1 + n1, c2);
                lemma_shapes_hold_concat(g, c1, n1);
                lemma_buffers_hold_concat(g, b.bn1.buffers() + b.bn2.buffers() + b.bn3.buffers(), projection_buffers(b.downsample));
                lemma_buffers_hold_concat(g, b.bn1.buffers() + b.bn2.buffers(), b.bn3.buffers());
                lemma_buffers_hold_concat(g, b.bn1.buffers(), b.bn2.buffers());
                b.conv1.lemma_wf_in_shapes(g);
                b.conv2.lemma_wf_in_shapes(g);
                b.conv3.lemma_wf_in_shapes(g);
                lemma_projection_wf(g, b.downsample);
            },
        }
    }
}

impl Module for ResBlock {
    open spec fn mode_is(&self, training: bool) -> bool {
        self.in_mode(training) == *self
    }

    open spec fn param_list(&self) -> Seq<Tensor> {
        crate::nn::module::tensors_of(self.tensor_shapes())
    }

    open spec fn tensor_shapes(&self) -> Seq<(Tensor, Seq<usize>)> {
        self.shapes()
    }

    open spec fn buffer_shapes(&self) -> Seq<(usize, Seq<usize>)> {
        self.buffers()
    }

    /// Applies the block (see [`ResBlock::forward`]).
    fn forward(&self, g: &mut Graph, input: &Tensor) -> (r: Result<Tensor, EngineError>)
        ensures
            r is Ok <==> self.block_out(input.shape_of(*old(g))) is Some,
            r matches Ok(t) ==> self.block_out(input.shape_of(*old(g))) == Some(t.shape_of(*final(g))),
    {
        proof {
            self.lemma_shapes_wf_in(*g);
        }
        ResBlock::forward(self, g, input)
    }

    fn parameters(&self) -> (r: Vec<Tensor>) {
        let r = ResBlock::parameters(self);
        proof {
            assert forall|g: Graph| #[trigger] shapes_hold(g, self.tensor_shapes()) implies forall|k: int| 0 <= k < r@.len() ==> (#[trigger] r@[k]).valid(g) by {
                lemma_tensors_valid(g, self.shapes());
            }
        }
        r
    }

    fn train(&mut self)
        ensures
            *final(self) == old(self).in_mode(true),
    {
        ResBlock::train(self);
        proof {
            lemma_block_in_mode_keeps(*old(self), true);
        }
    }

    fn eval(&mut self)
        ensures
            *final(self) == old(self).in_mode(false),
    {
        ResBlock::eval(self);
        proof {
            lemma_block_in_mode_keeps(*old(self), false);
        }
    }
}

impl ResNet {
    /// The network's tensors with their expected shapes: the stem's, every block's in order,
    /// then the classifier's.
    pub open spec fn shapes(&self) -> Seq<(Tensor, Seq<usize>)> {
        self.conv1.shapes() + self.bn1.shapes() + seq_shapes(self.layer1@) + seq_shapes(self.layer2@)
            + seq_shapes(self.layer3@) + seq_shapes(self.layer4@) + self.fc.shapes()
    }

    /// The network's buffers: the stem's running statistics, then every block's.
    pub open spec fn buffers(&self) -> Seq<(usize, Seq<usize>)> {
        self.bn1.buffers() + seq_buffers(self.layer1@) + seq_buffers(self.layer2@) + seq_buffers(self.layer3@)
            + seq_buffers(self.layer4@)
    }

    /// A graph that holds the network's tensors and buffers holds the network.
    pub proof fn lemma_shapes_wf_in(&self, g: Graph)
        requires
            shapes_hold(g, self.shapes()),
            buffers_hold(g, self.buffers()),
        ensures
            self.wf_in(g),
    {
        let (c, n, f) = (self.conv1.shapes(), self.bn1.shapes(), self.fc.shapes());
        let (s1, s2, s3, s4) = (seq_shapes(self.layer1@), seq_shapes(self.layer2@), seq_shapes(self.layer3@), seq_shapes(self.layer4@));
        lemma_shapes_hold_concat(g, c + n + s1 + s2 + s3 + s4, f);
        lemma_shapes_hold_concat(g, c + n + s1 + s2 + s3, s4);
        lemma_shapes_hold_concat(g, c + n + s1 + s2, s3);
        lemma_shapes_hold_concat(g, c + n + s1, s2);
        lemma_shapes_hold_concat(g, c + n, s1);
        lemma_shapes_hold_concat(g, c, n);
        let (b0, b1, b2, b3, b4) = (self.bn1.buffers(), seq_buffers(self.layer1@), seq_buffers(self.layer2@), seq_buffers(self.layer3@), seq_buffers(self.layer4@));
        lemma_buffers_hold_concat(g, b0 + b1 + b2 + b3, b4);
        lemma_buffers_hold_concat(g, b0 + b1 + b2, b3);
        lemma_buffers_hold_concat(g, b0 + b1, b2);
        lemma_buffers_hold_concat(g, b0, b1);
        self.conv1.lemma_wf_in_shapes(g);
        self.fc.lemma_wf_in_shapes(g);
        lemma_stage_shapes_wf(g, self.layer1@);
        lemma_stage_shapes_wf(g, self.layer2@);
        lemma_stage_shapes_wf(g, self.layer3@);
        lemma_stage_shapes_wf(g, self.layer4@);
    }
}

/// A stage whose tensors and buffers hold lives in `g`.
proof fn lemma_stage_shapes_wf(g: Graph, blocks: Seq<ResBlock>)
    requires
        shapes_hold(g, seq_shapes(blocks)),
        buffers_hold(g, seq_buffers(blocks)),
    ensures
        stage_wf(blocks, g),
{
    lemma_seq_shapes_hold(g, blocks);
    lemma_seq_buffers_hold(g, blocks);
    assert forall|k: int| 0 <= k < blocks.len() implies (#[trigger] blocks[k]).wf_in(g) by {
        assert(shapes_hold(g, blocks[k].tensor_shapes()));
        assert(buffers_hold(g, blocks[k].buffer_shapes()));
        blocks[k].lemma_shapes_wf_in(g);
    }
}

impl Module for ResNet {
    open spec fn mode_is(&self, training: bool) -> bool {
        &&& self.bn1.is_training == training
        &&& stage_in_mode(self.layer1@, training) == self.layer1@
        &&& stage_in_mode(self.layer2@, training) == self.layer2@
        &&& stage_in_mode(self.layer3@, training) == self.layer3@
        &&& stage_in_mode(self.layer4@, training) == self.layer4@
    }

    open spec fn param_list(&self) -> Seq<Tensor> {
        self.param_seq()
    }

    open spec fn tensor_shapes(&self) -> Seq<(Tensor, Seq<usize>)> {
        self.shapes()
    }

    open spec fn buffer_shapes(&self) -> Seq<(usize, Seq<usize>)> {
        self.buffers()
    }

    /// Class scores for a batch of images (see [`ResNet::forward`]).
    fn forward(&self, g: &mut Graph, input: &Tensor) -> (r: Result<Tensor, EngineError>)
        ensures
            final(g).buffers@.len() == old(g).buffers@.len(),
            self.evaluating() ==> final(g).buffers == old(g).buffers,
            r is Ok <==> self.accepts(input.shape_of(*old(g))),
            r matches Ok(t) ==> t.shape_of(*final(g)) == self.out_shape(input.shape_of(*old(g))),
    {
        proof {
            self.lemma_shapes_wf_in(*g);
        }
        ResNet::forward(self, g, input)
    }

    fn parameters(&self) -> (r: Vec<Tensor>) {
        let mut params: Vec<Tensor> = Vec::new();
        push_conv_bn(&mut params, &self.conv1, &self.bn1);
        let ghost p0 = params@;
        let mut s1 = crate::nn::module::seq_parameters(&self.layer1);
        let ghost q1 = s1@;
        params.append(&mut s1);
        let mut s2 = crate::nn::module::seq_parameters(&self.layer2);
        let ghost q2 = s2@;
        params.append(&mut s2);
        let mut s3 = crate::nn::module::seq_parameters(&self.layer3);
        let ghost q3 = s3@;
        params.append(&mut s3);
        let mut s4 = crate::nn::module::seq_parameters(&self.layer4);
        let ghost q4 = s4@;
        params.append(&mut s4);
        let mut fp = self.fc.parameters();
        let ghost q5 = fp@;
        params.append(&mut fp);
        proof {
            assert(params@ =~= p0 + q1 + q2 + q3 + q4 + q5);
            assert(params@ =~= self.param_seq());
            assert forall|g: Graph| #[trigger] shapes_hold(g, self.tensor_shapes()) implies forall|k: int| 0 <= k < params@.len() ==> (#[trigger] params@[k]).valid(g) by {
                let (c, n, f) = (self.conv1.shapes(), self.bn1.shapes(), self.fc.shapes());
                let (t1, t2, t3, t4) = (seq_shapes(self.layer1@), seq_shapes(self.layer2@), seq_shapes(self.layer3@), seq_shapes(self.layer4@));
                lemma_shapes_hold_concat(g, c + n + t1 + t2 + t3 + t4, f);
                lemma_shapes_hold_concat(g, c + n + t1 + t2 + t3, t4);
                lemma_shapes_hold_concat(g, c + n + t1 + t2, t3);
                lemma_shapes_hold_concat(g, c + n + t1, t2);
                lemma_shapes_hold_concat(g, c + n, t1);
                lemma_tensors_valid(g, c + n);
                self.fc.lemma_wf_in_shapes(g);
                assert forall|k: int| 0 <= k < params@.len() implies (#[trigger] params@[k]).valid(g) by {
                    let a = p0.len();
                    let b = a + q1.len();
                    let cc = b + q2.len();
                    let d = cc + q3.len();
                    let e = d + q4.len();
                    if k < a {
                        assert(params@[k] == tensors_of(c + n)[k]);
                    } else if k < b {
                        assert(params@[k] == q1[k - a]);
                    } else if k < cc {
                        assert(params@[k] == q2[k - b]);
                    } else if k < d {
                        assert(params@[k] == q3[k - cc]);
                    } else if k < e {
                        assert(params@[k] == q4[k - d]);
                    } else {
                        assert(params@[k] == q5[k - e]);
                        assert(q5 == self.fc.param_seq());
                    }
                }
            }
        }
        params
    }

    /// Switches every batch normalization to training mode (see [`ResNet::train`]).
    fn train(&mut self)
        ensures
            final(self).bn1 == bn_in_mode(old(self).bn1, true),
            final(self).layer1@ == stage_in_mode(old(self).layer1@, true),
            final(self).layer2@ == stage_in_mode(old(self).layer2@, true),
            final(self).layer3@ == stage_in_mode(old(self).layer3@, true),
            final(self).layer4@ == stage_in_mode(old(self).layer4@, true),
            final(self).conv1 == old(self).conv1 && final(self).fc == old(self).fc,
    {
        ResNet::train(self);
        proof {
            lemma_stage_in_mode_keeps(old(self).layer1@, true);
            lemma_stage_in_mode_keeps(old(self).layer2@, true);
            lemma_stage_in_mode_keeps(old(self).layer3@, true);
            lemma_stage_in_mode_keeps(old(self).layer4@, true);
        }
    }

    /// Switches every batch normalization to evaluation mode (see [`ResNet::eval`]).
    fn eval(&mut self)
        ensures
            final(self).bn1 == bn_in_mode(old(self).bn1, false),
            final(self).layer1@ == stage_in_mode(old(self).layer1@, false),
            final(self).layer2@ == stage_in_mode(old(self).layer2@, false),
            final(self).layer3@ == stage_in_mode(old(self).layer3@, false),
            final(self).layer4@ == stage_in_mode(old(self).layer4@, false),
            final(self).conv1 == old(self).conv1 && final(self).fc == old(self).fc,
    {
        ResNet::eval(self);
        proof {
            lemma_stage_in_mode_keeps(old(self).layer1@, false);
            lemma_stage_in_mode_keeps(old(self).layer2@, false);
            lemma_stage_in_mode_keeps(old(self).layer3@, false);
            lemma_stage_in_mode_keeps(old(self).layer4@, false);
        }
    }
}

} // verus!
