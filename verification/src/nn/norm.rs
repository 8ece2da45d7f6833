//! Normalization layers: layer normalization and RMS normalization over the last dimension,
//! and batch normalization of `[batch, features]` and `[batch, channels, height, width]`
//! inputs with running statistics held in graph buffers.

use vstd::prelude::*;
use crate::autograd::node::{Graph, LeafInit, Op};
use crate::autograd::tensor::{Tensor, leaf_recorded, recorded, lemma_reads_extend, lemma_reads_self, lemma_reads_through, lemma_reads_trans, reads};
use crate::error::EngineError;
use crate::nn::module::{Module, buffers_hold, shapes_hold};
use crate::shape::{lemma_broadcast_collapsed, lemma_broadcast_suffix, shape1, shape2, shape4};

verus! {

/// Bit pattern of the `f32` `2.0`: the exponent of a square.
pub const SQUARE_BITS: u32 = 0x4000_0000;
/// Bit pattern of the `f32` `0.5`: the exponent of a square root.
pub const SQRT_BITS: u32 = 0x3f00_0000;
/// Bit pattern of the `f32` `1e-5`, the default `eps` of layer and batch normalization.
pub const EPS_1E5_BITS: u32 = 0x3727_c5ac;
/// Bit pattern of the `f32` `1e-6`, the default `eps` of RMS normalization.
pub const EPS_1E6_BITS: u32 = 0x3586_37bd;
/// Bit pattern of the `f32` `0.1`, the default momentum of running statistics.
pub const MOMENTUM_BITS: u32 = 0x3dcc_cccd;

/// The error of a normalization over the last dimension (of size `dim`) applied to shape `x`:
/// `InvalidArgument` for a scalar, else `ShapeMismatch` of `[dim]` against the last dimension.
pub open spec fn last_dim_error(e: EngineError, x: Seq<usize>, dim: usize) -> bool {
    if x.len() == 0 {
        e is InvalidArgument
    } else {
        e matches EngineError::ShapeMismatch { expected, actual }
            && expected@ == seq![dim] && actual@ == seq![x[x.len() - 1]]
    }
}

/// The error of a batch normalization of `features` features expecting rank `rank`, applied to
/// shape `x`: `InvalidArgument` for another rank, else `ShapeMismatch` of `[features]` against
/// dimension 1.
pub open spec fn batch_norm_error(e: EngineError, x: Seq<usize>, rank: nat, features: usize) -> bool {
    if x.len() != rank {
        e is InvalidArgument
    } else {
        e matches EngineError::ShapeMismatch { expected, actual }
            && expected@ == seq![features] && actual@ == seq![x[1]]
    }
}

/// Checks that `x` has a last dimension of size `dim`.
fn check_last_dim(x: &Vec<usize>, dim: usize, name: &str) -> (r: Result<usize, EngineError>)
    ensures
        r is Ok <==> x@.len() >= 1 && x@[x@.len() - 1] == dim,
        r matches Ok(a) ==> a == x@.len() - 1,
        r matches Err(e) ==> last_dim_error(e, x@, dim),
{
    if x.len() == 0 {
        return Err(EngineError::InvalidArgument(
            "normalization cannot be applied to a 0-D scalar tensor".to_string(),
        ));
    }
    let last = x[x.len() - 1];
    if last != dim {
        return Err(EngineError::ShapeMismatch { expected: shape1(dim), actual: shape1(last) });
    }
    Ok(x.len() - 1)
}

/// Layer normalization over the last dimension:
/// `y = (x - mean) / sqrt(var + eps) * weight + bias`.
#[derive(Clone, Copy)]
pub struct LayerNorm {
    pub normalized_dim: usize,
    pub weight: Tensor,
    pub bias: Tensor,
    /// Bit pattern of the `f32` `eps`.
    pub eps_bits: u32,
}

/// Node `o` of `g` is layer normalization of node `x` over axis `axis` with the parameters of
/// `ln`: `o = n * weight + bias` with `n = d / s`, where `d = x - mean(x)` is `x` centred on its
/// mean over `axis` (kept as an axis of size 1), and `s = (mean(d^2) + eps)^(1/2)` is the
/// standard deviation over that axis, `eps` being the constant with bit pattern `eps_bits`.
pub open spec fn layer_norm_structure(g: Graph, o: int, ln: LayerNorm, x: int, axis: usize) -> bool {
    let ins = |k: int| g.nodes@[k].inputs@;
    let sc = ins(o)[0] as int;
    let n = ins(sc)[0] as int;
    let d = ins(n)[0] as int;
    let s = ins(n)[1] as int;
    let m = ins(d)[1] as int;
    let ve = ins(s)[0] as int;
    let v = ins(ve)[0] as int;
    let sq = ins(v)[0] as int;
    &&& g.nodes@[o].op == Op::Add && ins(o).len() == 2 && ins(o)[1] == ln.bias.id
    &&& g.nodes@[sc].op == Op::Mul && ins(sc).len() == 2 && ins(sc)[1] == ln.weight.id
    &&& g.nodes@[n].op == Op::Div && ins(n).len() == 2
    &&& g.nodes@[d].op == Op::Sub && ins(d).len() == 2 && ins(d)[0] == x
    &&& g.nodes@[m].op == (Op::Mean { axis, keepdim: true }) && ins(m) == seq![x as usize]
    &&& g.nodes@[s].op == (Op::Powf { exponent_bits: SQRT_BITS }) && ins(s).len() == 1
    &&& g.nodes@[ve].op == Op::Add && ins(ve).len() == 2
    &&& g.nodes@[ins(ve)[1] as int].op == Op::Leaf(LeafInit::Constant { bits: ln.eps_bits })
    &&& g.nodes@[v].op == (Op::Mean { axis, keepdim: true }) && ins(v).len() == 1
    &&& g.nodes@[sq].op == (Op::Powf { exponent_bits: SQUARE_BITS }) && ins(sq) == seq![d as usize]
}

/// Recording more nodes keeps a layer normalization.
pub proof fn lemma_layer_norm_structure_extend(g1: Graph, g2: Graph, o: int, ln: LayerNorm, x: int, axis: usize)
    requires
        g1.wf(),
        0 <= o < g1.nodes@.len(),
        layer_norm_structure(g1, o, ln, x, axis),
        g1.extended_by(g2),
    ensures
        layer_norm_structure(g2, o, ln, x, axis),
{
    let ins = |k: int| g1.nodes@[k].inputs@;
    let sc = ins(o)[0] as int;
    assert(crate::autograd::node::node_wf(g1.nodes@[o], o));
    let n = ins(sc)[0] as int;
    assert(crate::autograd::node::node_wf(g1.nodes@[sc], sc));
    let d = ins(n)[0] as int;
    let s = ins(n)[1] as int;
    assert(crate::autograd::node::node_wf(g1.nodes@[n], n));
    let m = ins(d)[1] as int;
    assert(crate::autograd::node::node_wf(g1.nodes@[d], d));
    let ve = ins(s)[0] as int;
    assert(crate::autograd::node::node_wf(g1.nodes@[s], s));
    let v = ins(ve)[0] as int;
    let e = ins(ve)[1] as int;
    assert(crate::autograd::node::node_wf(g1.nodes@[ve], ve));
    let sq = ins(v)[0] as int;
    assert(crate::autograd::node::node_wf(g1.nodes@[v], v));
    assert(g2.nodes@[o] == g1.nodes@[o]);
    assert(g2.nodes@[sc] == g1.nodes@[sc]);
    assert(g2.nodes@[n] == g1.nodes@[n]);
    assert(g2.nodes@[d] == g1.nodes@[d]);
    assert(g2.nodes@[s] == g1.nodes@[s]);
    assert(g2.nodes@[m] == g1.nodes@[m]);
    assert(g2.nodes@[ve] == g1.nodes@[ve]);
    assert(g2.nodes@[e] == g1.nodes@[e]);
    assert(g2.nodes@[v] == g1.nodes@[v]);
    assert(g2.nodes@[sq] == g1.nodes@[sq]);
}

/// Layer normalization divides the centred input by the standard deviation: the node that the
/// weight scales is a division whose numerator is `x` minus its mean over `axis` and whose
/// denominator is a square root (power 1/2) of the mean of squares plus `eps`.
pub proof fn lemma_layer_norm_divides_by_std(g: Graph, o: int, ln: LayerNorm, x: int, axis: usize)
    requires
        layer_norm_structure(g, o, ln, x, axis),
    ensures
        ({
            let n = g.nodes@[g.nodes@[o].inputs@[0] as int].inputs@[0] as int;
            let d = g.nodes@[n].inputs@[0] as int;
            let s = g.nodes@[n].inputs@[1] as int;
            &&& g.nodes@[n].op == Op::Div
            &&& g.nodes@[d].op == Op::Sub && g.nodes@[d].inputs@[0] == x
            &&& g.nodes@[g.nodes@[d].inputs@[1] as int].op == (Op::Mean { axis, keepdim: true })
            &&& g.nodes@[s].op == (Op::Powf { exponent_bits: 0x3f00_0000 })
        }),
{
}

impl LayerNorm {
    /// The weight and bias live in `g`, each of shape `[normalized_dim]`.
    pub open spec fn wf_in(&self, g: Graph) -> bool {
        &&& self.weight.valid(g) && self.weight.shape_of(g) == seq![self.normalized_dim]
        &&& self.bias.valid(g) && self.bias.shape_of(g) == seq![self.normalized_dim]
    }

    /// The layer's tensors with their expected shapes.
    pub open spec fn shapes(&self) -> Seq<(Tensor, Seq<usize>)> {
        seq![(self.weight, seq![self.normalized_dim]), (self.bias, seq![self.normalized_dim])]
    }

    /// The layer accepts input of shape `x`: at least one dimension, the last `normalized_dim`.
    pub open spec fn accepts(&self, x: Seq<usize>) -> bool {
        x.len() >= 1 && x[x.len() - 1] == self.normalized_dim
    }

    /// `wf_in` says the same as the list of expected shapes.
    pub proof fn lemma_wf_in_shapes(&self, g: Graph)
        ensures
            self.wf_in(g) <==> shapes_hold(g, self.shapes()),
    {
        assert(self.shapes()[0].0 == self.weight && self.shapes()[1].0 == self.bias);
    }

    /// A layer with `eps = 1e-5`.
    pub fn new(g: &mut Graph, normalized_dim: usize) -> (r: LayerNorm)
        requires
            old(g).wf(),
        ensures
            final(g).wf(),
            old(g).extended_by(*final(g)),
            r.wf_in(*final(g)),
            r.normalized_dim == normalized_dim,
            r.eps_bits == EPS_1E5_BITS,
    {
        Self::with_eps(g, normalized_dim, EPS_1E5_BITS)
    }

    /// A layer with the given `eps`: weight of ones and bias of zeros, both learnable.
    pub fn with_eps(g: &mut Graph, normalized_dim: usize, eps_bits: u32) -> (r: LayerNorm)
        requires
            old(g).wf(),
        ensures
            final(g).wf(),
            old(g).extended_by(*final(g)),
            r.wf_in(*final(g)),
            r.normalized_dim == normalized_dim,
            r.eps_bits == eps_bits,
            final(g).nodes@[r.weight.id as int].op == Op::Leaf(LeafInit::Ones),
            final(g).nodes@[r.weight.id as int].requires_grad,
            final(g).nodes@[r.bias.id as int].op == Op::Leaf(LeafInit::Zeros),
            final(g).nodes@[r.bias.id as int].requires_grad,
    {
        let s = shape1(normalized_dim);
        let weight = Tensor::ones(g, s.as_slice(), true);
        let ghost g1 = *g;
        let bias = Tensor::zeros(g, s.as_slice(), true);
        assert(g.nodes@[weight.id as int] == g1.nodes@[weight.id as int]);
        LayerNorm { normalized_dim, weight, bias, eps_bits }
    }

    /// Normalizes `input` over its last dimension. Refused, recording nothing, for a scalar
    /// (`InvalidArgument`) or a last dimension other than `normalized_dim` (`ShapeMismatch`);
    /// otherwise the result has the input's shape and is the sum of the scaled values and the bias.
    pub fn forward_norm(&self, g: &mut Graph, input: &Tensor) -> (r: Result<Tensor, EngineError>)
        requires
            old(g).wf(),
            self.wf_in(*old(g)),
            input.valid(*old(g)),
        ensures
            final(g).wf(),
            old(g).extended_by(*final(g)),
            r is Ok <==> self.accepts(input.shape_of(*old(g))),
            r matches Ok(t) ==> t.valid(*final(g)) && t.shape_of(*final(g)) == input.shape_of(*old(g))
                && final(g).nodes@[t.id as int].op == Op::Add
                && final(g).nodes@[t.id as int].inputs@[1] == self.bias.id,
            r matches Ok(t) ==> reads(*final(g), t.id as int, input.id as int),
            r matches Ok(t) ==> layer_norm_structure(*final(g), t.id as int, *self, input.id as int,
                (input.shape_of(*old(g)).len() - 1) as usize),
            r matches Err(e) ==> *final(g) == *old(g) && last_dim_error(e, input.shape_of(*old(g)), self.normalized_dim),
    {
        let ghost g0 = *g;
        let x = input.shape(g);
        let axis = match check_last_dim(&x, self.normalized_dim, "LayerNorm") {
            Ok(a) => a,
            Err(e) => {
                return Err(e);
            },
        };
        let ghost xs = x@;
        let ghost red = xs.update(axis as int, 1);
        proof {
            lemma_broadcast_collapsed(xs, red);
            assert(seq![self.normalized_dim] =~= xs.subrange(xs.len() - 1, xs.len() as int));
            lemma_broadcast_suffix(xs, seq![self.normalized_dim]);
        }
        let mean = match input.mean(g, axis, true) {
            Ok(t) => t,
            Err(e) => {
                return Err(e);
            },
        };
        let ghost g1 = *g;
        assert(g1.nodes@[input.id as int] == g0.nodes@[input.id as int]);
        let diff = match input.sub(g, &mean) {
            Ok(t) => t,
            Err(e) => {
                return Err(e);
            },
        };
        let ghost g2 = *g;
        let diff_sq = match diff.powf(g, SQUARE_BITS) {
            Ok(t) => t,
            Err(e) => {
                return Err(e);
            },
        };
        let ghost g3 = *g;
        let var = match diff_sq.mean(g, axis, true) {
            Ok(t) => t,
            Err(e) => {
                return Err(e);
            },
        };
        let ghost g4 = *g;
        let var_eps = match var.add_scalar(g, self.eps_bits) {
            Ok(t) => t,
            Err(e) => {
                return Err(e);
            },
        };
        let ghost g5 = *g;
        let std = match var_eps.powf(g, SQRT_BITS) {
            Ok(t) => t,
            Err(e) => {
                return Err(e);
            },
        };
        let ghost g6 = *g;
        assert(g6.nodes@[diff.id as int] == g2.nodes@[diff.id as int]);
        let norm = match diff.div(g, &std) {
            Ok(t) => t,
            Err(e) => {
                return Err(e);
            },
        };
        let ghost g7 = *g;
        assert(g7.nodes@[self.weight.id as int] == g0.nodes@[self.weight.id as int]);
        let scaled = match norm.mul(g, &self.weight) {
            Ok(t) => t,
            Err(e) => {
                return Err(e);
            },
        };
        let ghost g8 = *g;
        assert(g8.nodes@[self.bias.id as int] == g0.nodes@[self.bias.id as int]);
        let out = scaled.add(g, &self.bias);
        proof {
            g0.lemma_extended_trans(g1, g2);
            g0.lemma_extended_trans(g2, g3);
            g0.lemma_extended_trans(g3, g4);
            g0.lemma_extended_trans(g4, g5);
            g0.lemma_extended_trans(g5, g6);
            g0.lemma_extended_trans(g6, g7);
            g0.lemma_extended_trans(g7, g8);
            g0.lemma_extended_trans(g8, *g);
            if let Ok(o) = out {
                lemma_reads_self(g1, input.id as int);
                lemma_reads_through(g1, g2, diff.id as int, 0, input.id as int);
                g2.lemma_extended_trans(g3, g4);
                g2.lemma_extended_trans(g4, g5);
                g2.lemma_extended_trans(g5, g6);
                lemma_reads_extend(g2, g6, diff.id as int, input.id as int);
                lemma_reads_through(g6, g7, norm.id as int, 0, input.id as int);
                lemma_reads_through(g7, g8, scaled.id as int, 0, input.id as int);
                lemma_reads_through(g8, *g, o.id as int, 0, input.id as int);
                let gz = *g;
                g1.lemma_extended_trans(g2, gz);
                g2.lemma_extended_trans(g3, gz);
                g3.lemma_extended_trans(g4, gz);
                g4.lemma_extended_trans(g5, gz);
                g5.lemma_extended_trans(g6, gz);
                g6.lemma_extended_trans(g7, gz);
                g7.lemma_extended_trans(g8, gz);
                g0.lemma_extended_trans(g1, gz);
                let eps_leaf = Tensor { id: g4.nodes@.len() as usize };
                let mid = choose|mid: Graph| #[trigger] leaf_recorded(g4, mid, eps_leaf, Seq::<usize>::empty(),
                    LeafInit::Constant { bits: self.eps_bits }, false) && recorded(mid, g5, var_eps, var.shape_of(g4), seq![var.id, eps_leaf.id]);
                mid.lemma_extended_trans(g5, gz);
                assert(gz.nodes@[eps_leaf.id as int] == mid.nodes@[eps_leaf.id as int]);
                assert(gz.nodes@[mean.id as int] == g1.nodes@[mean.id as int]);
                assert(gz.nodes@[diff.id as int] == g2.nodes@[diff.id as int]);
                assert(gz.nodes@[diff_sq.id as int] == g3.nodes@[diff_sq.id as int]);
                assert(gz.nodes@[var.id as int] == g4.nodes@[var.id as int]);
                assert(gz.nodes@[var_eps.id as int] == g5.nodes@[var_eps.id as int]);
                assert(gz.nodes@[std.id as int] == g6.nodes@[std.id as int]);
                assert(gz.nodes@[norm.id as int] == g7.nodes@[norm.id as int]);
                assert(gz.nodes@[scaled.id as int] == g8.nodes@[scaled.id as int]);
            }
        }
        out
    }
}

impl Module for LayerNorm {
    open spec fn mode_is(&self, training: bool) -> bool {
        true
    }

    open spec fn param_list(&self) -> Seq<Tensor> {
        crate::nn::module::tensors_of(self.tensor_shapes())
    }

    open spec fn tensor_shapes(&self) -> Seq<(Tensor, Seq<usize>)> {
        self.shapes()
    }

    open spec fn buffer_shapes(&self) -> Seq<(usize, Seq<usize>)> {
        Seq::empty()
    }

    /// Normalizes over the last axis (see [`LayerNorm::forward_norm`]).
    fn forward(&self, g: &mut Graph, input: &Tensor) -> (r: Result<Tensor, EngineError>)
        ensures
            r is Ok <==> self.accepts(input.shape_of(*old(g))),
            r matches Ok(t) ==> t.shape_of(*final(g)) == input.shape_of(*old(g))
                && final(g).nodes@[t.id as int].op == Op::Add
                && final(g).nodes@[t.id as int].inputs@[1] == self.bias.id,
            r matches Err(e) ==> *final(g) == *old(g) && last_dim_error(e, input.shape_of(*old(g)), self.normalized_dim),
    {
        assert(self.shapes()[0].0 == self.weight && self.shapes()[1].0 == self.bias);
        self.forward_norm(g, input)
    }

    fn parameters(&self) -> (r: Vec<Tensor>)
        ensures
            r@ == seq![self.weight, self.bias],
    {
        let mut v: Vec<Tensor> = Vec::new();
        v.push(self.weight);
        v.push(self.bias);
        proof {
            assert forall|g: Graph| #[trigger] shapes_hold(g, self.tensor_shapes()) implies forall|k: int| 0 <= k < v@.len() ==> (#[trigger] v@[k]).valid(g) by {
                assert(self.shapes()[0].0 == self.weight && self.shapes()[1].0 == self.bias);
            }
        }
        v
    }

    /// Nothing switches between training and evaluation.
    fn train(&mut self) {
    }

    /// Nothing switches between training and evaluation.
    fn eval(&mut self) {
    }
}

/// RMS normalization over the last dimension: `y = x / sqrt(mean(x^2) + eps) * weight`.
#[derive(Clone, Copy)]
pub struct RMSNorm {
    pub normalized_dim: usize,
    pub weight: Tensor,
    /// Bit pattern of the `f32` `eps`.
    pub eps_bits: u32,
}

/// Node `o` of `g` is RMS normalization of node `x` over axis `axis` with the weight of `rms`:
/// `o = (x / r) * weight`, where `r = (mean(x^2) + eps)^(1/2)` over that axis (kept as an axis of
/// size 1), `eps` being the constant with bit pattern `eps_bits`.
pub open spec fn rms_norm_structure(g: Graph, o: int, rms: RMSNorm, x: int, axis: usize) -> bool {
    let ins = |k: int| g.nodes@[k].inputs@;
    let n = ins(o)[0] as int;
    let r = ins(n)[1] as int;
    let me = ins(r)[0] as int;
    let m = ins(me)[0] as int;
    let sq = ins(m)[0] as int;
    &&& g.nodes@[o].op == Op::Mul && ins(o).len() == 2 && ins(o)[1] == rms.weight.id
    &&& g.nodes@[n].op == Op::Div && ins(n).len() == 2 && ins(n)[0] == x
    &&& g.nodes@[r].op == (Op::Powf { exponent_bits: SQRT_BITS }) && ins(r).len() == 1
    &&& g.nodes@[me].op == Op::Add && ins(me).len() == 2
    &&& g.nodes@[ins(me)[1] as int].op == Op::Leaf(LeafInit::Constant { bits: rms.eps_bits })
    &&& g.nodes@[m].op == (Op::Mean { axis, keepdim: true }) && ins(m).len() == 1
    &&& g.nodes@[sq].op == (Op::Powf { exponent_bits: SQUARE_BITS }) && ins(sq) == seq![x as usize]
}

/// RMS normalization divides the input itself (not centred) by the root of the mean of its
/// squares plus `eps`, then scales by the weight.
pub proof fn lemma_rms_norm_divides_by_root(g: Graph, o: int, rms: RMSNorm, x: int, axis: usize)
    requires
        rms_norm_structure(g, o, rms, x, axis),
    ensures
        ({
            let n = g.nodes@[o].inputs@[0] as int;
            let r = g.nodes@[n].inputs@[1] as int;
            &&& g.nodes@[o].op == Op::Mul
            &&& g.nodes@[n].op == Op::Div && g.nodes@[n].inputs@[0] == x
            &&& g.nodes@[r].op == (Op::Powf { exponent_bits: 0x3f00_0000 })
        }),
{
}

impl RMSNorm {
    /// The weight lives in `g` with shape `[normalized_dim]`.
    pub open spec fn wf_in(&self, g: Graph) -> bool {
        self.weight.valid(g) && self.weight.shape_of(g) == seq![self.normalized_dim]
    }

    /// The layer accepts input of shape `x`: at least one dimension, the last `normalized_dim`.
    pub open spec fn accepts(&self, x: Seq<usize>) -> bool {
        x.len() >= 1 && x[x.len() - 1] == self.normalized_dim
    }

    /// A layer with `eps = 1e-6`.
    pub fn new(g: &mut Graph, normalized_dim: usize) -> (r: RMSNorm)
        requires
            old(g).wf(),
        ensures
            final(g).wf(),
            old(g).extended_by(*final(g)),
            r.wf_in(*final(g)),
            r.normalized_dim == normalized_dim,
            r.eps_bits == EPS_1E6_BITS,
    {
        Self::with_eps(g, normalized_dim, EPS_1E6_BITS)
    }

    /// A layer with the given `eps` and a learnable weight of ones.
    pub fn with_eps(g: &mut Graph, normalized_dim: usize, eps_bits: u32) -> (r: RMSNorm)
        requires
            old(g).wf(),
        ensures
            final(g).wf(),
            old(g).extended_by(*final(g)),
            r.wf_in(*final(g)),
            r.normalized_dim == normalized_dim,
            r.eps_bits == eps_bits,
            final(g).nodes@[r.weight.id as int].op == Op::Leaf(LeafInit::Ones),
            final(g).nodes@[r.weight.id as int].requires_grad,
    {
        let s = shape1(normalized_dim);
        let weight = Tensor::ones(g, s.as_slice(), true);
        RMSNorm { normalized_dim, weight, eps_bits }
    }

    /// Normalizes `input` by the root mean square of its last dimension. Refused, recording
    /// nothing, for a scalar (`InvalidArgument`) or a last dimension other than
    /// `normalized_dim` (`ShapeMismatch`); otherwise the result has the input's shape and is
    /// the product of the normalized values and the weight.
    pub fn forward_norm(&self, g: &mut Graph, input: &Tensor) -> (r: Result<Tensor, EngineError>)
        requires
            old(g).wf(),
            self.wf_in(*old(g)),
            input.valid(*old(g)),
        ensures
            final(g).wf(),
            old(g).extended_by(*final(g)),
            r is Ok <==> self.accepts(input.shape_of(*old(g))),
            r matches Ok(t) ==> t.valid(*final(g)) && t.shape_of(*final(g)) == input.shape_of(*old(g))
                && final(g).nodes@[t.id as int].op == Op::Mul
                && final(g).nodes@[t.id as int].inputs@[1] == self.weight.id,
            r matches Ok(t) ==> reads(*final(g), t.id as int, input.id as int),
            r matches Ok(t) ==> rms_norm_structure(*final(g), t.id as int, *self, input.id as int,
                (input.shape_of(*old(g)).len() - 1) as usize),
            r matches Err(e) ==> *final(g) == *old(g) && last_dim_error(e, input.shape_of(*old(g)), self.normalized_dim),
    {
        let ghost g0 = *g;
        let x = input.shape(g);
        let axis = match check_last_dim(&x, self.normalized_dim, "RMSNorm") {
            Ok(a) => a,
            Err(e) => {
                return Err(e);
            },
        };
        let ghost xs = x@;
        proof {
            lemma_broadcast_collapsed(xs, xs.update(axis as int, 1));
            assert(seq![self.normalized_dim] =~= xs.subrange(xs.len() - 1, xs.len() as int));
            lemma_broadcast_suffix(xs, seq![self.normalized_dim]);
        }
        let sq = match input.powf(g, SQUARE_BITS) {
            Ok(t) => t,
            Err(e) => {
                return Err(e);
            },
        };
        let ghost g1 = *g;
        let mean_sq = match sq.mean(g, axis, true) {
            Ok(t) => t,
            Err(e) => {
                return Err(e);
            },
        };
        let ghost g2 = *g;
        let mean_eps = match mean_sq.add_scalar(g, self.eps_bits) {
            Ok(t) => t,
            Err(e) => {
                return Err(e);
            },
        };
        let ghost g3 = *g;
        let rrms = match mean_eps.powf(g, SQRT_BITS) {
            Ok(t) => t,
            Err(e) => {
                return Err(e);
            },
        };
        let ghost g4 = *g;
        assert(g4.nodes@[input.id as int] == g0.nodes@[input.id as int]);
        let norm = match input.div(g, &rrms) {
            Ok(t) => t,
            Err(e) => {
                return Err(e);
            },
        };
        let ghost g5 = *g;
        assert(g5.nodes@[self.weight.id as int] == g0.nodes@[self.weight.id as int]);
        let out = norm.mul(g, &self.weight);
        proof {
            g0.lemma_extended_trans(g1, g2);
            g0.lemma_extended_trans(g2, g3);
            g0.lemma_extended_trans(g3, g4);
            g0.lemma_extended_trans(g4, g5);
            g0.lemma_extended_trans(g5, *g);
            if let Ok(o) = out {
                lemma_reads_self(g4, input.id as int);
                lemma_reads_through(g4, g5, norm.id as int, 0, input.id as int);
                lemma_reads_through(g5, *g, o.id as int, 0, input.id as int);
                let gz = *g;
                g1.lemma_extended_trans(g2, gz);
                g2.lemma_extended_trans(g3, gz);
                g3.lemma_extended_trans(g4, gz);
                g4.lemma_extended_trans(g5, gz);
                let eps_leaf = Tensor { id: g2.nodes@.len() as usize };
                let mid = choose|mid: Graph| #[trigger] leaf_recorded(g2, mid, eps_leaf, Seq::<usize>::empty(),
                    LeafInit::Constant { bits: self.eps_bits }, false) && recorded(mid, g3, mean_eps, mean_sq.shape_of(g2), seq![mean_sq.id, eps_leaf.id]);
                mid.lemma_extended_trans(g3, gz);
                assert(gz.nodes@[eps_leaf.id as int] == mid.nodes@[eps_leaf.id as int]);
                assert(gz.nodes@[sq.id as int] == g1.nodes@[sq.id as int]);
                assert(gz.nodes@[mean_sq.id as int] == g2.nodes@[mean_sq.id as int]);
                assert(gz.nodes@[mean_eps.id as int] == g3.nodes@[mean_eps.id as int]);
                assert(gz.nodes@[rrms.id as int] == g4.nodes@[rrms.id as int]);
                assert(gz.nodes@[norm.id as int] == g5.nodes@[norm.id as int]);
            }
        }
        out
    }
}

impl Module for RMSNorm {
    open spec fn mode_is(&self, training: bool) -> bool {
        true
    }

    open spec fn param_list(&self) -> Seq<Tensor> {
        crate::nn::module::tensors_of(self.tensor_shapes())
    }

    open spec fn tensor_shapes(&self) -> Seq<(Tensor, Seq<usize>)> {
        seq![(self.weight, seq![self.normalized_dim])]
    }

    open spec fn buffer_shapes(&self) -> Seq<(usize, Seq<usize>)> {
        Seq::empty()
    }

    /// Scales by the root mean square over the last axis (see [`RMSNorm::forward_norm`]).
    fn forward(&self, g: &mut Graph, input: &Tensor) -> (r: Result<Tensor, EngineError>)
        ensures
            r is Ok <==> self.accepts(input.shape_of(*old(g))),
            r matches Ok(t) ==> t.shape_of(*final(g)) == input.shape_of(*old(g))
                && final(g).nodes@[t.id as int].op == Op::Mul
                && final(g).nodes@[t.id as int].inputs@[1] == self.weight.id,
            r matches Err(e) ==> *final(g) == *old(g) && last_dim_error(e, input.shape_of(*old(g)), self.normalized_dim),
    {
        assert(self.tensor_shapes()[0].0 == self.weight);
        self.forward_norm(g, input)
    }

    fn parameters(&self) -> (r: Vec<Tensor>)
        ensures
            r@ == seq![self.weight],
    {
        let mut v: Vec<Tensor> = Vec::new();
        v.push(self.weight);
        proof {
            assert forall|g: Graph| #[trigger] shapes_hold(g, self.tensor_shapes()) implies forall|k: int| 0 <= k < v@.len() ==> (#[trigger] v@[k]).valid(g) by {
                assert(self.tensor_shapes()[0].0 == self.weight);
            }
        }
        v
    }

    /// Nothing switches between training and evaluation.
    fn train(&mut self) {
    }

    /// Nothing switches between training and evaluation.
    fn eval(&mut self) {
    }
}

/// Shape of the per-channel statistics, weight and bias of a batch normalization of
/// `features` features over inputs of rank `rank`: `[1, features]` for rank 2, else
/// `[1, features, 1, 1]`.
pub open spec fn stats_shape(rank: nat, features: usize) -> Seq<usize> {
    if rank == 2 {
        seq![1usize, features]
    } else {
        seq![1usize, features, 1usize, 1usize]
    }
}

/// Buffer `slot` of `new` holds a fresh node: a moving average with momentum `momentum_bits`.
pub open spec fn stats_moved(old: Graph, new: Graph, slot: usize, momentum_bits: u32) -> bool {
    let id = new.buffers@[slot as int];
    &&& old.nodes@.len() <= id < new.nodes@.len()
    &&& new.nodes@[id as int].op == Op::MovingAverage { momentum_bits }
}

/// Buffer `slot` of `new` holds a fresh node: the moving average, with momentum
/// `momentum_bits`, of the node the buffer held in `old` and a batch statistic.
pub open spec fn stats_updated(old: Graph, new: Graph, slot: usize, momentum_bits: u32) -> bool {
    &&& stats_moved(old, new, slot, momentum_bits)
    &&& new.nodes@[new.buffers@[slot as int] as int].inputs@[0] == old.buffers@[slot as int]
}

/// The buffers of `new` are those of `old`, except that training moved the two statistics
/// (when both share one buffer, it holds the second update).
pub open spec fn stats_step(old: Graph, new: Graph, mean_slot: usize, var_slot: usize, momentum_bits: u32, training: bool) -> bool {
    if training {
        &&& new.buffers@.len() == old.buffers@.len()
        &&& forall|b: int| 0 <= b < old.buffers@.len() && b != mean_slot && b != var_slot ==> #[trigger] new.buffers@[b] == old.buffers@[b]
        &&& mean_slot != var_slot ==> stats_updated(old, new, mean_slot, momentum_bits) && stats_updated(old, new, var_slot, momentum_bits)
        &&& stats_moved(old, new, var_slot, momentum_bits)
    } else {
        new.buffers == old.buffers
    }
}

/// Mean over every axis but the channel axis 1, keeping the axes.
fn batch_mean(g: &mut Graph, t: &Tensor, four: bool) -> (r: Tensor)
    requires
        old(g).wf(),
        t.valid(*old(g)),
        t.shape_of(*old(g)).len() == (if four { 4nat } else { 2nat }),
    ensures
        final(g).wf(),
        old(g).extended_by(*final(g)),
        final(g).buffers == old(g).buffers,
        r.valid(*final(g)),
        r.shape_of(*final(g)) == stats_shape(if four { 4nat } else { 2nat }, t.shape_of(*old(g))[1]),
        final(g).nodes@[r.id as int].op == (Op::Mean { axis: 0, keepdim: true }),
        reads(*final(g), r.id as int, t.id as int),
{
    let ghost g0 = *g;
    let ghost x = t.shape_of(*g);
    if four {
        let m_w = match t.mean(g, 3, true) {
            Ok(m) => m,
            Err(_) => {
                assert(false);
                return *t;
            },
        };
        let ghost g1 = *g;
        let m_hw = match m_w.mean(g, 2, true) {
            Ok(m) => m,
            Err(_) => {
                assert(false);
                return *t;
            },
        };
        let ghost g2 = *g;
        let m = match m_hw.mean(g, 0, true) {
            Ok(m) => m,
            Err(_) => {
                assert(false);
                return *t;
            },
        };
        proof {
            assert(m.shape_of(*g) =~= seq![1usize, x[1], 1usize, 1usize]);
            g0.lemma_extended_trans(g1, g2);
            g0.lemma_extended_trans(g2, *g);
            lemma_reads_self(g0, t.id as int);
            lemma_reads_through(g0, g1, m_w.id as int, 0, t.id as int);
            lemma_reads_through(g1, g2, m_hw.id as int, 0, t.id as int);
            lemma_reads_through(g2, *g, m.id as int, 0, t.id as int);
        }
        m
    } else {
        let m = match t.mean(g, 0, true) {
            Ok(m) => m,
            Err(_) => {
                assert(false);
                return *t;
            },
        };
        assert(m.shape_of(*g) =~= seq![1usize, x[1]]);
        proof {
            lemma_reads_self(g0, t.id as int);
            lemma_reads_through(g0, *g, m.id as int, 0, t.id as int);
        }
        m
    }
}

/// Node `o` of `g` is batch normalization of node `x`: `o = n * weight + bias` with
/// `n = (x - m) / (v + eps)^(1/2)`, where in training `m` is a mean over the batch axis of `x`
/// and `v` one of the squares of `x - m`, and in evaluation `m` and `v` are the nodes that the
/// running-statistics buffers held before (`rm` and `rv`).
pub open spec fn batch_norm_structure(g: Graph, o: int, x: int, weight: Tensor, bias: Tensor, eps_bits: u32,
    training: bool, rm: int, rv: int) -> bool {
    let ins = |k: int| g.nodes@[k].inputs@;
    let sc = ins(o)[0] as int;
    let n = ins(sc)[0] as int;
    let d = ins(n)[0] as int;
    let s = ins(n)[1] as int;
    let m = ins(d)[1] as int;
    let ve = ins(s)[0] as int;
    let v = ins(ve)[0] as int;
    &&& g.nodes@[o].op == Op::Add && ins(o).len() == 2 && ins(o)[1] == bias.id
    &&& g.nodes@[sc].op == Op::Mul && ins(sc).len() == 2 && ins(sc)[1] == weight.id
    &&& g.nodes@[n].op == Op::Div && ins(n).len() == 2
    &&& g.nodes@[d].op == Op::Sub && ins(d).len() == 2 && ins(d)[0] == x
    &&& g.nodes@[s].op == (Op::Powf { exponent_bits: SQRT_BITS }) && ins(s).len() == 1
    &&& g.nodes@[ve].op == Op::Add && ins(ve).len() == 2
    &&& g.nodes@[ins(ve)[1] as int].op == Op::Leaf(LeafInit::Constant { bits: eps_bits })
    &&& if training {
        &&& g.nodes@[m].op == (Op::Mean { axis: 0, keepdim: true }) && reads(g, m, x)
        &&& g.nodes@[v].op == (Op::Mean { axis: 0, keepdim: true }) && reads(g, v, d)
    } else {
        m == rm && v == rv
    }
}

/// Batch normalization in evaluation mode normalizes with the running statistics that the
/// buffers held, and in training mode with a mean over the batch axis of the input itself;
/// either way the centred input is divided by the square root of the variance plus `eps`.
pub proof fn lemma_batch_norm_statistics(g: Graph, o: int, x: int, weight: Tensor, bias: Tensor, eps_bits: u32,
    training: bool, rm: int, rv: int)
    requires
        batch_norm_structure(g, o, x, weight, bias, eps_bits, training, rm, rv),
    ensures
        ({
            let n = g.nodes@[g.nodes@[o].inputs@[0] as int].inputs@[0] as int;
            let d = g.nodes@[n].inputs@[0] as int;
            let m = g.nodes@[d].inputs@[1] as int;
            &&& g.nodes@[n].op == Op::Div
            &&& g.nodes@[g.nodes@[n].inputs@[1] as int].op == (Op::Powf { exponent_bits: 0x3f00_0000 })
            &&& !training ==> m == rm
            &&& training ==> g.nodes@[m].op == (Op::Mean { axis: 0, keepdim: true }) && reads(g, m, x)
        }),
{
}

/// The forward pass of batch normalization once the input's shape is checked.
#[verifier::spinoff_prover]
#[verifier::rlimit(100)]
fn batch_norm_apply(
    g: &mut Graph,
    input: &Tensor,
    four: bool,
    weight: Tensor,
    bias: Tensor,
    mean_slot: usize,
    var_slot: usize,
    eps_bits: u32,
    momentum_bits: u32,
    training: bool,
) -> (r: Tensor)
    requires
        old(g).wf(),
        input.valid(*old(g)),
        input.shape_of(*old(g)).len() == (if four { 4nat } else { 2nat }),
        weight.valid(*old(g)) && weight.shape_of(*old(g)) == stats_shape(if four { 4nat } else { 2nat }, input.shape_of(*old(g))[1]),
        bias.valid(*old(g)) && bias.shape_of(*old(g)) == stats_shape(if four { 4nat } else { 2nat }, input.shape_of(*old(g))[1]),
        mean_slot < old(g).buffers@.len(),
        var_slot < old(g).buffers@.len(),
        old(g).buffer_shape(mean_slot as int) == stats_shape(if four { 4nat } else { 2nat }, input.shape_of(*old(g))[1]),
        old(g).buffer_shape(var_slot as int) == stats_shape(if four { 4nat } else { 2nat }, input.shape_of(*old(g))[1]),
    ensures
        final(g).wf(),
        old(g).extended_by(*final(g)),
        r.valid(*final(g)),
        r.shape_of(*final(g)) == input.shape_of(*old(g)),
        final(g).nodes@[r.id as int].op == Op::Add,
        final(g).nodes@[r.id as int].inputs@[1] == bias.id,
        stats_step(*old(g), *final(g), mean_slot, var_slot, momentum_bits, training),
        batch_norm_structure(*final(g), r.id as int, input.id as int, weight, bias, eps_bits, training,
            old(g).buffers@[mean_slot as int] as int, old(g).buffers@[var_slot as int] as int),
{
    let ghost g0 = *g;
    let ghost x = input.shape_of(*g);
    let ghost rank: nat = if four { 4nat } else { 2nat };
    let ghost st = stats_shape(rank, x[1]);
    proof {
        assert forall|i: int| 0 <= i < x.len() implies #[trigger] st[i] == x[i] || st[i] == 1 by {
            if four {
                assert(st == seq![1usize, x[1], 1usize, 1usize]);
            } else {
                assert(st == seq![1usize, x[1]]);
            }
        }
        lemma_broadcast_collapsed(x, st);
        crate::shape::lemma_broadcast_self(st);
    }
    let (diff, var) = if training {
        let mean = batch_mean(g, input, four);
        let ghost g1 = *g;
        assert(g1.nodes@[input.id as int] == g0.nodes@[input.id as int]);
        let diff = match input.sub(g, &mean) {
            Ok(t) => t,
            Err(_) => {
                assert(false);
                return *input;
            },
        };
        let ghost g2 = *g;
        let diff_sq = match diff.powf(g, SQUARE_BITS) {
            Ok(t) => t,
            Err(_) => {
                assert(false);
                return *input;
            },
        };
        let ghost g3 = *g;
        let var = batch_mean(g, &diff_sq, four);
        let ghost g4 = *g;
        proof {
            g0.lemma_extended_trans(g1, g2);
            g0.lemma_extended_trans(g2, g3);
            g0.lemma_extended_trans(g3, g4);
            assert(g4.nodes@[mean.id as int] == g1.nodes@[mean.id as int]);
            assert(g4.buffer_shape(mean_slot as int) == g0.buffer_shape(mean_slot as int));
            assert(g4.buffer_shape(var_slot as int) == g0.buffer_shape(var_slot as int));
        }
        let running_mean = Tensor { id: g.buffer(mean_slot) };
        let new_mean = match running_mean.moving_average(g, &mean, momentum_bits) {
            Ok(t) => t,
            Err(_) => {
                assert(false);
                return *input;
            },
        };
        let ghost g5 = *g;
        g.set_buffer(mean_slot, new_mean.id);
        let ghost g6 = *g;
        proof {
            g0.lemma_extended_trans(g4, g5);
            g0.lemma_extended_trans(g5, g6);
            assert(g6.buffer_shape(var_slot as int) == g0.buffer_shape(var_slot as int));
        }
        assert(g6.nodes@[var.id as int] == g4.nodes@[var.id as int]);
        let running_var = Tensor { id: g.buffer(var_slot) };
        assert(running_var.shape_of(g6) == st);
        let new_var = match running_var.moving_average(g, &var, momentum_bits) {
            Ok(t) => t,
            Err(_) => {
                assert(false);
                return *input;
            },
        };
        let ghost g7 = *g;
        g.set_buffer(var_slot, new_var.id);
        proof {
            g0.lemma_extended_trans(g6, g7);
            g0.lemma_extended_trans(g7, *g);
            assert(g.nodes@[diff.id as int] == g2.nodes@[diff.id as int]);
            assert(g.nodes@[var.id as int] == g4.nodes@[var.id as int]);
            assert(g.nodes@[new_mean.id as int] == g5.nodes@[new_mean.id as int]);
            if mean_slot != var_slot {
                assert(g.buffers@[mean_slot as int] == new_mean.id);
                assert(stats_updated(g0, *g, mean_slot, momentum_bits));
                assert(stats_updated(g0, *g, var_slot, momentum_bits));
            }
            assert(stats_moved(g0, *g, var_slot, momentum_bits));
            g1.lemma_extended_trans(g2, g4);
            g1.lemma_extended_trans(g4, *g);
            g4.lemma_extended_trans(g6, *g);
            lemma_reads_extend(g1, *g, mean.id as int, input.id as int);
            lemma_reads_self(g2, diff.id as int);
            lemma_reads_through(g2, g3, diff_sq.id as int, 0, diff.id as int);
            lemma_reads_extend(g3, g4, diff_sq.id as int, diff.id as int);
            lemma_reads_trans(g4, var.id as int, diff_sq.id as int, diff.id as int);
            lemma_reads_extend(g4, *g, var.id as int, diff.id as int);
            assert(g.nodes@[mean.id as int] == g1.nodes@[mean.id as int]);
        }
        (diff, var)
    } else {
        let running_mean = Tensor { id: g.buffer(mean_slot) };
        let diff = match input.sub(g, &running_mean) {
            Ok(t) => t,
            Err(_) => {
                assert(false);
                return *input;
            },
        };
        let ghost g1 = *g;
        let running_var = Tensor { id: g.buffer(var_slot) };
        assert(g1.nodes@[running_var.id as int] == g0.nodes@[running_var.id as int]);
        (diff, running_var)
    };
    let ghost ga = *g;
    let var_eps = match var.add_scalar(g, eps_bits) {
        Ok(t) => t,
        Err(_) => {
            assert(false);
            return *input;
        },
    };
    let ghost gb = *g;
    let std = match var_eps.powf(g, SQRT_BITS) {
        Ok(t) => t,
        Err(_) => {
            assert(false);
            return *input;
        },
    };
    let ghost gc = *g;
    assert(gc.nodes@[diff.id as int] == ga.nodes@[diff.id as int]);
    let norm = match diff.div(g, &std) {
        Ok(t) => t,
        Err(_) => {
            assert(false);
            return *input;
        },
    };
    let ghost gd = *g;
    assert(gd.nodes@[weight.id as int] == g0.nodes@[weight.id as int]);
    let scaled = match norm.mul(g, &weight) {
        Ok(t) => t,
        Err(_) => {
            assert(false);
            return *input;
        },
    };
    let ghost ge = *g;
    assert(ge.nodes@[bias.id as int] == g0.nodes@[bias.id as int]);
    let out = match scaled.add(g, &bias) {
        Ok(t) => t,
        Err(_) => {
            assert(false);
            return *input;
        },
    };
    proof {
        g0.lemma_extended_trans(ga, gb);
        g0.lemma_extended_trans(gb, gc);
        g0.lemma_extended_trans(gc, gd);
        g0.lemma_extended_trans(gd, ge);
        g0.lemma_extended_trans(ge, *g);
        let gz = *g;
        ga.lemma_extended_trans(gb, gz);
        gb.lemma_extended_trans(gc, gz);
        gc.lemma_extended_trans(gd, gz);
        gd.lemma_extended_trans(ge, gz);
        let eps_leaf = Tensor { id: ga.nodes@.len() as usize };
        let mid = choose|mid: Graph| #[trigger] leaf_recorded(ga, mid, eps_leaf, Seq::<usize>::empty(),
            LeafInit::Constant { bits: eps_bits }, false) && recorded(mid, gb, var_eps, var.shape_of(ga), seq![var.id, eps_leaf.id]);
        mid.lemma_extended_trans(gb, gz);
        assert(gz.nodes@[eps_leaf.id as int] == mid.nodes@[eps_leaf.id as int]);
        assert(gz.nodes@[var_eps.id as int] == gb.nodes@[var_eps.id as int]);
        assert(gz.nodes@[std.id as int] == gc.nodes@[std.id as int]);
        assert(gz.nodes@[norm.id as int] == gd.nodes@[norm.id as int]);
        assert(gz.nodes@[scaled.id as int] == ge.nodes@[scaled.id as int]);
        assert(gz.nodes@[diff.id as int] == ga.nodes@[diff.id as int]);
        assert(gz.nodes@[var.id as int] == ga.nodes@[var.id as int]);
        if training {
            lemma_reads_extend(ga, gz, ga.nodes@[diff.id as int].inputs@[1] as int, input.id as int);
            lemma_reads_extend(ga, gz, var.id as int, diff.id as int);
        }
    }
    out
}

/// Batch normalization of `[batch, features]` inputs over every axis but the channels (axis 1), with
/// running mean and variance held in two graph buffers: training normalizes with the batch
/// statistics and moves the running ones towards them; evaluation normalizes with the running
/// statistics.
#[derive(Clone, Copy)]
pub struct BatchNorm1d {
    pub num_features: usize,
    /// Learnable scale of shape `[1, features]`.
    pub weight: Tensor,
    /// Learnable shift of shape `[1, features]`.
    pub bias: Tensor,
    /// Buffer holding the running mean.
    pub running_mean: usize,
    /// Buffer holding the running variance.
    pub running_var: usize,
    /// Bit pattern of the `f32` `eps`.
    pub eps_bits: u32,
    /// Bit pattern of the `f32` momentum of the running statistics.
    pub momentum_bits: u32,
    pub is_training: bool,
}

impl BatchNorm1d {
    /// The layer's tensors with their expected shapes.
    pub open spec fn shapes(&self) -> Seq<(Tensor, Seq<usize>)> {
        seq![(self.weight, stats_shape(2nat, self.num_features)), (self.bias, stats_shape(2nat, self.num_features))]
    }

    /// The layer's buffers with the shapes of the nodes they hold.
    pub open spec fn buffers(&self) -> Seq<(usize, Seq<usize>)> {
        seq![(self.running_mean, stats_shape(2nat, self.num_features)), (self.running_var, stats_shape(2nat, self.num_features))]
    }

    /// The weight, bias and running statistics live in `g` with shape `[1, features]`.
    pub open spec fn wf_in(&self, g: Graph) -> bool {
        shapes_hold(g, self.shapes()) && buffers_hold(g, self.buffers())
    }

    /// The layer accepts input of shape `x`: rank 2, with `num_features` channels.
    pub open spec fn accepts(&self, x: Seq<usize>) -> bool {
        x.len() == 2 && x[1] == self.num_features
    }

    /// A layer in training mode with weight of ones, bias of zeros, running mean of zeros and
    /// running variance of ones, `eps = 1e-5` and momentum `0.1`.
    pub fn new(g: &mut Graph, num_features: usize) -> (r: BatchNorm1d)
        requires
            old(g).wf(),
        ensures
            final(g).wf(),
            old(g).extended_by(*final(g)),
            r.wf_in(*final(g)),
            r.num_features == num_features,
            r.running_mean != r.running_var,
            r.eps_bits == EPS_1E5_BITS,
            r.momentum_bits == MOMENTUM_BITS,
            r.is_training,
            final(g).nodes@[r.weight.id as int].op == Op::Leaf(LeafInit::Ones),
            final(g).nodes@[r.weight.id as int].requires_grad,
            final(g).nodes@[r.bias.id as int].op == Op::Leaf(LeafInit::Zeros),
            final(g).nodes@[r.bias.id as int].requires_grad,
            final(g).nodes@[final(g).buffers@[r.running_mean as int] as int].op == Op::Leaf(LeafInit::Zeros),
            final(g).nodes@[final(g).buffers@[r.running_var as int] as int].op == Op::Leaf(LeafInit::Ones),
    {
        let ghost g0 = *g;
        let s = shape2(1, num_features);
        assert(s@ == stats_shape(2nat, num_features));
        let weight = Tensor::ones(g, s.as_slice(), true);
        let ghost g1 = *g;
        let bias = Tensor::zeros(g, s.as_slice(), true);
        let ghost g2 = *g;
        let mean = Tensor::zeros(g, s.as_slice(), false);
        let ghost g3 = *g;
        let var = Tensor::ones(g, s.as_slice(), false);
        let ghost g4 = *g;
        let running_mean = g.add_buffer(mean.id);
        let ghost g5 = *g;
        let running_var = g.add_buffer(var.id);
        let r = BatchNorm1d {
            num_features,
            weight,
            bias,
            running_mean,
            running_var,
            eps_bits: EPS_1E5_BITS,
            momentum_bits: MOMENTUM_BITS,
            is_training: true,
        };
        proof {
            g0.lemma_extended_trans(g1, g2);
            g0.lemma_extended_trans(g2, g3);
            g0.lemma_extended_trans(g3, g4);
            g0.lemma_extended_trans(g4, g5);
            g0.lemma_extended_trans(g5, *g);
            assert(g.nodes@[weight.id as int] == g1.nodes@[weight.id as int]);
            assert(g.nodes@[bias.id as int] == g2.nodes@[bias.id as int]);
            assert(g.nodes@[mean.id as int] == g3.nodes@[mean.id as int]);
            assert(g.buffers@[running_mean as int] == mean.id);
            assert(shapes_hold(*g, r.shapes()));
            assert(buffers_hold(*g, r.buffers()));
        }
        r
    }

    /// The node currently holding the running mean.
    pub fn running_mean(&self, g: &Graph) -> (t: Tensor)
        requires
            g.wf(),
            self.wf_in(*g),
        ensures
            t.id == g.buffers@[self.running_mean as int],
            t.valid(*g),
            t.shape_of(*g) == stats_shape(2nat, self.num_features),
    {
        assert(self.buffers()[0].0 == self.running_mean);
        Tensor { id: g.buffer(self.running_mean) }
    }

    /// The node currently holding the running variance.
    pub fn running_var(&self, g: &Graph) -> (t: Tensor)
        requires
            g.wf(),
            self.wf_in(*g),
        ensures
            t.id == g.buffers@[self.running_var as int],
            t.valid(*g),
            t.shape_of(*g) == stats_shape(2nat, self.num_features),
    {
        assert(self.buffers()[1].0 == self.running_var);
        Tensor { id: g.buffer(self.running_var) }
    }

    /// Normalizes `input`. Refused, recording nothing, for a rank other than 2
    /// (`InvalidArgument`) or another number of channels (`ShapeMismatch`). Otherwise the result
    /// has the input's shape and is the sum of the scaled values and the bias; in training mode
    /// the two running statistics move to fresh moving-average nodes, in evaluation mode the
    /// buffers are left as they are.
    pub fn forward_batch_norm(&self, g: &mut Graph, input: &Tensor) -> (r: Result<Tensor, EngineError>)
        requires
            old(g).wf(),
            self.wf_in(*old(g)),
            input.valid(*old(g)),
        ensures
            final(g).wf(),
            old(g).extended_by(*final(g)),
            r is Ok <==> self.accepts(input.shape_of(*old(g))),
            r matches Ok(t) ==> t.valid(*final(g)) && t.shape_of(*final(g)) == input.shape_of(*old(g))
                && final(g).nodes@[t.id as int].op == Op::Add
                && final(g).nodes@[t.id as int].inputs@[1] == self.bias.id
                && stats_step(*old(g), *final(g), self.running_mean, self.running_var, self.momentum_bits, self.is_training),
            r matches Ok(t) ==> batch_norm_structure(*final(g), t.id as int, input.id as int, self.weight, self.bias, self.eps_bits,
                self.is_training, old(g).buffers@[self.running_mean as int] as int, old(g).buffers@[self.running_var as int] as int),
            r matches Err(e) ==> *final(g) == *old(g) && batch_norm_error(e, input.shape_of(*old(g)), 2nat, self.num_features),
    {
        let x = input.shape(g);
        if x.len() != 2 {
            return Err(EngineError::InvalidArgument(
                "BatchNorm1d expects 2D tensor [BatchSize, NumFeatures]".to_string(),
            ));
        }
        if x[1] != self.num_features {
            return Err(EngineError::ShapeMismatch { expected: shape1(self.num_features), actual: shape1(x[1]) });
        }
        assert(self.shapes()[0].0 == self.weight && self.shapes()[1].0 == self.bias);
        assert(self.buffers()[0].0 == self.running_mean && self.buffers()[1].0 == self.running_var);
        Ok(batch_norm_apply(g, input, false, self.weight, self.bias, self.running_mean, self.running_var, self.eps_bits, self.momentum_bits, self.is_training))
    }
}

impl Module for BatchNorm1d {
    open spec fn mode_is(&self, training: bool) -> bool {
        self.is_training == training
    }

    open spec fn param_list(&self) -> Seq<Tensor> {
        crate::nn::module::tensors_of(self.tensor_shapes())
    }

    open spec fn tensor_shapes(&self) -> Seq<(Tensor, Seq<usize>)> {
        self.shapes()
    }

    open spec fn buffer_shapes(&self) -> Seq<(usize, Seq<usize>)> {
        self.buffers()
    }

    fn forward(&self, g: &mut Graph, input: &Tensor) -> (r: Result<Tensor, EngineError>)
    {
        self.forward_batch_norm(g, input)
    }

    fn parameters(&self) -> (r: Vec<Tensor>)
        ensures
            r@ == seq![self.weight, self.bias],
    {
        let mut v: Vec<Tensor> = Vec::new();
        v.push(self.weight);
        v.push(self.bias);
        proof {
            assert forall|g: Graph| #[trigger] shapes_hold(g, self.tensor_shapes()) implies forall|k: int| 0 <= k < v@.len() ==> (#[trigger] v@[k]).valid(g) by {
                assert(self.shapes()[0].0 == self.weight && self.shapes()[1].0 == self.bias);
            }
        }
        v
    }

    fn train(&mut self)
        ensures
            final(self).is_training,
            final(self).num_features == old(self).num_features,
            final(self).weight == old(self).weight,
            final(self).bias == old(self).bias,
            final(self).running_mean == old(self).running_mean,
            final(self).running_var == old(self).running_var,
            final(self).eps_bits == old(self).eps_bits,
            final(self).momentum_bits == old(self).momentum_bits,
    {
        self.is_training = true;
    }

    fn eval(&mut self)
        ensures
            !final(self).is_training,
            final(self).num_features == old(self).num_features,
            final(self).weight == old(self).weight,
            final(self).bias == old(self).bias,
            final(self).running_mean == old(self).running_mean,
            final(self).running_var == old(self).running_var,
            final(self).eps_bits == old(self).eps_bits,
            final(self).momentum_bits == old(self).momentum_bits,
    {
        self.is_training = false;
    }
}

/// Batch normalization of `[batch, channels, height, width]` inputs over every axis but the channels (axis 1), with
/// running mean and variance held in two graph buffers: training normalizes with the batch
/// statistics and moves the running ones towards them; evaluation normalizes with the running
/// statistics.
#[derive(Clone, Copy)]
pub struct BatchNorm2d {
    pub num_features: usize,
    /// Learnable scale of shape `[1, channels, 1, 1]`.
    pub weight: Tensor,
    /// Learnable shift of shape `[1, channels, 1, 1]`.
    pub bias: Tensor,
    /// Buffer holding the running mean.
    pub running_mean: usize,
    /// Buffer holding the running variance.
    pub running_var: usize,
    /// Bit pattern of the `f32` `eps`.
    pub eps_bits: u32,
    /// Bit pattern of the `f32` momentum of the running statistics.
    pub momentum_bits: u32,
    pub is_training: bool,
}

impl BatchNorm2d {
    /// The layer's tensors with their expected shapes.
    pub open spec fn shapes(&self) -> Seq<(Tensor, Seq<usize>)> {
        seq![(self.weight, stats_shape(4nat, self.num_features)), (self.bias, stats_shape(4nat, self.num_features))]
    }

    /// The layer's buffers with the shapes of the nodes they hold.
    pub open spec fn buffers(&self) -> Seq<(usize, Seq<usize>)> {
        seq![(self.running_mean, stats_shape(4nat, self.num_features)), (self.running_var, stats_shape(4nat, self.num_features))]
    }

    /// The weight, bias and running statistics live in `g` with shape `[1, channels, 1, 1]`.
    pub open spec fn wf_in(&self, g: Graph) -> bool {
        shapes_hold(g, self.shapes()) && buffers_hold(g, self.buffers())
    }

    /// The layer accepts input of shape `x`: rank 4, with `num_features` channels.
    pub open spec fn accepts(&self, x: Seq<usize>) -> bool {
        x.len() == 4 && x[1] == self.num_features
    }

    /// A layer in training mode with weight of ones, bias of zeros, running mean of zeros and
    /// running variance of ones, `eps = 1e-5` and momentum `0.1`.
    pub fn new(g: &mut Graph, num_features: usize) -> (r: BatchNorm2d)
        requires
            old(g).wf(),
        ensures
            final(g).wf(),
            old(g).extended_by(*final(g)),
            r.wf_in(*final(g)),
            r.num_features == num_features,
            r.running_mean != r.running_var,
            r.eps_bits == EPS_1E5_BITS,
            r.momentum_bits == MOMENTUM_BITS,
            r.is_training,
            final(g).nodes@[r.weight.id as int].op == Op::Leaf(LeafInit::Ones),
            final(g).nodes@[r.weight.id as int].requires_grad,
            final(g).nodes@[r.bias.id as int].op == Op::Leaf(LeafInit::Zeros),
            final(g).nodes@[r.bias.id as int].requires_grad,
            final(g).nodes@[final(g).buffers@[r.running_mean as int] as int].op == Op::Leaf(LeafInit::Zeros),
            final(g).nodes@[final(g).buffers@[r.running_var as int] as int].op == Op::Leaf(LeafInit::Ones),
    {
        let ghost g0 = *g;
        let s = shape4(1, num_features, 1, 1);
        assert(s@ == stats_shape(4nat, num_features));
        let weight = Tensor::ones(g, s.as_slice(), true);
        let ghost g1 = *g;
        let bias = Tensor::zeros(g, s.as_slice(), true);
        let ghost g2 = *g;
        let mean = Tensor::zeros(g, s.as_slice(), false);
        let ghost g3 = *g;
        let var = Tensor::ones(g, s.as_slice(), false);
        let ghost g4 = *g;
        let running_mean = g.add_buffer(mean.id);
        let ghost g5 = *g;
        let running_var = g.add_buffer(var.id);
        let r = BatchNorm2d {
            num_features,
            weight,
            bias,
            running_mean,
            running_var,
            eps_bits: EPS_1E5_BITS,
            momentum_bits: MOMENTUM_BITS,
            is_training: true,
        };
        proof {
            g0.lemma_extended_trans(g1, g2);
            g0.lemma_extended_trans(g2, g3);
            g0.lemma_extended_trans(g3, g4);
            g0.lemma_extended_trans(g4, g5);
            g0.lemma_extended_trans(g5, *g);
            assert(g.nodes@[weight.id as int] == g1.nodes@[weight.id as int]);
            assert(g.nodes@[bias.id as int] == g2.nodes@[bias.id as int]);
            assert(g.nodes@[mean.id as int] == g3.nodes@[mean.id as int]);
            assert(g.buffers@[running_mean as int] == mean.id);
            assert(shapes_hold(*g, r.shapes()));
            assert(buffers_hold(*g, r.buffers()));
        }
        r
    }

    /// The node currently holding the running mean.
    pub fn running_mean(&self, g: &Graph) -> (t: Tensor)
        requires
            g.wf(),
            self.wf_in(*g),
        ensures
            t.id == g.buffers@[self.running_mean as int],
            t.valid(*g),
            t.shape_of(*g) == stats_shape(4nat, self.num_features),
    {
        assert(self.buffers()[0].0 == self.running_mean);
        Tensor { id: g.buffer(self.running_mean) }
    }

    /// The node currently holding the running variance.
    pub fn running_var(&self, g: &Graph) -> (t: Tensor)
        requires
            g.wf(),
            self.wf_in(*g),
        ensures
            t.id == g.buffers@[self.running_var as int],
            t.valid(*g),
            t.shape_of(*g) == stats_shape(4nat, self.num_features),
    {
        assert(self.buffers()[1].0 == self.running_var);
        Tensor { id: g.buffer(self.running_var) }
    }

    /// Normalizes `input`. Refused, recording nothing, for a rank other than 4
    /// (`InvalidArgument`) or another number of channels (`ShapeMismatch`). Otherwise the result
    /// has the input's shape and is the sum of the scaled values and the bias; in training mode
    /// the two running statistics move to fresh moving-average nodes, in evaluation mode the
    /// buffers are left as they are.
    pub fn forward_batch_norm(&self, g: &mut Graph, input: &Tensor) -> (r: Result<Tensor, EngineError>)
        requires
            old(g).wf(),
            self.wf_in(*old(g)),
            input.valid(*old(g)),
        ensures
            final(g).wf(),
            old(g).extended_by(*final(g)),
            r is Ok <==> self.accepts(input.shape_of(*old(g))),
            r matches Ok(t) ==> t.valid(*final(g)) && t.shape_of(*final(g)) == input.shape_of(*old(g))
                && final(g).nodes@[t.id as int].op == Op::Add
                && final(g).nodes@[t.id as int].inputs@[1] == self.bias.id
                && stats_step(*old(g), *final(g), self.running_mean, self.running_var, self.momentum_bits, self.is_training),
            r matches Ok(t) ==> batch_norm_structure(*final(g), t.id as int, input.id as int, self.weight, self.bias, self.eps_bits,
                self.is_training, old(g).buffers@[self.running_mean as int] as int, old(g).buffers@[self.running_var as int] as int),
            r matches Err(e) ==> *final(g) == *old(g) && batch_norm_error(e, input.shape_of(*old(g)), 4nat, self.num_features),
    {
        let x = input.shape(g);
        if x.len() != 4 {
            return Err(EngineError::InvalidArgument(
                "BatchNorm2d expects 4D tensor [BatchSize, Channels, Height, Width]".to_string(),
            ));
        }
        if x[1] != self.num_features {
            return Err(EngineError::ShapeMismatch { expected: shape1(self.num_features), actual: shape1(x[1]) });
        }
        assert(self.shapes()[0].0 == self.weight && self.shapes()[1].0 == self.bias);
        assert(self.buffers()[0].0 == self.running_mean && self.buffers()[1].0 == self.running_var);
        Ok(batch_norm_apply(g, input, true, self.weight, self.bias, self.running_mean, self.running_var, self.eps_bits, self.momentum_bits, self.is_training))
    }
}

impl Module for BatchNorm2d {
    open spec fn mode_is(&self, training: bool) -> bool {
        self.is_training == training
    }

    open spec fn param_list(&self) -> Seq<Tensor> {
        crate::nn::module::tensors_of(self.tensor_shapes())
    }

    open spec fn tensor_shapes(&self) -> Seq<(Tensor, Seq<usize>)> {
        self.shapes()
    }

    open spec fn buffer_shapes(&self) -> Seq<(usize, Seq<usize>)> {
        self.buffers()
    }

    fn forward(&self, g: &mut Graph, input: &Tensor) -> (r: Result<Tensor, EngineError>)
    {
        self.forward_batch_norm(g, input)
    }

    fn parameters(&self) -> (r: Vec<Tensor>)
        ensures
            r@ == seq![self.weight, self.bias],
    {
        let mut v: Vec<Tensor> = Vec::new();
        v.push(self.weight);
        v.push(self.bias);
        proof {
            assert forall|g: Graph| #[trigger] shapes_hold(g, self.tensor_shapes()) implies forall|k: int| 0 <= k < v@.len() ==> (#[trigger] v@[k]).valid(g) by {
                assert(self.shapes()[0].0 == self.weight && self.shapes()[1].0 == self.bias);
            }
        }
        v
    }

    fn train(&mut self)
        ensures
            *final(self) == (BatchNorm2d { is_training: true, ..*old(self) }),
    {
        self.is_training = true;
        assert(self.mode_is(true));
        assert(self.buffers() == old(self).buffers());
        assert(self.buffer_shapes() == old(self).buffer_shapes());
    }

    fn eval(&mut self)
        ensures
            *final(self) == (BatchNorm2d { is_training: false, ..*old(self) }),
    {
        self.is_training = false;
        assert(self.mode_is(false));
        assert(self.buffers() == old(self).buffers());
        assert(self.buffer_shapes() == old(self).buffer_shapes());
    }
}

} // verus!
