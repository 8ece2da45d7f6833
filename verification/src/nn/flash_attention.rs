//! Attention computed by a tiled online-softmax kernel that never forms the full score
//! matrix; this module checks the shapes and records the computation.

use vstd::prelude::*;
use crate::autograd::node::{Graph, LeafInit};
use crate::autograd::tensor::{Tensor, reshape_ok};
use crate::error::EngineError;
use crate::nn::attention::split_heads;
use crate::nn::linear::{Linear, linear_out};
use crate::nn::module::{Module, lemma_shapes_hold_concat, shapes_hold};
use crate::shape::{shape3, shape4, transpose_spec};

verus! {

/// The kernel accepts queries `q`, keys `k` and values `v`: all of rank 4, with one batch
/// size, one number of heads and one head size, and as many keys as values.
pub open spec fn flash_shapes_ok(q: Seq<usize>, k: Seq<usize>, v: Seq<usize>) -> bool {
    &&& q.len() == 4 && k.len() == 4 && v.len() == 4
    &&& q[0] == k[0] && q[0] == v[0]
    &&& q[1] == k[1] && q[1] == v[1]
    &&& q[3] == k[3] && q[3] == v[3]
    &&& k[2] == v[2]
}

/// Checks the shapes handed to the attention kernel and returns the shape of its output, that
/// of the queries. Tensors of another rank are refused with `InvalidArgument`, mismatched
/// dimensions with `ShapeMismatch`.
pub fn flash_attention_shape(q: &[usize], k: &[usize], v: &[usize]) -> (r: Result<Vec<usize>, EngineError>)
    ensures
        r is Ok <==> flash_shapes_ok(q@, k@, v@),
        r matches Ok(s) ==> s@ == q@,
        r matches Err(e) ==> if q@.len() != 4 || k@.len() != 4 || v@.len() != 4 {
            e is InvalidArgument
        } else {
            e matches EngineError::ShapeMismatch { expected, actual }
                && expected@ == seq![q@[0], q@[1], k@[2], q@[3]] && actual@ == k@
        },
{
    if q.len() != 4 || k.len() != 4 || v.len() != 4 {
        return Err(EngineError::InvalidArgument(
            "FlashAttention expects 4D tensors [Batch, Heads, SeqLen, Dim]".to_string(),
        ));
    }
    if q[0] != k[0] || q[0] != v[0] || q[1] != k[1] || q[1] != v[1] || q[3] != k[3] || q[3] != v[3] || k[2] != v[2] {
        let actual = shape4(k[0], k[1], k[2], k[3]);
        assert(actual@ =~= k@);
        return Err(EngineError::ShapeMismatch { expected: shape4(q[0], q[1], k[2], q[3]), actual });
    }
    let out = shape4(q[0], q[1], q[2], q[3]);
    assert(out@ =~= q@);
    Ok(out)
}

/// Multi-head attention whose scores are computed by the tiled kernel.
#[derive(Clone, Copy)]
pub struct FlashAttention {
    pub q_proj: Linear,
    pub k_proj: Linear,
    pub v_proj: Linear,
    pub out_proj: Linear,
    pub num_heads: usize,
    pub d_model: usize,
    pub head_dim: usize,
    pub is_causal: bool,
    pub block_size: usize,
}

impl FlashAttention {
    /// The four projections live in `g` with their expected shapes.
    pub open spec fn wf_in(&self, g: Graph) -> bool {
        &&& self.q_proj.wf_in(g)
        &&& self.k_proj.wf_in(g)
        &&& self.v_proj.wf_in(g)
        &&& self.out_proj.wf_in(g)
    }

    /// The layer accepts input of shape `x`.
    pub open spec fn accepts(&self, x: Seq<usize>) -> bool {
        let heads = seq![x[0], x[1], self.num_heads, self.head_dim];
        &&& x.len() == 3
        &&& self.q_proj.accepts(x)
        &&& self.k_proj.accepts(x)
        &&& self.v_proj.accepts(x)
        &&& reshape_ok(linear_out(x, self.q_proj.out_features), heads)
        &&& reshape_ok(linear_out(x, self.k_proj.out_features), heads)
        &&& reshape_ok(linear_out(x, self.v_proj.out_features), heads)
        &&& reshape_ok(heads, seq![x[0], x[1], self.d_model])
        &&& self.out_proj.accepts(seq![x[0], x[1], self.d_model])
    }

    /// A layer with four `d_model x d_model` projections, `head_dim = d_model / num_heads`
    /// and blocks of 64.
    pub fn new(g: &mut Graph, d_model: usize, num_heads: usize, is_causal: bool) -> (r: FlashAttention)
        requires
            old(g).wf(),
            num_heads > 0,
            d_model % num_heads == 0,
        ensures
            final(g).wf(),
            old(g).extended_by(*final(g)),
            r.wf_in(*final(g)),
            r.q_proj.in_features == d_model && r.q_proj.out_features == d_model,
            r.k_proj.in_features == d_model && r.k_proj.out_features == d_model,
            r.v_proj.in_features == d_model && r.v_proj.out_features == d_model,
            r.out_proj.in_features == d_model && r.out_proj.out_features == d_model,
            r.num_heads == num_heads,
            r.d_model == d_model,
            r.head_dim == d_model / num_heads,
            r.is_causal == is_causal,
            r.block_size == 64,
    {
        let head_dim = d_model / num_heads;
        let ghost g0 = *g;
        let q_proj = Linear::new(g, d_model, d_model);
        let ghost g1 = *g;
        let k_proj = Linear::new(g, d_model, d_model);
        let ghost g2 = *g;
        let v_proj = Linear::new(g, d_model, d_model);
        let ghost g3 = *g;
        let out_proj = Linear::new(g, d_model, d_model);
        proof {
            g0.lemma_extended_trans(g1, g2);
            g0.lemma_extended_trans(g2, g3);
            g0.lemma_extended_trans(g3, *g);
        }
        FlashAttention { q_proj, k_proj, v_proj, out_proj, num_heads, d_model, head_dim, is_causal, block_size: 64 }
    }

    /// Attention over `[batch, seq, channels]` input: the projections split into heads go to
    /// the kernel, whose output enters the graph as a new tensor (requiring a gradient when
    /// the input does) and is merged and projected.
    pub fn forward_flash(&self, g: &mut Graph, x: &Tensor) -> (r: Result<Tensor, EngineError>)
        requires
            old(g).wf(),
            self.wf_in(*old(g)),
            x.valid(*old(g)),
        ensures
            final(g).wf(),
            old(g).extended_by(*final(g)),
            r is Ok <==> self.accepts(x.shape_of(*old(g))),
            r matches Ok(t) ==> t.valid(*final(g))
                && t.shape_of(*final(g)) == seq![x.shape_of(*old(g))[0], x.shape_of(*old(g))[1], self.out_proj.out_features],
            x.shape_of(*old(g)).len() != 3 ==> (r matches Err(e) && e is IncompatibleShapes && *final(g) == *old(g)),
    {
        let ghost g0 = *g;
        let shape = x.shape(g);
        if shape.len() != 3 {
            let mut shapes: Vec<Vec<usize>> = Vec::new();
            shapes.push(shape);
            return Err(EngineError::IncompatibleShapes { op: "FlashAttention forward (expected 3D input [B, T, C])", shapes });
        }
        let b = shape[0];
        let t = shape[1];
        let h = self.num_heads;
        let d = self.head_dim;
        let q = self.q_proj.forward_linear(g, x)?;
        let ghost ga = *g;
        let k = self.k_proj.forward_linear(g, x)?;
        let ghost gb = *g;
        proof { g0.lemma_extended_trans(ga, gb); }
        let v = self.v_proj.forward_linear(g, x)?;
        let ghost gc = *g;
        proof { g0.lemma_extended_trans(gb, gc); }
        let q4 = split_heads(g, &q, b, t, h, d)?;
        let ghost gd = *g;
        proof { g0.lemma_extended_trans(gc, gd); }
        let k4 = split_heads(g, &k, b, t, h, d)?;
        let ghost ge = *g;
        proof { g0.lemma_extended_trans(gd, ge); }
        let v4 = split_heads(g, &v, b, t, h, d)?;
        let ghost gf = *g;
        proof { g0.lemma_extended_trans(ge, gf); }
        let qs = q4.shape(g);
        let ks = k4.shape(g);
        let vs = v4.shape(g);
        let out_shape = flash_attention_shape(qs.as_slice(), ks.as_slice(), vs.as_slice())?;
        let req = x.requires_grad(g);
        let out = Tensor::leaf(
            g,
            out_shape.as_slice(),
            LeafInit::FlashAttention { q: q4.id, k: k4.id, v: v4.id, causal: self.is_causal, block_size: self.block_size },
            req,
        );
        let ghost gh = *g;
        proof {
            g0.lemma_extended_trans(gf, gh);
            assert(transpose_spec(seq![b, h, t, d], 1, 2) =~= seq![b, t, h, d]);
        }
        let moved = out.transpose(g, 1, 2)?;
        let ghost gi = *g;
        proof { g0.lemma_extended_trans(gh, gi); }
        let merged = moved.reshape(g, shape3(b, t, self.d_model).as_slice())?;
        let ghost gj = *g;
        proof {
            g0.lemma_extended_trans(gi, gj);
            assert(linear_out(seq![b, t, self.d_model], self.out_proj.out_features) =~= seq![b, t, self.out_proj.out_features]);
        }
        let res = self.out_proj.forward_linear(g, &merged)?;
        proof { g0.lemma_extended_trans(gj, *g); }
        Ok(res)
    }
}

impl FlashAttention {
    /// The layer's tensors with their expected shapes, projection by projection.
    pub open spec fn shapes(&self) -> Seq<(Tensor, Seq<usize>)> {
        self.q_proj.shapes() + self.k_proj.shapes() + self.v_proj.shapes() + self.out_proj.shapes()
    }

    /// The layer's learnable tensors, projection by projection.
    pub open spec fn param_seq(&self) -> Seq<Tensor> {
        self.q_proj.param_seq() + self.k_proj.param_seq() + self.v_proj.param_seq() + self.out_proj.param_seq()
    }

    /// `wf_in` says the same as the list of expected shapes.
    pub proof fn lemma_wf_in_shapes(&self, g: Graph)
        ensures
            self.wf_in(g) <==> shapes_hold(g, self.shapes()),
    {
        let a = self.q_proj.shapes();
        let b = self.k_proj.shapes();
        let c = self.v_proj.shapes();
        let d = self.out_proj.shapes();
        lemma_shapes_hold_concat(g, a + b + c, d);
        lemma_shapes_hold_concat(g, a + b, c);
        lemma_shapes_hold_concat(g, a, b);
        self.q_proj.lemma_wf_in_shapes(g);
        self.k_proj.lemma_wf_in_shapes(g);
        self.v_proj.lemma_wf_in_shapes(g);
        self.out_proj.lemma_wf_in_shapes(g);
    }
}

impl Module for FlashAttention {
    open spec fn mode_is(&self, training: bool) -> bool {
        true
    }

    open spec fn param_list(&self) -> Seq<Tensor> {
        self.param_seq()
    }

    open spec fn buffer_shapes(&self) -> Seq<(usize, Seq<usize>)> {
        Seq::empty()
    }

    open spec fn tensor_shapes(&self) -> Seq<(Tensor, Seq<usize>)> {
        self.shapes()
    }

    fn forward(&self, g: &mut Graph, input: &Tensor) -> (r: Result<Tensor, EngineError>)
        ensures
            r is Ok <==> self.accepts(input.shape_of(*old(g))),
    {
        proof {
            self.lemma_wf_in_shapes(*g);
        }
        self.forward_flash(g, input)
    }

    fn parameters(&self) -> (r: Vec<Tensor>)
        ensures
            r@ == self.param_seq(),
    {
        let mut params = self.q_proj.parameters();
        let mut k = self.k_proj.parameters();
        let mut v = self.v_proj.parameters();
        let mut o = self.out_proj.parameters();
        params.append(&mut k);
        params.append(&mut v);
        params.append(&mut o);
        assert(params@ =~= self.param_seq());
        assert forall|g: Graph| #[trigger] shapes_hold(g, self.tensor_shapes()) implies
            forall|k: int| 0 <= k < params@.len() ==> (#[trigger] params@[k]).valid(g) by {
            self.lemma_wf_in_shapes(g);
            assert forall|k: int| 0 <= k < params@.len() implies (#[trigger] params@[k]).valid(g) by {
                let a = self.q_proj.param_seq();
                let b = self.k_proj.param_seq();
                let c = self.v_proj.param_seq();
                let d = self.out_proj.param_seq();
                if k < a.len() {
                    assert(params@[k] == a[k]);
                } else if k < a.len() + b.len() {
                    assert(params@[k] == b[k - a.len()]);
                } else if k < a.len() + b.len() + c.len() {
                    assert(params@[k] == c[k - a.len() - b.len()]);
                } else {
                    assert(params@[k] == d[k - a.len() - b.len() - c.len()]);
                }
            }
        }
        params
    }

    /// Nothing switches between training and evaluation.
    fn train(&mut self) {
    }

    /// Nothing switches between training and evaluation.
    fn eval(&mut self) {
    }
}

} // verus!