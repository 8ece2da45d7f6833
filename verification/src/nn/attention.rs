//! Multi-head scaled dot-product attention, with an optional causal mask.

use vstd::prelude::*;
use crate::autograd::node::{Graph, LeafInit, Op};
use crate::autograd::tensor::{Tensor, lemma_reads_extend, lemma_reads_in_range, lemma_reads_self, lemma_reads_through, lemma_reads_trans, reads, reshape_ok};
use crate::error::EngineError;
use crate::nn::linear::{Linear, lemma_linear_result_extend, linear_out, linear_result};
use crate::nn::module::{Module, lemma_shapes_hold_concat, shapes_hold};
use crate::shape::{
    numel_spec, shape_fits, broadcast_spec, lemma_broadcast_heads, lemma_broadcast_scalar, lemma_matmul_4d, matmul_spec, shape3, shape4,
    transpose_spec,
};

verus! {

/// Multi-head attention: query, key, value and output projections over `num_heads` heads of
/// `head_dim` channels each.
#[derive(Clone, Copy)]
pub struct MultiHeadAttention {
    pub q_proj: Linear,
    pub k_proj: Linear,
    pub v_proj: Linear,
    pub out_proj: Linear,
    pub num_heads: usize,
    pub d_model: usize,
    pub head_dim: usize,
    pub is_causal: bool,
}

/// Node `c` of `g` is scaled dot-product attention of queries `q` over keys `k` and values `v`:
/// `c` is the product of `w` and `v`, where `w` is the softmax over the last axis of the scores
/// scaled by `1 / sqrt(d)`, `d` being the size of the queries' last axis (plus a leaf made by
/// `mask`, when there is one), the scores being the product of `q` with `k` transposed in its
/// last two axes.
pub open spec fn attention_core(g: Graph, c: int, q: int, k: int, v: int, mask: Option<LeafInit>) -> bool {
    let w = g.nodes@[c].inputs@[0] as int;
    let s1 = g.nodes@[w].inputs@[0] as int;
    let s = if mask is Some { g.nodes@[s1].inputs@[0] as int } else { s1 };
    let sc = g.nodes@[s].inputs@[0] as int;
    let kt = g.nodes@[sc].inputs@[1] as int;
    &&& g.nodes@[c].op == Op::MatMul
    &&& g.nodes@[c].inputs@.len() == 2
    &&& g.nodes@[c].inputs@[1] == v
    &&& g.nodes@[w].op == (Op::Softmax { axis: 3 })
    &&& g.nodes@[w].inputs@.len() == 1
    &&& (mask matches Some(mi) ==> g.nodes@[s1].op == Op::Add && g.nodes@[s1].inputs@.len() == 2
        && g.nodes@[g.nodes@[s1].inputs@[1] as int].op == Op::Leaf(mi))
    &&& g.nodes@[s].op == Op::Mul
    &&& g.nodes@[s].inputs@.len() == 2
    &&& g.nodes@[g.nodes@[s].inputs@[1] as int].op == Op::Leaf(LeafInit::InvSqrt { n: g.nodes@[q].shape@[3] })
    &&& g.nodes@[sc].op == Op::MatMul
    &&& g.nodes@[sc].inputs@.len() == 2
    &&& g.nodes@[sc].inputs@[0] == q
    &&& g.nodes@[kt].op == (Op::Transpose { dim0: 2, dim1: 3 })
    &&& g.nodes@[kt].inputs@.len() == 1
    &&& g.nodes@[kt].inputs@[0] as int == k
}

/// Recording more nodes keeps an attention.
pub proof fn lemma_attention_core_extend(g1: Graph, g2: Graph, c: int, q: int, k: int, v: int, mask: Option<LeafInit>)
    requires
        g1.wf(),
        0 <= c < g1.nodes@.len(),
        attention_core(g1, c, q, k, v, mask),
        g1.extended_by(g2),
    ensures
        attention_core(g2, c, q, k, v, mask),
        0 <= q < g1.nodes@.len() && 0 <= k < g1.nodes@.len() && 0 <= v < g1.nodes@.len(),
{
    let w = g1.nodes@[c].inputs@[0] as int;
    assert(crate::autograd::node::node_wf(g1.nodes@[c], c));
    let s1 = g1.nodes@[w].inputs@[0] as int;
    assert(crate::autograd::node::node_wf(g1.nodes@[w], w));
    let s = if mask is Some { g1.nodes@[s1].inputs@[0] as int } else { s1 };
    assert(crate::autograd::node::node_wf(g1.nodes@[s1], s1));
    let sc = g1.nodes@[s].inputs@[0] as int;
    assert(crate::autograd::node::node_wf(g1.nodes@[s], s));
    let kt = g1.nodes@[sc].inputs@[1] as int;
    assert(crate::autograd::node::node_wf(g1.nodes@[sc], sc));
    assert(g2.nodes@[c] == g1.nodes@[c]);
    assert(g2.nodes@[w] == g1.nodes@[w]);
    assert(g2.nodes@[s1] == g1.nodes@[s1]);
    if mask is Some {
        let m = g1.nodes@[s1].inputs@[1] as int;
        assert(g2.nodes@[m] == g1.nodes@[m]);
    }
    assert(g2.nodes@[s] == g1.nodes@[s]);
    let sl = g1.nodes@[s].inputs@[1] as int;
    assert(0 <= sl < s);
    assert(g2.nodes@[sl] == g1.nodes@[sl]);
    assert(g2.nodes@[sc] == g1.nodes@[sc]);
    assert(g2.nodes@[kt] == g1.nodes@[kt]);
    assert(crate::autograd::node::node_wf(g1.nodes@[kt], kt));
    assert(g2.nodes@[q] == g1.nodes@[q]) by {
        assert(0 <= q < sc);
    }
    assert(0 <= w < c);
    assert(0 <= s1 < w);
    assert(0 <= s <= s1);
    assert(0 <= sc < s);
    assert(0 <= kt < sc);
    assert(0 <= k < kt);
    assert(g1.nodes@[sc].inputs@[0] == q);
    assert(0 <= q < sc);
    assert(0 <= v < c);
}

/// The mask on the scores of self-attention over `t` steps: causal when the module is and there
/// is more than one step, none otherwise.
pub open spec fn self_attention_mask(is_causal: bool, t: usize) -> Option<LeafInit> {
    if is_causal && t > 1 { Some(LeafInit::CausalMask { offset: 0 }) } else { None }
}

/// Self-attention of a module that is not causal never masks its scores, nor does attention
/// over a single step; a causal module masks longer inputs from position 0.
pub proof fn lemma_self_attention_mask(is_causal: bool, t: usize)
    ensures
        !is_causal ==> self_attention_mask(is_causal, t) is None,
        t <= 1 ==> self_attention_mask(is_causal, t) is None,
        is_causal && t > 1 ==> self_attention_mask(is_causal, t) == Some(LeafInit::CausalMask { offset: 0 }),
{
}

/// The nodes `merged`, `c`, `q`, `k` and `v` witness that node `o` of `g` is what attention
/// module `a` makes of node `x` over node `m` (see `attention_result`).
pub open spec fn attention_witness(g: Graph, o: int, a: MultiHeadAttention, x: int, m: int, mask: Option<LeafInit>,
    merged: int, c: int, q: int, k: int, v: int) -> bool {
    &&& linear_result(g, o, a.out_proj, merged)
    &&& reads(g, merged, c)
    &&& attention_core(g, c, q, k, v, mask)
    &&& reads(g, q, x) && reads(g, q, a.q_proj.weight.id as int)
    &&& reads(g, k, m) && reads(g, k, a.k_proj.weight.id as int)
    &&& reads(g, v, m) && reads(g, v, a.v_proj.weight.id as int)
}

/// Node `o` of `g` is what attention module `a` makes of queries from node `x` over keys and
/// values from node `m`: the output projection of merged heads that read an attention (see
/// `attention_core`) with `mask` on its scores, whose queries read `x` and the query weight,
/// whose keys read `m` and the key weight, and whose values read `m` and the value weight.
pub open spec fn attention_result(g: Graph, o: int, a: MultiHeadAttention, x: int, m: int, mask: Option<LeafInit>) -> bool {
    exists|merged: int, c: int, q: int, k: int, v: int| #[trigger] attention_witness(g, o, a, x, m, mask, merged, c, q, k, v)
}

/// Recording more nodes keeps what an attention module made.
pub proof fn lemma_attention_result_extend(g1: Graph, g2: Graph, o: int, a: MultiHeadAttention, x: int, m: int, mask: Option<LeafInit>)
    requires
        g1.wf(),
        0 <= o < g1.nodes@.len(),
        attention_result(g1, o, a, x, m, mask),
        g1.extended_by(g2),
    ensures
        attention_result(g2, o, a, x, m, mask),
{
    let (merged, c, q, k, v) = choose|merged: int, c: int, q: int, k: int, v: int| #[trigger] attention_witness(g1, o, a, x, m, mask, merged, c, q, k, v);
    lemma_linear_result_extend(g1, g2, o, a.out_proj, merged);
    lemma_reads_in_range(g1, merged, c);
    lemma_reads_extend(g1, g2, merged, c);
    lemma_attention_core_extend(g1, g2, c, q, k, v, mask);
    lemma_reads_extend(g1, g2, q, x);
    lemma_reads_extend(g1, g2, q, a.q_proj.weight.id as int);
    lemma_reads_extend(g1, g2, k, m);
    lemma_reads_extend(g1, g2, k, a.k_proj.weight.id as int);
    lemma_reads_extend(g1, g2, v, m);
    lemma_reads_extend(g1, g2, v, a.v_proj.weight.id as int);
    assert(attention_witness(g2, o, a, x, m, mask, merged, c, q, k, v));
}

/// Reshapes `[b, s, c]` into `[b, s, h, d]` and moves the head axis forward: `[b, h, s, d]`.
pub(crate) fn split_heads(g: &mut Graph, t: &Tensor, b: usize, s: usize, h: usize, d: usize) -> (r: Result<Tensor, EngineError>)
    requires
        old(g).wf(),
        t.valid(*old(g)),
    ensures
        final(g).wf(),
        old(g).extended_by(*final(g)),
        r is Ok <==> reshape_ok(t.shape_of(*old(g)), seq![b, s, h, d]),
        r matches Ok(o) ==> o.valid(*final(g)) && o.shape_of(*final(g)) == seq![b, h, s, d],
        r matches Ok(o) ==> reads(*final(g), o.id as int, t.id as int),
{
    let ghost g0 = *g;
    let split = t.reshape(g, shape4(b, s, h, d).as_slice())?;
    let ghost g1 = *g;
    assert(transpose_spec(seq![b, s, h, d], 1, 2) =~= seq![b, h, s, d]);
    let out = split.transpose(g, 1, 2)?;
    proof {
        g0.lemma_extended_trans(g1, *g);
        lemma_reads_self(g0, t.id as int);
        lemma_reads_through(g0, g1, split.id as int, 0, t.id as int);
        lemma_reads_through(g1, *g, out.id as int, 0, t.id as int);
    }
    Ok(out)
}

/// Moves the head axis of `[b, h, s, d]` back and merges the heads: `[b, s, c]`.
fn merge_heads(g: &mut Graph, t: &Tensor, b: usize, s: usize, h: usize, d: usize, c: usize) -> (r: Result<Tensor, EngineError>)
    requires
        old(g).wf(),
        t.valid(*old(g)),
        t.shape_of(*old(g)) == seq![b, h, s, d],
    ensures
        final(g).wf(),
        old(g).extended_by(*final(g)),
        r is Ok <==> reshape_ok(seq![b, s, h, d], seq![b, s, c]),
        r matches Ok(o) ==> o.valid(*final(g)) && o.shape_of(*final(g)) == seq![b, s, c],
        r matches Ok(o) ==> reads(*final(g), o.id as int, t.id as int),
{
    let ghost g0 = *g;
    assert(transpose_spec(seq![b, h, s, d], 1, 2) =~= seq![b, s, h, d]);
    let moved = t.transpose(g, 1, 2)?;
    let ghost g1 = *g;
    let out = moved.reshape(g, shape3(b, s, c).as_slice())?;
    proof {
        g0.lemma_extended_trans(g1, *g);
        lemma_reads_self(g0, t.id as int);
        lemma_reads_through(g0, g1, moved.id as int, 0, t.id as int);
        lemma_reads_through(g1, *g, out.id as int, 0, t.id as int);
    }
    Ok(out)
}

impl MultiHeadAttention {
    /// The four projections live in `g` with their expected shapes.
    pub open spec fn wf_in(&self, g: Graph) -> bool {
        &&& self.q_proj.wf_in(g)
        &&& self.k_proj.wf_in(g)
        &&& self.v_proj.wf_in(g)
        &&& self.out_proj.wf_in(g)
    }

    /// The module's tensors with their expected shapes, projection by projection.
    pub open spec fn shapes(&self) -> Seq<(Tensor, Seq<usize>)> {
        self.q_proj.shapes() + self.k_proj.shapes() + self.v_proj.shapes() + self.out_proj.shapes()
    }

    /// The module's learnable tensors, projection by projection.
    pub open spec fn param_seq(&self) -> Seq<Tensor> {
        self.q_proj.param_seq() + self.k_proj.param_seq() + self.v_proj.param_seq() + self.out_proj.param_seq()
    }

    /// Queries from a rank-3 `x` can attend to keys and values from a rank-3 `m` (with the
    /// batch size of `x`): every projection accepts its input and every split into heads and
    /// the final merge keep the number of elements.
    pub open spec fn attend_ok(&self, x: Seq<usize>, m: Seq<usize>) -> bool {
        let heads_q = seq![x[0], x[1], self.num_heads, self.head_dim];
        let heads_kv = seq![x[0], m[1], self.num_heads, self.head_dim];
        &&& self.q_proj.accepts(x)
        &&& self.k_proj.accepts(m)
        &&& self.v_proj.accepts(m)
        &&& reshape_ok(linear_out(x, self.q_proj.out_features), heads_q)
        &&& reshape_ok(linear_out(m, self.k_proj.out_features), heads_kv)
        &&& reshape_ok(linear_out(m, self.v_proj.out_features), heads_kv)
        &&& reshape_ok(seq![x[0], x[1], self.num_heads, self.head_dim], seq![x[0], x[1], x[2]])
        &&& self.out_proj.accepts(seq![x[0], x[1], x[2]])
    }

    /// Self-attention accepts input of shape `x`.
    pub open spec fn accepts(&self, x: Seq<usize>) -> bool {
        x.len() == 3 && self.attend_ok(x, x)
    }

    /// Cross-attention accepts queries of shape `x` and memory of shape `m`.
    pub open spec fn accepts_cross(&self, x: Seq<usize>, m: Seq<usize>) -> bool {
        &&& x.len() == 3
        &&& m.len() == 3
        &&& x[0] == m[0]
        &&& x[2] == m[2]
        &&& self.attend_ok(x, m)
    }

    /// Shape of the output for queries of shape `x`.
    pub open spec fn out_shape(&self, x: Seq<usize>) -> Seq<usize> {
        seq![x[0], x[1], self.out_proj.out_features]
    }

    /// An attention module with four `d_model x d_model` projections and
    /// `head_dim = d_model / num_heads`.
    pub fn new(g: &mut Graph, d_model: usize, num_heads: usize, is_causal: bool) -> (r: MultiHeadAttention)
        requires
            old(g).wf(),
            num_heads > 0,
            d_model % num_heads == 0,
        ensures
            final(g).wf(),
            old(g).extended_by(*final(g)),
            r.wf_in(*final(g)),
            r.q_proj.in_features == d_model && r.q_proj.out_features == d_model,
            r.k_proj.in_features == d_model && r.k_proj.out_features == d_model,
            r.v_proj.in_features == d_model && r.v_proj.out_features == d_model,
            r.out_proj.in_features == d_model && r.out_proj.out_features == d_model,
            r.q_proj.bias is Some && r.k_proj.bias is Some && r.v_proj.bias is Some && r.out_proj.bias is Some,
            r.num_heads == num_heads,
            r.d_model == d_model,
            r.head_dim == d_model / num_heads,
            r.head_dim * num_heads == d_model,
            r.is_causal == is_causal,
            r.consistent(),
    {
        let head_dim = d_model / num_heads;
        proof {
            vstd::arithmetic::div_mod::lemma_fundamental_div_mod(d_model as int, num_heads as int);
            assert(head_dim * num_heads == d_model) by (nonlinear_arith)
                requires
                    d_model == num_heads * (d_model / num_heads) + d_model % num_heads,
                    d_model % num_heads == 0,
                    head_dim == d_model / num_heads,
            ;
        }
        let ghost g0 = *g;
        let q_proj = Linear::new(g, d_model, d_model);
        let ghost g1 = *g;
        let k_proj = Linear::new(g, d_model, d_model);
        let ghost g2 = *g;
        let v_proj = Linear::new(g, d_model, d_model);
        let ghost g3 = *g;
        let out_proj = Linear::new(g, d_model, d_model);
        proof {
            g0.lemma_extended_trans(g1, g2);
            g0.lemma_extended_trans(g2, g3);
            g0.lemma_extended_trans(g3, *g);
        }
        MultiHeadAttention { q_proj, k_proj, v_proj, out_proj, num_heads, d_model, head_dim, is_causal }
    }

    /// Attention of queries from `x` over keys and values from `memory`, with the causal mask
    /// added to the scores when `masked`.
    #[verifier::rlimit(50)]
    fn attend(&self, g: &mut Graph, x: &Tensor, memory: &Tensor, masked: bool) -> (r: Result<Tensor, EngineError>)
        requires
            old(g).wf(),
            self.wf_in(*old(g)),
            x.valid(*old(g)),
            memory.valid(*old(g)),
            x.shape_of(*old(g)).len() == 3,
            memory.shape_of(*old(g)).len() == 3,
            x.shape_of(*old(g))[0] == memory.shape_of(*old(g))[0],
            masked ==> x.shape_of(*old(g)) == memory.shape_of(*old(g)),
        ensures
            final(g).wf(),
            old(g).extended_by(*final(g)),
            r is Ok <==> self.attend_ok(x.shape_of(*old(g)), memory.shape_of(*old(g))),
            r matches Ok(t) ==> t.valid(*final(g)) && t.shape_of(*final(g)) == self.out_shape(x.shape_of(*old(g))),
            r matches Ok(t) ==> attention_result(*final(g), t.id as int, *self, x.id as int, memory.id as int,
                if masked { Some(LeafInit::CausalMask { offset: 0 }) } else { None }),
    {
        let ghost g0 = *g;
        let ghost xs0 = x.shape_of(*g);
        let ghost ms0 = memory.shape_of(*g);
        let xs = x.shape(g);
        let ms = memory.shape(g);
        let b = xs[0];
        let tq = xs[1];
        let c = xs[2];
        let tkv = ms[1];
        let h = self.num_heads;
        let d = self.head_dim;
        let q = self.q_proj.forward_linear(g, x)?;
        let ghost ga = *g;
        let ghost q_lin = q.id as int;
        let k = self.k_proj.forward_linear(g, memory)?;
        let ghost gb = *g;
        let ghost k_lin = k.id as int;
        proof { g0.lemma_extended_trans(ga, gb); }
        let v = self.v_proj.forward_linear(g, memory)?;
        let ghost gc = *g;
        let ghost v_lin = v.id as int;
        proof { g0.lemma_extended_trans(gb, gc); }
        let q = split_heads(g, &q, b, tq, h, d)?;
        let ghost gd = *g;
        proof { g0.lemma_extended_trans(gc, gd); }
        let k = split_heads(g, &k, b, tkv, h, d)?;
        let ghost ge = *g;
        proof { g0.lemma_extended_trans(gd, ge); }
        let v = split_heads(g, &v, b, tkv, h, d)?;
        let ghost gf = *g;
        proof {
            g0.lemma_extended_trans(ge, gf);
            assert(transpose_spec(seq![b, h, tkv, d], 2, 3) =~= seq![b, h, d, tkv]);
            lemma_matmul_4d(b, h, tq, d, tkv);
            lemma_matmul_4d(b, h, tq, tkv, d);
            lemma_broadcast_scalar(seq![b, h, tq, tkv]);
            lemma_broadcast_heads(b, h, tq, tq);
        }
        let k_t = k.transpose(g, 2, 3)?;
        let ghost g1 = *g;
        let scores = q.matmul(g, &k_t)?;
        let ghost g2 = *g;
        let scale = Tensor::leaf(g, Vec::new().as_slice(), LeafInit::InvSqrt { n: d }, false);
        let ghost g3 = *g;
        let scaled = scores.mul(g, &scale)?;
        let ghost g4 = *g;
        proof {
            g0.lemma_extended_trans(gf, g1);
            g0.lemma_extended_trans(g1, g2);
            g0.lemma_extended_trans(g2, g3);
            g0.lemma_extended_trans(g3, g4);
        }
        let scaled = if masked {
            let mask = Tensor::leaf(g, shape4(1, 1, tq, tq).as_slice(), LeafInit::CausalMask { offset: 0 }, false);
            let ghost g5 = *g;
            proof { g0.lemma_extended_trans(g4, g5); }
            let t = scaled.add(g, &mask)?;
            proof {
                g0.lemma_extended_trans(g5, *g);
                assert(g.nodes@[mask.id as int] == g5.nodes@[mask.id as int]);
                assert(g.nodes@[t.id as int].inputs@[0] == scaled.id);
            }
            t
        } else {
            scaled
        };
        let ghost g6 = *g;
        assert(scaled.shape_of(g6) == seq![b, h, tq, tkv]);
        let weights = scaled.softmax(g, 3)?;
        let ghost g7 = *g;
        let context = weights.matmul(g, &v)?;
        let ghost g8 = *g;
        proof {
            g0.lemma_extended_trans(g6, g7);
            g0.lemma_extended_trans(g7, g8);
        }
        let merged = merge_heads(g, &context, b, tq, h, d, c)?;
        let ghost g9 = *g;
        proof { g0.lemma_extended_trans(g8, g9); }
        let out = self.out_proj.forward_linear(g, &merged)?;
        proof {
            g0.lemma_extended_trans(g9, *g);
            let gz = *g;
            let mask = if masked { Some(LeafInit::CausalMask { offset: 0 }) } else { None };
            // the projections read what they project and their weights
            ga.lemma_extended_trans(gb, gc);
            ga.lemma_extended_trans(gc, gd);
            gb.lemma_extended_trans(gc, gd);
            gb.lemma_extended_trans(gd, ge);
            gc.lemma_extended_trans(gd, ge);
            gc.lemma_extended_trans(ge, gf);
            lemma_reads_extend(ga, gd, q_lin, x.id as int);
            lemma_reads_extend(ga, gd, q_lin, self.q_proj.weight.id as int);
            lemma_reads_trans(gd, q.id as int, q_lin, x.id as int);
            lemma_reads_trans(gd, q.id as int, q_lin, self.q_proj.weight.id as int);
            lemma_reads_extend(gb, ge, k_lin, memory.id as int);
            lemma_reads_extend(gb, ge, k_lin, self.k_proj.weight.id as int);
            lemma_reads_trans(ge, k.id as int, k_lin, memory.id as int);
            lemma_reads_trans(ge, k.id as int, k_lin, self.k_proj.weight.id as int);
            lemma_reads_extend(gc, gf, v_lin, memory.id as int);
            lemma_reads_extend(gc, gf, v_lin, self.v_proj.weight.id as int);
            lemma_reads_trans(gf, v.id as int, v_lin, memory.id as int);
            lemma_reads_trans(gf, v.id as int, v_lin, self.v_proj.weight.id as int);
            // the attention in the graph after the product with the values
            g1.lemma_extended_trans(g2, g4);
            g2.lemma_extended_trans(g4, g6);
            g4.lemma_extended_trans(g6, g8);
            g1.lemma_extended_trans(g4, g8);
            g2.lemma_extended_trans(g6, g8);
            g6.lemma_extended_trans(g7, g8);
            assert(g8.nodes@[k_t.id as int] == g1.nodes@[k_t.id as int]);
            assert(g8.nodes@[scores.id as int] == g2.nodes@[scores.id as int]);
            assert(g8.nodes@[weights.id as int] == g7.nodes@[weights.id as int]);
            assert(g8.nodes@[scaled.id as int] == g6.nodes@[scaled.id as int]);
            assert(attention_core(g8, context.id as int, q.id as int, k.id as int, v.id as int, mask));
            g8.lemma_extended_trans(g9, gz);
            gd.lemma_extended_trans(gf, g8);
            ge.lemma_extended_trans(gf, g8);
            lemma_reads_extend(gd, gz, q.id as int, x.id as int);
            lemma_reads_extend(gd, gz, q.id as int, self.q_proj.weight.id as int);
            lemma_reads_extend(ge, gz, k.id as int, memory.id as int);
            lemma_reads_extend(ge, gz, k.id as int, self.k_proj.weight.id as int);
            lemma_reads_extend(gf, gz, v.id as int, memory.id as int);
            lemma_reads_extend(gf, gz, v.id as int, self.v_proj.weight.id as int);
            lemma_attention_core_extend(g8, gz, context.id as int, q.id as int, k.id as int, v.id as int, mask);
            lemma_reads_extend(g9, gz, merged.id as int, context.id as int);
            assert(attention_witness(gz, out.id as int, *self, x.id as int, memory.id as int, mask,
                merged.id as int, context.id as int, q.id as int, k.id as int, v.id as int));
        }
        Ok(out)
    }

    /// Self-attention over `[batch, seq, channels]` input, causal when the module is and the
    /// sequence is longer than one step; any other rank is refused.
    pub fn forward_attention(&self, g: &mut Graph, x: &Tensor) -> (r: Result<Tensor, EngineError>)
        requires
            old(g).wf(),
            self.wf_in(*old(g)),
            x.valid(*old(g)),
        ensures
            final(g).wf(),
            old(g).extended_by(*final(g)),
            r is Ok <==> self.accepts(x.shape_of(*old(g))),
            r matches Ok(t) ==> t.valid(*final(g)) && t.shape_of(*final(g)) == self.out_shape(x.shape_of(*old(g))),
            r matches Ok(t) ==> attention_result(*final(g), t.id as int, *self, x.id as int, x.id as int,
                self_attention_mask(self.is_causal, x.shape_of(*old(g))[1])),
            r matches Ok(t) ==> (!self.is_causal || x.shape_of(*old(g))[1] <= 1
                ==> attention_result(*final(g), t.id as int, *self, x.id as int, x.id as int, None)),
            r matches Ok(t) ==> (self.is_causal && x.shape_of(*old(g))[1] > 1
                ==> attention_result(*final(g), t.id as int, *self, x.id as int, x.id as int, Some(LeafInit::CausalMask { offset: 0 }))),
            x.shape_of(*old(g)).len() != 3 ==> (r matches Err(e) && e is IncompatibleShapes && *final(g) == *old(g)),
    {
        let shape = x.shape(g);
        if shape.len() != 3 {
            let mut shapes: Vec<Vec<usize>> = Vec::new();
            shapes.push(shape);
            return Err(EngineError::IncompatibleShapes {
                op: "MultiHeadAttention forward (expected 3D input [B, T, C])",
                shapes,
            });
        }
        let masked = self.is_causal && shape[1] > 1;
        self.attend(g, x, x, masked)
    }

    /// Attention of queries from `x` (`[batch, q_len, channels]`) over keys and values from
    /// `memory` (`[batch, kv_len, channels]`), without a mask; ranks other than 3 or a
    /// mismatch of batch size or channels are refused.
    pub fn forward_cross_attention(&self, g: &mut Graph, x: &Tensor, memory: &Tensor) -> (r: Result<Tensor, EngineError>)
        requires
            old(g).wf(),
            self.wf_in(*old(g)),
            x.valid(*old(g)),
            memory.valid(*old(g)),
        ensures
            final(g).wf(),
            old(g).extended_by(*final(g)),
            r is Ok <==> self.accepts_cross(x.shape_of(*old(g)), memory.shape_of(*old(g))),
            r matches Ok(t) ==> t.valid(*final(g)) && t.shape_of(*final(g)) == self.out_shape(x.shape_of(*old(g))),
            r matches Ok(t) ==> attention_result(*final(g), t.id as int, *self, x.id as int, memory.id as int, None),
            ({
                let xs = x.shape_of(*old(g));
                let ms = memory.shape_of(*old(g));
                (xs.len() != 3 || ms.len() != 3 || xs[0] != ms[0] || xs[2] != ms[2])
                    ==> (r matches Err(e) && e is IncompatibleShapes && *final(g) == *old(g))
            }),
    {
        let x_shape = x.shape(g);
        let mem_shape = memory.shape(g);
        if x_shape.len() != 3 || mem_shape.len() != 3 {
            let mut shapes: Vec<Vec<usize>> = Vec::new();
            shapes.push(x_shape);
            shapes.push(mem_shape);
            return Err(EngineError::IncompatibleShapes {
                op: "MultiHeadAttention cross-attention (expected 3D query [B, T_q, C] and 3D memory [B, T_kv, C])",
                shapes,
            });
        }
        if x_shape[0] != mem_shape[0] || x_shape[2] != mem_shape[2] {
            let mut shapes: Vec<Vec<usize>> = Vec::new();
            shapes.push(x_shape);
            shapes.push(mem_shape);
            return Err(EngineError::IncompatibleShapes {
                op: "MultiHeadAttention cross-attention (batch size and channel dim must match)",
                shapes,
            });
        }
        self.attend(g, x, memory, false)
    }
}

impl Module for MultiHeadAttention {
    open spec fn mode_is(&self, training: bool) -> bool {
        true
    }

    open spec fn param_list(&self) -> Seq<Tensor> {
        self.param_seq()
    }

    open spec fn buffer_shapes(&self) -> Seq<(usize, Seq<usize>)> {
        Seq::empty()
    }

    open spec fn tensor_shapes(&self) -> Seq<(Tensor, Seq<usize>)> {
        self.shapes()
    }

    fn forward(&self, g: &mut Graph, input: &Tensor) -> (r: Result<Tensor, EngineError>)
        ensures
            r is Ok <==> self.accepts(input.shape_of(*old(g))),
            r matches Ok(t) ==> t.shape_of(*final(g)) == self.out_shape(input.shape_of(*old(g))),
            r matches Ok(t) ==> attention_result(*final(g), t.id as int, *self, input.id as int, input.id as int,
                self_attention_mask(self.is_causal, input.shape_of(*old(g))[1])),
            r matches Ok(t) ==> (!self.is_causal ==> attention_result(*final(g), t.id as int, *self, input.id as int, input.id as int, None)),
    {
        proof {
            self.lemma_wf_in_shapes(*g);
        }
        self.forward_attention(g, input)
    }

    fn parameters(&self) -> (r: Vec<Tensor>)
        ensures
            r@ == self.param_seq(),
    {
        proof {
            assert forall|g: Graph| #[trigger] shapes_hold(g, self.tensor_shapes()) implies
                forall|k: int| 0 <= k < self.param_seq().len() ==> (#[trigger] self.param_seq()[k]).valid(g) by {
                self.lemma_wf_in_shapes(g);
                assert forall|k: int| 0 <= k < self.param_seq().len() implies (#[trigger] self.param_seq()[k]).valid(g) by {
                    let a = self.q_proj.param_seq();
                    let b = self.k_proj.param_seq();
                    let c = self.v_proj.param_seq();
                    let d = self.out_proj.param_seq();
                    if k < a.len() {
                        assert(self.param_seq()[k] == a[k]);
                    } else if k < a.len() + b.len() {
                        assert(self.param_seq()[k] == b[k - a.len()]);
                    } else if k < a.len() + b.len() + c.len() {
                        assert(self.param_seq()[k] == c[k - a.len() - b.len()]);
                    } else {
                        assert(self.param_seq()[k] == d[k - a.len() - b.len() - c.len()]);
                    }
                }
            }
        }
        let mut params = self.q_proj.parameters();
        let mut k = self.k_proj.parameters();
        let mut v = self.v_proj.parameters();
        let mut o = self.out_proj.parameters();
        params.append(&mut k);
        params.append(&mut v);
        params.append(&mut o);
        assert(params@ =~= self.param_seq());
        params
    }

    /// Nothing switches between training and evaluation.
    fn train(&mut self) {
    }

    /// Nothing switches between training and evaluation.
    fn eval(&mut self) {
    }
}

impl MultiHeadAttention {
    /// `wf_in` says the same as the list of expected shapes.
    pub proof fn lemma_wf_in_shapes(&self, g: Graph)
        ensures
            self.wf_in(g) <==> shapes_hold(g, self.shapes()),
    {
        let a = self.q_proj.shapes();
        let b = self.k_proj.shapes();
        let c = self.v_proj.shapes();
        let d = self.out_proj.shapes();
        lemma_shapes_hold_concat(g, a + b + c, d);
        lemma_shapes_hold_concat(g, a + b, c);
        lemma_shapes_hold_concat(g, a, b);
        self.q_proj.lemma_wf_in_shapes(g);
        self.k_proj.lemma_wf_in_shapes(g);
        self.v_proj.lemma_wf_in_shapes(g);
        self.out_proj.lemma_wf_in_shapes(g);
    }
}

impl MultiHeadAttention {
    /// The projections are `d_model x d_model` and the heads split `d_model` exactly, as
    /// `new` makes them.
    pub open spec fn consistent(&self) -> bool {
        &&& self.q_proj.in_features == self.d_model && self.q_proj.out_features == self.d_model
        &&& self.k_proj.in_features == self.d_model && self.k_proj.out_features == self.d_model
        &&& self.v_proj.in_features == self.d_model && self.v_proj.out_features == self.d_model
        &&& self.out_proj.in_features == self.d_model && self.out_proj.out_features == self.d_model
        &&& self.num_heads * self.head_dim == self.d_model
    }
}

/// Self-attention keeps the shape of its input: a consistent module accepts
/// `[batch, seq, d_model]` input exactly when its element count, also counted by heads, can be
/// computed, and its output then has the shape of the input.
pub proof fn lemma_attention_preserves_shape(m: MultiHeadAttention, x: Seq<usize>)
    requires
        m.consistent(),
        x.len() == 3,
    ensures
        m.accepts(x) <==> x[2] == m.d_model && shape_fits(x) && shape_fits(seq![x[0], x[1], m.num_heads, m.head_dim]),
        m.accepts(x) ==> m.out_shape(x) == x,
{
    let hd = seq![x[0], x[1], m.num_heads, m.head_dim];
    if x[2] == m.d_model {
        assert(linear_out(x, m.d_model) =~= x);
        assert(seq![x[0], x[1], x[2]] =~= x);
        assert(hd.drop_last().drop_last() =~= x.drop_last());
        assert(hd.drop_last().drop_last().drop_last() =~= x.drop_last().drop_last());
        assert(x.drop_last().drop_last().drop_last() =~= Seq::<usize>::empty());
        let bt = numel_spec(x.drop_last());
        assert(numel_spec(x) == bt * x[2]);
        assert(numel_spec(hd.drop_last().drop_last()) == bt);
        assert(hd.drop_last().last() == m.num_heads);
        assert(numel_spec(hd.drop_last()) == bt * m.num_heads);
        assert(numel_spec(hd) == (bt * m.num_heads) * m.head_dim);
        assert((bt * m.num_heads) * m.head_dim == bt * (m.num_heads * m.head_dim)) by (nonlinear_arith);
    }
    assert(m.out_shape(x) == seq![x[0], x[1], m.d_model]);
    if m.accepts(x) {
        assert(seq![x[0], x[1], m.d_model] =~= x);
    }
}

} // verus!