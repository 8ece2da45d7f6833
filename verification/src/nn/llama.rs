//! Building blocks of LLaMA-style decoders: rotary position embeddings, grouped-query
//! attention with an optional key/value cache, and the SwiGLU feed-forward network.

use vstd::prelude::*;
use crate::autograd::node::{Graph, LeafInit, Op};
use crate::autograd::tensor::{lemma_reads_extend, lemma_reads_in_range, lemma_reads_self, lemma_reads_through, lemma_reads_trans, reads};
use crate::autograd::tensor::{
    Tensor, agrees_with, cat2_ok, cat2_spec, cat_spec, cat_total, lemma_cat_pair, reshape_ok,
};
use crate::error::EngineError;
use crate::nn::linear::{Linear, lemma_linear_result_extend, linear_out, linear_result};
use crate::nn::module::{Module, lemma_shapes_hold_concat, shapes_hold};
use crate::nn::attention::{attention_core, lemma_attention_core_extend, split_heads};
use crate::shape::{
    broadcast_spec, broadcastable, has_elements, lemma_broadcast_heads, lemma_broadcast_scalar, matmul_ok, matmul_spec,
    shape3, shape4, shape_has_elements, slice_spec, transpose_spec, unsqueeze_spec,
};

verus! {

/// Rotary position embedding: cosine and sine tables of shape `[1, 1, max_seq_len, head_dim]`.
#[derive(Clone, Copy)]
pub struct RotaryEmbedding {
    pub cos_cached: Tensor,
    pub sin_cached: Tensor,
    pub head_dim: usize,
    pub max_seq_len: usize,
}

/// Node `o` of `g` is rotary embedding `rope` applied to node `x` for `t` positions from
/// `start`: `o = x * cos + [-x2, x1] * sin`, where `cos` and `sin` are positions `start..start + t`
/// of the tables and `x1`, `x2` are the first and second halves (`d / 2` entries, then the rest)
/// of `x`'s last axis of size `d`.
pub open spec fn rope_structure(g: Graph, o: int, rope: RotaryEmbedding, x: int, start: int, t: int, d: int) -> bool {
    let ins = |k: int| g.nodes@[k].inputs@;
    let t1 = ins(o)[0] as int;
    let t2 = ins(o)[1] as int;
    let cos = ins(t1)[1] as int;
    let rot = ins(t2)[0] as int;
    let sin = ins(t2)[1] as int;
    let nx2 = ins(rot)[0] as int;
    let x1 = ins(rot)[1] as int;
    let x2 = ins(nx2)[0] as int;
    &&& g.nodes@[o].op == Op::Add && ins(o).len() == 2
    &&& g.nodes@[t1].op == Op::Mul && ins(t1).len() == 2 && ins(t1)[0] == x
    &&& g.nodes@[cos].op == (Op::Slice { axis: 2, start: start as usize, end: (start + t) as usize })
    &&& ins(cos) == seq![rope.cos_cached.id]
    &&& g.nodes@[t2].op == Op::Mul && ins(t2).len() == 2
    &&& g.nodes@[sin].op == (Op::Slice { axis: 2, start: start as usize, end: (start + t) as usize })
    &&& ins(sin) == seq![rope.sin_cached.id]
    &&& g.nodes@[rot].op == (Op::Cat { axis: 3 }) && ins(rot).len() == 2
    &&& g.nodes@[nx2].op == Op::Neg && ins(nx2).len() == 1
    &&& g.nodes@[x2].op == (Op::Slice { axis: 3, start: (d / 2) as usize, end: d as usize }) && ins(x2) == seq![x as usize]
    &&& g.nodes@[x1].op == (Op::Slice { axis: 3, start: 0, end: (d / 2) as usize }) && ins(x1) == seq![x as usize]
}

/// Rotary embedding multiplies the input itself by the cosine table and the rotated halves,
/// whose first half is the negated second half of the input, by the sine table, both tables
/// read at the positions from `start`.
pub proof fn lemma_rope_rotation(g: Graph, o: int, rope: RotaryEmbedding, x: int, start: int, t: int, d: int)
    requires
        rope_structure(g, o, rope, x, start, t, d),
    ensures
        ({
            let t1 = g.nodes@[o].inputs@[0] as int;
            let t2 = g.nodes@[o].inputs@[1] as int;
            let rot = g.nodes@[t2].inputs@[0] as int;
            let nx2 = g.nodes@[rot].inputs@[0] as int;
            &&& g.nodes@[t1].inputs@[0] == x
            &&& g.nodes@[g.nodes@[t1].inputs@[1] as int].inputs@ == seq![rope.cos_cached.id]
            &&& g.nodes@[g.nodes@[t2].inputs@[1] as int].inputs@ == seq![rope.sin_cached.id]
            &&& g.nodes@[nx2].op == Op::Neg
            &&& g.nodes@[g.nodes@[nx2].inputs@[0] as int].op == (Op::Slice { axis: 3, start: (d / 2) as usize, end: d as usize })
        }),
{
}

impl RotaryEmbedding {
    /// Both tables live in `g` with shape `[1, 1, max_seq_len, head_dim]`.
    pub open spec fn wf_in(&self, g: Graph) -> bool {
        &&& self.cos_cached.valid(g)
        &&& self.sin_cached.valid(g)
        &&& self.cos_cached.shape_of(g) == seq![1usize, 1usize, self.max_seq_len, self.head_dim]
        &&& self.sin_cached.shape_of(g) == seq![1usize, 1usize, self.max_seq_len, self.head_dim]
    }

    /// Positions `[start_pos, start_pos + seq_len)` of a `[batch, heads, seq_len, head_dim]`
    /// tensor `x` can be rotated.
    pub open spec fn accepts(&self, x: Seq<usize>, start_pos: usize) -> bool {
        &&& x.len() == 4
        &&& x[3] == self.head_dim
        &&& start_pos + x[2] <= self.max_seq_len
    }

    /// Tables for `max_seq_len` positions of an even `head_dim`, with base `theta` given by
    /// the bit pattern of an `f32`.
    pub fn new(g: &mut Graph, head_dim: usize, max_seq_len: usize, theta_bits: u32) -> (r: RotaryEmbedding)
        requires
            old(g).wf(),
            head_dim % 2 == 0,
        ensures
            final(g).wf(),
            old(g).extended_by(*final(g)),
            r.wf_in(*final(g)),
            r.head_dim == head_dim,
            r.max_seq_len == max_seq_len,
            final(g).nodes@[r.cos_cached.id as int].op == crate::autograd::node::Op::Leaf(LeafInit::RopeTable { sine: false, head_dim, theta_bits }),
            final(g).nodes@[r.sin_cached.id as int].op == crate::autograd::node::Op::Leaf(LeafInit::RopeTable { sine: true, head_dim, theta_bits }),
            !final(g).nodes@[r.cos_cached.id as int].requires_grad,
            !final(g).nodes@[r.sin_cached.id as int].requires_grad,
    {
        let ghost g0 = *g;
        let cos_cached = Tensor::leaf(g, shape4(1, 1, max_seq_len, head_dim).as_slice(), LeafInit::RopeTable { sine: false, head_dim, theta_bits }, false);
        let ghost g1 = *g;
        let sin_cached = Tensor::leaf(g, shape4(1, 1, max_seq_len, head_dim).as_slice(), LeafInit::RopeTable { sine: true, head_dim, theta_bits }, false);
        proof {
            g0.lemma_extended_trans(g1, *g);
        }
        RotaryEmbedding { cos_cached, sin_cached, head_dim, max_seq_len }
    }

    /// Rotates `x` (`[batch, heads, seq_len, head_dim]`) for positions starting at
    /// `start_pos`: `x * cos + rotate_half(x) * sin`, where `rotate_half([x1, x2]) = [-x2, x1]`
    /// splits the last axis in halves.
    pub fn apply(&self, g: &mut Graph, x: &Tensor, start_pos: usize) -> (r: Result<Tensor, EngineError>)
        requires
            old(g).wf(),
            self.wf_in(*old(g)),
            x.valid(*old(g)),
        ensures
            final(g).wf(),
            old(g).extended_by(*final(g)),
            r is Ok <==> self.accepts(x.shape_of(*old(g)), start_pos),
            r matches Ok(t) ==> t.valid(*final(g)) && t.shape_of(*final(g)) == x.shape_of(*old(g)),
            r matches Ok(t) ==> final(g).nodes@[t.id as int].op == Op::Add && reads(*final(g), t.id as int, x.id as int),
            r matches Ok(t) ==> rope_structure(*final(g), t.id as int, *self, x.id as int, start_pos as int,
                x.shape_of(*old(g))[2] as int, self.head_dim as int),
            r matches Err(e) ==> *final(g) == *old(g) && ({
                let s = x.shape_of(*old(g));
                if s.len() != 4 {
                    e is InvalidArgument
                } else if s[3] != self.head_dim {
                    e matches EngineError::ShapeMismatch { expected, actual }
                        && expected@ == seq![self.head_dim] && actual@ == seq![s[3]]
                } else {
                    e is InvalidArgument
                }
            }),
    {
        let ghost g0 = *g;
        let shape = x.shape(g);
        if shape.len() != 4 {
            return Err(EngineError::InvalidArgument(
                "RoPE apply expects a 4D tensor [Batch, Heads, SeqLen, HeadDim]".to_string(),
            ));
        }
        let t = shape[2];
        let d = shape[3];
        if d != self.head_dim {
            let mut expected: Vec<usize> = Vec::new();
            expected.push(self.head_dim);
            let mut actual: Vec<usize> = Vec::new();
            actual.push(d);
            proof {
                assert(expected@ =~= seq![self.head_dim]);
                assert(actual@ =~= seq![d]);
            }
            return Err(EngineError::ShapeMismatch { expected, actual });
        }
        let end_pos = match start_pos.checked_add(t) {
            Some(e) => e,
            None => {
                return Err(EngineError::InvalidArgument("RoPE start position plus sequence length overflowed".to_string()));
            },
        };
        if end_pos > self.max_seq_len {
            return Err(EngineError::InvalidArgument("RoPE sequence range exceeds the table length".to_string()));
        }
        let ghost xs = x.shape_of(*g);
        let half_d = d / 2;
        let cos = self.cos_cached.slice(g, 2, start_pos, end_pos)?;
        let ghost g1 = *g;
        let sin = self.sin_cached.slice(g, 2, start_pos, end_pos)?;
        let ghost g2 = *g;
        let x1 = x.slice(g, 3, 0, half_d)?;
        let ghost g3 = *g;
        let x2 = x.slice(g, 3, half_d, d)?;
        let ghost g4 = *g;
        let neg_x2 = x2.neg(g);
        let ghost g5 = *g;
        proof {
            g0.lemma_extended_trans(g1, g2);
            g0.lemma_extended_trans(g2, g3);
            g0.lemma_extended_trans(g3, g4);
            g0.lemma_extended_trans(g4, g5);
            assert(slice_spec(seq![1usize, 1usize, self.max_seq_len, d], 2, start_pos as int, end_pos as int) =~= seq![1usize, 1usize, t, d]);
        }
        let mut parts: Vec<Tensor> = Vec::new();
        parts.push(neg_x2);
        parts.push(x1);
        proof {
            let ts = parts@;
            assert(ts[0] == neg_x2 && ts[1] == x1);
            reveal_with_fuel(cat_total, 3);
            assert(agrees_with(ts[1].shape_of(g5), ts[0].shape_of(g5), 3));
            assert(agrees_with(ts[0].shape_of(g5), ts[0].shape_of(g5), 3));
            assert(cat_total(g5, ts, 3, 2) == d);
            assert(cat_spec(g5, ts, 3) =~= xs);
        }
        let rotated = Tensor::cat(g, parts.as_slice(), 3)?;
        let ghost g6 = *g;
        proof {
            g0.lemma_extended_trans(g5, g6);
            lemma_broadcast_heads(xs[0], xs[1], t, d);
            assert(xs =~= seq![xs[0], xs[1], t, d]);
        }
        let term1 = x.mul(g, &cos)?;
        let ghost g7 = *g;
        let term2 = rotated.mul(g, &sin)?;
        let ghost g8 = *g;
        proof {
            g0.lemma_extended_trans(g6, g7);
            g0.lemma_extended_trans(g7, g8);
            crate::shape::lemma_broadcast_self(xs);
        }
        let out = term1.add(g, &term2)?;
        proof {
            g0.lemma_extended_trans(g8, *g);
            lemma_reads_self(g6, x.id as int);
            lemma_reads_through(g6, g7, term1.id as int, 0, x.id as int);
            lemma_reads_extend(g7, g8, term1.id as int, x.id as int);
            lemma_reads_through(g8, *g, out.id as int, 0, x.id as int);
            let gz = *g;
            g1.lemma_extended_trans(g2, gz);
            g2.lemma_extended_trans(g3, gz);
            g3.lemma_extended_trans(g4, gz);
            g4.lemma_extended_trans(g5, gz);
            g5.lemma_extended_trans(g6, gz);
            g6.lemma_extended_trans(g7, gz);
            g7.lemma_extended_trans(g8, gz);
            g0.lemma_extended_trans(g1, gz);
            assert(gz.nodes@[cos.id as int] == g1.nodes@[cos.id as int]);
            assert(gz.nodes@[sin.id as int] == g2.nodes@[sin.id as int]);
            assert(gz.nodes@[x1.id as int] == g3.nodes@[x1.id as int]);
            assert(gz.nodes@[x2.id as int] == g4.nodes@[x2.id as int]);
            assert(gz.nodes@[neg_x2.id as int] == g5.nodes@[neg_x2.id as int]);
            assert(gz.nodes@[rotated.id as int] == g6.nodes@[rotated.id as int]);
            assert(gz.nodes@[term1.id as int] == g7.nodes@[term1.id as int]);
            assert(gz.nodes@[term2.id as int] == g8.nodes@[term2.id as int]);
            assert(crate::autograd::tensor::ids_of(parts@) =~= seq![neg_x2.id, x1.id]);
        }
        Ok(out)
    }
}

/// SwiGLU feed-forward network: `down_proj(silu(gate_proj(x)) * up_proj(x))`.
#[derive(Clone, Copy)]
pub struct SwiGLU {
    pub gate_proj: Linear,
    pub up_proj: Linear,
    pub down_proj: Linear,
}

impl SwiGLU {
    /// Three bias-free projections: `d_model -> hidden_dim` (gate and up) and
    /// `hidden_dim -> d_model` (down).
    pub fn new(g: &mut Graph, d_model: usize, hidden_dim: usize) -> (r: SwiGLU)
        requires
            old(g).wf(),
        ensures
            final(g).wf(),
            old(g).extended_by(*final(g)),
            r.wf_in(*final(g)),
            r.gate_proj.in_features == d_model && r.gate_proj.out_features == hidden_dim,
            r.up_proj.in_features == d_model && r.up_proj.out_features == hidden_dim,
            r.down_proj.in_features == hidden_dim && r.down_proj.out_features == d_model,
            r.gate_proj.bias is None && r.up_proj.bias is None && r.down_proj.bias is None,
    {
        let ghost g0 = *g;
        let gate_proj = Linear::without_bias(g, d_model, hidden_dim);
        let ghost g1 = *g;
        let up_proj = Linear::without_bias(g, d_model, hidden_dim);
        let ghost g2 = *g;
        let down_proj = Linear::without_bias(g, hidden_dim, d_model);
        proof {
            g0.lemma_extended_trans(g1, g2);
            g0.lemma_extended_trans(g2, *g);
        }
        SwiGLU { gate_proj, up_proj, down_proj }
    }

    /// The three projections live in `g` with their expected shapes.
    pub open spec fn wf_in(&self, g: Graph) -> bool {
        &&& self.gate_proj.wf_in(g)
        &&& self.up_proj.wf_in(g)
        &&& self.down_proj.wf_in(g)
    }

    /// The network accepts input of shape `x`.
    pub open spec fn accepts(&self, x: Seq<usize>) -> bool {
        let gs = linear_out(x, self.gate_proj.out_features);
        let us = linear_out(x, self.up_proj.out_features);
        &&& self.gate_proj.accepts(x)
        &&& self.up_proj.accepts(x)
        &&& broadcastable(gs, us)
        &&& self.down_proj.accepts(broadcast_spec(gs, us))
    }

    /// Shape of the output for input of shape `x`.
    pub open spec fn out_shape(&self, x: Seq<usize>) -> Seq<usize> {
        linear_out(
            broadcast_spec(linear_out(x, self.gate_proj.out_features), linear_out(x, self.up_proj.out_features)),
            self.down_proj.out_features,
        )
    }

    /// The network's tensors with their expected shapes.
    pub open spec fn shapes(&self) -> Seq<(Tensor, Seq<usize>)> {
        self.gate_proj.shapes() + self.up_proj.shapes() + self.down_proj.shapes()
    }

    /// The network's learnable tensors.
    pub open spec fn param_seq(&self) -> Seq<Tensor> {
        self.gate_proj.param_seq() + self.up_proj.param_seq() + self.down_proj.param_seq()
    }

    /// `wf_in` says the same as the list of expected shapes.
    pub proof fn lemma_wf_in_shapes(&self, g: Graph)
        ensures
            self.wf_in(g) <==> shapes_hold(g, self.shapes()),
    {
        lemma_shapes_hold_concat(g, self.gate_proj.shapes() + self.up_proj.shapes(), self.down_proj.shapes());
        lemma_shapes_hold_concat(g, self.gate_proj.shapes(), self.up_proj.shapes());
        self.gate_proj.lemma_wf_in_shapes(g);
        self.up_proj.lemma_wf_in_shapes(g);
        self.down_proj.lemma_wf_in_shapes(g);
    }

    /// Applies the network.
    pub fn forward_swiglu(&self, g: &mut Graph, x: &Tensor) -> (r: Result<Tensor, EngineError>)
        requires
            old(g).wf(),
            self.wf_in(*old(g)),
            x.valid(*old(g)),
        ensures
            final(g).wf(),
            old(g).extended_by(*final(g)),
            r is Ok <==> self.accepts(x.shape_of(*old(g))),
            r matches Ok(t) ==> t.valid(*final(g)) && t.shape_of(*final(g)) == self.out_shape(x.shape_of(*old(g))),
            r matches Ok(t) ==> swiglu_result(*final(g), t.id as int, *self, x.id as int),
    {
        let ghost g0 = *g;
        let gate_lin = self.gate_proj.forward_linear(g, x)?;
        let ghost g1 = *g;
        let gate = gate_lin.silu(g)?;
        let ghost g2 = *g;
        proof { g0.lemma_extended_trans(g1, g2); }
        let up = self.up_proj.forward_linear(g, x)?;
        let ghost g3 = *g;
        proof { g0.lemma_extended_trans(g2, g3); }
        let h = gate.mul(g, &up)?;
        let ghost g4 = *g;
        proof { g0.lemma_extended_trans(g3, g4); }
        let out = self.down_proj.forward_linear(g, &h)?;
        proof {
            g0.lemma_extended_trans(g4, *g);
            let gz = *g;
            g1.lemma_extended_trans(g2, g3);
            g1.lemma_extended_trans(g3, gz);
            g2.lemma_extended_trans(g3, gz);
            g3.lemma_extended_trans(g4, gz);
            lemma_linear_result_extend(g1, gz, gate_lin.id as int, self.gate_proj, x.id as int);
            lemma_linear_result_extend(g3, gz, up.id as int, self.up_proj, x.id as int);
            assert(gz.nodes@[gate.id as int] == g2.nodes@[gate.id as int]);
            assert(gz.nodes@[h.id as int] == g4.nodes@[h.id as int]);
            assert(swiglu_witness(gz, out.id as int, *self, x.id as int, h.id as int));
        }
        Ok(out)
    }
}

/// Node `h` witnesses that node `o` of `g` is what `f` makes of node `x` (see `swiglu_result`).
pub open spec fn swiglu_witness(g: Graph, o: int, f: SwiGLU, x: int, h: int) -> bool {
    let hin = g.nodes@[h].inputs@;
    let s = hin[0] as int;
    &&& linear_result(g, o, f.down_proj, h)
    &&& g.nodes@[h].op == Op::Mul && hin.len() == 2
    &&& g.nodes@[s].op == Op::Silu && g.nodes@[s].inputs@.len() == 1
    &&& linear_result(g, g.nodes@[s].inputs@[0] as int, f.gate_proj, x)
    &&& linear_result(g, hin[1] as int, f.up_proj, x)
}

/// Node `o` of `g` is what `f` makes of node `x`: the down projection of the product of
/// `silu(gate(x))` with `up(x)`.
pub open spec fn swiglu_result(g: Graph, o: int, f: SwiGLU, x: int) -> bool {
    exists|h: int| #[trigger] swiglu_witness(g, o, f, x, h)
}

/// Recording more nodes keeps what a SwiGLU network made.
pub proof fn lemma_swiglu_result_extend(g1: Graph, g2: Graph, o: int, f: SwiGLU, x: int)
    requires
        g1.wf(),
        0 <= o < g1.nodes@.len(),
        swiglu_result(g1, o, f, x),
        g1.extended_by(g2),
    ensures
        swiglu_result(g2, o, f, x),
{
    let h = choose|h: int| #[trigger] swiglu_witness(g1, o, f, x, h);
    lemma_reads_in_range(g1, o, h);
    lemma_linear_result_extend(g1, g2, o, f.down_proj, h);
    let hin = g1.nodes@[h].inputs@;
    assert(crate::autograd::node::node_wf(g1.nodes@[h], h));
    let s = hin[0] as int;
    assert(crate::autograd::node::node_wf(g1.nodes@[s], s));
    assert(g2.nodes@[h] == g1.nodes@[h]);
    assert(g2.nodes@[s] == g1.nodes@[s]);
    lemma_linear_result_extend(g1, g2, g1.nodes@[s].inputs@[0] as int, f.gate_proj, x);
    lemma_linear_result_extend(g1, g2, hin[1] as int, f.up_proj, x);
    assert(swiglu_witness(g2, o, f, x, h));
}

impl Module for SwiGLU {
    open spec fn mode_is(&self, training: bool) -> bool {
        true
    }

    open spec fn param_list(&self) -> Seq<Tensor> {
        self.param_seq()
    }

    open spec fn buffer_shapes(&self) -> Seq<(usize, Seq<usize>)> {
        Seq::empty()
    }

    open spec fn tensor_shapes(&self) -> Seq<(Tensor, Seq<usize>)> {
        self.shapes()
    }

    fn forward(&self, g: &mut Graph, input: &Tensor) -> (r: Result<Tensor, EngineError>)
        ensures
            r is Ok <==> self.accepts(input.shape_of(*old(g))),
            r matches Ok(t) ==> t.shape_of(*final(g)) == self.out_shape(input.shape_of(*old(g))),
    {
        proof {
            self.lemma_wf_in_shapes(*g);
        }
        self.forward_swiglu(g, input)
    }

    fn parameters(&self) -> (r: Vec<Tensor>)
        ensures
            r@ == self.param_seq(),
    {
        let mut params = self.gate_proj.parameters();
        let mut up = self.up_proj.parameters();
        let mut down = self.down_proj.parameters();
        params.append(&mut up);
        params.append(&mut down);
        assert(params@ =~= self.param_seq());
        assert forall|g: Graph| #[trigger] shapes_hold(g, self.tensor_shapes()) implies
            forall|k: int| 0 <= k < params@.len() ==> (#[trigger] params@[k]).valid(g) by {
            self.lemma_wf_in_shapes(g);
            assert forall|k: int| 0 <= k < params@.len() implies (#[trigger] params@[k]).valid(g) by {
                let a = self.gate_proj.param_seq();
                let b = self.up_proj.param_seq();
                let c = self.down_proj.param_seq();
                if k < a.len() {
                    assert(params@[k] == a[k]);
                } else if k < a.len() + b.len() {
                    assert(params@[k] == b[k - a.len()]);
                } else {
                    assert(params@[k] == c[k - a.len() - b.len()]);
                }
            }
        }
        params
    }

    /// Nothing switches between training and evaluation.
    fn train(&mut self) {
    }

    /// Nothing switches between training and evaluation.
    fn eval(&mut self) {
    }
}

/// Shapes `(keys, values)` attended to once keys and values of shape `kv` are appended to a
/// cache of shapes `cache` along the sequence axis; a cache whose keys hold no element is
/// replaced. `None` where a concatenation is refused.
pub open spec fn attended_kv(cache: Option<(Seq<usize>, Seq<usize>)>, kv: Seq<usize>) -> Option<(Seq<usize>, Seq<usize>)> {
    match cache {
        Some((ck, cv)) => if has_elements(ck) {
            if cat2_ok(ck, kv, 2) && cat2_ok(cv, kv, 2) {
                Some((cat2_spec(ck, kv, 2), cat2_spec(cv, kv, 2)))
            } else {
                None
            }
        } else {
            Some((kv, kv))
        },
        None => Some((kv, kv)),
    }
}

/// Grouped-query attention: `num_heads` query heads share `num_kv_heads` key/value heads,
/// `num_queries_per_kv` query heads per key/value head, with rotary position embeddings.
#[derive(Clone, Copy)]
pub struct GroupedQueryAttention {
    pub q_proj: Linear,
    pub k_proj: Linear,
    pub v_proj: Linear,
    pub o_proj: Linear,
    pub rope: RotaryEmbedding,
    pub num_heads: usize,
    pub num_kv_heads: usize,
    pub head_dim: usize,
    pub num_queries_per_kv: usize,
}

impl GroupedQueryAttention {
    /// The projections and the rotary tables live in `g` with their expected shapes.
    pub open spec fn wf_in(&self, g: Graph) -> bool {
        &&& self.q_proj.wf_in(g)
        &&& self.k_proj.wf_in(g)
        &&& self.v_proj.wf_in(g)
        &&& self.o_proj.wf_in(g)
        &&& self.rope.wf_in(g)
    }

    /// For input of shape `x`, the projections, the split into heads and the rotation of
    /// positions from `start_pos` succeed.
    pub open spec fn prefix_ok(&self, x: Seq<usize>, start_pos: usize) -> bool {
        &&& x.len() == 3
        &&& self.q_proj.accepts(x)
        &&& self.k_proj.accepts(x)
        &&& self.v_proj.accepts(x)
        &&& reshape_ok(linear_out(x, self.q_proj.out_features), seq![x[0], x[1], self.num_heads, self.head_dim])
        &&& reshape_ok(linear_out(x, self.k_proj.out_features), seq![x[0], x[1], self.num_kv_heads, self.head_dim])
        &&& reshape_ok(linear_out(x, self.v_proj.out_features), seq![x[0], x[1], self.num_kv_heads, self.head_dim])
        &&& self.head_dim == self.rope.head_dim
        &&& start_pos + x[1] <= self.rope.max_seq_len
    }

    /// Keys and values (shapes `ka`, `va`) after each key/value head is repeated for its
    /// group of query heads, when a group has more than one head.
    pub open spec fn expand(&self, b: usize, ka: Seq<usize>, va: Seq<usize>) -> Option<(Seq<usize>, Seq<usize>)> {
        if self.num_queries_per_kv > 1 {
            let zeros = seq![b, self.num_kv_heads, self.num_queries_per_kv, ka[2], self.head_dim];
            let target = seq![b, self.num_heads, ka[2], self.head_dim];
            let ku = unsqueeze_spec(ka, 2);
            let vu = unsqueeze_spec(va, 2);
            if broadcastable(ku, zeros) && reshape_ok(broadcast_spec(ku, zeros), target)
                && broadcastable(vu, zeros) && reshape_ok(broadcast_spec(vu, zeros), target) {
                Some((target, target))
            } else {
                None
            }
        } else {
            Some((ka, va))
        }
    }

    /// Output shape of `[b, num_heads, t, head_dim]` queries attending to keys `ke` and values
    /// `ve`, once the heads are merged and projected.
    pub open spec fn attend_out(&self, b: usize, t: usize, ke: Seq<usize>, ve: Seq<usize>) -> Option<Seq<usize>> {
        let q4 = seq![b, self.num_heads, t, self.head_dim];
        let kt = transpose_spec(ke, 2, 3);
        let sc = matmul_spec(q4, kt);
        let ctx = matmul_spec(sc, ve);
        let m3 = seq![b, t, (self.num_heads * self.head_dim) as usize];
        if matmul_ok(q4, kt) && matmul_ok(sc, ve) && reshape_ok(transpose_spec(ctx, 1, 2), m3) && self.o_proj.accepts(m3) {
            Some(linear_out(m3, self.o_proj.out_features))
        } else {
            None
        }
    }

    /// Output shape for input of shape `x`, a cache of shapes `cache` and positions from
    /// `start_pos`; `None` where the call is refused.
    pub open spec fn gqa_out(&self, x: Seq<usize>, cache: Option<(Seq<usize>, Seq<usize>)>, start_pos: usize) -> Option<Seq<usize>> {
        if !self.prefix_ok(x, start_pos) {
            None
        } else {
            match attended_kv(cache, seq![x[0], self.num_kv_heads, x[1], self.head_dim]) {
                None => None,
                Some((ka, va)) => match self.expand(x[0], ka, va) {
                    None => None,
                    Some((ke, ve)) => self.attend_out(x[0], x[1], ke, ve),
                },
            }
        }
    }
}

/// Shapes of the cached keys and values, if there is a cache.
pub open spec fn slot_shapes(g: Graph, slot: Option<(Tensor, Tensor)>) -> Option<(Seq<usize>, Seq<usize>)> {
    match slot {
        Some((k, v)) => Some((k.shape_of(g), v.shape_of(g))),
        None => None,
    }
}

/// Appends `k` and `v` to the cache slot along the sequence axis (or replaces a slot whose
/// keys hold no element) and returns the keys and values to attend to.
fn append_to_cache(g: &mut Graph, cache: Option<&mut (Tensor, Tensor)>, k: Tensor, v: Tensor) -> (r: Result<(Tensor, Tensor), EngineError>)
    requires
        old(g).wf(),
        k.valid(*old(g)),
        v.valid(*old(g)),
        k.shape_of(*old(g)) == v.shape_of(*old(g)),
        cache matches Some(slot) ==> slot.0.valid(*old(g)) && slot.1.valid(*old(g)),
    ensures
        final(g).wf(),
        old(g).extended_by(*final(g)),
        r is Ok <==> attended_kv(slot_shapes(*old(g), match cache { Some(slot) => Some(*slot), None => None }), k.shape_of(*old(g))) is Some,
        r matches Ok((ka, va)) ==> ka.valid(*final(g)) && va.valid(*final(g))
            && attended_kv(slot_shapes(*old(g), match cache { Some(slot) => Some(*slot), None => None }), k.shape_of(*old(g)))
                == Some((ka.shape_of(*final(g)), va.shape_of(*final(g)))),
        match cache {
            Some(slot) => match r {
                Ok(kv) => *final(slot) == kv,
                Err(_) => *final(slot) == *slot,
            },
            None => true,
        },
        r matches Ok((ka, va)) ==> match cache {
            Some(slot) => if has_elements(slot.0.shape_of(*old(g))) {
                &&& final(g).nodes@[ka.id as int].op == (Op::Cat { axis: 2 })
                &&& final(g).nodes@[ka.id as int].inputs@ == seq![slot.0.id, k.id]
                &&& final(g).nodes@[va.id as int].op == (Op::Cat { axis: 2 })
                &&& final(g).nodes@[va.id as int].inputs@ == seq![slot.1.id, v.id]
            } else {
                ka == k && va == v
            },
            None => ka == k && va == v,
        },
{
    let ghost g0 = *g;
    match cache {
        Some(slot) => {
            let ks = slot.0.shape(g);
            if shape_has_elements(ks.as_slice()) {
                let (ck, cv) = *slot;
                proof {
                    lemma_cat_pair(*g, ck, k, 2);
                    lemma_cat_pair(*g, cv, v, 2);
                }
                let mut kparts: Vec<Tensor> = Vec::new();
                kparts.push(ck);
                kparts.push(k);
                assert(kparts@ =~= seq![ck, k]);
                let k_cat = Tensor::cat(g, kparts.as_slice(), 2)?;
                let ghost g1 = *g;
                proof {
                    lemma_cat_pair(g1, cv, v, 2);
                }
                let mut vparts: Vec<Tensor> = Vec::new();
                vparts.push(cv);
                vparts.push(v);
                assert(vparts@ =~= seq![cv, v]);
                let v_cat = match Tensor::cat(g, vparts.as_slice(), 2) {
                    Ok(t) => t,
                    Err(e) => {
                        return Err(e);
                    },
                };
                proof {
                    g0.lemma_extended_trans(g1, *g);
                    assert(g.nodes@[k_cat.id as int] == g1.nodes@[k_cat.id as int]);
                    assert(crate::autograd::tensor::ids_of(seq![ck, k]) =~= seq![ck.id, k.id]);
                    assert(crate::autograd::tensor::ids_of(seq![cv, v]) =~= seq![cv.id, v.id]);
                }
                *slot = (k_cat, v_cat);
                Ok((k_cat, v_cat))
            } else {
                *slot = (k, v);
                Ok((k, v))
            }
        },
        None => Ok((k, v)),
    }
}

impl GroupedQueryAttention {
    /// Projects `x` to queries, keys and values, splits them into heads and rotates queries
    /// and keys for positions from `start_pos`.
    fn project_heads(&self, g: &mut Graph, x: &Tensor, start_pos: usize) -> (r: Result<(Tensor, Tensor, Tensor), EngineError>)
        requires
            old(g).wf(),
            self.wf_in(*old(g)),
            x.valid(*old(g)),
            x.shape_of(*old(g)).len() == 3,
        ensures
            final(g).wf(),
            old(g).extended_by(*final(g)),
            r is Ok <==> self.prefix_ok(x.shape_of(*old(g)), start_pos),
            r matches Ok((q, k, v)) ==> {
                let xs = x.shape_of(*old(g));
                &&& q.valid(*final(g)) && k.valid(*final(g)) && v.valid(*final(g))
                &&& q.shape_of(*final(g)) == seq![xs[0], self.num_heads, xs[1], self.head_dim]
                &&& k.shape_of(*final(g)) == seq![xs[0], self.num_kv_heads, xs[1], self.head_dim]
                &&& v.shape_of(*final(g)) == seq![xs[0], self.num_kv_heads, xs[1], self.head_dim]
            },
            r matches Ok((q, k, v)) ==> {
                &&& reads(*final(g), q.id as int, x.id as int) && reads(*final(g), q.id as int, self.q_proj.weight.id as int)
                &&& reads(*final(g), k.id as int, x.id as int) && reads(*final(g), k.id as int, self.k_proj.weight.id as int)
                &&& reads(*final(g), v.id as int, x.id as int) && reads(*final(g), v.id as int, self.v_proj.weight.id as int)
            },
    {
        let ghost g0 = *g;
        let shape = x.shape(g);
        let b = shape[0];
        let t = shape[1];
        let q = self.q_proj.forward_linear(g, x)?;
        let ghost ga = *g;
        let ghost q_lin = q.id as int;
        let k = self.k_proj.forward_linear(g, x)?;
        let ghost gb = *g;
        let ghost k_lin = k.id as int;
        proof { g0.lemma_extended_trans(ga, gb); }
        let v = self.v_proj.forward_linear(g, x)?;
        let ghost gc = *g;
        let ghost v_lin = v.id as int;
        proof { g0.lemma_extended_trans(gb, gc); }
        let q = split_heads(g, &q, b, t, self.num_heads, self.head_dim)?;
        let ghost gd = *g;
        let ghost q_split = q.id as int;
        proof { g0.lemma_extended_trans(gc, gd); }
        let k = split_heads(g, &k, b, t, self.num_kv_heads, self.head_dim)?;
        let ghost ge = *g;
        let ghost k_split = k.id as int;
        proof { g0.lemma_extended_trans(gd, ge); }
        let v = split_heads(g, &v, b, t, self.num_kv_heads, self.head_dim)?;
        let ghost gf = *g;
        proof { g0.lemma_extended_trans(ge, gf); }
        let q = self.rope.apply(g, &q, start_pos)?;
        let ghost gh = *g;
        proof { g0.lemma_extended_trans(gf, gh); }
        let k = self.rope.apply(g, &k, start_pos)?;
        proof {
            g0.lemma_extended_trans(gh, *g);
            let gz = *g;
            let xi = x.id as int;
            let (wq, wk, wv) = (self.q_proj.weight.id as int, self.k_proj.weight.id as int, self.v_proj.weight.id as int);
            ga.lemma_extended_trans(gb, gc);
            ga.lemma_extended_trans(gc, gd);
            gb.lemma_extended_trans(gc, gd);
            gb.lemma_extended_trans(gd, ge);
            gc.lemma_extended_trans(gd, ge);
            gc.lemma_extended_trans(ge, gf);
            lemma_reads_extend(ga, gd, q_lin, xi);
            lemma_reads_extend(ga, gd, q_lin, wq);
            lemma_reads_trans(gd, q_split, q_lin, xi);
            lemma_reads_trans(gd, q_split, q_lin, wq);
            lemma_reads_extend(gb, ge, k_lin, xi);
            lemma_reads_extend(gb, ge, k_lin, wk);
            lemma_reads_trans(ge, k_split, k_lin, xi);
            lemma_reads_trans(ge, k_split, k_lin, wk);
            lemma_reads_extend(gc, gf, v_lin, xi);
            lemma_reads_extend(gc, gf, v_lin, wv);
            lemma_reads_trans(gf, v.id as int, v_lin, xi);
            lemma_reads_trans(gf, v.id as int, v_lin, wv);
            gd.lemma_extended_trans(ge, gf);
            gd.lemma_extended_trans(gf, gh);
            lemma_reads_extend(gd, gh, q_split, xi);
            lemma_reads_extend(gd, gh, q_split, wq);
            lemma_reads_trans(gh, q.id as int, q_split, xi);
            lemma_reads_trans(gh, q.id as int, q_split, wq);
            lemma_reads_extend(gh, gz, q.id as int, xi);
            lemma_reads_extend(gh, gz, q.id as int, wq);
            ge.lemma_extended_trans(gf, gh);
            ge.lemma_extended_trans(gh, gz);
            lemma_reads_extend(ge, gz, k_split, xi);
            lemma_reads_extend(ge, gz, k_split, wk);
            lemma_reads_trans(gz, k.id as int, k_split, xi);
            lemma_reads_trans(gz, k.id as int, k_split, wk);
            gf.lemma_extended_trans(gh, gz);
            lemma_reads_extend(gf, gz, v.id as int, xi);
            lemma_reads_extend(gf, gz, v.id as int, wv);
        }
        Ok((q, k, v))
    }
}

/// Node `e` of `g` repeats each head of node `a` for `grp` consecutive heads: `e` reshapes the
/// sum of `a`, given a new axis 2, with zeros whose axis 2 has `grp` entries, so that axes 1
/// and 2 merge and head `h` of `e` is head `h / grp` of `a`.
pub open spec fn heads_repeated(g: Graph, e: int, a: int, grp: usize) -> bool {
    let s = g.nodes@[e].inputs@[0] as int;
    let u = g.nodes@[s].inputs@[0] as int;
    &&& g.nodes@[e].op == Op::Reshape
    &&& g.nodes@[e].inputs@.len() == 1
    &&& g.nodes@[s].op == Op::Add
    &&& g.nodes@[s].inputs@.len() == 2
    &&& g.nodes@[u].op == (Op::Unsqueeze { axis: 2 })
    &&& g.nodes@[u].inputs@ == seq![a as usize]
    &&& g.nodes@[s].shape@.len() == 5
    &&& g.nodes@[s].shape@[2] == grp
}

/// Recording more nodes keeps a repetition of heads.
pub proof fn lemma_heads_repeated_extend(g1: Graph, g2: Graph, e: int, a: int, grp: usize)
    requires
        g1.wf(),
        0 <= e < g1.nodes@.len(),
        heads_repeated(g1, e, a, grp),
        g1.extended_by(g2),
    ensures
        heads_repeated(g2, e, a, grp),
{
    let s = g1.nodes@[e].inputs@[0] as int;
    assert(crate::autograd::node::node_wf(g1.nodes@[e], e));
    assert(0 <= s < e);
    let u = g1.nodes@[s].inputs@[0] as int;
    assert(crate::autograd::node::node_wf(g1.nodes@[s], s));
    assert(0 <= u < s);
    assert(g2.nodes@[e] == g1.nodes@[e]);
    assert(g2.nodes@[s] == g1.nodes@[s]);
    assert(g2.nodes@[u] == g1.nodes@[u]);
}

/// The mask on the scores of `t` queries from position `start_pos`: causal from that position
/// when there is more than one query, none otherwise.
pub open spec fn causal_mask_from(t: usize, start_pos: usize) -> Option<LeafInit> {
    if t > 1 { Some(LeafInit::CausalMask { offset: start_pos }) } else { None }
}

/// The nodes `c`, `ke` and `ve` witness that node `o` of `g` attends with queries `q` over
/// keys `ka` and values `va` (see `attends_over`).
pub open spec fn attends_witness(g: Graph, o: int, q: int, ka: int, va: int, grp: usize, mask: Option<LeafInit>,
    c: int, ke: int, ve: int) -> bool {
    &&& reads(g, o, c)
    &&& attention_core(g, c, q, ke, ve, mask)
    &&& if grp > 1 {
        heads_repeated(g, ke, ka, grp) && heads_repeated(g, ve, va, grp)
    } else {
        ke == ka && ve == va
    }
}

/// Node `o` of `g` reads an attention (see `attention_core`) of queries `q`, with `mask` on the
/// scores, over keys and values that are `ka` and `va` themselves when each query head has its
/// own key head, and that repeat each head of `ka` and `va` for a group of `grp` query heads
/// otherwise.
pub open spec fn attends_over(g: Graph, o: int, q: int, ka: int, va: int, grp: usize, mask: Option<LeafInit>) -> bool {
    exists|c: int, ke: int, ve: int| #[trigger] attends_witness(g, o, q, ka, va, grp, mask, c, ke, ve)
}

/// Recording more nodes keeps an attention over keys and values.
pub proof fn lemma_attends_over_extend(g1: Graph, g2: Graph, o: int, q: int, ka: int, va: int, grp: usize, mask: Option<LeafInit>)
    requires
        g1.wf(),
        attends_over(g1, o, q, ka, va, grp, mask),
        g1.extended_by(g2),
    ensures
        attends_over(g2, o, q, ka, va, grp, mask),
{
    let (c, ke, ve) = choose|c: int, ke: int, ve: int| #[trigger] attends_witness(g1, o, q, ka, va, grp, mask, c, ke, ve);
    lemma_reads_in_range(g1, o, c);
    lemma_reads_extend(g1, g2, o, c);
    lemma_attention_core_extend(g1, g2, c, q, ke, ve, mask);
    if grp > 1 {
        lemma_heads_repeated_extend(g1, g2, ke, ka, grp);
        lemma_heads_repeated_extend(g1, g2, ve, va, grp);
    }
    assert(attends_witness(g2, o, q, ka, va, grp, mask, c, ke, ve));
}

impl GroupedQueryAttention {
    /// Repeats each key/value head for its group of query heads (when a group has more than
    /// one head) by broadcasting against zeros and merging the group axis into the head axis.
    fn expand_kv(&self, g: &mut Graph, b: usize, ka: Tensor, va: Tensor) -> (r: Result<(Tensor, Tensor), EngineError>)
        requires
            old(g).wf(),
            ka.valid(*old(g)),
            va.valid(*old(g)),
            ka.shape_of(*old(g)).len() == 4,
            va.shape_of(*old(g)).len() == 4,
        ensures
            final(g).wf(),
            old(g).extended_by(*final(g)),
            r is Ok <==> self.expand(b, ka.shape_of(*old(g)), va.shape_of(*old(g))) is Some,
            r matches Ok((ke, ve)) ==> ke.valid(*final(g)) && ve.valid(*final(g))
                && self.expand(b, ka.shape_of(*old(g)), va.shape_of(*old(g))) == Some((ke.shape_of(*final(g)), ve.shape_of(*final(g)))),
            r matches Ok((ke, ve)) ==> reads(*final(g), ke.id as int, ka.id as int) && reads(*final(g), ve.id as int, va.id as int),
            r matches Ok((ke, ve)) ==> if self.num_queries_per_kv > 1 {
                heads_repeated(*final(g), ke.id as int, ka.id as int, self.num_queries_per_kv)
                    && heads_repeated(*final(g), ve.id as int, va.id as int, self.num_queries_per_kv)
            } else {
                ke == ka && ve == va
            },
    {
        let grp = self.num_queries_per_kv;
        if grp > 1 {
            let ghost g0 = *g;
            let d = self.head_dim;
            let total = ka.shape(g)[2];
            let zeros = Tensor::zeros(g, crate::shape::shape5(b, self.num_kv_heads, grp, total, d).as_slice(), false);
            let ghost g1 = *g;
            let ku = ka.unsqueeze(g, 2)?;
            let ghost g2 = *g;
            proof { g0.lemma_extended_trans(g1, g2); }
            let kb = ku.add(g, &zeros)?;
            let ghost g3 = *g;
            proof { g0.lemma_extended_trans(g2, g3); }
            let ke = kb.reshape(g, shape4(b, self.num_heads, total, d).as_slice())?;
            let ghost g4 = *g;
            proof { g0.lemma_extended_trans(g3, g4); }
            let vu = va.unsqueeze(g, 2)?;
            let ghost g5 = *g;
            proof { g0.lemma_extended_trans(g4, g5); }
            let vb = vu.add(g, &zeros)?;
            let ghost g6 = *g;
            proof { g0.lemma_extended_trans(g5, g6); }
            let ve = vb.reshape(g, shape4(b, self.num_heads, total, d).as_slice())?;
            proof {
                g0.lemma_extended_trans(g6, *g);
                lemma_reads_self(g1, ka.id as int);
                lemma_reads_through(g1, g2, ku.id as int, 0, ka.id as int);
                lemma_reads_through(g2, g3, kb.id as int, 0, ka.id as int);
                lemma_reads_through(g3, g4, ke.id as int, 0, ka.id as int);
                lemma_reads_extend(g4, *g, ke.id as int, ka.id as int);
                lemma_reads_self(g4, va.id as int);
                lemma_reads_through(g4, g5, vu.id as int, 0, va.id as int);
                lemma_reads_through(g5, g6, vb.id as int, 0, va.id as int);
                lemma_reads_through(g6, *g, ve.id as int, 0, va.id as int);
                g2.lemma_extended_trans(g3, *g);
                g3.lemma_extended_trans(g4, *g);
                g5.lemma_extended_trans(g6, *g);
                assert(g.nodes@[ke.id as int] == g4.nodes@[ke.id as int]);
                assert(g.nodes@[kb.id as int] == g3.nodes@[kb.id as int]);
                assert(g.nodes@[ku.id as int] == g2.nodes@[ku.id as int]);
                assert(g.nodes@[vb.id as int] == g6.nodes@[vb.id as int]);
                assert(g.nodes@[vu.id as int] == g5.nodes@[vu.id as int]);
            }
            Ok((ke, ve))
        } else {
            proof {
                lemma_reads_self(*g, ka.id as int);
                lemma_reads_self(*g, va.id as int);
            }
            Ok((ka, va))
        }
    }

    /// Scaled dot-product attention of `[b, num_heads, t, head_dim]` queries over keys `ke`
    /// and values `ve`, causal from `start_pos` when `t > 1`, then the merge of the heads and
    /// the output projection.
    fn attend_heads(&self, g: &mut Graph, q: Tensor, ke: Tensor, ve: Tensor, b: usize, t: usize, start_pos: usize) -> (r: Result<Tensor, EngineError>)
        requires
            old(g).wf(),
            self.o_proj.wf_in(*old(g)),
            q.valid(*old(g)),
            ke.valid(*old(g)),
            ve.valid(*old(g)),
            q.shape_of(*old(g)) == seq![b, self.num_heads, t, self.head_dim],
            ke.shape_of(*old(g)).len() == 4,
            ve.shape_of(*old(g)).len() == 4,
            self.num_heads * self.head_dim <= usize::MAX,
        ensures
            final(g).wf(),
            old(g).extended_by(*final(g)),
            r is Ok <==> self.attend_out(b, t, ke.shape_of(*old(g)), ve.shape_of(*old(g))) is Some,
            r matches Ok(o) ==> o.valid(*final(g))
                && self.attend_out(b, t, ke.shape_of(*old(g)), ve.shape_of(*old(g))) == Some(o.shape_of(*final(g))),
            r matches Ok(o) ==> reads(*final(g), o.id as int, q.id as int) && reads(*final(g), o.id as int, ke.id as int)
                && reads(*final(g), o.id as int, ve.id as int),
            r matches Ok(o) ==> (t > 1 ==> exists|m: int| #[trigger] reads(*final(g), o.id as int, m)
                && final(g).nodes@[m].op == Op::Leaf(LeafInit::CausalMask { offset: start_pos })
                && final(g).nodes@[m].shape@ == seq![1usize, 1usize, t, ke.shape_of(*old(g))[2]]),
            r matches Ok(o) ==> exists|c: int| #[trigger] reads(*final(g), o.id as int, c)
                && attention_core(*final(g), c, q.id as int, ke.id as int, ve.id as int,
                    if t > 1 { Some(LeafInit::CausalMask { offset: start_pos }) } else { None }),
    {
        let ghost g0 = *g;
        let ghost kes = ke.shape_of(*g);
        let ghost ves = ve.shape_of(*g);
        let ghost q4 = seq![b, self.num_heads, t, self.head_dim];
        let ghost kt = transpose_spec(kes, 2, 3);
        let d = self.head_dim;
        let total = ke.shape(g)[2];
        let k_t = ke.transpose(g, 2, 3)?;
        let ghost g1 = *g;
        let scores = q.matmul(g, &k_t)?;
        let ghost g2 = *g;
        proof {
            g0.lemma_extended_trans(g1, g2);
            lemma_reads_self(g0, ke.id as int);
            lemma_reads_through(g0, g1, k_t.id as int, 0, ke.id as int);
            lemma_reads_self(g1, q.id as int);
            lemma_reads_through(g1, g2, scores.id as int, 0, q.id as int);
            lemma_reads_through(g1, g2, scores.id as int, 1, ke.id as int);
        }
        let ghost sc = matmul_spec(q4, kt);
        assert(sc.len() == 4) by {
            assert(crate::shape::batch_dims(q4).len() == 2);
        }
        proof {
            lemma_broadcast_scalar(sc);
            lemma_broadcast_heads(sc[0], sc[1], t, total);
            assert(sc =~= seq![sc[0], sc[1], t, total]);
        }
        let scale = Tensor::leaf(g, Vec::new().as_slice(), LeafInit::InvSqrt { n: d }, false);
        let ghost g3 = *g;
        let scaled = scores.mul(g, &scale)?;
        let ghost g4 = *g;
        proof {
            g0.lemma_extended_trans(g2, g3);
            g0.lemma_extended_trans(g3, g4);
            lemma_reads_extend(g2, g3, scores.id as int, q.id as int);
            lemma_reads_extend(g2, g3, scores.id as int, ke.id as int);
            lemma_reads_through(g3, g4, scaled.id as int, 0, q.id as int);
            lemma_reads_through(g3, g4, scaled.id as int, 0, ke.id as int);
        }
        let scaled = if t > 1 {
            let mask = Tensor::leaf(g, shape4(1, 1, t, total).as_slice(), LeafInit::CausalMask { offset: start_pos }, false);
            let ghost g5 = *g;
            proof { g0.lemma_extended_trans(g4, g5); }
            let m = scaled.add(g, &mask)?;
            proof {
                g0.lemma_extended_trans(g5, *g);
                lemma_reads_extend(g4, g5, scaled.id as int, q.id as int);
                lemma_reads_extend(g4, g5, scaled.id as int, ke.id as int);
                lemma_reads_self(g5, mask.id as int);
                lemma_reads_through(g5, *g, m.id as int, 0, q.id as int);
                lemma_reads_through(g5, *g, m.id as int, 0, ke.id as int);
                lemma_reads_through(g5, *g, m.id as int, 1, mask.id as int);
                assert(g.nodes@[mask.id as int] == g5.nodes@[mask.id as int]);
                assert(reads(*g, m.id as int, mask.id as int));
                assert(g.nodes@[m.id as int].inputs@[0] == scaled.id);
            }
            m
        } else {
            scaled
        };
        let ghost g6 = *g;
        assert(scaled.shape_of(g6) == sc);
        let ghost masked = t > 1 ==> exists|m: int| #[trigger] reads(g6, scaled.id as int, m)
            && g6.nodes@[m].op == Op::Leaf(LeafInit::CausalMask { offset: start_pos })
            && g6.nodes@[m].shape@ == seq![1usize, 1usize, t, kes[2]];
        assert(masked);
        assert(reads(g6, scaled.id as int, q.id as int) && reads(g6, scaled.id as int, ke.id as int));
        let weights = scaled.softmax(g, 3)?;
        let ghost g7 = *g;
        let context = weights.matmul(g, &ve)?;
        let ghost g8 = *g;
        let ghost mask_id: int = if t > 1 {
            choose|m: int| #[trigger] reads(g6, scaled.id as int, m)
                && g6.nodes@[m].op == Op::Leaf(LeafInit::CausalMask { offset: start_pos })
                && g6.nodes@[m].shape@ == seq![1usize, 1usize, t, kes[2]]
        } else {
            q.id as int
        };
        proof {
            g0.lemma_extended_trans(g6, g7);
            g0.lemma_extended_trans(g7, g8);
            if t <= 1 {
                assert(reads(g6, scaled.id as int, mask_id));
            }
            lemma_reads_in_range(g6, scaled.id as int, mask_id);
            lemma_reads_through(g6, g7, weights.id as int, 0, q.id as int);
            lemma_reads_through(g6, g7, weights.id as int, 0, ke.id as int);
            lemma_reads_through(g6, g7, weights.id as int, 0, mask_id);
            lemma_reads_through(g7, g8, context.id as int, 0, q.id as int);
            lemma_reads_through(g7, g8, context.id as int, 0, ke.id as int);
            lemma_reads_through(g7, g8, context.id as int, 0, mask_id);
            lemma_reads_self(g7, ve.id as int);
            lemma_reads_through(g7, g8, context.id as int, 1, ve.id as int);
        }
        let ghost ctx = matmul_spec(sc, ves);
        assert(ctx.len() == 4) by {
            assert(crate::shape::batch_dims(sc).len() == 2);
            assert(crate::shape::batch_dims(ves).len() == 2);
        }
        let moved = context.transpose(g, 1, 2)?;
        let ghost g9 = *g;
        proof {
            g0.lemma_extended_trans(g8, g9);
            lemma_reads_through(g8, g9, moved.id as int, 0, q.id as int);
            lemma_reads_through(g8, g9, moved.id as int, 0, ke.id as int);
            lemma_reads_through(g8, g9, moved.id as int, 0, ve.id as int);
            lemma_reads_through(g8, g9, moved.id as int, 0, mask_id);
        }
        let merged = moved.reshape(g, shape3(b, t, self.num_heads * d).as_slice())?;
        let ghost g10 = *g;
        proof {
            g0.lemma_extended_trans(g9, g10);
            lemma_reads_through(g9, g10, merged.id as int, 0, q.id as int);
            lemma_reads_through(g9, g10, merged.id as int, 0, ke.id as int);
            lemma_reads_through(g9, g10, merged.id as int, 0, ve.id as int);
            lemma_reads_through(g9, g10, merged.id as int, 0, mask_id);
            assert(linear_out(seq![b, t, (self.num_heads * self.head_dim) as usize], self.o_proj.out_features)
                =~= seq![b, t, self.o_proj.out_features]);
        }
        let out = self.o_proj.forward_linear(g, &merged)?;
        proof {
            let gz = *g;
            let mask = if t > 1 { Some(LeafInit::CausalMask { offset: start_pos }) } else { None };
            g1.lemma_extended_trans(g2, g4);
            g2.lemma_extended_trans(g4, g6);
            g4.lemma_extended_trans(g6, g8);
            g1.lemma_extended_trans(g4, g8);
            g2.lemma_extended_trans(g6, g8);
            assert(g8.nodes@[k_t.id as int] == g1.nodes@[k_t.id as int]);
            assert(g8.nodes@[scores.id as int] == g2.nodes@[scores.id as int]);
            assert(g8.nodes@[weights.id as int] == g7.nodes@[weights.id as int]);
            assert(g8.nodes@[scaled.id as int] == g6.nodes@[scaled.id as int]);
            assert(attention_core(g8, context.id as int, q.id as int, ke.id as int, ve.id as int, mask));
            g8.lemma_extended_trans(g9, g10);
            g8.lemma_extended_trans(g10, gz);
            lemma_attention_core_extend(g8, gz, context.id as int, q.id as int, ke.id as int, ve.id as int, mask);
            lemma_reads_self(g8, context.id as int);
            lemma_reads_through(g8, g9, moved.id as int, 0, context.id as int);
            lemma_reads_through(g9, g10, merged.id as int, 0, context.id as int);
            lemma_reads_extend(g10, gz, merged.id as int, context.id as int);
            lemma_reads_trans(gz, out.id as int, merged.id as int, context.id as int);
            g0.lemma_extended_trans(g10, *g);
            lemma_reads_extend(g10, *g, merged.id as int, q.id as int);
            lemma_reads_extend(g10, *g, merged.id as int, ke.id as int);
            lemma_reads_extend(g10, *g, merged.id as int, ve.id as int);
            lemma_reads_extend(g10, *g, merged.id as int, mask_id);
            lemma_reads_trans(*g, out.id as int, merged.id as int, q.id as int);
            lemma_reads_trans(*g, out.id as int, merged.id as int, ke.id as int);
            lemma_reads_trans(*g, out.id as int, merged.id as int, ve.id as int);
            lemma_reads_trans(*g, out.id as int, merged.id as int, mask_id);
            g6.lemma_extended_trans(g8, *g);
            assert(g.nodes@[mask_id] == g6.nodes@[mask_id]);
        }
        Ok(out)
    }
}

impl GroupedQueryAttention {
    /// An attention block with bias-free projections `d_model -> d_model` (queries and
    /// output) and `d_model -> num_kv_heads * head_dim` (keys and values), where
    /// `head_dim = d_model / num_heads`, and rotary tables for `max_seq_len` positions.
    pub fn new(g: &mut Graph, d_model: usize, num_heads: usize, num_kv_heads: usize, max_seq_len: usize, theta_bits: u32) -> (r: GroupedQueryAttention)
        requires
            old(g).wf(),
            num_heads > 0,
            num_kv_heads > 0,
            d_model % num_heads == 0,
            num_heads % num_kv_heads == 0,
            (d_model / num_heads) % 2 == 0,
        ensures
            final(g).wf(),
            old(g).extended_by(*final(g)),
            r.wf_in(*final(g)),
            r.num_heads == num_heads,
            r.num_kv_heads == num_kv_heads,
            r.head_dim == d_model / num_heads,
            r.num_queries_per_kv == num_heads / num_kv_heads,
            r.num_heads * r.head_dim == d_model,
            r.num_kv_heads * r.num_queries_per_kv == num_heads,
            r.q_proj.in_features == d_model && r.q_proj.out_features == d_model,
            r.k_proj.in_features == d_model && r.k_proj.out_features == num_kv_heads * r.head_dim,
            r.v_proj.in_features == d_model && r.v_proj.out_features == num_kv_heads * r.head_dim,
            r.o_proj.in_features == d_model && r.o_proj.out_features == d_model,
            r.rope.head_dim == r.head_dim,
            r.rope.max_seq_len == max_seq_len,
    {
        let head_dim = d_model / num_heads;
        let num_queries_per_kv = num_heads / num_kv_heads;
        proof {
            vstd::arithmetic::div_mod::lemma_fundamental_div_mod(d_model as int, num_heads as int);
            vstd::arithmetic::div_mod::lemma_fundamental_div_mod(num_heads as int, num_kv_heads as int);
            assert(num_heads * head_dim == d_model) by (nonlinear_arith)
                requires
                    d_model == num_heads * (d_model / num_heads) + d_model % num_heads,
                    d_model % num_heads == 0,
                    head_dim == d_model / num_heads,
            ;
            assert(num_kv_heads * num_queries_per_kv == num_heads) by (nonlinear_arith)
                requires
                    num_heads == num_kv_heads * (num_heads / num_kv_heads) + num_heads % num_kv_heads,
                    num_heads % num_kv_heads == 0,
                    num_queries_per_kv == num_heads / num_kv_heads,
            ;
            assert(num_queries_per_kv >= 1) by (nonlinear_arith)
                requires
                    num_kv_heads * num_queries_per_kv == num_heads,
                    num_heads > 0,
            ;
            assert(num_kv_heads * head_dim <= d_model) by (nonlinear_arith)
                requires
                    num_kv_heads * num_queries_per_kv == num_heads,
                    num_heads * head_dim == d_model,
                    num_queries_per_kv >= 1,
            ;
        }
        let kv_dim = num_kv_heads * head_dim;
        let ghost g0 = *g;
        let q_proj = Linear::without_bias(g, d_model, d_model);
        let ghost g1 = *g;
        let k_proj = Linear::without_bias(g, d_model, kv_dim);
        let ghost g2 = *g;
        let v_proj = Linear::without_bias(g, d_model, kv_dim);
        let ghost g3 = *g;
        let o_proj = Linear::without_bias(g, d_model, d_model);
        let ghost g4 = *g;
        let rope = RotaryEmbedding::new(g, head_dim, max_seq_len, theta_bits);
        proof {
            g0.lemma_extended_trans(g1, g2);
            g0.lemma_extended_trans(g2, g3);
            g0.lemma_extended_trans(g3, g4);
            g0.lemma_extended_trans(g4, *g);
        }
        GroupedQueryAttention { q_proj, k_proj, v_proj, o_proj, rope, num_heads, num_kv_heads, head_dim, num_queries_per_kv }
    }

    /// Grouped-query attention over `[batch, seq, channels]` input whose positions start at
    /// `start_pos`. With a cache slot, the rotated keys and the values are appended to the
    /// cached ones along the sequence axis (a slot whose keys hold no element is replaced),
    /// the slot is updated and attention covers all cached positions. Multi-step input is
    /// masked causally from `start_pos`.
    pub fn forward_gqa_cached(&self, g: &mut Graph, x: &Tensor, start_pos: usize, cache: Option<&mut (Tensor, Tensor)>) -> (r: Result<Tensor, EngineError>)
        requires
            old(g).wf(),
            self.wf_in(*old(g)),
            x.valid(*old(g)),
            cache matches Some(slot) ==> slot.0.valid(*old(g)) && slot.1.valid(*old(g)),
            self.num_heads * self.head_dim <= usize::MAX,
        ensures
            final(g).wf(),
            old(g).extended_by(*final(g)),
            ({
                let cs = slot_shapes(*old(g), match cache { Some(slot) => Some(*slot), None => None });
                &&& r is Ok <==> self.gqa_out(x.shape_of(*old(g)), cs, start_pos) is Some
                &&& r matches Ok(t) ==> t.valid(*final(g)) && self.gqa_out(x.shape_of(*old(g)), cs, start_pos) == Some(t.shape_of(*final(g)))
            }),
            x.shape_of(*old(g)).len() != 3 ==> (r matches Err(e) && e is IncompatibleShapes && *final(g) == *old(g)),
            r matches Ok(o) ==> (x.shape_of(*old(g))[1] > 1 ==> exists|m: int| #[trigger] reads(*final(g), o.id as int, m)
                && final(g).nodes@[m].op == Op::Leaf(LeafInit::CausalMask { offset: start_pos })),
            r matches Ok(o) ==> exists|q: int, ka: int, va: int| #[trigger] attends_over(*final(g), o.id as int, q, ka, va,
                self.num_queries_per_kv,
                causal_mask_from(x.shape_of(*old(g))[1], start_pos))
                && reads(*final(g), q, x.id as int) && reads(*final(g), q, self.q_proj.weight.id as int)
                && match cache {
                    Some(slot) => ka == final(slot).0.id && va == final(slot).1.id
                        && (has_elements(slot.0.shape_of(*old(g))) ==> {
                            &&& final(g).nodes@[ka].op == (Op::Cat { axis: 2 })
                            &&& final(g).nodes@[ka].inputs@[0] == slot.0.id
                            &&& final(g).nodes@[va].op == (Op::Cat { axis: 2 })
                            &&& final(g).nodes@[va].inputs@[0] == slot.1.id
                        }),
                    None => true,
                },
            match cache {
                Some(slot) => {
                    let xs = x.shape_of(*old(g));
                    let kv = seq![xs[0], self.num_kv_heads, xs[1], self.head_dim];
                    let att = attended_kv(slot_shapes(*old(g), Some(*slot)), kv);
                    if self.prefix_ok(xs, start_pos) && att is Some {
                        final(slot).0.valid(*final(g)) && final(slot).1.valid(*final(g))
                            && att == Some((final(slot).0.shape_of(*final(g)), final(slot).1.shape_of(*final(g))))
                    } else {
                        *final(slot) == *slot
                    }
                },
                None => true,
            },
    {
        let ghost g0 = *g;
        let shape = x.shape(g);
        if shape.len() != 3 {
            let mut shapes: Vec<Vec<usize>> = Vec::new();
            shapes.push(shape);
            return Err(EngineError::IncompatibleShapes {
                op: "GroupedQueryAttention forward (expected 3D input [B, T, C])",
                shapes,
            });
        }
        let b = shape[0];
        let t = shape[1];
        let (q, k, v) = self.project_heads(g, x, start_pos)?;
        let ghost g1 = *g;
        let (k_all, v_all) = match append_to_cache(g, cache, k, v) {
            Ok(kv) => kv,
            Err(e) => {
                return Err(e);
            },
        };
        let ghost g2 = *g;
        proof { g0.lemma_extended_trans(g1, g2); }
        let (k_exp, v_exp) = self.expand_kv(g, b, k_all, v_all)?;
        let ghost g3 = *g;
        proof { g0.lemma_extended_trans(g2, g3); }
        let out = self.attend_heads(g, q, k_exp, v_exp, b, t, start_pos)?;
        proof {
            g0.lemma_extended_trans(g3, *g);
            g2.lemma_extended_trans(g3, *g);
            let grp = self.num_queries_per_kv;
            lemma_reads_in_range(g3, k_exp.id as int, k_all.id as int);
            lemma_reads_in_range(g3, v_exp.id as int, v_all.id as int);
            if grp > 1 {
                lemma_heads_repeated_extend(g3, *g, k_exp.id as int, k_all.id as int, grp);
                lemma_heads_repeated_extend(g3, *g, v_exp.id as int, v_all.id as int, grp);
            }
            let mask = if t > 1 { Some(LeafInit::CausalMask { offset: start_pos }) } else { None };
            let c = choose|c: int| #[trigger] reads(*g, out.id as int, c)
                && attention_core(*g, c, q.id as int, k_exp.id as int, v_exp.id as int, mask);
            assert(attends_witness(*g, out.id as int, q.id as int, k_all.id as int, v_all.id as int, grp, mask, c,
                k_exp.id as int, v_exp.id as int));
            g1.lemma_extended_trans(g2, *g);
            lemma_reads_extend(g1, *g, q.id as int, x.id as int);
            lemma_reads_extend(g1, *g, q.id as int, self.q_proj.weight.id as int);
            assert(mask == causal_mask_from(x.shape_of(g0)[1], start_pos));
            assert(attends_over(*g, out.id as int, q.id as int, k_all.id as int, v_all.id as int, grp, mask));
            assert(g.nodes@[k_all.id as int] == g2.nodes@[k_all.id as int]);
            assert(g.nodes@[v_all.id as int] == g2.nodes@[v_all.id as int]);
        }
        Ok(out)
    }

    /// Grouped-query attention without a cache.
    pub fn forward_gqa(&self, g: &mut Graph, x: &Tensor, start_pos: usize) -> (r: Result<Tensor, EngineError>)
        requires
            old(g).wf(),
            self.wf_in(*old(g)),
            x.valid(*old(g)),
            self.num_heads * self.head_dim <= usize::MAX,
        ensures
            final(g).wf(),
            old(g).extended_by(*final(g)),
            r is Ok <==> self.gqa_out(x.shape_of(*old(g)), None, start_pos) is Some,
            r matches Ok(t) ==> t.valid(*final(g)) && self.gqa_out(x.shape_of(*old(g)), None, start_pos) == Some(t.shape_of(*final(g))),
    {
        self.forward_gqa_cached(g, x, start_pos, None)
    }
}

impl GroupedQueryAttention {
    /// The block's tensors with their expected shapes.
    pub open spec fn shapes(&self) -> Seq<(Tensor, Seq<usize>)> {
        self.q_proj.shapes() + self.k_proj.shapes() + self.v_proj.shapes() + self.o_proj.shapes() + seq![
            (self.rope.cos_cached, seq![1usize, 1usize, self.rope.max_seq_len, self.rope.head_dim]),
            (self.rope.sin_cached, seq![1usize, 1usize, self.rope.max_seq_len, self.rope.head_dim]),
        ]
    }

    /// The block's learnable tensors (the rotary tables are not learned).
    pub open spec fn param_seq(&self) -> Seq<Tensor> {
        self.q_proj.param_seq() + self.k_proj.param_seq() + self.v_proj.param_seq() + self.o_proj.param_seq()
    }

    /// `wf_in` says the same as the list of expected shapes.
    pub proof fn lemma_wf_in_shapes(&self, g: Graph)
        ensures
            self.wf_in(g) <==> shapes_hold(g, self.shapes()),
    {
        let a = self.q_proj.shapes();
        let b = self.k_proj.shapes();
        let c = self.v_proj.shapes();
        let d = self.o_proj.shapes();
        let e = seq![
            (self.rope.cos_cached, seq![1usize, 1usize, self.rope.max_seq_len, self.rope.head_dim]),
            (self.rope.sin_cached, seq![1usize, 1usize, self.rope.max_seq_len, self.rope.head_dim]),
        ];
        lemma_shapes_hold_concat(g, a + b + c + d, e);
        lemma_shapes_hold_concat(g, a + b + c, d);
        lemma_shapes_hold_concat(g, a + b, c);
        lemma_shapes_hold_concat(g, a, b);
        self.q_proj.lemma_wf_in_shapes(g);
        self.k_proj.lemma_wf_in_shapes(g);
        self.v_proj.lemma_wf_in_shapes(g);
        self.o_proj.lemma_wf_in_shapes(g);
        if shapes_hold(g, e) {
            assert(e[0].0 == self.rope.cos_cached);
            assert(e[1].0 == self.rope.sin_cached);
        }
    }
}

impl Module for GroupedQueryAttention {
    open spec fn mode_is(&self, training: bool) -> bool {
        true
    }

    open spec fn param_list(&self) -> Seq<Tensor> {
        self.param_seq()
    }

    open spec fn buffer_shapes(&self) -> Seq<(usize, Seq<usize>)> {
        Seq::empty()
    }

    open spec fn tensor_shapes(&self) -> Seq<(Tensor, Seq<usize>)> {
        self.shapes()
    }

    /// Attention without a cache from position 0; a head count and head size whose product
    /// overflows is refused.
    fn forward(&self, g: &mut Graph, input: &Tensor) -> (r: Result<Tensor, EngineError>)
        ensures
            r is Ok <==> self.num_heads * self.head_dim <= usize::MAX && self.gqa_out(input.shape_of(*old(g)), None, 0) is Some,
            r matches Ok(t) ==> self.gqa_out(input.shape_of(*old(g)), None, 0) == Some(t.shape_of(*final(g))),
    {
        proof {
            self.lemma_wf_in_shapes(*g);
        }
        if self.num_heads.checked_mul(self.head_dim).is_none() {
            return Err(EngineError::InvalidArgument("num_heads * head_dim overflows".to_string()));
        }
        self.forward_gqa(g, input, 0)
    }

    fn parameters(&self) -> (r: Vec<Tensor>)
        ensures
            r@ == self.param_seq(),
    {
        let mut params = self.q_proj.parameters();
        let mut k = self.k_proj.parameters();
        let mut v = self.v_proj.parameters();
        let mut o = self.o_proj.parameters();
        params.append(&mut k);
        params.append(&mut v);
        params.append(&mut o);
        assert(params@ =~= self.param_seq());
        assert forall|g: Graph| #[trigger] shapes_hold(g, self.tensor_shapes()) implies
            forall|k: int| 0 <= k < params@.len() ==> (#[trigger] params@[k]).valid(g) by {
            self.lemma_wf_in_shapes(g);
            assert forall|k: int| 0 <= k < params@.len() implies (#[trigger] params@[k]).valid(g) by {
                let a = self.q_proj.param_seq();
                let b = self.k_proj.param_seq();
                let c = self.v_proj.param_seq();
                let d = self.o_proj.param_seq();
                if k < a.len() {
                    assert(params@[k] == a[k]);
                } else if k < a.len() + b.len() {
                    assert(params@[k] == b[k - a.len()]);
                } else if k < a.len() + b.len() + c.len() {
                    assert(params@[k] == c[k - a.len() - b.len()]);
                } else {
                    assert(params@[k] == d[k - a.len() - b.len() - c.len()]);
                }
            }
        }
        params
    }

    /// Nothing switches between training and evaluation.
    fn train(&mut self) {
    }

    /// Nothing switches between training and evaluation.
    fn eval(&mut self) {
    }
}

} // verus!