//! Pre-norm transformer block and a decoder-only transformer language model.

use vstd::prelude::*;
use crate::autograd::node::{Graph, LeafInit, Op};
use crate::autograd::tensor::{Tensor, lemma_reads_extend, lemma_reads_in_range, lemma_reads_self, lemma_reads_through, reads, reshape_ok};
use crate::error::EngineError;
use crate::nn::activations::GELU;
use crate::nn::attention::{MultiHeadAttention, attention_result, lemma_attention_preserves_shape, lemma_attention_result_extend, self_attention_mask};
use crate::nn::embedding::Embedding;
use crate::nn::linear::{Linear, lemma_linear_result_extend, linear_out, linear_result};
use crate::nn::module::{Module, lemma_shapes_hold_concat, lemma_tensors_valid, shapes_hold, tensors_of};
use crate::nn::norm::{LayerNorm, layer_norm_structure, lemma_layer_norm_structure_extend};
use crate::shape::{broadcast_spec, broadcastable, lemma_broadcast_self, shape_fits};

verus! {

/// One decoder layer: `x + attention(ln1(x))`, then that plus `fc2(gelu(fc1(ln2(.))))`.
#[derive(Clone, Copy)]
pub struct TransformerBlock {
    pub ln1: LayerNorm,
    pub attn: MultiHeadAttention,
    pub ln2: LayerNorm,
    pub mlp_fc1: Linear,
    pub mlp_gelu: GELU,
    pub mlp_fc2: Linear,
}

/// The nodes `n1`, `n2`, `f1` and `a` witness that node `o` of `g` is what block `b` makes of
/// node `x` (see `block_result`).
pub open spec fn block_witness(g: Graph, o: int, b: TransformerBlock, x: int, mask: Option<LeafInit>,
    n1: int, n2: int, f1: int, a: int) -> bool {
    let ins = g.nodes@[o].inputs@;
    let h = ins[0] as int;
    let hin = g.nodes@[h].inputs@;
    &&& g.nodes@[o].op == Op::Add && ins.len() == 2
    &&& g.nodes@[h].op == Op::Add && hin.len() == 2 && hin[0] == x
    &&& g.nodes@[n1].op == Op::Add && g.nodes@[n1].inputs@[1] == b.ln1.bias.id && reads(g, n1, x)
    &&& attention_result(g, hin[1] as int, b.attn, n1, n1, mask)
    &&& g.nodes@[n2].op == Op::Add && g.nodes@[n2].inputs@[1] == b.ln2.bias.id && reads(g, n2, h)
    &&& linear_result(g, f1, b.mlp_fc1, n2)
    &&& g.nodes@[a].op == Op::Gelu && g.nodes@[a].inputs@ == seq![f1 as usize]
    &&& linear_result(g, ins[1] as int, b.mlp_fc2, a)
}

/// Node `o` of `g` is what block `b` makes of node `x`: the sum of the attention residual
/// `h = x + attn(n1)`, with `n1` the first normalization of `x` and `mask` on the scores, and of
/// `fc2(gelu(fc1(n2)))`, with `n2` the second normalization of `h`.
pub open spec fn block_result(g: Graph, o: int, b: TransformerBlock, x: int, mask: Option<LeafInit>) -> bool {
    exists|n1: int, n2: int, f1: int, a: int| #[trigger] block_witness(g, o, b, x, mask, n1, n2, f1, a)
}

impl TransformerBlock {
    /// Every part lives in `g` with its expected shapes.
    pub open spec fn wf_in(&self, g: Graph) -> bool {
        &&& self.ln1.wf_in(g)
        &&& self.attn.wf_in(g)
        &&& self.ln2.wf_in(g)
        &&& self.mlp_fc1.wf_in(g)
        &&& self.mlp_fc2.wf_in(g)
    }

    /// The block's tensors with their expected shapes, part by part.
    pub open spec fn shapes(&self) -> Seq<(Tensor, Seq<usize>)> {
        self.ln1.shapes() + self.attn.shapes() + self.ln2.shapes() + self.mlp_fc1.shapes() + self.mlp_fc2.shapes()
    }

    /// `wf_in` says the same as the list of expected shapes.
    pub proof fn lemma_wf_in_shapes(&self, g: Graph)
        ensures
            self.wf_in(g) <==> shapes_hold(g, self.shapes()),
    {
        let a = self.ln1.shapes();
        let b = self.attn.shapes();
        let c = self.ln2.shapes();
        let d = self.mlp_fc1.shapes();
        let e = self.mlp_fc2.shapes();
        lemma_shapes_hold_concat(g, a + b + c + d, e);
        lemma_shapes_hold_concat(g, a + b + c, d);
        lemma_shapes_hold_concat(g, a + b, c);
        lemma_shapes_hold_concat(g, a, b);
        self.ln1.lemma_wf_in_shapes(g);
        self.attn.lemma_wf_in_shapes(g);
        self.ln2.lemma_wf_in_shapes(g);
        self.mlp_fc1.lemma_wf_in_shapes(g);
        self.mlp_fc2.lemma_wf_in_shapes(g);
    }

    /// Shape after the attention branch is added to input of shape `x`.
    pub open spec fn after_attention(&self, x: Seq<usize>) -> Seq<usize> {
        broadcast_spec(x, self.attn.out_shape(x))
    }

    /// Shape of the hidden layer of the feed-forward branch.
    pub open spec fn hidden(&self, x: Seq<usize>) -> Seq<usize> {
        linear_out(self.after_attention(x), self.mlp_fc1.out_features)
    }

    /// Shape of the output of the feed-forward branch.
    pub open spec fn mlp_out(&self, x: Seq<usize>) -> Seq<usize> {
        linear_out(self.hidden(x), self.mlp_fc2.out_features)
    }

    /// The block accepts input of shape `x`: every layer accepts what reaches it and both
    /// residual sums broadcast.
    pub open spec fn accepts(&self, x: Seq<usize>) -> bool {
        &&& self.ln1.accepts(x)
        &&& self.attn.accepts(x)
        &&& broadcastable(x, self.attn.out_shape(x))
        &&& self.ln2.accepts(self.after_attention(x))
        &&& self.mlp_fc1.accepts(self.after_attention(x))
        &&& self.mlp_fc2.accepts(self.hidden(x))
        &&& broadcastable(self.after_attention(x), self.mlp_out(x))
    }

    /// Shape of the block's output for input of shape `x`.
    pub open spec fn out_shape(&self, x: Seq<usize>) -> Seq<usize> {
        broadcast_spec(self.after_attention(x), self.mlp_out(x))
    }

    /// The block as `new` builds it for width `d_model`: consistent attention of that width,
    /// both norms over it, and a feed-forward branch from and back to it.
    pub open spec fn consistent(&self) -> bool {
        let d = self.attn.d_model;
        &&& self.attn.consistent()
        &&& self.ln1.normalized_dim == d
        &&& self.ln2.normalized_dim == d
        &&& self.mlp_fc1.in_features == d
        &&& self.mlp_fc2.in_features == self.mlp_fc1.out_features
        &&& self.mlp_fc2.out_features == d
    }

    /// A block of width `d_model` with `num_heads` heads and a feed-forward hidden width of
    /// `4 * d_model`.
    pub fn new(g: &mut Graph, d_model: usize, num_heads: usize, is_causal: bool) -> (r: TransformerBlock)
        requires
            old(g).wf(),
            num_heads > 0,
            d_model % num_heads == 0,
            d_model * 4 <= usize::MAX,
        ensures
            final(g).wf(),
            old(g).extended_by(*final(g)),
            r.wf_in(*final(g)),
            r.consistent(),
            r.attn.d_model == d_model,
            r.attn.num_heads == num_heads,
            r.attn.is_causal == is_causal,
            r.mlp_fc1.out_features == d_model * 4,
    {
        let ghost g0 = *g;
        let ln1 = LayerNorm::new(g, d_model);
        let ghost g1 = *g;
        let attn = MultiHeadAttention::new(g, d_model, num_heads, is_causal);
        let ghost g2 = *g;
        let ln2 = LayerNorm::new(g, d_model);
        let ghost g3 = *g;
        let mlp_fc1 = Linear::new(g, d_model, d_model * 4);
        let ghost g4 = *g;
        let mlp_fc2 = Linear::new(g, d_model * 4, d_model);
        let r = TransformerBlock { ln1, attn, ln2, mlp_fc1, mlp_gelu: GELU, mlp_fc2 };
        proof {
            g0.lemma_extended_trans(g1, g2);
            g0.lemma_extended_trans(g2, g3);
            g0.lemma_extended_trans(g3, g4);
            g0.lemma_extended_trans(g4, *g);
            ln1.lemma_wf_in_shapes(g1);
            ln1.lemma_wf_in_shapes(*g);
            crate::nn::module::lemma_shapes_hold_extend(g1, *g, ln1.shapes());
            attn.lemma_wf_in_shapes(g2);
            attn.lemma_wf_in_shapes(*g);
            crate::nn::module::lemma_shapes_hold_extend(g2, *g, attn.shapes());
            ln2.lemma_wf_in_shapes(g3);
            ln2.lemma_wf_in_shapes(*g);
            crate::nn::module::lemma_shapes_hold_extend(g3, *g, ln2.shapes());
            mlp_fc1.lemma_wf_in_shapes(g4);
            mlp_fc1.lemma_wf_in_shapes(*g);
            crate::nn::module::lemma_shapes_hold_extend(g4, *g, mlp_fc1.shapes());
        }
        r
    }

    /// Applies the block. Succeeds exactly when the block accepts the input's shape, and the
    /// result then has the block's output shape.
    pub fn forward_block(&self, g: &mut Graph, x: &Tensor) -> (r: Result<Tensor, EngineError>)
        requires
            old(g).wf(),
            self.wf_in(*old(g)),
            x.valid(*old(g)),
        ensures
            final(g).wf(),
            old(g).extended_by(*final(g)),
            r is Ok <==> self.accepts(x.shape_of(*old(g))),
            r matches Ok(t) ==> t.valid(*final(g)) && t.shape_of(*final(g)) == self.out_shape(x.shape_of(*old(g))),
            r matches Ok(t) ==> block_result(*final(g), t.id as int, *self, x.id as int,
                self_attention_mask(self.attn.is_causal, x.shape_of(*old(g))[1])),
    {
        let ghost g0 = *g;
        let ghost xs = x.shape_of(*g);
        let norm1 = match self.ln1.forward_norm(g, x) {
            Ok(t) => t,
            Err(e) => {
                return Err(e);
            },
        };
        let ghost g1 = *g;
        proof {
            self.attn.lemma_wf_in_shapes(g0);
            crate::nn::module::lemma_shapes_hold_extend(g0, g1, self.attn.shapes());
            self.attn.lemma_wf_in_shapes(g1);
        }
        let attn_out = match self.attn.forward_attention(g, &norm1) {
            Ok(t) => t,
            Err(e) => {
                proof {
                    g0.lemma_extended_trans(g1, *g);
                }
                return Err(e);
            },
        };
        let ghost g2 = *g;
        proof {
            g0.lemma_extended_trans(g1, g2);
        }
        assert(g2.nodes@[x.id as int] == g0.nodes@[x.id as int]);
        let res1 = match x.add(g, &attn_out) {
            Ok(t) => t,
            Err(e) => {
                return Err(e);
            },
        };
        let ghost g3 = *g;
        let ghost ra = self.after_attention(xs);
        proof {
            g0.lemma_extended_trans(g2, g3);
            self.ln2.lemma_wf_in_shapes(g0);
            crate::nn::module::lemma_shapes_hold_extend(g0, g3, self.ln2.shapes());
            self.ln2.lemma_wf_in_shapes(g3);
        }
        let norm2 = match self.ln2.forward_norm(g, &res1) {
            Ok(t) => t,
            Err(e) => {
                return Err(e);
            },
        };
        let ghost g4 = *g;
        proof {
            g0.lemma_extended_trans(g3, g4);
            self.mlp_fc1.lemma_wf_in_shapes(g0);
            crate::nn::module::lemma_shapes_hold_extend(g0, g4, self.mlp_fc1.shapes());
            self.mlp_fc1.lemma_wf_in_shapes(g4);
        }
        let h1 = match self.mlp_fc1.forward_linear(g, &norm2) {
            Ok(t) => t,
            Err(e) => {
                return Err(e);
            },
        };
        let ghost g5 = *g;
        let act = match h1.gelu(g) {
            Ok(t) => t,
            Err(e) => {
                return Err(e);
            },
        };
        let ghost g6 = *g;
        proof {
            g0.lemma_extended_trans(g4, g5);
            g0.lemma_extended_trans(g5, g6);
            self.mlp_fc2.lemma_wf_in_shapes(g0);
            crate::nn::module::lemma_shapes_hold_extend(g0, g6, self.mlp_fc2.shapes());
            self.mlp_fc2.lemma_wf_in_shapes(g6);
        }
        let h2 = match self.mlp_fc2.forward_linear(g, &act) {
            Ok(t) => t,
            Err(e) => {
                return Err(e);
            },
        };
        let ghost g7 = *g;
        assert(g7.nodes@[res1.id as int] == g3.nodes@[res1.id as int]);
        let out = res1.add(g, &h2);
        proof {
            g0.lemma_extended_trans(g6, g7);
            g0.lemma_extended_trans(g7, *g);
            if let Ok(o) = out {
                let gz = *g;
                let mask = self_attention_mask(self.attn.is_causal, xs[1]);
                g1.lemma_extended_trans(g2, g3);
                g1.lemma_extended_trans(g3, gz);
                g2.lemma_extended_trans(g3, gz);
                g3.lemma_extended_trans(g4, gz);
                g4.lemma_extended_trans(g5, gz);
                g5.lemma_extended_trans(g6, gz);
                g6.lemma_extended_trans(g7, gz);
                assert(norm1.shape_of(g1)[1] == xs[1]);
                lemma_reads_extend(g1, gz, norm1.id as int, x.id as int);
                assert(gz.nodes@[norm1.id as int] == g1.nodes@[norm1.id as int]);
                lemma_attention_result_extend(g2, gz, attn_out.id as int, self.attn, norm1.id as int, norm1.id as int, mask);
                assert(gz.nodes@[res1.id as int] == g3.nodes@[res1.id as int]);
                lemma_reads_extend(g4, gz, norm2.id as int, res1.id as int);
                assert(gz.nodes@[norm2.id as int] == g4.nodes@[norm2.id as int]);
                lemma_linear_result_extend(g5, gz, h1.id as int, self.mlp_fc1, norm2.id as int);
                assert(gz.nodes@[act.id as int] == g6.nodes@[act.id as int]);
                lemma_linear_result_extend(g7, gz, h2.id as int, self.mlp_fc2, act.id as int);
                assert(gz.nodes@[o.id as int].inputs@ == seq![res1.id, h2.id]);
                assert(attention_result(gz, attn_out.id as int, self.attn, norm1.id as int, norm1.id as int, mask));
                assert(block_witness(gz, o.id as int, *self, x.id as int, mask, norm1.id as int, norm2.id as int, h1.id as int, act.id as int));
            }
        }
        out
    }
}

/// A consistent block keeps the shape of its input: it accepts `[batch, seq, d_model]` input
/// exactly when the attention does, and then returns that shape.
pub proof fn lemma_block_preserves_shape(b: TransformerBlock, x: Seq<usize>)
    requires
        b.consistent(),
        x.len() == 3,
    ensures
        b.accepts(x) <==> x[2] == b.attn.d_model && shape_fits(x)
            && shape_fits(seq![x[0], x[1], b.attn.num_heads, b.attn.head_dim]),
        b.accepts(x) ==> b.out_shape(x) == x,
{
    lemma_attention_preserves_shape(b.attn, x);
    if b.attn.accepts(x) {
        lemma_broadcast_self(x);
        assert(b.after_attention(x) == x);
        let h = b.hidden(x);
        assert(h == x.update(2, b.mlp_fc1.out_features));
        assert(b.mlp_out(x) =~= x);
    }
}

impl Module for TransformerBlock {
    open spec fn mode_is(&self, training: bool) -> bool {
        true
    }

    open spec fn param_list(&self) -> Seq<Tensor> {
        crate::nn::module::tensors_of(self.tensor_shapes())
    }

    open spec fn tensor_shapes(&self) -> Seq<(Tensor, Seq<usize>)> {
        self.shapes()
    }

    open spec fn buffer_shapes(&self) -> Seq<(usize, Seq<usize>)> {
        Seq::empty()
    }

    fn forward(&self, g: &mut Graph, input: &Tensor) -> (r: Result<Tensor, EngineError>)
        ensures
            r is Ok <==> self.accepts(input.shape_of(*old(g))),
            r matches Ok(t) ==> t.shape_of(*final(g)) == self.out_shape(input.shape_of(*old(g))),
            r matches Ok(t) ==> block_result(*final(g), t.id as int, *self, input.id as int,
                self_attention_mask(self.attn.is_causal, input.shape_of(*old(g))[1])),
    {
        proof {
            self.lemma_wf_in_shapes(*g);
        }
        self.forward_block(g, input)
    }

    fn parameters(&self) -> (r: Vec<Tensor>)
        ensures
            r@ == tensors_of(self.shapes()),
    {
        let mut params: Vec<Tensor> = Vec::new();
        params.push(self.ln1.weight);
        params.push(self.ln1.bias);
        let mut a = self.attn.parameters();
        params.append(&mut a);
        params.push(self.ln2.weight);
        params.push(self.ln2.bias);
        let mut f1 = self.mlp_fc1.parameters();
        params.append(&mut f1);
        let mut f2 = self.mlp_fc2.parameters();
        params.append(&mut f2);
        proof {
            assert(self.attn.param_seq() =~= tensors_of(self.attn.shapes()));
            assert(self.mlp_fc1.param_seq() =~= tensors_of(self.mlp_fc1.shapes()));
            assert(self.mlp_fc2.param_seq() =~= tensors_of(self.mlp_fc2.shapes()));
            assert(params@ =~= tensors_of(self.shapes()));
            assert forall|g: Graph| #[trigger] shapes_hold(g, self.tensor_shapes()) implies forall|k: int| 0 <= k < params@.len() ==> (#[trigger] params@[k]).valid(g) by {
                lemma_tensors_valid(g, self.shapes());
            }
        }
        params
    }

    /// Nothing switches between training and evaluation.
    fn train(&mut self) {
    }

    /// Nothing switches between training and evaluation.
    fn eval(&mut self) {
    }
}

/// Shape after applying `blocks` in order to input of shape `x`, if each accepts what
/// reaches it.
pub open spec fn blocks_out(blocks: Seq<TransformerBlock>, x: Seq<usize>) -> Option<Seq<usize>>
    decreases blocks.len(),
{
    if blocks.len() == 0 {
        Some(x)
    } else {
        match blocks_out(blocks.drop_last(), x) {
            Some(y) => if blocks.last().accepts(y) {
                Some(blocks.last().out_shape(y))
            } else {
                None
            },
            None => None,
        }
    }
}

/// Consistent blocks of width `d` keep a `[batch, seq, d]` shape, each accepting it exactly
/// when its attention does.
pub proof fn lemma_blocks_preserve_shape(blocks: Seq<TransformerBlock>, x: Seq<usize>)
    requires
        x.len() == 3,
        forall|k: int| 0 <= k < blocks.len() ==> (#[trigger] blocks[k]).consistent() && blocks[k].attn.d_model == x[2],
    ensures
        blocks_out(blocks, x) == (if forall|k: int| 0 <= k < blocks.len() ==> (#[trigger] blocks[k]).accepts(x) { Some(x) } else { None::<Seq<usize>> }),
    decreases blocks.len(),
{
    if blocks.len() > 0 {
        let init = blocks.drop_last();
        assert forall|k: int| 0 <= k < init.len() implies (#[trigger] init[k]).consistent() && init[k].attn.d_model == x[2] by {
            assert(init[k] == blocks[k]);
        }
        lemma_blocks_preserve_shape(init, x);
        lemma_block_preserves_shape(blocks.last(), x);
        if forall|k: int| 0 <= k < blocks.len() ==> (#[trigger] blocks[k]).accepts(x) {
            assert forall|k: int| 0 <= k < init.len() implies (#[trigger] init[k]).accepts(x) by {
                assert(init[k] == blocks[k]);
                assert(blocks[k].accepts(x));
            }
            assert(blocks[blocks.len() - 1].accepts(x));
        } else {
            let k0 = choose|k: int| 0 <= k < blocks.len() && !(#[trigger] blocks[k]).accepts(x);
            if k0 < init.len() {
                assert(init[k0] == blocks[k0]);
                assert(!init[k0].accepts(x));
            }
        }
    }
}

/// Applies `blocks` in order. Succeeds exactly when each accepts what reaches it, with the
/// shape the stack gives; otherwise returns the error of the first block that refuses.
pub fn forward_blocks(g: &mut Graph, blocks: &Vec<TransformerBlock>, x: &Tensor) -> (r: Result<Tensor, EngineError>)
    requires
        old(g).wf(),
        forall|k: int| 0 <= k < blocks@.len() ==> (#[trigger] blocks@[k]).wf_in(*old(g)),
        x.valid(*old(g)),
    ensures
        final(g).wf(),
        old(g).extended_by(*final(g)),
        r is Ok <==> blocks_out(blocks@, x.shape_of(*old(g))) is Some,
        r matches Ok(t) ==> t.valid(*final(g)) && blocks_out(blocks@, x.shape_of(*old(g))) == Some(t.shape_of(*final(g))),
{
    let ghost g0 = *g;
    let ghost xs = x.shape_of(*g);
    let mut cur = *x;
    let mut k: usize = 0;
    proof {
        assert(blocks@.take(0) =~= Seq::<TransformerBlock>::empty());
        assert(blocks@.take(blocks@.len() as int) =~= blocks@);
    }
    while k < blocks.len()
        invariant
            g0 == *old(g),
            xs == x.shape_of(g0),
            g.wf(),
            g0.extended_by(*g),
            forall|j: int| 0 <= j < blocks@.len() ==> (#[trigger] blocks@[j]).wf_in(g0),
            cur.valid(*g),
            k <= blocks@.len(),
            blocks@.take(blocks@.len() as int) == blocks@,
            blocks_out(blocks@.take(k as int), xs) == Some(cur.shape_of(*g)),
        decreases blocks.len() - k,
    {
        let ghost gk = *g;
        proof {
            blocks@[k as int].lemma_wf_in_shapes(g0);
            crate::nn::module::lemma_shapes_hold_extend(g0, gk, blocks@[k as int].shapes());
            blocks@[k as int].lemma_wf_in_shapes(gk);
            assert(blocks@.take(k + 1).drop_last() =~= blocks@.take(k as int));
        }
        match blocks[k].forward_block(g, &cur) {
            Ok(t) => {
                cur = t;
            },
            Err(e) => {
                proof {
                    g0.lemma_extended_trans(gk, *g);
                    lemma_blocks_out_none_extends(blocks@, (k + 1) as int, xs);
                }
                return Err(e);
            },
        }
        proof {
            g0.lemma_extended_trans(gk, *g);
        }
        k = k + 1;
    }
    assert(k == blocks@.len());
    assert(blocks@.take(k as int) == blocks@);
    Ok(cur)
}

/// Decoder-only language model: token and position embeddings, a stack of blocks, a final
/// layer norm and a projection to the vocabulary.
pub struct TransformerLM {
    pub tok_emb: Embedding,
    pub pos_emb: Embedding,
    pub blocks: Vec<TransformerBlock>,
    pub ln_f: LayerNorm,
    pub lm_head: Linear,
    pub vocab_size: usize,
    pub max_seq_len: usize,
    pub d_model: usize,
}

impl TransformerLM {
    /// Every part lives in `g` with its expected shapes.
    pub open spec fn wf_in(&self, g: Graph) -> bool {
        &&& self.tok_emb.wf_in(g)
        &&& self.pos_emb.wf_in(g)
        &&& forall|k: int| 0 <= k < self.blocks@.len() ==> (#[trigger] self.blocks@[k]).wf_in(g)
        &&& self.ln_f.wf_in(g)
        &&& self.lm_head.wf_in(g)
    }

    /// Shape of the summed embeddings of `batch_size` sequences of `seq_len` tokens.
    pub open spec fn embedded(&self, batch_size: usize, seq_len: usize) -> Seq<usize> {
        seq![batch_size, seq_len, self.d_model]
    }

    /// The model accepts `tokens` as `batch_size` sequences of `seq_len`: every token has an
    /// embedding, both embeddings reshape to the model width, the blocks accept the sum, and
    /// the final norm and projection accept what the blocks return.
    pub open spec fn forward_ok(&self, tokens: Seq<usize>, batch_size: usize, seq_len: usize) -> bool {
        let x = self.embedded(batch_size, seq_len);
        &&& forall|i: int| 0 <= i < tokens.len() ==> #[trigger] tokens[i] < self.tok_emb.num_embeddings
        &&& reshape_ok(seq![tokens.len() as usize, self.tok_emb.embedding_dim], x)
        &&& seq_len <= self.pos_emb.num_embeddings
        &&& reshape_ok(seq![seq_len, self.pos_emb.embedding_dim], seq![1usize, seq_len, self.d_model])
        &&& blocks_out(self.blocks@, x) is Some
        &&& self.ln_f.accepts(blocks_out(self.blocks@, x)->Some_0)
        &&& self.lm_head.accepts(blocks_out(self.blocks@, x)->Some_0)
    }

    /// Shape of the logits when the model accepts its input.
    pub open spec fn logits_shape(&self, batch_size: usize, seq_len: usize) -> Seq<usize> {
        linear_out(blocks_out(self.blocks@, self.embedded(batch_size, seq_len))->Some_0, self.lm_head.out_features)
    }

    /// The model as `new` builds it: embeddings of the model width over the vocabulary and the
    /// positions, consistent blocks of that width, and a projection back to the vocabulary.
    pub open spec fn consistent(&self) -> bool {
        &&& self.tok_emb.num_embeddings == self.vocab_size && self.tok_emb.embedding_dim == self.d_model
        &&& self.pos_emb.num_embeddings == self.max_seq_len && self.pos_emb.embedding_dim == self.d_model
        &&& forall|k: int| 0 <= k < self.blocks@.len() ==> (#[trigger] self.blocks@[k]).consistent() && self.blocks@[k].attn.d_model == self.d_model
        &&& self.ln_f.normalized_dim == self.d_model
        &&& self.lm_head.in_features == self.d_model && self.lm_head.out_features == self.vocab_size
    }

    /// A model of `num_layers` causal blocks of width `d_model` with `num_heads` heads.
    pub fn new(g: &mut Graph, vocab_size: usize, max_seq_len: usize, d_model: usize, num_heads: usize, num_layers: usize) -> (r: TransformerLM)
        requires
            old(g).wf(),
            num_heads > 0,
            d_model % num_heads == 0,
            d_model * 4 <= usize::MAX,
        ensures
            final(g).wf(),
            old(g).extended_by(*final(g)),
            r.wf_in(*final(g)),
            r.consistent(),
            r.blocks@.len() == num_layers,
            r.vocab_size == vocab_size,
            r.max_seq_len == max_seq_len,
            r.d_model == d_model,
            forall|k: int| 0 <= k < num_layers ==> (#[trigger] r.blocks@[k]).attn.num_heads == num_heads && r.blocks@[k].attn.is_causal,
    {
        let ghost g0 = *g;
        let mut blocks: Vec<TransformerBlock> = Vec::new();
        let mut k: usize = 0;
        while k < num_layers
            invariant
                g.wf(),
                g0.extended_by(*g),
                num_heads > 0,
                d_model % num_heads == 0,
                d_model * 4 <= usize::MAX,
                k <= num_layers,
                blocks@.len() == k,
                forall|j: int| 0 <= j < k ==> (#[trigger] blocks@[j]).wf_in(*g) && blocks@[j].consistent()
                    && blocks@[j].attn.d_model == d_model && blocks@[j].attn.num_heads == num_heads && blocks@[j].attn.is_causal,
            decreases num_layers - k,
        {
            let ghost gk = *g;
            let b = TransformerBlock::new(g, d_model, num_heads, true);
            proof {
                g0.lemma_extended_trans(gk, *g);
                assert forall|j: int| 0 <= j < k implies (#[trigger] blocks@[j]).wf_in(*g) by {
                    blocks@[j].lemma_wf_in_shapes(gk);
                    crate::nn::module::lemma_shapes_hold_extend(gk, *g, blocks@[j].shapes());
                    blocks@[j].lemma_wf_in_shapes(*g);
                }
            }
            blocks.push(b);
            k = k + 1;
        }
        let ghost g1 = *g;
        let tok_emb = Embedding::new(g, vocab_size, d_model);
        let ghost g2 = *g;
        let pos_emb = Embedding::new(g, max_seq_len, d_model);
        let ghost g3 = *g;
        let ln_f = LayerNorm::new(g, d_model);
        let ghost g4 = *g;
        let lm_head = Linear::new(g, d_model, vocab_size);
        let r = TransformerLM { tok_emb, pos_emb, blocks, ln_f, lm_head, vocab_size, max_seq_len, d_model };
        proof {
            g1.lemma_extended_trans(g2, g3);
            g1.lemma_extended_trans(g3, g4);
            g1.lemma_extended_trans(g4, *g);
            g0.lemma_extended_trans(g1, *g);
            assert forall|j: int| 0 <= j < r.blocks@.len() implies (#[trigger] r.blocks@[j]).wf_in(*g) by {
                r.blocks@[j].lemma_wf_in_shapes(g1);
                crate::nn::module::lemma_shapes_hold_extend(g1, *g, r.blocks@[j].shapes());
                r.blocks@[j].lemma_wf_in_shapes(*g);
            }
            assert(g.nodes@[tok_emb.weight.id as int] == g2.nodes@[tok_emb.weight.id as int]);
            assert(g.nodes@[pos_emb.weight.id as int] == g3.nodes@[pos_emb.weight.id as int]);
            ln_f.lemma_wf_in_shapes(g4);
            crate::nn::module::lemma_shapes_hold_extend(g4, *g, ln_f.shapes());
            ln_f.lemma_wf_in_shapes(*g);
        }
        r
    }
}

/// The positions `0, 1, ..., n - 1`.
pub fn positions(n: usize) -> (r: Vec<usize>)
    ensures
        r@.len() == n,
        forall|i: int| 0 <= i < n ==> #[trigger] r@[i] == i,
{
    let mut r: Vec<usize> = Vec::new();
    let mut i: usize = 0;
    while i < n
        invariant
            i <= n,
            r@.len() == i,
            forall|j: int| 0 <= j < i ==> #[trigger] r@[j] == j,
        decreases n - i,
    {
        r.push(i);
        i = i + 1;
    }
    r
}

impl TransformerLM {
    /// Logits for `tokens` read as `batch_size` sequences of `seq_len` tokens each: succeeds
    /// exactly when the model accepts them, with logits of the shape the blocks and projection
    /// give (for a consistent model, `[batch_size, seq_len, vocab_size]`).
    pub fn forward_tokens(&self, g: &mut Graph, tokens: &[usize], batch_size: usize, seq_len: usize) -> (r: Result<Tensor, EngineError>)
        requires
            old(g).wf(),
            self.wf_in(*old(g)),
            tokens@.len() == batch_size * seq_len,
            seq_len <= self.max_seq_len,
        ensures
            final(g).wf(),
            old(g).extended_by(*final(g)),
            r is Ok <==> self.forward_ok(tokens@, batch_size, seq_len),
            r matches Ok(t) ==> t.valid(*final(g)) && t.shape_of(*final(g)) == self.logits_shape(batch_size, seq_len),
            r matches Ok(t) ==> exists|n: int, y: int| #[trigger] linear_result(*final(g), t.id as int, self.lm_head, n)
                && #[trigger] layer_norm_structure(*final(g), n, self.ln_f, y, 2),
    {
        let ghost g0 = *g;
        let ghost xs = self.embedded(batch_size, seq_len);
        let tok = self.tok_emb.forward_indices(g, tokens)?;
        let ghost g1 = *g;
        let tok3 = match tok.reshape(g, crate::shape::shape3(batch_size, seq_len, self.d_model).as_slice()) {
            Ok(t) => t,
            Err(e) => {
                return Err(e);
            },
        };
        let ghost g2 = *g;
        assert(g2.nodes@[self.pos_emb.weight.id as int] == g0.nodes@[self.pos_emb.weight.id as int]);
        let idx = positions(seq_len);
        let pos = match self.pos_emb.forward_indices(g, idx.as_slice()) {
            Ok(t) => t,
            Err(e) => {
                proof {
                    g0.lemma_extended_trans(g1, g2);
                    g0.lemma_extended_trans(g2, *g);
                    assert(seq_len > self.pos_emb.num_embeddings) by {
                        let i = choose|i: int| 0 <= i < idx@.len() && idx@[i] >= self.pos_emb.num_embeddings;
                        assert(idx@[i] == i);
                    }
                }
                return Err(e);
            },
        };
        let ghost g3 = *g;
        proof {
            if seq_len > self.pos_emb.num_embeddings {
                assert(idx@[self.pos_emb.num_embeddings as int] == self.pos_emb.num_embeddings);
            }
        }
        let pos3 = match pos.reshape(g, crate::shape::shape3(1, seq_len, self.d_model).as_slice()) {
            Ok(t) => t,
            Err(e) => {
                proof {
                    g0.lemma_extended_trans(g1, g2);
                    g0.lemma_extended_trans(g2, g3);
                    g0.lemma_extended_trans(g3, *g);
                }
                return Err(e);
            },
        };
        let ghost g4 = *g;
        proof {
            let pe = seq![1usize, seq_len, self.d_model];
            assert forall|i: int| 0 <= i < xs.len() implies #[trigger] pe[i] == xs[i] || pe[i] == 1 by {}
            crate::shape::lemma_broadcast_collapsed(xs, pe);
        }
        assert(g4.nodes@[tok3.id as int] == g2.nodes@[tok3.id as int]);
        let x = match tok3.add(g, &pos3) {
            Ok(t) => t,
            Err(e) => {
                return Err(e);
            },
        };
        let ghost g5 = *g;
        proof {
            g0.lemma_extended_trans(g1, g2);
            g0.lemma_extended_trans(g2, g3);
            g0.lemma_extended_trans(g3, g4);
            g0.lemma_extended_trans(g4, g5);
            assert(x.shape_of(*g) == xs);
            assert forall|k: int| 0 <= k < self.blocks@.len() implies (#[trigger] self.blocks@[k]).wf_in(*g) by {
                self.blocks@[k].lemma_wf_in_shapes(g0);
                crate::nn::module::lemma_shapes_hold_extend(g0, *g, self.blocks@[k].shapes());
                self.blocks@[k].lemma_wf_in_shapes(*g);
            }
        }
        let x = match forward_blocks(g, &self.blocks, &x) {
            Ok(t) => t,
            Err(e) => {
                proof {
                    g0.lemma_extended_trans(g5, *g);
                }
                return Err(e);
            },
        };
        proof {
            g0.lemma_extended_trans(g5, *g);
        }
        let ghost g6 = *g;
        proof {
            self.ln_f.lemma_wf_in_shapes(g0);
            crate::nn::module::lemma_shapes_hold_extend(g0, g6, self.ln_f.shapes());
            self.ln_f.lemma_wf_in_shapes(g6);
        }
        let normed = match self.ln_f.forward_norm(g, &x) {
            Ok(t) => t,
            Err(e) => {
                proof {
                    g0.lemma_extended_trans(g6, *g);
                }
                return Err(e);
            },
        };
        let ghost g7 = *g;
        proof {
            g0.lemma_extended_trans(g6, g7);
            self.lm_head.lemma_wf_in_shapes(g0);
            crate::nn::module::lemma_shapes_hold_extend(g0, g7, self.lm_head.shapes());
            self.lm_head.lemma_wf_in_shapes(g7);
        }
        let out = self.lm_head.forward_linear(g, &normed);
        proof {
            g0.lemma_extended_trans(g7, *g);
            if let Ok(o) = out {
                lemma_layer_norm_structure_extend(g7, *g, normed.id as int, self.ln_f, x.id as int, 2);
                assert(linear_result(*g, o.id as int, self.lm_head, normed.id as int));
            }
        }
        out
    }
}

/// Once a prefix of the blocks refuses, the whole stack does.
pub proof fn lemma_blocks_out_none_extends(blocks: Seq<TransformerBlock>, k: int, x: Seq<usize>)
    requires
        0 <= k <= blocks.len(),
        blocks_out(blocks.take(k), x) is None,
    ensures
        blocks_out(blocks, x) is None,
    decreases blocks.len() - k,
{
    if k < blocks.len() {
        assert(blocks.take(k + 1).drop_last() =~= blocks.take(k));
        lemma_blocks_out_none_extends(blocks, k + 1, x);
    } else {
        assert(blocks.take(k) =~= blocks);
    }
}

impl TransformerLM {
    /// The tensors that `parameters` gives, in order.
    pub open spec fn param_seq(&self) -> Seq<Tensor> {
        seq![self.tok_emb.weight, self.pos_emb.weight] + crate::nn::module::seq_params(self.blocks@) + seq![self.ln_f.weight, self.ln_f.bias]
            + self.lm_head.param_seq()
    }
}

impl TransformerLM {
    /// The learnable tensors: embeddings, each block's, the final norm's and the projection's.
    pub fn parameters(&self) -> (r: Vec<Tensor>)
        ensures
            r@ == self.param_seq(),
            forall|g: Graph| #[trigger] self.wf_in(g) ==> forall|k: int| 0 <= k < r@.len() ==> (#[trigger] r@[k]).valid(g),
    {
        let mut params: Vec<Tensor> = Vec::new();
        params.push(self.tok_emb.weight);
        params.push(self.pos_emb.weight);
        let ghost base_blocks = params@;
        proof {
            assert(crate::nn::module::seq_params(self.blocks@.take(0)) =~= Seq::<Tensor>::empty());
        }
        let mut i: usize = 0;
        while i < self.blocks.len()
            invariant
                i <= self.blocks@.len(),
                params@ == base_blocks + crate::nn::module::seq_params(self.blocks@.take(i as int)),
                forall|g: Graph| #[trigger] self.wf_in(g) ==> forall|k: int| 0 <= k < params@.len() ==> (#[trigger] params@[k]).valid(g),
            decreases self.blocks.len() - i,
        {
            let mut p = self.blocks[i].parameters();
            proof {
                crate::nn::module::lemma_seq_params_step(self.blocks@, i as int);
            }
            let ghost before = params@;
            let ghost b = self.blocks@[i as int];
            params.append(&mut p);
            proof {
                assert forall|g: Graph| #[trigger] self.wf_in(g) implies forall|k: int| 0 <= k < params@.len() ==> (#[trigger] params@[k]).valid(g) by {
                    assert(b.wf_in(g));
                    b.lemma_wf_in_shapes(g);
                    lemma_tensors_valid(g, b.shapes());
                    assert forall|k: int| 0 <= k < params@.len() implies (#[trigger] params@[k]).valid(g) by {
                        if k >= before.len() {
                            assert(params@[k] == tensors_of(b.shapes())[k - before.len()]);
                        } else {
                            assert(params@[k] == before[k]);
                        }
                    }
                }
            }
            i = i + 1;
        }
        proof {
            assert(self.blocks@.take(self.blocks@.len() as int) =~= self.blocks@);
        }
        params.push(self.ln_f.weight);
        params.push(self.ln_f.bias);
        let ghost before = params@;
        let mut h = self.lm_head.parameters();
        params.append(&mut h);
        proof {
            assert forall|g: Graph| #[trigger] self.wf_in(g) implies forall|k: int| 0 <= k < params@.len() ==> (#[trigger] params@[k]).valid(g) by {
                assert forall|k: int| 0 <= k < params@.len() implies (#[trigger] params@[k]).valid(g) by {
                    if k >= before.len() {
                        assert(params@[k] == self.lm_head.param_seq()[k - before.len()]);
                    } else {
                        assert(params@[k] == before[k]);
                    }
                }
            }
        }
        proof {
            assert(params@ =~= self.param_seq());
        }
        params
    }
}

/// A consistent language model maps `batch_size` sequences of `seq_len` tokens to logits of
/// shape `[batch_size, seq_len, vocab_size]`, and accepts them only when every block accepts
/// the embedded `[batch_size, seq_len, d_model]` shape.
pub proof fn lemma_lm_logits_shape(m: TransformerLM, tokens: Seq<usize>, batch_size: usize, seq_len: usize)
    requires
        m.consistent(),
        m.forward_ok(tokens, batch_size, seq_len),
    ensures
        m.logits_shape(batch_size, seq_len) == seq![batch_size, seq_len, m.vocab_size],
        forall|k: int| 0 <= k < m.blocks@.len() ==> (#[trigger] m.blocks@[k]).accepts(m.embedded(batch_size, seq_len)),
{
    let xs = m.embedded(batch_size, seq_len);
    lemma_blocks_preserve_shape(m.blocks@, xs);
    assert(linear_out(xs, m.vocab_size) =~= seq![batch_size, seq_len, m.vocab_size]);
}

} // verus!
