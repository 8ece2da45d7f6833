//! Whisper-style speech recognition: a convolutional front end and bidirectional encoder over
//! log-mel spectrograms, and a decoder with causal self-attention and cross-attention to the
//! encoder's output.

use vstd::prelude::*;
use crate::autograd::node::{Graph, LeafInit, Op};
use crate::autograd::tensor::{Tensor, conv_spec, conv_window_ok, reshape_ok};
use crate::error::EngineError;
use crate::nn::attention::{MultiHeadAttention, attention_result, lemma_attention_result_extend, self_attention_mask};
use crate::nn::bert::lookup_ok;
use crate::nn::conv::{Conv2d, conv_weight};
use crate::nn::embedding::Embedding;
use crate::nn::linear::{Linear, lemma_linear_result_extend, linear_out, linear_result};
use crate::nn::module::{Module, lemma_seq_shapes_hold, lemma_shapes_hold_concat, lemma_shapes_hold_extend, lemma_tensors_valid, seq_shapes, shapes_hold, tensors_of};
use crate::nn::norm::{LayerNorm, layer_norm_structure, lemma_layer_norm_structure_extend};
use crate::shape::{broadcast_spec, broadcastable, lemma_broadcast_collapsed, lemma_broadcast_self, shape2, shape3, shape4, slice_spec, transpose_spec};

verus! {

/// Hyperparameters of an encoder-decoder speech recognition transformer.
#[derive(Clone, Copy, PartialEq, Eq, Structural)]
pub struct WhisperConfig {
    /// Number of Mel frequency bins of the input spectrogram.
    pub n_mels: usize,
    /// Hidden dimension.
    pub d_model: usize,
    /// Number of encoder layers.
    pub encoder_layers: usize,
    /// Number of decoder layers.
    pub decoder_layers: usize,
    /// Number of encoder attention heads.
    pub encoder_heads: usize,
    /// Number of decoder attention heads.
    pub decoder_heads: usize,
    /// Inner dimension of the feed-forward blocks.
    pub d_ff: usize,
    /// Size of the text vocabulary.
    pub vocab_size: usize,
    /// Maximum number of encoder frames after downsampling.
    pub max_source_positions: usize,
    /// Maximum number of text tokens.
    pub max_target_positions: usize,
}

impl WhisperConfig {
    /// A compact configuration for fast training on spoken words.
    pub fn tiny() -> (r: WhisperConfig)
        ensures
            r == (WhisperConfig {
                n_mels: 64, d_model: 64, encoder_layers: 2, decoder_layers: 2, encoder_heads: 4,
                decoder_heads: 4, d_ff: 160, vocab_size: 350, max_source_positions: 128,
                max_target_positions: 48,
            }),
    {
        WhisperConfig {
            n_mels: 64,
            d_model: 64,
            encoder_layers: 2,
            decoder_layers: 2,
            encoder_heads: 4,
            decoder_heads: 4,
            d_ff: 160,
            vocab_size: 350,
            max_source_positions: 128,
            max_target_positions: 48,
        }
    }
}

/// The nodes witness that node `o` of `g` is what encoder block `b` makes of node `x` (see
/// `enc_block_result`).
pub open spec fn enc_block_witness(g: Graph, o: int, b: WhisperEncoderBlock, x: int, mask: Option<LeafInit>,
    n1: int, at: int, h: int, n2: int, f1: int, a: int, f2: int) -> bool {
    &&& layer_norm_structure(g, n1, b.self_attn_ln, x, 2)
    &&& attention_result(g, at, b.self_attn, n1, n1, mask)
    &&& g.nodes@[h].op == Op::Add && g.nodes@[h].inputs@ == seq![x as usize, at as usize]
    &&& layer_norm_structure(g, n2, b.mlp_ln, h, 2)
    &&& linear_result(g, f1, b.mlp_fc1, n2)
    &&& g.nodes@[a].op == Op::Gelu && g.nodes@[a].inputs@ == seq![f1 as usize]
    &&& linear_result(g, f2, b.mlp_fc2, a)
    &&& g.nodes@[o].op == Op::Add && g.nodes@[o].inputs@ == seq![h as usize, f2 as usize]
}

/// Node `o` of `g` is what encoder block `b` makes of node `x` (pre-normalization): with
/// `h = x + attention(norm1(x))`, where `mask` is on the attention's scores, `o` is
/// `h + fc2(gelu(fc1(norm2(h))))`.
pub open spec fn enc_block_result(g: Graph, o: int, b: WhisperEncoderBlock, x: int, mask: Option<LeafInit>) -> bool {
    exists|n1: int, at: int, h: int, n2: int, f1: int, a: int, f2: int|
        #[trigger] enc_block_witness(g, o, b, x, mask, n1, at, h, n2, f1, a, f2)
}

/// Encoder layer: `x + attention(ln(x))`, then that plus `fc2(gelu(fc1(ln(.))))`.
#[derive(Clone, Copy)]
pub struct WhisperEncoderBlock {
    pub self_attn_ln: LayerNorm,
    pub self_attn: MultiHeadAttention,
    pub mlp_ln: LayerNorm,
    pub mlp_fc1: Linear,
    pub mlp_fc2: Linear,
}

impl WhisperEncoderBlock {
    /// Every part lives in `g`.
    pub open spec fn wf_in(&self, g: Graph) -> bool {
        &&& self.self_attn_ln.wf_in(g)
        &&& self.self_attn.wf_in(g)
        &&& self.mlp_ln.wf_in(g)
        &&& self.mlp_fc1.wf_in(g)
        &&& self.mlp_fc2.wf_in(g)
    }

    /// The block's tensors with their expected shapes.
    pub open spec fn shapes(&self) -> Seq<(Tensor, Seq<usize>)> {
        self.self_attn_ln.shapes() + self.self_attn.shapes() + self.mlp_ln.shapes() + self.mlp_fc1.shapes() + self.mlp_fc2.shapes()
    }

    /// `wf_in` says the same as the list of expected shapes.
    pub proof fn lemma_wf_in_shapes(&self, g: Graph)
        ensures
            self.wf_in(g) <==> shapes_hold(g, self.shapes()),
    {
        let a = self.self_attn_ln.shapes();
        let b = self.self_attn.shapes();
        let c = self.mlp_ln.shapes();
        let d = self.mlp_fc1.shapes();
        let e = self.mlp_fc2.shapes();
        lemma_shapes_hold_concat(g, a + b + c + d, e);
        lemma_shapes_hold_concat(g, a + b + c, d);
        lemma_shapes_hold_concat(g, a + b, c);
        lemma_shapes_hold_concat(g, a, b);
        self.self_attn_ln.lemma_wf_in_shapes(g);
        self.self_attn.lemma_wf_in_shapes(g);
        self.mlp_ln.lemma_wf_in_shapes(g);
        self.mlp_fc1.lemma_wf_in_shapes(g);
        self.mlp_fc2.lemma_wf_in_shapes(g);
    }

    /// Shape after the attention residual.
    pub open spec fn after_attention(&self, x: Seq<usize>) -> Seq<usize> {
        broadcast_spec(x, self.self_attn.out_shape(x))
    }

    /// Shape of the feed-forward branch's output.
    pub open spec fn mlp_out(&self, x: Seq<usize>) -> Seq<usize> {
        linear_out(linear_out(self.after_attention(x), self.mlp_fc1.out_features), self.mlp_fc2.out_features)
    }

    /// The block accepts input of shape `x`.
    pub open spec fn accepts(&self, x: Seq<usize>) -> bool {
        let a = self.after_attention(x);
        &&& self.self_attn_ln.accepts(x)
        &&& self.self_attn.accepts(x)
        &&& broadcastable(x, self.self_attn.out_shape(x))
        &&& self.mlp_ln.accepts(a)
        &&& self.mlp_fc1.accepts(a)
        &&& self.mlp_fc2.accepts(linear_out(a, self.mlp_fc1.out_features))
        &&& broadcastable(a, self.mlp_out(x))
    }

    /// Shape of the block's output.
    pub open spec fn out_shape(&self, x: Seq<usize>) -> Seq<usize> {
        broadcast_spec(self.after_attention(x), self.mlp_out(x))
    }

    /// The parts agree on the width `d`.
    pub open spec fn consistent(&self, d: usize) -> bool {
        &&& self.self_attn.consistent()
        &&& self.self_attn.d_model == d
        &&& self.self_attn_ln.normalized_dim == d
        &&& self.mlp_ln.normalized_dim == d
        &&& self.mlp_fc2.out_features == d
    }

    /// A bidirectional block of width `d_model` with `num_heads` heads and feed-forward width `d_ff`.
    pub fn new(g: &mut Graph, d_model: usize, num_heads: usize, d_ff: usize) -> (r: WhisperEncoderBlock)
        requires
            old(g).wf(),
            num_heads > 0,
            d_model % num_heads == 0,
        ensures
            final(g).wf(),
            old(g).extended_by(*final(g)),
            r.wf_in(*final(g)),
            r.self_attn.consistent(),
            r.self_attn.d_model == d_model,
            !r.self_attn.is_causal,
            r.self_attn_ln.normalized_dim == d_model,
            r.mlp_ln.normalized_dim == d_model,
            r.mlp_fc1.in_features == d_model && r.mlp_fc1.out_features == d_ff,
            r.mlp_fc2.in_features == d_ff && r.mlp_fc2.out_features == d_model,
            r.consistent(d_model),
    {
        let ghost g0 = *g;
        let self_attn_ln = LayerNorm::new(g, d_model);
        let ghost g1 = *g;
        let self_attn = MultiHeadAttention::new(g, d_model, num_heads, false);
        let ghost g2 = *g;
        let mlp_ln = LayerNorm::new(g, d_model);
        let ghost g3 = *g;
        let mlp_fc1 = Linear::new(g, d_model, d_ff);
        let ghost g4 = *g;
        let mlp_fc2 = Linear::new(g, d_ff, d_model);
        let r = WhisperEncoderBlock { self_attn_ln, self_attn, mlp_ln, mlp_fc1, mlp_fc2 };
        proof {
            g0.lemma_extended_trans(g1, g2);
            g0.lemma_extended_trans(g2, g3);
            g0.lemma_extended_trans(g3, g4);
            g0.lemma_extended_trans(g4, *g);
            g1.lemma_extended_trans(g2, *g);
            g2.lemma_extended_trans(g3, *g);
            g3.lemma_extended_trans(g4, *g);
            self_attn_ln.lemma_wf_in_shapes(g1);
            lemma_shapes_hold_extend(g1, *g, self_attn_ln.shapes());
            self_attn_ln.lemma_wf_in_shapes(*g);
            self_attn.lemma_wf_in_shapes(g2);
            lemma_shapes_hold_extend(g2, *g, self_attn.shapes());
            self_attn.lemma_wf_in_shapes(*g);
            mlp_ln.lemma_wf_in_shapes(g3);
            lemma_shapes_hold_extend(g3, *g, mlp_ln.shapes());
            mlp_ln.lemma_wf_in_shapes(*g);
            mlp_fc1.lemma_wf_in_shapes(g4);
            lemma_shapes_hold_extend(g4, *g, mlp_fc1.shapes());
            mlp_fc1.lemma_wf_in_shapes(*g);
        }
        r
    }

    /// Applies the block: succeeds exactly when it accepts the input's shape.
    pub fn forward_block(&self, g: &mut Graph, x: &Tensor) -> (r: Result<Tensor, EngineError>)
        requires
            old(g).wf(),
            self.wf_in(*old(g)),
            x.valid(*old(g)),
        ensures
            final(g).wf(),
            old(g).extended_by(*final(g)),
            r is Ok <==> self.accepts(x.shape_of(*old(g))),
            r matches Ok(t) ==> t.valid(*final(g)) && t.shape_of(*final(g)) == self.out_shape(x.shape_of(*old(g))),
            r matches Ok(t) ==> enc_block_result(*final(g), t.id as int, *self, x.id as int,
                self_attention_mask(self.self_attn.is_causal, x.shape_of(*old(g))[1])),
    {
        let ghost g0 = *g;
        let norm_x = self.self_attn_ln.forward_norm(g, x)?;
        let ghost g1 = *g;
        proof {
            self.self_attn.lemma_wf_in_shapes(g0);
            lemma_shapes_hold_extend(g0, g1, self.self_attn.shapes());
            self.self_attn.lemma_wf_in_shapes(g1);
        }
        let h_attn = match self.self_attn.forward_attention(g, &norm_x) {
            Ok(t) => t,
            Err(e) => {
                proof {
                    g0.lemma_extended_trans(g1, *g);
                }
                return Err(e);
            },
        };
        let ghost g2 = *g;
        proof {
            g0.lemma_extended_trans(g1, g2);
        }
        assert(g2.nodes@[x.id as int] == g0.nodes@[x.id as int]);
        let res1 = match x.add(g, &h_attn) {
            Ok(t) => t,
            Err(e) => {
                return Err(e);
            },
        };
        let ghost g3 = *g;
        proof {
            g0.lemma_extended_trans(g2, g3);
            self.mlp_ln.lemma_wf_in_shapes(g0);
            lemma_shapes_hold_extend(g0, g3, self.mlp_ln.shapes());
            self.mlp_ln.lemma_wf_in_shapes(g3);
        }
        let norm2 = match self.mlp_ln.forward_norm(g, &res1) {
            Ok(t) => t,
            Err(e) => {
                return Err(e);
            },
        };
        let ghost g4 = *g;
        proof {
            g0.lemma_extended_trans(g3, g4);
            self.mlp_fc1.lemma_wf_in_shapes(g0);
            lemma_shapes_hold_extend(g0, g4, self.mlp_fc1.shapes());
            self.mlp_fc1.lemma_wf_in_shapes(g4);
        }
        let h1 = match self.mlp_fc1.forward_linear(g, &norm2) {
            Ok(t) => t,
            Err(e) => {
                return Err(e);
            },
        };
        let ghost g5 = *g;
        let act = match h1.gelu(g) {
            Ok(t) => t,
            Err(e) => {
                return Err(e);
            },
        };
        let ghost g6 = *g;
        proof {
            g0.lemma_extended_trans(g4, g5);
            g0.lemma_extended_trans(g5, g6);
            self.mlp_fc2.lemma_wf_in_shapes(g0);
            lemma_shapes_hold_extend(g0, g6, self.mlp_fc2.shapes());
            self.mlp_fc2.lemma_wf_in_shapes(g6);
        }
        let h2 = match self.mlp_fc2.forward_linear(g, &act) {
            Ok(t) => t,
            Err(e) => {
                return Err(e);
            },
        };
        let ghost g7 = *g;
        assert(g7.nodes@[res1.id as int] == g3.nodes@[res1.id as int]);
        let out = res1.add(g, &h2);
        proof {
            g0.lemma_extended_trans(g6, g7);
            g0.lemma_extended_trans(g7, *g);
            if let Ok(o) = out {
                let gz = *g;
                let mask = self_attention_mask(self.self_attn.is_causal, x.shape_of(g0)[1]);
                g1.lemma_extended_trans(g2, gz);
                g2.lemma_extended_trans(g3, gz);
                g3.lemma_extended_trans(g4, gz);
                g4.lemma_extended_trans(g5, gz);
                g5.lemma_extended_trans(g6, gz);
                g6.lemma_extended_trans(g7, gz);
                lemma_layer_norm_structure_extend(g1, gz, norm_x.id as int, self.self_attn_ln, x.id as int, 2);
                assert(norm_x.shape_of(g1)[1] == x.shape_of(g0)[1]);
                lemma_attention_result_extend(g2, gz, h_attn.id as int, self.self_attn, norm_x.id as int, norm_x.id as int, mask);
                assert(gz.nodes@[res1.id as int] == g3.nodes@[res1.id as int]);
                lemma_layer_norm_structure_extend(g4, gz, norm2.id as int, self.mlp_ln, res1.id as int, 2);
                lemma_linear_result_extend(g5, gz, h1.id as int, self.mlp_fc1, norm2.id as int);
                assert(gz.nodes@[act.id as int] == g6.nodes@[act.id as int]);
                lemma_linear_result_extend(g7, gz, h2.id as int, self.mlp_fc2, act.id as int);
                assert(enc_block_witness(gz, o.id as int, *self, x.id as int, mask, norm_x.id as int, h_attn.id as int,
                    res1.id as int, norm2.id as int, h1.id as int, act.id as int, h2.id as int));
            }
        }
        out
    }
}

impl Module for WhisperEncoderBlock {
    open spec fn mode_is(&self, training: bool) -> bool {
        true
    }

    open spec fn param_list(&self) -> Seq<Tensor> {
        crate::nn::module::tensors_of(self.tensor_shapes())
    }

    open spec fn tensor_shapes(&self) -> Seq<(Tensor, Seq<usize>)> {
        self.shapes()
    }

    open spec fn buffer_shapes(&self) -> Seq<(usize, Seq<usize>)> {
        Seq::empty()
    }

    fn forward(&self, g: &mut Graph, input: &Tensor) -> (r: Result<Tensor, EngineError>)
        ensures
            r is Ok <==> self.accepts(input.shape_of(*old(g))),
            r matches Ok(t) ==> t.shape_of(*final(g)) == self.out_shape(input.shape_of(*old(g))),
    {
        proof {
            self.lemma_wf_in_shapes(*g);
        }
        self.forward_block(g, input)
    }

    fn parameters(&self) -> (r: Vec<Tensor>)
        ensures
            r@ == tensors_of(self.shapes()),
    {
        let mut params: Vec<Tensor> = Vec::new();
        params.push(self.self_attn_ln.weight);
        params.push(self.self_attn_ln.bias);
        let mut a = self.self_attn.parameters();
        params.append(&mut a);
        params.push(self.mlp_ln.weight);
        params.push(self.mlp_ln.bias);
        let mut f1 = self.mlp_fc1.parameters();
        params.append(&mut f1);
        let mut f2 = self.mlp_fc2.parameters();
        params.append(&mut f2);
        proof {
            assert(self.self_attn.param_seq() =~= tensors_of(self.self_attn.shapes()));
            assert(self.mlp_fc1.param_seq() =~= tensors_of(self.mlp_fc1.shapes()));
            assert(self.mlp_fc2.param_seq() =~= tensors_of(self.mlp_fc2.shapes()));
            assert(params@ =~= tensors_of(self.shapes()));
            assert forall|g: Graph| #[trigger] shapes_hold(g, self.tensor_shapes()) implies forall|k: int| 0 <= k < params@.len() ==> (#[trigger] params@[k]).valid(g) by {
                lemma_tensors_valid(g, self.shapes());
            }
        }
        params
    }

    /// Nothing switches between training and evaluation.
    fn train(&mut self) {
    }

    /// Nothing switches between training and evaluation.
    fn eval(&mut self) {
    }
}

/// The nodes witness that node `o` of `g` is what decoder block `b` makes of node `x` over the
/// encoder's output `m` (see `dec_block_result`).
pub open spec fn dec_block_witness(g: Graph, o: int, b: WhisperDecoderBlock, x: int, m: int, mask: Option<LeafInit>,
    n1: int, sa: int, h1: int, n2: int, ca: int, h2: int, n3: int, f1: int, a: int, f2: int) -> bool {
    &&& layer_norm_structure(g, n1, b.self_attn_ln, x, 2)
    &&& attention_result(g, sa, b.self_attn, n1, n1, mask)
    &&& g.nodes@[h1].op == Op::Add && g.nodes@[h1].inputs@ == seq![x as usize, sa as usize]
    &&& layer_norm_structure(g, n2, b.cross_attn_ln, h1, 2)
    &&& attention_result(g, ca, b.cross_attn, n2, m, None)
    &&& g.nodes@[h2].op == Op::Add && g.nodes@[h2].inputs@ == seq![h1 as usize, ca as usize]
    &&& layer_norm_structure(g, n3, b.mlp_ln, h2, 2)
    &&& linear_result(g, f1, b.mlp_fc1, n3)
    &&& g.nodes@[a].op == Op::Gelu && g.nodes@[a].inputs@ == seq![f1 as usize]
    &&& linear_result(g, f2, b.mlp_fc2, a)
    &&& g.nodes@[o].op == Op::Add && g.nodes@[o].inputs@ == seq![h2 as usize, f2 as usize]
}

/// Node `o` of `g` is what decoder block `b` makes of node `x` over encoder output `m`: with
/// `h1 = x + self_attention(norm1(x))` (`mask` on its scores) and
/// `h2 = h1 + cross_attention(norm2(h1), m)` (unmasked, keys and values from `m`), `o` is
/// `h2 + fc2(gelu(fc1(norm3(h2))))`.
pub open spec fn dec_block_result(g: Graph, o: int, b: WhisperDecoderBlock, x: int, m: int, mask: Option<LeafInit>) -> bool {
    exists|n1: int, sa: int, h1: int, n2: int, ca: int, h2: int, n3: int, f1: int, a: int, f2: int|
        #[trigger] dec_block_witness(g, o, b, x, m, mask, n1, sa, h1, n2, ca, h2, n3, f1, a, f2)
}

/// Decoder layer: `x + self_attention(ln(x))` (causal), then plus
/// `cross_attention(ln(.), memory)`, then plus `fc2(gelu(fc1(ln(.))))`.
#[derive(Clone, Copy)]
pub struct WhisperDecoderBlock {
    pub self_attn_ln: LayerNorm,
    pub self_attn: MultiHeadAttention,
    pub cross_attn_ln: LayerNorm,
    pub cross_attn: MultiHeadAttention,
    pub mlp_ln: LayerNorm,
    pub mlp_fc1: Linear,
    pub mlp_fc2: Linear,
}

impl WhisperDecoderBlock {
    /// Every part lives in `g`.
    pub open spec fn wf_in(&self, g: Graph) -> bool {
        &&& self.self_attn_ln.wf_in(g)
        &&& self.self_attn.wf_in(g)
        &&& self.cross_attn_ln.wf_in(g)
        &&& self.cross_attn.wf_in(g)
        &&& self.mlp_ln.wf_in(g)
        &&& self.mlp_fc1.wf_in(g)
        &&& self.mlp_fc2.wf_in(g)
    }

    /// The block's tensors with their expected shapes.
    pub open spec fn shapes(&self) -> Seq<(Tensor, Seq<usize>)> {
        self.self_attn_ln.shapes() + self.self_attn.shapes() + self.cross_attn_ln.shapes() + self.cross_attn.shapes()
            + self.mlp_ln.shapes() + self.mlp_fc1.shapes() + self.mlp_fc2.shapes()
    }

    /// `wf_in` says the same as the list of expected shapes.
    pub proof fn lemma_wf_in_shapes(&self, g: Graph)
        ensures
            self.wf_in(g) <==> shapes_hold(g, self.shapes()),
    {
        let a = self.self_attn_ln.shapes();
        let b = self.self_attn.shapes();
        let c = self.cross_attn_ln.shapes();
        let d = self.cross_attn.shapes();
        let e = self.mlp_ln.shapes();
        let f = self.mlp_fc1.shapes();
        let h = self.mlp_fc2.shapes();
        lemma_shapes_hold_concat(g, a + b + c + d + e + f, h);
        lemma_shapes_hold_concat(g, a + b + c + d + e, f);
        lemma_shapes_hold_concat(g, a + b + c + d, e);
        lemma_shapes_hold_concat(g, a + b + c, d);
        lemma_shapes_hold_concat(g, a + b, c);
        lemma_shapes_hold_concat(g, a, b);
        self.self_attn_ln.lemma_wf_in_shapes(g);
        self.self_attn.lemma_wf_in_shapes(g);
        self.cross_attn_ln.lemma_wf_in_shapes(g);
        self.cross_attn.lemma_wf_in_shapes(g);
        self.mlp_ln.lemma_wf_in_shapes(g);
        self.mlp_fc1.lemma_wf_in_shapes(g);
        self.mlp_fc2.lemma_wf_in_shapes(g);
    }

    /// Shape after the self-attention residual.
    pub open spec fn after_self(&self, x: Seq<usize>) -> Seq<usize> {
        broadcast_spec(x, self.self_attn.out_shape(x))
    }

    /// Shape after the cross-attention residual.
    pub open spec fn after_cross(&self, x: Seq<usize>) -> Seq<usize> {
        let a = self.after_self(x);
        broadcast_spec(a, self.cross_attn.out_shape(a))
    }

    /// Shape of the feed-forward branch's output.
    pub open spec fn mlp_out(&self, x: Seq<usize>) -> Seq<usize> {
        linear_out(linear_out(self.after_cross(x), self.mlp_fc1.out_features), self.mlp_fc2.out_features)
    }

    /// The block accepts input of shape `x` with memory of shape `m`.
    pub open spec fn accepts(&self, x: Seq<usize>, m: Seq<usize>) -> bool {
        let a = self.after_self(x);
        let c = self.after_cross(x);
        &&& self.self_attn_ln.accepts(x)
        &&& self.self_attn.accepts(x)
        &&& broadcastable(x, self.self_attn.out_shape(x))
        &&& self.cross_attn_ln.accepts(a)
        &&& self.cross_attn.accepts_cross(a, m)
        &&& broadcastable(a, self.cross_attn.out_shape(a))
        &&& self.mlp_ln.accepts(c)
        &&& self.mlp_fc1.accepts(c)
        &&& self.mlp_fc2.accepts(linear_out(c, self.mlp_fc1.out_features))
        &&& broadcastable(c, self.mlp_out(x))
    }

    /// Shape of the block's output.
    pub open spec fn out_shape(&self, x: Seq<usize>) -> Seq<usize> {
        broadcast_spec(self.after_cross(x), self.mlp_out(x))
    }

    /// The parts agree on the width `d`.
    pub open spec fn consistent(&self, d: usize) -> bool {
        &&& self.self_attn.consistent()
        &&& self.self_attn.d_model == d
        &&& self.cross_attn.consistent()
        &&& self.cross_attn.d_model == d
        &&& self.self_attn_ln.normalized_dim == d
        &&& self.cross_attn_ln.normalized_dim == d
        &&& self.mlp_ln.normalized_dim == d
        &&& self.mlp_fc2.out_features == d
    }

    /// A block of width `d_model` with `num_heads` heads (causal self-attention) and
    /// feed-forward width `d_ff`.
    pub fn new(g: &mut Graph, d_model: usize, num_heads: usize, d_ff: usize) -> (r: WhisperDecoderBlock)
        requires
            old(g).wf(),
            num_heads > 0,
            d_model % num_heads == 0,
        ensures
            final(g).wf(),
            old(g).extended_by(*final(g)),
            r.wf_in(*final(g)),
            r.self_attn.consistent() && r.self_attn.d_model == d_model && r.self_attn.is_causal,
            r.cross_attn.consistent() && r.cross_attn.d_model == d_model && !r.cross_attn.is_causal,
            r.self_attn_ln.normalized_dim == d_model,
            r.cross_attn_ln.normalized_dim == d_model,
            r.mlp_ln.normalized_dim == d_model,
            r.mlp_fc1.in_features == d_model && r.mlp_fc1.out_features == d_ff,
            r.mlp_fc2.in_features == d_ff && r.mlp_fc2.out_features == d_model,
            r.consistent(d_model),
    {
        let ghost g0 = *g;
        let self_attn_ln = LayerNorm::new(g, d_model);
        let ghost g1 = *g;
        let self_attn = MultiHeadAttention::new(g, d_model, num_heads, true);
        let ghost g2 = *g;
        let cross_attn_ln = LayerNorm::new(g, d_model);
        let ghost g3 = *g;
        let cross_attn = MultiHeadAttention::new(g, d_model, num_heads, false);
        let ghost g4 = *g;
        let mlp_ln = LayerNorm::new(g, d_model);
        let ghost g5 = *g;
        let mlp_fc1 = Linear::new(g, d_model, d_ff);
        let ghost g6 = *g;
        let mlp_fc2 = Linear::new(g, d_ff, d_model);
        let r = WhisperDecoderBlock { self_attn_ln, self_attn, cross_attn_ln, cross_attn, mlp_ln, mlp_fc1, mlp_fc2 };
        proof {
            g0.lemma_extended_trans(g1, g2);
            g0.lemma_extended_trans(g2, g3);
            g0.lemma_extended_trans(g3, g4);
            g0.lemma_extended_trans(g4, g5);
            g0.lemma_extended_trans(g5, g6);
            g0.lemma_extended_trans(g6, *g);
            g1.lemma_extended_trans(g2, *g);
            g2.lemma_extended_trans(g3, *g);
            g3.lemma_extended_trans(g4, *g);
            g4.lemma_extended_trans(g5, *g);
            g5.lemma_extended_trans(g6, *g);
            self_attn_ln.lemma_wf_in_shapes(g1);
            lemma_shapes_hold_extend(g1, *g, self_attn_ln.shapes());
            self_attn_ln.lemma_wf_in_shapes(*g);
            self_attn.lemma_wf_in_shapes(g2);
            lemma_shapes_hold_extend(g2, *g, self_attn.shapes());
            self_attn.lemma_wf_in_shapes(*g);
            cross_attn_ln.lemma_wf_in_shapes(g3);
            lemma_shapes_hold_extend(g3, *g, cross_attn_ln.shapes());
            cross_attn_ln.lemma_wf_in_shapes(*g);
            cross_attn.lemma_wf_in_shapes(g4);
            lemma_shapes_hold_extend(g4, *g, cross_attn.shapes());
            cross_attn.lemma_wf_in_shapes(*g);
            mlp_ln.lemma_wf_in_shapes(g5);
            lemma_shapes_hold_extend(g5, *g, mlp_ln.shapes());
            mlp_ln.lemma_wf_in_shapes(*g);
            mlp_fc1.lemma_wf_in_shapes(g6);
            lemma_shapes_hold_extend(g6, *g, mlp_fc1.shapes());
            mlp_fc1.lemma_wf_in_shapes(*g);
        }
        r
    }

    /// Applies the block to `x` attending to `memory`: succeeds exactly when it accepts both shapes.
    #[verifier::spinoff_prover]
    #[verifier::rlimit(100)]
    pub fn forward_block(&self, g: &mut Graph, x: &Tensor, memory: &Tensor) -> (r: Result<Tensor, EngineError>)
        requires
            old(g).wf(),
            self.wf_in(*old(g)),
            x.valid(*old(g)),
            memory.valid(*old(g)),
        ensures
            final(g).wf(),
            old(g).extended_by(*final(g)),
            r is Ok <==> self.accepts(x.shape_of(*old(g)), memory.shape_of(*old(g))),
            r matches Ok(t) ==> t.valid(*final(g)) && t.shape_of(*final(g)) == self.out_shape(x.shape_of(*old(g))),
            r matches Ok(t) ==> dec_block_result(*final(g), t.id as int, *self, x.id as int, memory.id as int,
                self_attention_mask(self.self_attn.is_causal, x.shape_of(*old(g))[1])),
    {
        let ghost g0 = *g;
        let norm_x = self.self_attn_ln.forward_norm(g, x)?;
        let ghost g1 = *g;
        proof {
            self.self_attn.lemma_wf_in_shapes(g0);
            lemma_shapes_hold_extend(g0, g1, self.self_attn.shapes());
            self.self_attn.lemma_wf_in_shapes(g1);
        }
        let h_self = match self.self_attn.forward_attention(g, &norm_x) {
            Ok(t) => t,
            Err(e) => {
                proof {
                    g0.lemma_extended_trans(g1, *g);
                }
                return Err(e);
            },
        };
        let ghost g2 = *g;
        proof {
            g0.lemma_extended_trans(g1, g2);
        }
        assert(g2.nodes@[x.id as int] == g0.nodes@[x.id as int]);
        let r1 = match x.add(g, &h_self) {
            Ok(t) => t,
            Err(e) => {
                return Err(e);
            },
        };
        let ghost g3 = *g;
        proof {
            g0.lemma_extended_trans(g2, g3);
            self.cross_attn_ln.lemma_wf_in_shapes(g0);
            lemma_shapes_hold_extend(g0, g3, self.cross_attn_ln.shapes());
            self.cross_attn_ln.lemma_wf_in_shapes(g3);
        }
        let norm2 = match self.cross_attn_ln.forward_norm(g, &r1) {
            Ok(t) => t,
            Err(e) => {
                return Err(e);
            },
        };
        let ghost g4 = *g;
        proof {
            g0.lemma_extended_trans(g3, g4);
            self.cross_attn.lemma_wf_in_shapes(g0);
            lemma_shapes_hold_extend(g0, g4, self.cross_attn.shapes());
            self.cross_attn.lemma_wf_in_shapes(g4);
        }
        assert(g4.nodes@[memory.id as int] == g0.nodes@[memory.id as int]);
        let h_cross = match self.cross_attn.forward_cross_attention(g, &norm2, memory) {
            Ok(t) => t,
            Err(e) => {
                proof {
                    g0.lemma_extended_trans(g4, *g);
                }
                return Err(e);
            },
        };
        let ghost g5 = *g;
        proof {
            g0.lemma_extended_trans(g4, g5);
        }
        assert(g5.nodes@[r1.id as int] == g3.nodes@[r1.id as int]);
        let r2 = match r1.add(g, &h_cross) {
            Ok(t) => t,
            Err(e) => {
                return Err(e);
            },
        };
        let ghost g6 = *g;
        proof {
            g0.lemma_extended_trans(g5, g6);
            self.mlp_ln.lemma_wf_in_shapes(g0);
            lemma_shapes_hold_extend(g0, g6, self.mlp_ln.shapes());
            self.mlp_ln.lemma_wf_in_shapes(g6);
        }
        let norm3 = match self.mlp_ln.forward_norm(g, &r2) {
            Ok(t) => t,
            Err(e) => {
                return Err(e);
            },
        };
        let ghost g7 = *g;
        proof {
            g0.lemma_extended_trans(g6, g7);
            self.mlp_fc1.lemma_wf_in_shapes(g0);
            lemma_shapes_hold_extend(g0, g7, self.mlp_fc1.shapes());
            self.mlp_fc1.lemma_wf_in_shapes(g7);
        }
        let h1 = match self.mlp_fc1.forward_linear(g, &norm3) {
            Ok(t) => t,
            Err(e) => {
                return Err(e);
            },
        };
        let ghost g8 = *g;
        let act = match h1.gelu(g) {
            Ok(t) => t,
            Err(e) => {
                return Err(e);
            },
        };
        let ghost g9 = *g;
        proof {
            g0.lemma_extended_trans(g7, g8);
            g0.lemma_extended_trans(g8, g9);
            self.mlp_fc2.lemma_wf_in_shapes(g0);
            lemma_shapes_hold_extend(g0, g9, self.mlp_fc2.shapes());
            self.mlp_fc2.lemma_wf_in_shapes(g9);
        }
        let h2 = match self.mlp_fc2.forward_linear(g, &act) {
            Ok(t) => t,
            Err(e) => {
                return Err(e);
            },
        };
        let ghost g10 = *g;
        assert(g10.nodes@[r2.id as int] == g6.nodes@[r2.id as int]);
        let out = r2.add(g, &h2);
        proof {
            g0.lemma_extended_trans(g9, g10);
            g0.lemma_extended_trans(g10, *g);
            if let Ok(o) = out {
                let gz = *g;
                let mask = self_attention_mask(self.self_attn.is_causal, x.shape_of(g0)[1]);
                g1.lemma_extended_trans(g2, gz);
                g2.lemma_extended_trans(g3, gz);
                g3.lemma_extended_trans(g4, gz);
                g4.lemma_extended_trans(g5, gz);
                g5.lemma_extended_trans(g6, gz);
                g6.lemma_extended_trans(g7, gz);
                g7.lemma_extended_trans(g8, gz);
                g8.lemma_extended_trans(g9, gz);
                g9.lemma_extended_trans(g10, gz);
                lemma_layer_norm_structure_extend(g1, gz, norm_x.id as int, self.self_attn_ln, x.id as int, 2);
                assert(norm_x.shape_of(g1)[1] == x.shape_of(g0)[1]);
                lemma_attention_result_extend(g2, gz, h_self.id as int, self.self_attn, norm_x.id as int, norm_x.id as int, mask);
                assert(gz.nodes@[r1.id as int] == g3.nodes@[r1.id as int]);
                lemma_layer_norm_structure_extend(g4, gz, norm2.id as int, self.cross_attn_ln, r1.id as int, 2);
                lemma_attention_result_extend(g5, gz, h_cross.id as int, self.cross_attn, norm2.id as int, memory.id as int, None);
                assert(gz.nodes@[r2.id as int] == g6.nodes@[r2.id as int]);
                lemma_layer_norm_structure_extend(g7, gz, norm3.id as int, self.mlp_ln, r2.id as int, 2);
                lemma_linear_result_extend(g8, gz, h1.id as int, self.mlp_fc1, norm3.id as int);
                assert(gz.nodes@[act.id as int] == g9.nodes@[act.id as int]);
                lemma_linear_result_extend(g10, gz, h2.id as int, self.mlp_fc2, act.id as int);
                assert(dec_block_witness(gz, o.id as int, *self, x.id as int, memory.id as int, mask, norm_x.id as int,
                    h_self.id as int, r1.id as int, norm2.id as int, h_cross.id as int, r2.id as int, norm3.id as int,
                    h1.id as int, act.id as int, h2.id as int));
            }
        }
        out
    }
}

impl Module for WhisperDecoderBlock {
    open spec fn mode_is(&self, training: bool) -> bool {
        true
    }

    open spec fn param_list(&self) -> Seq<Tensor> {
        crate::nn::module::tensors_of(self.tensor_shapes())
    }

    open spec fn tensor_shapes(&self) -> Seq<(Tensor, Seq<usize>)> {
        self.shapes()
    }

    open spec fn buffer_shapes(&self) -> Seq<(usize, Seq<usize>)> {
        Seq::empty()
    }

    /// The block attending to its own input as memory.
    fn forward(&self, g: &mut Graph, input: &Tensor) -> (r: Result<Tensor, EngineError>)
        ensures
            r is Ok <==> self.accepts(input.shape_of(*old(g)), input.shape_of(*old(g))),
            r matches Ok(t) ==> t.shape_of(*final(g)) == self.out_shape(input.shape_of(*old(g))),
    {
        proof {
            self.lemma_wf_in_shapes(*g);
        }
        self.forward_block(g, input, input)
    }

    #[verifier::spinoff_prover]
    #[verifier::rlimit(100)]
    fn parameters(&self) -> (r: Vec<Tensor>)
        ensures
            r@ == tensors_of(self.shapes()),
    {
        let ghost a = self.self_attn_ln.shapes();
        let ghost b = self.self_attn.shapes();
        let ghost c = self.cross_attn_ln.shapes();
        let ghost d = self.cross_attn.shapes();
        let ghost e = self.mlp_ln.shapes();
        let ghost f = self.mlp_fc1.shapes();
        let ghost h = self.mlp_fc2.shapes();
        let mut params: Vec<Tensor> = Vec::new();
        params.push(self.self_attn_ln.weight);
        params.push(self.self_attn_ln.bias);
        assert(params@ =~= tensors_of(a));
        let mut sa = self.self_attn.parameters();
        params.append(&mut sa);
        proof {
            assert(self.self_attn.param_seq() =~= tensors_of(b));
            crate::nn::module::lemma_tensors_of_concat(a, b);
        }
        params.push(self.cross_attn_ln.weight);
        params.push(self.cross_attn_ln.bias);
        proof {
            assert(tensors_of(c) =~= seq![self.cross_attn_ln.weight, self.cross_attn_ln.bias]);
            crate::nn::module::lemma_tensors_of_concat(a + b, c);
            assert(params@ =~= tensors_of(a + b + c));
        }
        let mut ca = self.cross_attn.parameters();
        params.append(&mut ca);
        proof {
            assert(self.cross_attn.param_seq() =~= tensors_of(d));
            crate::nn::module::lemma_tensors_of_concat(a + b + c, d);
        }
        params.push(self.mlp_ln.weight);
        params.push(self.mlp_ln.bias);
        proof {
            assert(tensors_of(e) =~= seq![self.mlp_ln.weight, self.mlp_ln.bias]);
            crate::nn::module::lemma_tensors_of_concat(a + b + c + d, e);
            assert(params@ =~= tensors_of(a + b + c + d + e));
        }
        let mut f1 = self.mlp_fc1.parameters();
        params.append(&mut f1);
        proof {
            assert(self.mlp_fc1.param_seq() =~= tensors_of(f));
            crate::nn::module::lemma_tensors_of_concat(a + b + c + d + e, f);
        }
        let mut f2 = self.mlp_fc2.parameters();
        params.append(&mut f2);
        proof {
            assert(self.mlp_fc2.param_seq() =~= tensors_of(h));
            crate::nn::module::lemma_tensors_of_concat(a + b + c + d + e + f, h);
            assert forall|g: Graph| #[trigger] shapes_hold(g, self.tensor_shapes()) implies forall|k: int| 0 <= k < params@.len() ==> (#[trigger] params@[k]).valid(g) by {
                lemma_tensors_valid(g, self.shapes());
            }
        }
        params
    }

    /// Nothing switches between training and evaluation.
    fn train(&mut self) {
    }

    /// Nothing switches between training and evaluation.
    fn eval(&mut self) {
    }
}

/// Bit pattern of the `f32` `0.02`, the standard deviation of the position embeddings.
pub const POS_STD_BITS: u32 = 0x3ca3_d70a;

/// Shape after applying encoder `blocks` in order to input of shape `x`, if each accepts.
pub open spec fn enc_blocks_out(blocks: Seq<WhisperEncoderBlock>, x: Seq<usize>) -> Option<Seq<usize>>
    decreases blocks.len(),
{
    if blocks.len() == 0 {
        Some(x)
    } else {
        match enc_blocks_out(blocks.drop_last(), x) {
            Some(y) => if blocks.last().accepts(y) {
                Some(blocks.last().out_shape(y))
            } else {
                None
            },
            None => None,
        }
    }
}

/// Once a prefix of the encoder blocks refuses, the whole stack does.
proof fn lemma_enc_none_extends(blocks: Seq<WhisperEncoderBlock>, k: int, x: Seq<usize>)
    requires
        0 <= k <= blocks.len(),
        enc_blocks_out(blocks.take(k), x) is None,
    ensures
        enc_blocks_out(blocks, x) is None,
    decreases blocks.len() - k,
{
    if k < blocks.len() {
        assert(blocks.take(k + 1).drop_last() =~= blocks.take(k));
        lemma_enc_none_extends(blocks, k + 1, x);
    } else {
        assert(blocks.take(k) =~= blocks);
    }
}

/// Shape after applying decoder `blocks` in order to input of shape `x` with memory of shape
/// `m`, if each accepts.
pub open spec fn dec_blocks_out(blocks: Seq<WhisperDecoderBlock>, x: Seq<usize>, m: Seq<usize>) -> Option<Seq<usize>>
    decreases blocks.len(),
{
    if blocks.len() == 0 {
        Some(x)
    } else {
        match dec_blocks_out(blocks.drop_last(), x, m) {
            Some(y) => if blocks.last().accepts(y, m) {
                Some(blocks.last().out_shape(y))
            } else {
                None
            },
            None => None,
        }
    }
}

/// Once a prefix of the decoder blocks refuses, the whole stack does.
proof fn lemma_dec_none_extends(blocks: Seq<WhisperDecoderBlock>, k: int, x: Seq<usize>, m: Seq<usize>)
    requires
        0 <= k <= blocks.len(),
        dec_blocks_out(blocks.take(k), x, m) is None,
    ensures
        dec_blocks_out(blocks, x, m) is None,
    decreases blocks.len() - k,
{
    if k < blocks.len() {
        assert(blocks.take(k + 1).drop_last() =~= blocks.take(k));
        lemma_dec_none_extends(blocks, k + 1, x, m);
    } else {
        assert(blocks.take(k) =~= blocks);
    }
}

/// An encoder block keeps the shape of what it accepts: the attention and feed-forward
/// residuals of a block of consistent width map `x` to a tensor of shape `x`.
pub proof fn lemma_encoder_block_preserves_shape(b: WhisperEncoderBlock, d: usize, x: Seq<usize>)
    requires
        b.consistent(d),
        b.accepts(x),
    ensures
        b.out_shape(x) == x,
{
    assert(b.self_attn.out_shape(x) =~= x);
    lemma_broadcast_self(x);
    assert(b.after_attention(x) == x);
    assert(b.mlp_out(x) =~= x);
}

/// A decoder block keeps the shape of what it accepts, whatever the memory's length: the
/// self-attention, cross-attention and feed-forward residuals of a block of consistent width map
/// `x` to a tensor of shape `x`.
pub proof fn lemma_decoder_block_preserves_shape(b: WhisperDecoderBlock, d: usize, x: Seq<usize>, m: Seq<usize>)
    requires
        b.consistent(d),
        b.accepts(x, m),
    ensures
        b.out_shape(x) == x,
{
    assert(b.self_attn.out_shape(x) =~= x);
    lemma_broadcast_self(x);
    assert(b.after_self(x) == x);
    assert(b.cross_attn.out_shape(x) =~= x);
    assert(b.after_cross(x) == x);
    assert(b.mlp_out(x) =~= x);
}

/// A stack of consistent encoder blocks keeps the shape of what it accepts.
pub proof fn lemma_enc_blocks_preserve_shape(blocks: Seq<WhisperEncoderBlock>, d: usize, x: Seq<usize>)
    requires
        forall|k: int| 0 <= k < blocks.len() ==> (#[trigger] blocks[k]).consistent(d),
        enc_blocks_out(blocks, x) is Some,
    ensures
        enc_blocks_out(blocks, x) == Some(x),
    decreases blocks.len(),
{
    if blocks.len() > 0 {
        let init = blocks.drop_last();
        assert forall|k: int| 0 <= k < init.len() implies (#[trigger] init[k]).consistent(d) by {
            assert(init[k] == blocks[k]);
        }
        lemma_enc_blocks_preserve_shape(init, d, x);
        lemma_encoder_block_preserves_shape(blocks.last(), d, x);
    }
}

/// A stack of consistent decoder blocks keeps the shape of what it accepts.
pub proof fn lemma_dec_blocks_preserve_shape(blocks: Seq<WhisperDecoderBlock>, d: usize, x: Seq<usize>, m: Seq<usize>)
    requires
        forall|k: int| 0 <= k < blocks.len() ==> (#[trigger] blocks[k]).consistent(d),
        dec_blocks_out(blocks, x, m) is Some,
    ensures
        dec_blocks_out(blocks, x, m) == Some(x),
    decreases blocks.len(),
{
    if blocks.len() > 0 {
        let init = blocks.drop_last();
        assert forall|k: int| 0 <= k < init.len() implies (#[trigger] init[k]).consistent(d) by {
            assert(init[k] == blocks[k]);
        }
        lemma_dec_blocks_preserve_shape(init, d, x, m);
        lemma_decoder_block_preserves_shape(blocks.last(), d, x, m);
    }
}

/// Applies encoder blocks in order.
fn forward_enc_blocks(g: &mut Graph, blocks: &Vec<WhisperEncoderBlock>, x: &Tensor) -> (r: Result<Tensor, EngineError>)
    requires
        old(g).wf(),
        forall|k: int| 0 <= k < blocks@.len() ==> (#[trigger] blocks@[k]).wf_in(*old(g)),
        x.valid(*old(g)),
    ensures
        final(g).wf(),
        old(g).extended_by(*final(g)),
        r is Ok <==> enc_blocks_out(blocks@, x.shape_of(*old(g))) is Some,
        r matches Ok(t) ==> t.valid(*final(g)) && enc_blocks_out(blocks@, x.shape_of(*old(g))) == Some(t.shape_of(*final(g))),
{
    let ghost g0 = *g;
    let ghost xs = x.shape_of(*g);
    let mut cur = *x;
    let mut k: usize = 0;
    proof {
        assert(blocks@.take(0) =~= Seq::<WhisperEncoderBlock>::empty());
        assert(blocks@.take(blocks@.len() as int) =~= blocks@);
    }
    while k < blocks.len()
        invariant
            g0 == *old(g),
            xs == x.shape_of(g0),
            g.wf(),
            g0.extended_by(*g),
            forall|j: int| 0 <= j < blocks@.len() ==> (#[trigger] blocks@[j]).wf_in(g0),
            cur.valid(*g),
            k <= blocks@.len(),
            blocks@.take(blocks@.len() as int) == blocks@,
            enc_blocks_out(blocks@.take(k as int), xs) == Some(cur.shape_of(*g)),
        decreases blocks.len() - k,
    {
        let ghost gk = *g;
        proof {
            blocks@[k as int].lemma_wf_in_shapes(g0);
            lemma_shapes_hold_extend(g0, gk, blocks@[k as int].shapes());
            blocks@[k as int].lemma_wf_in_shapes(gk);
            assert(blocks@.take(k + 1).drop_last() =~= blocks@.take(k as int));
        }
        match blocks[k].forward_block(g, &cur) {
            Ok(t) => {
                cur = t;
            },
            Err(e) => {
                proof {
                    g0.lemma_extended_trans(gk, *g);
                    lemma_enc_none_extends(blocks@, (k + 1) as int, xs);
                }
                return Err(e);
            },
        }
        proof {
            g0.lemma_extended_trans(gk, *g);
        }
        k = k + 1;
    }
    assert(blocks@.take(k as int) == blocks@);
    Ok(cur)
}

/// Applies decoder blocks in order, each attending to `memory`.
fn forward_dec_blocks(g: &mut Graph, blocks: &Vec<WhisperDecoderBlock>, x: &Tensor, memory: &Tensor) -> (r: Result<Tensor, EngineError>)
    requires
        old(g).wf(),
        forall|k: int| 0 <= k < blocks@.len() ==> (#[trigger] blocks@[k]).wf_in(*old(g)),
        x.valid(*old(g)),
        memory.valid(*old(g)),
    ensures
        final(g).wf(),
        old(g).extended_by(*final(g)),
        r is Ok <==> dec_blocks_out(blocks@, x.shape_of(*old(g)), memory.shape_of(*old(g))) is Some,
        r matches Ok(t) ==> t.valid(*final(g)) && dec_blocks_out(blocks@, x.shape_of(*old(g)), memory.shape_of(*old(g))) == Some(t.shape_of(*final(g))),
{
    let ghost g0 = *g;
    let ghost xs = x.shape_of(*g);
    let ghost ms = memory.shape_of(*g);
    let mut cur = *x;
    let mut k: usize = 0;
    proof {
        assert(blocks@.take(0) =~= Seq::<WhisperDecoderBlock>::empty());
        assert(blocks@.take(blocks@.len() as int) =~= blocks@);
    }
    while k < blocks.len()
        invariant
            g0 == *old(g),
            xs == x.shape_of(g0),
            ms == memory.shape_of(g0),
            g.wf(),
            g0.extended_by(*g),
            forall|j: int| 0 <= j < blocks@.len() ==> (#[trigger] blocks@[j]).wf_in(g0),
            memory.valid(g0),
            cur.valid(*g),
            k <= blocks@.len(),
            blocks@.take(blocks@.len() as int) == blocks@,
            dec_blocks_out(blocks@.take(k as int), xs, ms) == Some(cur.shape_of(*g)),
        decreases blocks.len() - k,
    {
        let ghost gk = *g;
        proof {
            blocks@[k as int].lemma_wf_in_shapes(g0);
            lemma_shapes_hold_extend(g0, gk, blocks@[k as int].shapes());
            blocks@[k as int].lemma_wf_in_shapes(gk);
            assert(blocks@.take(k + 1).drop_last() =~= blocks@.take(k as int));
            assert(gk.nodes@[memory.id as int] == g0.nodes@[memory.id as int]);
        }
        match blocks[k].forward_block(g, &cur, memory) {
            Ok(t) => {
                cur = t;
            },
            Err(e) => {
                proof {
                    g0.lemma_extended_trans(gk, *g);
                    lemma_dec_none_extends(blocks@, (k + 1) as int, xs, ms);
                }
                return Err(e);
            },
        }
        proof {
            g0.lemma_extended_trans(gk, *g);
        }
        k = k + 1;
    }
    assert(blocks@.take(k as int) == blocks@);
    Ok(cur)
}

/// The audio encoder: a convolution over the whole Mel axis (stride 2 in time), GELU, learned
/// position embeddings, encoder blocks and a final normalization.
pub struct WhisperEncoder {
    pub conv1: Conv2d,
    pub pos_embed: Tensor,
    pub blocks: Vec<WhisperEncoderBlock>,
    pub ln_post: LayerNorm,
    pub config: WhisperConfig,
}

impl WhisperEncoder {
    /// The tensors that `parameters` gives, in order.
    pub open spec fn param_seq(&self) -> Seq<Tensor> {
        self.conv1.param_list() + seq![self.pos_embed] + crate::nn::module::seq_params(self.blocks@) + seq![self.ln_post.weight, self.ln_post.bias]
    }
}

impl WhisperEncoder {
    /// Every part lives in `g`.
    pub open spec fn wf_in(&self, g: Graph) -> bool {
        &&& self.conv1.wf_in(g)
        &&& self.pos_embed.valid(g)
        &&& forall|k: int| 0 <= k < self.blocks@.len() ==> (#[trigger] self.blocks@[k]).wf_in(g)
        &&& self.ln_post.wf_in(g)
    }

    /// Whatever lives in a graph still lives in any extension of it.
    pub proof fn lemma_wf_in_extend(&self, g0: Graph, g1: Graph)
        requires
            self.wf_in(g0),
            g0.extended_by(g1),
        ensures
            self.wf_in(g1),
    {
        self.conv1.lemma_wf_in_shapes(g0);
        lemma_shapes_hold_extend(g0, g1, self.conv1.shapes());
        self.conv1.lemma_wf_in_shapes(g1);
        self.ln_post.lemma_wf_in_shapes(g0);
        lemma_shapes_hold_extend(g0, g1, self.ln_post.shapes());
        self.ln_post.lemma_wf_in_shapes(g1);
        assert forall|k: int| 0 <= k < self.blocks@.len() implies (#[trigger] self.blocks@[k]).wf_in(g1) by {
            self.blocks@[k].lemma_wf_in_shapes(g0);
            lemma_shapes_hold_extend(g0, g1, self.blocks@[k].shapes());
            self.blocks@[k].lemma_wf_in_shapes(g1);
        }
    }

    /// Shape of the convolution's output for a spectrogram of shape `x`.
    pub open spec fn frames(&self, x: Seq<usize>) -> Seq<usize> {
        conv_spec(seq![x[0], 1usize, x[1], x[2]], conv_weight(self.conv1), self.conv1.params)
    }

    /// Shape of the frames plus the position embeddings of shape `pos`.
    pub open spec fn embedded(&self, x: Seq<usize>, pos: Seq<usize>) -> Seq<usize> {
        let te = self.frames(x)[3];
        broadcast_spec(seq![x[0], te, self.config.d_model], slice_spec(pos, 1, 0, te as int))
    }

    /// Shape of the encoder's output.
    pub open spec fn out_shape(&self, x: Seq<usize>, pos: Seq<usize>) -> Seq<usize> {
        enc_blocks_out(self.blocks@, self.embedded(x, pos))->Some_0
    }

    /// The spectrogram has rank 3 and the configured number of Mel bins.
    pub open spec fn mel_ok(&self, x: Seq<usize>) -> bool {
        x.len() == 3 && x[1] == self.config.n_mels
    }

    /// The encoder accepts a spectrogram of shape `x` with position embeddings of shape `pos`.
    pub open spec fn accepts(&self, x: Seq<usize>, pos: Seq<usize>) -> bool {
        let x4 = seq![x[0], 1usize, x[1], x[2]];
        let c = self.frames(x);
        let te = c[3];
        &&& self.mel_ok(x)
        &&& reshape_ok(x, x4)
        &&& self.conv1.in_channels == 1
        &&& conv_window_ok(x4, conv_weight(self.conv1), self.conv1.params)
        &&& reshape_ok(c, seq![x[0], self.config.d_model, te])
        &&& 1 < pos.len()
        &&& te <= pos[1]
        &&& broadcastable(seq![x[0], te, self.config.d_model], slice_spec(pos, 1, 0, te as int))
        &&& enc_blocks_out(self.blocks@, self.embedded(x, pos)) is Some
        &&& self.ln_post.accepts(self.out_shape(x, pos))
    }

    /// An encoder for `config`: a convolution from 1 to `d_model` channels with kernel
    /// `(n_mels, 3)`, stride `(1, 2)` and padding `(0, 1)`; normal position embeddings
    /// `[1, max_source_positions, d_model]` (standard deviation 0.02); the encoder blocks.
    pub fn new(g: &mut Graph, config: &WhisperConfig) -> (r: WhisperEncoder)
        requires
            old(g).wf(),
            config.n_mels * 3 <= usize::MAX,
            config.encoder_heads > 0,
            config.d_model % config.encoder_heads == 0,
        ensures
            final(g).wf(),
            old(g).extended_by(*final(g)),
            r.wf_in(*final(g)),
            r.config == *config,
            r.blocks@.len() == config.encoder_layers,
            forall|j: int| 0 <= j < r.blocks@.len() ==> (#[trigger] r.blocks@[j]).consistent(config.d_model),
            r.pos_embed.shape_of(*final(g)) == seq![1usize, config.max_source_positions, config.d_model],
            final(g).nodes@[r.pos_embed.id as int].op == Op::Leaf(LeafInit::Normal { mean_bits: 0, std_bits: POS_STD_BITS }),
    {
        let ghost g0 = *g;
        assert(1 * config.n_mels * 3 == config.n_mels * 3) by (nonlinear_arith);
        let conv1 = Conv2d::with_options(g, 1, config.d_model, (config.n_mels, 3), (1, 2), (0, 1), (1, 1), true);
        let ghost g1 = *g;
        let ps = shape3(1, config.max_source_positions, config.d_model);
        let pos_embed = Tensor::randn(g, ps.as_slice(), 0, POS_STD_BITS, true);
        let ghost g2 = *g;
        let mut blocks: Vec<WhisperEncoderBlock> = Vec::new();
        let mut k: usize = 0;
        while k < config.encoder_layers
            invariant
                g.wf(),
                g2.extended_by(*g),
                config.encoder_heads > 0,
                config.d_model % config.encoder_heads == 0,
                k <= config.encoder_layers,
                blocks@.len() == k,
                forall|j: int| 0 <= j < k ==> (#[trigger] blocks@[j]).wf_in(*g),
                forall|j: int| 0 <= j < k ==> (#[trigger] blocks@[j]).consistent(config.d_model),
            decreases config.encoder_layers - k,
        {
            let ghost gk = *g;
            let b = WhisperEncoderBlock::new(g, config.d_model, config.encoder_heads, config.d_ff);
            proof {
                g2.lemma_extended_trans(gk, *g);
                assert forall|j: int| 0 <= j < k implies (#[trigger] blocks@[j]).wf_in(*g) by {
                    blocks@[j].lemma_wf_in_shapes(gk);
                    lemma_shapes_hold_extend(gk, *g, blocks@[j].shapes());
                    blocks@[j].lemma_wf_in_shapes(*g);
                }
            }
            blocks.push(b);
            k = k + 1;
        }
        let ghost g3 = *g;
        let ln_post = LayerNorm::new(g, config.d_model);
        let r = WhisperEncoder { conv1, pos_embed, blocks, ln_post, config: *config };
        proof {
            g0.lemma_extended_trans(g1, g2);
            g0.lemma_extended_trans(g2, g3);
            g0.lemma_extended_trans(g3, *g);
            g1.lemma_extended_trans(g2, *g);
            g2.lemma_extended_trans(g3, *g);
            conv1.lemma_wf_in_shapes(g1);
            lemma_shapes_hold_extend(g1, *g, conv1.shapes());
            conv1.lemma_wf_in_shapes(*g);
            assert(g.nodes@[pos_embed.id as int] == g2.nodes@[pos_embed.id as int]);
            assert forall|j: int| 0 <= j < r.blocks@.len() implies (#[trigger] r.blocks@[j]).wf_in(*g) by {
                r.blocks@[j].lemma_wf_in_shapes(g3);
                lemma_shapes_hold_extend(g3, *g, r.blocks@[j].shapes());
                r.blocks@[j].lemma_wf_in_shapes(*g);
            }
        }
        r
    }

    /// Encodes a batch of spectrograms `[batch, n_mels, time]` into `[batch, frames, d_model]`.
    /// A rank other than 3 is refused with `IncompatibleShapes` and another number of Mel bins
    /// with `ShapeMismatch` (recording nothing); otherwise succeeds exactly when every stage
    /// accepts what reaches it.
    pub fn forward_encoder(&self, g: &mut Graph, mel: &Tensor) -> (r: Result<Tensor, EngineError>)
        requires
            old(g).wf(),
            self.wf_in(*old(g)),
            mel.valid(*old(g)),
        ensures
            final(g).wf(),
            old(g).extended_by(*final(g)),
            r is Ok <==> self.accepts(mel.shape_of(*old(g)), self.pos_embed.shape_of(*old(g))),
            r matches Ok(t) ==> t.valid(*final(g)) && t.shape_of(*final(g)) == self.out_shape(mel.shape_of(*old(g)), self.pos_embed.shape_of(*old(g))),
            mel.shape_of(*old(g)).len() != 3 ==> (r matches Err(e) && e is IncompatibleShapes && *final(g) == *old(g)),
            (mel.shape_of(*old(g)).len() == 3 && !self.mel_ok(mel.shape_of(*old(g)))) ==> (r matches Err(e) && *final(g) == *old(g)
                && (e matches EngineError::ShapeMismatch { expected, actual }
                    && expected@ == seq![mel.shape_of(*old(g))[0], self.config.n_mels, mel.shape_of(*old(g))[2]]
                    && actual@ == mel.shape_of(*old(g)))),
    {
        let ghost g0 = *g;
        let ghost pos = self.pos_embed.shape_of(*g);
        let shape = mel.shape(g);
        let ghost xs = shape@;
        if shape.len() != 3 {
            let mut shapes: Vec<Vec<usize>> = Vec::new();
            shapes.push(shape);
            return Err(EngineError::IncompatibleShapes { op: "WhisperEncoder (expected 3D mel input [B, n_mels, T])", shapes });
        }
        let (b, n_mels, t) = (shape[0], shape[1], shape[2]);
        if n_mels != self.config.n_mels {
            let expected = shape3(b, self.config.n_mels, t);
            return Err(EngineError::ShapeMismatch { expected, actual: shape });
        }
        let x4 = match mel.reshape(g, shape4(b, 1, n_mels, t).as_slice()) {
            Ok(v) => v,
            Err(e) => {
                return Err(e);
            },
        };
        let ghost g1 = *g;
        proof {
            self.conv1.lemma_wf_in_shapes(g0);
            lemma_shapes_hold_extend(g0, g1, self.conv1.shapes());
            self.conv1.lemma_wf_in_shapes(g1);
        }
        let conv = match self.conv1.forward(g, &x4) {
            Ok(v) => v,
            Err(e) => {
                proof {
                    g0.lemma_extended_trans(g1, *g);
                }
                return Err(e);
            },
        };
        let ghost g2 = *g;
        let act = match conv.gelu(g) {
            Ok(v) => v,
            Err(e) => {
                proof {
                    g0.lemma_extended_trans(g1, g2);
                    g0.lemma_extended_trans(g2, *g);
                }
                return Err(e);
            },
        };
        let ghost g3 = *g;
        proof {
            g0.lemma_extended_trans(g1, g2);
            g0.lemma_extended_trans(g2, g3);
            assert(act.shape_of(g3) == self.frames(xs));
        }
        let ashape = act.shape(g);
        let t_enc = ashape[3];
        let flat = match act.reshape(g, shape3(b, self.config.d_model, t_enc).as_slice()) {
            Ok(v) => v,
            Err(e) => {
                return Err(e);
            },
        };
        let ghost g4 = *g;
        let frames = match flat.transpose(g, 1, 2) {
            Ok(v) => v,
            Err(e) => {
                proof {
                    g0.lemma_extended_trans(g3, g4);
                }
                return Err(e);
            },
        };
        let ghost g5 = *g;
        proof {
            g0.lemma_extended_trans(g3, g4);
            g0.lemma_extended_trans(g4, g5);
            assert(transpose_spec(seq![b, self.config.d_model, t_enc], 1, 2) =~= seq![b, t_enc, self.config.d_model]);
            assert(g5.nodes@[self.pos_embed.id as int] == g0.nodes@[self.pos_embed.id as int]);
        }
        let pos_s = match self.pos_embed.slice(g, 1, 0, t_enc) {
            Ok(v) => v,
            Err(e) => {
                return Err(e);
            },
        };
        let ghost g6 = *g;
        proof {
            g0.lemma_extended_trans(g5, g6);
        }
        assert(g6.nodes@[frames.id as int] == g5.nodes@[frames.id as int]);
        let x = match frames.add(g, &pos_s) {
            Ok(v) => v,
            Err(e) => {
                return Err(e);
            },
        };
        let ghost g7 = *g;
        proof {
            g0.lemma_extended_trans(g6, g7);
            assert forall|k: int| 0 <= k < self.blocks@.len() implies (#[trigger] self.blocks@[k]).wf_in(g7) by {
                self.blocks@[k].lemma_wf_in_shapes(g0);
                lemma_shapes_hold_extend(g0, g7, self.blocks@[k].shapes());
                self.blocks@[k].lemma_wf_in_shapes(g7);
            }
            assert(x.shape_of(g7) == self.embedded(xs, pos));
        }
        let y = match forward_enc_blocks(g, &self.blocks, &x) {
            Ok(v) => v,
            Err(e) => {
                proof {
                    g0.lemma_extended_trans(g7, *g);
                }
                return Err(e);
            },
        };
        let ghost g8 = *g;
        proof {
            g0.lemma_extended_trans(g7, g8);
            self.ln_post.lemma_wf_in_shapes(g0);
            lemma_shapes_hold_extend(g0, g8, self.ln_post.shapes());
            self.ln_post.lemma_wf_in_shapes(g8);
        }
        let out = self.ln_post.forward_norm(g, &y);
        proof {
            g0.lemma_extended_trans(g8, *g);
        }
        out
    }

    /// The learnable tensors: the convolution's, the position embeddings, each block's and the
    /// final normalization's.
    pub fn parameters(&self) -> (r: Vec<Tensor>)
        ensures
            r@ == self.param_seq(),
            forall|g: Graph| #[trigger] self.wf_in(g) ==> forall|k: int| 0 <= k < r@.len() ==> (#[trigger] r@[k]).valid(g),
    {
        let mut params = self.conv1.parameters();
        params.push(self.pos_embed);
        proof {
            assert forall|g: Graph| #[trigger] self.wf_in(g) implies forall|k: int| 0 <= k < params@.len() ==> (#[trigger] params@[k]).valid(g) by {
                self.conv1.lemma_wf_in_shapes(g);
                if self.conv1.bias is Some {
                    assert(self.conv1.shapes()[1].0 == self.conv1.bias->Some_0);
                }
                assert(self.conv1.shapes()[0].0 == self.conv1.weight);
            }
        }
        let ghost base_blocks = params@;
        proof {
            assert(crate::nn::module::seq_params(self.blocks@.take(0)) =~= Seq::<Tensor>::empty());
        }
        let mut i: usize = 0;
        while i < self.blocks.len()
            invariant
                i <= self.blocks@.len(),
                params@ == base_blocks + crate::nn::module::seq_params(self.blocks@.take(i as int)),
                forall|g: Graph| #[trigger] self.wf_in(g) ==> forall|k: int| 0 <= k < params@.len() ==> (#[trigger] params@[k]).valid(g),
            decreases self.blocks.len() - i,
        {
            let mut p = self.blocks[i].parameters();
            proof {
                crate::nn::module::lemma_seq_params_step(self.blocks@, i as int);
            }
            let ghost before = params@;
            let ghost b = self.blocks@[i as int];
            params.append(&mut p);
            proof {
                assert forall|g: Graph| #[trigger] self.wf_in(g) implies forall|k: int| 0 <= k < params@.len() ==> (#[trigger] params@[k]).valid(g) by {
                    assert(b.wf_in(g));
                    b.lemma_wf_in_shapes(g);
                    lemma_tensors_valid(g, b.shapes());
                    assert forall|k: int| 0 <= k < params@.len() implies (#[trigger] params@[k]).valid(g) by {
                        if k >= before.len() {
                            assert(params@[k] == tensors_of(b.shapes())[k - before.len()]);
                        } else {
                            assert(params@[k] == before[k]);
                        }
                    }
                }
            }
            i = i + 1;
        }
        proof {
            assert(self.blocks@.take(self.blocks@.len() as int) =~= self.blocks@);
        }
        params.push(self.ln_post.weight);
        params.push(self.ln_post.bias);
        proof {
            assert(params@ =~= self.param_seq());
        }
        params
    }
}

impl WhisperEncoder {
    /// The encoder's tensors with their expected shapes: the convolution's, the position
    /// embeddings `[1, max_source_positions, d_model]`, each block's and the final
    /// normalization's.
    pub open spec fn shapes(&self) -> Seq<(Tensor, Seq<usize>)> {
        self.conv1.shapes() + seq![(self.pos_embed, seq![1usize, self.config.max_source_positions, self.config.d_model])]
            + seq_shapes(self.blocks@) + self.ln_post.shapes()
    }

    /// A graph that holds the encoder's tensors with their expected shapes holds the encoder.
    pub proof fn lemma_shapes_wf_in(&self, g: Graph)
        requires
            shapes_hold(g, self.shapes()),
        ensures
            self.wf_in(g),
    {
        let a = self.conv1.shapes();
        let b = seq![(self.pos_embed, seq![1usize, self.config.max_source_positions, self.config.d_model])];
        let c = seq_shapes(self.blocks@);
        let d = self.ln_post.shapes();
        lemma_shapes_hold_concat(g, a + b + c, d);
        lemma_shapes_hold_concat(g, a + b, c);
        lemma_shapes_hold_concat(g, a, b);
        self.conv1.lemma_wf_in_shapes(g);
        self.ln_post.lemma_wf_in_shapes(g);
        assert(b[0].0 == self.pos_embed);
        lemma_seq_shapes_hold(g, self.blocks@);
        assert forall|k: int| 0 <= k < self.blocks@.len() implies (#[trigger] self.blocks@[k]).wf_in(g) by {
            assert(shapes_hold(g, self.blocks@[k].tensor_shapes()));
            self.blocks@[k].lemma_wf_in_shapes(g);
        }
    }
}

impl Module for WhisperEncoder {
    open spec fn mode_is(&self, training: bool) -> bool {
        true
    }

    open spec fn param_list(&self) -> Seq<Tensor> {
        self.param_seq()
    }

    open spec fn tensor_shapes(&self) -> Seq<(Tensor, Seq<usize>)> {
        self.shapes()
    }

    open spec fn buffer_shapes(&self) -> Seq<(usize, Seq<usize>)> {
        Seq::empty()
    }

    /// Encodes the spectrogram `input` (see [`WhisperEncoder::forward_encoder`]).
    fn forward(&self, g: &mut Graph, input: &Tensor) -> (r: Result<Tensor, EngineError>)
        ensures
            r is Ok <==> self.accepts(input.shape_of(*old(g)), self.pos_embed.shape_of(*old(g))),
            r matches Ok(t) ==> t.shape_of(*final(g)) == self.out_shape(input.shape_of(*old(g)), self.pos_embed.shape_of(*old(g))),
    {
        proof {
            self.lemma_shapes_wf_in(*g);
        }
        self.forward_encoder(g, input)
    }

    fn parameters(&self) -> (r: Vec<Tensor>) {
        let r = WhisperEncoder::parameters(self);
        proof {
            assert forall|g: Graph| #[trigger] shapes_hold(g, self.tensor_shapes()) implies forall|k: int| 0 <= k < r@.len() ==> (#[trigger] r@[k]).valid(g) by {
                self.lemma_shapes_wf_in(g);
            }
        }
        r
    }

    /// Nothing switches between training and evaluation.
    fn train(&mut self) {
    }

    /// Nothing switches between training and evaluation.
    fn eval(&mut self) {
    }
}

/// The text decoder: token embeddings plus learned position embeddings, decoder blocks that
/// attend to the encoder's output, a final normalization and a projection onto the vocabulary
/// without bias.
pub struct WhisperDecoder {
    pub token_embedding: Embedding,
    pub pos_embed: Tensor,
    pub blocks: Vec<WhisperDecoderBlock>,
    pub ln_post: LayerNorm,
    pub lm_head: Linear,
    pub config: WhisperConfig,
}

impl WhisperDecoder {
    /// The tensors that `parameters` gives, in order.
    pub open spec fn param_seq(&self) -> Seq<Tensor> {
        seq![self.token_embedding.weight, self.pos_embed] + crate::nn::module::seq_params(self.blocks@)
            + seq![self.ln_post.weight, self.ln_post.bias, self.lm_head.weight]
    }
}

impl WhisperDecoder {
    /// Every part lives in `g`.
    pub open spec fn wf_in(&self, g: Graph) -> bool {
        &&& self.token_embedding.wf_in(g)
        &&& self.pos_embed.valid(g)
        &&& forall|k: int| 0 <= k < self.blocks@.len() ==> (#[trigger] self.blocks@[k]).wf_in(g)
        &&& self.ln_post.wf_in(g)
        &&& self.lm_head.wf_in(g)
    }

    /// Whatever lives in a graph still lives in any extension of it.
    pub proof fn lemma_wf_in_extend(&self, g0: Graph, g1: Graph)
        requires
            self.wf_in(g0),
            g0.extended_by(g1),
        ensures
            self.wf_in(g1),
    {
        assert(g1.nodes@[self.token_embedding.weight.id as int] == g0.nodes@[self.token_embedding.weight.id as int]);
        self.ln_post.lemma_wf_in_shapes(g0);
        lemma_shapes_hold_extend(g0, g1, self.ln_post.shapes());
        self.ln_post.lemma_wf_in_shapes(g1);
        self.lm_head.lemma_wf_in_shapes(g0);
        lemma_shapes_hold_extend(g0, g1, self.lm_head.shapes());
        self.lm_head.lemma_wf_in_shapes(g1);
        assert forall|k: int| 0 <= k < self.blocks@.len() implies (#[trigger] self.blocks@[k]).wf_in(g1) by {
            self.blocks@[k].lemma_wf_in_shapes(g0);
            lemma_shapes_hold_extend(g0, g1, self.blocks@[k].shapes());
            self.blocks@[k].lemma_wf_in_shapes(g1);
        }
    }

    /// Shape of the token embeddings of `batch` sequences of `t` tokens plus the position
    /// embeddings (of shape `pos`) of the first `t` positions.
    pub open spec fn embedded(&self, batch: usize, t: usize, pos: Seq<usize>) -> Seq<usize> {
        broadcast_spec(seq![batch, t, self.token_embedding.embedding_dim], slice_spec(pos, 1, 0, t as int))
    }

    /// Shape after the decoder blocks, attending to memory of shape `m`.
    pub open spec fn hidden(&self, batch: usize, t: usize, pos: Seq<usize>, m: Seq<usize>) -> Seq<usize> {
        dec_blocks_out(self.blocks@, self.embedded(batch, t, pos), m)->Some_0
    }

    /// Shape of the logits.
    pub open spec fn out_shape(&self, batch: usize, t: usize, pos: Seq<usize>, m: Seq<usize>) -> Seq<usize> {
        linear_out(self.hidden(batch, t, pos, m), self.lm_head.out_features)
    }

    /// The decoder accepts token ids `ids` as `batch` sequences of `t`, with position
    /// embeddings of shape `pos` and memory of shape `m`.
    pub open spec fn accepts(&self, ids: Seq<usize>, batch: usize, t: usize, pos: Seq<usize>, m: Seq<usize>) -> bool {
        &&& lookup_ok(self.token_embedding, ids, batch, t)
        &&& 1 < pos.len()
        &&& t <= pos[1]
        &&& broadcastable(seq![batch, t, self.token_embedding.embedding_dim], slice_spec(pos, 1, 0, t as int))
        &&& dec_blocks_out(self.blocks@, self.embedded(batch, t, pos), m) is Some
        &&& self.ln_post.accepts(self.hidden(batch, t, pos, m))
        &&& self.lm_head.accepts(self.hidden(batch, t, pos, m))
    }

    /// A decoder for `config`: a token table `[vocab_size, d_model]`, normal position embeddings
    /// `[1, max_target_positions, d_model]` (standard deviation 0.02), the decoder blocks, a
    /// final normalization and a projection from `d_model` to `vocab_size` without bias.
    pub fn new(g: &mut Graph, config: &WhisperConfig) -> (r: WhisperDecoder)
        requires
            old(g).wf(),
            config.decoder_heads > 0,
            config.d_model % config.decoder_heads == 0,
        ensures
            final(g).wf(),
            old(g).extended_by(*final(g)),
            r.wf_in(*final(g)),
            r.config == *config,
            r.token_embedding.num_embeddings == config.vocab_size,
            r.token_embedding.embedding_dim == config.d_model,
            r.blocks@.len() == config.decoder_layers,
            forall|j: int| 0 <= j < r.blocks@.len() ==> (#[trigger] r.blocks@[j]).consistent(config.d_model),
            r.pos_embed.shape_of(*final(g)) == seq![1usize, config.max_target_positions, config.d_model],
            final(g).nodes@[r.pos_embed.id as int].op == Op::Leaf(LeafInit::Normal { mean_bits: 0, std_bits: POS_STD_BITS }),
            r.ln_post.normalized_dim == config.d_model,
            r.lm_head.in_features == config.d_model,
            r.lm_head.out_features == config.vocab_size,
            r.lm_head.bias is None,
    {
        let ghost g0 = *g;
        let token_embedding = Embedding::new(g, config.vocab_size, config.d_model);
        let ghost g1 = *g;
        let ps = shape3(1, config.max_target_positions, config.d_model);
        let pos_embed = Tensor::randn(g, ps.as_slice(), 0, POS_STD_BITS, true);
        let ghost g2 = *g;
        let mut blocks: Vec<WhisperDecoderBlock> = Vec::new();
        let mut k: usize = 0;
        while k < config.decoder_layers
            invariant
                g.wf(),
                g2.extended_by(*g),
                config.decoder_heads > 0,
                config.d_model % config.decoder_heads == 0,
                k <= config.decoder_layers,
                blocks@.len() == k,
                forall|j: int| 0 <= j < k ==> (#[trigger] blocks@[j]).wf_in(*g),
                forall|j: int| 0 <= j < k ==> (#[trigger] blocks@[j]).consistent(config.d_model),
            decreases config.decoder_layers - k,
        {
            let ghost gk = *g;
            let b = WhisperDecoderBlock::new(g, config.d_model, config.decoder_heads, config.d_ff);
            proof {
                g2.lemma_extended_trans(gk, *g);
                assert forall|j: int| 0 <= j < k implies (#[trigger] blocks@[j]).wf_in(*g) by {
                    blocks@[j].lemma_wf_in_shapes(gk);
                    lemma_shapes_hold_extend(gk, *g, blocks@[j].shapes());
                    blocks@[j].lemma_wf_in_shapes(*g);
                }
            }
            blocks.push(b);
            k = k + 1;
        }
        let ghost g3 = *g;
        let ln_post = LayerNorm::new(g, config.d_model);
        let ghost g4 = *g;
        let lm_head = Linear::without_bias(g, config.d_model, config.vocab_size);
        let r = WhisperDecoder { token_embedding, pos_embed, blocks, ln_post, lm_head, config: *config };
        proof {
            g0.lemma_extended_trans(g1, g2);
            g0.lemma_extended_trans(g2, g3);
            g0.lemma_extended_trans(g3, g4);
            g0.lemma_extended_trans(g4, *g);
            g1.lemma_extended_trans(g2, *g);
            g2.lemma_extended_trans(g3, *g);
            g3.lemma_extended_trans(g4, *g);
            assert(g.nodes@[token_embedding.weight.id as int] == g1.nodes@[token_embedding.weight.id as int]);
            assert(g.nodes@[pos_embed.id as int] == g2.nodes@[pos_embed.id as int]);
            assert(g.nodes@[ln_post.weight.id as int] == g4.nodes@[ln_post.weight.id as int]);
            assert(g.nodes@[ln_post.bias.id as int] == g4.nodes@[ln_post.bias.id as int]);
            assert forall|j: int| 0 <= j < r.blocks@.len() implies (#[trigger] r.blocks@[j]).wf_in(*g) by {
                r.blocks@[j].lemma_wf_in_shapes(g3);
                lemma_shapes_hold_extend(g3, *g, r.blocks@[j].shapes());
                r.blocks@[j].lemma_wf_in_shapes(*g);
            }
        }
        r
    }

    /// Decodes `tokens`, `batch` sequences of `t_text` token ids in row-major order, attending
    /// to `memory`, into logits `[batch, t_text, vocab_size]`. Succeeds exactly when every
    /// stage accepts what reaches it: every id is below the vocabulary size, `t_text` is at most
    /// the number of position embeddings, and the blocks, normalization and head accept the
    /// shapes.
    pub fn forward_decoder(&self, g: &mut Graph, tokens: &[usize], batch: usize, t_text: usize, memory: &Tensor) -> (r: Result<Tensor, EngineError>)
        requires
            old(g).wf(),
            self.wf_in(*old(g)),
            memory.valid(*old(g)),
            tokens@.len() == batch * t_text,
        ensures
            final(g).wf(),
            old(g).extended_by(*final(g)),
            r is Ok <==> self.accepts(tokens@, batch, t_text, self.pos_embed.shape_of(*old(g)), memory.shape_of(*old(g))),
            r matches Ok(t) ==> t.valid(*final(g))
                && t.shape_of(*final(g)) == self.out_shape(batch, t_text, self.pos_embed.shape_of(*old(g)), memory.shape_of(*old(g))),
    {
        let ghost g0 = *g;
        let ghost pos = self.pos_embed.shape_of(*g);
        let ghost ms = memory.shape_of(*g);
        let n_tokens = tokens.len();
        let dims = shape2(batch, t_text);
        proof {
            assert(batch * t_text == n_tokens);
            crate::nn::bert::lemma_numel_pair(batch, t_text);
            assert(dims@.push(self.token_embedding.embedding_dim) =~= seq![batch, t_text, self.token_embedding.embedding_dim]);
        }
        let tok = match self.token_embedding.forward_ids(g, tokens, dims.as_slice()) {
            Ok(v) => v,
            Err(e) => {
                return Err(e);
            },
        };
        let ghost g1 = *g;
        assert(g1.nodes@[self.pos_embed.id as int] == g0.nodes@[self.pos_embed.id as int]);
        let pos_s = match self.pos_embed.slice(g, 1, 0, t_text) {
            Ok(v) => v,
            Err(e) => {
                return Err(e);
            },
        };
        let ghost g2 = *g;
        proof {
            g0.lemma_extended_trans(g1, g2);
        }
        assert(g2.nodes@[tok.id as int] == g1.nodes@[tok.id as int]);
        let x = match tok.add(g, &pos_s) {
            Ok(v) => v,
            Err(e) => {
                return Err(e);
            },
        };
        let ghost g3 = *g;
        proof {
            g0.lemma_extended_trans(g2, g3);
            assert forall|k: int| 0 <= k < self.blocks@.len() implies (#[trigger] self.blocks@[k]).wf_in(g3) by {
                self.blocks@[k].lemma_wf_in_shapes(g0);
                lemma_shapes_hold_extend(g0, g3, self.blocks@[k].shapes());
                self.blocks@[k].lemma_wf_in_shapes(g3);
            }
            assert(x.shape_of(g3) == self.embedded(batch, t_text, pos));
            assert(g3.nodes@[memory.id as int] == g0.nodes@[memory.id as int]);
        }
        let y = match forward_dec_blocks(g, &self.blocks, &x, memory) {
            Ok(v) => v,
            Err(e) => {
                proof {
                    g0.lemma_extended_trans(g3, *g);
                }
                return Err(e);
            },
        };
        let ghost g4 = *g;
        proof {
            g0.lemma_extended_trans(g3, g4);
            self.ln_post.lemma_wf_in_shapes(g0);
            lemma_shapes_hold_extend(g0, g4, self.ln_post.shapes());
            self.ln_post.lemma_wf_in_shapes(g4);
        }
        let z = match self.ln_post.forward_norm(g, &y) {
            Ok(v) => v,
            Err(e) => {
                proof {
                    g0.lemma_extended_trans(g4, *g);
                }
                return Err(e);
            },
        };
        let ghost g5 = *g;
        proof {
            g0.lemma_extended_trans(g4, g5);
            self.lm_head.lemma_wf_in_shapes(g0);
            lemma_shapes_hold_extend(g0, g5, self.lm_head.shapes());
            self.lm_head.lemma_wf_in_shapes(g5);
        }
        let out = self.lm_head.forward_linear(g, &z);
        proof {
            g0.lemma_extended_trans(g5, *g);
        }
        out
    }

    /// The learnable tensors: the token table, the position embeddings, each block's, the final
    /// normalization's and the head's weight.
    pub fn parameters(&self) -> (r: Vec<Tensor>)
        ensures
            r@ == self.param_seq(),
            forall|g: Graph| #[trigger] self.wf_in(g) ==> forall|k: int| 0 <= k < r@.len() ==> (#[trigger] r@[k]).valid(g),
    {
        let mut params: Vec<Tensor> = Vec::new();
        params.push(self.token_embedding.weight);
        params.push(self.pos_embed);
        let ghost base_blocks = params@;
        proof {
            assert(crate::nn::module::seq_params(self.blocks@.take(0)) =~= Seq::<Tensor>::empty());
        }
        let mut i: usize = 0;
        while i < self.blocks.len()
            invariant
                i <= self.blocks@.len(),
                params@ == base_blocks + crate::nn::module::seq_params(self.blocks@.take(i as int)),
                forall|g: Graph| #[trigger] self.wf_in(g) ==> forall|k: int| 0 <= k < params@.len() ==> (#[trigger] params@[k]).valid(g),
            decreases self.blocks.len() - i,
        {
            let mut p = self.blocks[i].parameters();
            proof {
                crate::nn::module::lemma_seq_params_step(self.blocks@, i as int);
            }
            let ghost before = params@;
            let ghost b = self.blocks@[i as int];
            params.append(&mut p);
            proof {
                assert forall|g: Graph| #[trigger] self.wf_in(g) implies forall|k: int| 0 <= k < params@.len() ==> (#[trigger] params@[k]).valid(g) by {
                    assert(b.wf_in(g));
                    b.lemma_wf_in_shapes(g);
                    lemma_tensors_valid(g, b.shapes());
                    assert forall|k: int| 0 <= k < params@.len() implies (#[trigger] params@[k]).valid(g) by {
                        if k >= before.len() {
                            assert(params@[k] == tensors_of(b.shapes())[k - before.len()]);
                        } else {
                            assert(params@[k] == before[k]);
                        }
                    }
                }
            }
            i = i + 1;
        }
        proof {
            assert(self.blocks@.take(self.blocks@.len() as int) =~= self.blocks@);
        }
        params.push(self.ln_post.weight);
        params.push(self.ln_post.bias);
        params.push(self.lm_head.weight);
        proof {
            assert(params@ =~= self.param_seq());
        }
        params
    }
}

/// The complete speech recognition model: an audio encoder and a text decoder over the same
/// configuration.
pub struct Whisper {
    pub encoder: WhisperEncoder,
    pub decoder: WhisperDecoder,
    pub config: WhisperConfig,
}

impl Whisper {
    /// The tensors that `parameters` gives, in order.
    pub open spec fn param_seq(&self) -> Seq<Tensor> {
        self.encoder.param_seq() + self.decoder.param_seq()
    }
}

impl Whisper {
    /// Both halves live in `g`.
    pub open spec fn wf_in(&self, g: Graph) -> bool {
        self.encoder.wf_in(g) && self.decoder.wf_in(g)
    }

    /// Shape of the encoder's output for a spectrogram of shape `mel`, in `g`.
    pub open spec fn memory_shape(&self, g: Graph, mel: Seq<usize>) -> Seq<usize> {
        self.encoder.out_shape(mel, self.encoder.pos_embed.shape_of(g))
    }

    /// The model accepts a spectrogram of shape `mel` and `batch` sequences of `t` token ids
    /// `ids`, in `g`.
    pub open spec fn accepts(&self, g: Graph, mel: Seq<usize>, ids: Seq<usize>, batch: usize, t: usize) -> bool {
        &&& self.encoder.accepts(mel, self.encoder.pos_embed.shape_of(g))
        &&& self.decoder.accepts(ids, batch, t, self.decoder.pos_embed.shape_of(g), self.memory_shape(g, mel))
    }

    /// Shape of the logits, in `g`.
    pub open spec fn out_shape(&self, g: Graph, mel: Seq<usize>, batch: usize, t: usize) -> Seq<usize> {
        self.decoder.out_shape(batch, t, self.decoder.pos_embed.shape_of(g), self.memory_shape(g, mel))
    }

    /// The parts agree with the configuration on the width and the vocabulary.
    pub open spec fn consistent(&self) -> bool {
        let c = self.config;
        &&& self.encoder.config == c
        &&& self.decoder.token_embedding.embedding_dim == c.d_model
        &&& self.decoder.lm_head.out_features == c.vocab_size
        &&& forall|k: int| 0 <= k < self.encoder.blocks@.len() ==> (#[trigger] self.encoder.blocks@[k]).consistent(c.d_model)
        &&& forall|k: int| 0 <= k < self.decoder.blocks@.len() ==> (#[trigger] self.decoder.blocks@[k]).consistent(c.d_model)
    }

    /// A model for `config`: the encoder first, then the decoder.
    pub fn new(g: &mut Graph, config: WhisperConfig) -> (r: Whisper)
        requires
            old(g).wf(),
            config.n_mels * 3 <= usize::MAX,
            config.encoder_heads > 0,
            config.d_model % config.encoder_heads == 0,
            config.decoder_heads > 0,
            config.d_model % config.decoder_heads == 0,
        ensures
            final(g).wf(),
            old(g).extended_by(*final(g)),
            r.wf_in(*final(g)),
            r.config == config,
            r.encoder.config == config,
            r.decoder.config == config,
            r.encoder.blocks@.len() == config.encoder_layers,
            r.decoder.blocks@.len() == config.decoder_layers,
            r.decoder.lm_head.out_features == config.vocab_size,
            r.consistent(),
            r.encoder.pos_embed.shape_of(*final(g)) == seq![1usize, config.max_source_positions, config.d_model],
            r.decoder.pos_embed.shape_of(*final(g)) == seq![1usize, config.max_target_positions, config.d_model],
    {
        let ghost g0 = *g;
        let encoder = WhisperEncoder::new(g, &config);
        let ghost g1 = *g;
        let decoder = WhisperDecoder::new(g, &config);
        proof {
            g0.lemma_extended_trans(g1, *g);
            encoder.lemma_wf_in_extend(g1, *g);
            assert(g.nodes@[encoder.pos_embed.id as int] == g1.nodes@[encoder.pos_embed.id as int]);
        }
        Whisper { encoder, decoder, config }
    }

    /// Encodes `mel` and decodes `tokens` (`batch` sequences of `t_text` ids) against it into
    /// vocabulary logits. Succeeds exactly when the encoder accepts the spectrogram and the
    /// decoder accepts the tokens with the encoder's output as memory.
    pub fn forward_model(&self, g: &mut Graph, mel: &Tensor, tokens: &[usize], batch: usize, t_text: usize) -> (r: Result<Tensor, EngineError>)
        requires
            old(g).wf(),
            self.wf_in(*old(g)),
            mel.valid(*old(g)),
            tokens@.len() == batch * t_text,
        ensures
            final(g).wf(),
            old(g).extended_by(*final(g)),
            r is Ok <==> self.accepts(*old(g), mel.shape_of(*old(g)), tokens@, batch, t_text),
            r matches Ok(t) ==> t.valid(*final(g)) && t.shape_of(*final(g)) == self.out_shape(*old(g), mel.shape_of(*old(g)), batch, t_text),
    {
        let ghost g0 = *g;
        let memory = match self.encoder.forward_encoder(g, mel) {
            Ok(m) => m,
            Err(e) => {
                return Err(e);
            },
        };
        let ghost g1 = *g;
        proof {
            self.decoder.lemma_wf_in_extend(g0, g1);
        }
        let out = self.decoder.forward_decoder(g, tokens, batch, t_text, &memory);
        proof {
            g0.lemma_extended_trans(g1, *g);
        }
        out
    }

    /// Encodes a spectrogram into the decoder's memory.
    pub fn encode(&self, g: &mut Graph, mel: &Tensor) -> (r: Result<Tensor, EngineError>)
        requires
            old(g).wf(),
            self.wf_in(*old(g)),
            mel.valid(*old(g)),
        ensures
            final(g).wf(),
            old(g).extended_by(*final(g)),
            r is Ok <==> self.encoder.accepts(mel.shape_of(*old(g)), self.encoder.pos_embed.shape_of(*old(g))),
            r matches Ok(t) ==> t.valid(*final(g)) && t.shape_of(*final(g)) == self.memory_shape(*old(g), mel.shape_of(*old(g))),
    {
        self.encoder.forward_encoder(g, mel)
    }

    /// Decodes `tokens` (`batch` sequences of `t_text` ids) against precomputed `memory`.
    pub fn decode(&self, g: &mut Graph, tokens: &[usize], batch: usize, t_text: usize, memory: &Tensor) -> (r: Result<Tensor, EngineError>)
        requires
            old(g).wf(),
            self.wf_in(*old(g)),
            memory.valid(*old(g)),
            tokens@.len() == batch * t_text,
        ensures
            final(g).wf(),
            old(g).extended_by(*final(g)),
            r is Ok <==> self.decoder.accepts(tokens@, batch, t_text, self.decoder.pos_embed.shape_of(*old(g)), memory.shape_of(*old(g))),
            r matches Ok(t) ==> t.valid(*final(g))
                && t.shape_of(*final(g)) == self.decoder.out_shape(batch, t_text, self.decoder.pos_embed.shape_of(*old(g)), memory.shape_of(*old(g))),
    {
        self.decoder.forward_decoder(g, tokens, batch, t_text, memory)
    }

    /// One step of greedy transcription, given `best_token`, the highest-scoring token of the
    /// last position's logits. Transcription ends (`Ok(None)`, nothing changed) when that token
    /// is `eos_id` or `step` has reached `max_tokens`. Otherwise the token is appended and,
    /// unless that was step `max_tokens - 1`, the extended sequence is decoded against `memory`
    /// and its logits are returned for the next step.
    pub fn transcription_step(
        &self,
        g: &mut Graph,
        token_ids: &mut Vec<usize>,
        best_token: usize,
        eos_id: usize,
        step: usize,
        max_tokens: usize,
        memory: &Tensor,
    ) -> (r: Result<Option<Tensor>, EngineError>)
        requires
            old(g).wf(),
            self.wf_in(*old(g)),
            memory.valid(*old(g)),
            old(token_ids)@.len() < usize::MAX,
        ensures
            final(g).wf(),
            old(g).extended_by(*final(g)),
            (best_token == eos_id || step >= max_tokens) ==> r == Ok::<Option<Tensor>, EngineError>(None)
                && final(token_ids)@ == old(token_ids)@ && *final(g) == *old(g),
            !(best_token == eos_id || step >= max_tokens) ==> final(token_ids)@ == old(token_ids)@.push(best_token),
            (best_token != eos_id && step < max_tokens && step + 1 >= max_tokens) ==> r == Ok::<Option<Tensor>, EngineError>(None)
                && *final(g) == *old(g),
            (best_token != eos_id && step + 1 < max_tokens) ==> ({
                let t = final(token_ids)@;
                let pos = self.decoder.pos_embed.shape_of(*old(g));
                let mem = memory.shape_of(*old(g));
                &&& r is Ok <==> self.decoder.accepts(t, 1, t.len() as usize, pos, mem)
                &&& r matches Ok(o) ==> (o matches Some(l) && l.valid(*final(g))
                    && l.shape_of(*final(g)) == self.decoder.out_shape(1, t.len() as usize, pos, mem))
            }),
    {
        if best_token == eos_id || step >= max_tokens {
            return Ok(None);
        }
        token_ids.push(best_token);
        if step + 1 >= max_tokens {
            return Ok(None);
        }
        let cur_len = token_ids.len();
        assert(token_ids@.len() == 1 * cur_len);
        match self.decode(g, token_ids.as_slice(), 1, cur_len, memory) {
            Ok(l) => Ok(Some(l)),
            Err(e) => Err(e),
        }
    }

    /// The transcribed tokens: `token_ids` without its leading start token, unless that token
    /// is all there is.
    pub fn transcription_ids(token_ids: &Vec<usize>) -> (r: Vec<usize>)
        ensures
            r@ == (if token_ids@.len() > 1 { token_ids@.subrange(1, token_ids@.len() as int) } else { token_ids@ }),
    {
        let n = token_ids.len();
        if n <= 1 {
            return token_ids.clone();
        }
        let mut r: Vec<usize> = Vec::new();
        let mut k: usize = 1;
        while k < n
            invariant
                n == token_ids@.len(),
                1 <= k <= n,
                r@ == token_ids@.subrange(1, k as int),
            decreases n - k,
        {
            r.push(token_ids[k]);
            k = k + 1;
            assert(r@ =~= token_ids@.subrange(1, k as int));
        }
        r
    }

    /// The learnable tensors: the encoder's, then the decoder's.
    pub fn parameters(&self) -> (r: Vec<Tensor>)
        ensures
            r@ == self.param_seq(),
            forall|g: Graph| #[trigger] self.wf_in(g) ==> forall|k: int| 0 <= k < r@.len() ==> (#[trigger] r@[k]).valid(g),
    {
        let mut params = self.encoder.parameters();
        let mut d = self.decoder.parameters();
        let ghost e = params@;
        let ghost ds = d@;
        params.append(&mut d);
        proof {
            assert forall|g: Graph| #[trigger] self.wf_in(g) implies forall|k: int| 0 <= k < params@.len() ==> (#[trigger] params@[k]).valid(g) by {
                assert(self.encoder.wf_in(g));
                assert(self.decoder.wf_in(g));
                assert forall|k: int| 0 <= k < params@.len() implies (#[trigger] params@[k]).valid(g) by {
                    if k < e.len() {
                        assert(params@[k] == e[k]);
                    } else {
                        assert(params@[k] == ds[k - e.len()]);
                    }
                }
            }
        }
        proof {
            assert(params@ =~= self.param_seq());
        }
        params
    }
}

/// Shape law of the model: when a consistent model accepts a spectrogram `[batch, n_mels, time]`
/// and `batch` sequences of `t` tokens, the encoder's memory is `[batch, frames, d_model]` and
/// the logits are `[batch, t, vocab_size]`, one score per token position and vocabulary entry.
pub proof fn lemma_whisper_output_shapes(m: Whisper, g: Graph, mel: Seq<usize>, ids: Seq<usize>, batch: usize, t: usize)
    requires
        m.consistent(),
        m.encoder.pos_embed.shape_of(g) == seq![1usize, m.config.max_source_positions, m.config.d_model],
        m.decoder.pos_embed.shape_of(g) == seq![1usize, m.config.max_target_positions, m.config.d_model],
        m.accepts(g, mel, ids, batch, t),
    ensures
        m.memory_shape(g, mel) == seq![mel[0], m.encoder.frames(mel)[3], m.config.d_model],
        m.out_shape(g, mel, batch, t) == seq![batch, t, m.config.vocab_size],
{
    let d = m.config.d_model;
    let te = m.encoder.frames(mel)[3];
    let pe = m.encoder.pos_embed.shape_of(g);
    let pd = m.decoder.pos_embed.shape_of(g);
    assert(slice_spec(pe, 1, 0, te as int) =~= seq![1usize, te, d]);
    lemma_broadcast_collapsed(seq![mel[0], te, d], seq![1usize, te, d]);
    assert(m.encoder.embedded(mel, pe) == seq![mel[0], te, d]);
    lemma_enc_blocks_preserve_shape(m.encoder.blocks@, d, m.encoder.embedded(mel, pe));
    let ms = m.memory_shape(g, mel);
    assert(slice_spec(pd, 1, 0, t as int) =~= seq![1usize, t, d]);
    lemma_broadcast_collapsed(seq![batch, t, d], seq![1usize, t, d]);
    assert(m.decoder.embedded(batch, t, pd) == seq![batch, t, d]);
    lemma_dec_blocks_preserve_shape(m.decoder.blocks@, d, m.decoder.embedded(batch, t, pd), ms);
    assert(linear_out(seq![batch, t, d], m.config.vocab_size) =~= seq![batch, t, m.config.vocab_size]);
}

} // verus!
