//! BERT: word, position and segment embeddings, a stack of bidirectional encoder layers,
//! the `[CLS]` pooler, and heads for extractive question answering and sentence embeddings.

use vstd::prelude::*;
use crate::autograd::node::{Graph, LeafInit, Op};
use crate::autograd::tensor::{Tensor, reshape_ok};
use crate::error::EngineError;
use crate::nn::attention::{MultiHeadAttention, attention_result, lemma_attention_preserves_shape, lemma_attention_result_extend, self_attention_mask};
use crate::nn::embedding::Embedding;
use crate::nn::linear::{Linear, lemma_linear_result_extend, linear_out, linear_result};
use crate::nn::module::{Module, lemma_seq_shapes_hold, lemma_shapes_hold_concat, lemma_shapes_hold_extend, lemma_tensors_valid, seq_shapes, shapes_hold, tensors_of};
use crate::nn::norm::{LayerNorm, layer_norm_structure, lemma_layer_norm_structure_extend};
use crate::shape::{broadcast_spec, broadcastable, lemma_broadcast_self, shape2, shape_fits, slice_spec};

verus! {

/// Pools a sequence into one vector: the first (`[CLS]`) token through a dense layer and tanh.
#[derive(Clone, Copy)]
pub struct BertPooler {
    pub dense: Linear,
}

/// Node `o` of `g` is what pooler `p` makes of the sequence node `x`: the tanh of the dense layer
/// applied to the first token of every sequence (`x[:, 0, :]`, reshaped to two axes).
pub open spec fn pooler_structure(g: Graph, o: int, p: BertPooler, x: int) -> bool {
    let d = g.nodes@[o].inputs@[0] as int;
    &&& g.nodes@[o].op == Op::Tanh && g.nodes@[o].inputs@.len() == 1
    &&& exists|c: int| #[trigger] linear_result(g, d, p.dense, c) && g.nodes@[c].op == Op::Reshape
        && g.nodes@[c].inputs@.len() == 1
        && g.nodes@[g.nodes@[c].inputs@[0] as int].op == (Op::Slice { axis: 1, start: 0, end: 1 })
        && g.nodes@[g.nodes@[c].inputs@[0] as int].inputs@ == seq![x as usize]
}

impl BertPooler {
    /// A pooler with a `d_model x d_model` dense layer.
    pub fn new(g: &mut Graph, d_model: usize) -> (r: BertPooler)
        requires
            old(g).wf(),
        ensures
            final(g).wf(),
            old(g).extended_by(*final(g)),
            r.dense.wf_in(*final(g)),
            r.dense.in_features == d_model,
            r.dense.out_features == d_model,
            r.dense.bias is Some,
    {
        BertPooler { dense: Linear::new(g, d_model, d_model) }
    }

    /// The pooler accepts `[batch, seq, channels]` with at least one token, whose first
    /// token can be flattened to `[batch, channels]` and fed to the dense layer.
    pub open spec fn accepts(&self, x: Seq<usize>) -> bool {
        &&& x.len() == 3
        &&& x[1] >= 1
        &&& reshape_ok(seq![x[0], 1, x[2]], seq![x[0], x[2]])
        &&& x[2] == self.dense.in_features
    }

    /// `tanh(dense(x[:, 0, :]))`, of shape `[batch, out_features]`.
    pub fn forward_pooler(&self, g: &mut Graph, sequence_output: &Tensor) -> (r: Result<Tensor, EngineError>)
        requires
            old(g).wf(),
            self.dense.wf_in(*old(g)),
            sequence_output.valid(*old(g)),
        ensures
            final(g).wf(),
            old(g).extended_by(*final(g)),
            r is Ok <==> self.accepts(sequence_output.shape_of(*old(g))),
            r matches Ok(t) ==> t.valid(*final(g)) && t.shape_of(*final(g)) == seq![sequence_output.shape_of(*old(g))[0], self.dense.out_features],
            sequence_output.shape_of(*old(g)).len() != 3 ==> (r matches Err(e) && e is IncompatibleShapes && *final(g) == *old(g)),
            r matches Ok(t) ==> pooler_structure(*final(g), t.id as int, *self, sequence_output.id as int),
    {
        let ghost g0 = *g;
        let ghost xs = sequence_output.shape_of(*g);
        let shape = sequence_output.shape(g);
        if shape.len() != 3 {
            let mut shapes: Vec<Vec<usize>> = Vec::new();
            shapes.push(shape);
            return Err(EngineError::IncompatibleShapes {
                op: "BertPooler forward (expected 3D sequence_output [B, T, d_model])",
                shapes,
            });
        }
        let b = shape[0];
        let d_model = shape[2];
        let cls_token = sequence_output.slice(g, 1, 0, 1)?;
        let ghost g1 = *g;
        assert(slice_spec(xs, 1, 0, 1) =~= seq![b, 1, d_model]);
        let cls_2d = cls_token.reshape(g, shape2(b, d_model).as_slice())?;
        let ghost g2 = *g;
        proof {
            g0.lemma_extended_trans(g1, g2);
            assert(linear_out(seq![b, d_model], self.dense.out_features) =~= seq![b, self.dense.out_features]);
        }
        let dense = self.dense.forward_linear(g, &cls_2d)?;
        let ghost g3 = *g;
        proof {
            g0.lemma_extended_trans(g2, g3);
        }
        let out = dense.tanh(g)?;
        proof {
            g0.lemma_extended_trans(g3, *g);
            g1.lemma_extended_trans(g2, *g);
            g2.lemma_extended_trans(g3, *g);
            lemma_linear_result_extend(g3, *g, dense.id as int, self.dense, cls_2d.id as int);
            assert(g.nodes@[cls_2d.id as int] == g2.nodes@[cls_2d.id as int]);
            assert(g.nodes@[cls_token.id as int] == g1.nodes@[cls_token.id as int]);
            assert(linear_result(*g, dense.id as int, self.dense, cls_2d.id as int));
            assert(g.nodes@[out.id as int].inputs@ == seq![dense.id]);
            assert(g.nodes@[cls_2d.id as int].inputs@ == seq![cls_token.id]);
            let d = g.nodes@[out.id as int].inputs@[0] as int;
            assert(d == dense.id as int);
            assert(linear_result(*g, d, self.dense, cls_2d.id as int));
            assert(pooler_structure(*g, out.id as int, *self, sequence_output.id as int));
        }
        Ok(out)
    }
}

impl Module for BertPooler {
    open spec fn mode_is(&self, training: bool) -> bool {
        true
    }

    open spec fn param_list(&self) -> Seq<Tensor> {
        self.dense.param_seq()
    }

    open spec fn buffer_shapes(&self) -> Seq<(usize, Seq<usize>)> {
        Seq::empty()
    }

    open spec fn tensor_shapes(&self) -> Seq<(Tensor, Seq<usize>)> {
        self.dense.shapes()
    }

    fn forward(&self, g: &mut Graph, input: &Tensor) -> (r: Result<Tensor, EngineError>)
        ensures
            r is Ok <==> self.accepts(input.shape_of(*old(g))),
            r matches Ok(t) ==> t.shape_of(*final(g)) == seq![input.shape_of(*old(g))[0], self.dense.out_features],
    {
        proof {
            self.dense.lemma_wf_in_shapes(*g);
        }
        self.forward_pooler(g, input)
    }

    fn parameters(&self) -> (r: Vec<Tensor>)
        ensures
            r@ == self.dense.param_seq(),
    {
        let r = self.dense.parameters();
        assert forall|g: Graph| #[trigger] shapes_hold(g, self.tensor_shapes()) implies
            forall|k: int| 0 <= k < r@.len() ==> (#[trigger] r@[k]).valid(g) by {
            self.dense.lemma_wf_in_shapes(g);
        }
        r
    }

    /// Nothing switches between training and evaluation.
    fn train(&mut self) {
    }

    /// Nothing switches between training and evaluation.
    fn eval(&mut self) {
    }
}

/// Hyperparameters of a BERT model; `layer_norm_eps_bits` is the bit pattern of the `f32`
/// epsilon of its layer normalizations.
#[derive(Clone, Copy, PartialEq, Eq, Structural)]
pub struct BertConfig {
    pub vocab_size: usize,
    pub d_model: usize,
    pub num_layers: usize,
    pub num_heads: usize,
    pub d_ff: usize,
    pub max_position_embeddings: usize,
    pub type_vocab_size: usize,
    pub layer_norm_eps_bits: u32,
}

impl BertConfig {
    /// A compact model: vocabulary 350, width 64, 2 layers of 4 heads, feed-forward width
    /// 160, 128 positions, 2 segments, `eps = 1e-6`.
    pub fn tiny() -> (r: BertConfig)
        ensures
            r == (BertConfig {
                vocab_size: 350,
                d_model: 64,
                num_layers: 2,
                num_heads: 4,
                d_ff: 160,
                max_position_embeddings: 128,
                type_vocab_size: 2,
                layer_norm_eps_bits: crate::nn::norm::EPS_1E6_BITS,
            }),
    {
        BertConfig {
            vocab_size: 350,
            d_model: 64,
            num_layers: 2,
            num_heads: 4,
            d_ff: 160,
            max_position_embeddings: 128,
            type_vocab_size: 2,
            layer_norm_eps_bits: crate::nn::norm::EPS_1E6_BITS,
        }
    }
}

/// The element count of `[a, b]` is `a * b`, and when it fits in a `usize` the shape fits.
pub proof fn lemma_numel_pair(a: usize, b: usize)
    requires
        a * b <= usize::MAX,
    ensures
        crate::shape::numel_spec(seq![a, b]) == a * b,
        shape_fits(seq![a, b]),
{
    let s = seq![a, b];
    assert(s.drop_last() =~= seq![a]);
    assert(seq![a].drop_last() =~= Seq::<usize>::empty());
    assert(crate::shape::numel_spec(Seq::<usize>::empty()) == 1);
    assert(seq![a].last() == a);
    assert(crate::shape::numel_spec(seq![a]) == crate::shape::numel_spec(seq![a].drop_last()) * a);
    assert(crate::shape::numel_spec(seq![a]) == a);
    assert(s.last() == b);
    assert(crate::shape::numel_spec(s) == crate::shape::numel_spec(s.drop_last()) * b);
    assert forall|i: int| 0 <= i <= s.len() implies #[trigger] crate::shape::numel_spec(s.subrange(0, i)) <= usize::MAX by {
        if i == 0 {
            assert(s.subrange(0, 0) =~= Seq::<usize>::empty());
        } else if i == 1 {
            assert(s.subrange(0, 1) =~= seq![a]);
            if b > 0 {
                assert(a <= a * b) by (nonlinear_arith)
                    requires
                        b > 0,
                ;
            } else {
                assert(a * b == 0) by (nonlinear_arith)
                    requires
                        b == 0,
                ;
                assert(a <= usize::MAX);
            }
        } else {
            assert(s.subrange(0, 2) =~= s);
        }
    }
}

/// Position of each token of `batch` sequences of `seq_len` tokens, in row-major order.
pub open spec fn position_ids(batch: usize, seq_len: usize) -> Seq<usize> {
    Seq::new((batch * seq_len) as nat, |i: int| (i % (seq_len as int)) as usize)
}

/// Segment of each token: the given ids, or 0 for every token.
pub open spec fn segment_ids(types: Option<Seq<usize>>, batch: usize, seq_len: usize) -> Seq<usize> {
    match types {
        Some(ids) => ids,
        None => Seq::new((batch * seq_len) as nat, |i: int| 0usize),
    }
}

/// Looking `ids` up as `[batch, seq_len]` in table `e` succeeds.
pub open spec fn lookup_ok(e: Embedding, ids: Seq<usize>, batch: usize, seq_len: usize) -> bool {
    &&& forall|i: int| 0 <= i < ids.len() ==> #[trigger] ids[i] < e.num_embeddings
    &&& reshape_ok(seq![ids.len() as usize, e.embedding_dim], seq![batch, seq_len, e.embedding_dim])
}

/// Sum of word, position and segment embeddings, normalized.
pub struct BertEmbeddings {
    pub word_embeddings: Embedding,
    pub position_embeddings: Embedding,
    pub token_type_embeddings: Embedding,
    pub layer_norm: LayerNorm,
    pub config: BertConfig,
}

impl BertEmbeddings {
    /// The three tables and the normalization live in `g`.
    pub open spec fn wf_in(&self, g: Graph) -> bool {
        &&& self.word_embeddings.wf_in(g)
        &&& self.position_embeddings.wf_in(g)
        &&& self.token_type_embeddings.wf_in(g)
        &&& self.layer_norm.wf_in(g)
    }

    /// Shape of the summed embeddings of `batch` sequences of `seq_len` tokens.
    pub open spec fn sum_shape(&self, batch: usize, seq_len: usize) -> Seq<usize> {
        let w = seq![batch, seq_len, self.word_embeddings.embedding_dim];
        let p = seq![batch, seq_len, self.position_embeddings.embedding_dim];
        let t = seq![batch, seq_len, self.token_type_embeddings.embedding_dim];
        broadcast_spec(broadcast_spec(w, p), t)
    }

    /// The embeddings accept `ids` as `batch` sequences of `seq_len` with segments `types`.
    pub open spec fn accepts(&self, ids: Seq<usize>, batch: usize, seq_len: usize, types: Option<Seq<usize>>) -> bool {
        let w = seq![batch, seq_len, self.word_embeddings.embedding_dim];
        let p = seq![batch, seq_len, self.position_embeddings.embedding_dim];
        let t = seq![batch, seq_len, self.token_type_embeddings.embedding_dim];
        &&& seq_len <= self.config.max_position_embeddings
        &&& lookup_ok(self.word_embeddings, ids, batch, seq_len)
        &&& lookup_ok(self.position_embeddings, position_ids(batch, seq_len), batch, seq_len)
        &&& lookup_ok(self.token_type_embeddings, segment_ids(types, batch, seq_len), batch, seq_len)
        &&& broadcastable(w, p)
        &&& broadcastable(broadcast_spec(w, p), t)
        &&& self.layer_norm.accepts(self.sum_shape(batch, seq_len))
    }

    /// Embeddings for `config`: tables over the vocabulary, the positions and the segments,
    /// all of the model width, and a layer normalization.
    pub fn new(g: &mut Graph, config: &BertConfig) -> (r: BertEmbeddings)
        requires
            old(g).wf(),
        ensures
            final(g).wf(),
            old(g).extended_by(*final(g)),
            r.wf_in(*final(g)),
            r.config == *config,
            r.word_embeddings.num_embeddings == config.vocab_size && r.word_embeddings.embedding_dim == config.d_model,
            r.position_embeddings.num_embeddings == config.max_position_embeddings && r.position_embeddings.embedding_dim == config.d_model,
            r.token_type_embeddings.num_embeddings == config.type_vocab_size && r.token_type_embeddings.embedding_dim == config.d_model,
            r.layer_norm.normalized_dim == config.d_model,
            r.layer_norm.eps_bits == config.layer_norm_eps_bits,
    {
        let ghost g0 = *g;
        let word_embeddings = Embedding::new(g, config.vocab_size, config.d_model);
        let ghost g1 = *g;
        let position_embeddings = Embedding::new(g, config.max_position_embeddings, config.d_model);
        let ghost g2 = *g;
        let token_type_embeddings = Embedding::new(g, config.type_vocab_size, config.d_model);
        let ghost g3 = *g;
        let layer_norm = LayerNorm::with_eps(g, config.d_model, config.layer_norm_eps_bits);
        proof {
            g0.lemma_extended_trans(g1, g2);
            g0.lemma_extended_trans(g2, g3);
            g0.lemma_extended_trans(g3, *g);
            assert(g.nodes@[word_embeddings.weight.id as int] == g1.nodes@[word_embeddings.weight.id as int]);
            assert(g.nodes@[position_embeddings.weight.id as int] == g2.nodes@[position_embeddings.weight.id as int]);
            assert(g.nodes@[token_type_embeddings.weight.id as int] == g3.nodes@[token_type_embeddings.weight.id as int]);
        }
        BertEmbeddings { word_embeddings, position_embeddings, token_type_embeddings, layer_norm, config: *config }
    }

    /// Embeds `input_ids`, `batch` sequences of `seq_len` tokens in row-major order, with
    /// segment ids `token_type_ids` (all 0 when absent). A sequence longer than
    /// `max_position_embeddings` is refused with `IncompatibleShapes`, recording nothing;
    /// otherwise succeeds exactly when the embeddings accept the ids.
    pub fn forward_embeddings(&self, g: &mut Graph, input_ids: &[usize], batch: usize, seq_len: usize, token_type_ids: Option<&[usize]>) -> (r: Result<Tensor, EngineError>)
        requires
            old(g).wf(),
            self.wf_in(*old(g)),
            input_ids@.len() == batch * seq_len,
            token_type_ids matches Some(t) ==> t@.len() == batch * seq_len,
        ensures
            final(g).wf(),
            old(g).extended_by(*final(g)),
            r is Ok <==> self.accepts(input_ids@, batch, seq_len, match token_type_ids { Some(t) => Some(t@), None => None }),
            r matches Ok(t) ==> t.valid(*final(g)) && t.shape_of(*final(g)) == self.sum_shape(batch, seq_len),
            seq_len > self.config.max_position_embeddings ==> (r matches Err(e) && e is IncompatibleShapes && *final(g) == *old(g)),
    {
        let ghost g0 = *g;
        let ghost types = match token_type_ids { Some(t) => Some(t@), None => None };
        if seq_len > self.config.max_position_embeddings {
            let mut shapes: Vec<Vec<usize>> = Vec::new();
            shapes.push(shape2(batch, seq_len));
            shapes.push(crate::shape::shape1(self.config.max_position_embeddings));
            return Err(EngineError::IncompatibleShapes {
                op: "BertEmbeddings (sequence length exceeds max_position_embeddings)",
                shapes,
            });
        }
        let n = input_ids.len();
        let dims = shape2(batch, seq_len);
        proof {
            lemma_numel_pair(batch, seq_len);
            assert(dims@ == seq![batch, seq_len]);
            assert(dims@.push(self.word_embeddings.embedding_dim) =~= seq![batch, seq_len, self.word_embeddings.embedding_dim]);
            assert(dims@.push(self.position_embeddings.embedding_dim) =~= seq![batch, seq_len, self.position_embeddings.embedding_dim]);
            assert(dims@.push(self.token_type_embeddings.embedding_dim) =~= seq![batch, seq_len, self.token_type_embeddings.embedding_dim]);
        }
        let words = match self.word_embeddings.forward_ids(g, input_ids, dims.as_slice()) {
            Ok(t) => t,
            Err(e) => {
                return Err(e);
            },
        };
        let ghost g1 = *g;
        let mut pos: Vec<usize> = Vec::new();
        let mut i: usize = 0;
        while i < n
            invariant
                i <= n,
                n == batch * seq_len,
                pos@ == Seq::new(i as nat, |k: int| (k % (seq_len as int)) as usize),
            decreases n - i,
        {
            proof {
                if seq_len == 0 {
                    assert(batch * seq_len == 0) by (nonlinear_arith)
                        requires
                            seq_len == 0,
                    ;
                }
            }
            pos.push(i % seq_len);
            i = i + 1;
            assert(pos@ =~= Seq::new(i as nat, |k: int| (k % (seq_len as int)) as usize));
        }
        assert(pos@ =~= position_ids(batch, seq_len));
        assert(g1.nodes@[self.position_embeddings.weight.id as int] == g0.nodes@[self.position_embeddings.weight.id as int]);
        let positions = match self.position_embeddings.forward_ids(g, pos.as_slice(), dims.as_slice()) {
            Ok(t) => t,
            Err(e) => {
                proof {
                    g0.lemma_extended_trans(g1, *g);
                }
                return Err(e);
            },
        };
        let ghost g2 = *g;
        proof {
            g0.lemma_extended_trans(g1, g2);
        }
        assert(g2.nodes@[self.token_type_embeddings.weight.id as int] == g0.nodes@[self.token_type_embeddings.weight.id as int]);
        let types_t = match token_type_ids {
            Some(tt) => self.token_type_embeddings.forward_ids(g, tt, dims.as_slice()),
            None => {
                let mut zeros: Vec<usize> = Vec::new();
                let mut j: usize = 0;
                while j < n
                    invariant
                        j <= n,
                        zeros@ == Seq::new(j as nat, |k: int| 0usize),
                    decreases n - j,
                {
                    zeros.push(0);
                    j = j + 1;
                    assert(zeros@ =~= Seq::new(j as nat, |k: int| 0usize));
                }
                self.token_type_embeddings.forward_ids(g, zeros.as_slice(), dims.as_slice())
            },
        };
        let types_t = match types_t {
            Ok(t) => t,
            Err(e) => {
                proof {
                    g0.lemma_extended_trans(g2, *g);
                }
                return Err(e);
            },
        };
        let ghost g3 = *g;
        proof {
            g0.lemma_extended_trans(g2, g3);
            assert(g3.nodes@[words.id as int] == g1.nodes@[words.id as int]);
            assert(g3.nodes@[positions.id as int] == g2.nodes@[positions.id as int]);
            assert(seq![batch, seq_len].push(self.word_embeddings.embedding_dim) =~= seq![batch, seq_len, self.word_embeddings.embedding_dim]);
            assert(seq![batch, seq_len].push(self.position_embeddings.embedding_dim) =~= seq![batch, seq_len, self.position_embeddings.embedding_dim]);
            assert(seq![batch, seq_len].push(self.token_type_embeddings.embedding_dim) =~= seq![batch, seq_len, self.token_type_embeddings.embedding_dim]);
        }
        let wp = match words.add(g, &positions) {
            Ok(t) => t,
            Err(e) => {
                return Err(e);
            },
        };
        let ghost g4 = *g;
        let sum = match wp.add(g, &types_t) {
            Ok(t) => t,
            Err(e) => {
                proof {
                    g0.lemma_extended_trans(g3, g4);
                }
                return Err(e);
            },
        };
        let ghost g5 = *g;
        proof {
            g0.lemma_extended_trans(g3, g4);
            g0.lemma_extended_trans(g4, g5);
            assert(g5.nodes@[self.layer_norm.weight.id as int] == g0.nodes@[self.layer_norm.weight.id as int]);
            assert(g5.nodes@[self.layer_norm.bias.id as int] == g0.nodes@[self.layer_norm.bias.id as int]);
        }
        let out = self.layer_norm.forward_norm(g, &sum);
        proof {
            g0.lemma_extended_trans(g5, *g);
        }
        out
    }

    /// The learnable tensors: the three tables, then the normalization's weight and bias.
    pub fn parameters(&self) -> (r: Vec<Tensor>)
        ensures
            r@ == seq![self.word_embeddings.weight, self.position_embeddings.weight, self.token_type_embeddings.weight,
                self.layer_norm.weight, self.layer_norm.bias],
    {
        let mut params: Vec<Tensor> = Vec::new();
        params.push(self.word_embeddings.weight);
        params.push(self.position_embeddings.weight);
        params.push(self.token_type_embeddings.weight);
        params.push(self.layer_norm.weight);
        params.push(self.layer_norm.bias);
        assert(params@ =~= seq![self.word_embeddings.weight, self.position_embeddings.weight, self.token_type_embeddings.weight,
            self.layer_norm.weight, self.layer_norm.bias]);
        params
    }
}

/// The nodes witness that node `o` of `g` is what BERT layer `b` makes of node `x` (see
/// `bert_layer_result`).
pub open spec fn bert_layer_witness(g: Graph, o: int, b: BertLayer, x: int, mask: Option<LeafInit>,
    r1: int, at: int, y: int, r2: int, f: int, a: int, i: int) -> bool {
    &&& g.nodes@[r1].op == Op::Add && g.nodes@[r1].inputs@ == seq![x as usize, at as usize]
    &&& attention_result(g, at, b.attention, x, x, mask)
    &&& layer_norm_structure(g, y, b.attention_norm, r1, 2)
    &&& linear_result(g, i, b.intermediate, y)
    &&& g.nodes@[a].op == Op::Gelu && g.nodes@[a].inputs@ == seq![i as usize]
    &&& linear_result(g, f, b.output_dense, a)
    &&& g.nodes@[r2].op == Op::Add && g.nodes@[r2].inputs@ == seq![y as usize, f as usize]
    &&& layer_norm_structure(g, o, b.output_norm, r2, 2)
}

/// Node `o` of `g` is what BERT layer `b` makes of node `x` (post-normalization): with
/// `y = norm1(x + attention(x))`, where `mask` is on the attention's scores, `o` is
/// `norm2(y + dense2(gelu(dense1(y))))`.
pub open spec fn bert_layer_result(g: Graph, o: int, b: BertLayer, x: int, mask: Option<LeafInit>) -> bool {
    exists|r1: int, at: int, y: int, r2: int, f: int, a: int, i: int|
        #[trigger] bert_layer_witness(g, o, b, x, mask, r1, at, y, r2, f, a, i)
}

/// One encoder layer: `y = norm1(x + attention(x))`, then `norm2(y + dense(gelu(inter(y))))`.
#[derive(Clone, Copy)]
pub struct BertLayer {
    pub attention: MultiHeadAttention,
    pub attention_norm: LayerNorm,
    pub intermediate: Linear,
    pub output_dense: Linear,
    pub output_norm: LayerNorm,
}

impl BertLayer {
    /// Every part lives in `g`.
    pub open spec fn wf_in(&self, g: Graph) -> bool {
        &&& self.attention.wf_in(g)
        &&& self.attention_norm.wf_in(g)
        &&& self.intermediate.wf_in(g)
        &&& self.output_dense.wf_in(g)
        &&& self.output_norm.wf_in(g)
    }

    /// The layer's tensors with their expected shapes.
    pub open spec fn shapes(&self) -> Seq<(Tensor, Seq<usize>)> {
        self.attention.shapes() + self.attention_norm.shapes() + self.intermediate.shapes()
            + self.output_dense.shapes() + self.output_norm.shapes()
    }

    /// `wf_in` says the same as the list of expected shapes.
    pub proof fn lemma_wf_in_shapes(&self, g: Graph)
        ensures
            self.wf_in(g) <==> shapes_hold(g, self.shapes()),
    {
        let a = self.attention.shapes();
        let b = self.attention_norm.shapes();
        let c = self.intermediate.shapes();
        let d = self.output_dense.shapes();
        let e = self.output_norm.shapes();
        lemma_shapes_hold_concat(g, a + b + c + d, e);
        lemma_shapes_hold_concat(g, a + b + c, d);
        lemma_shapes_hold_concat(g, a + b, c);
        lemma_shapes_hold_concat(g, a, b);
        self.attention.lemma_wf_in_shapes(g);
        self.attention_norm.lemma_wf_in_shapes(g);
        self.intermediate.lemma_wf_in_shapes(g);
        self.output_dense.lemma_wf_in_shapes(g);
        self.output_norm.lemma_wf_in_shapes(g);
    }

    /// Shape after the attention residual.
    pub open spec fn after_attention(&self, x: Seq<usize>) -> Seq<usize> {
        broadcast_spec(x, self.attention.out_shape(x))
    }

    /// Shape of the feed-forward branch's output.
    pub open spec fn ffn_out(&self, x: Seq<usize>) -> Seq<usize> {
        linear_out(linear_out(self.after_attention(x), self.intermediate.out_features), self.output_dense.out_features)
    }

    /// The layer accepts input of shape `x`.
    pub open spec fn accepts(&self, x: Seq<usize>) -> bool {
        let a = self.after_attention(x);
        &&& self.attention.accepts(x)
        &&& broadcastable(x, self.attention.out_shape(x))
        &&& self.attention_norm.accepts(a)
        &&& self.intermediate.accepts(a)
        &&& self.output_dense.accepts(linear_out(a, self.intermediate.out_features))
        &&& broadcastable(a, self.ffn_out(x))
        &&& self.output_norm.accepts(broadcast_spec(a, self.ffn_out(x)))
    }

    /// Shape of the layer's output.
    pub open spec fn out_shape(&self, x: Seq<usize>) -> Seq<usize> {
        broadcast_spec(self.after_attention(x), self.ffn_out(x))
    }

    /// The layer as `new` builds it for width `d_model`.
    pub open spec fn consistent(&self) -> bool {
        let d = self.attention.d_model;
        &&& self.attention.consistent()
        &&& self.attention_norm.normalized_dim == d
        &&& self.intermediate.in_features == d
        &&& self.output_dense.in_features == self.intermediate.out_features
        &&& self.output_dense.out_features == d
        &&& self.output_norm.normalized_dim == d
    }

    /// A bidirectional layer of width `d_model`, `num_heads` heads and feed-forward width
    /// `d_ff`, normalizations with epsilon `eps_bits`.
    pub fn new(g: &mut Graph, d_model: usize, num_heads: usize, d_ff: usize, eps_bits: u32) -> (r: BertLayer)
        requires
            old(g).wf(),
            num_heads > 0,
            d_model % num_heads == 0,
        ensures
            final(g).wf(),
            old(g).extended_by(*final(g)),
            r.wf_in(*final(g)),
            r.consistent(),
            r.attention.d_model == d_model,
            r.attention.num_heads == num_heads,
            !r.attention.is_causal,
            r.intermediate.out_features == d_ff,
    {
        let ghost g0 = *g;
        let attention = MultiHeadAttention::new(g, d_model, num_heads, false);
        let ghost g1 = *g;
        let attention_norm = LayerNorm::with_eps(g, d_model, eps_bits);
        let ghost g2 = *g;
        let intermediate = Linear::new(g, d_model, d_ff);
        let ghost g3 = *g;
        let output_dense = Linear::new(g, d_ff, d_model);
        let ghost g4 = *g;
        let output_norm = LayerNorm::with_eps(g, d_model, eps_bits);
        let r = BertLayer { attention, attention_norm, intermediate, output_dense, output_norm };
        proof {
            g0.lemma_extended_trans(g1, g2);
            g0.lemma_extended_trans(g2, g3);
            g0.lemma_extended_trans(g3, g4);
            g0.lemma_extended_trans(g4, *g);
            g1.lemma_extended_trans(g2, *g);
            g2.lemma_extended_trans(g3, *g);
            g3.lemma_extended_trans(g4, *g);
            attention.lemma_wf_in_shapes(g1);
            lemma_shapes_hold_extend(g1, *g, attention.shapes());
            attention.lemma_wf_in_shapes(*g);
            attention_norm.lemma_wf_in_shapes(g2);
            lemma_shapes_hold_extend(g2, *g, attention_norm.shapes());
            attention_norm.lemma_wf_in_shapes(*g);
            intermediate.lemma_wf_in_shapes(g3);
            lemma_shapes_hold_extend(g3, *g, intermediate.shapes());
            intermediate.lemma_wf_in_shapes(*g);
            output_dense.lemma_wf_in_shapes(g4);
            lemma_shapes_hold_extend(g4, *g, output_dense.shapes());
            output_dense.lemma_wf_in_shapes(*g);
        }
        r
    }

    /// Applies the layer: succeeds exactly when it accepts the input's shape.
    pub fn forward_layer(&self, g: &mut Graph, x: &Tensor) -> (r: Result<Tensor, EngineError>)
        requires
            old(g).wf(),
            self.wf_in(*old(g)),
            x.valid(*old(g)),
        ensures
            final(g).wf(),
            old(g).extended_by(*final(g)),
            r is Ok <==> self.accepts(x.shape_of(*old(g))),
            r matches Ok(t) ==> t.valid(*final(g)) && t.shape_of(*final(g)) == self.out_shape(x.shape_of(*old(g))),
            r matches Ok(t) ==> bert_layer_result(*final(g), t.id as int, *self, x.id as int,
                self_attention_mask(self.attention.is_causal, x.shape_of(*old(g))[1])),
    {
        let ghost g0 = *g;
        let attn_out = self.attention.forward_attention(g, x)?;
        let ghost g1 = *g;
        assert(g1.nodes@[x.id as int] == g0.nodes@[x.id as int]);
        let res1 = match x.add(g, &attn_out) {
            Ok(t) => t,
            Err(e) => {
                return Err(e);
            },
        };
        let ghost g2 = *g;
        proof {
            g0.lemma_extended_trans(g1, g2);
            self.attention_norm.lemma_wf_in_shapes(g0);
            lemma_shapes_hold_extend(g0, g2, self.attention_norm.shapes());
            self.attention_norm.lemma_wf_in_shapes(g2);
        }
        let y = match self.attention_norm.forward_norm(g, &res1) {
            Ok(t) => t,
            Err(e) => {
                return Err(e);
            },
        };
        let ghost g3 = *g;
        proof {
            g0.lemma_extended_trans(g2, g3);
            self.intermediate.lemma_wf_in_shapes(g0);
            lemma_shapes_hold_extend(g0, g3, self.intermediate.shapes());
            self.intermediate.lemma_wf_in_shapes(g3);
        }
        let inter_lin = match self.intermediate.forward_linear(g, &y) {
            Ok(t) => t,
            Err(e) => {
                return Err(e);
            },
        };
        let ghost g4 = *g;
        let inter = match inter_lin.gelu(g) {
            Ok(t) => t,
            Err(e) => {
                return Err(e);
            },
        };
        let ghost g5 = *g;
        proof {
            g0.lemma_extended_trans(g3, g4);
            g0.lemma_extended_trans(g4, g5);
            self.output_dense.lemma_wf_in_shapes(g0);
            lemma_shapes_hold_extend(g0, g5, self.output_dense.shapes());
            self.output_dense.lemma_wf_in_shapes(g5);
        }
        let ffn_out = match self.output_dense.forward_linear(g, &inter) {
            Ok(t) => t,
            Err(e) => {
                return Err(e);
            },
        };
        let ghost g6 = *g;
        assert(g6.nodes@[y.id as int] == g3.nodes@[y.id as int]);
        let res2 = match y.add(g, &ffn_out) {
            Ok(t) => t,
            Err(e) => {
                proof {
                    g0.lemma_extended_trans(g5, g6);
                }
                return Err(e);
            },
        };
        let ghost g7 = *g;
        proof {
            g0.lemma_extended_trans(g5, g6);
            g0.lemma_extended_trans(g6, g7);
            self.output_norm.lemma_wf_in_shapes(g0);
            lemma_shapes_hold_extend(g0, g7, self.output_norm.shapes());
            self.output_norm.lemma_wf_in_shapes(g7);
        }
        let out = self.output_norm.forward_norm(g, &res2);
        proof {
            g0.lemma_extended_trans(g7, *g);
            if let Ok(o) = out {
                let gz = *g;
                let mask = self_attention_mask(self.attention.is_causal, x.shape_of(g0)[1]);
                g1.lemma_extended_trans(g2, gz);
                g2.lemma_extended_trans(g3, gz);
                g3.lemma_extended_trans(g4, gz);
                g4.lemma_extended_trans(g5, gz);
                g5.lemma_extended_trans(g6, gz);
                g6.lemma_extended_trans(g7, gz);
                lemma_attention_result_extend(g1, gz, attn_out.id as int, self.attention, x.id as int, x.id as int, mask);
                assert(gz.nodes@[res1.id as int] == g2.nodes@[res1.id as int]);
                lemma_layer_norm_structure_extend(g3, gz, y.id as int, self.attention_norm, res1.id as int, 2);
                lemma_linear_result_extend(g4, gz, inter_lin.id as int, self.intermediate, y.id as int);
                assert(gz.nodes@[inter.id as int] == g5.nodes@[inter.id as int]);
                lemma_linear_result_extend(g6, gz, ffn_out.id as int, self.output_dense, inter.id as int);
                assert(gz.nodes@[res2.id as int] == g7.nodes@[res2.id as int]);
                assert(bert_layer_witness(gz, o.id as int, *self, x.id as int, mask, res1.id as int, attn_out.id as int,
                    y.id as int, res2.id as int, ffn_out.id as int, inter.id as int, inter_lin.id as int));
            }
        }
        out
    }
}

/// A consistent layer keeps the shape of its input: it accepts `[batch, seq, d_model]`
/// exactly when its attention does, and then returns that shape.
pub proof fn lemma_bert_layer_preserves_shape(l: BertLayer, x: Seq<usize>)
    requires
        l.consistent(),
        x.len() == 3,
    ensures
        l.accepts(x) <==> x[2] == l.attention.d_model && shape_fits(x)
            && shape_fits(seq![x[0], x[1], l.attention.num_heads, l.attention.head_dim]),
        l.accepts(x) ==> l.out_shape(x) == x,
{
    lemma_attention_preserves_shape(l.attention, x);
    if l.attention.accepts(x) {
        lemma_broadcast_self(x);
        assert(l.after_attention(x) == x);
        assert(linear_out(x, l.intermediate.out_features) == x.update(2, l.intermediate.out_features));
        assert(l.ffn_out(x) =~= x);
    }
}

impl Module for BertLayer {
    open spec fn mode_is(&self, training: bool) -> bool {
        true
    }

    open spec fn param_list(&self) -> Seq<Tensor> {
        crate::nn::module::tensors_of(self.tensor_shapes())
    }

    open spec fn tensor_shapes(&self) -> Seq<(Tensor, Seq<usize>)> {
        self.shapes()
    }

    open spec fn buffer_shapes(&self) -> Seq<(usize, Seq<usize>)> {
        Seq::empty()
    }

    fn forward(&self, g: &mut Graph, input: &Tensor) -> (r: Result<Tensor, EngineError>)
        ensures
            r is Ok <==> self.accepts(input.shape_of(*old(g))),
            r matches Ok(t) ==> t.shape_of(*final(g)) == self.out_shape(input.shape_of(*old(g))),
    {
        proof {
            self.lemma_wf_in_shapes(*g);
        }
        self.forward_layer(g, input)
    }

    fn parameters(&self) -> (r: Vec<Tensor>)
        ensures
            r@ == tensors_of(self.shapes()),
    {
        let mut params = self.attention.parameters();
        params.push(self.attention_norm.weight);
        params.push(self.attention_norm.bias);
        let mut i = self.intermediate.parameters();
        params.append(&mut i);
        let mut o = self.output_dense.parameters();
        params.append(&mut o);
        params.push(self.output_norm.weight);
        params.push(self.output_norm.bias);
        proof {
            assert(self.attention.param_seq() =~= tensors_of(self.attention.shapes()));
            assert(self.intermediate.param_seq() =~= tensors_of(self.intermediate.shapes()));
            assert(self.output_dense.param_seq() =~= tensors_of(self.output_dense.shapes()));
            assert(params@ =~= tensors_of(self.shapes()));
            assert forall|g: Graph| #[trigger] shapes_hold(g, self.tensor_shapes()) implies forall|k: int| 0 <= k < params@.len() ==> (#[trigger] params@[k]).valid(g) by {
                lemma_tensors_valid(g, self.shapes());
            }
        }
        params
    }

    /// Nothing switches between training and evaluation.
    fn train(&mut self) {
    }

    /// Nothing switches between training and evaluation.
    fn eval(&mut self) {
    }
}

/// Shape after applying `layers` in order to input of shape `x`, if each accepts.
pub open spec fn encoder_out(layers: Seq<BertLayer>, x: Seq<usize>) -> Option<Seq<usize>>
    decreases layers.len(),
{
    if layers.len() == 0 {
        Some(x)
    } else {
        match encoder_out(layers.drop_last(), x) {
            Some(y) => if layers.last().accepts(y) {
                Some(layers.last().out_shape(y))
            } else {
                None
            },
            None => None,
        }
    }
}

/// Once a prefix of the layers refuses, the whole stack does.
proof fn lemma_encoder_none_extends(layers: Seq<BertLayer>, k: int, x: Seq<usize>)
    requires
        0 <= k <= layers.len(),
        encoder_out(layers.take(k), x) is None,
    ensures
        encoder_out(layers, x) is None,
    decreases layers.len() - k,
{
    if k < layers.len() {
        assert(layers.take(k + 1).drop_last() =~= layers.take(k));
        lemma_encoder_none_extends(layers, k + 1, x);
    } else {
        assert(layers.take(k) =~= layers);
    }
}

/// Consistent layers of width `d` keep a `[batch, seq, d]` shape.
pub proof fn lemma_encoder_preserves_shape(layers: Seq<BertLayer>, x: Seq<usize>)
    requires
        x.len() == 3,
        forall|k: int| 0 <= k < layers.len() ==> (#[trigger] layers[k]).consistent() && layers[k].attention.d_model == x[2],
    ensures
        encoder_out(layers, x) == (if forall|k: int| 0 <= k < layers.len() ==> (#[trigger] layers[k]).accepts(x) { Some(x) } else { None::<Seq<usize>> }),
    decreases layers.len(),
{
    if layers.len() > 0 {
        let init = layers.drop_last();
        assert forall|k: int| 0 <= k < init.len() implies (#[trigger] init[k]).consistent() && init[k].attention.d_model == x[2] by {
            assert(init[k] == layers[k]);
        }
        lemma_encoder_preserves_shape(init, x);
        lemma_bert_layer_preserves_shape(layers.last(), x);
        if forall|k: int| 0 <= k < layers.len() ==> (#[trigger] layers[k]).accepts(x) {
            assert forall|k: int| 0 <= k < init.len() implies (#[trigger] init[k]).accepts(x) by {
                assert(init[k] == layers[k]);
                assert(layers[k].accepts(x));
            }
            assert(layers[layers.len() - 1].accepts(x));
        } else {
            let k0 = choose|k: int| 0 <= k < layers.len() && !(#[trigger] layers[k]).accepts(x);
            if k0 < init.len() {
                assert(init[k0] == layers[k0]);
                assert(!init[k0].accepts(x));
            }
        }
    }
}

/// A stack of encoder layers.
pub struct BertEncoder {
    pub layers: Vec<BertLayer>,
}

impl BertEncoder {
    /// The tensors that `parameters` gives, in order.
    pub open spec fn param_seq(&self) -> Seq<Tensor> {
        crate::nn::module::seq_params(self.layers@)
    }
}

impl BertEncoder {
    /// Every layer lives in `g`.
    pub open spec fn wf_in(&self, g: Graph) -> bool {
        forall|k: int| 0 <= k < self.layers@.len() ==> (#[trigger] self.layers@[k]).wf_in(g)
    }

    /// `config.num_layers` layers as `config` describes them.
    pub fn new(g: &mut Graph, config: &BertConfig) -> (r: BertEncoder)
        requires
            old(g).wf(),
            config.num_heads > 0,
            config.d_model % config.num_heads == 0,
        ensures
            final(g).wf(),
            old(g).extended_by(*final(g)),
            r.wf_in(*final(g)),
            r.layers@.len() == config.num_layers,
            forall|k: int| 0 <= k < r.layers@.len() ==> (#[trigger] r.layers@[k]).consistent()
                && r.layers@[k].attention.d_model == config.d_model && r.layers@[k].attention.num_heads == config.num_heads,
    {
        let ghost g0 = *g;
        let mut layers: Vec<BertLayer> = Vec::new();
        let mut k: usize = 0;
        while k < config.num_layers
            invariant
                g.wf(),
                g0.extended_by(*g),
                config.num_heads > 0,
                config.d_model % config.num_heads == 0,
                k <= config.num_layers,
                layers@.len() == k,
                forall|j: int| 0 <= j < k ==> (#[trigger] layers@[j]).wf_in(*g) && layers@[j].consistent()
                    && layers@[j].attention.d_model == config.d_model && layers@[j].attention.num_heads == config.num_heads,
            decreases config.num_layers - k,
        {
            let ghost gk = *g;
            let l = BertLayer::new(g, config.d_model, config.num_heads, config.d_ff, config.layer_norm_eps_bits);
            proof {
                g0.lemma_extended_trans(gk, *g);
                assert forall|j: int| 0 <= j < k implies (#[trigger] layers@[j]).wf_in(*g) by {
                    layers@[j].lemma_wf_in_shapes(gk);
                    lemma_shapes_hold_extend(gk, *g, layers@[j].shapes());
                    layers@[j].lemma_wf_in_shapes(*g);
                }
            }
            layers.push(l);
            k = k + 1;
        }
        BertEncoder { layers }
    }

    /// Applies the layers in order: succeeds exactly when each accepts what reaches it.
    pub fn forward_encoder(&self, g: &mut Graph, hidden_states: &Tensor) -> (r: Result<Tensor, EngineError>)
        requires
            old(g).wf(),
            self.wf_in(*old(g)),
            hidden_states.valid(*old(g)),
        ensures
            final(g).wf(),
            old(g).extended_by(*final(g)),
            r is Ok <==> encoder_out(self.layers@, hidden_states.shape_of(*old(g))) is Some,
            r matches Ok(t) ==> t.valid(*final(g)) && encoder_out(self.layers@, hidden_states.shape_of(*old(g))) == Some(t.shape_of(*final(g))),
    {
        let ghost g0 = *g;
        let ghost xs = hidden_states.shape_of(*g);
        let mut cur = *hidden_states;
        let mut k: usize = 0;
        proof {
            assert(self.layers@.take(0) =~= Seq::<BertLayer>::empty());
            assert(self.layers@.take(self.layers@.len() as int) =~= self.layers@);
        }
        while k < self.layers.len()
            invariant
                g0 == *old(g),
                xs == hidden_states.shape_of(g0),
                g.wf(),
                g0.extended_by(*g),
                self.wf_in(g0),
                cur.valid(*g),
                k <= self.layers@.len(),
                self.layers@.take(self.layers@.len() as int) == self.layers@,
                encoder_out(self.layers@.take(k as int), xs) == Some(cur.shape_of(*g)),
            decreases self.layers.len() - k,
        {
            let ghost gk = *g;
            proof {
                self.layers@[k as int].lemma_wf_in_shapes(g0);
                lemma_shapes_hold_extend(g0, gk, self.layers@[k as int].shapes());
                self.layers@[k as int].lemma_wf_in_shapes(gk);
                assert(self.layers@.take(k + 1).drop_last() =~= self.layers@.take(k as int));
            }
            match self.layers[k].forward_layer(g, &cur) {
                Ok(t) => {
                    cur = t;
                },
                Err(e) => {
                    proof {
                        g0.lemma_extended_trans(gk, *g);
                        lemma_encoder_none_extends(self.layers@, (k + 1) as int, xs);
                    }
                    return Err(e);
                },
            }
            proof {
                g0.lemma_extended_trans(gk, *g);
            }
            k = k + 1;
        }
        assert(self.layers@.take(k as int) == self.layers@);
        Ok(cur)
    }

    /// The learnable tensors of every layer, in order.
    pub fn parameters(&self) -> (r: Vec<Tensor>)
        ensures
            r@ == self.param_seq(),
            forall|g: Graph| #[trigger] self.wf_in(g) ==> forall|k: int| 0 <= k < r@.len() ==> (#[trigger] r@[k]).valid(g),
    {
        let mut params: Vec<Tensor> = Vec::new();
        let ghost base_layers = params@;
        proof {
            assert(crate::nn::module::seq_params(self.layers@.take(0)) =~= Seq::<Tensor>::empty());
        }
        let mut i: usize = 0;
        while i < self.layers.len()
            invariant
                i <= self.layers@.len(),
                params@ == base_layers + crate::nn::module::seq_params(self.layers@.take(i as int)),
                forall|g: Graph| #[trigger] self.wf_in(g) ==> forall|k: int| 0 <= k < params@.len() ==> (#[trigger] params@[k]).valid(g),
            decreases self.layers.len() - i,
        {
            let mut p = self.layers[i].parameters();
            proof {
                crate::nn::module::lemma_seq_params_step(self.layers@, i as int);
            }
            let ghost before = params@;
            let ghost l = self.layers@[i as int];
            params.append(&mut p);
            proof {
                assert forall|g: Graph| #[trigger] self.wf_in(g) implies forall|k: int| 0 <= k < params@.len() ==> (#[trigger] params@[k]).valid(g) by {
                    assert(l.wf_in(g));
                    l.lemma_wf_in_shapes(g);
                    lemma_tensors_valid(g, l.shapes());
                    assert forall|k: int| 0 <= k < params@.len() implies (#[trigger] params@[k]).valid(g) by {
                        if k >= before.len() {
                            assert(params@[k] == tensors_of(l.shapes())[k - before.len()]);
                        } else {
                            assert(params@[k] == before[k]);
                        }
                    }
                }
            }
            i = i + 1;
        }
        proof {
            assert(self.layers@.take(self.layers@.len() as int) =~= self.layers@);
        }
        proof {
            assert(params@ =~= self.param_seq());
        }
        params
    }
}

impl Module for BertEncoder {
    open spec fn mode_is(&self, training: bool) -> bool {
        true
    }

    open spec fn param_list(&self) -> Seq<Tensor> {
        self.param_seq()
    }

    open spec fn tensor_shapes(&self) -> Seq<(Tensor, Seq<usize>)> {
        seq_shapes(self.layers@)
    }

    open spec fn buffer_shapes(&self) -> Seq<(usize, Seq<usize>)> {
        Seq::empty()
    }

    /// Applies the layers to `input` (see [`BertEncoder::forward_encoder`]).
    fn forward(&self, g: &mut Graph, input: &Tensor) -> (r: Result<Tensor, EngineError>)
        ensures
            r is Ok <==> encoder_out(self.layers@, input.shape_of(*old(g))) is Some,
            r matches Ok(t) ==> encoder_out(self.layers@, input.shape_of(*old(g))) == Some(t.shape_of(*final(g))),
    {
        proof {
            lemma_seq_shapes_hold(*g, self.layers@);
            assert forall|k: int| 0 <= k < self.layers@.len() implies (#[trigger] self.layers@[k]).wf_in(*g) by {
                assert(shapes_hold(*g, self.layers@[k].tensor_shapes()));
                self.layers@[k].lemma_wf_in_shapes(*g);
            }
        }
        self.forward_encoder(g, input)
    }

    fn parameters(&self) -> (r: Vec<Tensor>) {
        crate::nn::module::seq_parameters(&self.layers)
    }

    /// Nothing switches between training and evaluation.
    fn train(&mut self) {
    }

    /// Nothing switches between training and evaluation.
    fn eval(&mut self) {
    }
}

/// The base BERT model: embeddings, encoder and pooler.
pub struct BertModel {
    pub embeddings: BertEmbeddings,
    pub encoder: BertEncoder,
    pub pooler: BertPooler,
    pub config: BertConfig,
}

/// Segment ids as a sequence, if given.
pub open spec fn types_view(types: Option<&[usize]>) -> Option<Seq<usize>> {
    match types {
        Some(t) => Some(t@),
        None => None,
    }
}

impl BertModel {
    /// The tensors that `parameters` gives, in order.
    pub open spec fn param_seq(&self) -> Seq<Tensor> {
        seq![self.embeddings.word_embeddings.weight, self.embeddings.position_embeddings.weight, self.embeddings.token_type_embeddings.weight,
            self.embeddings.layer_norm.weight, self.embeddings.layer_norm.bias] + self.encoder.param_seq() + self.pooler.dense.param_seq()
    }
}

impl BertModel {
    /// Every part lives in `g`.
    pub open spec fn wf_in(&self, g: Graph) -> bool {
        &&& self.embeddings.wf_in(g)
        &&& self.encoder.wf_in(g)
        &&& self.pooler.dense.wf_in(g)
    }

    /// Shape of the token representations.
    pub open spec fn seq_shape(&self, batch: usize, seq_len: usize) -> Seq<usize> {
        encoder_out(self.encoder.layers@, self.embeddings.sum_shape(batch, seq_len))->Some_0
    }

    /// The model accepts `ids` as `batch` sequences of `seq_len` with segments `types`.
    pub open spec fn accepts(&self, ids: Seq<usize>, batch: usize, seq_len: usize, types: Option<Seq<usize>>) -> bool {
        &&& self.embeddings.accepts(ids, batch, seq_len, types)
        &&& encoder_out(self.encoder.layers@, self.embeddings.sum_shape(batch, seq_len)) is Some
        &&& self.pooler.accepts(self.seq_shape(batch, seq_len))
    }

    /// The model as `new` builds it for width `d`: every embedding of width `d`, consistent
    /// layers of width `d`, a `d x d` pooler.
    pub open spec fn consistent(&self) -> bool {
        let d = self.config.d_model;
        &&& self.embeddings.word_embeddings.embedding_dim == d
        &&& self.embeddings.position_embeddings.embedding_dim == d
        &&& self.embeddings.token_type_embeddings.embedding_dim == d
        &&& self.embeddings.layer_norm.normalized_dim == d
        &&& forall|k: int| 0 <= k < self.encoder.layers@.len() ==> (#[trigger] self.encoder.layers@[k]).consistent()
            && self.encoder.layers@[k].attention.d_model == d
        &&& self.pooler.dense.in_features == d
        &&& self.pooler.dense.out_features == d
    }

    /// A model for `config`.
    pub fn new(g: &mut Graph, config: BertConfig) -> (r: BertModel)
        requires
            old(g).wf(),
            config.num_heads > 0,
            config.d_model % config.num_heads == 0,
        ensures
            final(g).wf(),
            old(g).extended_by(*final(g)),
            r.wf_in(*final(g)),
            r.consistent(),
            r.config == config,
            r.embeddings.config == config,
            r.encoder.layers@.len() == config.num_layers,
    {
        let ghost g0 = *g;
        let embeddings = BertEmbeddings::new(g, &config);
        let ghost g1 = *g;
        let encoder = BertEncoder::new(g, &config);
        let ghost g2 = *g;
        let pooler = BertPooler::new(g, config.d_model);
        proof {
            g0.lemma_extended_trans(g1, g2);
            g0.lemma_extended_trans(g2, *g);
            g1.lemma_extended_trans(g2, *g);
            assert(g.nodes@[embeddings.word_embeddings.weight.id as int] == g1.nodes@[embeddings.word_embeddings.weight.id as int]);
            assert(g.nodes@[embeddings.position_embeddings.weight.id as int] == g1.nodes@[embeddings.position_embeddings.weight.id as int]);
            assert(g.nodes@[embeddings.token_type_embeddings.weight.id as int] == g1.nodes@[embeddings.token_type_embeddings.weight.id as int]);
            assert(g.nodes@[embeddings.layer_norm.weight.id as int] == g1.nodes@[embeddings.layer_norm.weight.id as int]);
            assert(g.nodes@[embeddings.layer_norm.bias.id as int] == g1.nodes@[embeddings.layer_norm.bias.id as int]);
            assert forall|k: int| 0 <= k < encoder.layers@.len() implies (#[trigger] encoder.layers@[k]).wf_in(*g) by {
                encoder.layers@[k].lemma_wf_in_shapes(g2);
                lemma_shapes_hold_extend(g2, *g, encoder.layers@[k].shapes());
                encoder.layers@[k].lemma_wf_in_shapes(*g);
            }
        }
        BertModel { embeddings, encoder, pooler, config }
    }

    /// Token representations and the pooled `[CLS]` representation of `input_ids`, `batch`
    /// sequences of `seq_len` tokens, with optional segment ids. Succeeds exactly when the
    /// model accepts them.
    pub fn forward_bert(&self, g: &mut Graph, input_ids: &[usize], batch: usize, seq_len: usize, token_type_ids: Option<&[usize]>) -> (r: Result<(Tensor, Tensor), EngineError>)
        requires
            old(g).wf(),
            self.wf_in(*old(g)),
            input_ids@.len() == batch * seq_len,
            token_type_ids matches Some(t) ==> t@.len() == batch * seq_len,
        ensures
            final(g).wf(),
            old(g).extended_by(*final(g)),
            r is Ok <==> self.accepts(input_ids@, batch, seq_len, types_view(token_type_ids)),
            r matches Ok((sq, pooled)) ==> sq.valid(*final(g)) && pooled.valid(*final(g))
                && sq.shape_of(*final(g)) == self.seq_shape(batch, seq_len)
                && pooled.shape_of(*final(g)) == seq![self.seq_shape(batch, seq_len)[0], self.pooler.dense.out_features],
    {
        let ghost g0 = *g;
        let embeds = self.embeddings.forward_embeddings(g, input_ids, batch, seq_len, token_type_ids)?;
        let ghost g1 = *g;
        proof {
            assert forall|k: int| 0 <= k < self.encoder.layers@.len() implies (#[trigger] self.encoder.layers@[k]).wf_in(g1) by {
                self.encoder.layers@[k].lemma_wf_in_shapes(g0);
                lemma_shapes_hold_extend(g0, g1, self.encoder.layers@[k].shapes());
                self.encoder.layers@[k].lemma_wf_in_shapes(g1);
            }
        }
        let seq_out = match self.encoder.forward_encoder(g, &embeds) {
            Ok(t) => t,
            Err(e) => {
                proof {
                    g0.lemma_extended_trans(g1, *g);
                }
                return Err(e);
            },
        };
        let ghost g2 = *g;
        proof {
            g0.lemma_extended_trans(g1, g2);
            self.pooler.dense.lemma_wf_in_shapes(g0);
            lemma_shapes_hold_extend(g0, g2, self.pooler.dense.shapes());
            self.pooler.dense.lemma_wf_in_shapes(g2);
        }
        let pooled = match self.pooler.forward_pooler(g, &seq_out) {
            Ok(t) => t,
            Err(e) => {
                proof {
                    g0.lemma_extended_trans(g2, *g);
                }
                return Err(e);
            },
        };
        proof {
            g0.lemma_extended_trans(g2, *g);
            assert(g.nodes@[seq_out.id as int] == g2.nodes@[seq_out.id as int]);
        }
        Ok((seq_out, pooled))
    }

    /// The learnable tensors: embeddings, encoder, pooler.
    pub fn parameters(&self) -> (r: Vec<Tensor>)
        ensures
            r@ == self.param_seq(),
            forall|g: Graph| #[trigger] self.wf_in(g) ==> forall|k: int| 0 <= k < r@.len() ==> (#[trigger] r@[k]).valid(g),
    {
        let mut params = self.embeddings.parameters();
        let ghost p0 = params@;
        let mut e = self.encoder.parameters();
        params.append(&mut e);
        let ghost p1 = params@;
        let mut d = self.pooler.dense.parameters();
        params.append(&mut d);
        proof {
            assert forall|g: Graph| #[trigger] self.wf_in(g) implies forall|k: int| 0 <= k < params@.len() ==> (#[trigger] params@[k]).valid(g) by {
                assert(self.encoder.wf_in(g));
                self.pooler.dense.lemma_wf_in_shapes(g);
                assert forall|k: int| 0 <= k < params@.len() implies (#[trigger] params@[k]).valid(g) by {
                    if k < p0.len() {
                        assert(params@[k] == p1[k] && p1[k] == p0[k]);
                    } else if k < p1.len() {
                        assert(params@[k] == p1[k]);
                    } else {
                        assert(params@[k] == self.pooler.dense.param_seq()[k - p1.len()]);
                    }
                }
            }
        }
        proof {
            assert(params@ =~= self.param_seq());
        }
        params
    }
}

/// A consistent BERT model gives token representations `[batch, seq_len, d_model]` and pooled
/// representations `[batch, d_model]` for every input it accepts.
pub proof fn lemma_bert_output_shapes(m: BertModel, ids: Seq<usize>, batch: usize, seq_len: usize, types: Option<Seq<usize>>)
    requires
        m.consistent(),
        m.accepts(ids, batch, seq_len, types),
    ensures
        m.seq_shape(batch, seq_len) == seq![batch, seq_len, m.config.d_model],
        seq![m.seq_shape(batch, seq_len)[0], m.pooler.dense.out_features] == seq![batch, m.config.d_model],
{
    let x = seq![batch, seq_len, m.config.d_model];
    lemma_broadcast_self(x);
    assert(m.embeddings.sum_shape(batch, seq_len) == x);
    lemma_encoder_preserves_shape(m.encoder.layers@, x);
}

/// BERT with a span head for extractive question answering: start and end logits per token.
pub struct BertForQuestionAnswering {
    pub bert: BertModel,
    pub qa_outputs: Linear,
}

impl BertForQuestionAnswering {
    /// The tensors that `parameters` gives, in order.
    pub open spec fn param_seq(&self) -> Seq<Tensor> {
        self.bert.param_seq() + self.qa_outputs.param_seq()
    }
}

impl BertForQuestionAnswering {
    /// Every part lives in `g`.
    pub open spec fn wf_in(&self, g: Graph) -> bool {
        self.bert.wf_in(g) && self.qa_outputs.wf_in(g)
    }

    /// The model accepts the input and the span head accepts the token representations.
    pub open spec fn accepts(&self, ids: Seq<usize>, batch: usize, seq_len: usize, types: Option<Seq<usize>>) -> bool {
        let y = self.bert.seq_shape(batch, seq_len);
        &&& self.bert.accepts(ids, batch, seq_len, types)
        &&& self.qa_outputs.accepts(y)
        &&& 2 <= self.qa_outputs.out_features
        &&& reshape_ok(seq![y[0], y[1], 1usize], seq![y[0], y[1]])
    }

    /// A BERT model for `config` with a `d_model -> 2` span head.
    pub fn new(g: &mut Graph, config: BertConfig) -> (r: BertForQuestionAnswering)
        requires
            old(g).wf(),
            config.num_heads > 0,
            config.d_model % config.num_heads == 0,
        ensures
            final(g).wf(),
            old(g).extended_by(*final(g)),
            r.wf_in(*final(g)),
            r.bert.consistent(),
            r.bert.config == config,
            r.qa_outputs.in_features == config.d_model,
            r.qa_outputs.out_features == 2,
    {
        let ghost g0 = *g;
        let bert = BertModel::new(g, config);
        let ghost g1 = *g;
        let qa_outputs = Linear::new(g, config.d_model, 2);
        proof {
            g0.lemma_extended_trans(g1, *g);
            lemma_bert_extend(bert, g1, *g);
        }
        BertForQuestionAnswering { bert, qa_outputs }
    }

    /// Start and end logits, each `[batch, seq_len]` for a consistent model; succeeds exactly
    /// when the model and the span head accept the input.
    pub fn forward_qa(&self, g: &mut Graph, input_ids: &[usize], batch: usize, seq_len: usize, token_type_ids: Option<&[usize]>) -> (r: Result<(Tensor, Tensor), EngineError>)
        requires
            old(g).wf(),
            self.wf_in(*old(g)),
            input_ids@.len() == batch * seq_len,
            token_type_ids matches Some(t) ==> t@.len() == batch * seq_len,
        ensures
            final(g).wf(),
            old(g).extended_by(*final(g)),
            r is Ok <==> self.accepts(input_ids@, batch, seq_len, types_view(token_type_ids)),
            r matches Ok((start, end)) ==> start.valid(*final(g)) && end.valid(*final(g))
                && start.shape_of(*final(g)) == seq![self.bert.seq_shape(batch, seq_len)[0], self.bert.seq_shape(batch, seq_len)[1]]
                && end.shape_of(*final(g)) == seq![self.bert.seq_shape(batch, seq_len)[0], self.bert.seq_shape(batch, seq_len)[1]],
    {
        let ghost g0 = *g;
        let (seq_out, _) = self.bert.forward_bert(g, input_ids, batch, seq_len, token_type_ids)?;
        let ghost g1 = *g;
        let ghost y = seq_out.shape_of(g1);
        let shape = seq_out.shape(g);
        let (b, t) = (shape[0], shape[1]);
        proof {
            self.qa_outputs.lemma_wf_in_shapes(g0);
            lemma_shapes_hold_extend(g0, g1, self.qa_outputs.shapes());
            self.qa_outputs.lemma_wf_in_shapes(g1);
        }
        let logits = match self.qa_outputs.forward_linear(g, &seq_out) {
            Ok(v) => v,
            Err(e) => {
                proof {
                    g0.lemma_extended_trans(g1, *g);
                }
                return Err(e);
            },
        };
        let ghost g2 = *g;
        proof {
            g0.lemma_extended_trans(g1, g2);
        }
        let start_slice = match logits.slice(g, 2, 0, 1) {
            Ok(v) => v,
            Err(e) => {
                return Err(e);
            },
        };
        let ghost g3 = *g;
        proof {
            g0.lemma_extended_trans(g2, g3);
        }
        let end_slice = match logits.slice(g, 2, 1, 2) {
            Ok(v) => v,
            Err(e) => {
                return Err(e);
            },
        };
        let ghost g4 = *g;
        proof {
            g0.lemma_extended_trans(g3, g4);
            assert(slice_spec(logits.shape_of(g2), 2, 0, 1) =~= seq![y[0], y[1], 1usize]);
            assert(slice_spec(logits.shape_of(g2), 2, 1, 2) =~= seq![y[0], y[1], 1usize]);
        }
        let start_logits = match start_slice.reshape(g, shape2(b, t).as_slice()) {
            Ok(v) => v,
            Err(e) => {
                return Err(e);
            },
        };
        let ghost g5 = *g;
        proof {
            g0.lemma_extended_trans(g4, g5);
        }
        let end_logits = match end_slice.reshape(g, shape2(b, t).as_slice()) {
            Ok(v) => v,
            Err(e) => {
                return Err(e);
            },
        };
        proof {
            g0.lemma_extended_trans(g5, *g);
            assert(g.nodes@[start_logits.id as int] == g5.nodes@[start_logits.id as int]);
        }
        Ok((start_logits, end_logits))
    }

    /// The learnable tensors: the model's, then the span head's.
    pub fn parameters(&self) -> (r: Vec<Tensor>)
        ensures
            r@ == self.param_seq(),
            forall|g: Graph| #[trigger] self.wf_in(g) ==> forall|k: int| 0 <= k < r@.len() ==> (#[trigger] r@[k]).valid(g),
    {
        let mut params = self.bert.parameters();
        let ghost p0 = params@;
        let mut q = self.qa_outputs.parameters();
        params.append(&mut q);
        proof {
            assert forall|g: Graph| #[trigger] self.wf_in(g) implies forall|k: int| 0 <= k < params@.len() ==> (#[trigger] params@[k]).valid(g) by {
                assert(self.bert.wf_in(g));
                assert forall|k: int| 0 <= k < params@.len() implies (#[trigger] params@[k]).valid(g) by {
                    if k < p0.len() {
                        assert(params@[k] == p0[k]);
                    } else {
                        assert(params@[k] == self.qa_outputs.param_seq()[k - p0.len()]);
                    }
                }
            }
        }
        proof {
            assert(params@ =~= self.param_seq());
        }
        params
    }
}

/// A BERT model that lives in `g`, after more recording.
proof fn lemma_bert_extend(m: BertModel, g1: Graph, g2: Graph)
    requires
        m.wf_in(g1),
        g1.extended_by(g2),
    ensures
        m.wf_in(g2),
{
    assert(g2.nodes@[m.embeddings.word_embeddings.weight.id as int] == g1.nodes@[m.embeddings.word_embeddings.weight.id as int]);
    assert(g2.nodes@[m.embeddings.position_embeddings.weight.id as int] == g1.nodes@[m.embeddings.position_embeddings.weight.id as int]);
    assert(g2.nodes@[m.embeddings.token_type_embeddings.weight.id as int] == g1.nodes@[m.embeddings.token_type_embeddings.weight.id as int]);
    assert(g2.nodes@[m.embeddings.layer_norm.weight.id as int] == g1.nodes@[m.embeddings.layer_norm.weight.id as int]);
    assert(g2.nodes@[m.embeddings.layer_norm.bias.id as int] == g1.nodes@[m.embeddings.layer_norm.bias.id as int]);
    assert forall|k: int| 0 <= k < m.encoder.layers@.len() implies (#[trigger] m.encoder.layers@[k]).wf_in(g2) by {
        m.encoder.layers@[k].lemma_wf_in_shapes(g1);
        lemma_shapes_hold_extend(g1, g2, m.encoder.layers@[k].shapes());
        m.encoder.layers@[k].lemma_wf_in_shapes(g2);
    }
    m.pooler.dense.lemma_wf_in_shapes(g1);
    lemma_shapes_hold_extend(g1, g2, m.pooler.dense.shapes());
    m.pooler.dense.lemma_wf_in_shapes(g2);
}

/// BERT used for sentence embeddings: the pooled `[CLS]` representation.
pub struct BertForSequenceEmbedding {
    pub bert: BertModel,
}

impl BertForSequenceEmbedding {
    /// A BERT model for `config`.
    pub fn new(g: &mut Graph, config: BertConfig) -> (r: BertForSequenceEmbedding)
        requires
            old(g).wf(),
            config.num_heads > 0,
            config.d_model % config.num_heads == 0,
        ensures
            final(g).wf(),
            old(g).extended_by(*final(g)),
            r.bert.wf_in(*final(g)),
            r.bert.consistent(),
            r.bert.config == config,
    {
        BertForSequenceEmbedding { bert: BertModel::new(g, config) }
    }

    /// Pooled sentence embeddings, `[batch, d_model]` for a consistent model; succeeds exactly
    /// when the model accepts the input.
    pub fn forward_embedding(&self, g: &mut Graph, input_ids: &[usize], batch: usize, seq_len: usize, token_type_ids: Option<&[usize]>) -> (r: Result<Tensor, EngineError>)
        requires
            old(g).wf(),
            self.bert.wf_in(*old(g)),
            input_ids@.len() == batch * seq_len,
            token_type_ids matches Some(t) ==> t@.len() == batch * seq_len,
        ensures
            final(g).wf(),
            old(g).extended_by(*final(g)),
            r is Ok <==> self.bert.accepts(input_ids@, batch, seq_len, types_view(token_type_ids)),
            r matches Ok(p) ==> p.valid(*final(g))
                && p.shape_of(*final(g)) == seq![self.bert.seq_shape(batch, seq_len)[0], self.bert.pooler.dense.out_features],
    {
        let (_, pooled) = self.bert.forward_bert(g, input_ids, batch, seq_len, token_type_ids)?;
        Ok(pooled)
    }
}

} // verus!
