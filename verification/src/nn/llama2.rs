//! LLaMA-2 style decoder: configuration, decoder block (RMSNorm, grouped-query attention with
//! an optional key/value cache, SwiGLU) and the language model over a stack of blocks.

use vstd::prelude::*;
use crate::autograd::node::{Graph, LeafInit, Op};
use crate::autograd::tensor::{Tensor, lemma_reads_extend, lemma_reads_trans, reads, reshape_ok};
use crate::error::EngineError;
use crate::nn::kv_cache::KVCache;
use crate::nn::linear::{Linear, linear_out};
use crate::nn::llama::{
    GroupedQueryAttention, SwiGLU, attended_kv, attends_over, causal_mask_from, lemma_attends_over_extend, lemma_swiglu_result_extend,
    slot_shapes, swiglu_result,
};
use crate::nn::module::{Module, lemma_shapes_hold_concat, lemma_shapes_hold_extend, lemma_tensors_valid, shapes_hold, tensors_of};
use crate::nn::norm::RMSNorm;
use crate::shape::{broadcast_spec, broadcastable, slice_spec, squeeze_spec};

verus! {

/// Bit pattern of the `f32` `10000.0`, the default rotary base.
pub const ROPE_THETA_BITS: u32 = 0x461c_4000;

/// Hyperparameters of a LLaMA-2 style model; `norm_eps_bits` and `rope_theta_bits` are the
/// bit patterns of the `f32` normalization epsilon and rotary base.
#[derive(Clone, Copy, PartialEq, Eq, Structural)]
pub struct LlamaConfig {
    pub vocab_size: usize,
    pub d_model: usize,
    pub hidden_dim: usize,
    pub num_heads: usize,
    pub num_kv_heads: usize,
    pub num_layers: usize,
    pub max_seq_len: usize,
    pub norm_eps_bits: u32,
    pub rope_theta_bits: u32,
}

impl LlamaConfig {
    /// A small model for quick experiments: width 64, 4 query heads sharing 2 key/value heads,
    /// a feed-forward width of `8/3` of the model width rounded up to a multiple of 32 (192),
    /// 2 layers, `eps = 1e-6` and rotary base 10000.
    pub fn mini(vocab_size: usize, max_seq_len: usize) -> (r: LlamaConfig)
        ensures
            r == (LlamaConfig {
                vocab_size,
                d_model: 64,
                hidden_dim: 192,
                num_heads: 4,
                num_kv_heads: 2,
                num_layers: 2,
                max_seq_len,
                norm_eps_bits: crate::nn::norm::EPS_1E6_BITS,
                rope_theta_bits: ROPE_THETA_BITS,
            }),
    {
        let d_model: usize = 64;
        let raw_hidden: usize = d_model * 8 / 3;
        let hidden_dim: usize = (raw_hidden + 31) / 32 * 32;
        LlamaConfig {
            vocab_size,
            d_model,
            hidden_dim,
            num_heads: 4,
            num_kv_heads: 2,
            num_layers: 2,
            max_seq_len,
            norm_eps_bits: crate::nn::norm::EPS_1E6_BITS,
            rope_theta_bits: ROPE_THETA_BITS,
        }
    }

    /// The head counts split the model width as the attention requires.
    pub open spec fn heads_ok(&self) -> bool {
        &&& self.num_heads > 0
        &&& self.num_kv_heads > 0
        &&& self.d_model % self.num_heads == 0
        &&& self.num_heads % self.num_kv_heads == 0
        &&& (self.d_model / self.num_heads) % 2 == 0
    }
}

/// One decoder layer: `x + attention(attn_norm(x))`, then that plus `ffn(ffn_norm(.))`.
#[derive(Clone, Copy)]
pub struct Llama2Block {
    pub attn_norm: RMSNorm,
    pub attn: GroupedQueryAttention,
    pub ffn_norm: RMSNorm,
    pub ffn: SwiGLU,
}

/// The nodes `n1`, `n2` and `q` witness that node `o` of `g` is what block `b` makes of node `x`
/// over keys `ka` and values `va` (see `llama_block_result`).
pub open spec fn llama_block_witness(g: Graph, o: int, b: Llama2Block, x: int, mask: Option<LeafInit>, ka: int, va: int,
    n1: int, n2: int, q: int) -> bool {
    let ins = g.nodes@[o].inputs@;
    let h = ins[0] as int;
    let hin = g.nodes@[h].inputs@;
    &&& g.nodes@[o].op == Op::Add && ins.len() == 2
    &&& g.nodes@[h].op == Op::Add && hin.len() == 2 && hin[0] == x
    &&& g.nodes@[n1].op == Op::Mul && g.nodes@[n1].inputs@[1] == b.attn_norm.weight.id && reads(g, n1, x)
    &&& attends_over(g, hin[1] as int, q, ka, va, b.attn.num_queries_per_kv, mask)
    &&& reads(g, q, n1) && reads(g, q, b.attn.q_proj.weight.id as int)
    &&& g.nodes@[n2].op == Op::Mul && g.nodes@[n2].inputs@[1] == b.ffn_norm.weight.id && reads(g, n2, h)
    &&& swiglu_result(g, ins[1] as int, b.ffn, n2)
}

/// Node `o` of `g` is what block `b` makes of node `x`: the sum of the attention residual
/// `h = x + attention(n1)`, where `n1` is the first normalization of `x` and the attention's
/// queries read `n1` and attend, with `mask` on the scores, over keys `ka` and values `va`, and
/// of the feed-forward network applied to `n2`, the second normalization of `h`.
pub open spec fn llama_block_result(g: Graph, o: int, b: Llama2Block, x: int, mask: Option<LeafInit>, ka: int, va: int) -> bool {
    exists|n1: int, n2: int, q: int| #[trigger] llama_block_witness(g, o, b, x, mask, ka, va, n1, n2, q)
}

impl Llama2Block {
    /// Every part lives in `g` with its expected shapes.
    pub open spec fn wf_in(&self, g: Graph) -> bool {
        &&& self.attn_norm.wf_in(g)
        &&& self.attn.wf_in(g)
        &&& self.ffn_norm.wf_in(g)
        &&& self.ffn.wf_in(g)
    }

    /// The block's tensors with their expected shapes.
    pub open spec fn shapes(&self) -> Seq<(Tensor, Seq<usize>)> {
        seq![(self.attn_norm.weight, seq![self.attn_norm.normalized_dim])] + self.attn.shapes()
            + seq![(self.ffn_norm.weight, seq![self.ffn_norm.normalized_dim])] + self.ffn.shapes()
    }

    /// `wf_in` says the same as the list of expected shapes.
    pub proof fn lemma_wf_in_shapes(&self, g: Graph)
        ensures
            self.wf_in(g) <==> shapes_hold(g, self.shapes()),
    {
        let a = seq![(self.attn_norm.weight, seq![self.attn_norm.normalized_dim])];
        let b = self.attn.shapes();
        let c = seq![(self.ffn_norm.weight, seq![self.ffn_norm.normalized_dim])];
        let d = self.ffn.shapes();
        lemma_shapes_hold_concat(g, a + b + c, d);
        lemma_shapes_hold_concat(g, a + b, c);
        lemma_shapes_hold_concat(g, a, b);
        self.attn.lemma_wf_in_shapes(g);
        self.ffn.lemma_wf_in_shapes(g);
        assert(a[0].0 == self.attn_norm.weight);
        assert(c[0].0 == self.ffn_norm.weight);
    }

    /// Output shape for input of shape `x`, a cache of shapes `cache` and positions from
    /// `start_pos`; `None` where the block refuses.
    pub open spec fn block_out(&self, x: Seq<usize>, cache: Option<(Seq<usize>, Seq<usize>)>, start_pos: usize) -> Option<Seq<usize>> {
        if !self.attn_norm.accepts(x) {
            None
        } else {
            match self.attn.gqa_out(x, cache, start_pos) {
                None => None,
                Some(a) => if !broadcastable(x, a) {
                    None
                } else {
                    let r1 = broadcast_spec(x, a);
                    if self.ffn_norm.accepts(r1) && self.ffn.accepts(r1) && broadcastable(r1, self.ffn.out_shape(r1)) {
                        Some(broadcast_spec(r1, self.ffn.out_shape(r1)))
                    } else {
                        None
                    }
                },
            }
        }
    }

    /// Shapes the cache slot holds after the block read input of shape `x` at positions from
    /// `start_pos` with a slot of shapes `cache`: the attended keys and values when the
    /// attention got as far as the cache, else the slot's shapes.
    pub open spec fn slot_after(&self, x: Seq<usize>, cache: (Seq<usize>, Seq<usize>), start_pos: usize) -> Option<(Seq<usize>, Seq<usize>)> {
        let kv = seq![x[0], self.attn.num_kv_heads, x[1], self.attn.head_dim];
        if self.attn_norm.accepts(x) && self.attn.prefix_ok(x, start_pos) && attended_kv(Some(cache), kv) is Some {
            attended_kv(Some(cache), kv)
        } else {
            Some(cache)
        }
    }

    /// A block from `config`.
    pub fn new(g: &mut Graph, config: &LlamaConfig) -> (r: Llama2Block)
        requires
            old(g).wf(),
            config.heads_ok(),
        ensures
            final(g).wf(),
            old(g).extended_by(*final(g)),
            r.wf_in(*final(g)),
            r.attn_norm.normalized_dim == config.d_model,
            r.attn_norm.eps_bits == config.norm_eps_bits,
            r.ffn_norm.normalized_dim == config.d_model,
            r.ffn_norm.eps_bits == config.norm_eps_bits,
            r.attn.num_heads == config.num_heads,
            r.attn.num_kv_heads == config.num_kv_heads,
            r.attn.num_heads * r.attn.head_dim == config.d_model,
            r.attn.rope.max_seq_len == config.max_seq_len,
            r.ffn.gate_proj.out_features == config.hidden_dim,
    {
        let ghost g0 = *g;
        let attn_norm = RMSNorm::with_eps(g, config.d_model, config.norm_eps_bits);
        let ghost g1 = *g;
        let attn = GroupedQueryAttention::new(g, config.d_model, config.num_heads, config.num_kv_heads, config.max_seq_len, config.rope_theta_bits);
        let ghost g2 = *g;
        let ffn_norm = RMSNorm::with_eps(g, config.d_model, config.norm_eps_bits);
        let ghost g3 = *g;
        let ffn = SwiGLU::new(g, config.d_model, config.hidden_dim);
        let r = Llama2Block { attn_norm, attn, ffn_norm, ffn };
        proof {
            g0.lemma_extended_trans(g1, g2);
            g0.lemma_extended_trans(g2, g3);
            g0.lemma_extended_trans(g3, *g);
            assert(g.nodes@[attn_norm.weight.id as int] == g1.nodes@[attn_norm.weight.id as int]);
            assert(g.nodes@[ffn_norm.weight.id as int] == g3.nodes@[ffn_norm.weight.id as int]);
            attn.lemma_wf_in_shapes(g2);
            lemma_shapes_hold_extend(g2, *g, attn.shapes());
            attn.lemma_wf_in_shapes(*g);
        }
        r
    }

    /// Applies the block to input whose positions start at `start_pos`, with an optional cache
    /// slot of this layer's keys and values. Succeeds exactly when the block accepts the
    /// shapes; the slot is updated as the attention updates it.
    pub fn forward_block_cached(&self, g: &mut Graph, x: &Tensor, start_pos: usize, cache: Option<&mut (Tensor, Tensor)>) -> (r: Result<Tensor, EngineError>)
        requires
            old(g).wf(),
            self.wf_in(*old(g)),
            x.valid(*old(g)),
            cache matches Some(slot) ==> slot.0.valid(*old(g)) && slot.1.valid(*old(g)),
            self.attn.num_heads * self.attn.head_dim <= usize::MAX,
        ensures
            final(g).wf(),
            old(g).extended_by(*final(g)),
            ({
                let cs = slot_shapes(*old(g), match cache { Some(slot) => Some(*slot), None => None });
                &&& r is Ok <==> self.block_out(x.shape_of(*old(g)), cs, start_pos) is Some
                &&& r matches Ok(t) ==> t.valid(*final(g)) && self.block_out(x.shape_of(*old(g)), cs, start_pos) == Some(t.shape_of(*final(g)))
            }),
            match cache {
                Some(slot) => final(slot).0.valid(*final(g)) && final(slot).1.valid(*final(g))
                    && Some((final(slot).0.shape_of(*final(g)), final(slot).1.shape_of(*final(g))))
                        == self.slot_after(x.shape_of(*old(g)), (slot.0.shape_of(*old(g)), slot.1.shape_of(*old(g))), start_pos),
                None => true,
            },
            r matches Ok(t) ==> exists|ka: int, va: int| #[trigger] llama_block_result(*final(g), t.id as int, *self, x.id as int,
                causal_mask_from(x.shape_of(*old(g))[1], start_pos), ka, va)
                && (cache matches Some(slot) ==> ka == final(slot).0.id && va == final(slot).1.id),
    {
        let ghost g0 = *g;
        let ghost xs = x.shape_of(*g);
        let ghost pre: Option<(Tensor, Tensor)> = match &cache {
            Some(slot) => Some(**slot),
            None => None,
        };
        let ghost cs = slot_shapes(*old(g), pre);
        let norm_x = match self.attn_norm.forward_norm(g, x) {
            Ok(t) => t,
            Err(e) => {
                return Err(e);
            },
        };
        let ghost g1 = *g;
        proof {
            self.attn.lemma_wf_in_shapes(g0);
            lemma_shapes_hold_extend(g0, g1, self.attn.shapes());
            self.attn.lemma_wf_in_shapes(g1);
            assert(slot_shapes(g1, pre) == cs) by {
                match pre {
                    Some(slot) => {
                        assert(g1.nodes@[slot.0.id as int] == g0.nodes@[slot.0.id as int]);
                        assert(g1.nodes@[slot.1.id as int] == g0.nodes@[slot.1.id as int]);
                    },
                    None => {},
                }
            }
        }
        let ghost cache_in = cache;
        let h_attn = match self.attn.forward_gqa_cached(g, &norm_x, start_pos, cache) {
            Ok(t) => t,
            Err(e) => {
                proof {
                    g0.lemma_extended_trans(g1, *g);
                }
                return Err(e);
            },
        };
        let ghost g2 = *g;
        proof {
            g0.lemma_extended_trans(g1, g2);
        }
        assert(g2.nodes@[x.id as int] == g0.nodes@[x.id as int]);
        let r1 = match x.add(g, &h_attn) {
            Ok(t) => t,
            Err(e) => {
                return Err(e);
            },
        };
        let ghost g3 = *g;
        proof {
            g0.lemma_extended_trans(g2, g3);
        }
        let norm2 = match self.ffn_norm.forward_norm(g, &r1) {
            Ok(t) => t,
            Err(e) => {
                proof {
                    g0.lemma_extended_trans(g3, *g);
                }
                return Err(e);
            },
        };
        let ghost g4 = *g;
        proof {
            g0.lemma_extended_trans(g3, g4);
            self.ffn.lemma_wf_in_shapes(g0);
            lemma_shapes_hold_extend(g0, g4, self.ffn.shapes());
            self.ffn.lemma_wf_in_shapes(g4);
        }
        let h_ffn = match self.ffn.forward_swiglu(g, &norm2) {
            Ok(t) => t,
            Err(e) => {
                proof {
                    g0.lemma_extended_trans(g4, *g);
                }
                return Err(e);
            },
        };
        let ghost g5 = *g;
        assert(g5.nodes@[r1.id as int] == g3.nodes@[r1.id as int]);
        let out = r1.add(g, &h_ffn);
        proof {
            g0.lemma_extended_trans(g4, g5);
            g0.lemma_extended_trans(g5, *g);
            if let Ok(o) = out {
                let gz = *g;
                let mask = causal_mask_from(norm_x.shape_of(g1)[1], start_pos);
                assert(norm_x.shape_of(g1)[1] == xs[1]);
                let (q, ka, va) = choose|q: int, ka: int, va: int| #[trigger] attends_over(g2, h_attn.id as int, q, ka, va,
                    self.attn.num_queries_per_kv, mask)
                    && reads(g2, q, norm_x.id as int) && reads(g2, q, self.attn.q_proj.weight.id as int)
                    && (cache_in matches Some(slot) ==> ka == final(slot).0.id && va == final(slot).1.id);
                g1.lemma_extended_trans(g2, gz);
                g2.lemma_extended_trans(g3, gz);
                g3.lemma_extended_trans(g4, gz);
                lemma_attends_over_extend(g2, gz, h_attn.id as int, q, ka, va, self.attn.num_queries_per_kv, mask);
                lemma_reads_extend(g2, gz, q, norm_x.id as int);
                lemma_reads_extend(g2, gz, q, self.attn.q_proj.weight.id as int);
                lemma_reads_extend(g1, gz, norm_x.id as int, x.id as int);
                lemma_reads_extend(g4, gz, norm2.id as int, r1.id as int);
                lemma_swiglu_result_extend(g5, gz, h_ffn.id as int, self.ffn, norm2.id as int);
                assert(gz.nodes@[norm_x.id as int] == g1.nodes@[norm_x.id as int]);
                assert(gz.nodes@[norm2.id as int] == g4.nodes@[norm2.id as int]);
                assert(gz.nodes@[r1.id as int] == g3.nodes@[r1.id as int]);
                assert(llama_block_witness(gz, o.id as int, *self, x.id as int, mask, ka, va, norm_x.id as int, norm2.id as int, q));
                assert(llama_block_result(gz, o.id as int, *self, x.id as int, causal_mask_from(xs[1], start_pos), ka, va));
            }
        }
        out
    }

    /// Applies the block without a cache.
    pub fn forward_block(&self, g: &mut Graph, x: &Tensor, start_pos: usize) -> (r: Result<Tensor, EngineError>)
        requires
            old(g).wf(),
            self.wf_in(*old(g)),
            x.valid(*old(g)),
            self.attn.num_heads * self.attn.head_dim <= usize::MAX,
        ensures
            final(g).wf(),
            old(g).extended_by(*final(g)),
            r is Ok <==> self.block_out(x.shape_of(*old(g)), None, start_pos) is Some,
            r matches Ok(t) ==> t.valid(*final(g)) && self.block_out(x.shape_of(*old(g)), None, start_pos) == Some(t.shape_of(*final(g))),
            r matches Ok(t) ==> exists|ka: int, va: int| #[trigger] llama_block_result(*final(g), t.id as int, *self, x.id as int,
                causal_mask_from(x.shape_of(*old(g))[1], start_pos), ka, va),
    {
        self.forward_block_cached(g, x, start_pos, None)
    }
}

impl Llama2Block {
    /// The block's learnable tensors.
    pub open spec fn param_seq(&self) -> Seq<Tensor> {
        seq![self.attn_norm.weight] + self.attn.param_seq() + seq![self.ffn_norm.weight] + self.ffn.param_seq()
    }

    /// The learnable tensors of a block that lives in `g` name nodes of `g`.
    pub proof fn lemma_params_valid(&self, g: Graph)
        requires
            self.wf_in(g),
        ensures
            forall|k: int| 0 <= k < self.param_seq().len() ==> (#[trigger] self.param_seq()[k]).valid(g),
    {
        let a = seq![self.attn_norm.weight];
        let b = self.attn.param_seq();
        let c = seq![self.ffn_norm.weight];
        let d = self.ffn.param_seq();
        let q = self.attn.q_proj.param_seq();
        let kk = self.attn.k_proj.param_seq();
        let v = self.attn.v_proj.param_seq();
        let o = self.attn.o_proj.param_seq();
        let f1 = self.ffn.gate_proj.param_seq();
        let f2 = self.ffn.up_proj.param_seq();
        let f3 = self.ffn.down_proj.param_seq();
        assert forall|k: int| 0 <= k < b.len() implies (#[trigger] b[k]).valid(g) by {
            if k < q.len() {
                assert(b[k] == q[k]);
            } else if k < q.len() + kk.len() {
                assert(b[k] == kk[k - q.len()]);
            } else if k < q.len() + kk.len() + v.len() {
                assert(b[k] == v[k - q.len() - kk.len()]);
            } else {
                assert(b[k] == o[k - q.len() - kk.len() - v.len()]);
            }
        }
        assert forall|k: int| 0 <= k < d.len() implies (#[trigger] d[k]).valid(g) by {
            if k < f1.len() {
                assert(d[k] == f1[k]);
            } else if k < f1.len() + f2.len() {
                assert(d[k] == f2[k - f1.len()]);
            } else {
                assert(d[k] == f3[k - f1.len() - f2.len()]);
            }
        }
        assert forall|k: int| 0 <= k < self.param_seq().len() implies (#[trigger] self.param_seq()[k]).valid(g) by {
            if k < 1 {
                assert(self.param_seq()[k] == self.attn_norm.weight);
            } else if k < 1 + b.len() {
                assert(self.param_seq()[k] == b[k - 1]);
            } else if k < 2 + b.len() {
                assert(self.param_seq()[k] == self.ffn_norm.weight);
            } else {
                assert(self.param_seq()[k] == d[k - 2 - b.len()]);
            }
        }
    }
}

impl Module for Llama2Block {
    open spec fn mode_is(&self, training: bool) -> bool {
        true
    }

    open spec fn param_list(&self) -> Seq<Tensor> {
        self.param_seq()
    }

    open spec fn tensor_shapes(&self) -> Seq<(Tensor, Seq<usize>)> {
        self.shapes()
    }

    open spec fn buffer_shapes(&self) -> Seq<(usize, Seq<usize>)> {
        Seq::empty()
    }

    /// The block without a cache from position 0; a head count and head size whose product
    /// overflows is refused.
    fn forward(&self, g: &mut Graph, input: &Tensor) -> (r: Result<Tensor, EngineError>)
        ensures
            r is Ok <==> self.attn.num_heads * self.attn.head_dim <= usize::MAX && self.block_out(input.shape_of(*old(g)), None, 0) is Some,
            r matches Ok(t) ==> self.block_out(input.shape_of(*old(g)), None, 0) == Some(t.shape_of(*final(g))),
            r matches Ok(t) ==> exists|ka: int, va: int| #[trigger] llama_block_result(*final(g), t.id as int, *self, input.id as int,
                causal_mask_from(input.shape_of(*old(g))[1], 0), ka, va),
    {
        proof {
            self.lemma_wf_in_shapes(*g);
        }
        if self.attn.num_heads.checked_mul(self.attn.head_dim).is_none() {
            return Err(EngineError::InvalidArgument("num_heads * head_dim overflows".to_string()));
        }
        self.forward_block(g, input, 0)
    }

    fn parameters(&self) -> (r: Vec<Tensor>)
        ensures
            r@ == self.param_seq(),
    {
        let mut params: Vec<Tensor> = Vec::new();
        params.push(self.attn_norm.weight);
        let mut a = self.attn.parameters();
        params.append(&mut a);
        params.push(self.ffn_norm.weight);
        let mut f = self.ffn.parameters();
        params.append(&mut f);
        assert(params@ =~= self.param_seq());
        proof {
            assert forall|g: Graph| #[trigger] shapes_hold(g, self.tensor_shapes()) implies forall|k: int| 0 <= k < params@.len() ==> (#[trigger] params@[k]).valid(g) by {
                self.lemma_wf_in_shapes(g);
                self.lemma_params_valid(g);
            }
        }
        params
    }

    /// Nothing switches between training and evaluation.
    fn train(&mut self) {
    }

    /// Nothing switches between training and evaluation.
    fn eval(&mut self) {
    }
}

/// Every filled slot of a cache names two nodes of `g`.
pub open spec fn cache_valid(g: Graph, slots: Seq<Option<(Tensor, Tensor)>>) -> bool {
    forall|i: int| 0 <= i < slots.len() ==> (#[trigger] slots[i] matches Some(p) ==> p.0.valid(g) && p.1.valid(g))
}

/// Shapes of the cache slot each of `n` layers reads: the layer's slot, if the cache has one
/// for it and it is filled.
pub open spec fn cache_shapes(g: Graph, slots: Seq<Option<(Tensor, Tensor)>>, n: nat) -> Seq<Option<(Seq<usize>, Seq<usize>)>> {
    Seq::new(n, |i: int| if i < slots.len() { slot_shapes(g, slots[i]) } else { None })
}

/// Shape after applying `layers` in order to input of shape `x` with the cache shapes
/// `caches` (one per layer) at positions from `start_pos`, if each layer accepts.
pub open spec fn layers_out(layers: Seq<Llama2Block>, x: Seq<usize>, caches: Seq<Option<(Seq<usize>, Seq<usize>)>>, start_pos: usize) -> Option<Seq<usize>>
    decreases layers.len(),
{
    if layers.len() == 0 {
        Some(x)
    } else {
        match layers_out(layers.drop_last(), x, caches, start_pos) {
            Some(y) => layers.last().block_out(y, caches[layers.len() - 1], start_pos),
            None => None,
        }
    }
}

/// Shapes a slot holds after `layer` read input of shape `x_in`: an empty slot stays empty.
pub open spec fn cache_step(layer: Llama2Block, x_in: Seq<usize>, before: Option<(Seq<usize>, Seq<usize>)>, start_pos: usize) -> Option<(Seq<usize>, Seq<usize>)> {
    match before {
        None => None,
        Some(p) => layer.slot_after(x_in, p, start_pos),
    }
}

/// Once a prefix of the layers refuses, the whole stack does.
pub proof fn lemma_layers_out_none_extends(layers: Seq<Llama2Block>, k: int, x: Seq<usize>, caches: Seq<Option<(Seq<usize>, Seq<usize>)>>, start_pos: usize)
    requires
        0 <= k <= layers.len(),
        layers_out(layers.take(k), x, caches, start_pos) is None,
    ensures
        layers_out(layers, x, caches, start_pos) is None,
    decreases layers.len() - k,
{
    if k < layers.len() {
        assert(layers.take(k + 1).drop_last() =~= layers.take(k));
        lemma_layers_out_none_extends(layers, k + 1, x, caches, start_pos);
    } else {
        assert(layers.take(k) =~= layers);
    }
}

/// LLaMA-2 style language model.
pub struct Llama2LM {
    pub tok_embeddings: crate::nn::embedding::Embedding,
    pub layers: Vec<Llama2Block>,
    pub norm: RMSNorm,
    pub lm_head: Linear,
    pub config: LlamaConfig,
}

impl Llama2LM {
    /// Every part lives in `g` with its expected shapes.
    pub open spec fn wf_in(&self, g: Graph) -> bool {
        &&& self.tok_embeddings.wf_in(g)
        &&& forall|k: int| 0 <= k < self.layers@.len() ==> (#[trigger] self.layers@[k]).wf_in(g)
        &&& self.norm.wf_in(g)
        &&& self.lm_head.wf_in(g)
    }

    /// Every layer's head count times head size fits in a `usize`.
    pub open spec fn heads_fit(&self) -> bool {
        forall|k: int| 0 <= k < self.layers@.len() ==> (#[trigger] self.layers@[k]).attn.num_heads * self.layers@[k].attn.head_dim <= usize::MAX
    }

    /// Shape of the embedded tokens.
    pub open spec fn embedded(&self, batch_size: usize, seq_len: usize) -> Seq<usize> {
        seq![batch_size, seq_len, self.config.d_model]
    }

    /// The model accepts `tokens` as `batch_size` sequences of `seq_len` at positions from
    /// `start_pos` with cache shapes `caches`: every token has an embedding, the embeddings
    /// reshape to the model width, the layers accept them, and the final norm and projection
    /// accept what the layers return.
    pub open spec fn forward_ok(&self, tokens: Seq<usize>, batch_size: usize, seq_len: usize, start_pos: usize, caches: Seq<Option<(Seq<usize>, Seq<usize>)>>) -> bool {
        let y = layers_out(self.layers@, self.embedded(batch_size, seq_len), caches, start_pos);
        &&& forall|i: int| 0 <= i < tokens.len() ==> #[trigger] tokens[i] < self.tok_embeddings.num_embeddings
        &&& reshape_ok(seq![tokens.len() as usize, self.tok_embeddings.embedding_dim], self.embedded(batch_size, seq_len))
        &&& y is Some
        &&& self.norm.accepts(y->Some_0)
        &&& self.lm_head.accepts(y->Some_0)
    }

    /// Shape of the logits when the model accepts its input.
    pub open spec fn logits_shape(&self, batch_size: usize, seq_len: usize, start_pos: usize, caches: Seq<Option<(Seq<usize>, Seq<usize>)>>) -> Seq<usize> {
        linear_out(layers_out(self.layers@, self.embedded(batch_size, seq_len), caches, start_pos)->Some_0, self.lm_head.out_features)
    }

    /// A model built from `config`.
    pub fn new(g: &mut Graph, config: LlamaConfig) -> (r: Llama2LM)
        requires
            old(g).wf(),
            config.heads_ok(),
        ensures
            final(g).wf(),
            old(g).extended_by(*final(g)),
            r.wf_in(*final(g)),
            r.heads_fit(),
            r.config == config,
            r.layers@.len() == config.num_layers,
            r.tok_embeddings.num_embeddings == config.vocab_size,
            r.tok_embeddings.embedding_dim == config.d_model,
            r.norm.normalized_dim == config.d_model,
            r.lm_head.in_features == config.d_model,
            r.lm_head.out_features == config.vocab_size,
            r.lm_head.bias is None,
    {
        let ghost g0 = *g;
        let mut layers: Vec<Llama2Block> = Vec::new();
        let mut k: usize = 0;
        while k < config.num_layers
            invariant
                g.wf(),
                g0.extended_by(*g),
                config.heads_ok(),
                k <= config.num_layers,
                layers@.len() == k,
                forall|j: int| 0 <= j < k ==> (#[trigger] layers@[j]).wf_in(*g)
                    && layers@[j].attn.num_heads * layers@[j].attn.head_dim == config.d_model,
            decreases config.num_layers - k,
        {
            let ghost gk = *g;
            let b = Llama2Block::new(g, &config);
            proof {
                g0.lemma_extended_trans(gk, *g);
                assert forall|j: int| 0 <= j < k implies (#[trigger] layers@[j]).wf_in(*g) by {
                    layers@[j].lemma_wf_in_shapes(gk);
                    lemma_shapes_hold_extend(gk, *g, layers@[j].shapes());
                    layers@[j].lemma_wf_in_shapes(*g);
                }
            }
            layers.push(b);
            k = k + 1;
        }
        let ghost g1 = *g;
        let tok_embeddings = crate::nn::embedding::Embedding::new(g, config.vocab_size, config.d_model);
        let ghost g2 = *g;
        let norm = RMSNorm::with_eps(g, config.d_model, config.norm_eps_bits);
        let ghost g3 = *g;
        let lm_head = Linear::without_bias(g, config.d_model, config.vocab_size);
        let r = Llama2LM { tok_embeddings, layers, norm, lm_head, config };
        proof {
            g1.lemma_extended_trans(g2, g3);
            g1.lemma_extended_trans(g3, *g);
            g0.lemma_extended_trans(g1, *g);
            assert forall|j: int| 0 <= j < r.layers@.len() implies (#[trigger] r.layers@[j]).wf_in(*g) by {
                r.layers@[j].lemma_wf_in_shapes(g1);
                lemma_shapes_hold_extend(g1, *g, r.layers@[j].shapes());
                r.layers@[j].lemma_wf_in_shapes(*g);
            }
            assert(g.nodes@[tok_embeddings.weight.id as int] == g2.nodes@[tok_embeddings.weight.id as int]);
            assert(g.nodes@[norm.weight.id as int] == g3.nodes@[norm.weight.id as int]);
        }
        r
    }
}

/// Applies `layers` in order to `x` at positions from `start_pos`, layer `i` reading and
/// updating slot `i` of `cache` when the cache has one and it is filled. Succeeds exactly when
/// each layer accepts what reaches it; then every slot a layer read holds what that layer's
/// attention left in it, and every other slot is unchanged. On failure the layers before the
/// refusing one have updated their slots.
pub fn forward_layers_cached(g: &mut Graph, layers: &Vec<Llama2Block>, x: &Tensor, start_pos: usize, cache: &mut KVCache) -> (r: Result<Tensor, EngineError>)
    requires
        old(g).wf(),
        forall|k: int| 0 <= k < layers@.len() ==> (#[trigger] layers@[k]).wf_in(*old(g))
            && layers@[k].attn.num_heads * layers@[k].attn.head_dim <= usize::MAX,
        x.valid(*old(g)),
        cache_valid(*old(g), old(cache).layers@),
    ensures
        final(g).wf(),
        old(g).extended_by(*final(g)),
        final(cache).layers@.len() == old(cache).layers@.len(),
        cache_valid(*final(g), final(cache).layers@),
        ({
            let cs = cache_shapes(*old(g), old(cache).layers@, layers@.len());
            let xs = x.shape_of(*old(g));
            &&& r is Ok <==> layers_out(layers@, xs, cs, start_pos) is Some
            &&& r matches Ok(t) ==> t.valid(*final(g)) && layers_out(layers@, xs, cs, start_pos) == Some(t.shape_of(*final(g)))
            &&& r is Ok ==> forall|i: int| 0 <= i < old(cache).layers@.len() ==> slot_shapes(*final(g), #[trigger] final(cache).layers@[i]) == (
                if i < layers@.len() {
                    cache_step(layers@[i], layers_out(layers@.take(i), xs, cs, start_pos)->Some_0, slot_shapes(*old(g), old(cache).layers@[i]), start_pos)
                } else {
                    slot_shapes(*old(g), old(cache).layers@[i])
                })
        }),
{
    let ghost g0 = *g;
    let ghost c0 = cache.layers@;
    let ghost xs = x.shape_of(*g);
    let ghost cs = cache_shapes(*g, cache.layers@, layers@.len());
    let mut cur = *x;
    let mut k: usize = 0;
    proof {
        assert(layers@.take(0) =~= Seq::<Llama2Block>::empty());
        assert(layers@.take(layers@.len() as int) =~= layers@);
    }
    while k < layers.len()
        invariant
            g0 == *old(g),
            c0 == old(cache).layers@,
            xs == x.shape_of(g0),
            cs == cache_shapes(g0, c0, layers@.len()),
            g.wf(),
            g0.extended_by(*g),
            forall|j: int| 0 <= j < layers@.len() ==> (#[trigger] layers@[j]).wf_in(g0)
                && layers@[j].attn.num_heads * layers@[j].attn.head_dim <= usize::MAX,
            cache_valid(g0, c0),
            cur.valid(*g),
            k <= layers@.len(),
            layers@.take(layers@.len() as int) == layers@,
            layers_out(layers@.take(k as int), xs, cs, start_pos) == Some(cur.shape_of(*g)),
            cache.layers@.len() == c0.len(),
            cache_valid(*g, cache.layers@),
            forall|i: int| 0 <= i < c0.len() ==> slot_shapes(*g, #[trigger] cache.layers@[i]) == (
                if i < k {
                    cache_step(layers@[i], layers_out(layers@.take(i), xs, cs, start_pos)->Some_0, slot_shapes(g0, c0[i]), start_pos)
                } else {
                    slot_shapes(g0, c0[i])
                }),
            forall|i: int| k <= i < c0.len() ==> #[trigger] cache.layers@[i] == c0[i],
        decreases layers.len() - k,
    {
        let ghost gk = *g;
        let ghost ck = cache.layers@;
        proof {
            layers@[k as int].lemma_wf_in_shapes(g0);
            lemma_shapes_hold_extend(g0, gk, layers@[k as int].shapes());
            layers@[k as int].lemma_wf_in_shapes(gk);
            assert(layers@.take(k + 1).drop_last() =~= layers@.take(k as int));
        }
        let slot: Option<(Tensor, Tensor)> = if k < cache.layers.len() {
            cache.layers[k]
        } else {
            None
        };
        proof {
            if k < c0.len() {
                assert(slot == c0[k as int]);
                assert(cs[k as int] == slot_shapes(g0, c0[k as int]));
            } else {
                assert(cs[k as int] == None::<(Seq<usize>, Seq<usize>)>);
            }
            assert(slot_shapes(gk, slot) == cs[k as int]) by {
                if let Some(p) = slot {
                    assert(c0[k as int] matches Some(q) && q == p);
                    assert(gk.nodes@[p.0.id as int] == g0.nodes@[p.0.id as int]);
                    assert(gk.nodes@[p.1.id as int] == g0.nodes@[p.1.id as int]);
                }
            }
        }
        let res = match slot {
            Some(pair) => {
                let mut p = pair;
                let res = layers[k].forward_block_cached(g, &cur, start_pos, Some(&mut p));
                cache.layers.set(k, Some(p));
                res
            },
            None => layers[k].forward_block_cached(g, &cur, start_pos, None),
        };
        let ghost gn = *g;
        proof {
            g0.lemma_extended_trans(gk, gn);
            assert forall|i: int| 0 <= i < cache.layers@.len() implies (#[trigger] cache.layers@[i] matches Some(q) ==> q.0.valid(gn) && q.1.valid(gn)) by {
                if i != k {
                    assert(cache.layers@[i] == ck[i]);
                }
            }
            assert forall|i: int| 0 <= i < c0.len() && i != k implies slot_shapes(gn, #[trigger] cache.layers@[i]) == slot_shapes(gk, ck[i]) by {
                assert(cache.layers@[i] == ck[i]);
                if let Some(q) = ck[i] {
                    assert(gn.nodes@[q.0.id as int] == gk.nodes@[q.0.id as int]);
                    assert(gn.nodes@[q.1.id as int] == gk.nodes@[q.1.id as int]);
                }
            }
        }
        match res {
            Ok(t) => {
                cur = t;
            },
            Err(e) => {
                proof {
                    lemma_layers_out_none_extends(layers@, (k + 1) as int, xs, cs, start_pos);
                }
                return Err(e);
            },
        }
        proof {
            assert forall|i: int| 0 <= i < c0.len() implies slot_shapes(*g, #[trigger] cache.layers@[i]) == (
                if i < k + 1 {
                    cache_step(layers@[i], layers_out(layers@.take(i), xs, cs, start_pos)->Some_0, slot_shapes(g0, c0[i]), start_pos)
                } else {
                    slot_shapes(g0, c0[i])
                }) by {
                if i == k {
                    assert(ck[i] == c0[i]);
                }
            }
        }
        k = k + 1;
    }
    assert(layers@.take(k as int) == layers@);
    Ok(cur)
}

/// Extending the graph keeps a valid cache valid, with the same shapes.
pub proof fn lemma_cache_extend(g1: Graph, g2: Graph, slots: Seq<Option<(Tensor, Tensor)>>, n: nat)
    requires
        cache_valid(g1, slots),
        g1.extended_by(g2),
    ensures
        cache_valid(g2, slots),
        cache_shapes(g2, slots, n) == cache_shapes(g1, slots, n),
        forall|i: int| 0 <= i < slots.len() ==> slot_shapes(g2, #[trigger] slots[i]) == slot_shapes(g1, slots[i]),
{
    assert forall|i: int| 0 <= i < slots.len() implies slot_shapes(g2, #[trigger] slots[i]) == slot_shapes(g1, slots[i])
        && (slots[i] matches Some(p) ==> p.0.valid(g2) && p.1.valid(g2)) by {
        if let Some(p) = slots[i] {
            assert(g2.nodes@[p.0.id as int] == g1.nodes@[p.0.id as int]);
            assert(g2.nodes@[p.1.id as int] == g1.nodes@[p.1.id as int]);
        }
    }
    assert(cache_shapes(g2, slots, n) =~= cache_shapes(g1, slots, n));
}

impl Llama2LM {
    /// Logits for `tokens` read as `batch_size` sequences of `seq_len` tokens at positions
    /// from `start_pos`, with an optional key/value cache (layer `i` uses slot `i` when the
    /// cache has one and it is filled). Succeeds exactly when the model accepts the tokens
    /// and the cached shapes; the cache is then updated layer by layer.
    pub fn forward_tokens_cached(&self, g: &mut Graph, tokens: &[usize], batch_size: usize, seq_len: usize, start_pos: usize, kv_cache: Option<&mut KVCache>) -> (r: Result<Tensor, EngineError>)
        requires
            old(g).wf(),
            self.wf_in(*old(g)),
            self.heads_fit(),
            tokens@.len() == batch_size * seq_len,
            start_pos + seq_len <= self.config.max_seq_len,
            kv_cache matches Some(c) ==> cache_valid(*old(g), c.layers@),
        ensures
            final(g).wf(),
            old(g).extended_by(*final(g)),
            ({
                let slots = match kv_cache { Some(c) => c.layers@, None => Seq::<Option<(Tensor, Tensor)>>::empty() };
                let cs = cache_shapes(*old(g), slots, self.layers@.len());
                &&& r is Ok <==> self.forward_ok(tokens@, batch_size, seq_len, start_pos, cs)
                &&& r matches Ok(t) ==> t.valid(*final(g)) && t.shape_of(*final(g)) == self.logits_shape(batch_size, seq_len, start_pos, cs)
            }),
            match kv_cache {
                Some(c) => {
                    let cs = cache_shapes(*old(g), c.layers@, self.layers@.len());
                    let xs = self.embedded(batch_size, seq_len);
                    &&& final(c).layers@.len() == c.layers@.len()
                    &&& cache_valid(*final(g), final(c).layers@)
                    &&& r is Ok ==> forall|i: int| 0 <= i < c.layers@.len() ==> slot_shapes(*final(g), #[trigger] final(c).layers@[i]) == (
                        if i < self.layers@.len() {
                            cache_step(self.layers@[i], layers_out(self.layers@.take(i), xs, cs, start_pos)->Some_0, slot_shapes(*old(g), c.layers@[i]), start_pos)
                        } else {
                            slot_shapes(*old(g), c.layers@[i])
                        })
                },
                None => true,
            },
    {
        let ghost g0 = *g;
        let ghost xs = self.embedded(batch_size, seq_len);
        let tok = match self.tok_embeddings.forward_indices(g, tokens) {
            Ok(t) => t,
            Err(e) => {
                proof {
                    if let Some(c) = kv_cache {
                        lemma_cache_extend(g0, *g, c.layers@, self.layers@.len());
                    }
                }
                return Err(e);
            },
        };
        let ghost g1 = *g;
        let x = match tok.reshape(g, crate::shape::shape3(batch_size, seq_len, self.config.d_model).as_slice()) {
            Ok(t) => t,
            Err(e) => {
                proof {
                    if let Some(c) = kv_cache {
                        lemma_cache_extend(g0, *g, c.layers@, self.layers@.len());
                    }
                }
                return Err(e);
            },
        };
        let ghost g2 = *g;
        proof {
            g0.lemma_extended_trans(g1, g2);
            assert(x.shape_of(g2) == xs);
            assert forall|k: int| 0 <= k < self.layers@.len() implies (#[trigger] self.layers@[k]).wf_in(g2) by {
                self.layers@[k].lemma_wf_in_shapes(g0);
                lemma_shapes_hold_extend(g0, g2, self.layers@[k].shapes());
                self.layers@[k].lemma_wf_in_shapes(g2);
            }
        }
        let y = match kv_cache {
            Some(c) => {
                proof {
                    lemma_cache_extend(g0, g2, c.layers@, self.layers@.len());
                }
                match forward_layers_cached(g, &self.layers, &x, start_pos, c) {
                    Ok(t) => t,
                    Err(e) => {
                        proof {
                            g0.lemma_extended_trans(g2, *g);
                        }
                        return Err(e);
                    },
                }
            },
            None => {
                let mut empty = KVCache { layers: Vec::new() };
                proof {
                    assert(cache_shapes(g2, empty.layers@, self.layers@.len()) =~= cache_shapes(g0, Seq::<Option<(Tensor, Tensor)>>::empty(), self.layers@.len()));
                }
                match forward_layers_cached(g, &self.layers, &x, start_pos, &mut empty) {
                    Ok(t) => t,
                    Err(e) => {
                        proof {
                            g0.lemma_extended_trans(g2, *g);
                        }
                        return Err(e);
                    },
                }
            },
        };
        let ghost g3 = *g;
        proof {
            g0.lemma_extended_trans(g2, g3);
            assert(g3.nodes@[self.norm.weight.id as int] == g0.nodes@[self.norm.weight.id as int]);
        }
        let normed = match self.norm.forward_norm(g, &y) {
            Ok(t) => t,
            Err(e) => {
                return Err(e);
            },
        };
        let ghost g4 = *g;
        proof {
            g0.lemma_extended_trans(g3, g4);
            self.lm_head.lemma_wf_in_shapes(g0);
            lemma_shapes_hold_extend(g0, g4, self.lm_head.shapes());
            self.lm_head.lemma_wf_in_shapes(g4);
        }
        let out = self.lm_head.forward_linear(g, &normed);
        proof {
            g0.lemma_extended_trans(g4, *g);
        }
        out
    }

    /// Logits without a cache.
    pub fn forward_tokens(&self, g: &mut Graph, tokens: &[usize], batch_size: usize, seq_len: usize, start_pos: usize) -> (r: Result<Tensor, EngineError>)
        requires
            old(g).wf(),
            self.wf_in(*old(g)),
            self.heads_fit(),
            tokens@.len() == batch_size * seq_len,
            start_pos + seq_len <= self.config.max_seq_len,
        ensures
            final(g).wf(),
            old(g).extended_by(*final(g)),
            r is Ok <==> self.forward_ok(tokens@, batch_size, seq_len, start_pos, cache_shapes(*old(g), Seq::empty(), self.layers@.len())),
            r matches Ok(t) ==> t.valid(*final(g))
                && t.shape_of(*final(g)) == self.logits_shape(batch_size, seq_len, start_pos, cache_shapes(*old(g), Seq::empty(), self.layers@.len())),
    {
        self.forward_tokens_cached(g, tokens, batch_size, seq_len, start_pos, None)
    }
}

/// Shape of the logits of the last of `n` positions, from logits of shape `l`: position `n - 1`
/// of axis 1 is kept, then the unit axes 1 and 0 are squeezed.
pub open spec fn last_logits(l: Seq<usize>, n: usize) -> Seq<usize> {
    squeeze_spec(squeeze_spec(slice_spec(l, 1, n - 1, n as int), 1), 0)
}

/// Shape of the logits of a single decoding step, from logits of shape `l`.
pub open spec fn step_logits(l: Seq<usize>) -> Seq<usize> {
    squeeze_spec(squeeze_spec(l, 1), 0)
}

impl Llama2LM {
    /// A cache for generation: one slot per layer, each holding empty (`[0]`) keys and values.
    pub fn generation_cache(&self, g: &mut Graph) -> (c: KVCache)
        requires
            old(g).wf(),
        ensures
            final(g).wf(),
            old(g).extended_by(*final(g)),
            c.layers@.len() == self.layers@.len(),
            cache_valid(*final(g), c.layers@),
            forall|i: int| 0 <= i < c.layers@.len() ==> slot_shapes(*final(g), #[trigger] c.layers@[i]) == Some((seq![0usize], seq![0usize])),
    {
        let ghost g0 = *g;
        let mut layers: Vec<Option<(Tensor, Tensor)>> = Vec::new();
        let empty = crate::shape::shape1(0);
        let mut i: usize = 0;
        while i < self.layers.len()
            invariant
                g.wf(),
                g0.extended_by(*g),
                empty@ == seq![0usize],
                i <= self.layers@.len(),
                layers@.len() == i,
                cache_valid(*g, layers@),
                forall|j: int| 0 <= j < i ==> slot_shapes(*g, #[trigger] layers@[j]) == Some((seq![0usize], seq![0usize])),
            decreases self.layers.len() - i,
        {
            let ghost gi = *g;
            let k = Tensor::zeros(g, empty.as_slice(), false);
            let ghost gk = *g;
            let v = Tensor::zeros(g, empty.as_slice(), false);
            proof {
                gi.lemma_extended_trans(gk, *g);
                g0.lemma_extended_trans(gi, *g);
                lemma_cache_extend(gi, *g, layers@, 0);
                assert(g.nodes@[k.id as int] == gk.nodes@[k.id as int]);
            }
            layers.push(Some((k, v)));
            i = i + 1;
        }
        KVCache { layers }
    }

    /// Runs the prompt through the model at positions from 0, filling `cache`, and returns the
    /// logits of the prompt's last position. Succeeds exactly when the model accepts the
    /// prompt as one sequence and its logits have a position axis that covers the prompt.
    pub fn generate_prefill(&self, g: &mut Graph, prompt: &[usize], cache: &mut KVCache) -> (r: Result<Tensor, EngineError>)
        requires
            old(g).wf(),
            self.wf_in(*old(g)),
            self.heads_fit(),
            prompt@.len() >= 1,
            prompt@.len() <= self.config.max_seq_len,
            cache_valid(*old(g), old(cache).layers@),
        ensures
            final(g).wf(),
            old(g).extended_by(*final(g)),
            final(cache).layers@.len() == old(cache).layers@.len(),
            cache_valid(*final(g), final(cache).layers@),
            ({
                let cs = cache_shapes(*old(g), old(cache).layers@, self.layers@.len());
                let n = prompt@.len() as usize;
                let l = self.logits_shape(1, n, 0, cs);
                &&& r is Ok <==> self.forward_ok(prompt@, 1, n, 0, cs) && 1 < l.len() && n <= l[1]
                &&& r matches Ok(t) ==> t.valid(*final(g)) && t.shape_of(*final(g)) == last_logits(l, n)
            }),
    {
        let ghost g0 = *g;
        let n = prompt.len();
        let logits = self.forward_tokens_cached(g, prompt, 1, n, 0, Some(cache))?;
        let ghost g1 = *g;
        let last = match logits.slice(g, 1, n - 1, n) {
            Ok(t) => t,
            Err(e) => {
                return Err(e);
            },
        };
        let ghost g2 = *g;
        let s1 = match last.squeeze(g, 1) {
            Ok(t) => t,
            Err(e) => {
                proof {
                    g0.lemma_extended_trans(g1, g2);
                }
                return Err(e);
            },
        };
        let ghost g3 = *g;
        let s0 = match s1.squeeze(g, 0) {
            Ok(t) => t,
            Err(e) => {
                proof {
                    g0.lemma_extended_trans(g1, g2);
                    g0.lemma_extended_trans(g2, g3);
                }
                return Err(e);
            },
        };
        proof {
            g0.lemma_extended_trans(g1, g2);
            g0.lemma_extended_trans(g2, g3);
            g0.lemma_extended_trans(g3, *g);
            lemma_cache_extend(g1, *g, cache.layers@, 0);
        }
        Ok(s0)
    }

    /// One decoding step: appends `next_token` to `tokens`, then, unless `iteration` has
    /// reached `max_new_tokens` or the sequence the model's `max_seq_len`, runs that token
    /// through the model at the last position, updating `cache`, and returns its logits.
    /// `Ok(None)` when generation is over (nothing else changes).
    pub fn generate_step(
        &self,
        g: &mut Graph,
        tokens: &mut Vec<usize>,
        next_token: usize,
        iteration: usize,
        max_new_tokens: usize,
        cache: &mut KVCache,
    ) -> (r: Result<Option<Tensor>, EngineError>)
        requires
            old(g).wf(),
            self.wf_in(*old(g)),
            self.heads_fit(),
            old(tokens)@.len() < usize::MAX,
            cache_valid(*old(g), old(cache).layers@),
        ensures
            final(tokens)@ == old(tokens)@.push(next_token),
            final(g).wf(),
            old(g).extended_by(*final(g)),
            final(cache).layers@.len() == old(cache).layers@.len(),
            cache_valid(*final(g), final(cache).layers@),
            (iteration >= max_new_tokens || final(tokens)@.len() >= self.config.max_seq_len) ==> r == Ok::<Option<Tensor>, EngineError>(None)
                && *final(g) == *old(g) && final(cache).layers@ == old(cache).layers@,
            !(iteration >= max_new_tokens || final(tokens)@.len() >= self.config.max_seq_len) ==> ({
                let cs = cache_shapes(*old(g), old(cache).layers@, self.layers@.len());
                let start = old(tokens)@.len() as usize;
                let l = self.logits_shape(1, 1, start, cs);
                &&& r is Ok <==> self.forward_ok(seq![next_token], 1, 1, start, cs) && 1 < l.len()
                &&& r matches Ok(o) ==> (o matches Some(t) && t.valid(*final(g)) && t.shape_of(*final(g)) == step_logits(l))
            }),
    {
        let ghost g0 = *g;
        tokens.push(next_token);
        if iteration >= max_new_tokens || tokens.len() >= self.config.max_seq_len {
            return Ok(None);
        }
        let start_pos = tokens.len() - 1;
        let mut step: Vec<usize> = Vec::new();
        step.push(next_token);
        assert(step@ =~= seq![next_token]);
        let logits = self.forward_tokens_cached(g, step.as_slice(), 1, 1, start_pos, Some(cache))?;
        let ghost g1 = *g;
        let s1 = match logits.squeeze(g, 1) {
            Ok(t) => t,
            Err(e) => {
                return Err(e);
            },
        };
        let ghost g2 = *g;
        let s0 = match s1.squeeze(g, 0) {
            Ok(t) => t,
            Err(e) => {
                proof {
                    g0.lemma_extended_trans(g1, g2);
                }
                return Err(e);
            },
        };
        proof {
            g0.lemma_extended_trans(g1, g2);
            g0.lemma_extended_trans(g2, *g);
            lemma_cache_extend(g1, *g, cache.layers@, 0);
        }
        Ok(Some(s0))
    }
}

impl Llama2LM {
    /// The tensors that `parameters` gives, in order.
    pub open spec fn param_seq(&self) -> Seq<Tensor> {
        seq![self.tok_embeddings.weight] + crate::nn::module::seq_params(self.layers@) + seq![self.norm.weight] + self.lm_head.param_seq()
    }
}

impl Llama2LM {
    /// The learnable tensors: the token table, each layer's, the final norm's weight and the
    /// head's.
    pub fn parameters(&self) -> (r: Vec<Tensor>)
        ensures
            r@ == self.param_seq(),
            forall|g: Graph| #[trigger] self.wf_in(g) ==> forall|k: int| 0 <= k < r@.len() ==> (#[trigger] r@[k]).valid(g),
    {
        let mut params: Vec<Tensor> = Vec::new();
        params.push(self.tok_embeddings.weight);
        let ghost base_layers = params@;
        proof {
            assert(crate::nn::module::seq_params(self.layers@.take(0)) =~= Seq::<Tensor>::empty());
        }
        let mut i: usize = 0;
        while i < self.layers.len()
            invariant
                i <= self.layers@.len(),
                params@ == base_layers + crate::nn::module::seq_params(self.layers@.take(i as int)),
                forall|g: Graph| #[trigger] self.wf_in(g) ==> forall|k: int| 0 <= k < params@.len() ==> (#[trigger] params@[k]).valid(g),
            decreases self.layers.len() - i,
        {
            let mut p = self.layers[i].parameters();
            proof {
                crate::nn::module::lemma_seq_params_step(self.layers@, i as int);
            }
            let ghost before = params@;
            let ghost b = self.layers@[i as int];
            params.append(&mut p);
            proof {
                assert forall|g: Graph| #[trigger] self.wf_in(g) implies forall|k: int| 0 <= k < params@.len() ==> (#[trigger] params@[k]).valid(g) by {
                    assert(b.wf_in(g));
                    b.lemma_params_valid(g);
                    assert forall|k: int| 0 <= k < params@.len() implies (#[trigger] params@[k]).valid(g) by {
                        if k >= before.len() {
                            assert(params@[k] == b.param_seq()[k - before.len()]);
                        } else {
                            assert(params@[k] == before[k]);
                        }
                    }
                }
            }
            i = i + 1;
        }
        proof {
            assert(self.layers@.take(self.layers@.len() as int) =~= self.layers@);
        }
        params.push(self.norm.weight);
        let ghost before = params@;
        let mut h = self.lm_head.parameters();
        params.append(&mut h);
        proof {
            assert forall|g: Graph| #[trigger] self.wf_in(g) implies forall|k: int| 0 <= k < params@.len() ==> (#[trigger] params@[k]).valid(g) by {
                assert forall|k: int| 0 <= k < params@.len() implies (#[trigger] params@[k]).valid(g) by {
                    if k >= before.len() {
                        assert(params@[k] == self.lm_head.param_seq()[k - before.len()]);
                    } else {
                        assert(params@[k] == before[k]);
                    }
                }
            }
        }
        proof {
            assert(params@ =~= self.param_seq());
        }
        params
    }
}

} // verus!
