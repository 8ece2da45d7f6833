//! Mixture of experts: a top-k router sends each token to a few of several SwiGLU feed-forward
//! experts, whose outputs are mixed by the routing weights, with an auxiliary load-balancing
//! loss.

use vstd::prelude::*;
use crate::autograd::node::{Graph, LeafInit, Op};
use crate::autograd::tensor::{Tensor, lemma_reads_extend, lemma_reads_self, lemma_reads_through, lemma_reads_trans, reads, reshape_ok};
use crate::error::EngineError;
use crate::nn::linear::{Linear, linear_out};
use crate::nn::attention::MultiHeadAttention;
use crate::nn::llama::SwiGLU;
use crate::nn::module::{Module, lemma_seq_shapes_hold, lemma_shapes_hold_concat, lemma_shapes_hold_extend, lemma_tensors_valid, seq_shapes, shapes_hold, tensors_of};
use crate::nn::norm::LayerNorm;
use crate::shape::{broadcast_spec, broadcastable, checked_numel, numel, numel_spec, reduce_spec, shape2, shape_fits};

verus! {

/// Scores each token against `num_experts` experts and keeps the `top_k` best.
#[derive(Clone, Copy)]
pub struct TopKRouter {
    pub gate: Linear,
    pub num_experts: usize,
    pub top_k: usize,
}

/// Tokens as rows: `[batch * seq, channels]` for rank-3 input, the input itself otherwise.
pub open spec fn tokens_2d(x: Seq<usize>) -> Seq<usize> {
    if x.len() == 3 {
        seq![(x[0] * x[1]) as usize, x[2]]
    } else {
        x
    }
}

impl TopKRouter {
    /// A router with a bias-free `d_model -> num_experts` gate.
    pub fn new(g: &mut Graph, d_model: usize, num_experts: usize, top_k: usize) -> (r: TopKRouter)
        requires
            old(g).wf(),
        ensures
            final(g).wf(),
            old(g).extended_by(*final(g)),
            r.gate.wf_in(*final(g)),
            r.gate.in_features == d_model,
            r.gate.out_features == num_experts,
            r.gate.bias is None,
            r.num_experts == num_experts,
            r.top_k == top_k,
    {
        TopKRouter { gate: Linear::without_bias(g, d_model, num_experts), num_experts, top_k }
    }

    /// Routing accepts input of shape `x`.
    pub open spec fn accepts(&self, x: Seq<usize>) -> bool {
        &&& x.len() == 3 ==> reshape_ok(x, tokens_2d(x))
        &&& self.gate.accepts(tokens_2d(x))
        &&& self.top_k <= self.gate.out_features
    }

    /// Returns `(gate_weights, expert_indices, router_logits)`: the routing logits of each token
    /// (`[tokens, num_experts]`), the positions of its `top_k` best experts and the softmax of
    /// their logits (both `[tokens, top_k]`).
    pub fn route(&self, g: &mut Graph, x: &Tensor) -> (r: Result<(Tensor, Tensor, Tensor), EngineError>)
        requires
            old(g).wf(),
            self.gate.wf_in(*old(g)),
            x.valid(*old(g)),
            x.shape_of(*old(g)).len() >= 1,
            x.shape_of(*old(g)).len() == 3 ==> x.shape_of(*old(g))[0] * x.shape_of(*old(g))[1] <= usize::MAX,
        ensures
            final(g).wf(),
            old(g).extended_by(*final(g)),
            r is Ok <==> self.accepts(x.shape_of(*old(g))),
            r matches Ok((weights, indices, logits)) ==> {
                let lg = linear_out(tokens_2d(x.shape_of(*old(g))), self.gate.out_features);
                let sel = lg.update(lg.len() - 1, self.top_k);
                &&& weights.valid(*final(g)) && indices.valid(*final(g)) && logits.valid(*final(g))
                &&& logits.shape_of(*final(g)) == lg
                &&& indices.shape_of(*final(g)) == sel
                &&& weights.shape_of(*final(g)) == sel
                &&& final(g).nodes@[indices.id as int].op == (Op::TopKIndices { k: self.top_k })
                &&& final(g).nodes@[indices.id as int].inputs@ == seq![logits.id]
                &&& final(g).nodes@[weights.id as int].op == (Op::Softmax { axis: (lg.len() - 1) as usize })
                &&& final(g).nodes@[weights.id as int].inputs@.len() == 1
                &&& final(g).nodes@[final(g).nodes@[weights.id as int].inputs@[0] as int].op == (Op::TopK { k: self.top_k })
                &&& final(g).nodes@[final(g).nodes@[weights.id as int].inputs@[0] as int].inputs@ == seq![logits.id]
                &&& reads(*final(g), logits.id as int, x.id as int)
                &&& reads(*final(g), logits.id as int, self.gate.weight.id as int)
            },
    {
        let ghost g0 = *g;
        let shape = x.shape(g);
        let x_2d = if shape.len() == 3 {
            let batch_tokens = shape[0] * shape[1];
            x.reshape(g, shape2(batch_tokens, shape[2]).as_slice())?
        } else {
            *x
        };
        let ghost g1 = *g;
        let router_logits = self.gate.forward_linear(g, &x_2d)?;
        let ghost g2 = *g;
        proof { g0.lemma_extended_trans(g1, g2); }
        let (top_vals, expert_indices) = router_logits.topk(g, self.top_k)?;
        let ghost g3 = *g;
        proof { g0.lemma_extended_trans(g2, g3); }
        let last = top_vals.ndim(g) - 1;
        let gate_weights = top_vals.softmax(g, last)?;
        proof {
            g0.lemma_extended_trans(g3, *g);
            g2.lemma_extended_trans(g3, *g);
            assert(g.nodes@[top_vals.id as int] == g3.nodes@[top_vals.id as int]);
            assert(g.nodes@[expert_indices.id as int] == g3.nodes@[expert_indices.id as int]);
            lemma_reads_extend(g2, *g, router_logits.id as int, x_2d.id as int);
            lemma_reads_extend(g2, *g, router_logits.id as int, self.gate.weight.id as int);
            if shape.len() == 3 {
                lemma_reads_self(g0, x.id as int);
                lemma_reads_through(g0, g1, x_2d.id as int, 0, x.id as int);
                g1.lemma_extended_trans(g2, *g);
                lemma_reads_extend(g1, *g, x_2d.id as int, x.id as int);
                lemma_reads_trans(*g, router_logits.id as int, x_2d.id as int, x.id as int);
            }
        }
        Ok((gate_weights, expert_indices, router_logits))
    }

    /// The learnable tensors of the routing layer.
    pub fn parameters(&self) -> (r: Vec<Tensor>)
        ensures
            r@ == self.gate.param_seq(),
    {
        crate::nn::module::Module::parameters(&self.gate)
    }
}

/// Bit pattern of the `f32` `0.01`, the usual weight of the load-balancing loss.
pub const AUX_LOSS_COEFF_BITS: u32 = 0x3c23_d70a;

/// Hyperparameters of a mixture-of-experts layer.
#[derive(Clone, Copy, PartialEq, Eq, Structural)]
pub struct MoEConfig {
    /// Model width.
    pub d_model: usize,
    /// Hidden width of each expert.
    pub hidden_dim: usize,
    /// Number of experts.
    pub num_experts: usize,
    /// Number of experts each token is sent to.
    pub top_k: usize,
    /// Bit pattern of the `f32` weight of the load-balancing loss.
    pub aux_loss_coeff_bits: u32,
}

impl MoEConfig {
    /// Eight experts of hidden width `4 * d_model`, two per token.
    pub fn mixtral_style(d_model: usize) -> (r: MoEConfig)
        requires
            d_model * 4 <= usize::MAX,
        ensures
            r == (MoEConfig {
                d_model, hidden_dim: (d_model * 4) as usize, num_experts: 8, top_k: 2,
                aux_loss_coeff_bits: AUX_LOSS_COEFF_BITS,
            }),
    {
        MoEConfig { d_model, hidden_dim: d_model * 4, num_experts: 8, top_k: 2, aux_loss_coeff_bits: AUX_LOSS_COEFF_BITS }
    }

    /// `num_experts` experts of hidden width `2 * d_model`, two per token (or all, when there
    /// are fewer than two).
    pub fn mini(d_model: usize, num_experts: usize) -> (r: MoEConfig)
        requires
            d_model * 2 <= usize::MAX,
        ensures
            r == (MoEConfig {
                d_model, hidden_dim: (d_model * 2) as usize, num_experts,
                top_k: if num_experts < 2 { num_experts } else { 2 },
                aux_loss_coeff_bits: AUX_LOSS_COEFF_BITS,
            }),
    {
        let top_k = if num_experts < 2 { num_experts } else { 2 };
        MoEConfig { d_model, hidden_dim: d_model * 2, num_experts, top_k, aux_loss_coeff_bits: AUX_LOSS_COEFF_BITS }
    }
}

/// Shape of the running total after adding, to `acc`, each expert output (shapes `outs`, in
/// order) scaled by a routing column of shape `col`; `None` where shapes do not broadcast.
pub open spec fn gated_sum(outs: Seq<Seq<usize>>, col: Seq<usize>, acc: Seq<usize>) -> Option<Seq<usize>>
    decreases outs.len(),
{
    if outs.len() == 0 {
        Some(acc)
    } else {
        match gated_sum(outs.drop_last(), col, acc) {
            Some(a) => {
                let o = outs.last();
                if broadcastable(o, col) && broadcastable(a, broadcast_spec(o, col)) {
                    Some(broadcast_spec(a, broadcast_spec(o, col)))
                } else {
                    None
                }
            },
            None => None,
        }
    }
}

/// Once a prefix of the sum fails to broadcast, the whole sum does.
proof fn lemma_gated_sum_none_extends(outs: Seq<Seq<usize>>, k: int, col: Seq<usize>, acc: Seq<usize>)
    requires
        0 <= k <= outs.len(),
        gated_sum(outs.take(k), col, acc) is None,
    ensures
        gated_sum(outs, col, acc) is None,
    decreases outs.len() - k,
{
    if k < outs.len() {
        assert(outs.take(k + 1).drop_last() =~= outs.take(k));
        lemma_gated_sum_none_extends(outs, k + 1, col, acc);
    } else {
        assert(outs.take(k) =~= outs);
    }
}

/// A prefix of a shape that fits fits too.
proof fn lemma_fits_drop_last(s: Seq<usize>)
    requires
        s.len() >= 1,
        shape_fits(s),
    ensures
        shape_fits(s.drop_last()),
{
    let p = s.drop_last();
    assert forall|i: int| 0 <= i <= p.len() implies #[trigger] numel_spec(p.subrange(0, i)) <= usize::MAX by {
        assert(p.subrange(0, i) =~= s.subrange(0, i));
    }
}

/// A sparse feed-forward layer: a top-k router and SwiGLU experts.
pub struct MoELayer {
    pub router: TopKRouter,
    pub experts: Vec<SwiGLU>,
    pub config: MoEConfig,
}

impl MoELayer {
    /// The tensors that `parameters` gives, in order.
    pub open spec fn param_seq(&self) -> Seq<Tensor> {
        self.router.gate.param_seq() + crate::nn::module::seq_params(self.experts@)
    }
}

impl MoELayer {
    /// The router and every expert live in `g`.
    pub open spec fn wf_in(&self, g: Graph) -> bool {
        &&& self.router.gate.wf_in(g)
        &&& forall|e: int| 0 <= e < self.experts@.len() ==> (#[trigger] self.experts@[e]).wf_in(g)
    }

    /// Number of tokens in input of shape `xs`: its element count over the model width.
    pub open spec fn token_count(&self, xs: Seq<usize>) -> usize {
        (numel_spec(xs) / (self.config.d_model as int)) as usize
    }

    /// The input as rows of tokens: `[tokens, d_model]` for rank 3, the input itself otherwise.
    pub open spec fn flat(&self, xs: Seq<usize>) -> Seq<usize> {
        if xs.len() == 3 {
            seq![self.token_count(xs), self.config.d_model]
        } else {
            xs
        }
    }

    /// Shape of the routing column of each expert: one entry per routed row.
    pub open spec fn gate_column(&self, xs: Seq<usize>) -> Seq<usize> {
        seq![numel_spec(self.flat(xs).drop_last()) as usize, 1usize]
    }

    /// Shapes of the experts' outputs.
    pub open spec fn expert_shapes(&self, xs: Seq<usize>) -> Seq<Seq<usize>> {
        Seq::new(self.experts@.len(), |e: int| self.experts@[e].out_shape(self.flat(xs)))
    }

    /// Shape of the mixed expert outputs, when they broadcast.
    pub open spec fn combined(&self, xs: Seq<usize>) -> Option<Seq<usize>> {
        gated_sum(self.expert_shapes(xs), self.gate_column(xs), seq![self.token_count(xs), self.config.d_model])
    }

    /// Shape of the routing logits.
    pub open spec fn logits_shape(&self, xs: Seq<usize>) -> Seq<usize> {
        linear_out(self.flat(xs), self.router.gate.out_features)
    }

    /// The layer accepts input of shape `xs`.
    pub open spec fn accepts(&self, xs: Seq<usize>) -> bool {
        &&& xs.len() == 3 ==> reshape_ok(xs, self.flat(xs))
        &&& self.router.accepts(self.flat(xs))
        &&& forall|e: int| 0 <= e < self.experts@.len() ==> (#[trigger] self.experts@[e]).accepts(self.flat(xs))
        &&& self.combined(xs) is Some
        &&& xs.len() == 3 ==> reshape_ok(self.combined(xs)->Some_0, xs)
        &&& broadcastable(seq![self.config.num_experts], reduce_spec(self.logits_shape(xs), 0, false))
    }

    /// Shape of the layer's output: that of the input for rank 3, the mixed outputs otherwise.
    pub open spec fn out_shape(&self, xs: Seq<usize>) -> Seq<usize> {
        if xs.len() == 3 {
            xs
        } else {
            self.combined(xs)->Some_0
        }
    }

    /// A layer for `config`: the router and `num_experts` experts of hidden width `hidden_dim`.
    pub fn new(g: &mut Graph, config: MoEConfig) -> (r: MoELayer)
        requires
            old(g).wf(),
        ensures
            final(g).wf(),
            old(g).extended_by(*final(g)),
            r.wf_in(*final(g)),
            r.config == config,
            r.router.gate.in_features == config.d_model,
            r.router.gate.out_features == config.num_experts,
            r.router.num_experts == config.num_experts,
            r.router.top_k == config.top_k,
            r.experts@.len() == config.num_experts,
            forall|e: int| 0 <= e < r.experts@.len() ==> (#[trigger] r.experts@[e]).gate_proj.in_features == config.d_model
                && r.experts@[e].gate_proj.out_features == config.hidden_dim
                && r.experts@[e].up_proj.in_features == config.d_model
                && r.experts@[e].up_proj.out_features == config.hidden_dim
                && r.experts@[e].down_proj.in_features == config.hidden_dim
                && r.experts@[e].down_proj.out_features == config.d_model,
    {
        let ghost g0 = *g;
        let router = TopKRouter::new(g, config.d_model, config.num_experts, config.top_k);
        let ghost g1 = *g;
        let mut experts: Vec<SwiGLU> = Vec::new();
        let mut k: usize = 0;
        while k < config.num_experts
            invariant
                g.wf(),
                g1.extended_by(*g),
                k <= config.num_experts,
                experts@.len() == k,
                forall|j: int| 0 <= j < k ==> (#[trigger] experts@[j]).wf_in(*g),
                forall|e: int| 0 <= e < k ==> (#[trigger] experts@[e]).gate_proj.in_features == config.d_model
                    && experts@[e].gate_proj.out_features == config.hidden_dim
                    && experts@[e].up_proj.in_features == config.d_model
                    && experts@[e].up_proj.out_features == config.hidden_dim
                    && experts@[e].down_proj.in_features == config.hidden_dim
                    && experts@[e].down_proj.out_features == config.d_model,
            decreases config.num_experts - k,
        {
            let ghost gk = *g;
            let ex = SwiGLU::new(g, config.d_model, config.hidden_dim);
            proof {
                g1.lemma_extended_trans(gk, *g);
                assert forall|j: int| 0 <= j < k implies (#[trigger] experts@[j]).wf_in(*g) by {
                    experts@[j].lemma_wf_in_shapes(gk);
                    lemma_shapes_hold_extend(gk, *g, experts@[j].shapes());
                    experts@[j].lemma_wf_in_shapes(*g);
                }
            }
            experts.push(ex);
            k = k + 1;
        }
        proof {
            g0.lemma_extended_trans(g1, *g);
            router.gate.lemma_wf_in_shapes(g1);
            lemma_shapes_hold_extend(g1, *g, router.gate.shapes());
            router.gate.lemma_wf_in_shapes(*g);
        }
        MoELayer { router, experts, config }
    }

    /// Runs every expert on `x`, in order.
    fn expert_outputs(&self, g: &mut Graph, x: &Tensor) -> (r: Result<Vec<Tensor>, EngineError>)
        requires
            old(g).wf(),
            self.wf_in(*old(g)),
            x.valid(*old(g)),
        ensures
            final(g).wf(),
            old(g).extended_by(*final(g)),
            r is Ok <==> forall|e: int| 0 <= e < self.experts@.len() ==> (#[trigger] self.experts@[e]).accepts(x.shape_of(*old(g))),
            r matches Ok(outs) ==> outs@.len() == self.experts@.len()
                && forall|e: int| 0 <= e < outs@.len() ==> (#[trigger] outs@[e]).valid(*final(g))
                    && outs@[e].shape_of(*final(g)) == self.experts@[e].out_shape(x.shape_of(*old(g))),
    {
        let ghost g0 = *g;
        let ghost xs = x.shape_of(*g);
        let mut outs: Vec<Tensor> = Vec::new();
        let mut k: usize = 0;
        while k < self.experts.len()
            invariant
                g0 == *old(g),
                xs == x.shape_of(g0),
                g.wf(),
                g0.extended_by(*g),
                self.wf_in(g0),
                x.valid(g0),
                k <= self.experts@.len(),
                outs@.len() == k,
                forall|e: int| 0 <= e < k ==> (#[trigger] self.experts@[e]).accepts(xs),
                forall|e: int| 0 <= e < k ==> (#[trigger] outs@[e]).valid(*g)
                    && outs@[e].shape_of(*g) == self.experts@[e].out_shape(xs),
            decreases self.experts.len() - k,
        {
            let ghost gk = *g;
            proof {
                self.experts@[k as int].lemma_wf_in_shapes(g0);
                lemma_shapes_hold_extend(g0, gk, self.experts@[k as int].shapes());
                self.experts@[k as int].lemma_wf_in_shapes(gk);
                assert(gk.nodes@[x.id as int] == g0.nodes@[x.id as int]);
            }
            let o = match self.experts[k].forward_swiglu(g, x) {
                Ok(t) => t,
                Err(e) => {
                    proof {
                        g0.lemma_extended_trans(gk, *g);
                    }
                    return Err(e);
                },
            };
            proof {
                g0.lemma_extended_trans(gk, *g);
                assert forall|e: int| 0 <= e < k implies (#[trigger] outs@[e]).valid(*g)
                    && outs@[e].shape_of(*g) == self.experts@[e].out_shape(xs) by {
                    assert(g.nodes@[outs@[e].id as int] == gk.nodes@[outs@[e].id as int]);
                }
            }
            outs.push(o);
            k = k + 1;
        }
        Ok(outs)
    }

    /// Adds, to zeros of shape `[rows, d]`, each expert output scaled by its routing column.
    fn combine(g: &mut Graph, outs: &Vec<Tensor>, weights: &Tensor, indices: &Tensor, rows: usize, d: usize, requires_grad: bool)
        -> (r: Result<Tensor, EngineError>)
        requires
            old(g).wf(),
            forall|e: int| 0 <= e < outs@.len() ==> (#[trigger] outs@[e]).valid(*old(g)),
            weights.valid(*old(g)),
            indices.valid(*old(g)),
            weights.shape_of(*old(g)).len() >= 1,
            shape_fits(weights.shape_of(*old(g)).drop_last()),
            indices.shape_of(*old(g)) == weights.shape_of(*old(g)),
        ensures
            final(g).wf(),
            old(g).extended_by(*final(g)),
            ({
                let col = seq![numel_spec(weights.shape_of(*old(g)).drop_last()) as usize, 1usize];
                let shapes = Seq::new(outs@.len(), |e: int| outs@[e].shape_of(*old(g)));
                &&& r is Ok <==> gated_sum(shapes, col, seq![rows, d]) is Some
                &&& r matches Ok(t) ==> t.valid(*final(g)) && Some(t.shape_of(*final(g))) == gated_sum(shapes, col, seq![rows, d])
            }),
    {
        let ghost g0 = *g;
        let ghost col = seq![numel_spec(weights.shape_of(*g).drop_last()) as usize, 1usize];
        let ghost shapes = Seq::new(outs@.len(), |e: int| outs@[e].shape_of(g0));
        let zs = shape2(rows, d);
        let mut output = Tensor::zeros(g, zs.as_slice(), requires_grad);
        let mut k: usize = 0;
        proof {
            assert(shapes.take(0) =~= Seq::<Seq<usize>>::empty());
            assert(shapes.take(shapes.len() as int) =~= shapes);
        }
        while k < outs.len()
            invariant
                g0 == *old(g),
                col == seq![numel_spec(weights.shape_of(g0).drop_last()) as usize, 1usize],
                shapes == Seq::new(outs@.len(), |e: int| outs@[e].shape_of(g0)),
                g.wf(),
                g0.extended_by(*g),
                forall|e: int| 0 <= e < outs@.len() ==> (#[trigger] outs@[e]).valid(g0),
                weights.valid(g0),
                indices.valid(g0),
                weights.shape_of(g0).len() >= 1,
                shape_fits(weights.shape_of(g0).drop_last()),
                indices.shape_of(g0) == weights.shape_of(g0),
                output.valid(*g),
                k <= outs@.len(),
                shapes.take(shapes.len() as int) == shapes,
                gated_sum(shapes.take(k as int), col, seq![rows, d]) == Some(output.shape_of(*g)),
            decreases outs.len() - k,
        {
            let ghost gk = *g;
            proof {
                assert(gk.nodes@[weights.id as int] == g0.nodes@[weights.id as int]);
                assert(gk.nodes@[indices.id as int] == g0.nodes@[indices.id as int]);
                assert(gk.nodes@[outs@[k as int].id as int] == g0.nodes@[outs@[k as int].id as int]);
                assert(shapes.take(k + 1).drop_last() =~= shapes.take(k as int));
                assert(shapes.take(k + 1).last() == shapes[k as int]);
            }
            let c = match weights.expert_gate(g, indices, k) {
                Ok(t) => t,
                Err(e) => {
                    return Err(e);
                },
            };
            let ghost g1 = *g;
            let scaled = match outs[k].mul(g, &c) {
                Ok(t) => t,
                Err(e) => {
                    proof {
                        g0.lemma_extended_trans(gk, *g);
                        lemma_gated_sum_none_extends(shapes, (k + 1) as int, col, seq![rows, d]);
                    }
                    return Err(e);
                },
            };
            let ghost g2 = *g;
            proof {
                gk.lemma_extended_trans(g1, g2);
            }
            let next = match output.add(g, &scaled) {
                Ok(t) => t,
                Err(e) => {
                    proof {
                        g0.lemma_extended_trans(gk, g2);
                        lemma_gated_sum_none_extends(shapes, (k + 1) as int, col, seq![rows, d]);
                    }
                    return Err(e);
                },
            };
            proof {
                gk.lemma_extended_trans(g2, *g);
                g0.lemma_extended_trans(gk, *g);
            }
            output = next;
            k = k + 1;
        }
        assert(shapes.take(k as int) == shapes);
        Ok(output)
    }

    /// The load-balancing loss: the fraction of selections each expert received times its
    /// mean routing probability, summed, times `num_experts` and the configured weight.
    fn aux_loss(&self, g: &mut Graph, logits: &Tensor, indices: &Tensor) -> (r: Result<Tensor, EngineError>)
        requires
            old(g).wf(),
            logits.valid(*old(g)),
            indices.valid(*old(g)),
        ensures
            final(g).wf(),
            old(g).extended_by(*final(g)),
            r is Ok <==> logits.shape_of(*old(g)).len() > 1
                && broadcastable(seq![self.config.num_experts], reduce_spec(logits.shape_of(*old(g)), 0, false)),
            r matches Ok(t) ==> t.valid(*final(g)) && t.shape_of(*final(g)) == Seq::<usize>::empty()
                && final(g).nodes@[t.id as int].op == Op::Mul,
    {
        let ghost g0 = *g;
        let probs = logits.softmax(g, 1)?;
        let ghost g1 = *g;
        let mean_probs = match probs.mean(g, 0, false) {
            Ok(t) => t,
            Err(e) => {
                return Err(e);
            },
        };
        let ghost g2 = *g;
        proof {
            g0.lemma_extended_trans(g1, g2);
            assert(g2.nodes@[indices.id as int] == g0.nodes@[indices.id as int]);
        }
        let load = indices.expert_load(g, self.config.num_experts);
        let ghost g3 = *g;
        proof {
            g0.lemma_extended_trans(g2, g3);
            assert(g3.nodes@[mean_probs.id as int] == g2.nodes@[mean_probs.id as int]);
        }
        let dot = match load.mul(g, &mean_probs) {
            Ok(t) => t,
            Err(e) => {
                return Err(e);
            },
        };
        let ghost g4 = *g;
        let sum_dot = dot.sum_all(g);
        let ghost g5 = *g;
        let coeff = Tensor::scaled_count(g, self.config.aux_loss_coeff_bits, self.config.num_experts);
        let ghost g6 = *g;
        proof {
            g0.lemma_extended_trans(g3, g4);
            g0.lemma_extended_trans(g4, g5);
            g0.lemma_extended_trans(g5, g6);
            assert(g6.nodes@[sum_dot.id as int] == g5.nodes@[sum_dot.id as int]);
            crate::shape::lemma_broadcast_self(Seq::<usize>::empty());
        }
        let out = sum_dot.mul(g, &coeff);
        proof {
            g0.lemma_extended_trans(g6, *g);
        }
        out
    }

    /// Sends every token to its `top_k` experts and mixes their outputs by the routing weights;
    /// returns the output (the input's shape for rank-3 input) and the scalar load-balancing
    /// loss. Succeeds exactly when the layer accepts the input's shape.
    pub fn forward_with_aux(&self, g: &mut Graph, x: &Tensor) -> (r: Result<(Tensor, Tensor), EngineError>)
        requires
            old(g).wf(),
            self.wf_in(*old(g)),
            x.valid(*old(g)),
            self.config.d_model > 0,
            x.shape_of(*old(g)).len() >= 1,
            shape_fits(x.shape_of(*old(g))),
            self.router.top_k == self.config.top_k,
        ensures
            final(g).wf(),
            old(g).extended_by(*final(g)),
            r is Ok <==> self.accepts(x.shape_of(*old(g))),
            r matches Ok((out, aux)) ==> out.valid(*final(g)) && out.shape_of(*final(g)) == self.out_shape(x.shape_of(*old(g)))
                && aux.valid(*final(g)) && aux.shape_of(*final(g)) == Seq::<usize>::empty(),
    {
        let ghost g0 = *g;
        let orig = x.shape(g);
        let ghost xs = orig@;
        let d = self.config.d_model;
        let n = numel(orig.as_slice());
        let bt = n / d;
        let requires_grad = x.requires_grad(g);
        proof {
            assert(bt == self.token_count(xs));
            if xs.len() == 3 {
                assert(seq![bt].drop_last() =~= Seq::<usize>::empty());
                assert(self.flat(xs).drop_last() =~= seq![bt]);
                let sb = seq![bt];
                assert(numel_spec(Seq::<usize>::empty()) == 1);
                assert(sb.last() == bt);
                assert(numel_spec(sb) == numel_spec(sb.drop_last()) * bt);
                assert(shape_fits(sb)) by {
                    assert forall|i: int| 0 <= i <= 1 implies #[trigger] numel_spec(sb.subrange(0, i)) <= usize::MAX by {
                        if i == 0 {
                            assert(sb.subrange(0, 0) =~= Seq::<usize>::empty());
                        } else {
                            assert(sb.subrange(0, 1) =~= sb);
                        }
                    }
                }
            } else {
                lemma_fits_drop_last(xs);
            }
        }
        let x2 = if orig.len() == 3 {
            match x.reshape(g, shape2(bt, d).as_slice()) {
                Ok(t) => t,
                Err(e) => {
                    return Err(e);
                },
            }
        } else {
            *x
        };
        let ghost g1 = *g;
        let ghost fx = self.flat(xs);
        proof {
            assert(x2.shape_of(g1) == fx);
            assert(crate::nn::moe::tokens_2d(fx) == fx);
            self.router.gate.lemma_wf_in_shapes(g0);
            lemma_shapes_hold_extend(g0, g1, self.router.gate.shapes());
            self.router.gate.lemma_wf_in_shapes(g1);
        }
        let (weights, indices, logits) = match self.router.route(g, &x2) {
            Ok(t) => t,
            Err(e) => {
                proof {
                    g0.lemma_extended_trans(g1, *g);
                }
                return Err(e);
            },
        };
        let ghost g2 = *g;
        proof {
            g0.lemma_extended_trans(g1, g2);
            assert(g2.nodes@[x2.id as int] == g1.nodes@[x2.id as int]);
            assert forall|e: int| 0 <= e < self.experts@.len() implies (#[trigger] self.experts@[e]).wf_in(g2) by {
                self.experts@[e].lemma_wf_in_shapes(g0);
                lemma_shapes_hold_extend(g0, g2, self.experts@[e].shapes());
                self.experts@[e].lemma_wf_in_shapes(g2);
            }
        }
        let outs = match self.expert_outputs(g, &x2) {
            Ok(o) => o,
            Err(e) => {
                proof {
                    g0.lemma_extended_trans(g2, *g);
                }
                return Err(e);
            },
        };
        let ghost g3 = *g;
        proof {
            g0.lemma_extended_trans(g2, g3);
            assert(g3.nodes@[weights.id as int] == g2.nodes@[weights.id as int]);
            assert(g3.nodes@[indices.id as int] == g2.nodes@[indices.id as int]);
            assert(g3.nodes@[logits.id as int] == g2.nodes@[logits.id as int]);
            assert(weights.shape_of(g3).drop_last() =~= fx.drop_last());
            assert(Seq::new(outs@.len(), |e: int| outs@[e].shape_of(g3)) =~= self.expert_shapes(xs));
        }
        let mixed = match Self::combine(g, &outs, &weights, &indices, bt, d, requires_grad) {
            Ok(t) => t,
            Err(e) => {
                proof {
                    g0.lemma_extended_trans(g3, *g);
                }
                return Err(e);
            },
        };
        let ghost g4 = *g;
        proof {
            g0.lemma_extended_trans(g3, g4);
        }
        let out = if orig.len() == 3 {
            match mixed.reshape(g, orig.as_slice()) {
                Ok(t) => t,
                Err(e) => {
                    return Err(e);
                },
            }
        } else {
            mixed
        };
        let ghost g5 = *g;
        proof {
            g0.lemma_extended_trans(g4, g5);
            assert(g5.nodes@[logits.id as int] == g2.nodes@[logits.id as int]);
            assert(g5.nodes@[indices.id as int] == g2.nodes@[indices.id as int]);
            assert(logits.shape_of(g5) == self.logits_shape(xs));
        }
        let aux = match self.aux_loss(g, &logits, &indices) {
            Ok(t) => t,
            Err(e) => {
                proof {
                    g0.lemma_extended_trans(g5, *g);
                }
                return Err(e);
            },
        };
        proof {
            g0.lemma_extended_trans(g5, *g);
            assert(g.nodes@[out.id as int] == g5.nodes@[out.id as int]);
        }
        Ok((out, aux))
    }

    /// The learnable tensors: the router's, then each expert's.
    pub fn parameters(&self) -> (r: Vec<Tensor>)
        ensures
            r@ == self.param_seq(),
            forall|g: Graph| #[trigger] self.wf_in(g) ==> forall|k: int| 0 <= k < r@.len() ==> (#[trigger] r@[k]).valid(g),
    {
        let mut params = self.router.parameters();
        proof {
            assert forall|g: Graph| #[trigger] self.wf_in(g) implies forall|k: int| 0 <= k < params@.len() ==> (#[trigger] params@[k]).valid(g) by {
                if self.router.gate.bias is Some {
                    assert(params@[1] == self.router.gate.bias->Some_0);
                }
            }
        }
        let ghost base_experts = params@;
        proof {
            assert(crate::nn::module::seq_params(self.experts@.take(0)) =~= Seq::<Tensor>::empty());
        }
        let mut i: usize = 0;
        while i < self.experts.len()
            invariant
                i <= self.experts@.len(),
                params@ == base_experts + crate::nn::module::seq_params(self.experts@.take(i as int)),
                forall|g: Graph| #[trigger] self.wf_in(g) ==> forall|k: int| 0 <= k < params@.len() ==> (#[trigger] params@[k]).valid(g),
            decreases self.experts.len() - i,
        {
            let mut p = self.experts[i].parameters();
            proof {
                crate::nn::module::lemma_seq_params_step(self.experts@, i as int);
            }
            let ghost before = params@;
            let ghost b = self.experts@[i as int];
            params.append(&mut p);
            proof {
                assert forall|g: Graph| #[trigger] self.wf_in(g) implies forall|k: int| 0 <= k < params@.len() ==> (#[trigger] params@[k]).valid(g) by {
                    assert(b.wf_in(g));
                    b.lemma_wf_in_shapes(g);
                    lemma_tensors_valid(g, b.shapes());
                    assert(b.param_seq() =~= tensors_of(b.shapes()));
                    assert forall|k: int| 0 <= k < params@.len() implies (#[trigger] params@[k]).valid(g) by {
                        if k >= before.len() {
                            assert(params@[k] == tensors_of(b.shapes())[k - before.len()]);
                        } else {
                            assert(params@[k] == before[k]);
                        }
                    }
                }
            }
            i = i + 1;
        }
        proof {
            assert(self.experts@.take(self.experts@.len() as int) =~= self.experts@);
        }
        proof {
            assert(params@ =~= self.param_seq());
        }
        params
    }
}

/// A causal transformer block whose feed-forward part is a mixture of experts:
/// `x + attention(ln1(x))`, then that plus `moe(ln2(.))`.
pub struct SparseMoEBlock {
    pub ln1: LayerNorm,
    pub attn: MultiHeadAttention,
    pub ln2: LayerNorm,
    pub moe: MoELayer,
}

impl SparseMoEBlock {
    /// The tensors that `parameters` gives, in order.
    pub open spec fn param_seq(&self) -> Seq<Tensor> {
        seq![self.ln1.weight, self.ln1.bias] + self.attn.param_seq() + seq![self.ln2.weight, self.ln2.bias] + self.moe.param_seq()
    }
}

impl SparseMoEBlock {
    /// Every part lives in `g`.
    pub open spec fn wf_in(&self, g: Graph) -> bool {
        &&& self.ln1.wf_in(g)
        &&& self.attn.wf_in(g)
        &&& self.ln2.wf_in(g)
        &&& self.moe.wf_in(g)
    }

    /// The attention's projections agree, the experts' width is positive and the router keeps
    /// the configured number of experts per token.
    pub open spec fn consistent(&self) -> bool {
        &&& self.attn.consistent()
        &&& self.moe.config.d_model > 0
        &&& self.moe.router.top_k == self.moe.config.top_k
    }

    /// Shape after the attention residual.
    pub open spec fn after_attention(&self, x: Seq<usize>) -> Seq<usize> {
        broadcast_spec(x, self.attn.out_shape(x))
    }

    /// The block accepts input of shape `x`.
    pub open spec fn accepts(&self, x: Seq<usize>) -> bool {
        let a = self.after_attention(x);
        &&& self.ln1.accepts(x)
        &&& self.attn.accepts(x)
        &&& broadcastable(x, self.attn.out_shape(x))
        &&& self.ln2.accepts(a)
        &&& self.moe.accepts(a)
        &&& broadcastable(a, self.moe.out_shape(a))
    }

    /// Shape of the block's output.
    pub open spec fn out_shape(&self, x: Seq<usize>) -> Seq<usize> {
        let a = self.after_attention(x);
        broadcast_spec(a, self.moe.out_shape(a))
    }

    /// A block of width `d_model` with `num_heads` causal heads and the experts of `moe_config`.
    pub fn new(g: &mut Graph, d_model: usize, num_heads: usize, moe_config: MoEConfig) -> (r: SparseMoEBlock)
        requires
            old(g).wf(),
            num_heads > 0,
            d_model % num_heads == 0,
        ensures
            final(g).wf(),
            old(g).extended_by(*final(g)),
            r.wf_in(*final(g)),
            r.ln1.normalized_dim == d_model,
            r.ln2.normalized_dim == d_model,
            r.attn.d_model == d_model && r.attn.num_heads == num_heads && r.attn.is_causal,
            r.moe.config == moe_config,
            r.moe.experts@.len() == moe_config.num_experts,
            moe_config.d_model > 0 ==> r.consistent(),
    {
        let ghost g0 = *g;
        let ln1 = LayerNorm::new(g, d_model);
        let ghost g1 = *g;
        let attn = MultiHeadAttention::new(g, d_model, num_heads, true);
        let ghost g2 = *g;
        let ln2 = LayerNorm::new(g, d_model);
        let ghost g3 = *g;
        let moe = MoELayer::new(g, moe_config);
        proof {
            g0.lemma_extended_trans(g1, g2);
            g0.lemma_extended_trans(g2, g3);
            g0.lemma_extended_trans(g3, *g);
            g1.lemma_extended_trans(g2, *g);
            g2.lemma_extended_trans(g3, *g);
            ln1.lemma_wf_in_shapes(g1);
            lemma_shapes_hold_extend(g1, *g, ln1.shapes());
            ln1.lemma_wf_in_shapes(*g);
            attn.lemma_wf_in_shapes(g2);
            lemma_shapes_hold_extend(g2, *g, attn.shapes());
            attn.lemma_wf_in_shapes(*g);
            ln2.lemma_wf_in_shapes(g3);
            lemma_shapes_hold_extend(g3, *g, ln2.shapes());
            ln2.lemma_wf_in_shapes(*g);
        }
        SparseMoEBlock { ln1, attn, ln2, moe }
    }

    /// Applies the block; returns its output and the experts' load-balancing loss. Succeeds
    /// exactly when the block accepts the input's shape.
    pub fn forward_with_aux(&self, g: &mut Graph, x: &Tensor) -> (r: Result<(Tensor, Tensor), EngineError>)
        requires
            old(g).wf(),
            self.wf_in(*old(g)),
            self.consistent(),
            x.valid(*old(g)),
        ensures
            final(g).wf(),
            old(g).extended_by(*final(g)),
            r is Ok <==> self.accepts(x.shape_of(*old(g))),
            r matches Ok((out, aux)) ==> out.valid(*final(g)) && out.shape_of(*final(g)) == self.out_shape(x.shape_of(*old(g)))
                && aux.valid(*final(g)) && aux.shape_of(*final(g)) == Seq::<usize>::empty(),
    {
        let ghost g0 = *g;
        let ghost xs = x.shape_of(*g);
        proof {
            self.ln1.lemma_wf_in_shapes(g0);
        }
        let norm1 = match self.ln1.forward_norm(g, x) {
            Ok(t) => t,
            Err(e) => {
                return Err(e);
            },
        };
        let ghost g1 = *g;
        proof {
            self.attn.lemma_wf_in_shapes(g0);
            lemma_shapes_hold_extend(g0, g1, self.attn.shapes());
            self.attn.lemma_wf_in_shapes(g1);
        }
        let attn_out = match self.attn.forward_attention(g, &norm1) {
            Ok(t) => t,
            Err(e) => {
                proof {
                    g0.lemma_extended_trans(g1, *g);
                }
                return Err(e);
            },
        };
        let ghost g2 = *g;
        proof {
            g0.lemma_extended_trans(g1, g2);
            assert(g2.nodes@[x.id as int] == g0.nodes@[x.id as int]);
        }
        let h = match x.add(g, &attn_out) {
            Ok(t) => t,
            Err(e) => {
                return Err(e);
            },
        };
        let ghost g3 = *g;
        proof {
            g0.lemma_extended_trans(g2, g3);
            self.ln2.lemma_wf_in_shapes(g0);
            lemma_shapes_hold_extend(g0, g3, self.ln2.shapes());
            self.ln2.lemma_wf_in_shapes(g3);
            crate::nn::attention::lemma_attention_preserves_shape(self.attn, xs);
            crate::shape::lemma_broadcast_self(xs);
            assert(h.shape_of(g3) == xs);
        }
        let norm2 = match self.ln2.forward_norm(g, &h) {
            Ok(t) => t,
            Err(e) => {
                proof {
                    g0.lemma_extended_trans(g3, *g);
                }
                return Err(e);
            },
        };
        let ghost g4 = *g;
        proof {
            g0.lemma_extended_trans(g3, g4);
            self.moe.router.gate.lemma_wf_in_shapes(g0);
            lemma_shapes_hold_extend(g0, g4, self.moe.router.gate.shapes());
            self.moe.router.gate.lemma_wf_in_shapes(g4);
            assert forall|e: int| 0 <= e < self.moe.experts@.len() implies (#[trigger] self.moe.experts@[e]).wf_in(g4) by {
                self.moe.experts@[e].lemma_wf_in_shapes(g0);
                lemma_shapes_hold_extend(g0, g4, self.moe.experts@[e].shapes());
                self.moe.experts@[e].lemma_wf_in_shapes(g4);
            }
        }
        let (moe_out, aux) = match self.moe.forward_with_aux(g, &norm2) {
            Ok(t) => t,
            Err(e) => {
                proof {
                    g0.lemma_extended_trans(g4, *g);
                }
                return Err(e);
            },
        };
        let ghost g5 = *g;
        proof {
            g0.lemma_extended_trans(g4, g5);
            assert(g5.nodes@[h.id as int] == g3.nodes@[h.id as int]);
        }
        let out = match h.add(g, &moe_out) {
            Ok(t) => t,
            Err(e) => {
                return Err(e);
            },
        };
        proof {
            g0.lemma_extended_trans(g5, *g);
            assert(g.nodes@[aux.id as int] == g5.nodes@[aux.id as int]);
        }
        Ok((out, aux))
    }

    /// The learnable tensors: the first normalization's, the attention's, the second
    /// normalization's and the mixture's.
    pub fn parameters(&self) -> (r: Vec<Tensor>)
        ensures
            r@ == self.param_seq(),
            forall|g: Graph| #[trigger] self.wf_in(g) ==> forall|k: int| 0 <= k < r@.len() ==> (#[trigger] r@[k]).valid(g),
    {
        let mut params: Vec<Tensor> = Vec::new();
        params.push(self.ln1.weight);
        params.push(self.ln1.bias);
        let mut a = self.attn.parameters();
        params.append(&mut a);
        params.push(self.ln2.weight);
        params.push(self.ln2.bias);
        let ghost before = params@;
        let mut m = self.moe.parameters();
        let ghost ms = m@;
        params.append(&mut m);
        proof {
            assert forall|g: Graph| #[trigger] self.wf_in(g) implies forall|k: int| 0 <= k < params@.len() ==> (#[trigger] params@[k]).valid(g) by {
                self.attn.lemma_wf_in_shapes(g);
                lemma_tensors_valid(g, self.attn.shapes());
                assert(self.attn.param_seq() =~= tensors_of(self.attn.shapes()));
                assert(self.moe.wf_in(g));
                assert forall|k: int| 0 <= k < params@.len() implies (#[trigger] params@[k]).valid(g) by {
                    if k >= before.len() {
                        assert(params@[k] == ms[k - before.len()]);
                    } else if k >= 2 && k < 2 + self.attn.param_seq().len() {
                        assert(params@[k] == tensors_of(self.attn.shapes())[k - 2]);
                    }
                }
            }
        }
        proof {
            assert(params@ =~= self.param_seq());
        }
        params
    }
}

/// A consistent sparse block keeps the shape of what it accepts: the attention residual keeps
/// the `[batch, seq, d_model]` shape, and so does the mixture, which hands rank-3 input back in
/// its own shape.
pub proof fn lemma_sparse_moe_block_preserves_shape(b: SparseMoEBlock, x: Seq<usize>)
    requires
        b.consistent(),
        b.accepts(x),
    ensures
        b.out_shape(x) == x,
{
    crate::nn::attention::lemma_attention_preserves_shape(b.attn, x);
    crate::shape::lemma_broadcast_self(x);
    assert(b.after_attention(x) == x);
    assert(b.moe.out_shape(x) == x);
}

impl MoELayer {
    /// The layer's tensors with their expected shapes: the router's gate, then each expert's.
    pub open spec fn shapes(&self) -> Seq<(Tensor, Seq<usize>)> {
        self.router.gate.shapes() + seq_shapes(self.experts@)
    }

    /// A graph that holds the layer's tensors with their expected shapes holds the layer.
    pub proof fn lemma_shapes_wf_in(&self, g: Graph)
        requires
            shapes_hold(g, self.shapes()),
        ensures
            self.wf_in(g),
    {
        lemma_shapes_hold_concat(g, self.router.gate.shapes(), seq_shapes(self.experts@));
        self.router.gate.lemma_wf_in_shapes(g);
        lemma_seq_shapes_hold(g, self.experts@);
        assert forall|e: int| 0 <= e < self.experts@.len() implies (#[trigger] self.experts@[e]).wf_in(g) by {
            assert(shapes_hold(g, self.experts@[e].tensor_shapes()));
            self.experts@[e].lemma_wf_in_shapes(g);
        }
    }
}

impl Module for MoELayer {
    open spec fn mode_is(&self, training: bool) -> bool {
        true
    }

    open spec fn param_list(&self) -> Seq<Tensor> {
        self.param_seq()
    }

    open spec fn tensor_shapes(&self) -> Seq<(Tensor, Seq<usize>)> {
        self.shapes()
    }

    open spec fn buffer_shapes(&self) -> Seq<(usize, Seq<usize>)> {
        Seq::empty()
    }

    /// The mixed output of [`MoELayer::forward_with_aux`], without the loss. A model width of
    /// 0, a router keeping another number of experts than configured, a scalar input or one
    /// whose element count overflows is refused with `InvalidArgument`.
    fn forward(&self, g: &mut Graph, input: &Tensor) -> (r: Result<Tensor, EngineError>)
        ensures
            ({
                let xs = input.shape_of(*old(g));
                let runnable = self.config.d_model > 0 && self.router.top_k == self.config.top_k && xs.len() >= 1 && shape_fits(xs);
                &&& !runnable ==> (r matches Err(e) && e is InvalidArgument && *final(g) == *old(g))
                &&& runnable ==> (r is Ok <==> self.accepts(xs))
                &&& runnable ==> (r matches Ok(t) ==> t.shape_of(*final(g)) == self.out_shape(xs))
            }),
    {
        let shape = input.shape(g);
        if self.config.d_model == 0 || self.router.top_k != self.config.top_k || shape.len() == 0 {
            return Err(EngineError::InvalidArgument("mixture of experts: zero width, inconsistent top-k or scalar input".to_string()));
        }
        if checked_numel(shape.as_slice()).is_none() {
            return Err(EngineError::InvalidArgument("mixture of experts: element count overflows".to_string()));
        }
        proof {
            self.lemma_shapes_wf_in(*g);
        }
        match self.forward_with_aux(g, input) {
            Ok((out, _aux)) => Ok(out),
            Err(e) => Err(e),
        }
    }

    fn parameters(&self) -> (r: Vec<Tensor>) {
        let r = MoELayer::parameters(self);
        proof {
            assert forall|g: Graph| #[trigger] shapes_hold(g, self.tensor_shapes()) implies forall|k: int| 0 <= k < r@.len() ==> (#[trigger] r@[k]).valid(g) by {
                self.lemma_shapes_wf_in(g);
            }
        }
        r
    }

    /// Nothing switches between training and evaluation.
    fn train(&mut self) {
    }

    /// Nothing switches between training and evaluation.
    fn eval(&mut self) {
    }
}

/// Whether the attention's projections agree with its width and heads.
fn attention_consistent(a: &MultiHeadAttention) -> (r: bool)
    ensures
        r == a.consistent(),
{
    let heads_ok = match a.num_heads.checked_mul(a.head_dim) {
        Some(p) => p == a.d_model,
        None => false,
    };
    a.q_proj.in_features == a.d_model && a.q_proj.out_features == a.d_model
        && a.k_proj.in_features == a.d_model && a.k_proj.out_features == a.d_model
        && a.v_proj.in_features == a.d_model && a.v_proj.out_features == a.d_model
        && a.out_proj.in_features == a.d_model && a.out_proj.out_features == a.d_model
        && heads_ok
}

impl SparseMoEBlock {
    /// The block's tensors with their expected shapes: the first normalization's, the
    /// attention's, the second normalization's and the mixture's.
    pub open spec fn shapes(&self) -> Seq<(Tensor, Seq<usize>)> {
        self.ln1.shapes() + self.attn.shapes() + self.ln2.shapes() + self.moe.shapes()
    }

    /// A graph that holds the block's tensors with their expected shapes holds the block.
    pub proof fn lemma_shapes_wf_in(&self, g: Graph)
        requires
            shapes_hold(g, self.shapes()),
        ensures
            self.wf_in(g),
    {
        let a = self.ln1.shapes();
        let b = self.attn.shapes();
        let c = self.ln2.shapes();
        let d = self.moe.shapes();
        lemma_shapes_hold_concat(g, a + b + c, d);
        lemma_shapes_hold_concat(g, a + b, c);
        lemma_shapes_hold_concat(g, a, b);
        self.ln1.lemma_wf_in_shapes(g);
        self.attn.lemma_wf_in_shapes(g);
        self.ln2.lemma_wf_in_shapes(g);
        self.moe.lemma_shapes_wf_in(g);
    }
}

impl Module for SparseMoEBlock {
    open spec fn mode_is(&self, training: bool) -> bool {
        true
    }

    open spec fn param_list(&self) -> Seq<Tensor> {
        self.param_seq()
    }

    open spec fn tensor_shapes(&self) -> Seq<(Tensor, Seq<usize>)> {
        self.shapes()
    }

    open spec fn buffer_shapes(&self) -> Seq<(usize, Seq<usize>)> {
        Seq::empty()
    }

    /// The output of [`SparseMoEBlock::forward_with_aux`], without the loss; a block that is not
    /// consistent is refused with `InvalidArgument`.
    fn forward(&self, g: &mut Graph, input: &Tensor) -> (r: Result<Tensor, EngineError>)
        ensures
            !self.consistent() ==> (r matches Err(e) && e is InvalidArgument && *final(g) == *old(g)),
            self.consistent() ==> (r is Ok <==> self.accepts(input.shape_of(*old(g)))),
            self.consistent() ==> (r matches Ok(t) ==> t.shape_of(*final(g)) == self.out_shape(input.shape_of(*old(g)))),
    {
        if !attention_consistent(&self.attn) || self.moe.config.d_model == 0 || self.moe.router.top_k != self.moe.config.top_k {
            return Err(EngineError::InvalidArgument("sparse block: inconsistent attention or mixture".to_string()));
        }
        proof {
            self.lemma_shapes_wf_in(*g);
        }
        match self.forward_with_aux(g, input) {
            Ok((out, _aux)) => Ok(out),
            Err(e) => Err(e),
        }
    }

    fn parameters(&self) -> (r: Vec<Tensor>) {
        let r = SparseMoEBlock::parameters(self);
        proof {
            assert forall|g: Graph| #[trigger] shapes_hold(g, self.tensor_shapes()) implies forall|k: int| 0 <= k < r@.len() ==> (#[trigger] r@[k]).valid(g) by {
                self.lemma_shapes_wf_in(g);
            }
        }
        r
    }

    /// Nothing switches between training and evaluation.
    fn train(&mut self) {
    }

    /// Nothing switches between training and evaluation.
    fn eval(&mut self) {
    }
}

} // verus!
