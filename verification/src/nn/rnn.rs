//! Recurrent cells: Elman RNN, LSTM and GRU.

use vstd::prelude::*;
use crate::autograd::node::{GainKind, Graph, LeafInit, Op};
use crate::autograd::tensor::{Tensor, lemma_reads_extend, lemma_reads_in_range, lemma_reads_self, lemma_reads_through, lemma_reads_trans, reads};
use crate::error::EngineError;
use crate::nn::linear::linear_out;
use crate::autograd::tensor::lemma_cat_uniform;
use crate::nn::dropout::{Dropout, positive_bits, probability_bits, zero_bits};
use crate::nn::module::{Module, lemma_shapes_hold_concat, lemma_tensors_of_concat, lemma_tensors_valid, shapes_hold, tensors_of};
use crate::shape::{
    broadcast_spec, broadcastable, lemma_broadcast_absorb, lemma_broadcast_absorb_right,
    lemma_broadcast_self, lemma_broadcast_suffix, lemma_matmul_tb_by_matrix, shape1, shape2, shape3, slice_spec,
    squeeze_spec, unsqueeze_spec,
};

verus! {

/// Non-linearity of an Elman RNN cell.
#[derive(Clone, Copy, PartialEq, Eq, Structural)]
pub enum RNNActivation {
    Tanh,
    ReLU,
}

/// `x` can be projected by a `[m, k]` weight: rank at least 2 and last dimension `k`.
pub open spec fn projects(x: Seq<usize>, k: usize) -> bool {
    x.len() >= 2 && x[x.len() - 1] == k
}

/// `w` is a `[m, k]` weight and `b`, if present, an `[m]` bias in `g`.
pub open spec fn proj_wf(g: Graph, w: Tensor, b: Option<Tensor>, m: usize, k: usize) -> bool {
    &&& w.valid(g)
    &&& w.shape_of(g) == seq![m, k]
    &&& b matches Some(bb) ==> bb.valid(g) && bb.shape_of(g) == seq![m]
}

/// Computes `x @ w^T (+ b)` for a `[m, k]` weight and an optional `[m]` bias.
fn project(g: &mut Graph, x: &Tensor, w: &Tensor, b: Option<Tensor>, m: usize, k: usize) -> (r: Result<Tensor, EngineError>)
    requires
        old(g).wf(),
        x.valid(*old(g)),
        proj_wf(*old(g), *w, b, m, k),
    ensures
        final(g).wf(),
        old(g).extended_by(*final(g)),
        r is Ok <==> projects(x.shape_of(*old(g)), k),
        r matches Ok(t) ==> t.valid(*final(g)) && t.shape_of(*final(g)) == linear_out(x.shape_of(*old(g)), m),
        r matches Ok(t) ==> reads(*final(g), t.id as int, x.id as int),
{
    let ghost g0 = *g;
    let ghost xs = x.shape_of(*g);
    proof {
        if projects(xs, k) {
            lemma_matmul_tb_by_matrix(xs, m, k);
        }
    }
    let y = x.matmul_transposed_b(g, w)?;
    proof {
        lemma_reads_self(g0, x.id as int);
        lemma_reads_through(g0, *g, y.id as int, 0, x.id as int);
    }
    match b {
        Some(bb) => {
            let ghost g1 = *g;
            let ghost ys = y.shape_of(*g);
            proof {
                assert(seq![m] =~= ys.subrange(ys.len() - 1, ys.len() as int));
                lemma_broadcast_suffix(ys, seq![m]);
            }
            let t = y.add(g, &bb)?;
            proof {
                g0.lemma_extended_trans(g1, *g);
                lemma_reads_through(g1, *g, t.id as int, 0, x.id as int);
            }
            Ok(t)
        },
        None => Ok(y),
    }
}

/// Single-step Elman RNN cell: `h' = act(x W_ih^T + b_ih + h W_hh^T + b_hh)`.
#[derive(Clone, Copy)]
pub struct RNNCell {
    pub weight_ih: Tensor,
    pub weight_hh: Tensor,
    pub bias_ih: Option<Tensor>,
    pub bias_hh: Option<Tensor>,
    pub input_size: usize,
    pub hidden_size: usize,
    pub activation: RNNActivation,
}

/// The cell's input projection has shape `xo` and the hidden one `ho`; the two can be added.
pub open spec fn rnn_ok(x: Seq<usize>, h: Option<Seq<usize>>, input_size: usize, hidden_size: usize) -> bool {
    &&& projects(x, input_size)
    &&& h matches Some(hs) ==> projects(hs, hidden_size) && broadcastable(
        linear_out(x, hidden_size),
        linear_out(hs, hidden_size),
    )
}

/// Shape of the new hidden state of an Elman cell.
pub open spec fn rnn_out(x: Seq<usize>, h: Option<Seq<usize>>, hidden_size: usize) -> Seq<usize> {
    match h {
        Some(hs) => broadcast_spec(linear_out(x, hidden_size), linear_out(hs, hidden_size)),
        None => linear_out(x, hidden_size),
    }
}

/// Shape of an optional tensor.
pub open spec fn opt_shape(g: Graph, t: Option<&Tensor>) -> Option<Seq<usize>> {
    match t {
        Some(x) => Some(x.shape_of(g)),
        None => None,
    }
}

impl RNNCell {
    /// The cell's tensors live in `g` with the expected shapes.
    pub open spec fn wf_in(&self, g: Graph) -> bool {
        &&& proj_wf(g, self.weight_ih, self.bias_ih, self.hidden_size, self.input_size)
        &&& proj_wf(g, self.weight_hh, self.bias_hh, self.hidden_size, self.hidden_size)
    }

    /// A cell with bias.
    pub fn new(g: &mut Graph, input_size: usize, hidden_size: usize, activation: RNNActivation) -> (r: RNNCell)
        requires
            old(g).wf(),
        ensures
            final(g).wf(),
            old(g).extended_by(*final(g)),
            r.wf_in(*final(g)),
            r.input_size == input_size,
            r.hidden_size == hidden_size,
            r.activation == activation,
            r.bias_ih is Some && r.bias_hh is Some,
    {
        Self::with_bias(g, input_size, hidden_size, activation, true)
    }

    /// A cell whose weights are Kaiming-uniform scaled by the gain of the activation, with
    /// biases uniform in `[-1/sqrt(hidden_size), 1/sqrt(hidden_size))` when `has_bias`.
    pub fn with_bias(g: &mut Graph, input_size: usize, hidden_size: usize, activation: RNNActivation, has_bias: bool) -> (r: RNNCell)
        requires
            old(g).wf(),
        ensures
            final(g).wf(),
            old(g).extended_by(*final(g)),
            r.wf_in(*final(g)),
            r.input_size == input_size,
            r.hidden_size == hidden_size,
            r.activation == activation,
            r.bias_ih is Some == has_bias,
            r.bias_hh is Some == has_bias,
            final(g).nodes@[r.weight_ih.id as int].op == Op::Leaf(LeafInit::GainKaimingUniform {
                fan_in: input_size,
                gain: if activation == RNNActivation::Tanh { GainKind::Tanh } else { GainKind::ReLU },
            }),
            final(g).nodes@[r.weight_hh.id as int].op == Op::Leaf(LeafInit::GainKaimingUniform {
                fan_in: hidden_size,
                gain: if activation == RNNActivation::Tanh { GainKind::Tanh } else { GainKind::ReLU },
            }),
    {
        let gain = match activation {
            RNNActivation::Tanh => GainKind::Tanh,
            RNNActivation::ReLU => GainKind::ReLU,
        };
        let ghost g0 = *g;
        let weight_ih = Tensor::leaf(g, shape2(hidden_size, input_size).as_slice(), LeafInit::GainKaimingUniform { fan_in: input_size, gain }, true);
        let ghost g1 = *g;
        let weight_hh = Tensor::leaf(g, shape2(hidden_size, hidden_size).as_slice(), LeafInit::GainKaimingUniform { fan_in: hidden_size, gain }, true);
        let ghost g2 = *g;
        proof {
            g0.lemma_extended_trans(g1, g2);
        }
        let (bias_ih, bias_hh) = if has_bias {
            let b1 = Tensor::leaf(g, shape1(hidden_size).as_slice(), LeafInit::FanInUniform { fan_in: hidden_size }, true);
            let ghost g3 = *g;
            let b2 = Tensor::leaf(g, shape1(hidden_size).as_slice(), LeafInit::FanInUniform { fan_in: hidden_size }, true);
            proof {
                g2.lemma_extended_trans(g3, *g);
                g0.lemma_extended_trans(g2, *g);
            }
            (Some(b1), Some(b2))
        } else {
            (None, None)
        };
        RNNCell { weight_ih, weight_hh, bias_ih, bias_hh, input_size, hidden_size, activation }
    }

    /// One step: the new hidden state from input `x` and the previous hidden state, if any.
    pub fn forward_step(&self, g: &mut Graph, input: &Tensor, hidden: Option<&Tensor>) -> (r: Result<Tensor, EngineError>)
        requires
            old(g).wf(),
            self.wf_in(*old(g)),
            input.valid(*old(g)),
            hidden matches Some(h) ==> h.valid(*old(g)),
        ensures
            final(g).wf(),
            old(g).extended_by(*final(g)),
            r is Ok <==> rnn_ok(input.shape_of(*old(g)), opt_shape(*old(g), hidden), self.input_size, self.hidden_size),
            r matches Ok(t) ==> t.valid(*final(g)) && t.shape_of(*final(g)) == rnn_out(input.shape_of(*old(g)), opt_shape(*old(g), hidden), self.hidden_size)
                && final(g).nodes@[t.id as int].op == (if self.activation == RNNActivation::Tanh { Op::Tanh } else { Op::Relu }),
            r matches Ok(t) ==> reads(*final(g), t.id as int, input.id as int)
                && (hidden matches Some(h) ==> reads(*final(g), t.id as int, h.id as int)),
    {
        let ghost g0 = *g;
        let ghost xs = input.shape_of(*g);
        let hs = self.hidden_size;
        let x_proj = project(g, input, &self.weight_ih, self.bias_ih, hs, self.input_size)?;
        let ghost g1 = *g;
        let pre = match hidden {
            Some(h) => {
                let ghost hsh = h.shape_of(*g);
                let h_proj = match project(g, h, &self.weight_hh, self.bias_hh, hs, hs) {
                    Ok(t) => t,
                    Err(e) => {
                        proof {
                            g0.lemma_extended_trans(g1, *g);
                        }
                        return Err(e);
                    },
                };
                let ghost g2 = *g;
                let sum = match x_proj.add(g, &h_proj) {
                    Ok(t) => t,
                    Err(e) => {
                        proof {
                            g0.lemma_extended_trans(g1, g2);
                            g0.lemma_extended_trans(g2, *g);
                        }
                        return Err(e);
                    },
                };
                proof {
                    g0.lemma_extended_trans(g1, g2);
                    g0.lemma_extended_trans(g2, *g);
                    lemma_reads_extend(g1, g2, x_proj.id as int, input.id as int);
                    lemma_reads_through(g2, *g, sum.id as int, 0, input.id as int);
                    lemma_reads_through(g2, *g, sum.id as int, 1, h.id as int);
                }
                sum
            },
            None => {
                match self.bias_hh {
                    Some(b) => {
                        let ghost xo = x_proj.shape_of(*g);
                        proof {
                            assert(seq![hs] =~= xo.subrange(xo.len() - 1, xo.len() as int));
                            lemma_broadcast_suffix(xo, seq![hs]);
                        }
                        let t = x_proj.add(g, &b)?;
                        proof {
                            g0.lemma_extended_trans(g1, *g);
                            lemma_reads_through(g1, *g, t.id as int, 0, input.id as int);
                        }
                        t
                    },
                    None => x_proj,
                }
            },
        };
        let ghost g3 = *g;
        assert(reads(g3, pre.id as int, input.id as int));
        assert(hidden matches Some(h) ==> reads(g3, pre.id as int, h.id as int));
        let out = match self.activation {
            RNNActivation::Tanh => pre.tanh(g),
            RNNActivation::ReLU => pre.relu(g),
        };
        proof {
            g0.lemma_extended_trans(g3, *g);
            if let Ok(o) = out {
                lemma_reads_through(g3, *g, o.id as int, 0, input.id as int);
                if let Some(h) = hidden {
                    lemma_reads_through(g3, *g, o.id as int, 0, h.id as int);
                }
            }
        }
        out
    }

    /// The learnable tensors: both weights, then the biases that exist.
    pub fn parameters(&self) -> (r: Vec<Tensor>)
        ensures
            r@ == seq![self.weight_ih, self.weight_hh]
                + (match self.bias_ih { Some(b) => seq![b], None => Seq::empty() })
                + (match self.bias_hh { Some(b) => seq![b], None => Seq::empty() }),
    {
        cell_parameters(self.weight_ih, self.weight_hh, self.bias_ih, self.bias_hh)
    }
}

fn cell_parameters(w_ih: Tensor, w_hh: Tensor, b_ih: Option<Tensor>, b_hh: Option<Tensor>) -> (r: Vec<Tensor>)
    ensures
        r@ == seq![w_ih, w_hh]
            + (match b_ih { Some(b) => seq![b], None => Seq::empty() })
            + (match b_hh { Some(b) => seq![b], None => Seq::empty() }),
{
    let mut params: Vec<Tensor> = Vec::new();
    params.push(w_ih);
    params.push(w_hh);
    match b_ih {
        Some(b) => {
            params.push(b);
        },
        None => {},
    }
    match b_hh {
        Some(b) => {
            params.push(b);
        },
        None => {},
    }
    assert(params@ =~= seq![w_ih, w_hh]
        + (match b_ih { Some(b) => seq![b], None => Seq::empty() })
        + (match b_hh { Some(b) => seq![b], None => Seq::empty() }));
    params
}

/// Slices `[lo, hi)` of axis 1.
fn gate(g: &mut Graph, t: &Tensor, lo: usize, hi: usize) -> (r: Result<Tensor, EngineError>)
    requires
        old(g).wf(),
        t.valid(*old(g)),
        t.shape_of(*old(g)).len() >= 2,
        lo <= hi,
    ensures
        final(g).wf(),
        old(g).extended_by(*final(g)),
        r is Ok <==> hi <= t.shape_of(*old(g))[1],
        r matches Ok(s) ==> s.valid(*final(g)) && s.shape_of(*final(g)) == slice_spec(t.shape_of(*old(g)), 1, lo as int, hi as int),
        r matches Ok(s) ==> reads(*final(g), s.id as int, t.id as int),
        r matches Ok(s) ==> final(g).nodes@[s.id as int].op == (Op::Slice { axis: 1, start: lo, end: hi })
            && final(g).nodes@[s.id as int].inputs@ == seq![t.id],
{
    let ghost g0 = *g;
    let r = t.slice(g, 1, lo, hi);
    proof {
        if let Ok(s) = r {
            lemma_reads_self(g0, t.id as int);
            lemma_reads_through(g0, *g, s.id as int, 0, t.id as int);
        }
    }
    r
}

/// Node `n` of `g` is the activation `act` of columns `lo..hi` (along axis 1) of node `gates`.
pub open spec fn gate_of(g: Graph, n: int, act: Op, gates: int, lo: int, hi: int) -> bool {
    let sl = g.nodes@[n].inputs@[0] as int;
    &&& g.nodes@[n].op == act
    &&& g.nodes@[n].inputs@.len() == 1
    &&& g.nodes@[sl].op == (Op::Slice { axis: 1, start: lo as usize, end: hi as usize })
    &&& g.nodes@[sl].inputs@ == seq![gates as usize]
}

/// Node `n` of `g` is the input gate times the candidate of an LSTM step over `gates`: the
/// sigmoid of the first block of `h` columns times the tanh of the third.
pub open spec fn lstm_input_term(g: Graph, n: int, gates: int, h: int) -> bool {
    &&& g.nodes@[n].op == Op::Mul
    &&& g.nodes@[n].inputs@.len() == 2
    &&& gate_of(g, g.nodes@[n].inputs@[0] as int, Op::Sigmoid, gates, 0, h)
    &&& gate_of(g, g.nodes@[n].inputs@[1] as int, Op::Tanh, gates, 2 * h, 3 * h)
}

/// Nodes `hn` and `cn` of `g` are an LSTM step over pre-activations `gates`, four
/// blocks of `h` columns (input, forget, candidate, output), from cell state `c` when there is
/// one: `cn = f * c + i * g` (just `i * g` without a state) and `hn = o * tanh(cn)`, where the
/// input, forget and output gates `i`, `f`, `o` are sigmoids of their blocks and the candidate
/// `g` is the tanh of its block.
pub open spec fn lstm_step_structure(g: Graph, hn: int, cn: int, gates: int, h: int, c: Option<int>) -> bool {
    let hins = g.nodes@[hn].inputs@;
    let cins = g.nodes@[cn].inputs@;
    &&& g.nodes@[hn].op == Op::Mul && hins.len() == 2
    &&& gate_of(g, hins[0] as int, Op::Sigmoid, gates, 3 * h, 4 * h)
    &&& g.nodes@[hins[1] as int].op == Op::Tanh && g.nodes@[hins[1] as int].inputs@ == seq![cn as usize]
    &&& match c {
        Some(cp) => {
            let fc = cins[0] as int;
            &&& g.nodes@[cn].op == Op::Add && cins.len() == 2
            &&& g.nodes@[fc].op == Op::Mul && g.nodes@[fc].inputs@.len() == 2 && g.nodes@[fc].inputs@[1] as int == cp
            &&& gate_of(g, g.nodes@[fc].inputs@[0] as int, Op::Sigmoid, gates, h, 2 * h)
            &&& lstm_input_term(g, cins[1] as int, gates, h)
        },
        None => lstm_input_term(g, cn, gates, h),
    }
}

/// In an LSTM step the input, forget and output gates are sigmoids of the first, second and
/// fourth blocks of `gates` and the candidate is the tanh of the third block;
/// the new hidden state is the output gate times the tanh of the new cell state.
pub proof fn lemma_lstm_gate_activations(g: Graph, hn: int, cn: int, gates: int, h: int, cp: int)
    requires
        lstm_step_structure(g, hn, cn, gates, h, Some(cp)),
    ensures
        ({
            let cins = g.nodes@[cn].inputs@;
            let fc = cins[0] as int;
            let ig = cins[1] as int;
            let hins = g.nodes@[hn].inputs@;
            &&& gate_of(g, g.nodes@[ig].inputs@[0] as int, Op::Sigmoid, gates, 0, h)
            &&& gate_of(g, g.nodes@[fc].inputs@[0] as int, Op::Sigmoid, gates, h, 2 * h)
            &&& gate_of(g, g.nodes@[ig].inputs@[1] as int, Op::Tanh, gates, 2 * h, 3 * h)
            &&& gate_of(g, hins[0] as int, Op::Sigmoid, gates, 3 * h, 4 * h)
            &&& g.nodes@[cn].op == Op::Add && g.nodes@[fc].inputs@[1] as int == cp
            &&& g.nodes@[hins[1] as int].op == Op::Tanh && g.nodes@[hins[1] as int].inputs@ == seq![cn as usize]
        }),
{
}

/// Single-step LSTM cell with fused gate projections in the order input, forget, candidate,
/// output.
#[derive(Clone, Copy)]
pub struct LSTMCell {
    pub weight_ih: Tensor,
    pub weight_hh: Tensor,
    pub bias_ih: Option<Tensor>,
    pub bias_hh: Option<Tensor>,
    pub input_size: usize,
    pub hidden_size: usize,
}

/// Shape of the fused gate pre-activations of an LSTM (`4 * hidden` columns) or GRU
/// (`3 * hidden` columns) step.
pub open spec fn gates_shape(x: Seq<usize>, h: Option<Seq<usize>>, width: usize) -> Seq<usize> {
    match h {
        Some(hs) => broadcast_spec(linear_out(x, width), linear_out(hs, width)),
        None => linear_out(x, width),
    }
}

/// An LSTM step on input of shape `x` with state shapes `(h, c)` succeeds.
pub open spec fn lstm_ok(x: Seq<usize>, state: Option<(Seq<usize>, Seq<usize>)>, input_size: usize, hidden: usize) -> bool {
    let h = match state { Some((hs, _)) => Some(hs), None => None };
    let gs = gates_shape(x, h, (4 * hidden) as usize);
    let q = gs.update(1, hidden);
    &&& projects(x, input_size)
    &&& h matches Some(hs) ==> projects(hs, hidden) && broadcastable(linear_out(x, (4 * hidden) as usize), linear_out(hs, (4 * hidden) as usize))
    &&& 4 * hidden <= gs[1]
    &&& state matches Some((_, cs)) ==> broadcastable(q, cs)
}

/// Shape of the new hidden and cell states of an LSTM step.
pub open spec fn lstm_out(x: Seq<usize>, state: Option<(Seq<usize>, Seq<usize>)>, hidden: usize) -> Seq<usize> {
    let h = match state { Some((hs, _)) => Some(hs), None => None };
    let q = gates_shape(x, h, (4 * hidden) as usize).update(1, hidden);
    match state {
        Some((_, cs)) => broadcast_spec(q, cs),
        None => q,
    }
}

/// Shapes of an optional `(hidden, cell)` state.
pub open spec fn state_shapes(g: Graph, s: Option<(&Tensor, &Tensor)>) -> Option<(Seq<usize>, Seq<usize>)> {
    match s {
        Some((h, c)) => Some((h.shape_of(g), c.shape_of(g))),
        None => None,
    }
}

impl LSTMCell {
    /// The cell's tensors live in `g` with the expected shapes.
    pub open spec fn wf_in(&self, g: Graph) -> bool {
        &&& 4 * self.hidden_size <= usize::MAX
        &&& proj_wf(g, self.weight_ih, self.bias_ih, (4 * self.hidden_size) as usize, self.input_size)
        &&& proj_wf(g, self.weight_hh, self.bias_hh, (4 * self.hidden_size) as usize, self.hidden_size)
    }

    /// A cell with bias.
    pub fn new(g: &mut Graph, input_size: usize, hidden_size: usize) -> (r: LSTMCell)
        requires
            old(g).wf(),
            4 * hidden_size <= usize::MAX,
        ensures
            final(g).wf(),
            old(g).extended_by(*final(g)),
            r.wf_in(*final(g)),
            r.input_size == input_size,
            r.hidden_size == hidden_size,
            r.bias_ih is Some && r.bias_hh is Some,
    {
        Self::with_bias(g, input_size, hidden_size, true)
    }

    /// A cell with `[4H, input]` and `[4H, H]` weights, Kaiming-uniform scaled by the sigmoid
    /// gain; when `has_bias`, uniform biases whose forget-gate block is 1 (input-hidden) and 0
    /// (hidden-hidden).
    pub fn with_bias(g: &mut Graph, input_size: usize, hidden_size: usize, has_bias: bool) -> (r: LSTMCell)
        requires
            old(g).wf(),
            4 * hidden_size <= usize::MAX,
        ensures
            final(g).wf(),
            old(g).extended_by(*final(g)),
            r.wf_in(*final(g)),
            r.input_size == input_size,
            r.hidden_size == hidden_size,
            r.bias_ih is Some == has_bias,
            r.bias_hh is Some == has_bias,
            final(g).nodes@[r.weight_ih.id as int].op == Op::Leaf(LeafInit::GainKaimingUniform { fan_in: input_size, gain: GainKind::Sigmoid }),
            final(g).nodes@[r.weight_hh.id as int].op == Op::Leaf(LeafInit::GainKaimingUniform { fan_in: hidden_size, gain: GainKind::Sigmoid }),
            r.bias_ih matches Some(b) ==> final(g).nodes@[b.id as int].op == Op::Leaf(LeafInit::LstmBias { hidden_size, forget_one: true }),
            r.bias_hh matches Some(b) ==> final(g).nodes@[b.id as int].op == Op::Leaf(LeafInit::LstmBias { hidden_size, forget_one: false }),
    {
        let h4 = 4 * hidden_size;
        let ghost g0 = *g;
        let weight_ih = Tensor::leaf(g, shape2(h4, input_size).as_slice(), LeafInit::GainKaimingUniform { fan_in: input_size, gain: GainKind::Sigmoid }, true);
        let ghost g1 = *g;
        let weight_hh = Tensor::leaf(g, shape2(h4, hidden_size).as_slice(), LeafInit::GainKaimingUniform { fan_in: hidden_size, gain: GainKind::Sigmoid }, true);
        let ghost g2 = *g;
        proof {
            g0.lemma_extended_trans(g1, g2);
        }
        let (bias_ih, bias_hh) = if has_bias {
            let b1 = Tensor::leaf(g, shape1(h4).as_slice(), LeafInit::LstmBias { hidden_size, forget_one: true }, true);
            let ghost g3 = *g;
            let b2 = Tensor::leaf(g, shape1(h4).as_slice(), LeafInit::LstmBias { hidden_size, forget_one: false }, true);
            proof {
                g2.lemma_extended_trans(g3, *g);
                g0.lemma_extended_trans(g2, *g);
            }
            (Some(b1), Some(b2))
        } else {
            (None, None)
        };
        LSTMCell { weight_ih, weight_hh, bias_ih, bias_hh, input_size, hidden_size }
    }

    /// One step: `(h_t, c_t)` from input `x` and the previous `(h, c)`, if any, with
    /// `c_t = f * c + i * g` and `h_t = o * tanh(c_t)`.
    pub fn forward_step(&self, g: &mut Graph, input: &Tensor, state: Option<(&Tensor, &Tensor)>) -> (r: Result<(Tensor, Tensor), EngineError>)
        requires
            old(g).wf(),
            self.wf_in(*old(g)),
            input.valid(*old(g)),
            state matches Some((h, c)) ==> h.valid(*old(g)) && c.valid(*old(g)),
        ensures
            final(g).wf(),
            old(g).extended_by(*final(g)),
            r is Ok <==> lstm_ok(input.shape_of(*old(g)), state_shapes(*old(g), state), self.input_size, self.hidden_size),
            r matches Ok((hn, cn)) ==> hn.valid(*final(g)) && cn.valid(*final(g))
                && hn.shape_of(*final(g)) == lstm_out(input.shape_of(*old(g)), state_shapes(*old(g), state), self.hidden_size)
                && cn.shape_of(*final(g)) == lstm_out(input.shape_of(*old(g)), state_shapes(*old(g), state), self.hidden_size),
            r matches Ok((hn, cn)) ==> reads(*final(g), hn.id as int, input.id as int)
                && (state matches Some((hp, cp)) ==> reads(*final(g), hn.id as int, hp.id as int)
                    && reads(*final(g), cn.id as int, cp.id as int)),
            r matches Ok((hn, cn)) ==> exists|gates: int| lstm_step_structure(*final(g), hn.id as int, cn.id as int, gates,
                self.hidden_size as int, match state { Some((_, cp)) => Some(cp.id as int), None => None })
                && #[trigger] reads(*final(g), gates, input.id as int),
    {
        let ghost g0 = *g;
        let ghost xs = input.shape_of(*g);
        let ghost st = state_shapes(*g, state);
        let h = self.hidden_size;
        let h4 = 4 * h;
        let x_proj = project(g, input, &self.weight_ih, self.bias_ih, h4, self.input_size)?;
        let ghost g1 = *g;
        let gates = match state {
            Some((hp, _)) => {
                let h_proj = match project(g, hp, &self.weight_hh, self.bias_hh, h4, h) {
                    Ok(t) => t,
                    Err(e) => {
                        proof { g0.lemma_extended_trans(g1, *g); }
                        return Err(e);
                    },
                };
                let ghost g2 = *g;
                let sum = match x_proj.add(g, &h_proj) {
                    Ok(t) => t,
                    Err(e) => {
                        proof { g0.lemma_extended_trans(g1, g2); g0.lemma_extended_trans(g2, *g); }
                        return Err(e);
                    },
                };
                proof {
                    g0.lemma_extended_trans(g1, g2);
                    g0.lemma_extended_trans(g2, *g);
                    lemma_reads_extend(g1, g2, x_proj.id as int, input.id as int);
                    lemma_reads_through(g2, *g, sum.id as int, 0, input.id as int);
                    lemma_reads_through(g2, *g, sum.id as int, 1, hp.id as int);
                }
                sum
            },
            None => {
                match self.bias_hh {
                    Some(b) => {
                        let ghost xo = x_proj.shape_of(*g);
                        proof {
                            assert(seq![h4] =~= xo.subrange(xo.len() - 1, xo.len() as int));
                            lemma_broadcast_suffix(xo, seq![h4]);
                        }
                        let t = x_proj.add(g, &b)?;
                        proof {
                            g0.lemma_extended_trans(g1, *g);
                            lemma_reads_through(g1, *g, t.id as int, 0, input.id as int);
                        }
                        t
                    },
                    None => x_proj,
                }
            },
        };
        let ghost hsh = match st { Some((hs, _)) => Some(hs), None => None };
        let ghost gs = gates_shape(xs, hsh, h4);
        assert(gates.shape_of(*g) == gs);
        let ghost ga = *g;
        assert(reads(ga, gates.id as int, input.id as int));
        assert(state matches Some((hp, _)) ==> reads(ga, gates.id as int, hp.id as int));
        let i_raw = match gate(g, &gates, 0, h) {
            Ok(t) => t,
            Err(e) => { proof { g0.lemma_extended_trans(ga, *g); } return Err(e); },
        };
        let ghost gb = *g;
        proof { g0.lemma_extended_trans(ga, gb); }
        let f_raw = match gate(g, &gates, h, 2 * h) {
            Ok(t) => t,
            Err(e) => { proof { g0.lemma_extended_trans(gb, *g); } return Err(e); },
        };
        let ghost gc = *g;
        proof { g0.lemma_extended_trans(gb, gc); }
        let g_raw = match gate(g, &gates, 2 * h, 3 * h) {
            Ok(t) => t,
            Err(e) => { proof { g0.lemma_extended_trans(gc, *g); } return Err(e); },
        };
        let ghost gd = *g;
        proof { g0.lemma_extended_trans(gc, gd); }
        let o_raw = match gate(g, &gates, 3 * h, h4) {
            Ok(t) => t,
            Err(e) => { proof { g0.lemma_extended_trans(gd, *g); } return Err(e); },
        };
        let ghost ge = *g;
        proof {
            g0.lemma_extended_trans(gd, ge);
            assert(slice_spec(gs, 1, 0, h as int) =~= gs.update(1, h));
            assert(slice_spec(gs, 1, h as int, 2 * h) =~= gs.update(1, h));
            assert(slice_spec(gs, 1, 2 * h, 3 * h) =~= gs.update(1, h));
            assert(slice_spec(gs, 1, 3 * h, h4 as int) =~= gs.update(1, h));
        }
        let ghost q = gs.update(1, h);
        let i_gate = i_raw.sigmoid(g)?;
        let ghost g5 = *g;
        let f_gate = f_raw.sigmoid(g)?;
        let ghost g6 = *g;
        let g_gate = g_raw.tanh(g)?;
        let ghost g7 = *g;
        let o_gate = o_raw.sigmoid(g)?;
        let ghost g8 = *g;
        proof {
            ga.lemma_extended_trans(gb, gc);
            ga.lemma_extended_trans(gc, gd);
            ga.lemma_extended_trans(gd, ge);
            lemma_reads_extend(ga, ge, gates.id as int, input.id as int);
            lemma_reads_trans(ge, o_raw.id as int, gates.id as int, input.id as int);
            ge.lemma_extended_trans(g5, g6);
            ge.lemma_extended_trans(g6, g7);
            lemma_reads_extend(ge, g7, o_raw.id as int, input.id as int);
            lemma_reads_through(g7, g8, o_gate.id as int, 0, input.id as int);
            if let Some((hp, _)) = state {
                lemma_reads_extend(ga, ge, gates.id as int, hp.id as int);
                lemma_reads_trans(ge, o_raw.id as int, gates.id as int, hp.id as int);
                lemma_reads_extend(ge, g7, o_raw.id as int, hp.id as int);
                lemma_reads_through(g7, g8, o_gate.id as int, 0, hp.id as int);
            }
        }
        proof {
            g0.lemma_extended_trans(ge, g5);
            g0.lemma_extended_trans(g5, g6);
            g0.lemma_extended_trans(g6, g7);
            g0.lemma_extended_trans(g7, g8);
            lemma_broadcast_self(q);
        }
        let c_next = match state {
            Some((_, cp)) => {
                let ghost cs = cp.shape_of(*g);
                let f_c = match f_gate.mul(g, cp) {
                    Ok(t) => t,
                    Err(e) => { proof { g0.lemma_extended_trans(g8, *g); } return Err(e); },
                };
                let ghost g9 = *g;
                let i_g = i_gate.mul(g, &g_gate)?;
                let ghost g10 = *g;
                proof {
                    lemma_broadcast_absorb(q, cs);
                }
                let c = f_c.add(g, &i_g)?;
                proof {
                    g0.lemma_extended_trans(g8, g9);
                    g0.lemma_extended_trans(g9, g10);
                    g0.lemma_extended_trans(g10, *g);
                    g9.lemma_extended_trans(g10, *g);
                    assert(g.nodes@[f_c.id as int] == g9.nodes@[f_c.id as int]);
                    assert(g.nodes@[i_g.id as int] == g10.nodes@[i_g.id as int]);
                    assert(g.nodes@[c.id as int].inputs@ == seq![f_c.id, i_g.id]);
                    lemma_reads_self(g8, cp.id as int);
                    lemma_reads_through(g8, g9, f_c.id as int, 1, cp.id as int);
                    lemma_reads_extend(g9, g10, f_c.id as int, cp.id as int);
                    lemma_reads_through(g10, *g, c.id as int, 0, cp.id as int);
                }
                c
            },
            None => {
                let c = i_gate.mul(g, &g_gate)?;
                proof { g0.lemma_extended_trans(g8, *g); }
                c
            },
        };
        let ghost g11 = *g;
        let ghost cn = lstm_out(xs, st, h);
        assert(c_next.shape_of(*g) == cn);
        let c_tanh = c_next.tanh(g)?;
        let ghost g12 = *g;
        proof {
            match st {
                Some((_, cs)) => {
                    lemma_broadcast_absorb(q, cs);
                },
                None => {},
            }
        }
        let h_next = o_gate.mul(g, &c_tanh)?;
        proof {
            g0.lemma_extended_trans(g11, g12);
            g0.lemma_extended_trans(g12, *g);
            g8.lemma_extended_trans(g11, g12);
            lemma_reads_extend(g8, g12, o_gate.id as int, input.id as int);
            lemma_reads_through(g12, *g, h_next.id as int, 0, input.id as int);
            if let Some((hp, cp)) = state {
                lemma_reads_extend(g8, g12, o_gate.id as int, hp.id as int);
                lemma_reads_through(g12, *g, h_next.id as int, 0, hp.id as int);
                g11.lemma_extended_trans(g12, *g);
                lemma_reads_extend(g11, *g, c_next.id as int, cp.id as int);
            }
            let gz = *g;
            let hh = h as int;
            ga.lemma_extended_trans(ge, gz);
            gb.lemma_extended_trans(gc, gz);
            gc.lemma_extended_trans(gd, gz);
            gd.lemma_extended_trans(ge, gz);
            ge.lemma_extended_trans(g5, gz);
            g5.lemma_extended_trans(g6, gz);
            g6.lemma_extended_trans(g7, gz);
            g7.lemma_extended_trans(g8, gz);
            g8.lemma_extended_trans(g11, gz);
            g11.lemma_extended_trans(g12, gz);
            assert(gz.nodes@[i_raw.id as int] == gb.nodes@[i_raw.id as int]);
            assert(gz.nodes@[f_raw.id as int] == gc.nodes@[f_raw.id as int]);
            assert(gz.nodes@[g_raw.id as int] == gd.nodes@[g_raw.id as int]);
            assert(gz.nodes@[o_raw.id as int] == ge.nodes@[o_raw.id as int]);
            assert(gz.nodes@[i_gate.id as int] == g5.nodes@[i_gate.id as int]);
            assert(gz.nodes@[f_gate.id as int] == g6.nodes@[f_gate.id as int]);
            assert(gz.nodes@[g_gate.id as int] == g7.nodes@[g_gate.id as int]);
            assert(gz.nodes@[o_gate.id as int] == g8.nodes@[o_gate.id as int]);
            assert(gz.nodes@[c_next.id as int] == g11.nodes@[c_next.id as int]);
            assert(gz.nodes@[c_tanh.id as int] == g12.nodes@[c_tanh.id as int]);
            assert(gate_of(gz, i_gate.id as int, Op::Sigmoid, gates.id as int, 0, hh));
            assert(gate_of(gz, f_gate.id as int, Op::Sigmoid, gates.id as int, hh, 2 * hh));
            assert(gate_of(gz, g_gate.id as int, Op::Tanh, gates.id as int, 2 * hh, 3 * hh));
            assert(gate_of(gz, o_gate.id as int, Op::Sigmoid, gates.id as int, 3 * hh, 4 * hh));
            lemma_reads_extend(ga, gz, gates.id as int, input.id as int);
            assert(lstm_step_structure(gz, h_next.id as int, c_next.id as int, gates.id as int, hh,
                match state { Some((_, cp)) => Some(cp.id as int), None => None }));
        }
        Ok((h_next, c_next))
    }

    /// The learnable tensors: both weights, then the biases that exist.
    pub fn parameters(&self) -> (r: Vec<Tensor>)
        ensures
            r@ == seq![self.weight_ih, self.weight_hh]
                + (match self.bias_ih { Some(b) => seq![b], None => Seq::empty() })
                + (match self.bias_hh { Some(b) => seq![b], None => Seq::empty() }),
    {
        cell_parameters(self.weight_ih, self.weight_hh, self.bias_ih, self.bias_hh)
    }
}

/// Node `n` of `g` is columns `lo..hi` (along axis 1) of node `src`.
pub open spec fn slice_of(g: Graph, n: int, src: int, lo: int, hi: int) -> bool {
    &&& g.nodes@[n].op == (Op::Slice { axis: 1, start: lo as usize, end: hi as usize })
    &&& g.nodes@[n].inputs@ == seq![src as usize]
}

/// Node `n` of `g` is a GRU gate: the sigmoid of the sum of columns `lo..hi` of the input-side
/// pre-activations `xg` and of the hidden-side pre-activations `hg`.
pub open spec fn gru_gate(g: Graph, n: int, xg: int, hg: int, lo: int, hi: int) -> bool {
    let a = g.nodes@[n].inputs@[0] as int;
    &&& g.nodes@[n].op == Op::Sigmoid && g.nodes@[n].inputs@.len() == 1
    &&& g.nodes@[a].op == Op::Add && g.nodes@[a].inputs@.len() == 2
    &&& slice_of(g, g.nodes@[a].inputs@[0] as int, xg, lo, hi)
    &&& slice_of(g, g.nodes@[a].inputs@[1] as int, hg, lo, hi)
}

/// Node `n` of `g` is the GRU candidate: the tanh of the third block of `xg` plus the reset gate
/// (first blocks) times the third block of `hg`.
pub open spec fn gru_candidate(g: Graph, n: int, xg: int, hg: int, h: int) -> bool {
    let a = g.nodes@[n].inputs@[0] as int;
    let m = g.nodes@[a].inputs@[1] as int;
    &&& g.nodes@[n].op == Op::Tanh && g.nodes@[n].inputs@.len() == 1
    &&& g.nodes@[a].op == Op::Add && g.nodes@[a].inputs@.len() == 2
    &&& slice_of(g, g.nodes@[a].inputs@[0] as int, xg, 2 * h, 3 * h)
    &&& g.nodes@[m].op == Op::Mul && g.nodes@[m].inputs@.len() == 2
    &&& gru_gate(g, g.nodes@[m].inputs@[0] as int, xg, hg, 0, h)
    &&& slice_of(g, g.nodes@[m].inputs@[1] as int, hg, 2 * h, 3 * h)
}

/// Node `o` of `g` is a GRU step over pre-activations `xg` and `hg` (three blocks of `h`
/// columns: reset, update, candidate) from the previous state `hp` when there is one:
/// `o = (1 - z) * n + z * hp` (just `(1 - z) * n` without a state), where `z` is the update
/// gate and `n` the candidate.
pub open spec fn gru_step_structure(g: Graph, o: int, xg: int, hg: int, h: int, hp: Option<int>) -> bool {
    let t1 = if hp is Some { g.nodes@[o].inputs@[0] as int } else { o };
    let omz = g.nodes@[t1].inputs@[0] as int;
    &&& g.nodes@[t1].op == Op::Mul && g.nodes@[t1].inputs@.len() == 2
    &&& g.nodes@[omz].op == Op::Sub && g.nodes@[omz].inputs@.len() == 2
    &&& g.nodes@[g.nodes@[omz].inputs@[0] as int].op == Op::Leaf(LeafInit::Ones)
    &&& gru_gate(g, g.nodes@[omz].inputs@[1] as int, xg, hg, h, 2 * h)
    &&& gru_candidate(g, g.nodes@[t1].inputs@[1] as int, xg, hg, h)
    &&& (hp matches Some(p) ==> {
        let t2 = g.nodes@[o].inputs@[1] as int;
        &&& g.nodes@[o].op == Op::Add && g.nodes@[o].inputs@.len() == 2
        &&& g.nodes@[t2].op == Op::Mul && g.nodes@[t2].inputs@.len() == 2
        &&& gru_gate(g, g.nodes@[t2].inputs@[0] as int, xg, hg, h, 2 * h)
        &&& g.nodes@[t2].inputs@[1] as int == p
    })
}

/// The pre-activation nodes `xg` and `hg` witness that node `o` of `g` is a GRU step over input
/// node `x` (see `gru_step_structure`).
pub open spec fn gru_witness(g: Graph, o: int, x: int, xg: int, hg: int, h: int, hp: Option<int>) -> bool {
    gru_step_structure(g, o, xg, hg, h, hp) && reads(g, xg, x)
}

/// The id of a tensor that may be absent.
pub open spec fn opt_id(t: Option<&Tensor>) -> Option<int> {
    match t {
        Some(x) => Some(x.id as int),
        None => None,
    }
}

/// In a GRU step the reset and update gates are sigmoids, the candidate is a tanh, and the new
/// state weighs the candidate by one minus the update gate and the previous state by that gate.
pub proof fn lemma_gru_gate_activations(g: Graph, o: int, xg: int, hg: int, h: int, p: int)
    requires
        gru_step_structure(g, o, xg, hg, h, Some(p)),
    ensures
        ({
            let t1 = g.nodes@[o].inputs@[0] as int;
            let t2 = g.nodes@[o].inputs@[1] as int;
            let omz = g.nodes@[t1].inputs@[0] as int;
            &&& g.nodes@[o].op == Op::Add
            &&& g.nodes@[omz].op == Op::Sub
            &&& g.nodes@[g.nodes@[omz].inputs@[1] as int].op == Op::Sigmoid
            &&& g.nodes@[g.nodes@[t1].inputs@[1] as int].op == Op::Tanh
            &&& g.nodes@[g.nodes@[t2].inputs@[0] as int].op == Op::Sigmoid
            &&& g.nodes@[t2].inputs@[1] as int == p
        }),
{
}

/// Single-step GRU cell with fused gate projections in the order reset, update, candidate.
#[derive(Clone, Copy)]
pub struct GRUCell {
    pub weight_ih: Tensor,
    pub weight_hh: Tensor,
    pub bias_ih: Option<Tensor>,
    pub bias_hh: Option<Tensor>,
    pub input_size: usize,
    pub hidden_size: usize,
}

/// Shape of the hidden-side gate pre-activations of a GRU step: the projection of the
/// previous state, or `[batch, 3H]` zeros when there is none.
pub open spec fn gru_hidden_gates(x: Seq<usize>, h: Option<Seq<usize>>, hidden: usize) -> Seq<usize> {
    match h {
        Some(hs) => linear_out(hs, (3 * hidden) as usize),
        None => seq![x[0], (3 * hidden) as usize],
    }
}

/// Shape of the reset and update gates of a GRU step.
pub open spec fn gru_gate_shape(x: Seq<usize>, h: Option<Seq<usize>>, hidden: usize) -> Seq<usize> {
    broadcast_spec(
        linear_out(x, (3 * hidden) as usize).update(1, hidden),
        gru_hidden_gates(x, h, hidden).update(1, hidden),
    )
}

/// A GRU step on input of shape `x` with previous state of shape `h` succeeds.
pub open spec fn gru_ok(x: Seq<usize>, h: Option<Seq<usize>>, input_size: usize, hidden: usize) -> bool {
    let xg = linear_out(x, (3 * hidden) as usize);
    let hg = gru_hidden_gates(x, h, hidden);
    &&& projects(x, input_size)
    &&& h matches Some(hs) ==> projects(hs, hidden)
    &&& 3 * hidden <= xg[1]
    &&& 3 * hidden <= hg[1]
    &&& broadcastable(xg.update(1, hidden), hg.update(1, hidden))
    &&& h matches Some(hs) ==> broadcastable(gru_gate_shape(x, h, hidden), hs)
}

/// Shape of the new hidden state of a GRU step.
pub open spec fn gru_out(x: Seq<usize>, h: Option<Seq<usize>>, hidden: usize) -> Seq<usize> {
    match h {
        Some(hs) => broadcast_spec(gru_gate_shape(x, h, hidden), hs),
        None => gru_gate_shape(x, h, hidden),
    }
}

impl GRUCell {
    /// The cell's tensors live in `g` with the expected shapes.
    pub open spec fn wf_in(&self, g: Graph) -> bool {
        &&& 3 * self.hidden_size <= usize::MAX
        &&& proj_wf(g, self.weight_ih, self.bias_ih, (3 * self.hidden_size) as usize, self.input_size)
        &&& proj_wf(g, self.weight_hh, self.bias_hh, (3 * self.hidden_size) as usize, self.hidden_size)
    }

    /// A cell with bias.
    pub fn new(g: &mut Graph, input_size: usize, hidden_size: usize) -> (r: GRUCell)
        requires
            old(g).wf(),
            3 * hidden_size <= usize::MAX,
        ensures
            final(g).wf(),
            old(g).extended_by(*final(g)),
            r.wf_in(*final(g)),
            r.input_size == input_size,
            r.hidden_size == hidden_size,
            r.bias_ih is Some && r.bias_hh is Some,
    {
        Self::with_bias(g, input_size, hidden_size, true)
    }

    /// A cell with `[3H, input]` and `[3H, H]` weights, Kaiming-uniform scaled by the sigmoid
    /// gain, and, when `has_bias`, biases uniform in `[-1/sqrt(H), 1/sqrt(H))`.
    pub fn with_bias(g: &mut Graph, input_size: usize, hidden_size: usize, has_bias: bool) -> (r: GRUCell)
        requires
            old(g).wf(),
            3 * hidden_size <= usize::MAX,
        ensures
            final(g).wf(),
            old(g).extended_by(*final(g)),
            r.wf_in(*final(g)),
            r.input_size == input_size,
            r.hidden_size == hidden_size,
            r.bias_ih is Some == has_bias,
            r.bias_hh is Some == has_bias,
            final(g).nodes@[r.weight_ih.id as int].op == Op::Leaf(LeafInit::GainKaimingUniform { fan_in: input_size, gain: GainKind::Sigmoid }),
            final(g).nodes@[r.weight_hh.id as int].op == Op::Leaf(LeafInit::GainKaimingUniform { fan_in: hidden_size, gain: GainKind::Sigmoid }),
            r.bias_ih matches Some(b) ==> final(g).nodes@[b.id as int].op == Op::Leaf(LeafInit::FanInUniform { fan_in: hidden_size }),
            r.bias_hh matches Some(b) ==> final(g).nodes@[b.id as int].op == Op::Leaf(LeafInit::FanInUniform { fan_in: hidden_size }),
    {
        let h3 = 3 * hidden_size;
        let ghost g0 = *g;
        let weight_ih = Tensor::leaf(g, shape2(h3, input_size).as_slice(), LeafInit::GainKaimingUniform { fan_in: input_size, gain: GainKind::Sigmoid }, true);
        let ghost g1 = *g;
        let weight_hh = Tensor::leaf(g, shape2(h3, hidden_size).as_slice(), LeafInit::GainKaimingUniform { fan_in: hidden_size, gain: GainKind::Sigmoid }, true);
        let ghost g2 = *g;
        proof {
            g0.lemma_extended_trans(g1, g2);
        }
        let (bias_ih, bias_hh) = if has_bias {
            let b1 = Tensor::leaf(g, shape1(h3).as_slice(), LeafInit::FanInUniform { fan_in: hidden_size }, true);
            let ghost g3 = *g;
            let b2 = Tensor::leaf(g, shape1(h3).as_slice(), LeafInit::FanInUniform { fan_in: hidden_size }, true);
            proof {
                g2.lemma_extended_trans(g3, *g);
                g0.lemma_extended_trans(g2, *g);
            }
            (Some(b1), Some(b2))
        } else {
            (None, None)
        };
        GRUCell { weight_ih, weight_hh, bias_ih, bias_hh, input_size, hidden_size }
    }

    /// One step: `h_t = (1 - z) * n + z * h` with reset gate `r = sigmoid(x_r + h_r)`, update
    /// gate `z = sigmoid(x_z + h_z)` and candidate `n = tanh(x_n + r * h_n)`; without a
    /// previous state the hidden-side gates are the bias alone and `h_t = (1 - z) * n`.
    #[verifier::spinoff_prover]
    #[verifier::rlimit(100)]
    pub fn forward_step(&self, g: &mut Graph, input: &Tensor, hidden: Option<&Tensor>) -> (r: Result<Tensor, EngineError>)
        requires
            old(g).wf(),
            self.wf_in(*old(g)),
            input.valid(*old(g)),
            input.shape_of(*old(g)).len() >= 1,
            hidden matches Some(h) ==> h.valid(*old(g)),
        ensures
            final(g).wf(),
            old(g).extended_by(*final(g)),
            r is Ok <==> gru_ok(input.shape_of(*old(g)), opt_shape(*old(g), hidden), self.input_size, self.hidden_size),
            r matches Ok(t) ==> t.valid(*final(g))
                && t.shape_of(*final(g)) == gru_out(input.shape_of(*old(g)), opt_shape(*old(g), hidden), self.hidden_size),
            r matches Ok(t) ==> reads(*final(g), t.id as int, input.id as int)
                && (hidden matches Some(h) ==> reads(*final(g), t.id as int, h.id as int)),
            r matches Ok(t) ==> exists|xg: int, hg: int| #[trigger] gru_witness(*final(g), t.id as int, input.id as int, xg, hg,
                self.hidden_size as int, opt_id(hidden)),
    {
        let ghost g0 = *g;
        let ghost xs = input.shape_of(*g);
        let ghost hsh = opt_shape(*g, hidden);
        let batch_size = input.shape(g)[0];
        let h = self.hidden_size;
        let h3 = 3 * h;
        let x_gates = project(g, input, &self.weight_ih, self.bias_ih, h3, self.input_size)?;
        let ghost g1 = *g;
        let h_gates = match hidden {
            Some(hp) => {
                match project(g, hp, &self.weight_hh, self.bias_hh, h3, h) {
                    Ok(t) => t,
                    Err(e) => {
                        proof { g0.lemma_extended_trans(g1, *g); }
                        return Err(e);
                    },
                }
            },
            None => {
                let zeros = Tensor::zeros(g, shape2(batch_size, h3).as_slice(), false);
                match self.bias_hh {
                    Some(b) => {
                        let ghost g2 = *g;
                        proof {
                            g0.lemma_extended_trans(g1, g2);
                            let zs = seq![batch_size, h3];
                            assert(seq![h3] =~= zs.subrange(zs.len() - 1, zs.len() as int));
                            lemma_broadcast_suffix(zs, seq![h3]);
                        }
                        let t = zeros.add(g, &b)?;
                        t
                    },
                    None => zeros,
                }
            },
        };
        let ghost g3 = *g;
        proof { g0.lemma_extended_trans(g1, g3); }
        let ghost xg = linear_out(xs, h3);
        let ghost hg = gru_hidden_gates(xs, hsh, h);
        assert(x_gates.shape_of(*g) == xg);
        assert(h_gates.shape_of(*g) == hg);
        let x_r = gate(g, &x_gates, 0, h)?;
        let ghost ga = *g;
        proof { g0.lemma_extended_trans(g3, ga); }
        let x_z = gate(g, &x_gates, h, 2 * h)?;
        let ghost gb = *g;
        proof { g0.lemma_extended_trans(ga, gb); }
        let x_n = gate(g, &x_gates, 2 * h, h3)?;
        let ghost gc = *g;
        proof { g0.lemma_extended_trans(gb, gc); }
        let h_r = gate(g, &h_gates, 0, h)?;
        let ghost gd = *g;
        proof { g0.lemma_extended_trans(gc, gd); }
        let h_z = gate(g, &h_gates, h, 2 * h)?;
        let ghost ge = *g;
        proof { g0.lemma_extended_trans(gd, ge); }
        let h_n = gate(g, &h_gates, 2 * h, h3)?;
        let ghost gf = *g;
        proof {
            g0.lemma_extended_trans(ge, gf);
            assert(slice_spec(xg, 1, 0, h as int) =~= xg.update(1, h));
            assert(slice_spec(xg, 1, h as int, 2 * h) =~= xg.update(1, h));
            assert(slice_spec(xg, 1, 2 * h, h3 as int) =~= xg.update(1, h));
            assert(slice_spec(hg, 1, 0, h as int) =~= hg.update(1, h));
            assert(slice_spec(hg, 1, h as int, 2 * h) =~= hg.update(1, h));
            assert(slice_spec(hg, 1, 2 * h, h3 as int) =~= hg.update(1, h));
        }
        let ghost xq = xg.update(1, h);
        let ghost hq = hg.update(1, h);
        let r_pre = x_r.add(g, &h_r)?;
        let ghost g4 = *g;
        proof { g0.lemma_extended_trans(gf, g4); }
        let ghost q = broadcast_spec(xq, hq);
        let r_gate = r_pre.sigmoid(g)?;
        let ghost g5 = *g;
        let z_pre = x_z.add(g, &h_z)?;
        let ghost g6 = *g;
        let z_gate = z_pre.sigmoid(g)?;
        let ghost g7 = *g;
        proof {
            g0.lemma_extended_trans(g4, g5);
            g0.lemma_extended_trans(g5, g6);
            g0.lemma_extended_trans(g6, g7);
            lemma_broadcast_absorb_right(xq, hq);
            lemma_broadcast_absorb(xq, hq);
        }
        let r_hn = r_gate.mul(g, &h_n)?;
        let ghost g8 = *g;
        let n_pre = x_n.add(g, &r_hn)?;
        let ghost g9 = *g;
        proof {
            g0.lemma_extended_trans(g1, gb);
            g1.lemma_extended_trans(gb, gc);
            lemma_reads_extend(g1, gc, x_gates.id as int, input.id as int);
            lemma_reads_trans(gc, x_n.id as int, x_gates.id as int, input.id as int);
            g0.lemma_extended_trans(gc, g8);
            lemma_reads_extend(gc, g8, x_n.id as int, input.id as int);
            lemma_reads_through(g8, g9, n_pre.id as int, 0, input.id as int);
        }
        let n_gate = n_pre.tanh(g)?;
        let ghost g10 = *g;
        let z_shape = z_gate.shape(g);
        let ones = Tensor::ones(g, z_shape.as_slice(), false);
        let ghost g11 = *g;
        proof {
            g0.lemma_extended_trans(g7, g8);
            g0.lemma_extended_trans(g8, g9);
            g0.lemma_extended_trans(g9, g10);
            g0.lemma_extended_trans(g10, g11);
            lemma_broadcast_self(q);
        }
        let one_minus_z = ones.sub(g, &z_gate)?;
        let ghost g12 = *g;
        let term1 = one_minus_z.mul(g, &n_gate)?;
        let ghost g13 = *g;
        proof {
            let hh = h as int;
            let (xi, hi) = (x_gates.id as int, h_gates.id as int);
            g3.lemma_extended_trans(ga, gb);
            ga.lemma_extended_trans(gb, g13);
            gb.lemma_extended_trans(gc, g13);
            gc.lemma_extended_trans(gd, g13);
            gd.lemma_extended_trans(ge, g13);
            ge.lemma_extended_trans(gf, g13);
            gf.lemma_extended_trans(g4, g13);
            g4.lemma_extended_trans(g5, g13);
            g5.lemma_extended_trans(g6, g13);
            g6.lemma_extended_trans(g7, g13);
            g7.lemma_extended_trans(g8, g13);
            g8.lemma_extended_trans(g9, g13);
            g9.lemma_extended_trans(g10, g13);
            g10.lemma_extended_trans(g11, g13);
            g11.lemma_extended_trans(g12, g13);
            assert(g13.nodes@[x_r.id as int] == ga.nodes@[x_r.id as int]);
            assert(g13.nodes@[x_z.id as int] == gb.nodes@[x_z.id as int]);
            assert(g13.nodes@[x_n.id as int] == gc.nodes@[x_n.id as int]);
            assert(g13.nodes@[h_r.id as int] == gd.nodes@[h_r.id as int]);
            assert(g13.nodes@[h_z.id as int] == ge.nodes@[h_z.id as int]);
            assert(g13.nodes@[h_n.id as int] == gf.nodes@[h_n.id as int]);
            assert(g13.nodes@[r_pre.id as int] == g4.nodes@[r_pre.id as int]);
            assert(g13.nodes@[r_gate.id as int] == g5.nodes@[r_gate.id as int]);
            assert(g13.nodes@[z_pre.id as int] == g6.nodes@[z_pre.id as int]);
            assert(g13.nodes@[z_gate.id as int] == g7.nodes@[z_gate.id as int]);
            assert(g13.nodes@[r_hn.id as int] == g8.nodes@[r_hn.id as int]);
            assert(g13.nodes@[n_pre.id as int] == g9.nodes@[n_pre.id as int]);
            assert(g13.nodes@[n_gate.id as int] == g10.nodes@[n_gate.id as int]);
            assert(g13.nodes@[ones.id as int] == g11.nodes@[ones.id as int]);
            assert(g13.nodes@[one_minus_z.id as int] == g12.nodes@[one_minus_z.id as int]);
            assert(gru_gate(g13, z_gate.id as int, xi, hi, hh, 2 * hh));
            assert(gru_gate(g13, r_gate.id as int, xi, hi, 0, hh));
            assert(gru_candidate(g13, n_gate.id as int, xi, hi, hh));
            assert(gru_step_structure(g13, term1.id as int, xi, hi, hh, None));
        }
        proof {
            g0.lemma_extended_trans(g11, g12);
            g0.lemma_extended_trans(g12, g13);
            lemma_reads_through(g9, g10, n_gate.id as int, 0, input.id as int);
            g10.lemma_extended_trans(g11, g12);
            lemma_reads_extend(g10, g12, n_gate.id as int, input.id as int);
            lemma_reads_through(g12, g13, term1.id as int, 1, input.id as int);
        }
        match hidden {
            Some(hp) => {
                let ghost hs = hp.shape_of(*g);
                let term2 = z_gate.mul(g, hp)?;
                let ghost g14 = *g;
                proof {
                    g0.lemma_extended_trans(g13, g14);
                    lemma_broadcast_absorb(q, hs);
                }
                let out = term1.add(g, &term2)?;
                proof {
                    g0.lemma_extended_trans(g14, *g);
                    lemma_reads_self(g13, hp.id as int);
                    lemma_reads_through(g13, g14, term2.id as int, 1, hp.id as int);
                    lemma_reads_extend(g13, g14, term1.id as int, input.id as int);
                    lemma_reads_through(g14, *g, out.id as int, 0, input.id as int);
                    lemma_reads_through(g14, *g, out.id as int, 1, hp.id as int);
                    let gz = *g;
                    g13.lemma_extended_trans(g14, gz);
                    assert(gz.nodes@[x_r.id as int] == g13.nodes@[x_r.id as int]);
                    assert(gz.nodes@[x_z.id as int] == g13.nodes@[x_z.id as int]);
                    assert(gz.nodes@[x_n.id as int] == g13.nodes@[x_n.id as int]);
                    assert(gz.nodes@[h_r.id as int] == g13.nodes@[h_r.id as int]);
                    assert(gz.nodes@[h_z.id as int] == g13.nodes@[h_z.id as int]);
                    assert(gz.nodes@[h_n.id as int] == g13.nodes@[h_n.id as int]);
                    assert(gz.nodes@[r_pre.id as int] == g13.nodes@[r_pre.id as int]);
                    assert(gz.nodes@[r_gate.id as int] == g13.nodes@[r_gate.id as int]);
                    assert(gz.nodes@[z_pre.id as int] == g13.nodes@[z_pre.id as int]);
                    assert(gz.nodes@[z_gate.id as int] == g13.nodes@[z_gate.id as int]);
                    assert(gz.nodes@[r_hn.id as int] == g13.nodes@[r_hn.id as int]);
                    assert(gz.nodes@[n_pre.id as int] == g13.nodes@[n_pre.id as int]);
                    assert(gz.nodes@[n_gate.id as int] == g13.nodes@[n_gate.id as int]);
                    assert(gz.nodes@[ones.id as int] == g13.nodes@[ones.id as int]);
                    assert(gz.nodes@[one_minus_z.id as int] == g13.nodes@[one_minus_z.id as int]);
                    assert(gz.nodes@[term1.id as int] == g13.nodes@[term1.id as int]);
                    assert(gz.nodes@[term2.id as int] == g14.nodes@[term2.id as int]);
                    let (xi, hi) = (x_gates.id as int, h_gates.id as int);
                    assert(gru_gate(gz, z_gate.id as int, xi, hi, h as int, 2 * h as int));
                    assert(gru_gate(gz, r_gate.id as int, xi, hi, 0, h as int));
                    assert(gru_candidate(gz, n_gate.id as int, xi, hi, h as int));
                    g1.lemma_extended_trans(g13, gz);
                    lemma_reads_extend(g1, gz, xi, input.id as int);
                    assert(gru_witness(gz, out.id as int, input.id as int, xi, hi, h as int, opt_id(hidden)));
                }
                Ok(out)
            },
            None => {
                proof {
                    g1.lemma_extended_trans(g3, g13);
                    lemma_reads_extend(g1, g13, x_gates.id as int, input.id as int);
                    assert(gru_witness(g13, term1.id as int, input.id as int, x_gates.id as int, h_gates.id as int, h as int, opt_id(hidden)));
                }
                Ok(term1)
            },
        }
    }

    /// The learnable tensors: both weights, then the biases that exist.
    pub fn parameters(&self) -> (r: Vec<Tensor>)
        ensures
            r@ == seq![self.weight_ih, self.weight_hh]
                + (match self.bias_ih { Some(b) => seq![b], None => Seq::empty() })
                + (match self.bias_hh { Some(b) => seq![b], None => Seq::empty() }),
    {
        cell_parameters(self.weight_ih, self.weight_hh, self.bias_ih, self.bias_hh)
    }
}

/// The tensors of `v` in reverse order.
fn reversed(v: &Vec<Tensor>) -> (r: Vec<Tensor>)
    ensures
        r@.len() == v@.len(),
        forall|k: int| 0 <= k < v@.len() ==> #[trigger] r@[k] == v@[v@.len() - 1 - k],
{
    let mut rev: Vec<Tensor> = Vec::new();
    let mut j: usize = v.len();
    while j > 0
        invariant
            j <= v@.len(),
            rev@.len() == v@.len() - j,
            forall|k: int| 0 <= k < rev@.len() ==> #[trigger] rev@[k] == v@[v@.len() - 1 - k],
        decreases j,
    {
        j = j - 1;
        rev.push(v[j]);
    }
    rev
}

/// Node `x` of `g` is row `t` of node `input` along axis 1: the slice `t..t + 1` of that axis,
/// with the axis then removed.
pub open spec fn time_row(g: Graph, x: int, input: int, t: int) -> bool {
    let sl = g.nodes@[x].inputs@[0] as int;
    &&& g.nodes@[x].op == (Op::Squeeze { axis: 1 })
    &&& g.nodes@[x].inputs@.len() == 1
    &&& g.nodes@[sl].op == (Op::Slice { axis: 1, start: t as usize, end: (t + 1) as usize })
    &&& g.nodes@[sl].inputs@ == seq![input as usize]
}

/// Recording more nodes keeps a row of a tensor what it is.
proof fn lemma_time_row_extend(g1: Graph, g2: Graph, x: int, input: int, t: int)
    requires
        g1.wf(),
        0 <= x < g1.nodes@.len(),
        time_row(g1, x, input, t),
        g1.extended_by(g2),
    ensures
        time_row(g2, x, input, t),
{
    let sl = g1.nodes@[x].inputs@[0] as int;
    assert(crate::autograd::node::node_wf(g1.nodes@[x], x));
    assert(g2.nodes@[x] == g1.nodes@[x]);
    assert(g2.nodes@[sl] == g1.nodes@[sl]);
}

/// Node `s` of `g` reads row `t` of node `input`.
pub open spec fn reads_row(g: Graph, s: int, input: int, t: int) -> bool {
    exists|x: int| #[trigger] reads(g, s, x) && time_row(g, x, input, t)
}

/// The time step that the `k`-th step of a pass over `n` steps reads: `k`, or `n - 1 - k` when
/// the pass runs in reverse.
pub open spec fn run_time(k: int, n: int, reverse: bool) -> int {
    if reverse { n - 1 - k } else { k }
}

/// Recording more nodes keeps what a node reads of a row.
proof fn lemma_reads_row_extend(g1: Graph, g2: Graph, s: int, input: int, t: int)
    requires
        g1.wf(),
        reads_row(g1, s, input, t),
        g1.extended_by(g2),
    ensures
        reads_row(g2, s, input, t),
{
    let x = choose|x: int| #[trigger] reads(g1, s, x) && time_row(g1, x, input, t);
    lemma_reads_in_range(g1, s, x);
    lemma_reads_extend(g1, g2, s, x);
    lemma_time_row_extend(g1, g2, x, input, t);
}

/// The step result that input `k` of node `o` holds with a new axis.
pub open spec fn step_at(g: Graph, o: int, k: int) -> int {
    g.nodes@[g.nodes@[o].inputs@[k] as int].inputs@[0] as int
}

/// Node `o` of `g` is a recurrent pass over the `n` rows of node `input` along axis 1: it
/// concatenates along that axis, in time order, one step result per row, each given a new
/// axis 1. The result at time `k` reads row `k` of `input` and the result of the step run just
/// before it (time `k - 1`, or time `k + 1` when `reverse`); the first step run reads `h0`, and
/// `h` is the result of the last step run.
pub open spec fn pass_structure(g: Graph, o: int, h: int, input: int, h0: Option<Tensor>, n: int, reverse: bool) -> bool {
    &&& g.nodes@[o].op == (Op::Cat { axis: 1 })
    &&& g.nodes@[o].inputs@.len() == n
    &&& forall|k: int| 0 <= k < n ==> g.nodes@[#[trigger] g.nodes@[o].inputs@[k] as int].op == (Op::Unsqueeze { axis: 1 })
        && g.nodes@[g.nodes@[o].inputs@[k] as int].inputs@.len() == 1
    &&& forall|k: int| 0 <= k < n ==> #[trigger] reads_row(g, step_at(g, o, k), input, k)
    &&& forall|k: int| 1 <= k < n ==> if reverse {
        reads(g, step_at(g, o, k - 1), #[trigger] step_at(g, o, k))
    } else {
        reads(g, #[trigger] step_at(g, o, k), step_at(g, o, k - 1))
    }
    &&& h == (if reverse { step_at(g, o, 0) } else { step_at(g, o, n - 1) })
    &&& h0 matches Some(t) ==> reads(g, if reverse { step_at(g, o, n - 1) } else { step_at(g, o, 0) }, t.id as int)
}

/// Recording more nodes keeps the structure of a pass.
proof fn lemma_pass_structure_extend(g1: Graph, g2: Graph, o: int, h: int, input: int, h0: Option<Tensor>, n: int, reverse: bool)
    requires
        g1.wf(),
        0 <= o < g1.nodes@.len(),
        n >= 1,
        pass_structure(g1, o, h, input, h0, n, reverse),
        g1.extended_by(g2),
    ensures
        pass_structure(g2, o, h, input, h0, n, reverse),
{
    assert(crate::autograd::node::node_wf(g1.nodes@[o], o));
    assert(g2.nodes@[o] == g1.nodes@[o]);
    assert forall|k: int| 0 <= k < n implies step_at(g2, o, k) == #[trigger] step_at(g1, o, k)
        && g2.nodes@[g2.nodes@[o].inputs@[k] as int] == g1.nodes@[g1.nodes@[o].inputs@[k] as int] by {
        let u = g1.nodes@[o].inputs@[k] as int;
        assert(0 <= u < o);
        assert(g2.nodes@[u] == g1.nodes@[u]);
    }
    assert forall|k: int| 0 <= k < n implies #[trigger] reads_row(g2, step_at(g2, o, k), input, k) by {
        assert(step_at(g2, o, k) == step_at(g1, o, k));
        lemma_reads_row_extend(g1, g2, step_at(g1, o, k), input, k);
    }
    assert forall|k: int| 1 <= k < n implies if reverse {
        reads(g2, step_at(g2, o, k - 1), #[trigger] step_at(g2, o, k))
    } else {
        reads(g2, #[trigger] step_at(g2, o, k), step_at(g2, o, k - 1))
    } by {
        assert(step_at(g2, o, k) == step_at(g1, o, k));
        assert(step_at(g2, o, k - 1) == step_at(g1, o, k - 1));
        if reverse {
            lemma_reads_extend(g1, g2, step_at(g1, o, k - 1), step_at(g1, o, k));
        } else {
            lemma_reads_extend(g1, g2, step_at(g1, o, k), step_at(g1, o, k - 1));
        }
    }
    assert forall|k: int| 0 <= k < n implies g2.nodes@[#[trigger] g2.nodes@[o].inputs@[k] as int].op == (Op::Unsqueeze { axis: 1 })
        && g2.nodes@[g2.nodes@[o].inputs@[k] as int].inputs@.len() == 1 by {
        assert(step_at(g2, o, k) == step_at(g1, o, k));
    }
    assert(step_at(g2, o, 0) == step_at(g1, o, 0));
    assert(step_at(g2, o, n - 1) == step_at(g1, o, n - 1));
    if let Some(t) = h0 {
        lemma_reads_extend(g1, g2, if reverse { step_at(g1, o, n - 1) } else { step_at(g1, o, 0) }, t.id as int);
    }
}

/// Row `t` of a `[batch, seq, features]` tensor: `[batch, features]`.
fn time_step(g: &mut Graph, input: &Tensor, t: usize) -> (r: Result<Tensor, EngineError>)
    requires
        old(g).wf(),
        input.valid(*old(g)),
        t < usize::MAX,
    ensures
        final(g).wf(),
        old(g).extended_by(*final(g)),
        r matches Ok(x) ==> x.valid(*final(g)) && x.shape_of(*final(g)).len() >= 1,
        r matches Ok(x) ==> time_row(*final(g), x.id as int, input.id as int, t as int),
        ({
            let s = input.shape_of(*old(g));
            s.len() == 3 && t < s[1] ==> (r matches Ok(x) && x.shape_of(*final(g)) == seq![s[0], s[2]])
        }),
{
    let ghost g0 = *g;
    let ghost xs = input.shape_of(*g);
    let sl = input.slice(g, 1, t, t + 1)?;
    let ghost g1 = *g;
    assert(slice_spec(xs, 1, t as int, t + 1)[1] == 1);
    proof {
        if xs.len() == 3 && t < xs[1] {
            assert(slice_spec(xs, 1, t as int, t + 1) =~= seq![xs[0], 1, xs[2]]);
            assert(squeeze_spec(seq![xs[0], 1usize, xs[2]], 1) =~= seq![xs[0], xs[2]]);
        }
    }
    let x = sl.squeeze(g, 1)?;
    proof {
        g0.lemma_extended_trans(g1, *g);
        assert(g.nodes@[sl.id as int] == g1.nodes@[sl.id as int]);
    }
    Ok(x)
}

/// Slice `idx` of axis 0 of an initial state, without that axis.
fn state_slice(g: &mut Graph, init: &Tensor, idx: usize) -> (r: Result<Tensor, EngineError>)
    requires
        old(g).wf(),
        init.valid(*old(g)),
        idx < usize::MAX,
    ensures
        final(g).wf(),
        old(g).extended_by(*final(g)),
        r matches Ok(x) ==> x.valid(*final(g)),
        ({
            let s = init.shape_of(*old(g));
            s.len() == 3 && idx < s[0] ==> (r matches Ok(x) && x.shape_of(*final(g)) == seq![s[1], s[2]])
        }),
{
    let ghost g0 = *g;
    let ghost s = init.shape_of(*g);
    let sl = init.slice(g, 0, idx, idx + 1)?;
    let ghost g1 = *g;
    proof {
        if s.len() == 3 {
            assert(slice_spec(s, 0, idx as int, idx + 1) =~= seq![1usize, s[1], s[2]]);
            assert(squeeze_spec(seq![1usize, s[1], s[2]], 0) =~= seq![s[1], s[2]]);
        }
    }
    let x = sl.squeeze(g, 0)?;
    proof { g0.lemma_extended_trans(g1, *g); }
    Ok(x)
}

/// A recurrent cell whose step maps an input row and an optional hidden state to a new
/// hidden state.
pub trait RecurrentStep {
    /// The cell's tensors live in `g`.
    spec fn step_ready(&self, g: Graph) -> bool;

    /// Number of input features.
    spec fn step_input(&self) -> usize;

    /// Size of the hidden state.
    spec fn step_hidden(&self) -> usize;

    /// Recording more nodes keeps the cell's tensors in place.
    proof fn lemma_step_ready_extend(&self, g1: Graph, g2: Graph)
        requires
            self.step_ready(g1),
            g1.extended_by(g2),
        ensures
            self.step_ready(g2),
    ;

    /// One step. For `[batch, features]` input and a `[batch, hidden]` state (or none), it
    /// succeeds exactly when the features match and gives a `[batch, hidden]` state.
    fn step(&self, g: &mut Graph, x: &Tensor, h: Option<&Tensor>) -> (r: Result<Tensor, EngineError>)
        requires
            old(g).wf(),
            self.step_ready(*old(g)),
            x.valid(*old(g)),
            x.shape_of(*old(g)).len() >= 1,
            h matches Some(t) ==> t.valid(*old(g)),
        ensures
            final(g).wf(),
            old(g).extended_by(*final(g)),
            r matches Ok(t) ==> t.valid(*final(g)),
            r matches Ok(t) ==> reads(*final(g), t.id as int, x.id as int)
                && (h matches Some(hp) ==> reads(*final(g), t.id as int, hp.id as int)),
            ({
                let xs = x.shape_of(*old(g));
                xs.len() == 2 && (h matches Some(t) ==> t.shape_of(*old(g)) == seq![xs[0], self.step_hidden()]) ==> {
                    &&& r is Ok <==> xs[1] == self.step_input()
                    &&& r matches Ok(t) ==> t.shape_of(*final(g)) == seq![xs[0], self.step_hidden()]
                }
            }),
    ;
}

impl RecurrentStep for RNNCell {
    open spec fn step_ready(&self, g: Graph) -> bool {
        self.wf_in(g)
    }

    open spec fn step_input(&self) -> usize {
        self.input_size
    }

    open spec fn step_hidden(&self) -> usize {
        self.hidden_size
    }

    proof fn lemma_step_ready_extend(&self, g1: Graph, g2: Graph) {
    }

    fn step(&self, g: &mut Graph, x: &Tensor, h: Option<&Tensor>) -> (r: Result<Tensor, EngineError>) {
        let ghost xs = x.shape_of(*g);
        proof {
            if xs.len() == 2 {
                let hs = self.hidden_size;
                assert(linear_out(xs, hs) =~= seq![xs[0], hs]);
                assert(linear_out(seq![xs[0], hs], hs) =~= seq![xs[0], hs]);
                lemma_broadcast_self(seq![xs[0], hs]);
            }
        }
        self.forward_step(g, x, h)
    }
}

impl RecurrentStep for GRUCell {
    open spec fn step_ready(&self, g: Graph) -> bool {
        self.wf_in(g)
    }

    open spec fn step_input(&self) -> usize {
        self.input_size
    }

    open spec fn step_hidden(&self) -> usize {
        self.hidden_size
    }

    proof fn lemma_step_ready_extend(&self, g1: Graph, g2: Graph) {
    }

    fn step(&self, g: &mut Graph, x: &Tensor, h: Option<&Tensor>) -> (r: Result<Tensor, EngineError>) {
        let ghost xs = x.shape_of(*g);
        proof {
            if xs.len() == 2 {
                let hs = self.hidden_size;
                let w = (3 * hs) as usize;
                assert(linear_out(xs, w) =~= seq![xs[0], w]);
                assert(linear_out(seq![xs[0], hs], w) =~= seq![xs[0], w]);
                assert(seq![xs[0], w].update(1, hs) =~= seq![xs[0], hs]);
                lemma_broadcast_self(seq![xs[0], hs]);
            }
        }
        self.forward_step(g, x, h)
    }
}

/// Runs a cell over the `seq_len` steps of `[batch, seq, features]` input (from the last step
/// to the first when `reverse`), starting from `h0`; returns the outputs concatenated in
/// time order (`[batch, seq, hidden]`) and the last hidden state.
fn hidden_pass<C: RecurrentStep>(cell: &C, g: &mut Graph, input: &Tensor, h0: Option<Tensor>, seq_len: usize, reverse: bool) -> (r: Result<(Tensor, Tensor), EngineError>)
    requires
        old(g).wf(),
        cell.step_ready(*old(g)),
        input.valid(*old(g)),
        h0 matches Some(h) ==> h.valid(*old(g)),
    ensures
        final(g).wf(),
        old(g).extended_by(*final(g)),
        r matches Ok((o, h)) ==> o.valid(*final(g)) && h.valid(*final(g)),
        ({
            let xs = input.shape_of(*old(g));
            xs.len() == 3 && xs[1] == seq_len && (h0 matches Some(h) ==> h.shape_of(*old(g)) == seq![xs[0], cell.step_hidden()]) ==> {
                &&& r is Ok <==> (seq_len >= 1 && xs[2] == cell.step_input())
                &&& r matches Ok((o, h)) ==> o.shape_of(*final(g)) == seq![xs[0], seq_len, cell.step_hidden()]
                    && h.shape_of(*final(g)) == seq![xs[0], cell.step_hidden()]
            }
        }),
        r matches Ok((o, h)) ==> seq_len >= 1 && pass_structure(*final(g), o.id as int, h.id as int, input.id as int, h0, seq_len as int, reverse),
{
    let ghost g0 = *g;
    let ghost xs = input.shape_of(*g);
    let ghost b = xs[0];
    let ghost hs = cell.step_hidden();
    let ghost good = xs.len() == 3 && xs[1] == seq_len && (h0 matches Some(h) ==> h.shape_of(*g) == seq![b, hs]);
    let mut outputs: Vec<Tensor> = Vec::new();
    let mut h = h0;
    let mut i: usize = 0;
    let ghost mut steps: Seq<int> = Seq::empty();
    while i < seq_len
        invariant
            steps.len() == i,
            forall|k: int| 0 <= k < i ==> 0 <= #[trigger] steps[k] < g.nodes@.len(),
            forall|k: int| 0 <= k < i ==> g.nodes@[(#[trigger] outputs@[k]).id as int].op == (Op::Unsqueeze { axis: 1 })
                && g.nodes@[outputs@[k].id as int].inputs@ == seq![steps[k] as usize],
            forall|k: int| 0 <= k < i ==> #[trigger] reads_row(*g, steps[k], input.id as int, run_time(k, seq_len as int, reverse)),
            forall|k: int| 1 <= k < i ==> #[trigger] reads(*g, steps[k], steps[k - 1]),
            i > 0 ==> (h matches Some(t) && t.id == steps[i - 1]),
            i > 0 ==> (h0 matches Some(t) ==> reads(*g, steps[0], t.id as int)),
            g0 == *old(g),
            xs == input.shape_of(g0),
            good == (xs.len() == 3 && xs[1] == seq_len && (h0 matches Some(h) ==> h.shape_of(g0) == seq![b, hs])),
            g.wf(),
            g0.extended_by(*g),
            cell.step_ready(*g),
            input.valid(*g),
            input.shape_of(*g) == xs,
            b == xs[0],
            hs == cell.step_hidden(),
            i <= seq_len,
            outputs@.len() == i,
            forall|k: int| 0 <= k < i ==> (#[trigger] outputs@[k]).valid(*g),
            h matches Some(t) ==> t.valid(*g),
            i > 0 ==> h is Some,
            good ==> (h matches Some(t) ==> t.shape_of(*g) == seq![b, hs]),
            good && xs[2] == cell.step_input() ==> forall|k: int| 0 <= k < i ==> (#[trigger] outputs@[k]).shape_of(*g) == seq![b, 1, hs],
            good && i > 0 ==> xs[2] == cell.step_input(),
            i == 0 ==> h == h0,
        decreases seq_len - i,
    {
        let ghost gi = *g;
        let t = if reverse { seq_len - 1 - i } else { i };
        let x_t = time_step(g, input, t)?;
        let ghost g1 = *g;
        proof {
            g0.lemma_extended_trans(gi, g1);
            cell.lemma_step_ready_extend(gi, g1);
        }
        let res = match h {
            Some(hp) => cell.step(g, &x_t, Some(&hp)),
            None => cell.step(g, &x_t, None),
        };
        proof {
            g0.lemma_extended_trans(g1, *g);
        }
        let next = match res {
            Ok(t) => t,
            Err(e) => {
                return Err(e);
            },
        };
        let ghost g2 = *g;
        proof {
            gi.lemma_extended_trans(g1, g2);
            lemma_reads_self(g2, next.id as int);
        }
        let out = next.unsqueeze(g, 1)?;
        proof {
            let g3 = *g;
            gi.lemma_extended_trans(g2, g3);
            let tt = run_time(i as int, seq_len as int, reverse);
            lemma_reads_extend(g2, g3, next.id as int, x_t.id as int);
            lemma_time_row_extend(g1, g3, x_t.id as int, input.id as int, tt);
            lemma_reads_in_range(g2, next.id as int, x_t.id as int);
            assert(reads_row(g3, next.id as int, input.id as int, tt));
            assert forall|k: int| 0 <= k < i implies #[trigger] reads_row(g3, steps[k], input.id as int, run_time(k, seq_len as int, reverse)) by {
                lemma_reads_row_extend(gi, g3, steps[k], input.id as int, run_time(k, seq_len as int, reverse));
            }
            assert forall|k: int| 1 <= k < i implies #[trigger] reads(g3, steps[k], steps[k - 1]) by {
                lemma_reads_extend(gi, g3, steps[k], steps[k - 1]);
            }
            assert forall|k: int| 0 <= k < i implies g3.nodes@[(#[trigger] outputs@[k]).id as int].op == (Op::Unsqueeze { axis: 1 })
                && g3.nodes@[outputs@[k].id as int].inputs@ == seq![steps[k] as usize] by {
                assert(outputs@[k].valid(gi));
                assert(g3.nodes@[outputs@[k].id as int] == gi.nodes@[outputs@[k].id as int]);
            }
            if i > 0 {
                lemma_reads_extend(g2, g3, next.id as int, steps[i - 1]);
                if let Some(t0) = h0 {
                    lemma_reads_extend(gi, g3, steps[0], t0.id as int);
                }
            } else {
                if let Some(t0) = h0 {
                    lemma_reads_extend(g2, g3, next.id as int, t0.id as int);
                }
            }
        }
        proof {
            g0.lemma_extended_trans(g2, *g);
            assert(unsqueeze_spec(seq![b, hs], 1) =~= seq![b, 1, hs]);
            assert forall|k: int| 0 <= k < i implies (#[trigger] outputs@[k]).valid(*g) by {
                assert(outputs@[k].valid(gi));
            }
            if good && xs[2] == cell.step_input() {
                assert forall|k: int| 0 <= k < i implies (#[trigger] outputs@[k]).shape_of(*g) == seq![b, 1, hs] by {
                    assert(outputs@[k].valid(gi));
                }
            }
        }
        proof {
            cell.lemma_step_ready_extend(g1, *g);
        }
        let ghost o_prev = outputs@;
        outputs.push(out);
        proof {
            steps = steps.push(next.id as int);
            assert(outputs@[i as int] == out);
            assert forall|k: int| 0 <= k < i implies outputs@[k] == o_prev[k] by {}
        }
        h = Some(next);
        i = i + 1;
    }
    let ghost ge = *g;
    let ghost outs = outputs@;
    let ordered = if reverse {
        reversed(&outputs)
    } else {
        outputs
    };
    proof {
        assert forall|k: int| 0 <= k < ordered@.len() implies (#[trigger] ordered@[k]).valid(*g)
            && (good && xs[2] == cell.step_input() ==> ordered@[k].shape_of(*g) == seq![b, 1, hs]) by {
            if reverse {
                assert(ordered@[k] == outs[outs.len() - 1 - k]);
            } else {
                assert(ordered@[k] == outs[k]);
            }
        }
        if good && xs[2] == cell.step_input() && seq_len >= 1 {
            lemma_cat_uniform(*g, ordered@, 1, seq![b, 1, hs]);
            assert(seq![b, 1, hs].update(1, (ordered@.len() * 1) as usize) =~= seq![b, seq_len, hs]);
        }
    }
    let seq = Tensor::cat(g, ordered.as_slice(), 1)?;
    proof {
        g0.lemma_extended_trans(ge, *g);
        let gf = *g;
        let n = seq_len as int;
        let o = seq.id as int;
        assert(gf.nodes@[o].inputs@ == crate::autograd::tensor::ids_of(ordered@));
        assert forall|k: int| 0 <= k < n implies #[trigger] gf.nodes@[o].inputs@[k] as int
            == outs[run_time(k, n, reverse)].id as int by {
            if reverse {
                assert(ordered@[k] == outs[outs.len() - 1 - k]);
            } else {
                assert(ordered@[k] == outs[k]);
            }
        }
        assert forall|k: int| 0 <= k < n implies gf.nodes@[outs[k].id as int] == ge.nodes@[outs[k].id as int]
            && #[trigger] step_at(gf, o, run_time(k, n, reverse)) == steps[k] by {
            assert(outs[k].valid(ge));
            assert(0 <= steps[k] < ge.nodes@.len());
            assert(ge.nodes@[outs[k].id as int].inputs@ == seq![steps[k] as usize]);
            let kk = run_time(k, n, reverse);
            assert(run_time(kk, n, reverse) == k);
            assert(gf.nodes@[o].inputs@[kk] as int == outs[k].id as int);
        }
        assert forall|k: int| 0 <= k < n implies #[trigger] step_at(gf, o, k) == steps[run_time(k, n, reverse)] by {
            let kk = run_time(k, n, reverse);
            assert(run_time(kk, n, reverse) == k);
            assert(step_at(gf, o, run_time(kk, n, reverse)) == steps[kk]);
        }
        assert forall|k: int| 0 <= k < n implies gf.nodes@[#[trigger] gf.nodes@[o].inputs@[k] as int].op == (Op::Unsqueeze { axis: 1 }) by {
            let kk = run_time(k, n, reverse);
            assert(gf.nodes@[outs[kk].id as int] == ge.nodes@[outs[kk].id as int]);
        }
        assert forall|k: int| 0 <= k < n implies #[trigger] reads_row(gf, step_at(gf, o, k), input.id as int, k) by {
            let kk = run_time(k, n, reverse);
            assert(run_time(kk, n, reverse) == k);
            lemma_reads_row_extend(ge, gf, steps[kk], input.id as int, k);
        }
        assert forall|k: int| 1 <= k < n implies if reverse {
            reads(gf, step_at(gf, o, k - 1), #[trigger] step_at(gf, o, k))
        } else {
            reads(gf, #[trigger] step_at(gf, o, k), step_at(gf, o, k - 1))
        } by {
            if reverse {
                let kk = n - k;
                assert(step_at(gf, o, k - 1) == steps[kk]);
                assert(step_at(gf, o, k) == steps[kk - 1]);
                lemma_reads_extend(ge, gf, steps[kk], steps[kk - 1]);
            } else {
                lemma_reads_extend(ge, gf, steps[k], steps[k - 1]);
            }
        }
        if let Some(t0) = h0 {
            lemma_reads_extend(ge, gf, steps[0], t0.id as int);
            assert(step_at(gf, o, run_time(0, n, reverse)) == steps[0]);
        }
        assert(step_at(gf, o, run_time(n - 1, n, reverse)) == steps[n - 1]);
    }
    match h {
        Some(last) => Ok((seq, last)),
        None => {
            proof { assert(false); }
            Err(EngineError::InvalidArgument("empty sequence".to_string()))
        },
    }
}

/// Number of features entering layer `l` of a stack: the input size for the first layer,
/// the (doubled, when bidirectional) hidden size after.
pub open spec fn layer_input(l: int, input_size: usize, hidden_size: usize, bidirectional: bool) -> usize {
    if l == 0 {
        input_size
    } else if bidirectional {
        (2 * hidden_size) as usize
    } else {
        hidden_size
    }
}

/// Number of directions of a stack.
pub open spec fn directions(bidirectional: bool) -> usize {
    if bidirectional { 2 } else { 1 }
}

/// The cells of a stack exist for every layer (and direction) and live in `g`.
pub open spec fn stack_ready<C: RecurrentStep>(g: Graph, fwd: Seq<C>, bwd: Seq<C>, num_layers: usize, bidirectional: bool) -> bool {
    &&& fwd.len() == num_layers
    &&& bidirectional ==> bwd.len() == num_layers
    &&& forall|k: int| 0 <= k < fwd.len() ==> (#[trigger] fwd[k]).step_ready(g)
    &&& forall|k: int| 0 <= k < bwd.len() ==> (#[trigger] bwd[k]).step_ready(g)
}

/// The cells of a stack have the sizes its configuration gives them.
pub open spec fn stack_consistent<C: RecurrentStep>(fwd: Seq<C>, bwd: Seq<C>, input_size: usize, hidden_size: usize, num_layers: usize, bidirectional: bool) -> bool {
    &&& num_layers >= 1
    &&& bidirectional ==> 2 * hidden_size <= usize::MAX
    &&& forall|k: int| 0 <= k < num_layers ==> (#[trigger] fwd[k]).step_input() == layer_input(k, input_size, hidden_size, bidirectional)
        && fwd[k].step_hidden() == hidden_size
    &&& bidirectional ==> forall|k: int| 0 <= k < num_layers ==> (#[trigger] bwd[k]).step_input() == layer_input(k, input_size, hidden_size, bidirectional)
        && bwd[k].step_hidden() == hidden_size
}

/// Recording more nodes keeps the cells of a stack in place.
proof fn lemma_stack_ready_extend<C: RecurrentStep>(g1: Graph, g2: Graph, fwd: Seq<C>, bwd: Seq<C>, num_layers: usize, bidirectional: bool)
    requires
        stack_ready(g1, fwd, bwd, num_layers, bidirectional),
        g1.extended_by(g2),
    ensures
        stack_ready(g2, fwd, bwd, num_layers, bidirectional),
{
    assert forall|k: int| 0 <= k < fwd.len() implies (#[trigger] fwd[k]).step_ready(g2) by {
        fwd[k].lemma_step_ready_extend(g1, g2);
    }
    assert forall|k: int| 0 <= k < bwd.len() implies (#[trigger] bwd[k]).step_ready(g2) by {
        bwd[k].lemma_step_ready_extend(g1, g2);
    }
}

/// Where the last state of pass `d` of layer `l` stands among a stack's last states: layer by
/// layer, the forward pass before the backward one.
pub open spec fn last_index(l: int, d: int, bidirectional: bool) -> int {
    if bidirectional { 2 * l + d } else { l }
}

/// Layer structure in `g`: node `out` is what the layer gives, the forward pass over node `inp`
/// or, when bidirectional, that pass and the backward pass over `inp` joined along axis 2; `lf`
/// and `lb` are the last states of the forward and the backward pass.
pub open spec fn layer_structure(g: Graph, inp: int, out: int, lf: int, lb: int, n: int, bidirectional: bool) -> bool {
    if bidirectional {
        &&& g.nodes@[out].op == (Op::Cat { axis: 2 })
        &&& g.nodes@[out].inputs@.len() == 2
        &&& pass_structure(g, g.nodes@[out].inputs@[0] as int, lf, inp, None, n, false)
        &&& pass_structure(g, g.nodes@[out].inputs@[1] as int, lb, inp, None, n, true)
    } else {
        pass_structure(g, out, lf, inp, None, n, false)
    }
}

/// Recording more nodes keeps the structure of a layer.
proof fn lemma_layer_structure_extend(g1: Graph, g2: Graph, inp: int, out: int, lf: int, lb: int, n: int, bidirectional: bool)
    requires
        g1.wf(),
        0 <= out < g1.nodes@.len(),
        n >= 1,
        layer_structure(g1, inp, out, lf, lb, n, bidirectional),
        g1.extended_by(g2),
    ensures
        layer_structure(g2, inp, out, lf, lb, n, bidirectional),
{
    if bidirectional {
        assert(crate::autograd::node::node_wf(g1.nodes@[out], out));
        assert(g2.nodes@[out] == g1.nodes@[out]);
        lemma_pass_structure_extend(g1, g2, g1.nodes@[out].inputs@[0] as int, lf, inp, None, n, false);
        lemma_pass_structure_extend(g1, g2, g1.nodes@[out].inputs@[1] as int, lb, inp, None, n, true);
    } else {
        lemma_pass_structure_extend(g1, g2, out, lf, inp, None, n, false);
    }
}

/// The layer inputs `ins`, layer outputs `outs` and last states `lasts` witness that `o` and
/// `hn` come out of a stack of `layers` layers over `input` in `g` (see `stack_structure`).
pub open spec fn stack_witness(g: Graph, o: int, hn: int, input: int, layers: int, n: int, bidirectional: bool,
    ins: Seq<int>, outs: Seq<int>, lasts: Seq<int>) -> bool {
    &&& layers >= 1
    &&& ins.len() == layers && outs.len() == layers
    &&& lasts.len() == (if bidirectional { 2 * layers } else { layers })
    &&& ins[0] == input
    &&& forall|l: int| 0 <= l < layers ==> #[trigger] layer_structure(g, ins[l], outs[l], lasts[last_index(l, 0, bidirectional)],
        lasts[last_index(l, 1, bidirectional)], n, bidirectional)
    &&& forall|l: int| 0 <= l < layers - 1 ==> #[trigger] reads(g, ins[l + 1], outs[l])
    &&& reads(g, o, outs[layers - 1])
    &&& g.nodes@[hn].op == (Op::Cat { axis: 0 })
    &&& g.nodes@[hn].inputs@.len() == lasts.len()
    &&& forall|k: int| 0 <= k < lasts.len() ==> g.nodes@[#[trigger] g.nodes@[hn].inputs@[k] as int].op == (Op::Unsqueeze { axis: 0 })
        && g.nodes@[g.nodes@[hn].inputs@[k] as int].inputs@ == seq![lasts[k] as usize]
}

/// Node `o` of `g` is the output of a stack of `layers` recurrent layers over node `input`, `n`
/// steps long, and node `hn` holds their last states: layer 0 reads `input`, each later layer
/// reads what the layer before gives (through the dropout between layers), `o` reads what the
/// last layer gives, and `hn` joins along axis 0 the last state of every pass, each given a new
/// axis 0, layer by layer and the forward pass before the backward one, so that entry
/// `directions * l + d` is the last step of pass `d` of layer `l`.
pub open spec fn stack_structure(g: Graph, o: int, hn: int, input: int, layers: int, n: int, bidirectional: bool) -> bool {
    exists|ins: Seq<int>, outs: Seq<int>, lasts: Seq<int>| #[trigger] stack_witness(g, o, hn, input, layers, n, bidirectional, ins, outs, lasts)
}

/// The initial state of a stack, when given, has the documented shape
/// `[directions * layers, batch, hidden]`.
pub open spec fn documented_state(init: Option<Seq<usize>>, batch: usize, hidden_size: usize, num_layers: usize, bidirectional: bool) -> bool {
    init matches Some(s) ==> s == seq![(directions(bidirectional) * num_layers) as usize, batch, hidden_size]
}

/// The layer output after the optional dropout between layers.
fn between_layers(g: &mut Graph, dropout: Option<Dropout>, layer: usize, num_layers: usize, out: Tensor) -> (r: Tensor)
    requires
        old(g).wf(),
        out.valid(*old(g)),
        layer < num_layers,
    ensures
        final(g).wf(),
        old(g).extended_by(*final(g)),
        r.valid(*final(g)),
        r.shape_of(*final(g)) == out.shape_of(*old(g)),
        (dropout is None || layer + 1 == num_layers) ==> r == out && *final(g) == *old(g),
        (dropout is Some && layer + 1 < num_layers && (!dropout->Some_0.is_training || zero_bits(dropout->Some_0.p_bits)))
            ==> r == out && *final(g) == *old(g),
        (dropout is Some && layer + 1 < num_layers && dropout->Some_0.is_training && !zero_bits(dropout->Some_0.p_bits))
            ==> final(g).nodes@[r.id as int].op == Op::Mul && final(g).nodes@[r.id as int].inputs@.len() == 2
                && final(g).nodes@[r.id as int].inputs@[0] == out.id,
{
    match dropout {
        Some(drop) => {
            if layer < num_layers - 1 {
                drop.forward_dropout(g, &out)
            } else {
                out
            }
        },
        None => out,
    }
}

/// Runs a stack of recurrent layers over `[batch, seq, features]` input; returns the last
/// layer's outputs (`[batch, seq, directions * hidden]`) and the last hidden state of every
/// layer and direction (`[directions * layers, batch, hidden]`).
#[verifier::rlimit(100)]
fn hidden_stack<C: RecurrentStep>(
    g: &mut Graph,
    fwd: &Vec<C>,
    bwd: &Vec<C>,
    dropout: Option<Dropout>,
    input_size: usize,
    hidden_size: usize,
    num_layers: usize,
    bidirectional: bool,
    input: &Tensor,
    init: Option<&Tensor>,
) -> (r: Result<(Tensor, Tensor), EngineError>)
    requires
        old(g).wf(),
        stack_ready(*old(g), fwd@, bwd@, num_layers, bidirectional),
        input.valid(*old(g)),
        input.shape_of(*old(g)).len() == 3,
        init matches Some(t) ==> t.valid(*old(g)),
        bidirectional && init is Some ==> 2 * num_layers <= usize::MAX,
    ensures
        final(g).wf(),
        old(g).extended_by(*final(g)),
        r matches Ok((o, h)) ==> o.valid(*final(g)) && h.valid(*final(g)),
        ({
            let xs = input.shape_of(*old(g));
            let init_shape = match init { Some(t) => Some(t.shape_of(*old(g))), None => None };
            stack_consistent(fwd@, bwd@, input_size, hidden_size, num_layers, bidirectional)
                && documented_state(init_shape, xs[0], hidden_size, num_layers, bidirectional) ==> {
                &&& r is Ok <==> (xs[1] >= 1 && xs[2] == input_size)
                &&& r matches Ok((o, h)) ==> o.shape_of(*final(g)) == seq![xs[0], xs[1], (directions(bidirectional) * hidden_size) as usize]
                    && h.shape_of(*final(g)) == seq![(directions(bidirectional) * num_layers) as usize, xs[0], hidden_size]
            }
        }),
        r matches Ok((o, h)) ==> stack_structure(*final(g), o.id as int, h.id as int, input.id as int, num_layers as int,
            input.shape_of(*old(g))[1] as int, bidirectional),
{
    let ghost g0 = *g;
    let ghost xs = input.shape_of(*g);
    let ghost b = xs[0];
    let ghost init_shape = match init { Some(t) => Some(t.shape_of(*g)), None => None };
    let ghost cons = stack_consistent(fwd@, bwd@, input_size, hidden_size, num_layers, bidirectional)
        && documented_state(init_shape, xs[0], hidden_size, num_layers, bidirectional);
    let ghost dh = (directions(bidirectional) * hidden_size) as usize;
    let shape = input.shape(g);
    let seq_len = shape[1];
    let mut current = *input;
    let mut final_hiddens: Vec<Tensor> = Vec::new();
    let mut layer: usize = 0;
    let ghost mut ins: Seq<int> = Seq::empty();
    let ghost mut outs: Seq<int> = Seq::empty();
    let ghost mut lasts: Seq<int> = Seq::empty();
    while layer < num_layers
        invariant
            ins.len() == layer && outs.len() == layer,
            lasts.len() == final_hiddens@.len(),
            lasts.len() == (if bidirectional { 2 * layer } else { layer as int }),
            layer > 0 ==> ins[0] == input.id as int,
            layer == 0 ==> current == *input,
            layer > 0 ==> seq_len >= 1,
            forall|l: int| 0 <= l < layer ==> 0 <= #[trigger] outs[l] < g.nodes@.len(),
            forall|l: int| 0 <= l < layer ==> #[trigger] layer_structure(*g, ins[l], outs[l], lasts[last_index(l, 0, bidirectional)],
                lasts[last_index(l, 1, bidirectional)], seq_len as int, bidirectional),
            forall|l: int| 0 <= l < layer - 1 ==> #[trigger] reads(*g, ins[l + 1], outs[l]),
            layer > 0 ==> reads(*g, current.id as int, outs[layer - 1]),
            forall|k: int| 0 <= k < lasts.len() ==> g.nodes@[(#[trigger] final_hiddens@[k]).id as int].op == (Op::Unsqueeze { axis: 0 })
                && g.nodes@[final_hiddens@[k].id as int].inputs@ == seq![lasts[k] as usize],
            g0 == *old(g),
            g.wf(),
            g0.extended_by(*g),
            stack_ready(*g, fwd@, bwd@, num_layers, bidirectional),
            xs == input.shape_of(g0),
            b == xs[0],
            seq_len == xs[1],
            xs.len() == 3,
            init_shape == (match init { Some(t) => Some(t.shape_of(g0)), None => None }),
            init matches Some(t) ==> t.valid(*g) && t.shape_of(*g) == t.shape_of(g0),
            bidirectional && init is Some ==> 2 * num_layers <= usize::MAX,
            cons == (stack_consistent(fwd@, bwd@, input_size, hidden_size, num_layers, bidirectional)
                && documented_state(init_shape, xs[0], hidden_size, num_layers, bidirectional)),
            dh == (directions(bidirectional) * hidden_size) as usize,
            layer <= num_layers,
            current.valid(*g),
            layer == 0 ==> current.shape_of(*g) == xs,
            final_hiddens@.len() == layer * directions(bidirectional),
            forall|k: int| 0 <= k < final_hiddens@.len() ==> (#[trigger] final_hiddens@[k]).valid(*g),
            cons && layer > 0 ==> seq_len >= 1 && xs[2] == input_size,
            cons && layer > 0 ==> current.shape_of(*g) == seq![b, seq_len, dh],
            cons ==> forall|k: int| 0 <= k < final_hiddens@.len() ==> (#[trigger] final_hiddens@[k]).shape_of(*g) == seq![1usize, b, hidden_size],
        decreases num_layers - layer,
    {
        let ghost gl = *g;
        let h0 = match init {
            Some(ih) => {
                let idx = if bidirectional { layer * 2 } else { layer };
                Some(state_slice(g, ih, idx)?)
            },
            None => None,
        };
        let ghost g1 = *g;
        proof {
            g0.lemma_extended_trans(gl, g1);
            lemma_stack_ready_extend(gl, g1, fwd@, bwd@, num_layers, bidirectional);
            if cons {
                assert(layer_input(layer as int, input_size, hidden_size, bidirectional) == (if layer == 0 { xs[2] } else { dh }) || layer == 0);
            }
        }
        let (fwd_seq, fwd_h) = match hidden_pass(&fwd[layer], g, &current, h0, seq_len, false) {
            Ok(p) => p,
            Err(e) => {
                proof { g0.lemma_extended_trans(g1, *g); }
                return Err(e);
            },
        };
        let ghost g2 = *g;
        proof {
            g0.lemma_extended_trans(g1, g2);
            lemma_stack_ready_extend(g1, g2, fwd@, bwd@, num_layers, bidirectional);
            assert(unsqueeze_spec(seq![b, hidden_size], 0) =~= seq![1usize, b, hidden_size]);
        }
        let fwd_last = fwd_h.unsqueeze(g, 0)?;
        let ghost g3 = *g;
        let ghost lf_id = fwd_h.id as int;
        let ghost mut lb_id = fwd_h.id as int;
        let ghost fh_prev = final_hiddens@;
        proof {
            g0.lemma_extended_trans(g2, g3);
            lemma_stack_ready_extend(g2, g3, fwd@, bwd@, num_layers, bidirectional);
            assert forall|k: int| 0 <= k < final_hiddens@.len() implies (#[trigger] final_hiddens@[k]).valid(g3)
                && (cons ==> final_hiddens@[k].shape_of(g3) == seq![1usize, b, hidden_size]) by {
                assert(final_hiddens@[k].valid(gl));
            }
        }
        final_hiddens.push(fwd_last);
        let layer_out = if bidirectional {
            let h0b = match init {
                Some(ih) => Some(state_slice(g, ih, layer * 2 + 1)?),
                None => None,
            };
            let ghost g4 = *g;
            proof {
                g0.lemma_extended_trans(g3, g4);
                lemma_stack_ready_extend(g3, g4, fwd@, bwd@, num_layers, bidirectional);
            }
            let (bwd_seq, bwd_h) = match hidden_pass(&bwd[layer], g, &current, h0b, seq_len, true) {
                Ok(p) => p,
                Err(e) => {
                    proof { g0.lemma_extended_trans(g4, *g); }
                    return Err(e);
                },
            };
            let ghost g5 = *g;
            proof {
                g0.lemma_extended_trans(g4, g5);
                lemma_stack_ready_extend(g4, g5, fwd@, bwd@, num_layers, bidirectional);
            }
            let bwd_last = bwd_h.unsqueeze(g, 0)?;
            let ghost g6 = *g;
            proof {
                g0.lemma_extended_trans(g5, g6);
                lemma_stack_ready_extend(g5, g6, fwd@, bwd@, num_layers, bidirectional);
                assert forall|k: int| 0 <= k < final_hiddens@.len() implies (#[trigger] final_hiddens@[k]).valid(g6)
                    && (cons ==> final_hiddens@[k].shape_of(g6) == seq![1usize, b, hidden_size]) by {
                    assert(final_hiddens@[k].valid(g3));
                }
                crate::autograd::tensor::lemma_cat_pair(g6, fwd_seq, bwd_seq, 2);
            }
            final_hiddens.push(bwd_last);
            let mut parts: Vec<Tensor> = Vec::new();
            parts.push(fwd_seq);
            parts.push(bwd_seq);
            assert(parts@ =~= seq![fwd_seq, bwd_seq]);
            let both = Tensor::cat(g, parts.as_slice(), 2)?;
            proof {
                g0.lemma_extended_trans(g6, *g);
                lemma_stack_ready_extend(g6, *g, fwd@, bwd@, num_layers, bidirectional);
                assert forall|k: int| 0 <= k < final_hiddens@.len() implies (#[trigger] final_hiddens@[k]).valid(*g)
                    && (cons ==> final_hiddens@[k].shape_of(*g) == seq![1usize, b, hidden_size]) by {
                    assert(final_hiddens@[k].valid(g6));
                }
                if cons {
                    assert(seq![b, seq_len, hidden_size].update(2, (hidden_size + hidden_size) as usize) =~= seq![b, seq_len, dh]);
                }
                lb_id = bwd_h.id as int;
                g2.lemma_extended_trans(g3, g4);
                g2.lemma_extended_trans(g4, g6);
                g2.lemma_extended_trans(g6, *g);
                g5.lemma_extended_trans(g6, *g);
                lemma_pass_structure_extend(g2, *g, fwd_seq.id as int, lf_id, current.id as int, None, seq_len as int, false);
                lemma_pass_structure_extend(g5, *g, bwd_seq.id as int, lb_id, current.id as int, None, seq_len as int, true);
                assert(crate::autograd::tensor::ids_of(seq![fwd_seq, bwd_seq]) =~= seq![fwd_seq.id, bwd_seq.id]);
                assert(layer_structure(*g, current.id as int, both.id as int, lf_id, lb_id, seq_len as int, true));
                assert(g.nodes@[bwd_last.id as int] == g6.nodes@[bwd_last.id as int]);
                assert(g.nodes@[fwd_last.id as int] == g3.nodes@[fwd_last.id as int]);
            }
            both
        } else {
            proof {
                g2.lemma_extended_trans(g3, *g);
                lemma_pass_structure_extend(g2, *g, fwd_seq.id as int, lf_id, current.id as int, None, seq_len as int, false);
            }
            fwd_seq
        };
        let ghost g7 = *g;
        assert(layer_structure(g7, current.id as int, layer_out.id as int, lf_id, lb_id, seq_len as int, bidirectional));
        let next = between_layers(g, dropout, layer, num_layers, layer_out);
        proof {
            g0.lemma_extended_trans(g7, *g);
            lemma_stack_ready_extend(g7, *g, fwd@, bwd@, num_layers, bidirectional);
            assert forall|k: int| 0 <= k < final_hiddens@.len() implies (#[trigger] final_hiddens@[k]).valid(*g)
                && (cons ==> final_hiddens@[k].shape_of(*g) == seq![1usize, b, hidden_size]) by {
                assert(final_hiddens@[k].valid(g7));
            }
            assert((layer + 1) * directions(bidirectional) == layer * directions(bidirectional) + directions(bidirectional)) by (nonlinear_arith);
        }
        proof {
            let gx = *g;
            gl.lemma_extended_trans(g7, gx);
            gl.lemma_extended_trans(g1, g7);
            let bi = bidirectional;
            let n_ins = ins.push(current.id as int);
            let n_outs = outs.push(layer_out.id as int);
            let n_lasts = if bi { lasts.push(lf_id).push(lb_id) } else { lasts.push(lf_id) };
            assert forall|l: int| 0 <= l < layer implies 0 <= #[trigger] outs[l] < gx.nodes@.len()
                && layer_structure(gx, ins[l], outs[l], lasts[last_index(l, 0, bi)], lasts[last_index(l, 1, bi)], seq_len as int, bi) by {
                lemma_layer_structure_extend(gl, gx, ins[l], outs[l], lasts[last_index(l, 0, bi)], lasts[last_index(l, 1, bi)], seq_len as int, bi);
            }
            assert forall|l: int| 0 <= l < layer + 1 implies #[trigger] layer_structure(gx, n_ins[l], n_outs[l],
                n_lasts[last_index(l, 0, bi)], n_lasts[last_index(l, 1, bi)], seq_len as int, bi) by {
                if l < layer {
                    assert(n_ins[l] == ins[l] && n_outs[l] == outs[l]);
                    assert(n_lasts[last_index(l, 0, bi)] == lasts[last_index(l, 0, bi)]);
                    assert(n_lasts[last_index(l, 1, bi)] == lasts[last_index(l, 1, bi)]);
                } else {
                    lemma_layer_structure_extend(g7, gx, current.id as int, layer_out.id as int, lf_id, lb_id, seq_len as int, bi);
                }
            }
            assert forall|l: int| 0 <= l < layer implies #[trigger] reads(gx, n_ins[l + 1], n_outs[l]) by {
                if l < layer - 1 {
                    lemma_reads_extend(gl, gx, ins[l + 1], outs[l]);
                    assert(n_ins[l + 1] == ins[l + 1]);
                } else {
                    lemma_reads_extend(gl, gx, current.id as int, outs[layer - 1]);
                }
            }
            lemma_reads_self(g7, layer_out.id as int);
            if next == layer_out {
                lemma_reads_extend(g7, gx, layer_out.id as int, layer_out.id as int);
            } else {
                lemma_reads_through(g7, gx, next.id as int, 0, layer_out.id as int);
            }
            assert forall|k: int| 0 <= k < n_lasts.len() implies gx.nodes@[(#[trigger] final_hiddens@[k]).id as int].op == (Op::Unsqueeze { axis: 0 })
                && gx.nodes@[final_hiddens@[k].id as int].inputs@ == seq![n_lasts[k] as usize] by {
                if k < lasts.len() {
                    assert(final_hiddens@[k] == fh_prev[k]);
                    assert(fh_prev[k].valid(gl));
                    assert(gx.nodes@[fh_prev[k].id as int] == gl.nodes@[fh_prev[k].id as int]);
                } else if k == lasts.len() {
                    assert(final_hiddens@[k] == fwd_last);
                    assert(gx.nodes@[fwd_last.id as int] == g3.nodes@[fwd_last.id as int]);
                } else {
                    assert(bi);
                }
            }
            ins = n_ins;
            outs = n_outs;
            lasts = n_lasts;
        }
        current = next;
        layer = layer + 1;
    }
    let n_hidden = final_hiddens.len();
    proof {
        if cons {
            assert(final_hiddens@.len() * 1 == n_hidden);
            lemma_cat_uniform(*g, final_hiddens@, 0, seq![1usize, b, hidden_size]);
            assert(seq![1usize, b, hidden_size].update(0, (final_hiddens@.len() * 1) as usize)
                =~= seq![(directions(bidirectional) * num_layers) as usize, b, hidden_size]);
        }
    }
    let ghost g8 = *g;
    let h_n = Tensor::cat(g, final_hiddens.as_slice(), 0)?;
    proof {
        g0.lemma_extended_trans(g8, *g);
        let gf = *g;
        let bi = bidirectional;
        let n = seq_len as int;
        assert(final_hiddens@.len() > 0);
        assert forall|l: int| 0 <= l < layer implies #[trigger] layer_structure(gf, ins[l], outs[l],
            lasts[last_index(l, 0, bi)], lasts[last_index(l, 1, bi)], n, bi) by {
            lemma_layer_structure_extend(g8, gf, ins[l], outs[l], lasts[last_index(l, 0, bi)], lasts[last_index(l, 1, bi)], n, bi);
        }
        assert forall|l: int| 0 <= l < layer - 1 implies #[trigger] reads(gf, ins[l + 1], outs[l]) by {
            lemma_reads_extend(g8, gf, ins[l + 1], outs[l]);
        }
        lemma_reads_extend(g8, gf, current.id as int, outs[layer - 1]);
        assert(gf.nodes@[h_n.id as int].inputs@ == crate::autograd::tensor::ids_of(final_hiddens@));
        assert forall|k: int| 0 <= k < lasts.len() implies gf.nodes@[#[trigger] gf.nodes@[h_n.id as int].inputs@[k] as int].op == (Op::Unsqueeze { axis: 0 })
            && gf.nodes@[gf.nodes@[h_n.id as int].inputs@[k] as int].inputs@ == seq![lasts[k] as usize] by {
            assert(gf.nodes@[h_n.id as int].inputs@[k] == final_hiddens@[k].id);
            assert(final_hiddens@[k].valid(g8));
            assert(gf.nodes@[final_hiddens@[k].id as int] == g8.nodes@[final_hiddens@[k].id as int]);
        }
        assert(stack_witness(gf, current.id as int, h_n.id as int, input.id as int, num_layers as int, n, bi, ins, outs, lasts));
    }
    Ok((current, h_n))
}

/// Multi-layer, optionally bidirectional Elman RNN sequence module.
pub struct RNN {
    pub forward_cells: Vec<RNNCell>,
    pub backward_cells: Vec<RNNCell>,
    pub input_size: usize,
    pub hidden_size: usize,
    pub num_layers: usize,
    pub bidirectional: bool,
    pub dropout: Option<Dropout>,
}

impl RNN {
    /// A cell exists for every layer (and direction) and lives in `g`.
    pub open spec fn wf_in(&self, g: Graph) -> bool {
        stack_ready(g, self.forward_cells@, self.backward_cells@, self.num_layers, self.bidirectional)
    }

    /// The cells have the sizes that the module's configuration gives them.
    pub open spec fn consistent(&self) -> bool {
        stack_consistent(self.forward_cells@, self.backward_cells@, self.input_size, self.hidden_size, self.num_layers, self.bidirectional)
    }

    /// A module of `num_layers` layers; layer 0 reads `input_size` features, later layers
    /// the (doubled, when bidirectional) hidden size. Dropout with probability `p` (the `f32`
    /// with bit pattern `dropout_p_bits`) is applied between layers when `p > 0` and there
    /// is more than one layer.
    pub fn new(g: &mut Graph, input_size: usize, hidden_size: usize, num_layers: usize, activation: RNNActivation, bidirectional: bool, dropout_p_bits: u32) -> (r: RNN)
        requires
            old(g).wf(),
            num_layers > 0,
            bidirectional && num_layers > 1 ==> 2 * hidden_size <= usize::MAX,
            positive_bits(dropout_p_bits) && num_layers > 1 ==> probability_bits(dropout_p_bits),
                    ensures
            final(g).wf(),
            old(g).extended_by(*final(g)),
            r.wf_in(*final(g)),
            (bidirectional ==> 2 * hidden_size <= usize::MAX) ==> r.consistent(),
            r.input_size == input_size,
            r.hidden_size == hidden_size,
            r.num_layers == num_layers,
            r.bidirectional == bidirectional,
            r.backward_cells@.len() == (if bidirectional { num_layers } else { 0 }),
            r.dropout == (if positive_bits(dropout_p_bits) && num_layers > 1 {
                Some(Dropout { p_bits: dropout_p_bits, is_training: true })
            } else {
                None
            }),
    {
        let ghost g0 = *g;
        let mut forward_cells: Vec<RNNCell> = Vec::new();
        let mut backward_cells: Vec<RNNCell> = Vec::new();
        let mut layer: usize = 0;
        while layer < num_layers
            invariant
                g0 == *old(g),
                g.wf(),
                g0.extended_by(*g),
                layer <= num_layers,
                bidirectional && num_layers > 1 ==> 2 * hidden_size <= usize::MAX,
                                forward_cells@.len() == layer,
                backward_cells@.len() == (if bidirectional { layer } else { 0 }),
                forall|k: int| 0 <= k < forward_cells@.len() ==> (#[trigger] forward_cells@[k]).wf_in(*g),
                forall|k: int| 0 <= k < backward_cells@.len() ==> (#[trigger] backward_cells@[k]).wf_in(*g),
                (bidirectional ==> 2 * hidden_size <= usize::MAX) ==> forall|k: int| 0 <= k < layer ==>
                    (#[trigger] forward_cells@[k]).input_size == layer_input(k, input_size, hidden_size, bidirectional)
                    && forward_cells@[k].hidden_size == hidden_size,
                bidirectional ==> forall|k: int| 0 <= k < layer ==>
                    (#[trigger] backward_cells@[k]).input_size == layer_input(k, input_size, hidden_size, bidirectional)
                    && backward_cells@[k].hidden_size == hidden_size,
            decreases num_layers - layer,
        {
            let in_dim = if layer == 0 {
                input_size
            } else if bidirectional {
                hidden_size * 2
            } else {
                hidden_size
            };
            let ghost g1 = *g;
            let cell = RNNCell::new(g, in_dim, hidden_size, activation);
            let ghost g2 = *g;
            proof {
                g0.lemma_extended_trans(g1, g2);
            }
            forward_cells.push(cell);
            if bidirectional {
                let back = RNNCell::new(g, in_dim, hidden_size, activation);
                proof {
                    g0.lemma_extended_trans(g2, *g);
                }
                backward_cells.push(back);
            }
            proof {
                assert forall|k: int| 0 <= k < forward_cells@.len() implies (#[trigger] forward_cells@[k]).wf_in(*g) by {
                    if k < layer {
                        assert(forward_cells@[k].wf_in(g1));
                    }
                }
                assert forall|k: int| 0 <= k < backward_cells@.len() implies (#[trigger] backward_cells@[k]).wf_in(*g) by {
                    if k < layer {
                        assert(backward_cells@[k].wf_in(g1));
                    }
                }
            }
            layer = layer + 1;
        }
        let dropout = if dropout_p_bits > 0 && dropout_p_bits <= 0x7f80_0000 && num_layers > 1 {
            Some(Dropout::new(dropout_p_bits))
        } else {
            None
        };
        RNN { forward_cells, backward_cells, input_size, hidden_size, num_layers, bidirectional, dropout }
    }

    /// Runs the layers over `[batch, seq, input_size]` input, each layer reading the (dropped
    /// out) outputs of the previous one; returns the last layer's outputs
    /// (`[batch, seq, directions * hidden]`) and the last hidden state of every layer and
    /// direction (`[directions * layers, batch, hidden]`), starting from `initial_hidden` (of
    /// that shape) when given. Input of another rank is refused.
    pub fn forward_seq(&self, g: &mut Graph, input: &Tensor, initial_hidden: Option<&Tensor>) -> (r: Result<(Tensor, Tensor), EngineError>)
        requires
            old(g).wf(),
            self.wf_in(*old(g)),
            input.valid(*old(g)),
            initial_hidden matches Some(t) ==> t.valid(*old(g)),
            self.bidirectional && initial_hidden is Some ==> 2 * self.num_layers <= usize::MAX,
        ensures
            final(g).wf(),
            old(g).extended_by(*final(g)),
            r matches Ok((o, h)) ==> o.valid(*final(g)) && h.valid(*final(g)),
            r matches Ok((o, h)) ==> stack_structure(*final(g), o.id as int, h.id as int, input.id as int, self.num_layers as int,
                input.shape_of(*old(g))[1] as int, self.bidirectional),
            input.shape_of(*old(g)).len() != 3 ==> *final(g) == *old(g) && (r matches Err(e)
                && e matches EngineError::ShapeMismatch { expected, actual }
                && expected@ == seq![0usize, 0usize, self.input_size] && actual@ == input.shape_of(*old(g))),
            ({
                let xs = input.shape_of(*old(g));
                let init = match initial_hidden { Some(t) => Some(t.shape_of(*old(g))), None => None };
                xs.len() == 3 && self.consistent() && documented_state(init, xs[0], self.hidden_size, self.num_layers, self.bidirectional) ==> {
                    &&& r is Ok <==> (xs[1] >= 1 && xs[2] == self.input_size)
                    &&& r matches Ok((o, h)) ==> o.shape_of(*final(g)) == seq![xs[0], xs[1], (directions(self.bidirectional) * self.hidden_size) as usize]
                        && h.shape_of(*final(g)) == seq![(directions(self.bidirectional) * self.num_layers) as usize, xs[0], self.hidden_size]
                }
            }),
    {
        let shape = input.shape(g);
        if shape.len() != 3 {
            return Err(EngineError::ShapeMismatch { expected: shape3(0, 0, self.input_size), actual: shape });
        }
        hidden_stack(
            g,
            &self.forward_cells,
            &self.backward_cells,
            self.dropout,
            self.input_size,
            self.hidden_size,
            self.num_layers,
            self.bidirectional,
            input,
            initial_hidden,
        )
    }
}

/// Multi-layer, optionally bidirectional GRU sequence module.
pub struct GRU {
    pub forward_cells: Vec<GRUCell>,
    pub backward_cells: Vec<GRUCell>,
    pub input_size: usize,
    pub hidden_size: usize,
    pub num_layers: usize,
    pub bidirectional: bool,
    pub dropout: Option<Dropout>,
}

impl GRU {
    /// A cell exists for every layer (and direction) and lives in `g`.
    pub open spec fn wf_in(&self, g: Graph) -> bool {
        stack_ready(g, self.forward_cells@, self.backward_cells@, self.num_layers, self.bidirectional)
    }

    /// The cells have the sizes that the module's configuration gives them.
    pub open spec fn consistent(&self) -> bool {
        stack_consistent(self.forward_cells@, self.backward_cells@, self.input_size, self.hidden_size, self.num_layers, self.bidirectional)
    }

    /// A module of `num_layers` layers; layer 0 reads `input_size` features, later layers
    /// the (doubled, when bidirectional) hidden size. Dropout with probability `p` (the `f32`
    /// with bit pattern `dropout_p_bits`) is applied between layers when `p > 0` and there
    /// is more than one layer.
    pub fn new(g: &mut Graph, input_size: usize, hidden_size: usize, num_layers: usize, bidirectional: bool, dropout_p_bits: u32) -> (r: GRU)
        requires
            old(g).wf(),
            num_layers > 0,
            bidirectional && num_layers > 1 ==> 2 * hidden_size <= usize::MAX,
            positive_bits(dropout_p_bits) && num_layers > 1 ==> probability_bits(dropout_p_bits),
            3 * hidden_size <= usize::MAX,
        ensures
            final(g).wf(),
            old(g).extended_by(*final(g)),
            r.wf_in(*final(g)),
            (bidirectional ==> 2 * hidden_size <= usize::MAX) ==> r.consistent(),
            r.input_size == input_size,
            r.hidden_size == hidden_size,
            r.num_layers == num_layers,
            r.bidirectional == bidirectional,
            r.backward_cells@.len() == (if bidirectional { num_layers } else { 0 }),
            r.dropout == (if positive_bits(dropout_p_bits) && num_layers > 1 {
                Some(Dropout { p_bits: dropout_p_bits, is_training: true })
            } else {
                None
            }),
    {
        let ghost g0 = *g;
        let mut forward_cells: Vec<GRUCell> = Vec::new();
        let mut backward_cells: Vec<GRUCell> = Vec::new();
        let mut layer: usize = 0;
        while layer < num_layers
            invariant
                g0 == *old(g),
                g.wf(),
                g0.extended_by(*g),
                layer <= num_layers,
                bidirectional && num_layers > 1 ==> 2 * hidden_size <= usize::MAX,
                3 * hidden_size <= usize::MAX,
                forward_cells@.len() == layer,
                backward_cells@.len() == (if bidirectional { layer } else { 0 }),
                forall|k: int| 0 <= k < forward_cells@.len() ==> (#[trigger] forward_cells@[k]).wf_in(*g),
                forall|k: int| 0 <= k < backward_cells@.len() ==> (#[trigger] backward_cells@[k]).wf_in(*g),
                (bidirectional ==> 2 * hidden_size <= usize::MAX) ==> forall|k: int| 0 <= k < layer ==>
                    (#[trigger] forward_cells@[k]).input_size == layer_input(k, input_size, hidden_size, bidirectional)
                    && forward_cells@[k].hidden_size == hidden_size,
                bidirectional ==> forall|k: int| 0 <= k < layer ==>
                    (#[trigger] backward_cells@[k]).input_size == layer_input(k, input_size, hidden_size, bidirectional)
                    && backward_cells@[k].hidden_size == hidden_size,
            decreases num_layers - layer,
        {
            let in_dim = if layer == 0 {
                input_size
            } else if bidirectional {
                hidden_size * 2
            } else {
                hidden_size
            };
            let ghost g1 = *g;
            let cell = GRUCell::new(g, in_dim, hidden_size);
            let ghost g2 = *g;
            proof {
                g0.lemma_extended_trans(g1, g2);
            }
            forward_cells.push(cell);
            if bidirectional {
                let back = GRUCell::new(g, in_dim, hidden_size);
                proof {
                    g0.lemma_extended_trans(g2, *g);
                }
                backward_cells.push(back);
            }
            proof {
                assert forall|k: int| 0 <= k < forward_cells@.len() implies (#[trigger] forward_cells@[k]).wf_in(*g) by {
                    if k < layer {
                        assert(forward_cells@[k].wf_in(g1));
                    }
                }
                assert forall|k: int| 0 <= k < backward_cells@.len() implies (#[trigger] backward_cells@[k]).wf_in(*g) by {
                    if k < layer {
                        assert(backward_cells@[k].wf_in(g1));
                    }
                }
            }
            layer = layer + 1;
        }
        let dropout = if dropout_p_bits > 0 && dropout_p_bits <= 0x7f80_0000 && num_layers > 1 {
            Some(Dropout::new(dropout_p_bits))
        } else {
            None
        };
        GRU { forward_cells, backward_cells, input_size, hidden_size, num_layers, bidirectional, dropout }
    }

    /// Runs the layers over `[batch, seq, input_size]` input, each layer reading the (dropped
    /// out) outputs of the previous one; returns the last layer's outputs
    /// (`[batch, seq, directions * hidden]`) and the last hidden state of every layer and
    /// direction (`[directions * layers, batch, hidden]`), starting from `initial_hidden` (of
    /// that shape) when given. Input of another rank is refused.
    pub fn forward_seq(&self, g: &mut Graph, input: &Tensor, initial_hidden: Option<&Tensor>) -> (r: Result<(Tensor, Tensor), EngineError>)
        requires
            old(g).wf(),
            self.wf_in(*old(g)),
            input.valid(*old(g)),
            initial_hidden matches Some(t) ==> t.valid(*old(g)),
            self.bidirectional && initial_hidden is Some ==> 2 * self.num_layers <= usize::MAX,
        ensures
            final(g).wf(),
            old(g).extended_by(*final(g)),
            r matches Ok((o, h)) ==> o.valid(*final(g)) && h.valid(*final(g)),
            r matches Ok((o, h)) ==> stack_structure(*final(g), o.id as int, h.id as int, input.id as int, self.num_layers as int,
                input.shape_of(*old(g))[1] as int, self.bidirectional),
            input.shape_of(*old(g)).len() != 3 ==> *final(g) == *old(g) && (r matches Err(e)
                && e matches EngineError::ShapeMismatch { expected, actual }
                && expected@ == seq![0usize, 0usize, self.input_size] && actual@ == input.shape_of(*old(g))),
            ({
                let xs = input.shape_of(*old(g));
                let init = match initial_hidden { Some(t) => Some(t.shape_of(*old(g))), None => None };
                xs.len() == 3 && self.consistent() && documented_state(init, xs[0], self.hidden_size, self.num_layers, self.bidirectional) ==> {
                    &&& r is Ok <==> (xs[1] >= 1 && xs[2] == self.input_size)
                    &&& r matches Ok((o, h)) ==> o.shape_of(*final(g)) == seq![xs[0], xs[1], (directions(self.bidirectional) * self.hidden_size) as usize]
                        && h.shape_of(*final(g)) == seq![(directions(self.bidirectional) * self.num_layers) as usize, xs[0], self.hidden_size]
                }
            }),
    {
        let shape = input.shape(g);
        if shape.len() != 3 {
            return Err(EngineError::ShapeMismatch { expected: shape3(0, 0, self.input_size), actual: shape });
        }
        hidden_stack(
            g,
            &self.forward_cells,
            &self.backward_cells,
            self.dropout,
            self.input_size,
            self.hidden_size,
            self.num_layers,
            self.bidirectional,
            input,
            initial_hidden,
        )
    }
}

/// One LSTM step. For `[batch, features]` input and a `([batch, hidden], [batch, hidden])`
/// state (or none), it succeeds exactly when the features match and gives a state of those
/// shapes.
fn lstm_step(cell: &LSTMCell, g: &mut Graph, x: &Tensor, st: Option<(Tensor, Tensor)>) -> (r: Result<(Tensor, Tensor), EngineError>)
    requires
        old(g).wf(),
        cell.wf_in(*old(g)),
        x.valid(*old(g)),
        st matches Some((h, c)) ==> h.valid(*old(g)) && c.valid(*old(g)),
    ensures
        final(g).wf(),
        old(g).extended_by(*final(g)),
        r matches Ok((h, c)) ==> h.valid(*final(g)) && c.valid(*final(g)),
        r matches Ok((h, c)) ==> reads(*final(g), h.id as int, x.id as int)
            && (st matches Some((hp, cp)) ==> reads(*final(g), h.id as int, hp.id as int) && reads(*final(g), c.id as int, cp.id as int)),
        ({
            let xs = x.shape_of(*old(g));
            let hs = cell.hidden_size;
            xs.len() == 2 && (st matches Some((h, c)) ==> h.shape_of(*old(g)) == seq![xs[0], hs] && c.shape_of(*old(g)) == seq![xs[0], hs]) ==> {
                &&& r is Ok <==> xs[1] == cell.input_size
                &&& r matches Ok((h, c)) ==> h.shape_of(*final(g)) == seq![xs[0], hs] && c.shape_of(*final(g)) == seq![xs[0], hs]
            }
        }),
{
    let ghost xs = x.shape_of(*g);
    proof {
        if xs.len() == 2 {
            let hs = cell.hidden_size;
            let w = (4 * hs) as usize;
            assert(linear_out(xs, w) =~= seq![xs[0], w]);
            assert(linear_out(seq![xs[0], hs], w) =~= seq![xs[0], w]);
            assert(seq![xs[0], w].update(1, hs) =~= seq![xs[0], hs]);
            lemma_broadcast_self(seq![xs[0], w]);
            lemma_broadcast_self(seq![xs[0], hs]);
        }
    }
    match st {
        Some((h, c)) => cell.forward_step(g, x, Some((&h, &c))),
        None => cell.forward_step(g, x, None),
    }
}

/// Runs an LSTM cell over the `seq_len` steps of `[batch, seq, features]` input (from the
/// last step to the first when `reverse`), starting from `st0`; returns the outputs in time
/// order (`[batch, seq, hidden]`) and the last hidden and cell states.
fn lstm_pass(cell: &LSTMCell, g: &mut Graph, input: &Tensor, st0: Option<(Tensor, Tensor)>, seq_len: usize, reverse: bool) -> (r: Result<(Tensor, Tensor, Tensor), EngineError>)
    requires
        old(g).wf(),
        cell.wf_in(*old(g)),
        input.valid(*old(g)),
        st0 matches Some((h, c)) ==> h.valid(*old(g)) && c.valid(*old(g)),
    ensures
        final(g).wf(),
        old(g).extended_by(*final(g)),
        r matches Ok((o, h, c)) ==> o.valid(*final(g)) && h.valid(*final(g)) && c.valid(*final(g)),
        ({
            let xs = input.shape_of(*old(g));
            let hs = cell.hidden_size;
            xs.len() == 3 && xs[1] == seq_len
                && (st0 matches Some((h, c)) ==> h.shape_of(*old(g)) == seq![xs[0], hs] && c.shape_of(*old(g)) == seq![xs[0], hs]) ==> {
                &&& r is Ok <==> (seq_len >= 1 && xs[2] == cell.input_size)
                &&& r matches Ok((o, h, c)) ==> o.shape_of(*final(g)) == seq![xs[0], seq_len, hs]
                    && h.shape_of(*final(g)) == seq![xs[0], hs] && c.shape_of(*final(g)) == seq![xs[0], hs]
            }
        }),
        r matches Ok((o, h, c)) ==> seq_len >= 1 && pass_structure(*final(g), o.id as int, h.id as int, input.id as int,
            match st0 { Some((h0, _)) => Some(h0), None => None }, seq_len as int, reverse),
{
    let ghost g0 = *g;
    let ghost xs = input.shape_of(*g);
    let ghost b = xs[0];
    let ghost hs = cell.hidden_size;
    let ghost good = xs.len() == 3 && xs[1] == seq_len
        && (st0 matches Some((h, c)) ==> h.shape_of(*g) == seq![b, hs] && c.shape_of(*g) == seq![b, hs]);
    let mut outputs: Vec<Tensor> = Vec::new();
    let mut st = st0;
    let mut i: usize = 0;
    let ghost mut steps: Seq<int> = Seq::empty();
    while i < seq_len
        invariant
            steps.len() == i,
            forall|k: int| 0 <= k < i ==> 0 <= #[trigger] steps[k] < g.nodes@.len(),
            forall|k: int| 0 <= k < i ==> g.nodes@[(#[trigger] outputs@[k]).id as int].op == (Op::Unsqueeze { axis: 1 })
                && g.nodes@[outputs@[k].id as int].inputs@ == seq![steps[k] as usize],
            forall|k: int| 0 <= k < i ==> #[trigger] reads_row(*g, steps[k], input.id as int, run_time(k, seq_len as int, reverse)),
            forall|k: int| 1 <= k < i ==> #[trigger] reads(*g, steps[k], steps[k - 1]),
            i > 0 ==> (st matches Some((t, _)) && t.id == steps[i - 1]),
            i > 0 ==> (st0 matches Some((t, _)) ==> reads(*g, steps[0], t.id as int)),
            g0 == *old(g),
            xs == input.shape_of(g0),
            good == (xs.len() == 3 && xs[1] == seq_len
                && (st0 matches Some((h, c)) ==> h.shape_of(g0) == seq![b, hs] && c.shape_of(g0) == seq![b, hs])),
            g.wf(),
            g0.extended_by(*g),
            cell.wf_in(*g),
            input.valid(*g),
            input.shape_of(*g) == xs,
            b == xs[0],
            hs == cell.hidden_size,
            i <= seq_len,
            outputs@.len() == i,
            forall|k: int| 0 <= k < i ==> (#[trigger] outputs@[k]).valid(*g),
            st matches Some((h, c)) ==> h.valid(*g) && c.valid(*g),
            i > 0 ==> st is Some,
            good ==> (st matches Some((h, c)) ==> h.shape_of(*g) == seq![b, hs] && c.shape_of(*g) == seq![b, hs]),
            good && xs[2] == cell.input_size ==> forall|k: int| 0 <= k < i ==> (#[trigger] outputs@[k]).shape_of(*g) == seq![b, 1, hs],
            good && i > 0 ==> xs[2] == cell.input_size,
            i == 0 ==> st == st0,
        decreases seq_len - i,
    {
        let ghost gi = *g;
        let t = if reverse { seq_len - 1 - i } else { i };
        let x_t = time_step(g, input, t)?;
        let ghost g1 = *g;
        proof {
            g0.lemma_extended_trans(gi, g1);
        }
        let res = lstm_step(cell, g, &x_t, st);
        proof {
            g0.lemma_extended_trans(g1, *g);
        }
        let (next_h, next_c) = match res {
            Ok(p) => p,
            Err(e) => {
                return Err(e);
            },
        };
        let ghost g2 = *g;
        proof {
            gi.lemma_extended_trans(g1, g2);
            lemma_reads_self(g2, next_h.id as int);
        }
        let out = next_h.unsqueeze(g, 1)?;
        proof {
            let g3 = *g;
            gi.lemma_extended_trans(g2, g3);
            let tt = run_time(i as int, seq_len as int, reverse);
            lemma_reads_extend(g2, g3, next_h.id as int, x_t.id as int);
            lemma_time_row_extend(g1, g3, x_t.id as int, input.id as int, tt);
            lemma_reads_in_range(g2, next_h.id as int, x_t.id as int);
            assert(reads_row(g3, next_h.id as int, input.id as int, tt));
            assert forall|k: int| 0 <= k < i implies #[trigger] reads_row(g3, steps[k], input.id as int, run_time(k, seq_len as int, reverse)) by {
                lemma_reads_row_extend(gi, g3, steps[k], input.id as int, run_time(k, seq_len as int, reverse));
            }
            assert forall|k: int| 1 <= k < i implies #[trigger] reads(g3, steps[k], steps[k - 1]) by {
                lemma_reads_extend(gi, g3, steps[k], steps[k - 1]);
            }
            assert forall|k: int| 0 <= k < i implies g3.nodes@[(#[trigger] outputs@[k]).id as int].op == (Op::Unsqueeze { axis: 1 })
                && g3.nodes@[outputs@[k].id as int].inputs@ == seq![steps[k] as usize] by {
                assert(outputs@[k].valid(gi));
                assert(g3.nodes@[outputs@[k].id as int] == gi.nodes@[outputs@[k].id as int]);
            }
            if i > 0 {
                lemma_reads_extend(g2, g3, next_h.id as int, steps[i - 1]);
                if let Some((t0, _)) = st0 {
                    lemma_reads_extend(gi, g3, steps[0], t0.id as int);
                }
            } else {
                if let Some((t0, _)) = st0 {
                    lemma_reads_extend(g2, g3, next_h.id as int, t0.id as int);
                }
            }
        }
        proof {
            g0.lemma_extended_trans(g2, *g);
            assert(unsqueeze_spec(seq![b, hs], 1) =~= seq![b, 1, hs]);
            assert forall|k: int| 0 <= k < i implies (#[trigger] outputs@[k]).valid(*g) by {
                assert(outputs@[k].valid(gi));
            }
            if good && xs[2] == cell.input_size {
                assert forall|k: int| 0 <= k < i implies (#[trigger] outputs@[k]).shape_of(*g) == seq![b, 1, hs] by {
                    assert(outputs@[k].valid(gi));
                }
            }
        }
        let ghost o_prev = outputs@;
        outputs.push(out);
        proof {
            steps = steps.push(next_h.id as int);
            assert(outputs@[i as int] == out);
            assert forall|k: int| 0 <= k < i implies outputs@[k] == o_prev[k] by {}
        }
        st = Some((next_h, next_c));
        i = i + 1;
    }
    let ghost ge = *g;
    let ghost outs = outputs@;
    let ordered = if reverse {
        reversed(&outputs)
    } else {
        outputs
    };
    proof {
        assert forall|k: int| 0 <= k < ordered@.len() implies (#[trigger] ordered@[k]).valid(*g)
            && (good && xs[2] == cell.input_size ==> ordered@[k].shape_of(*g) == seq![b, 1, hs]) by {
            if reverse {
                assert(ordered@[k] == outs[outs.len() - 1 - k]);
            } else {
                assert(ordered@[k] == outs[k]);
            }
        }
        if good && xs[2] == cell.input_size && seq_len >= 1 {
            lemma_cat_uniform(*g, ordered@, 1, seq![b, 1, hs]);
            assert(seq![b, 1, hs].update(1, (ordered@.len() * 1) as usize) =~= seq![b, seq_len, hs]);
        }
    }
    let seq = Tensor::cat(g, ordered.as_slice(), 1)?;
    proof {
        g0.lemma_extended_trans(ge, *g);
        let gf = *g;
        let n = seq_len as int;
        let o = seq.id as int;
        assert(gf.nodes@[o].inputs@ == crate::autograd::tensor::ids_of(ordered@));
        assert forall|k: int| 0 <= k < n implies #[trigger] gf.nodes@[o].inputs@[k] as int
            == outs[run_time(k, n, reverse)].id as int by {
            if reverse {
                assert(ordered@[k] == outs[outs.len() - 1 - k]);
            } else {
                assert(ordered@[k] == outs[k]);
            }
        }
        assert forall|k: int| 0 <= k < n implies gf.nodes@[outs[k].id as int] == ge.nodes@[outs[k].id as int]
            && #[trigger] step_at(gf, o, run_time(k, n, reverse)) == steps[k] by {
            assert(outs[k].valid(ge));
            assert(0 <= steps[k] < ge.nodes@.len());
            assert(ge.nodes@[outs[k].id as int].inputs@ == seq![steps[k] as usize]);
            let kk = run_time(k, n, reverse);
            assert(run_time(kk, n, reverse) == k);
            assert(gf.nodes@[o].inputs@[kk] as int == outs[k].id as int);
        }
        assert forall|k: int| 0 <= k < n implies #[trigger] step_at(gf, o, k) == steps[run_time(k, n, reverse)] by {
            let kk = run_time(k, n, reverse);
            assert(run_time(kk, n, reverse) == k);
            assert(step_at(gf, o, run_time(kk, n, reverse)) == steps[kk]);
        }
        assert forall|k: int| 0 <= k < n implies gf.nodes@[#[trigger] gf.nodes@[o].inputs@[k] as int].op == (Op::Unsqueeze { axis: 1 }) by {
            let kk = run_time(k, n, reverse);
            assert(gf.nodes@[outs[kk].id as int] == ge.nodes@[outs[kk].id as int]);
        }
        assert forall|k: int| 0 <= k < n implies #[trigger] reads_row(gf, step_at(gf, o, k), input.id as int, k) by {
            let kk = run_time(k, n, reverse);
            assert(run_time(kk, n, reverse) == k);
            lemma_reads_row_extend(ge, gf, steps[kk], input.id as int, k);
        }
        assert forall|k: int| 1 <= k < n implies if reverse {
            reads(gf, step_at(gf, o, k - 1), #[trigger] step_at(gf, o, k))
        } else {
            reads(gf, #[trigger] step_at(gf, o, k), step_at(gf, o, k - 1))
        } by {
            if reverse {
                let kk = n - k;
                assert(step_at(gf, o, k - 1) == steps[kk]);
                assert(step_at(gf, o, k) == steps[kk - 1]);
                lemma_reads_extend(ge, gf, steps[kk], steps[kk - 1]);
            } else {
                lemma_reads_extend(ge, gf, steps[k], steps[k - 1]);
            }
        }
        if let Some((t0, _)) = st0 {
            lemma_reads_extend(ge, gf, steps[0], t0.id as int);
            assert(step_at(gf, o, run_time(0, n, reverse)) == steps[0]);
        }
        assert(step_at(gf, o, run_time(n - 1, n, reverse)) == steps[n - 1]);
    }
    match st {
        Some((h, c)) => Ok((seq, h, c)),
        None => {
            proof { assert(false); }
            Err(EngineError::InvalidArgument("empty sequence".to_string()))
        },
    }
}

/// Multi-layer, optionally bidirectional LSTM sequence module.
pub struct LSTM {
    pub forward_cells: Vec<LSTMCell>,
    pub backward_cells: Vec<LSTMCell>,
    pub input_size: usize,
    pub hidden_size: usize,
    pub num_layers: usize,
    pub bidirectional: bool,
    pub dropout: Option<Dropout>,
}

/// The LSTM cells exist for every layer (and direction) and live in `g`.
pub open spec fn lstm_ready(g: Graph, fwd: Seq<LSTMCell>, bwd: Seq<LSTMCell>, num_layers: usize, bidirectional: bool) -> bool {
    &&& fwd.len() == num_layers
    &&& bidirectional ==> bwd.len() == num_layers
    &&& forall|k: int| 0 <= k < fwd.len() ==> (#[trigger] fwd[k]).wf_in(g)
    &&& forall|k: int| 0 <= k < bwd.len() ==> (#[trigger] bwd[k]).wf_in(g)
}

/// The LSTM cells have the sizes the configuration gives them.
pub open spec fn lstm_consistent(fwd: Seq<LSTMCell>, bwd: Seq<LSTMCell>, input_size: usize, hidden_size: usize, num_layers: usize, bidirectional: bool) -> bool {
    &&& num_layers >= 1
    &&& bidirectional ==> 2 * hidden_size <= usize::MAX
    &&& forall|k: int| 0 <= k < num_layers ==> (#[trigger] fwd[k]).input_size == layer_input(k, input_size, hidden_size, bidirectional)
        && fwd[k].hidden_size == hidden_size
    &&& bidirectional ==> forall|k: int| 0 <= k < num_layers ==> (#[trigger] bwd[k]).input_size == layer_input(k, input_size, hidden_size, bidirectional)
        && bwd[k].hidden_size == hidden_size
}

/// Slices `idx` of axis 0 of both initial states.
fn state_pair_slice(g: &mut Graph, init: Option<(&Tensor, &Tensor)>, idx: usize) -> (r: Result<Option<(Tensor, Tensor)>, EngineError>)
    requires
        old(g).wf(),
        init matches Some((h, c)) ==> h.valid(*old(g)) && c.valid(*old(g)),
        idx < usize::MAX,
    ensures
        final(g).wf(),
        old(g).extended_by(*final(g)),
        r matches Ok(st) ==> (st is Some <==> init is Some) && (st matches Some((h, c)) ==> h.valid(*final(g)) && c.valid(*final(g))),
        init matches Some((h, c)) ==> ({
            let hs = h.shape_of(*old(g));
            let cs = c.shape_of(*old(g));
            hs.len() == 3 && idx < hs[0] && cs.len() == 3 && idx < cs[0] ==> (r matches Ok(Some((a, b)))
                && a.shape_of(*final(g)) == seq![hs[1], hs[2]] && b.shape_of(*final(g)) == seq![cs[1], cs[2]])
        }),
        init is None ==> r == Ok::<Option<(Tensor, Tensor)>, EngineError>(None) && *final(g) == *old(g),
{
    match init {
        Some((ih, ic)) => {
            let ghost g0 = *g;
            let h = state_slice(g, ih, idx)?;
            let ghost g1 = *g;
            let c = state_slice(g, ic, idx)?;
            proof { g0.lemma_extended_trans(g1, *g); }
            Ok(Some((h, c)))
        },
        None => Ok(None),
    }
}

impl LSTM {
    /// A cell exists for every layer (and direction) and lives in `g`.
    pub open spec fn wf_in(&self, g: Graph) -> bool {
        lstm_ready(g, self.forward_cells@, self.backward_cells@, self.num_layers, self.bidirectional)
    }

    /// The cells have the sizes that the module's configuration gives them.
    pub open spec fn consistent(&self) -> bool {
        lstm_consistent(self.forward_cells@, self.backward_cells@, self.input_size, self.hidden_size, self.num_layers, self.bidirectional)
    }

    /// A module of `num_layers` layers; layer 0 reads `input_size` features, later layers
    /// the (doubled, when bidirectional) hidden size. Dropout with probability `p` (the `f32`
    /// with bit pattern `dropout_p_bits`) is applied between layers when `p > 0` and there
    /// is more than one layer.
    pub fn new(g: &mut Graph, input_size: usize, hidden_size: usize, num_layers: usize, bidirectional: bool, dropout_p_bits: u32) -> (r: LSTM)
        requires
            old(g).wf(),
            num_layers > 0,
            bidirectional && num_layers > 1 ==> 2 * hidden_size <= usize::MAX,
            positive_bits(dropout_p_bits) && num_layers > 1 ==> probability_bits(dropout_p_bits),
            4 * hidden_size <= usize::MAX,
        ensures
            final(g).wf(),
            old(g).extended_by(*final(g)),
            r.wf_in(*final(g)),
            (bidirectional ==> 2 * hidden_size <= usize::MAX) ==> r.consistent(),
            r.input_size == input_size,
            r.hidden_size == hidden_size,
            r.num_layers == num_layers,
            r.bidirectional == bidirectional,
            r.backward_cells@.len() == (if bidirectional { num_layers } else { 0 }),
            r.dropout == (if positive_bits(dropout_p_bits) && num_layers > 1 {
                Some(Dropout { p_bits: dropout_p_bits, is_training: true })
            } else {
                None
            }),
    {
        let ghost g0 = *g;
        let mut forward_cells: Vec<LSTMCell> = Vec::new();
        let mut backward_cells: Vec<LSTMCell> = Vec::new();
        let mut layer: usize = 0;
        while layer < num_layers
            invariant
                g0 == *old(g),
                g.wf(),
                g0.extended_by(*g),
                layer <= num_layers,
                bidirectional && num_layers > 1 ==> 2 * hidden_size <= usize::MAX,
                4 * hidden_size <= usize::MAX,
                forward_cells@.len() == layer,
                backward_cells@.len() == (if bidirectional { layer } else { 0 }),
                forall|k: int| 0 <= k < forward_cells@.len() ==> (#[trigger] forward_cells@[k]).wf_in(*g),
                forall|k: int| 0 <= k < backward_cells@.len() ==> (#[trigger] backward_cells@[k]).wf_in(*g),
                (bidirectional ==> 2 * hidden_size <= usize::MAX) ==> forall|k: int| 0 <= k < layer ==>
                    (#[trigger] forward_cells@[k]).input_size == layer_input(k, input_size, hidden_size, bidirectional)
                    && forward_cells@[k].hidden_size == hidden_size,
                bidirectional ==> forall|k: int| 0 <= k < layer ==>
                    (#[trigger] backward_cells@[k]).input_size == layer_input(k, input_size, hidden_size, bidirectional)
                    && backward_cells@[k].hidden_size == hidden_size,
            decreases num_layers - layer,
        {
            let in_dim = if layer == 0 {
                input_size
            } else if bidirectional {
                hidden_size * 2
            } else {
                hidden_size
            };
            let ghost g1 = *g;
            let cell = LSTMCell::new(g, in_dim, hidden_size);
            let ghost g2 = *g;
            proof {
                g0.lemma_extended_trans(g1, g2);
            }
            forward_cells.push(cell);
            if bidirectional {
                let back = LSTMCell::new(g, in_dim, hidden_size);
                proof {
                    g0.lemma_extended_trans(g2, *g);
                }
                backward_cells.push(back);
            }
            proof {
                assert forall|k: int| 0 <= k < forward_cells@.len() implies (#[trigger] forward_cells@[k]).wf_in(*g) by {
                    if k < layer {
                        assert(forward_cells@[k].wf_in(g1));
                    }
                }
                assert forall|k: int| 0 <= k < backward_cells@.len() implies (#[trigger] backward_cells@[k]).wf_in(*g) by {
                    if k < layer {
                        assert(backward_cells@[k].wf_in(g1));
                    }
                }
            }
            layer = layer + 1;
        }
        let dropout = if dropout_p_bits > 0 && dropout_p_bits <= 0x7f80_0000 && num_layers > 1 {
            Some(Dropout::new(dropout_p_bits))
        } else {
            None
        };
        LSTM { forward_cells, backward_cells, input_size, hidden_size, num_layers, bidirectional, dropout }
    }
}

impl LSTM {
    /// Runs the layers over `[batch, seq, input_size]` input, each layer reading the (dropped
    /// out) outputs of the previous one; returns the last layer's outputs
    /// (`[batch, seq, directions * hidden]`) and the last hidden and cell states of every
    /// layer and direction (each `[directions * layers, batch, hidden]`), starting from
    /// `initial_state` (two tensors of that shape) when given. Input of another rank is
    /// refused.
    #[verifier::rlimit(100)]
    #[verifier::spinoff_prover]
    pub fn forward_seq(&self, g: &mut Graph, input: &Tensor, initial_state: Option<(&Tensor, &Tensor)>) -> (r: Result<(Tensor, (Tensor, Tensor)), EngineError>)
        requires
            old(g).wf(),
            self.wf_in(*old(g)),
            input.valid(*old(g)),
            initial_state matches Some((h, c)) ==> h.valid(*old(g)) && c.valid(*old(g)),
            self.bidirectional && initial_state is Some ==> 2 * self.num_layers <= usize::MAX,
        ensures
            final(g).wf(),
            old(g).extended_by(*final(g)),
            r matches Ok((o, (h, c))) ==> o.valid(*final(g)) && h.valid(*final(g)) && c.valid(*final(g)),
            r matches Ok((o, (h, c))) ==> stack_structure(*final(g), o.id as int, h.id as int, input.id as int, self.num_layers as int,
                input.shape_of(*old(g))[1] as int, self.bidirectional),
            input.shape_of(*old(g)).len() != 3 ==> *final(g) == *old(g) && (r matches Err(e)
                && e matches EngineError::ShapeMismatch { expected, actual }
                && expected@ == seq![0usize, 0usize, self.input_size] && actual@ == input.shape_of(*old(g))),
            ({
                let xs = input.shape_of(*old(g));
                let ih = match initial_state { Some((h, _)) => Some(h.shape_of(*old(g))), None => None };
                let ic = match initial_state { Some((_, c)) => Some(c.shape_of(*old(g))), None => None };
                xs.len() == 3 && self.consistent()
                    && documented_state(ih, xs[0], self.hidden_size, self.num_layers, self.bidirectional)
                    && documented_state(ic, xs[0], self.hidden_size, self.num_layers, self.bidirectional) ==> {
                    &&& r is Ok <==> (xs[1] >= 1 && xs[2] == self.input_size)
                    &&& r matches Ok((o, (h, c))) ==> o.shape_of(*final(g)) == seq![xs[0], xs[1], (directions(self.bidirectional) * self.hidden_size) as usize]
                        && h.shape_of(*final(g)) == seq![(directions(self.bidirectional) * self.num_layers) as usize, xs[0], self.hidden_size]
                        && c.shape_of(*final(g)) == seq![(directions(self.bidirectional) * self.num_layers) as usize, xs[0], self.hidden_size]
                }
            }),
    {
        let shape = input.shape(g);
        if shape.len() != 3 {
            return Err(EngineError::ShapeMismatch { expected: shape3(0, 0, self.input_size), actual: shape });
        }
        let ghost g0 = *g;
        let ghost xs = input.shape_of(*g);
        let ghost b = xs[0];
        let ghost hsz = self.hidden_size;
        let ghost ih = match initial_state { Some((h, _)) => Some(h.shape_of(*g)), None => None };
        let ghost ic = match initial_state { Some((_, c)) => Some(c.shape_of(*g)), None => None };
        let ghost cons = self.consistent()
            && documented_state(ih, xs[0], self.hidden_size, self.num_layers, self.bidirectional)
            && documented_state(ic, xs[0], self.hidden_size, self.num_layers, self.bidirectional);
        let ghost dh = (directions(self.bidirectional) * self.hidden_size) as usize;
        let seq_len = shape[1];
        let mut current = *input;
        let mut final_hiddens: Vec<Tensor> = Vec::new();
        let mut final_cells: Vec<Tensor> = Vec::new();
        let mut layer: usize = 0;
        let ghost mut ins: Seq<int> = Seq::empty();
        let ghost mut outs: Seq<int> = Seq::empty();
        let ghost mut lasts: Seq<int> = Seq::empty();
        while layer < self.num_layers
            invariant
                ins.len() == layer && outs.len() == layer,
                lasts.len() == final_hiddens@.len(),
                lasts.len() == (if self.bidirectional { 2 * layer } else { layer as int }),
                layer > 0 ==> ins[0] == input.id as int,
                layer == 0 ==> current == *input,
                layer > 0 ==> seq_len >= 1,
                forall|l: int| 0 <= l < layer ==> 0 <= #[trigger] outs[l] < g.nodes@.len(),
                forall|l: int| 0 <= l < layer ==> #[trigger] layer_structure(*g, ins[l], outs[l], lasts[last_index(l, 0, self.bidirectional)],
                    lasts[last_index(l, 1, self.bidirectional)], seq_len as int, self.bidirectional),
                forall|l: int| 0 <= l < layer - 1 ==> #[trigger] reads(*g, ins[l + 1], outs[l]),
                layer > 0 ==> reads(*g, current.id as int, outs[layer - 1]),
                forall|k: int| 0 <= k < lasts.len() ==> g.nodes@[(#[trigger] final_hiddens@[k]).id as int].op == (Op::Unsqueeze { axis: 0 })
                    && g.nodes@[final_hiddens@[k].id as int].inputs@ == seq![lasts[k] as usize],
                g0 == *old(g),
                g.wf(),
                g0.extended_by(*g),
                self.wf_in(*g),
                xs == input.shape_of(g0),
                b == xs[0],
                hsz == self.hidden_size,
                seq_len == xs[1],
                xs.len() == 3,
                ih == (match initial_state { Some((h, _)) => Some(h.shape_of(g0)), None => None }),
                ic == (match initial_state { Some((_, c)) => Some(c.shape_of(g0)), None => None }),
                initial_state matches Some((h, c)) ==> h.valid(*g) && h.shape_of(*g) == h.shape_of(g0)
                    && c.valid(*g) && c.shape_of(*g) == c.shape_of(g0),
                self.bidirectional && initial_state is Some ==> 2 * self.num_layers <= usize::MAX,
                cons == (self.consistent()
                    && documented_state(ih, xs[0], self.hidden_size, self.num_layers, self.bidirectional)
                    && documented_state(ic, xs[0], self.hidden_size, self.num_layers, self.bidirectional)),
                dh == (directions(self.bidirectional) * self.hidden_size) as usize,
                layer <= self.num_layers,
                current.valid(*g),
                layer == 0 ==> current.shape_of(*g) == xs,
                final_hiddens@.len() == layer * directions(self.bidirectional),
                final_cells@.len() == layer * directions(self.bidirectional),
                forall|k: int| 0 <= k < final_hiddens@.len() ==> (#[trigger] final_hiddens@[k]).valid(*g),
                forall|k: int| 0 <= k < final_cells@.len() ==> (#[trigger] final_cells@[k]).valid(*g),
                cons && layer > 0 ==> seq_len >= 1 && xs[2] == self.input_size,
                cons && layer > 0 ==> current.shape_of(*g) == seq![b, seq_len, dh],
                cons ==> forall|k: int| 0 <= k < final_hiddens@.len() ==> (#[trigger] final_hiddens@[k]).shape_of(*g) == seq![1usize, b, hsz],
                cons ==> forall|k: int| 0 <= k < final_cells@.len() ==> (#[trigger] final_cells@[k]).shape_of(*g) == seq![1usize, b, hsz],
            decreases self.num_layers - layer,
        {
            let ghost gl = *g;
            let st0 = match initial_state {
                Some(_) => {
                    let idx = if self.bidirectional { layer * 2 } else { layer };
                    state_pair_slice(g, initial_state, idx)?
                },
                None => None,
            };
            let ghost g1 = *g;
            proof {
                g0.lemma_extended_trans(gl, g1);
            }
            let (fwd_seq, fwd_h, fwd_c) = match lstm_pass(&self.forward_cells[layer], g, &current, st0, seq_len, false) {
                Ok(p) => p,
                Err(e) => {
                    proof { g0.lemma_extended_trans(g1, *g); }
                    return Err(e);
                },
            };
            let ghost g2 = *g;
            proof {
                g0.lemma_extended_trans(g1, g2);
                assert(unsqueeze_spec(seq![b, hsz], 0) =~= seq![1usize, b, hsz]);
            }
            let fwd_last_h = fwd_h.unsqueeze(g, 0)?;
            let ghost g3 = *g;
            let ghost lf_id = fwd_h.id as int;
            let ghost mut lb_id = fwd_h.id as int;
            let ghost fh_prev = final_hiddens@;
            let fwd_last_c = fwd_c.unsqueeze(g, 0)?;
            let ghost g3b = *g;
            proof {
                g0.lemma_extended_trans(g2, g3);
                g0.lemma_extended_trans(g3, g3b);
                assert forall|k: int| 0 <= k < final_hiddens@.len() implies (#[trigger] final_hiddens@[k]).valid(g3b)
                    && (cons ==> final_hiddens@[k].shape_of(g3b) == seq![1usize, b, hsz]) by {
                    assert(final_hiddens@[k].valid(gl));
                }
                assert forall|k: int| 0 <= k < final_cells@.len() implies (#[trigger] final_cells@[k]).valid(g3b)
                    && (cons ==> final_cells@[k].shape_of(g3b) == seq![1usize, b, hsz]) by {
                    assert(final_cells@[k].valid(gl));
                }
            }
            final_hiddens.push(fwd_last_h);
            final_cells.push(fwd_last_c);
            let layer_out = if self.bidirectional {
                let st0b = match initial_state {
                    Some(_) => state_pair_slice(g, initial_state, layer * 2 + 1)?,
                    None => None,
                };
                let ghost g4 = *g;
                proof {
                    g0.lemma_extended_trans(g3b, g4);
                }
                let (bwd_seq, bwd_h, bwd_c) = match lstm_pass(&self.backward_cells[layer], g, &current, st0b, seq_len, true) {
                    Ok(p) => p,
                    Err(e) => {
                        proof { g0.lemma_extended_trans(g4, *g); }
                        return Err(e);
                    },
                };
                let ghost g5 = *g;
                proof {
                    g0.lemma_extended_trans(g4, g5);
                }
                let bwd_last_h = bwd_h.unsqueeze(g, 0)?;
                let ghost g6 = *g;
                let bwd_last_c = bwd_c.unsqueeze(g, 0)?;
                let ghost g6b = *g;
                proof {
                    g0.lemma_extended_trans(g5, g6);
                    g0.lemma_extended_trans(g6, g6b);
                    assert forall|k: int| 0 <= k < final_hiddens@.len() implies (#[trigger] final_hiddens@[k]).valid(g6b)
                        && (cons ==> final_hiddens@[k].shape_of(g6b) == seq![1usize, b, hsz]) by {
                        assert(final_hiddens@[k].valid(g3b));
                    }
                    assert forall|k: int| 0 <= k < final_cells@.len() implies (#[trigger] final_cells@[k]).valid(g6b)
                        && (cons ==> final_cells@[k].shape_of(g6b) == seq![1usize, b, hsz]) by {
                        assert(final_cells@[k].valid(g3b));
                    }
                    crate::autograd::tensor::lemma_cat_pair(g6b, fwd_seq, bwd_seq, 2);
                }
                final_hiddens.push(bwd_last_h);
                final_cells.push(bwd_last_c);
                let mut parts: Vec<Tensor> = Vec::new();
                parts.push(fwd_seq);
                parts.push(bwd_seq);
                assert(parts@ =~= seq![fwd_seq, bwd_seq]);
                let both = Tensor::cat(g, parts.as_slice(), 2)?;
                proof {
                    g0.lemma_extended_trans(g6b, *g);
                    assert forall|k: int| 0 <= k < final_hiddens@.len() implies (#[trigger] final_hiddens@[k]).valid(*g)
                        && (cons ==> final_hiddens@[k].shape_of(*g) == seq![1usize, b, hsz]) by {
                        assert(final_hiddens@[k].valid(g6b));
                    }
                    assert forall|k: int| 0 <= k < final_cells@.len() implies (#[trigger] final_cells@[k]).valid(*g)
                        && (cons ==> final_cells@[k].shape_of(*g) == seq![1usize, b, hsz]) by {
                        assert(final_cells@[k].valid(g6b));
                    }
                    if cons {
                        assert(seq![b, seq_len, hsz].update(2, (hsz + hsz) as usize) =~= seq![b, seq_len, dh]);
                    }
                    lb_id = bwd_h.id as int;
                    g2.lemma_extended_trans(g3, g3b);
                    g2.lemma_extended_trans(g3b, g4);
                    g2.lemma_extended_trans(g4, g6b);
                    g2.lemma_extended_trans(g6b, *g);
                    g5.lemma_extended_trans(g6, g6b);
                    g5.lemma_extended_trans(g6b, *g);
                    lemma_pass_structure_extend(g2, *g, fwd_seq.id as int, lf_id, current.id as int, None, seq_len as int, false);
                    lemma_pass_structure_extend(g5, *g, bwd_seq.id as int, lb_id, current.id as int, None, seq_len as int, true);
                    assert(crate::autograd::tensor::ids_of(seq![fwd_seq, bwd_seq]) =~= seq![fwd_seq.id, bwd_seq.id]);
                    assert(layer_structure(*g, current.id as int, both.id as int, lf_id, lb_id, seq_len as int, true));
                    assert(g.nodes@[bwd_last_h.id as int] == g6.nodes@[bwd_last_h.id as int]);
                    assert(g.nodes@[fwd_last_h.id as int] == g3.nodes@[fwd_last_h.id as int]);
                }
                both
            } else {
                proof {
                    g2.lemma_extended_trans(g3, *g);
                    lemma_pass_structure_extend(g2, *g, fwd_seq.id as int, lf_id, current.id as int, None, seq_len as int, false);
                }
                fwd_seq
            };
            let ghost g7 = *g;
            assert(layer_structure(g7, current.id as int, layer_out.id as int, lf_id, lb_id, seq_len as int, self.bidirectional));
            let next = between_layers(g, self.dropout, layer, self.num_layers, layer_out);
            proof {
                g0.lemma_extended_trans(g7, *g);
                assert forall|k: int| 0 <= k < final_hiddens@.len() implies (#[trigger] final_hiddens@[k]).valid(*g)
                    && (cons ==> final_hiddens@[k].shape_of(*g) == seq![1usize, b, hsz]) by {
                    assert(final_hiddens@[k].valid(g7));
                }
                assert forall|k: int| 0 <= k < final_cells@.len() implies (#[trigger] final_cells@[k]).valid(*g)
                    && (cons ==> final_cells@[k].shape_of(*g) == seq![1usize, b, hsz]) by {
                    assert(final_cells@[k].valid(g7));
                }
                assert((layer + 1) * directions(self.bidirectional) == layer * directions(self.bidirectional) + directions(self.bidirectional)) by (nonlinear_arith);
            }
            proof {
                let gx = *g;
                gl.lemma_extended_trans(g7, gx);
                gl.lemma_extended_trans(g1, g7);
                let bi = self.bidirectional;
                let n_ins = ins.push(current.id as int);
                let n_outs = outs.push(layer_out.id as int);
                let n_lasts = if bi { lasts.push(lf_id).push(lb_id) } else { lasts.push(lf_id) };
                assert forall|l: int| 0 <= l < layer implies 0 <= #[trigger] outs[l] < gx.nodes@.len()
                    && layer_structure(gx, ins[l], outs[l], lasts[last_index(l, 0, bi)], lasts[last_index(l, 1, bi)], seq_len as int, bi) by {
                    lemma_layer_structure_extend(gl, gx, ins[l], outs[l], lasts[last_index(l, 0, bi)], lasts[last_index(l, 1, bi)], seq_len as int, bi);
                }
                assert forall|l: int| 0 <= l < layer + 1 implies #[trigger] layer_structure(gx, n_ins[l], n_outs[l],
                    n_lasts[last_index(l, 0, bi)], n_lasts[last_index(l, 1, bi)], seq_len as int, bi) by {
                    if l < layer {
                        assert(n_ins[l] == ins[l] && n_outs[l] == outs[l]);
                        assert(n_lasts[last_index(l, 0, bi)] == lasts[last_index(l, 0, bi)]);
                        assert(n_lasts[last_index(l, 1, bi)] == lasts[last_index(l, 1, bi)]);
                    } else {
                        lemma_layer_structure_extend(g7, gx, current.id as int, layer_out.id as int, lf_id, lb_id, seq_len as int, bi);
                    }
                }
                assert forall|l: int| 0 <= l < layer implies #[trigger] reads(gx, n_ins[l + 1], n_outs[l]) by {
                    if l < layer - 1 {
                        lemma_reads_extend(gl, gx, ins[l + 1], outs[l]);
                        assert(n_ins[l + 1] == ins[l + 1]);
                    } else {
                        lemma_reads_extend(gl, gx, current.id as int, outs[layer - 1]);
                    }
                }
                lemma_reads_self(g7, layer_out.id as int);
                if next == layer_out {
                    lemma_reads_extend(g7, gx, layer_out.id as int, layer_out.id as int);
                } else {
                    lemma_reads_through(g7, gx, next.id as int, 0, layer_out.id as int);
                }
                assert forall|k: int| 0 <= k < n_lasts.len() implies gx.nodes@[(#[trigger] final_hiddens@[k]).id as int].op == (Op::Unsqueeze { axis: 0 })
                    && gx.nodes@[final_hiddens@[k].id as int].inputs@ == seq![n_lasts[k] as usize] by {
                    if k < lasts.len() {
                        assert(final_hiddens@[k] == fh_prev[k]);
                        assert(fh_prev[k].valid(gl));
                        assert(gx.nodes@[fh_prev[k].id as int] == gl.nodes@[fh_prev[k].id as int]);
                    } else if k == lasts.len() {
                        assert(final_hiddens@[k] == fwd_last_h);
                        assert(gx.nodes@[fwd_last_h.id as int] == g3.nodes@[fwd_last_h.id as int]);
                    } else {
                        assert(bi);
                    }
                }
                ins = n_ins;
                outs = n_outs;
                lasts = n_lasts;
            }
            current = next;
            layer = layer + 1;
        }
        let n_hidden = final_hiddens.len();
        let ghost g8 = *g;
        proof {
            if cons {
                assert(final_hiddens@.len() * 1 == n_hidden);
                lemma_cat_uniform(*g, final_hiddens@, 0, seq![1usize, b, hsz]);
                lemma_cat_uniform(*g, final_cells@, 0, seq![1usize, b, hsz]);
                assert(seq![1usize, b, hsz].update(0, (final_hiddens@.len() * 1) as usize)
                    =~= seq![(directions(self.bidirectional) * self.num_layers) as usize, b, hsz]);
            }
        }
        let h_n = Tensor::cat(g, final_hiddens.as_slice(), 0)?;
        let ghost g9 = *g;
        proof {
            g0.lemma_extended_trans(g8, g9);
            assert forall|k: int| 0 <= k < final_cells@.len() implies (#[trigger] final_cells@[k]).valid(g9)
                && (cons ==> final_cells@[k].shape_of(g9) == seq![1usize, b, hsz]) by {
                assert(final_cells@[k].valid(g8));
            }
            if cons {
                lemma_cat_uniform(g9, final_cells@, 0, seq![1usize, b, hsz]);
            }
        }
        let c_n = Tensor::cat(g, final_cells.as_slice(), 0)?;
        proof { g0.lemma_extended_trans(g9, *g); }
        proof {
            g0.lemma_extended_trans(g8, *g);
            g8.lemma_extended_trans(g9, *g);
            let gf = *g;
            let bi = self.bidirectional;
            let n = seq_len as int;
            assert(final_hiddens@.len() > 0);
            assert forall|l: int| 0 <= l < layer implies #[trigger] layer_structure(gf, ins[l], outs[l],
                lasts[last_index(l, 0, bi)], lasts[last_index(l, 1, bi)], n, bi) by {
                lemma_layer_structure_extend(g8, gf, ins[l], outs[l], lasts[last_index(l, 0, bi)], lasts[last_index(l, 1, bi)], n, bi);
            }
            assert forall|l: int| 0 <= l < layer - 1 implies #[trigger] reads(gf, ins[l + 1], outs[l]) by {
                lemma_reads_extend(g8, gf, ins[l + 1], outs[l]);
            }
            lemma_reads_extend(g8, gf, current.id as int, outs[layer - 1]);
            assert(g9.nodes@[h_n.id as int].inputs@ == crate::autograd::tensor::ids_of(final_hiddens@));
            assert(gf.nodes@[h_n.id as int] == g9.nodes@[h_n.id as int]);
            assert forall|k: int| 0 <= k < lasts.len() implies gf.nodes@[#[trigger] gf.nodes@[h_n.id as int].inputs@[k] as int].op == (Op::Unsqueeze { axis: 0 })
                && gf.nodes@[gf.nodes@[h_n.id as int].inputs@[k] as int].inputs@ == seq![lasts[k] as usize] by {
                assert(gf.nodes@[h_n.id as int].inputs@[k] == final_hiddens@[k].id);
                assert(final_hiddens@[k].valid(g8));
                assert(gf.nodes@[final_hiddens@[k].id as int] == g8.nodes@[final_hiddens@[k].id as int]);
            }
            assert(stack_witness(gf, current.id as int, h_n.id as int, input.id as int, self.num_layers as int, n, bi, ins, outs, lasts));
        }
        Ok((current, (h_n, c_n)))
    }
}

/// The tensors of a cell's two projections, weights first: `w_ih: [m, input]`,
/// `w_hh: [m, hidden]`, then the biases that exist, `[m]` each.
pub open spec fn cell_shapes(w_ih: Tensor, w_hh: Tensor, b_ih: Option<Tensor>, b_hh: Option<Tensor>, m: usize, input: usize, hidden: usize)
    -> Seq<(Tensor, Seq<usize>)>
{
    seq![(w_ih, seq![m, input]), (w_hh, seq![m, hidden])]
        + (match b_ih { Some(b) => seq![(b, seq![m])], None => Seq::empty() })
        + (match b_hh { Some(b) => seq![(b, seq![m])], None => Seq::empty() })
}

/// When a cell's tensors hold with their shapes, both projections live in the graph.
proof fn lemma_cell_shapes(g: Graph, w_ih: Tensor, w_hh: Tensor, b_ih: Option<Tensor>, b_hh: Option<Tensor>, m: usize, input: usize, hidden: usize)
    requires
        shapes_hold(g, cell_shapes(w_ih, w_hh, b_ih, b_hh, m, input, hidden)),
    ensures
        proj_wf(g, w_ih, b_ih, m, input),
        proj_wf(g, w_hh, b_hh, m, hidden),
{
    let a = seq![(w_ih, seq![m, input]), (w_hh, seq![m, hidden])];
    let b = match b_ih { Some(bb) => seq![(bb, seq![m])], None => Seq::empty() };
    let c = match b_hh { Some(bb) => seq![(bb, seq![m])], None => Seq::empty() };
    lemma_shapes_hold_concat(g, a + b, c);
    lemma_shapes_hold_concat(g, a, b);
    assert(a[0].0 == w_ih && a[1].0 == w_hh);
    if b_ih is Some {
        assert(b[0].0 == b_ih->Some_0);
    }
    if b_hh is Some {
        assert(c[0].0 == b_hh->Some_0);
    }
}

/// A cell of a recurrent stack, as its module sees it: its tensors with their shapes, whether
/// its sizes fit, and its learnable tensors.
pub trait StackCell {
    /// The cell's tensors with their expected shapes.
    spec fn cell_shapes(&self) -> Seq<(Tensor, Seq<usize>)>;

    /// The cell's gate width fits in a `usize`.
    spec fn cell_fits(&self) -> bool;

    /// The cell lives in `g`.
    spec fn cell_ready(&self, g: Graph) -> bool;

    /// Whether the cell's gate width fits in a `usize`.
    fn fits(&self) -> (b: bool)
        ensures
            b == self.cell_fits(),
    ;

    /// A cell whose sizes fit and whose tensors hold with their shapes lives in `g`.
    proof fn lemma_cell_ready(&self, g: Graph)
        requires
            self.cell_fits(),
            shapes_hold(g, self.cell_shapes()),
        ensures
            self.cell_ready(g),
    ;

    /// The cell's learnable tensors: those of `cell_shapes`, in order.
    fn cell_parameters(&self) -> (r: Vec<Tensor>)
        ensures
            r@ == tensors_of(self.cell_shapes()),
            forall|g: Graph| #[trigger] shapes_hold(g, self.cell_shapes()) ==> forall|k: int| 0 <= k < r@.len() ==> (#[trigger] r@[k]).valid(g),
    ;
}

impl StackCell for RNNCell {
    open spec fn cell_shapes(&self) -> Seq<(Tensor, Seq<usize>)> {
        cell_shapes(self.weight_ih, self.weight_hh, self.bias_ih, self.bias_hh, self.hidden_size, self.input_size, self.hidden_size)
    }

    open spec fn cell_fits(&self) -> bool {
        true
    }

    open spec fn cell_ready(&self, g: Graph) -> bool {
        self.wf_in(g)
    }

    fn fits(&self) -> (b: bool) {
        true
    }

    proof fn lemma_cell_ready(&self, g: Graph) {
        lemma_cell_shapes(g, self.weight_ih, self.weight_hh, self.bias_ih, self.bias_hh, self.hidden_size, self.input_size, self.hidden_size);
    }

    fn cell_parameters(&self) -> (r: Vec<Tensor>) {
        let r = self.parameters();
        proof {
            assert(r@ =~= tensors_of(self.cell_shapes()));
            assert forall|g: Graph| #[trigger] shapes_hold(g, self.cell_shapes()) implies forall|k: int| 0 <= k < r@.len() ==> (#[trigger] r@[k]).valid(g) by {
                lemma_cell_shapes(g, self.weight_ih, self.weight_hh, self.bias_ih, self.bias_hh, self.hidden_size, self.input_size, self.hidden_size);
            }
        }
        r
    }
}

impl StackCell for LSTMCell {
    open spec fn cell_shapes(&self) -> Seq<(Tensor, Seq<usize>)> {
        cell_shapes(self.weight_ih, self.weight_hh, self.bias_ih, self.bias_hh, (4 * self.hidden_size) as usize, self.input_size, self.hidden_size)
    }

    open spec fn cell_fits(&self) -> bool {
        4 * self.hidden_size <= usize::MAX
    }

    open spec fn cell_ready(&self, g: Graph) -> bool {
        self.wf_in(g)
    }

    fn fits(&self) -> (b: bool) {
        self.hidden_size.checked_mul(4).is_some()
    }

    proof fn lemma_cell_ready(&self, g: Graph) {
        lemma_cell_shapes(g, self.weight_ih, self.weight_hh, self.bias_ih, self.bias_hh, (4 * self.hidden_size) as usize, self.input_size, self.hidden_size);
    }

    fn cell_parameters(&self) -> (r: Vec<Tensor>) {
        let r = self.parameters();
        proof {
            assert(r@ =~= tensors_of(self.cell_shapes()));
            assert forall|g: Graph| #[trigger] shapes_hold(g, self.cell_shapes()) implies forall|k: int| 0 <= k < r@.len() ==> (#[trigger] r@[k]).valid(g) by {
                lemma_cell_shapes(g, self.weight_ih, self.weight_hh, self.bias_ih, self.bias_hh, (4 * self.hidden_size) as usize, self.input_size, self.hidden_size);
            }
        }
        r
    }
}

impl StackCell for GRUCell {
    open spec fn cell_shapes(&self) -> Seq<(Tensor, Seq<usize>)> {
        cell_shapes(self.weight_ih, self.weight_hh, self.bias_ih, self.bias_hh, (3 * self.hidden_size) as usize, self.input_size, self.hidden_size)
    }

    open spec fn cell_fits(&self) -> bool {
        3 * self.hidden_size <= usize::MAX
    }

    open spec fn cell_ready(&self, g: Graph) -> bool {
        self.wf_in(g)
    }

    fn fits(&self) -> (b: bool) {
        self.hidden_size.checked_mul(3).is_some()
    }

    proof fn lemma_cell_ready(&self, g: Graph) {
        lemma_cell_shapes(g, self.weight_ih, self.weight_hh, self.bias_ih, self.bias_hh, (3 * self.hidden_size) as usize, self.input_size, self.hidden_size);
    }

    fn cell_parameters(&self) -> (r: Vec<Tensor>) {
        let r = self.parameters();
        proof {
            assert(r@ =~= tensors_of(self.cell_shapes()));
            assert forall|g: Graph| #[trigger] shapes_hold(g, self.cell_shapes()) implies forall|k: int| 0 <= k < r@.len() ==> (#[trigger] r@[k]).valid(g) by {
                lemma_cell_shapes(g, self.weight_ih, self.weight_hh, self.bias_ih, self.bias_hh, (3 * self.hidden_size) as usize, self.input_size, self.hidden_size);
            }
        }
        r
    }
}

/// The tensors of every cell of `cs`, in order.
pub open spec fn stack_shapes<C: StackCell>(cs: Seq<C>) -> Seq<(Tensor, Seq<usize>)>
    decreases cs.len(),
{
    if cs.len() == 0 {
        Seq::empty()
    } else {
        stack_shapes(cs.drop_last()) + cs.last().cell_shapes()
    }
}

/// When the tensors of a list of cells hold, those of each cell do.
proof fn lemma_stack_shapes<C: StackCell>(g: Graph, cs: Seq<C>)
    requires
        shapes_hold(g, stack_shapes(cs)),
    ensures
        forall|k: int| 0 <= k < cs.len() ==> shapes_hold(g, (#[trigger] cs[k]).cell_shapes()),
    decreases cs.len(),
{
    if cs.len() > 0 {
        let init = cs.drop_last();
        lemma_shapes_hold_concat(g, stack_shapes(init), cs.last().cell_shapes());
        lemma_stack_shapes(g, init);
        assert forall|k: int| 0 <= k < cs.len() implies shapes_hold(g, (#[trigger] cs[k]).cell_shapes()) by {
            if k < cs.len() - 1 {
                assert(init[k] == cs[k]);
            }
        }
    }
}

/// True when every cell of the list has a gate width that fits in a `usize`.
fn cells_fit<C: StackCell>(cs: &Vec<C>) -> (b: bool)
    ensures
        b == forall|k: int| 0 <= k < cs@.len() ==> (#[trigger] cs@[k]).cell_fits(),
{
    let mut k: usize = 0;
    while k < cs.len()
        invariant
            k <= cs@.len(),
            forall|j: int| 0 <= j < k ==> (#[trigger] cs@[j]).cell_fits(),
        decreases cs.len() - k,
    {
        if !cs[k].fits() {
            return false;
        }
        k = k + 1;
    }
    true
}

/// Taking one more cell adds that cell's tensors at the end.
proof fn lemma_stack_shapes_step<C: StackCell>(cs: Seq<C>, k: int)
    requires
        0 <= k < cs.len(),
    ensures
        tensors_of(stack_shapes(cs.take(k + 1))) == tensors_of(stack_shapes(cs.take(k))) + tensors_of(cs[k].cell_shapes()),
{
    assert(cs.take(k + 1).drop_last() =~= cs.take(k));
    assert(cs.take(k + 1).last() == cs[k]);
    lemma_tensors_of_concat(stack_shapes(cs.take(k)), cs[k].cell_shapes());
}

/// The learnable tensors of every cell of `cs`, in order: those of `stack_shapes`.
fn stack_parameters<C: StackCell>(cs: &Vec<C>) -> (r: Vec<Tensor>)
    ensures
        r@ == tensors_of(stack_shapes(cs@)),
        forall|g: Graph| #[trigger] shapes_hold(g, stack_shapes(cs@)) ==> forall|j: int| 0 <= j < r@.len() ==> (#[trigger] r@[j]).valid(g),
{
    let mut params: Vec<Tensor> = Vec::new();
    let mut k: usize = 0;
    proof {
        assert(cs@.take(0) =~= Seq::<C>::empty());
        assert(tensors_of(stack_shapes(cs@.take(0))) =~= Seq::<Tensor>::empty());
    }
    while k < cs.len()
        invariant
            k <= cs@.len(),
            params@ == tensors_of(stack_shapes(cs@.take(k as int))),
        decreases cs.len() - k,
    {
        let mut p = cs[k].cell_parameters();
        proof {
            lemma_stack_shapes_step(cs@, k as int);
        }
        params.append(&mut p);
        k = k + 1;
    }
    proof {
        assert(cs@.take(cs@.len() as int) =~= cs@);
        assert forall|g: Graph| #[trigger] shapes_hold(g, stack_shapes(cs@)) implies forall|j: int| 0 <= j < params@.len() ==> (#[trigger] params@[j]).valid(g) by {
            lemma_tensors_valid(g, stack_shapes(cs@));
        }
    }
    params
}

/// The learnable tensors of a two-direction stack: the forward cells', then the backward ones'.
fn two_stack_parameters<C: StackCell>(fwd: &Vec<C>, bwd: &Vec<C>) -> (r: Vec<Tensor>)
    ensures
        r@ == tensors_of(stack_shapes(fwd@) + stack_shapes(bwd@)),
        forall|g: Graph| #[trigger] shapes_hold(g, stack_shapes(fwd@) + stack_shapes(bwd@)) ==> forall|j: int| 0 <= j < r@.len() ==> (#[trigger] r@[j]).valid(g),
{
    let mut p = stack_parameters(fwd);
    let mut q = stack_parameters(bwd);
    let ghost ps = p@;
    let ghost qs = q@;
    p.append(&mut q);
    proof {
        lemma_tensors_of_concat(stack_shapes(fwd@), stack_shapes(bwd@));
    }
    proof {
        assert forall|g: Graph| #[trigger] shapes_hold(g, stack_shapes(fwd@) + stack_shapes(bwd@)) implies forall|j: int| 0 <= j < p@.len() ==> (#[trigger] p@[j]).valid(g) by {
            lemma_shapes_hold_concat(g, stack_shapes(fwd@), stack_shapes(bwd@));
            assert forall|j: int| 0 <= j < p@.len() implies (#[trigger] p@[j]).valid(g) by {
                if j < ps.len() {
                    assert(p@[j] == ps[j]);
                } else {
                    assert(p@[j] == qs[j - ps.len()]);
                }
            }
        }
    }
    p
}

/// A stack whose cells all exist, fit, and whose tensors hold lives in `g`.
proof fn lemma_two_stacks_ready<C: StackCell>(g: Graph, fwd: Seq<C>, bwd: Seq<C>)
    requires
        shapes_hold(g, stack_shapes(fwd) + stack_shapes(bwd)),
        forall|k: int| 0 <= k < fwd.len() ==> (#[trigger] fwd[k]).cell_fits(),
        forall|k: int| 0 <= k < bwd.len() ==> (#[trigger] bwd[k]).cell_fits(),
    ensures
        forall|k: int| 0 <= k < fwd.len() ==> (#[trigger] fwd[k]).cell_ready(g),
        forall|k: int| 0 <= k < bwd.len() ==> (#[trigger] bwd[k]).cell_ready(g),
{
    lemma_shapes_hold_concat(g, stack_shapes(fwd), stack_shapes(bwd));
    lemma_stack_shapes(g, fwd);
    lemma_stack_shapes(g, bwd);
    assert forall|k: int| 0 <= k < fwd.len() implies (#[trigger] fwd[k]).cell_ready(g) by {
        assert(shapes_hold(g, fwd[k].cell_shapes()));
        fwd[k].lemma_cell_ready(g);
    }
    assert forall|k: int| 0 <= k < bwd.len() implies (#[trigger] bwd[k]).cell_ready(g) by {
        assert(shapes_hold(g, bwd[k].cell_shapes()));
        bwd[k].lemma_cell_ready(g);
    }
}

impl RNN {
    /// Every layer has its cells (in both directions when bidirectional).
    pub open spec fn cells_present(&self) -> bool {
        &&& self.forward_cells@.len() == self.num_layers
        &&& self.bidirectional ==> self.backward_cells@.len() == self.num_layers
    }
}

impl Module for RNN {
    open spec fn mode_is(&self, training: bool) -> bool {
        self.dropout matches Some(d) ==> d.is_training == training
    }

    open spec fn param_list(&self) -> Seq<Tensor> {
        crate::nn::module::tensors_of(self.tensor_shapes())
    }

    open spec fn tensor_shapes(&self) -> Seq<(Tensor, Seq<usize>)> {
        stack_shapes(self.forward_cells@) + stack_shapes(self.backward_cells@)
    }

    open spec fn buffer_shapes(&self) -> Seq<(usize, Seq<usize>)> {
        Seq::empty()
    }

    /// The output sequence of [`RNN::forward_seq`] from a zero initial state. A module missing
    /// a cell, a cell whose gate width overflows, or an empty sequence is refused with
    /// `InvalidArgument`.
    fn forward(&self, g: &mut Graph, input: &Tensor) -> (r: Result<Tensor, EngineError>)
        ensures
            ({
                let xs = input.shape_of(*old(g));
                let runnable = self.cells_present()
                    && (forall|k: int| 0 <= k < self.forward_cells@.len() ==> (#[trigger] self.forward_cells@[k]).cell_fits())
                    && (forall|k: int| 0 <= k < self.backward_cells@.len() ==> (#[trigger] self.backward_cells@[k]).cell_fits())
                    && !(xs.len() == 3 && xs[1] == 0);
                &&& !runnable ==> (r matches Err(e) && e is InvalidArgument && *final(g) == *old(g))
                &&& (runnable && xs.len() != 3) ==> (r matches Err(e) && e is ShapeMismatch)
                &&& (runnable && xs.len() == 3 && self.consistent()) ==> {
                    &&& r is Ok <==> xs[2] == self.input_size
                    &&& r matches Ok(o) ==> o.shape_of(*final(g)) == seq![xs[0], xs[1], (directions(self.bidirectional) * self.hidden_size) as usize]
                }
            }),
    {
        if self.forward_cells.len() != self.num_layers || (self.bidirectional && self.backward_cells.len() != self.num_layers) {
            return Err(EngineError::InvalidArgument("recurrent module: a layer has no cell".to_string()));
        }
        if !cells_fit(&self.forward_cells) || !cells_fit(&self.backward_cells) {
            return Err(EngineError::InvalidArgument("recurrent module: gate width overflows".to_string()));
        }
        let shape = input.shape(g);
        if shape.len() == 3 && shape[1] == 0 {
            return Err(EngineError::InvalidArgument("recurrent module: empty sequence".to_string()));
        }
        proof {
            lemma_two_stacks_ready(*g, self.forward_cells@, self.backward_cells@);
        }
        match self.forward_seq(g, input, None) {
            Ok((o, _state)) => Ok(o),
            Err(e) => Err(e),
        }
    }

    fn parameters(&self) -> (r: Vec<Tensor>) {
        two_stack_parameters(&self.forward_cells, &self.backward_cells)
    }

    /// Switches the dropout between layers to training mode.
    fn train(&mut self)
        ensures
            final(self).forward_cells == old(self).forward_cells,
            final(self).backward_cells == old(self).backward_cells,
            final(self).num_layers == old(self).num_layers,
            final(self).input_size == old(self).input_size,
            final(self).hidden_size == old(self).hidden_size,
            final(self).bidirectional == old(self).bidirectional,
            final(self).dropout is Some == old(self).dropout is Some,
            final(self).dropout matches Some(d) ==> d.is_training && d.p_bits == old(self).dropout->Some_0.p_bits,
    {
        match &mut self.dropout {
            Some(d) => {
                d.train();
            },
            None => {},
        }
    }

    /// Switches the dropout between layers to evaluation mode.
    fn eval(&mut self)
        ensures
            final(self).forward_cells == old(self).forward_cells,
            final(self).backward_cells == old(self).backward_cells,
            final(self).num_layers == old(self).num_layers,
            final(self).input_size == old(self).input_size,
            final(self).hidden_size == old(self).hidden_size,
            final(self).bidirectional == old(self).bidirectional,
            final(self).dropout is Some == old(self).dropout is Some,
            final(self).dropout matches Some(d) ==> !d.is_training && d.p_bits == old(self).dropout->Some_0.p_bits,
    {
        match &mut self.dropout {
            Some(d) => {
                d.eval();
            },
            None => {},
        }
    }
}

impl GRU {
    /// Every layer has its cells (in both directions when bidirectional).
    pub open spec fn cells_present(&self) -> bool {
        &&& self.forward_cells@.len() == self.num_layers
        &&& self.bidirectional ==> self.backward_cells@.len() == self.num_layers
    }
}

impl Module for GRU {
    open spec fn mode_is(&self, training: bool) -> bool {
        self.dropout matches Some(d) ==> d.is_training == training
    }

    open spec fn param_list(&self) -> Seq<Tensor> {
        crate::nn::module::tensors_of(self.tensor_shapes())
    }

    open spec fn tensor_shapes(&self) -> Seq<(Tensor, Seq<usize>)> {
        stack_shapes(self.forward_cells@) + stack_shapes(self.backward_cells@)
    }

    open spec fn buffer_shapes(&self) -> Seq<(usize, Seq<usize>)> {
        Seq::empty()
    }

    /// The output sequence of [`GRU::forward_seq`] from a zero initial state. A module missing
    /// a cell, a cell whose gate width overflows, or an empty sequence is refused with
    /// `InvalidArgument`.
    fn forward(&self, g: &mut Graph, input: &Tensor) -> (r: Result<Tensor, EngineError>)
        ensures
            ({
                let xs = input.shape_of(*old(g));
                let runnable = self.cells_present()
                    && (forall|k: int| 0 <= k < self.forward_cells@.len() ==> (#[trigger] self.forward_cells@[k]).cell_fits())
                    && (forall|k: int| 0 <= k < self.backward_cells@.len() ==> (#[trigger] self.backward_cells@[k]).cell_fits())
                    && !(xs.len() == 3 && xs[1] == 0);
                &&& !runnable ==> (r matches Err(e) && e is InvalidArgument && *final(g) == *old(g))
                &&& (runnable && xs.len() != 3) ==> (r matches Err(e) && e is ShapeMismatch)
                &&& (runnable && xs.len() == 3 && self.consistent()) ==> {
                    &&& r is Ok <==> xs[2] == self.input_size
                    &&& r matches Ok(o) ==> o.shape_of(*final(g)) == seq![xs[0], xs[1], (directions(self.bidirectional) * self.hidden_size) as usize]
                }
            }),
    {
        if self.forward_cells.len() != self.num_layers || (self.bidirectional && self.backward_cells.len() != self.num_layers) {
            return Err(EngineError::InvalidArgument("recurrent module: a layer has no cell".to_string()));
        }
        if !cells_fit(&self.forward_cells) || !cells_fit(&self.backward_cells) {
            return Err(EngineError::InvalidArgument("recurrent module: gate width overflows".to_string()));
        }
        let shape = input.shape(g);
        if shape.len() == 3 && shape[1] == 0 {
            return Err(EngineError::InvalidArgument("recurrent module: empty sequence".to_string()));
        }
        proof {
            lemma_two_stacks_ready(*g, self.forward_cells@, self.backward_cells@);
        }
        match self.forward_seq(g, input, None) {
            Ok((o, _state)) => Ok(o),
            Err(e) => Err(e),
        }
    }

    fn parameters(&self) -> (r: Vec<Tensor>) {
        two_stack_parameters(&self.forward_cells, &self.backward_cells)
    }

    /// Switches the dropout between layers to training mode.
    fn train(&mut self)
        ensures
            final(self).forward_cells == old(self).forward_cells,
            final(self).backward_cells == old(self).backward_cells,
            final(self).num_layers == old(self).num_layers,
            final(self).input_size == old(self).input_size,
            final(self).hidden_size == old(self).hidden_size,
            final(self).bidirectional == old(self).bidirectional,
            final(self).dropout is Some == old(self).dropout is Some,
            final(self).dropout matches Some(d) ==> d.is_training && d.p_bits == old(self).dropout->Some_0.p_bits,
    {
        match &mut self.dropout {
            Some(d) => {
                d.train();
            },
            None => {},
        }
    }

    /// Switches the dropout between layers to evaluation mode.
    fn eval(&mut self)
        ensures
            final(self).forward_cells == old(self).forward_cells,
            final(self).backward_cells == old(self).backward_cells,
            final(self).num_layers == old(self).num_layers,
            final(self).input_size == old(self).input_size,
            final(self).hidden_size == old(self).hidden_size,
            final(self).bidirectional == old(self).bidirectional,
            final(self).dropout is Some == old(self).dropout is Some,
            final(self).dropout matches Some(d) ==> !d.is_training && d.p_bits == old(self).dropout->Some_0.p_bits,
    {
        match &mut self.dropout {
            Some(d) => {
                d.eval();
            },
            None => {},
        }
    }
}

impl LSTM {
    /// Every layer has its cells (in both directions when bidirectional).
    pub open spec fn cells_present(&self) -> bool {
        &&& self.forward_cells@.len() == self.num_layers
        &&& self.bidirectional ==> self.backward_cells@.len() == self.num_layers
    }
}

impl Module for LSTM {
    open spec fn mode_is(&self, training: bool) -> bool {
        self.dropout matches Some(d) ==> d.is_training == training
    }

    open spec fn param_list(&self) -> Seq<Tensor> {
        crate::nn::module::tensors_of(self.tensor_shapes())
    }

    open spec fn tensor_shapes(&self) -> Seq<(Tensor, Seq<usize>)> {
        stack_shapes(self.forward_cells@) + stack_shapes(self.backward_cells@)
    }

    open spec fn buffer_shapes(&self) -> Seq<(usize, Seq<usize>)> {
        Seq::empty()
    }

    /// The output sequence of [`LSTM::forward_seq`] from a zero initial state. A module missing
    /// a cell, a cell whose gate width overflows, or an empty sequence is refused with
    /// `InvalidArgument`.
    fn forward(&self, g: &mut Graph, input: &Tensor) -> (r: Result<Tensor, EngineError>)
        ensures
            ({
                let xs = input.shape_of(*old(g));
                let runnable = self.cells_present()
                    && (forall|k: int| 0 <= k < self.forward_cells@.len() ==> (#[trigger] self.forward_cells@[k]).cell_fits())
                    && (forall|k: int| 0 <= k < self.backward_cells@.len() ==> (#[trigger] self.backward_cells@[k]).cell_fits())
                    && !(xs.len() == 3 && xs[1] == 0);
                &&& !runnable ==> (r matches Err(e) && e is InvalidArgument && *final(g) == *old(g))
                &&& (runnable && xs.len() != 3) ==> (r matches Err(e) && e is ShapeMismatch)
                &&& (runnable && xs.len() == 3 && self.consistent()) ==> {
                    &&& r is Ok <==> xs[2] == self.input_size
                    &&& r matches Ok(o) ==> o.shape_of(*final(g)) == seq![xs[0], xs[1], (directions(self.bidirectional) * self.hidden_size) as usize]
                }
            }),
    {
        if self.forward_cells.len() != self.num_layers || (self.bidirectional && self.backward_cells.len() != self.num_layers) {
            return Err(EngineError::InvalidArgument("recurrent module: a layer has no cell".to_string()));
        }
        if !cells_fit(&self.forward_cells) || !cells_fit(&self.backward_cells) {
            return Err(EngineError::InvalidArgument("recurrent module: gate width overflows".to_string()));
        }
        let shape = input.shape(g);
        if shape.len() == 3 && shape[1] == 0 {
            return Err(EngineError::InvalidArgument("recurrent module: empty sequence".to_string()));
        }
        proof {
            lemma_two_stacks_ready(*g, self.forward_cells@, self.backward_cells@);
        }
        match self.forward_seq(g, input, None) {
            Ok((o, _state)) => Ok(o),
            Err(e) => Err(e),
        }
    }

    fn parameters(&self) -> (r: Vec<Tensor>) {
        two_stack_parameters(&self.forward_cells, &self.backward_cells)
    }

    /// Switches the dropout between layers to training mode.
    fn train(&mut self)
        ensures
            final(self).forward_cells == old(self).forward_cells,
            final(self).backward_cells == old(self).backward_cells,
            final(self).num_layers == old(self).num_layers,
            final(self).input_size == old(self).input_size,
            final(self).hidden_size == old(self).hidden_size,
            final(self).bidirectional == old(self).bidirectional,
            final(self).dropout is Some == old(self).dropout is Some,
            final(self).dropout matches Some(d) ==> d.is_training && d.p_bits == old(self).dropout->Some_0.p_bits,
    {
        match &mut self.dropout {
            Some(d) => {
                d.train();
            },
            None => {},
        }
    }

    /// Switches the dropout between layers to evaluation mode.
    fn eval(&mut self)
        ensures
            final(self).forward_cells == old(self).forward_cells,
            final(self).backward_cells == old(self).backward_cells,
            final(self).num_layers == old(self).num_layers,
            final(self).input_size == old(self).input_size,
            final(self).hidden_size == old(self).hidden_size,
            final(self).bidirectional == old(self).bidirectional,
            final(self).dropout is Some == old(self).dropout is Some,
            final(self).dropout matches Some(d) ==> !d.is_training && d.p_bits == old(self).dropout->Some_0.p_bits,
    {
        match &mut self.dropout {
            Some(d) => {
                d.eval();
            },
            None => {},
        }
    }
}

} // verus!