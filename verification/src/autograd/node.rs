//! Autograd graph nodes, the arena that holds them, and gradient shape reduction.

use vstd::prelude::*;
use crate::error::EngineError;
use crate::shape::{bdim, brank, broadcast_shapes, broadcast_spec, broadcastable, checked_numel, numel_spec, shape_fits, shape_vec};

verus! {

/// Stride, padding and dilation of a 2D convolution, as `(height, width)` pairs.
#[derive(Clone, Copy, Debug)]
pub struct Conv2dParams {
    pub stride: (usize, usize),
    pub padding: (usize, usize),
    pub dilation: (usize, usize),
}

/// Activation whose recommended gain scales a Kaiming initialization.
#[derive(Clone, Copy, Debug, PartialEq, Eq, Structural)]
pub enum GainKind {
    Sigmoid,
    Tanh,
    ReLU,
}

/// How the values of a leaf tensor are produced.
pub enum LeafInit {
    /// Values supplied by the caller.
    Data,
    /// All zeros.
    Zeros,
    /// All ones.
    Ones,
    /// Kaiming (He) uniform values for the given fan-in.
    KaimingUniform { fan_in: usize },
    /// Kaiming (He) normal values for the given fan-in.
    KaimingNormal { fan_in: usize },
    /// Xavier (Glorot) uniform values for the given fans.
    XavierUniform { fan_in: usize, fan_out: usize },
    /// Xavier (Glorot) normal values for the given fans.
    XavierNormal { fan_in: usize, fan_out: usize },
    /// Uniform values in `[-1/sqrt(fan_in), 1/sqrt(fan_in))`.
    FanInUniform { fan_in: usize },
    /// Standard normal values.
    StandardNormal,
    /// Every entry the `f32` whose bit pattern is `bits`.
    Constant { bits: u32 },
    /// The scalar `count * c`, where `c` is the `f32` whose bit pattern is `coeff_bits`.
    ScaledCount { coeff_bits: u32, count: usize },
    /// Uniform values in `[low, high)`, the `f32`s whose bit patterns are `low_bits` and `high_bits`.
    Uniform { low_bits: u32, high_bits: u32 },
    /// Normal values of the given mean and standard deviation (`f32` bit patterns).
    Normal { mean_bits: u32, std_bits: u32 },
    /// Kaiming uniform values scaled by the gain of an activation.
    GainKaimingUniform { fan_in: usize, gain: GainKind },
    /// LSTM bias of `4 * hidden_size` entries whose forget-gate block is set to a constant
    /// (1 for the input-hidden bias, 0 for the hidden-hidden bias).
    LstmBias { hidden_size: usize, forget_one: bool },
    /// One-hot rows: row `r` has a 1 in column `targets[r]` and 0 elsewhere.
    OneHot { targets: Vec<usize> },
    /// Additive causal mask: entry `(r, c)` is a large negative number when `c > r + offset`,
    /// 0 otherwise.
    CausalMask { offset: usize },
    /// The scalar `1 / sqrt(n)`.
    InvSqrt { n: usize },
    /// Rotary position table of shape `[1, 1, positions, head_dim]`: entry `(p, i)` is the
    /// cosine (or, when `sine`, the sine) of `p * theta^(-2 (i mod head_dim/2) / head_dim)`,
    /// where `theta` is the `f32` whose bit pattern is `theta_bits`.
    RopeTable { sine: bool, head_dim: usize, theta_bits: u32 },
    /// Dropout mask: each entry independently `1 / (1 - p)` with probability `1 - p` and 0
    /// otherwise, where `p` is the `f32` whose bit pattern is `p_bits`.
    DropoutMask { p_bits: u32 },
    /// Output of tiled online-softmax attention of the queries, keys and values held by the
    /// nodes `q`, `k` and `v` (all `[batch, heads, seq, head_dim]`), causal when `causal`,
    /// computed in blocks of `block_size` rows and columns outside the autograd graph.
    FlashAttention { q: usize, k: usize, v: usize, causal: bool, block_size: usize },
}

/// The operation that produced a tensor from its inputs.
pub enum Op {
    Leaf(LeafInit),
    Add,
    Sub,
    Mul,
    Div,
    Neg,
    MatMul,
    MatMulTransposedB,
    Sum { axis: usize, keepdim: bool },
    Mean { axis: usize, keepdim: bool },
    SumAll,
    MeanAll,
    Exp,
    Log,
    Sqrt,
    Square,
    Tanh,
    Sigmoid,
    Relu,
    Gelu,
    Silu,
    Abs,
    /// Each entry raised to the `f32` power whose bit pattern is `exponent_bits`.
    Powf { exponent_bits: u32 },
    /// Leaky ReLU with the negative slope whose `f32` bit pattern is `slope_bits`.
    LeakyRelu { slope_bits: u32 },
    /// Exponential moving average `(1 - m) * a + m * b` of the two inputs `a` and `b`, where
    /// `m` is the `f32` whose bit pattern is `momentum_bits`; never differentiated.
    MovingAverage { momentum_bits: u32 },
    LogSoftmax { axis: usize },
    Softmax { axis: usize },
    Reshape,
    Transpose { dim0: usize, dim1: usize },
    Permute { dims: Vec<usize>, inverse: Vec<usize> },
    Slice { axis: usize, start: usize, end: usize },
    Unsqueeze { axis: usize },
    Squeeze { axis: usize },
    Cat { axis: usize },
    Conv2d { params: Conv2dParams },
    MaxPool2d { kernel_size: (usize, usize), stride: (usize, usize) },
    Embedding { indices: Vec<usize> },
    /// The `k` largest entries along the last axis; gradients flow back to them only.
    TopK { k: usize },
    /// Positions, along the last axis, of the `k` largest entries.
    TopKIndices { k: usize },
    /// For each row of the routing weights (first input) and selected experts (second input),
    /// the weight given to expert `expert`, or 0 where the row did not select it; never
    /// differentiated through.
    ExpertGate { expert: usize },
    /// For each of `num_experts` experts, the fraction of all selections (the input) that
    /// chose it; never differentiated.
    ExpertLoad { num_experts: usize },
}

/// A node of the autograd graph: the shape of a tensor, how it was computed, and the
/// bookkeeping of reverse-mode differentiation.
pub struct TensorInner {
    /// Position of the node in its graph.
    pub id: usize,
    /// Shape of the tensor.
    pub shape: Vec<usize>,
    /// Operation that produced the tensor.
    pub op: Op,
    /// Nodes whose values the operation read.
    pub inputs: Vec<usize>,
    /// Nodes to which the backward pass sends gradients (empty for leaves and detached results).
    pub parents: Vec<usize>,
    /// For each parent, whether the backward pass produces a gradient for it.
    pub parent_req: Vec<bool>,
    /// Whether gradients flow into this node.
    pub requires_grad: bool,
    /// Whether the node carries a backward function.
    pub has_backward: bool,
    /// Shape of the accumulated gradient, if any.
    pub grad: Option<Vec<usize>>,
}

/// Node `n` is well formed at position `i`: it knows its position and refers only to
/// earlier nodes.
pub open spec fn node_wf(n: TensorInner, i: int) -> bool {
    &&& n.id == i
    &&& n.parents@.len() == n.parent_req@.len()
    &&& forall|j: int| 0 <= j < n.parents@.len() ==> #[trigger] n.parents@[j] < i
    &&& forall|j: int| 0 <= j < n.inputs@.len() ==> #[trigger] n.inputs@[j] < i
}

/// Gradient received by a node is accumulated into a stored gradient of shape `g`.
pub open spec fn accumulate_spec(stored: Option<Vec<usize>>, incoming: Seq<usize>) -> Seq<usize> {
    match stored {
        Some(g) => broadcast_spec(g@, incoming),
        None => incoming,
    }
}

impl TensorInner {
    /// Creates a leaf node.
    pub fn new(id: usize, shape: Vec<usize>, init: LeafInit, requires_grad: bool) -> (r: TensorInner)
        ensures
            node_wf(r, id as int),
            r.shape@ == shape@,
            r.op == Op::Leaf(init),
            r.inputs@ == Seq::<usize>::empty(),
            r.parents@ == Seq::<usize>::empty(),
            r.requires_grad == requires_grad,
            !r.has_backward,
            r.grad is None,
    {
        TensorInner {
            id,
            shape,
            op: Op::Leaf(init),
            inputs: Vec::new(),
            parents: Vec::new(),
            parent_req: Vec::new(),
            requires_grad,
            has_backward: false,
            grad: None,
        }
    }

    /// Creates the node of an operation that is not differentiated: it reads `inputs` but sends no
    /// gradient back.
    pub fn detached(id: usize, shape: Vec<usize>, op: Op, inputs: Vec<usize>) -> (r: TensorInner)
        requires
            forall|j: int| 0 <= j < inputs@.len() ==> #[trigger] inputs@[j] < id,
        ensures
            node_wf(r, id as int),
            r.shape@ == shape@,
            r.op == op,
            r.inputs@ == inputs@,
            r.parents@ == Seq::<usize>::empty(),
            !r.requires_grad,
            !r.has_backward,
            r.grad is None,
    {
        TensorInner {
            id,
            shape,
            op,
            inputs,
            parents: Vec::new(),
            parent_req: Vec::new(),
            requires_grad: false,
            has_backward: false,
            grad: None,
        }
    }

    /// Creates the node of a differentiable operation. It requires a gradient, and carries a backward
    /// function, exactly when one of its parents requires a gradient.
    pub fn with_parents(
        g: &Graph,
        shape: Vec<usize>,
        op: Op,
        parents: Vec<usize>,
        parent_req: Vec<bool>,
    ) -> (r: TensorInner)
        requires
            g.wf(),
            parents@.len() == parent_req@.len(),
            forall|j: int| 0 <= j < parents@.len() ==> #[trigger] parents@[j] < g.nodes@.len(),
        ensures
            node_wf(r, g.nodes@.len() as int),
            r.shape@ == shape@,
            r.op == op,
            r.inputs@ == parents@,
            r.parents@ == parents@,
            r.parent_req@ == parent_req@,
            r.requires_grad == (exists|j: int|
                0 <= j < parents@.len() && #[trigger] g.nodes@[parents@[j] as int].requires_grad),
            r.has_backward == r.requires_grad,
            r.grad is None,
    {
        let mut any = false;
        let mut j: usize = 0;
        while j < parents.len()
            invariant
                g.wf(),
                j <= parents@.len(),
                forall|k: int| 0 <= k < parents@.len() ==> #[trigger] parents@[k] < g.nodes@.len(),
                any == (exists|k: int| 0 <= k < j && #[trigger] g.nodes@[parents@[k] as int].requires_grad),
            decreases parents.len() - j,
        {
            if g.nodes[parents[j]].requires_grad {
                any = true;
            }
            j = j + 1;
        }
        let inputs = shape_vec(parents.as_slice());
        TensorInner {
            id: g.nodes.len(),
            shape,
            op,
            inputs,
            parents,
            parent_req,
            requires_grad: any,
            has_backward: any,
            grad: None,
        }
    }

    /// Adds an incoming gradient of shape `incoming` to the stored gradient. Nothing happens
    /// for a node that does not require a gradient.
    pub fn accumulate_grad(&mut self, incoming: Vec<usize>)
        requires
            old(self).requires_grad ==> match old(self).grad {
                Some(e) => broadcastable(e@, incoming@),
                None => true,
            },
        ensures
            final(self).id == old(self).id,
            final(self).shape == old(self).shape,
            final(self).op == old(self).op,
            final(self).inputs == old(self).inputs,
            final(self).parents == old(self).parents,
            final(self).parent_req == old(self).parent_req,
            final(self).requires_grad == old(self).requires_grad,
            final(self).has_backward == old(self).has_backward,
            !old(self).requires_grad ==> final(self).grad == old(self).grad,
            old(self).requires_grad ==> (final(self).grad matches Some(ng) && ng@ == accumulate_spec(
                old(self).grad,
                incoming@,
            )),
    {
        if !self.requires_grad {
            return;
        }
        let combined = match &self.grad {
            Some(existing) => {
                match broadcast_shapes(existing.as_slice(), incoming.as_slice()) {
                    Some(v) => v,
                    None => incoming,
                }
            },
            None => incoming,
        };
        self.grad = Some(combined);
    }
}

/// The arena that holds every node of an autograd graph, the switch that turns gradient
/// tracking on and off, and the buffers: slots that each name the node currently holding a
/// piece of state that layers update outside of differentiation (such as running statistics).
pub struct Graph {
    pub nodes: Vec<TensorInner>,
    pub grad_enabled: bool,
    pub buffers: Vec<usize>,
}

impl Graph {
    /// Every node is well formed at its position, and every buffer names a node.
    pub open spec fn wf(&self) -> bool {
        &&& forall|i: int| 0 <= i < self.nodes@.len() ==> node_wf(#[trigger] self.nodes@[i], i)
        &&& forall|b: int| 0 <= b < self.buffers@.len() ==> #[trigger] self.buffers@[b] < self.nodes@.len()
    }

    /// Shape of the node held by buffer `b`.
    pub open spec fn buffer_shape(&self, b: int) -> Seq<usize> {
        self.nodes@[self.buffers@[b] as int].shape@
    }

    /// `new` holds the nodes of `self` unchanged, followed by more nodes, and the same switch;
    /// it keeps every buffer of `self`, each holding a node of the same shape, and may add more.
    pub open spec fn extended_by(&self, new: Graph) -> bool {
        &&& new.grad_enabled == self.grad_enabled
        &&& new.nodes@.len() >= self.nodes@.len()
        &&& forall|j: int| 0 <= j < self.nodes@.len() ==> #[trigger] new.nodes@[j] == self.nodes@[j]
        &&& new.buffers@.len() >= self.buffers@.len()
        &&& forall|b: int| 0 <= b < self.buffers@.len() ==> #[trigger] new.buffer_shape(b) == self.buffer_shape(b)
    }

    /// Extension is transitive.
    pub proof fn lemma_extended_trans(&self, g2: Graph, g3: Graph)
        requires
            self.extended_by(g2),
            g2.extended_by(g3),
        ensures
            self.extended_by(g3),
    {
        assert forall|j: int| 0 <= j < self.nodes@.len() implies #[trigger] g3.nodes@[j] == self.nodes@[j] by {
            assert(g3.nodes@[j] == g2.nodes@[j]);
        }
        assert forall|b: int| 0 <= b < self.buffers@.len() implies #[trigger] g3.buffer_shape(b) == self.buffer_shape(b) by {
            assert(g3.buffer_shape(b) == g2.buffer_shape(b));
        }
    }

    /// An empty graph with gradient tracking enabled.
    pub fn new() -> (g: Graph)
        ensures
            g.wf(),
            g.nodes@.len() == 0,
            g.buffers@.len() == 0,
            g.grad_enabled,
    {
        Graph { nodes: Vec::new(), grad_enabled: true, buffers: Vec::new() }
    }

    /// Appends a well-formed node.
    pub fn push_node(&mut self, n: TensorInner)
        requires
            old(self).wf(),
            node_wf(n, old(self).nodes@.len() as int),
        ensures
            final(self).wf(),
            final(self).nodes@ == old(self).nodes@.push(n),
            final(self).grad_enabled == old(self).grad_enabled,
            final(self).buffers == old(self).buffers,
            old(self).extended_by(*final(self)),
    {
        self.nodes.push(n);
        assert forall|i: int| 0 <= i < self.nodes@.len() implies node_wf(#[trigger] self.nodes@[i], i) by {
            if i < old(self).nodes@.len() {
                assert(self.nodes@[i] == old(self).nodes@[i]);
            }
        }
        assert forall|b: int| 0 <= b < self.buffers@.len() implies #[trigger] self.buffer_shape(b) == old(self).buffer_shape(b) by {
            assert(self.nodes@[self.buffers@[b] as int] == old(self).nodes@[self.buffers@[b] as int]);
        }
    }

    /// Adds a buffer holding node `id` and returns its slot.
    pub fn add_buffer(&mut self, id: usize) -> (slot: usize)
        requires
            old(self).wf(),
            id < old(self).nodes@.len(),
        ensures
            final(self).wf(),
            final(self).nodes == old(self).nodes,
            final(self).grad_enabled == old(self).grad_enabled,
            final(self).buffers@ == old(self).buffers@.push(id),
            slot == old(self).buffers@.len(),
            old(self).extended_by(*final(self)),
    {
        let slot = self.buffers.len();
        self.buffers.push(id);
        assert forall|b: int| 0 <= b < old(self).buffers@.len() implies #[trigger] self.buffer_shape(b) == old(self).buffer_shape(b) by {
            assert(self.buffers@[b] == old(self).buffers@[b]);
        }
        slot
    }

    /// The node held by buffer `slot`.
    pub fn buffer(&self, slot: usize) -> (id: usize)
        requires
            slot < self.buffers@.len(),
        ensures
            id == self.buffers@[slot as int],
    {
        self.buffers[slot]
    }

    /// Makes buffer `slot` hold node `id`, of the shape of the node it held.
    pub fn set_buffer(&mut self, slot: usize, id: usize)
        requires
            old(self).wf(),
            slot < old(self).buffers@.len(),
            id < old(self).nodes@.len(),
            old(self).nodes@[id as int].shape@ == old(self).buffer_shape(slot as int),
        ensures
            final(self).wf(),
            final(self).nodes == old(self).nodes,
            final(self).grad_enabled == old(self).grad_enabled,
            final(self).buffers@ == old(self).buffers@.update(slot as int, id),
            old(self).extended_by(*final(self)),
    {
        self.buffers.set(slot, id);
        assert forall|b: int| 0 <= b < old(self).buffers@.len() implies #[trigger] self.buffer_shape(b) == old(self).buffer_shape(b) by {
            if b != slot {
                assert(self.buffers@[b] == old(self).buffers@[b]);
            }
        }
    }
}

// ---------------------------------------------------------------------------
// Reducing a broadcast gradient to the shape of an operand
// ---------------------------------------------------------------------------

/// Shape after summing away the extra leading dimensions of `grad`.
pub open spec fn drop_leading_spec(grad: Seq<usize>, target: Seq<usize>) -> Seq<usize> {
    if grad.len() > target.len() {
        grad.subrange(grad.len() - target.len(), grad.len() as int)
    } else {
        grad
    }
}

/// Shape after also summing (keeping the axis) every dimension that is 1 in `target` and
/// larger in the gradient.
pub open spec fn collapse_spec(grad: Seq<usize>, target: Seq<usize>) -> Seq<usize> {
    let cur = drop_leading_spec(grad, target);
    Seq::new(
        cur.len(),
        |i: int|
            if i < target.len() && target[i] == 1 && cur[i] > 1 {
                1
            } else {
                cur[i]
            },
    )
}

/// The reduction reads the gradient's dimension `i` for every `i` where `target` has a 1.
pub open spec fn unbroadcast_defined(grad: Seq<usize>, target: Seq<usize>) -> bool {
    forall|i: int|
        0 <= i < target.len() && #[trigger] target[i] == 1 ==> i < drop_leading_spec(grad, target).len()
}

/// The reduced gradient can be reshaped to `target`.
pub open spec fn unbroadcast_ok(grad: Seq<usize>, target: Seq<usize>) -> bool {
    grad == target || target.len() == 0 || {
        let c = collapse_spec(grad, target);
        shape_fits(c) && shape_fits(target) && numel_spec(c) == numel_spec(target)
    }
}

/// Reduces the shape of a gradient of a broadcast result to the shape `target` of an operand:
/// extra leading dimensions are summed away, dimensions where `target` has 1 are summed with
/// the axis kept, and the result is reshaped to `target`.
pub fn unbroadcast_to(grad: &[usize], target: &[usize]) -> (r: Result<Vec<usize>, EngineError>)
    requires
        unbroadcast_defined(grad@, target@),
    ensures
        r is Ok <==> unbroadcast_ok(grad@, target@),
        r matches Ok(v) ==> v@ == target@,
        r matches Err(e) ==> (e matches EngineError::ShapeMismatch { expected, actual } && expected@
            == target@ && actual@ == collapse_spec(grad@, target@)),
{
    if grad.len() == target.len() {
        let mut same = true;
        let mut k: usize = 0;
        while k < grad.len()
            invariant
                grad@.len() == target@.len(),
                k <= grad@.len(),
                same == (forall|j: int| 0 <= j < k ==> grad@[j] == target@[j]),
            decreases grad.len() - k,
        {
            if grad[k] != target[k] {
                same = false;
            }
            k = k + 1;
        }
        if same {
            assert(grad@ =~= target@);
        } else {
            assert(grad@ != target@) by {
                let j = choose|j: int| 0 <= j < grad@.len() && grad@[j] != target@[j];
            }
        }
        if same {
            return Ok(shape_vec(target));
        }
    } else {
        assert(grad@ != target@);
    }
    if target.len() == 0 {
        return Ok(Vec::new());
    }
    // Sum out extra leading dimensions.
    let start = if grad.len() > target.len() {
        grad.len() - target.len()
    } else {
        0
    };
    let mut cur: Vec<usize> = Vec::with_capacity(grad.len() - start);
    let mut k: usize = start;
    while k < grad.len()
        invariant
            start <= k <= grad@.len(),
            cur@ == grad@.subrange(start as int, k as int),
        decreases grad.len() - k,
    {
        cur.push(grad[k]);
        k = k + 1;
        assert(cur@ =~= grad@.subrange(start as int, k as int));
    }
    assert(cur@ =~= drop_leading_spec(grad@, target@));
    let ghost dropped = cur@;
    // Sum out dimensions that were expanded from 1.
    let mut i: usize = 0;
    while i < target.len()
        invariant
            unbroadcast_defined(grad@, target@),
            dropped == drop_leading_spec(grad@, target@),
            i <= target@.len(),
            cur@.len() == dropped.len(),
            forall|j: int| 0 <= j < cur@.len() ==> #[trigger] cur@[j] == (if j < i && target@[j] == 1 && dropped[j] > 1 { 1 } else { dropped[j] }),
        decreases target.len() - i,
    {
        if target[i] == 1 {
            assert(target@[i as int] == 1);
            if cur[i] > 1 {
                cur.set(i, 1);
            }
        }
        i = i + 1;
    }
    assert(cur@ =~= collapse_spec(grad@, target@));
    let n_cur = checked_numel(cur.as_slice());
    let n_target = checked_numel(target);
    match (n_cur, n_target) {
        (Some(a), Some(b)) => {
            if a == b {
                return Ok(shape_vec(target));
            }
        },
        _ => {},
    }
    Err(EngineError::ShapeMismatch { expected: shape_vec(target), actual: cur })
}

/// The gradient of a broadcast result, reduced to the shape of an operand `a`, has the shape
/// of `a`, unless a dimension where `a` has 1 was broadcast to 0.
pub proof fn lemma_unbroadcast_recovers_operand(a: Seq<usize>, b: Seq<usize>)
    requires
        broadcastable(a, b),
        shape_fits(a),
        forall|i: int| 0 <= i < a.len() && a[i] == 1 ==> #[trigger] broadcast_spec(a, b)[i + (brank(a, b) - a.len())] != 0,
    ensures
        unbroadcast_defined(broadcast_spec(a, b), a),
        unbroadcast_ok(broadcast_spec(a, b), a),
        collapse_spec(broadcast_spec(a, b), a) == a,
{
    let c = broadcast_spec(a, b);
    let n = brank(a, b);
    let off = n - a.len();
    let cur = drop_leading_spec(c, a);
    assert(c.len() == n);
    assert forall|i: int| 0 <= i < a.len() implies #[trigger] cur[i] == c[i + off] by {
        if c.len() > a.len() {
            assert(cur[i] == c.subrange(c.len() - a.len(), c.len() as int)[i]);
        }
    }
    assert forall|i: int| 0 <= i < a.len() implies #[trigger] collapse_spec(c, a)[i] == a[i] by {
        let k = i + off;
        assert(bdim(a, n, k) == a[i]);
        let da = bdim(a, n, k);
        let db = bdim(b, n, k);
        assert(da == db || da == 1 || db == 1);
        assert(c[k] == (if da == 1 { db } else { da }));
        assert(cur[i] == c[k]);
        if a[i] == 1 {
            assert(c[k] != 0);
        }
    }
    assert(collapse_spec(c, a) =~= a);
}

} // verus!