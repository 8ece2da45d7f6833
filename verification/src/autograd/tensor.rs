//! Tensors as handles into an autograd graph, and every differentiable operation on them.
//!
//! Each operation checks its operands' shapes, computes the shape of its result, and records
//! a node. A node is differentiable (it sends gradients back to its inputs) exactly when gradient
//! tracking is enabled and one of its inputs requires a gradient; otherwise it is a detached
//! node that still names the inputs its values are computed from.

use vstd::prelude::*;
use crate::autograd::node::{
    Conv2dParams, Graph, LeafInit, Op, TensorInner, accumulate_spec, node_wf,
};
use crate::error::EngineError;
use crate::shape::{
    broadcast_shapes, broadcast_spec, broadcastable, lemma_broadcast_scalar, check_permutation, checked_numel,
    conv_dim_ok, conv_dim_spec, conv_out_dim, inverse_permutation, is_permutation,
    matmul_ok, matmul_shape, matmul_spec, matmul_tb_ok, matmul_tb_spec, numel, numel_spec,
    permute_shape, permute_spec, pool_dim_ok, pool_dim_spec, pool_out_dim, reduce_shape,
    reduce_spec, shape_fits, shape_vec, slice_shape, slice_spec, squeeze_shape, squeeze_spec,
    transpose_shape, transpose_spec, unsqueeze_shape, unsqueeze_spec,
};

verus! {

/// A tensor: a handle to a node of a [`Graph`].
#[derive(Clone, Copy, Debug)]
pub struct Tensor {
    pub id: usize,
}

/// A node recorded in `g` that reads `inputs` sends gradients back to them.
pub open spec fn grad_flows(g: Graph, inputs: Seq<usize>) -> bool {
    g.grad_enabled && exists|k: int| 0 <= k < inputs.len() && #[trigger] g.nodes@[inputs[k] as int].requires_grad
}

/// A chain of nodes of `g` in which each node reads the next.
pub open spec fn read_chain(g: Graph, p: Seq<int>) -> bool {
    &&& p.len() >= 1
    &&& forall|i: int| 0 <= i < p.len() ==> 0 <= #[trigger] p[i] < g.nodes@.len()
    &&& forall|i: int| 0 <= i < p.len() - 1 ==> g.nodes@[#[trigger] p[i]].inputs@.contains(p[i + 1] as usize)
}

/// Node `t` of `g` is node `x` or reads it, directly or through other nodes: what `t` holds
/// is computed from what `x` holds.
#[verifier::opaque]
pub open spec fn reads(g: Graph, t: int, x: int) -> bool {
    exists|p: Seq<int>| #[trigger] read_chain(g, p) && p[0] == t && p.last() == x
}

/// Every node of `g` reads itself.
pub proof fn lemma_reads_self(g: Graph, t: int)
    requires
        0 <= t < g.nodes@.len(),
    ensures
        reads(g, t, t),
{
    reveal(reads);
    let p = seq![t];
    assert(read_chain(g, p));
}

/// A node of `g2` whose input `k` reads `y` in `g1`, which `g2` extends, reads `y` in `g2`.
pub proof fn lemma_reads_through(g1: Graph, g2: Graph, t: int, k: int, y: int)
    requires
        g1.extended_by(g2),
        0 <= t < g2.nodes@.len(),
        0 <= k < g2.nodes@[t].inputs@.len(),
        reads(g1, g2.nodes@[t].inputs@[k] as int, y),
    ensures
        reads(g2, t, y),
{
    reveal(reads);
    let x = g2.nodes@[t].inputs@[k] as int;
    let p = choose|p: Seq<int>| #[trigger] read_chain(g1, p) && p[0] == x && p.last() == y;
    let q = seq![t] + p;
    assert forall|i: int| 0 <= i < q.len() implies 0 <= #[trigger] q[i] < g2.nodes@.len() by {
        if i > 0 {
            assert(q[i] == p[i - 1]);
        }
    }
    assert forall|i: int| 0 <= i < q.len() - 1 implies g2.nodes@[#[trigger] q[i]].inputs@.contains(q[i + 1] as usize) by {
        if i == 0 {
            assert(q[1] == p[0]);
            assert(g2.nodes@[t].inputs@[k] == x as usize);
        } else {
            assert(q[i] == p[i - 1] && q[i + 1] == p[i]);
            assert(g1.nodes@[p[i - 1]].inputs@.contains(p[i] as usize));
            assert(g2.nodes@[p[i - 1]] == g1.nodes@[p[i - 1]]);
        }
    }
    assert(read_chain(g2, q));
    assert(q.last() == p.last());
}

/// Reading survives the recording of more nodes.
pub proof fn lemma_reads_extend(g1: Graph, g2: Graph, t: int, y: int)
    requires
        g1.extended_by(g2),
        reads(g1, t, y),
    ensures
        reads(g2, t, y),
{
    reveal(reads);
    let p = choose|p: Seq<int>| #[trigger] read_chain(g1, p) && p[0] == t && p.last() == y;
    assert forall|i: int| 0 <= i < p.len() - 1 implies g2.nodes@[#[trigger] p[i]].inputs@.contains(p[i + 1] as usize) by {
        assert(g2.nodes@[p[i]] == g1.nodes@[p[i]]);
    }
    assert(read_chain(g2, p));
}

/// What a node reads is a node of the graph.
pub proof fn lemma_reads_in_range(g: Graph, t: int, x: int)
    requires
        reads(g, t, x),
    ensures
        0 <= t < g.nodes@.len(),
        0 <= x < g.nodes@.len(),
{
    reveal(reads);
    let p = choose|p: Seq<int>| #[trigger] read_chain(g, p) && p[0] == t && p.last() == x;
    assert(0 <= p[p.len() - 1] < g.nodes@.len());
}

/// Reading is transitive.
pub proof fn lemma_reads_trans(g: Graph, t: int, x: int, y: int)
    requires
        reads(g, t, x),
        reads(g, x, y),
    ensures
        reads(g, t, y),
{
    reveal(reads);
    let p = choose|p: Seq<int>| #[trigger] read_chain(g, p) && p[0] == t && p.last() == x;
    let p2 = choose|p2: Seq<int>| #[trigger] read_chain(g, p2) && p2[0] == x && p2.last() == y;
    let q = p + p2.drop_first();
    assert forall|i: int| 0 <= i < q.len() implies 0 <= #[trigger] q[i] < g.nodes@.len() by {
        if i >= p.len() {
            assert(q[i] == p2[i - p.len() + 1]);
        } else {
            assert(q[i] == p[i]);
        }
    }
    assert forall|i: int| 0 <= i < q.len() - 1 implies g.nodes@[#[trigger] q[i]].inputs@.contains(q[i + 1] as usize) by {
        if i < p.len() - 1 {
            assert(q[i] == p[i] && q[i + 1] == p[i + 1]);
        } else if i == p.len() - 1 {
            assert(q[i] == p[i] && p[i] == x && p2[0] == x);
            assert(q[i + 1] == p2[1]);
            assert(g.nodes@[p2[0]].inputs@.contains(p2[1] as usize));
        } else {
            assert(q[i] == p2[i - p.len() + 1] && q[i + 1] == p2[i - p.len() + 2]);
            assert(g.nodes@[p2[i - p.len() + 1]].inputs@.contains(p2[i - p.len() + 2] as usize));
        }
    }
    if p2.len() == 1 {
        assert(q =~= p);
    } else {
        assert(q.last() == p2.last());
    }
    assert(read_chain(g, q));
}

/// Whether each of `inputs` requires a gradient in `g`.
pub open spec fn req_flags(g: Graph, inputs: Seq<usize>) -> Seq<bool> {
    Seq::new(inputs.len(), |k: int| g.nodes@[inputs[k] as int].requires_grad)
}

/// `new` is `old` with one more node, `t`, of shape `shape` reading `inputs`, differentiable
/// according to the inputs' flags and the graph's switch.
pub open spec fn recorded(old: Graph, new: Graph, t: Tensor, shape: Seq<usize>, inputs: Seq<usize>) -> bool {
    &&& new.wf()
    &&& old.extended_by(new)
    &&& new.buffers == old.buffers
    &&& new.nodes@.len() == old.nodes@.len() + 1
    &&& t.id == old.nodes@.len()
    &&& new.nodes@[t.id as int].shape@ == shape
    &&& new.nodes@[t.id as int].inputs@ == inputs
    &&& new.nodes@[t.id as int].grad is None
    &&& new.nodes@[t.id as int].requires_grad == grad_flows(old, inputs)
    &&& new.nodes@[t.id as int].has_backward == grad_flows(old, inputs)
    &&& new.nodes@[t.id as int].parents@ == (if grad_flows(old, inputs) { inputs } else { Seq::<usize>::empty() })
    &&& new.nodes@[t.id as int].parent_req@ == (if grad_flows(old, inputs) { req_flags(old, inputs) } else { Seq::<bool>::empty() })
}

/// `new` is `old` with one more node, `t`: a leaf of shape `shape` made by `init`.
pub open spec fn leaf_recorded(old: Graph, new: Graph, t: Tensor, shape: Seq<usize>, init: LeafInit, requires_grad: bool) -> bool {
    &&& new.wf()
    &&& old.extended_by(new)
    &&& new.buffers == old.buffers
    &&& new.nodes@.len() == old.nodes@.len() + 1
    &&& t.id == old.nodes@.len()
    &&& new.nodes@[t.id as int].shape@ == shape
    &&& new.nodes@[t.id as int].op == Op::Leaf(init)
    &&& new.nodes@[t.id as int].inputs@ == Seq::<usize>::empty()
    &&& new.nodes@[t.id as int].parents@ == Seq::<usize>::empty()
    &&& new.nodes@[t.id as int].requires_grad == requires_grad
    &&& !new.nodes@[t.id as int].has_backward
    &&& new.nodes@[t.id as int].grad is None
}

/// The error `IncompatibleShapes` for operation `name` on the shapes `shapes`.
pub open spec fn incompatible(e: EngineError, name: &'static str, shapes: Seq<Seq<usize>>) -> bool {
    &&& e matches EngineError::IncompatibleShapes { op, shapes: s }
    &&& op@ == name@
    &&& s@.len() == shapes.len()
    &&& forall|k: int| 0 <= k < shapes.len() ==> (#[trigger] s@[k])@ == shapes[k]
}

/// The error `DimensionOutOfBounds` for axis `a` of a rank-`n` tensor.
pub open spec fn out_of_bounds(e: EngineError, a: usize, n: usize) -> bool {
    e == EngineError::DimensionOutOfBounds { axis: a, ndim: n }
}

/// Outcome of an elementwise binary operation: the broadcast shape on success, the
/// `IncompatibleShapes` error and an unchanged graph otherwise.
pub open spec fn binary_result(old: Graph, new: Graph, a: Tensor, b: Tensor, r: Result<Tensor, EngineError>, op: Op, name: &'static str) -> bool {
    match r {
        Ok(t) => broadcastable(a.shape_of(old), b.shape_of(old))
            && recorded(old, new, t, broadcast_spec(a.shape_of(old), b.shape_of(old)), seq![a.id, b.id])
            && new.nodes@[t.id as int].op == op,
        Err(e) => !broadcastable(a.shape_of(old), b.shape_of(old)) && new == old
            && incompatible(e, name, seq![a.shape_of(old), b.shape_of(old)]),
    }
}

/// Outcome of an elementwise operation of `a` with a scalar: `new` is `old` with a scalar
/// leaf `s` (shape `[]`, holding the `f32` whose bit pattern is `bits`, not requiring a
/// gradient) followed by the result `t`, of `a`'s shape, computed by `op` from `a` and `s`.
pub open spec fn scalar_result(old: Graph, new: Graph, a: Tensor, t: Tensor, op: Op, bits: u32) -> bool {
    let s = Tensor { id: old.nodes@.len() as usize };
    &&& new.wf()
    &&& old.extended_by(new)
    &&& new.buffers == old.buffers
    &&& new.nodes@.len() == old.nodes@.len() + 2
    &&& t.id == old.nodes@.len() + 1
    &&& t.shape_of(new) == a.shape_of(old)
    &&& new.nodes@[t.id as int].op == op
    &&& exists|mid: Graph| #[trigger] leaf_recorded(old, mid, s, Seq::<usize>::empty(), LeafInit::Constant { bits }, false)
        && recorded(mid, new, t, a.shape_of(old), seq![a.id, s.id])
}

/// Outcome of an elementwise unary operation: a node of the same shape.
pub open spec fn unary_result(old: Graph, new: Graph, a: Tensor, t: Tensor, op: Op) -> bool {
    recorded(old, new, t, a.shape_of(old), seq![a.id]) && new.nodes@[t.id as int].op == op
}

/// Outcome of an operation along `axis` that keeps the shape: refused exactly when the axis
/// does not exist.
pub open spec fn axis_result(old: Graph, new: Graph, a: Tensor, axis: usize, r: Result<Tensor, EngineError>, op: Op) -> bool {
    match r {
        Ok(t) => axis < a.shape_of(old).len() && unary_result(old, new, a, t, op),
        Err(e) => axis >= a.shape_of(old).len() && new == old
            && out_of_bounds(e, axis, a.shape_of(old).len() as usize),
    }
}

/// Outcome of a reduction along `axis`.
pub open spec fn reduce_result(old: Graph, new: Graph, a: Tensor, axis: usize, keepdim: bool, r: Result<Tensor, EngineError>, op: Op) -> bool {
    match r {
        Ok(t) => axis < a.shape_of(old).len()
            && recorded(old, new, t, reduce_spec(a.shape_of(old), axis as int, keepdim), seq![a.id])
            && new.nodes@[t.id as int].op == op,
        Err(e) => axis >= a.shape_of(old).len() && new == old
            && out_of_bounds(e, axis, a.shape_of(old).len() as usize),
    }
}

/// A tensor of shape `old` can be reshaped to `new`: both element counts are computable and equal.
pub open spec fn reshape_ok(old: Seq<usize>, new: Seq<usize>) -> bool {
    shape_fits(old) && shape_fits(new) && numel_spec(new) == numel_spec(old)
}

/// Ids of a sequence of tensors.
pub open spec fn ids_of(ts: Seq<Tensor>) -> Seq<usize> {
    Seq::new(ts.len(), |k: int| ts[k].id)
}

/// Shapes of a sequence of tensors.
pub open spec fn shapes_of(g: Graph, ts: Seq<Tensor>) -> Seq<Seq<usize>> {
    Seq::new(ts.len(), |k: int| ts[k].shape_of(g))
}

/// Shape `s` has the rank of `s0` and agrees with it on every axis but `axis`.
pub open spec fn agrees_with(s: Seq<usize>, s0: Seq<usize>, axis: int) -> bool {
    s.len() == s0.len() && forall|e: int| 0 <= e < s.len() && e != axis ==> s[e] == s0[e]
}

/// Every tensor agrees with the first one off `axis`.
pub open spec fn cat_shapes_agree(g: Graph, ts: Seq<Tensor>, axis: int) -> bool {
    forall|k: int| 0 <= k < ts.len() ==> #[trigger] agrees_with(ts[k].shape_of(g), ts[0].shape_of(g), axis)
}

/// Total length along `axis` of the first `k` tensors.
pub open spec fn cat_total(g: Graph, ts: Seq<Tensor>, axis: int, k: int) -> int
    decreases k,
{
    if k <= 0 {
        0
    } else {
        cat_total(g, ts, axis, k - 1) + ts[k - 1].shape_of(g)[axis]
    }
}

/// The tensors can be concatenated along `axis`.
pub open spec fn cat_ok(g: Graph, ts: Seq<Tensor>, axis: int) -> bool {
    &&& ts.len() > 0
    &&& 0 <= axis < ts[0].shape_of(g).len()
    &&& cat_shapes_agree(g, ts, axis)
    &&& cat_total(g, ts, axis, ts.len() as int) <= usize::MAX
}

/// Shape of the concatenation along `axis`.
pub open spec fn cat_spec(g: Graph, ts: Seq<Tensor>, axis: int) -> Seq<usize> {
    ts[0].shape_of(g).update(axis, cat_total(g, ts, axis, ts.len() as int) as usize)
}

proof fn lemma_cat_total_mono(g: Graph, ts: Seq<Tensor>, axis: int, k: int, n: int)
    requires
        0 <= k <= n,
    ensures
        cat_total(g, ts, axis, k) <= cat_total(g, ts, axis, n),
    decreases n - k,
{
    if k < n {
        lemma_cat_total_mono(g, ts, axis, k, n - 1);
    }
}

proof fn lemma_cat_total_same(g0: Graph, g1: Graph, ts: Seq<Tensor>, axis: int, k: int)
    requires
        0 <= k <= ts.len(),
        forall|m: int| 0 <= m < ts.len() ==> (#[trigger] ts[m]).shape_of(g0) == ts[m].shape_of(g1),
    ensures
        cat_total(g0, ts, axis, k) == cat_total(g1, ts, axis, k),
    decreases k,
{
    if k > 0 {
        lemma_cat_total_same(g0, g1, ts, axis, k - 1);
        assert(ts[k - 1].shape_of(g0) == ts[k - 1].shape_of(g1));
    }
}

/// Concatenation depends only on the shapes of the tensors.
pub proof fn lemma_cat_same_shapes(g0: Graph, g1: Graph, ts: Seq<Tensor>, axis: int)
    requires
        forall|m: int| 0 <= m < ts.len() ==> (#[trigger] ts[m]).shape_of(g0) == ts[m].shape_of(g1),
    ensures
        cat_ok(g0, ts, axis) == cat_ok(g1, ts, axis),
        ts.len() > 0 ==> cat_spec(g0, ts, axis) == cat_spec(g1, ts, axis),
{
    lemma_cat_total_same(g0, g1, ts, axis, ts.len() as int);
    if ts.len() > 0 {
        assert(ts[0].shape_of(g0) == ts[0].shape_of(g1));
        assert(cat_shapes_agree(g0, ts, axis) == cat_shapes_agree(g1, ts, axis)) by {
            assert forall|k: int| 0 <= k < ts.len() implies #[trigger] agrees_with(ts[k].shape_of(g0), ts[0].shape_of(g0), axis) == agrees_with(ts[k].shape_of(g1), ts[0].shape_of(g1), axis) by {
                assert(ts[k].shape_of(g0) == ts[k].shape_of(g1));
            }
        }
    }
}

proof fn lemma_cat_total_uniform(g: Graph, ts: Seq<Tensor>, axis: int, s: Seq<usize>, k: int)
    requires
        0 <= k <= ts.len(),
        0 <= axis < s.len(),
        forall|m: int| 0 <= m < ts.len() ==> (#[trigger] ts[m]).shape_of(g) == s,
    ensures
        cat_total(g, ts, axis, k) == k * s[axis],
    decreases k,
{
    if k > 0 {
        lemma_cat_total_uniform(g, ts, axis, s, k - 1);
        assert(ts[k - 1].shape_of(g) == s);
        assert(k * s[axis] == (k - 1) * s[axis] + s[axis]) by (nonlinear_arith);
        assert(cat_total(g, ts, axis, k) == cat_total(g, ts, axis, k - 1) + ts[k - 1].shape_of(g)[axis]);
    } else {
        assert(k * s[axis] == 0) by (nonlinear_arith)
            requires
                k == 0,
        ;
    }
}

/// Concatenating `n > 0` tensors of one shape `s` along an existing axis multiplies that axis
/// by `n`.
pub proof fn lemma_cat_uniform(g: Graph, ts: Seq<Tensor>, axis: int, s: Seq<usize>)
    requires
        ts.len() > 0,
        0 <= axis < s.len(),
        forall|m: int| 0 <= m < ts.len() ==> (#[trigger] ts[m]).shape_of(g) == s,
        ts.len() * s[axis] <= usize::MAX,
    ensures
        cat_ok(g, ts, axis),
        cat_spec(g, ts, axis) == s.update(axis, (ts.len() * s[axis]) as usize),
{
    lemma_cat_total_uniform(g, ts, axis, s, ts.len() as int);
    assert(ts[0].shape_of(g) == s);
    assert forall|k: int| 0 <= k < ts.len() implies #[trigger] agrees_with(ts[k].shape_of(g), ts[0].shape_of(g), axis) by {
        assert(ts[k].shape_of(g) == s);
    }
}

/// With gradient tracking off, or when no input requires a gradient, a recorded result is
/// detached: it requires no gradient and sends none back.
pub proof fn lemma_untracked_records_detached(old: Graph, new: Graph, t: Tensor, shape: Seq<usize>, inputs: Seq<usize>)
    requires
        recorded(old, new, t, shape, inputs),
        !old.grad_enabled || forall|k: int| 0 <= k < inputs.len() ==> !(#[trigger] old.nodes@[inputs[k] as int].requires_grad),
    ensures
        !new.nodes@[t.id as int].requires_grad,
        !new.nodes@[t.id as int].has_backward,
        new.nodes@[t.id as int].parents@ == Seq::<usize>::empty(),
        new.grad_enabled == old.grad_enabled,
{
}

/// A recorded result whose graph tracks gradients and one of whose inputs requires one
/// requires a gradient and sends it back to all of its inputs.
pub proof fn lemma_tracked_records_parents(old: Graph, new: Graph, t: Tensor, shape: Seq<usize>, inputs: Seq<usize>, k: int)
    requires
        recorded(old, new, t, shape, inputs),
        old.grad_enabled,
        0 <= k < inputs.len(),
        old.nodes@[inputs[k] as int].requires_grad,
    ensures
        new.nodes@[t.id as int].requires_grad,
        new.nodes@[t.id as int].parents@ == inputs,
{
}

/// Reshaping is reversible: a shape that can be reshaped to another can be reshaped back.
pub proof fn lemma_reshape_reversible(a: Seq<usize>, b: Seq<usize>)
    requires
        reshape_ok(a, b),
    ensures
        reshape_ok(b, a),
{
}

/// Two shapes can be concatenated along `axis`: the axis exists in the first, the second
/// agrees with it elsewhere and the summed length fits.
pub open spec fn cat2_ok(a: Seq<usize>, b: Seq<usize>, axis: int) -> bool {
    &&& 0 <= axis < a.len()
    &&& agrees_with(b, a, axis)
    &&& a[axis] + b[axis] <= usize::MAX
}

/// Shape of the concatenation of two shapes along `axis`.
pub open spec fn cat2_spec(a: Seq<usize>, b: Seq<usize>, axis: int) -> Seq<usize> {
    a.update(axis, (a[axis] + b[axis]) as usize)
}

/// Concatenating two tensors is concatenating their shapes.
pub proof fn lemma_cat_pair(g: Graph, x: Tensor, y: Tensor, axis: int)
    ensures
        cat_ok(g, seq![x, y], axis) == cat2_ok(x.shape_of(g), y.shape_of(g), axis),
        cat_spec(g, seq![x, y], axis) == cat2_spec(x.shape_of(g), y.shape_of(g), axis),
{
    let ts = seq![x, y];
    reveal_with_fuel(cat_total, 3);
    assert(ts[0] == x && ts[1] == y);
    assert(cat_total(g, ts, axis, 2) == x.shape_of(g)[axis] + y.shape_of(g)[axis]);
    assert(agrees_with(x.shape_of(g), x.shape_of(g), axis));
    if cat2_ok(x.shape_of(g), y.shape_of(g), axis) {
        assert forall|k: int| 0 <= k < ts.len() implies #[trigger] agrees_with(ts[k].shape_of(g), ts[0].shape_of(g), axis) by {
            if k == 0 {
                assert(ts[k] == x);
            } else {
                assert(ts[k] == y);
            }
        }
    }
    if cat_ok(g, ts, axis) {
        assert(agrees_with(ts[1].shape_of(g), ts[0].shape_of(g), axis));
    }
}

/// Shape of the optional bias of a convolution.
pub open spec fn bias_shape(g: Graph, bias: Option<&Tensor>) -> Option<Seq<usize>> {
    match bias {
        Some(b) => Some(b.shape_of(g)),
        None => None,
    }
}

/// Input `[N, C, H, W]`, weight `[O, C, KH, KW]`, bias absent or `[O]`.
pub open spec fn conv_shapes_ok(x: Seq<usize>, w: Seq<usize>, b: Option<Seq<usize>>) -> bool {
    &&& x.len() == 4
    &&& w.len() == 4
    &&& x[1] == w[1]
    &&& b matches Some(bs) ==> bs == seq![w[0]]
}

/// The kernel window fits the padded input in both spatial dimensions.
pub open spec fn conv_window_ok(x: Seq<usize>, w: Seq<usize>, p: Conv2dParams) -> bool {
    &&& conv_dim_ok(x[2] as int, w[2] as int, p.stride.0 as int, p.padding.0 as int, p.dilation.0 as int)
    &&& conv_dim_ok(x[3] as int, w[3] as int, p.stride.1 as int, p.padding.1 as int, p.dilation.1 as int)
}

/// Shape `[N, O, OH, OW]` of a convolution.
pub open spec fn conv_spec(x: Seq<usize>, w: Seq<usize>, p: Conv2dParams) -> Seq<usize> {
    seq![x[0], w[0],
        conv_dim_spec(x[2] as int, w[2] as int, p.stride.0 as int, p.padding.0 as int, p.dilation.0 as int) as usize,
        conv_dim_spec(x[3] as int, w[3] as int, p.stride.1 as int, p.padding.1 as int, p.dilation.1 as int) as usize]
}

/// Max pooling of a 4D input with a window that fits.
pub open spec fn pool_ok(x: Seq<usize>, k: (usize, usize), st: (usize, usize)) -> bool {
    &&& x.len() == 4
    &&& pool_dim_ok(x[2] as int, k.0 as int, st.0 as int)
    &&& pool_dim_ok(x[3] as int, k.1 as int, st.1 as int)
}

/// Shape `[N, C, OH, OW]` of a max pooling.
pub open spec fn pool_spec(x: Seq<usize>, k: (usize, usize), st: (usize, usize)) -> Seq<usize> {
    seq![x[0], x[1], pool_dim_spec(x[2] as int, k.0 as int, st.0 as int) as usize,
        pool_dim_spec(x[3] as int, k.1 as int, st.1 as int) as usize]
}

fn incompatible_error(name: &'static str, a: &[usize], b: &[usize]) -> (e: EngineError)
    ensures
        incompatible(e, name, seq![a@, b@]),
{
    let mut shapes: Vec<Vec<usize>> = Vec::new();
    shapes.push(shape_vec(a));
    shapes.push(shape_vec(b));
    EngineError::IncompatibleShapes { op: name, shapes }
}

fn incompatible_error1(name: &'static str, a: &[usize]) -> (e: EngineError)
    ensures
        incompatible(e, name, seq![a@]),
{
    let mut shapes: Vec<Vec<usize>> = Vec::new();
    shapes.push(shape_vec(a));
    EngineError::IncompatibleShapes { op: name, shapes }
}

/// Records a node of shape `shape` computed by `op` from `inputs`.
fn record(g: &mut Graph, shape: Vec<usize>, op: Op, inputs: Vec<usize>) -> (t: Tensor)
    requires
        old(g).wf(),
        forall|k: int| 0 <= k < inputs@.len() ==> #[trigger] inputs@[k] < old(g).nodes@.len(),
    ensures
        recorded(*old(g), *final(g), t, shape@, inputs@),
        final(g).nodes@[t.id as int].op == op,
{
    let mut req: Vec<bool> = Vec::with_capacity(inputs.len());
    let mut any = false;
    let mut k: usize = 0;
    while k < inputs.len()
        invariant
            g.wf(),
            forall|j: int| 0 <= j < inputs@.len() ==> #[trigger] inputs@[j] < g.nodes@.len(),
            k <= inputs@.len(),
            req@ == req_flags(*g, inputs@).subrange(0, k as int),
            any == (exists|j: int| 0 <= j < k && #[trigger] g.nodes@[inputs@[j] as int].requires_grad),
        decreases inputs.len() - k,
    {
        let r = g.nodes[inputs[k]].requires_grad;
        req.push(r);
        if r {
            any = true;
        }
        k = k + 1;
        assert(req@ =~= req_flags(*g, inputs@).subrange(0, k as int));
    }
    assert(req@ =~= req_flags(*g, inputs@));
    let id = g.nodes.len();
    let ghost g0 = *g;
    let ghost ins = inputs@;
    assert(any == (exists|j: int| 0 <= j < ins.len() && #[trigger] g0.nodes@[ins[j] as int].requires_grad));
    if g.grad_enabled && any {
        let node = TensorInner::with_parents(g, shape, op, inputs, req);
        g.push_node(node);
    } else {
        let node = TensorInner::detached(id, shape, op, inputs);
        g.push_node(node);
    }
    assert(g0.extended_by(*g));
    assert(g.nodes@[id as int].requires_grad == grad_flows(g0, ins));
    assert(g0 == *old(g));
    assert(g.nodes@[id as int].parents@ == (if grad_flows(g0, ins) { ins } else { Seq::<usize>::empty() }));
    assert(g.nodes@[id as int].parent_req@ == (if grad_flows(g0, ins) { req_flags(g0, ins) } else { Seq::<bool>::empty() }));
    assert(g.wf());
    Tensor { id }
}

impl Tensor {
    /// The tensor names a node of `g`.
    pub open spec fn valid(self, g: Graph) -> bool {
        self.id < g.nodes@.len()
    }

    /// Shape of the tensor in `g`.
    pub open spec fn shape_of(self, g: Graph) -> Seq<usize> {
        g.nodes@[self.id as int].shape@
    }

    /// Whether the tensor requires a gradient in `g`.
    pub open spec fn rg(self, g: Graph) -> bool {
        g.nodes@[self.id as int].requires_grad
    }

    // --- Creation ---

    /// Records a leaf tensor of the given shape made by `init`.
    pub fn leaf(g: &mut Graph, shape: &[usize], init: LeafInit, requires_grad: bool) -> (t: Tensor)
        requires
            old(g).wf(),
        ensures
            leaf_recorded(*old(g), *final(g), t, shape@, init, requires_grad),
    {
        let id = g.nodes.len();
        let node = TensorInner::new(id, shape_vec(shape), init, requires_grad);
        g.push_node(node);
        Tensor { id }
    }

    /// Creates a leaf tensor whose values are supplied by the caller.
    pub fn new(g: &mut Graph, shape: &[usize], requires_grad: bool) -> (t: Tensor)
        requires
            old(g).wf(),
        ensures
            leaf_recorded(*old(g), *final(g), t, shape@, LeafInit::Data, requires_grad),
    {
        Self::leaf(g, shape, LeafInit::Data, requires_grad)
    }

    /// Creates a tensor of zeros.
    pub fn zeros(g: &mut Graph, shape: &[usize], requires_grad: bool) -> (t: Tensor)
        requires
            old(g).wf(),
        ensures
            leaf_recorded(*old(g), *final(g), t, shape@, LeafInit::Zeros, requires_grad),
    {
        Self::leaf(g, shape, LeafInit::Zeros, requires_grad)
    }

    /// Creates a tensor of ones.
    pub fn ones(g: &mut Graph, shape: &[usize], requires_grad: bool) -> (t: Tensor)
        requires
            old(g).wf(),
        ensures
            leaf_recorded(*old(g), *final(g), t, shape@, LeafInit::Ones, requires_grad),
    {
        Self::leaf(g, shape, LeafInit::Ones, requires_grad)
    }

    /// Creates a tensor with Kaiming uniform values for the given fan-in.
    pub fn kaiming_uniform(g: &mut Graph, shape: &[usize], fan_in: usize, requires_grad: bool) -> (t: Tensor)
        requires
            old(g).wf(),
        ensures
            leaf_recorded(*old(g), *final(g), t, shape@, LeafInit::KaimingUniform { fan_in }, requires_grad),
    {
        Self::leaf(g, shape, LeafInit::KaimingUniform { fan_in }, requires_grad)
    }

    /// Creates a tensor with Kaiming normal values for the given fan-in.
    pub fn kaiming_normal(g: &mut Graph, shape: &[usize], fan_in: usize, requires_grad: bool) -> (t: Tensor)
        requires
            old(g).wf(),
        ensures
            leaf_recorded(*old(g), *final(g), t, shape@, LeafInit::KaimingNormal { fan_in }, requires_grad),
    {
        Self::leaf(g, shape, LeafInit::KaimingNormal { fan_in }, requires_grad)
    }

    /// Creates a tensor with Xavier uniform values for the given fans.
    pub fn xavier_uniform(g: &mut Graph, shape: &[usize], fan_in: usize, fan_out: usize, requires_grad: bool) -> (t: Tensor)
        requires
            old(g).wf(),
        ensures
            leaf_recorded(*old(g), *final(g), t, shape@, LeafInit::XavierUniform { fan_in, fan_out }, requires_grad),
    {
        Self::leaf(g, shape, LeafInit::XavierUniform { fan_in, fan_out }, requires_grad)
    }

    /// Creates a tensor with Xavier normal values for the given fans.
    pub fn xavier_normal(g: &mut Graph, shape: &[usize], fan_in: usize, fan_out: usize, requires_grad: bool) -> (t: Tensor)
        requires
            old(g).wf(),
        ensures
            leaf_recorded(*old(g), *final(g), t, shape@, LeafInit::XavierNormal { fan_in, fan_out }, requires_grad),
    {
        Self::leaf(g, shape, LeafInit::XavierNormal { fan_in, fan_out }, requires_grad)
    }

    /// Creates a scalar (shape `[]`) holding the `f32` whose bit pattern is `bits`.
    pub fn scalar(g: &mut Graph, bits: u32, requires_grad: bool) -> (t: Tensor)
        requires
            old(g).wf(),
        ensures
            leaf_recorded(*old(g), *final(g), t, Seq::<usize>::empty(), LeafInit::Constant { bits }, requires_grad),
    {
        let empty: Vec<usize> = Vec::new();
        assert(empty@ =~= Seq::<usize>::empty());
        Self::leaf(g, empty.as_slice(), LeafInit::Constant { bits }, requires_grad)
    }

    /// Creates a tensor of normal values with the given mean and standard deviation
    /// (`f32` bit patterns).
    pub fn randn(g: &mut Graph, shape: &[usize], mean_bits: u32, std_bits: u32, requires_grad: bool) -> (t: Tensor)
        requires
            old(g).wf(),
        ensures
            leaf_recorded(*old(g), *final(g), t, shape@, LeafInit::Normal { mean_bits, std_bits }, requires_grad),
    {
        Self::leaf(g, shape, LeafInit::Normal { mean_bits, std_bits }, requires_grad)
    }

    /// Creates a tensor of uniform values in `[low, high)` (`f32` bit patterns).
    pub fn uniform(g: &mut Graph, shape: &[usize], low_bits: u32, high_bits: u32, requires_grad: bool) -> (t: Tensor)
        requires
            old(g).wf(),
        ensures
            leaf_recorded(*old(g), *final(g), t, shape@, LeafInit::Uniform { low_bits, high_bits }, requires_grad),
    {
        Self::leaf(g, shape, LeafInit::Uniform { low_bits, high_bits }, requires_grad)
    }

    // --- State and accessors ---

    /// Shape of the accumulated gradient, if any.
    pub fn grad(&self, g: &Graph) -> (r: Option<Vec<usize>>)
        requires
            self.valid(*g),
        ensures
            r is Some <==> g.nodes@[self.id as int].grad is Some,
            r matches Some(v) ==> (g.nodes@[self.id as int].grad matches Some(e) && v@ == e@),
    {
        match &g.nodes[self.id].grad {
            Some(e) => Some(shape_vec(e.as_slice())),
            None => None,
        }
    }

    /// Resets the accumulated gradient to none.
    pub fn zero_grad(&self, g: &mut Graph)
        requires
            old(g).wf(),
            self.valid(*old(g)),
        ensures
            final(g).wf(),
            final(g).grad_enabled == old(g).grad_enabled,
            final(g).buffers == old(g).buffers,
            final(g).nodes@ == old(g).nodes@.update(self.id as int, (TensorInner { grad: None, ..old(g).nodes@[self.id as int] })),
    {
        self.set_grad(g, None);
    }

    /// Overwrites the accumulated gradient with one of the given shape.
    pub fn set_grad(&self, g: &mut Graph, grad: Option<Vec<usize>>)
        requires
            old(g).wf(),
            self.valid(*old(g)),
        ensures
            final(g).wf(),
            final(g).grad_enabled == old(g).grad_enabled,
            final(g).buffers == old(g).buffers,
            final(g).nodes@ == old(g).nodes@.update(self.id as int, (TensorInner { grad: grad, ..old(g).nodes@[self.id as int] })),
    {
        g.nodes[self.id].grad = grad;
        assert forall|i: int| 0 <= i < g.nodes@.len() implies node_wf(#[trigger] g.nodes@[i], i) by {
            if i != self.id {
                assert(g.nodes@[i] == old(g).nodes@[i]);
            }
        }
    }

    /// Whether the tensor requires a gradient.
    pub fn requires_grad(&self, g: &Graph) -> (r: bool)
        requires
            self.valid(*g),
        ensures
            r == self.rg(*g),
    {
        g.nodes[self.id].requires_grad
    }

    /// Sets whether the tensor requires a gradient.
    pub fn set_requires_grad(&self, g: &mut Graph, requires_grad: bool)
        requires
            old(g).wf(),
            self.valid(*old(g)),
        ensures
            final(g).wf(),
            final(g).grad_enabled == old(g).grad_enabled,
            final(g).nodes@ == old(g).nodes@.update(self.id as int, (TensorInner { requires_grad: requires_grad, ..old(g).nodes@[self.id as int] })),
    {
        g.nodes[self.id].requires_grad = requires_grad;
        assert forall|i: int| 0 <= i < g.nodes@.len() implies node_wf(#[trigger] g.nodes@[i], i) by {
            if i != self.id {
                assert(g.nodes@[i] == old(g).nodes@[i]);
            }
        }
    }

    /// Replaces the tensor's values by ones made by `init`, of shape `shape`: the node becomes
    /// a leaf value that reads no other node, and keeps its gradient bookkeeping (parents,
    /// whether it requires a gradient, its backward step and its stored gradient).
    pub fn reinit(&self, g: &mut Graph, shape: &[usize], init: LeafInit)
        requires
            old(g).wf(),
            self.valid(*old(g)),
        ensures
            final(g).wf(),
            final(g).grad_enabled == old(g).grad_enabled,
            final(g).buffers == old(g).buffers,
            final(g).nodes@.len() == old(g).nodes@.len(),
            forall|j: int| 0 <= j < old(g).nodes@.len() && j != self.id ==> #[trigger] final(g).nodes@[j] == old(g).nodes@[j],
            final(g).nodes@[self.id as int].shape@ == shape@,
            final(g).nodes@[self.id as int].op == Op::Leaf(init),
            final(g).nodes@[self.id as int].inputs@ == Seq::<usize>::empty(),
            final(g).nodes@[self.id as int].id == old(g).nodes@[self.id as int].id,
            final(g).nodes@[self.id as int].parents == old(g).nodes@[self.id as int].parents,
            final(g).nodes@[self.id as int].parent_req == old(g).nodes@[self.id as int].parent_req,
            final(g).nodes@[self.id as int].requires_grad == old(g).nodes@[self.id as int].requires_grad,
            final(g).nodes@[self.id as int].has_backward == old(g).nodes@[self.id as int].has_backward,
            final(g).nodes@[self.id as int].grad == old(g).nodes@[self.id as int].grad,
    {
        g.nodes[self.id].shape = shape_vec(shape);
        g.nodes[self.id].op = Op::Leaf(init);
        g.nodes[self.id].inputs = Vec::new();
        assert forall|i: int| 0 <= i < g.nodes@.len() implies node_wf(#[trigger] g.nodes@[i], i) by {
            if i != self.id {
                assert(g.nodes@[i] == old(g).nodes@[i]);
            }
        }
    }

    /// Replaces the tensor's values by values of shape `shape` supplied by the caller (see
    /// [`Tensor::reinit`]).
    pub fn set_data(&self, g: &mut Graph, shape: &[usize])
        requires
            old(g).wf(),
            self.valid(*old(g)),
        ensures
            final(g).wf(),
            final(g).grad_enabled == old(g).grad_enabled,
            final(g).buffers == old(g).buffers,
            final(g).nodes@.len() == old(g).nodes@.len(),
            forall|j: int| 0 <= j < old(g).nodes@.len() && j != self.id ==> #[trigger] final(g).nodes@[j] == old(g).nodes@[j],
            final(g).nodes@[self.id as int].shape@ == shape@,
            final(g).nodes@[self.id as int].op == Op::Leaf(LeafInit::Data),
            final(g).nodes@[self.id as int].inputs@ == Seq::<usize>::empty(),
            final(g).nodes@[self.id as int].parents == old(g).nodes@[self.id as int].parents,
            final(g).nodes@[self.id as int].requires_grad == old(g).nodes@[self.id as int].requires_grad,
            final(g).nodes@[self.id as int].grad == old(g).nodes@[self.id as int].grad,
    {
        self.reinit(g, shape, LeafInit::Data)
    }

    /// Shape of the tensor.
    pub fn shape(&self, g: &Graph) -> (r: Vec<usize>)
        requires
            self.valid(*g),
        ensures
            r@ == self.shape_of(*g),
    {
        shape_vec(g.nodes[self.id].shape.as_slice())
    }

    /// Number of dimensions.
    pub fn ndim(&self, g: &Graph) -> (r: usize)
        requires
            self.valid(*g),
        ensures
            r == self.shape_of(*g).len(),
    {
        g.nodes[self.id].shape.len()
    }

    /// Number of elements.
    pub fn numel(&self, g: &Graph) -> (r: usize)
        requires
            self.valid(*g),
            shape_fits(self.shape_of(*g)),
        ensures
            r == numel_spec(self.shape_of(*g)),
    {
        numel(g.nodes[self.id].shape.as_slice())
    }

    // --- Elementwise arithmetic with broadcasting ---

    fn binary(&self, g: &mut Graph, other: &Tensor, op: Op, name: &'static str) -> (r: Result<Tensor, EngineError>)
        requires
            old(g).wf(),
            self.valid(*old(g)),
            other.valid(*old(g)),
        ensures
            binary_result(*old(g), *final(g), *self, *other, r, op, name),
    {
        let a = g.nodes[self.id].shape.as_slice();
        let b = g.nodes[other.id].shape.as_slice();
        match broadcast_shapes(a, b) {
            Some(out) => {
                let mut inputs: Vec<usize> = Vec::new();
                inputs.push(self.id);
                inputs.push(other.id);
                let t = record(g, out, op, inputs);
                assert(inputs@ =~= seq![self.id, other.id]);
                Ok(t)
            },
            None => Err(incompatible_error(name, a, b)),
        }
    }

    /// Elementwise addition with broadcasting.
    pub fn add(&self, g: &mut Graph, other: &Tensor) -> (r: Result<Tensor, EngineError>)
        requires
            old(g).wf(),
            self.valid(*old(g)),
            other.valid(*old(g)),
        ensures
            binary_result(*old(g), *final(g), *self, *other, r, Op::Add, "add"),
    {
        self.binary(g, other, Op::Add, "add")
    }

    /// Elementwise subtraction with broadcasting.
    pub fn sub(&self, g: &mut Graph, other: &Tensor) -> (r: Result<Tensor, EngineError>)
        requires
            old(g).wf(),
            self.valid(*old(g)),
            other.valid(*old(g)),
        ensures
            binary_result(*old(g), *final(g), *self, *other, r, Op::Sub, "sub"),
    {
        self.binary(g, other, Op::Sub, "sub")
    }

    /// Elementwise (Hadamard) product with broadcasting.
    pub fn mul(&self, g: &mut Graph, other: &Tensor) -> (r: Result<Tensor, EngineError>)
        requires
            old(g).wf(),
            self.valid(*old(g)),
            other.valid(*old(g)),
        ensures
            binary_result(*old(g), *final(g), *self, *other, r, Op::Mul, "mul"),
    {
        self.binary(g, other, Op::Mul, "mul")
    }

    /// Elementwise division with broadcasting.
    pub fn div(&self, g: &mut Graph, other: &Tensor) -> (r: Result<Tensor, EngineError>)
        requires
            old(g).wf(),
            self.valid(*old(g)),
            other.valid(*old(g)),
        ensures
            binary_result(*old(g), *final(g), *self, *other, r, Op::Div, "div"),
    {
        self.binary(g, other, Op::Div, "div")
    }

    fn with_scalar(&self, g: &mut Graph, bits: u32, op: Op, name: &'static str) -> (r: Result<Tensor, EngineError>)
        requires
            old(g).wf(),
            self.valid(*old(g)),
        ensures
            r matches Ok(t) && scalar_result(*old(g), *final(g), *self, t, op, bits),
    {
        let ghost g0 = *g;
        let s = Tensor::scalar(g, bits, false);
        let ghost mid = *g;
        proof {
            lemma_broadcast_scalar(self.shape_of(g0));
        }
        let r = self.binary(g, &s, op, name);
        proof {
            assert(self.shape_of(mid) == self.shape_of(g0));
            assert(s.shape_of(mid) =~= Seq::<usize>::empty());
            assert(r is Ok);
            g0.lemma_extended_trans(mid, *g);
            let t = r->Ok_0;
            assert(s == Tensor { id: g0.nodes@.len() as usize });
            assert(leaf_recorded(g0, mid, s, Seq::<usize>::empty(), LeafInit::Constant { bits }, false));
            assert(recorded(mid, *g, t, self.shape_of(g0), seq![self.id, s.id]));
        }
        r
    }

    /// Adds the scalar whose `f32` bit pattern is `bits` to every entry.
    pub fn add_scalar(&self, g: &mut Graph, bits: u32) -> (r: Result<Tensor, EngineError>)
        requires
            old(g).wf(),
            self.valid(*old(g)),
        ensures
            r matches Ok(t) && scalar_result(*old(g), *final(g), *self, t, Op::Add, bits),
    {
        self.with_scalar(g, bits, Op::Add, "add")
    }

    /// Multiplies every entry by the scalar whose `f32` bit pattern is `bits`.
    pub fn mul_scalar(&self, g: &mut Graph, bits: u32) -> (r: Result<Tensor, EngineError>)
        requires
            old(g).wf(),
            self.valid(*old(g)),
        ensures
            r matches Ok(t) && scalar_result(*old(g), *final(g), *self, t, Op::Mul, bits),
    {
        self.with_scalar(g, bits, Op::Mul, "mul")
    }

    /// Divides every entry by the scalar whose `f32` bit pattern is `bits`.
    pub fn div_scalar(&self, g: &mut Graph, bits: u32) -> (r: Result<Tensor, EngineError>)
        requires
            old(g).wf(),
            self.valid(*old(g)),
        ensures
            r matches Ok(t) && scalar_result(*old(g), *final(g), *self, t, Op::Div, bits),
    {
        self.with_scalar(g, bits, Op::Div, "div")
    }

    /// The exponential moving average `(1 - m) * self + m * other` (broadcast), with `m` the
    /// `f32` whose bit pattern is `momentum_bits`, recorded as a node that never sends
    /// gradients back: it updates statistics and is not part of differentiation.
    pub fn moving_average(&self, g: &mut Graph, other: &Tensor, momentum_bits: u32) -> (r: Result<Tensor, EngineError>)
        requires
            old(g).wf(),
            self.valid(*old(g)),
            other.valid(*old(g)),
        ensures
            match r {
                Ok(t) => broadcastable(self.shape_of(*old(g)), other.shape_of(*old(g)))
                    && final(g).wf()
                    && old(g).extended_by(*final(g))
                    && final(g).buffers == old(g).buffers
                    && final(g).nodes@.len() == old(g).nodes@.len() + 1
                    && t.id == old(g).nodes@.len()
                    && t.shape_of(*final(g)) == broadcast_spec(self.shape_of(*old(g)), other.shape_of(*old(g)))
                    && final(g).nodes@[t.id as int].op == Op::MovingAverage { momentum_bits }
                    && final(g).nodes@[t.id as int].inputs@ == seq![self.id, other.id]
                    && final(g).nodes@[t.id as int].parents@ == Seq::<usize>::empty()
                    && !final(g).nodes@[t.id as int].requires_grad
                    && final(g).nodes@[t.id as int].grad is None,
                Err(e) => !broadcastable(self.shape_of(*old(g)), other.shape_of(*old(g))) && *final(g) == *old(g)
                    && incompatible(e, "add", seq![self.shape_of(*old(g)), other.shape_of(*old(g))]),
            },
    {
        let a = g.nodes[self.id].shape.as_slice();
        let b = g.nodes[other.id].shape.as_slice();
        match broadcast_shapes(a, b) {
            Some(out) => {
                let mut inputs: Vec<usize> = Vec::new();
                inputs.push(self.id);
                inputs.push(other.id);
                let id = g.nodes.len();
                let node = TensorInner::detached(id, out, Op::MovingAverage { momentum_bits }, inputs);
                g.push_node(node);
                assert(inputs@ =~= seq![self.id, other.id]);
                Ok(Tensor { id })
            },
            None => Err(incompatible_error("add", a, b)),
        }
    }

    /// The scalar `count * c`, `c` the `f32` whose bit pattern is `coeff_bits`, as a leaf that
    /// requires no gradient.
    pub fn scaled_count(g: &mut Graph, coeff_bits: u32, count: usize) -> (t: Tensor)
        requires
            old(g).wf(),
        ensures
            leaf_recorded(*old(g), *final(g), t, Seq::<usize>::empty(), LeafInit::ScaledCount { coeff_bits, count }, false),
    {
        let empty: Vec<usize> = Vec::new();
        assert(empty@ =~= Seq::<usize>::empty());
        Self::leaf(g, empty.as_slice(), LeafInit::ScaledCount { coeff_bits, count }, false)
    }

    /// For routing weights `self` of shape `[..., k]` and the experts `indices` each row
    /// selected (same shape), the column `[rows, 1]` of the weight each row gives to `expert`
    /// (0 where it did not select it), `rows` being the product of the leading dimensions. The
    /// column is a new node that reads both inputs, sends no gradient back to them, and
    /// requires a gradient exactly when the weights do. Scalar weights, or indices of another
    /// shape, are refused with `IncompatibleShapes`.
    pub fn expert_gate(&self, g: &mut Graph, indices: &Tensor, expert: usize) -> (r: Result<Tensor, EngineError>)
        requires
            old(g).wf(),
            self.valid(*old(g)),
            indices.valid(*old(g)),
            self.shape_of(*old(g)).len() >= 1 ==> shape_fits(self.shape_of(*old(g)).drop_last()),
        ensures
            match r {
                Ok(t) => self.shape_of(*old(g)).len() >= 1
                    && indices.shape_of(*old(g)) == self.shape_of(*old(g))
                    && final(g).wf()
                    && old(g).extended_by(*final(g))
                    && final(g).buffers == old(g).buffers
                    && final(g).nodes@.len() == old(g).nodes@.len() + 1
                    && t.id == old(g).nodes@.len()
                    && t.shape_of(*final(g)) == seq![numel_spec(self.shape_of(*old(g)).drop_last()) as usize, 1usize]
                    && final(g).nodes@[t.id as int].op == (Op::ExpertGate { expert })
                    && final(g).nodes@[t.id as int].inputs@ == seq![self.id, indices.id]
                    && final(g).nodes@[t.id as int].parents@ == Seq::<usize>::empty()
                    && final(g).nodes@[t.id as int].requires_grad == self.rg(*old(g))
                    && !final(g).nodes@[t.id as int].has_backward
                    && final(g).nodes@[t.id as int].grad is None,
                Err(e) => !(self.shape_of(*old(g)).len() >= 1 && indices.shape_of(*old(g)) == self.shape_of(*old(g)))
                    && *final(g) == *old(g)
                    && incompatible(e, "expert_gate", seq![self.shape_of(*old(g)), indices.shape_of(*old(g))]),
            },
    {
        let w = g.nodes[self.id].shape.as_slice();
        let ix = g.nodes[indices.id].shape.as_slice();
        let mut same = w.len() >= 1 && w.len() == ix.len();
        let mut i: usize = 0;
        while same && i < w.len()
            invariant
                same ==> w@.len() == ix@.len() && w@.len() >= 1,
                i <= w@.len(),
                same ==> forall|j: int| 0 <= j < i ==> w@[j] == ix@[j],
                !same ==> !(w@.len() >= 1 && ix@ == w@),
            decreases w@.len() - i,
        {
            if w[i] != ix[i] {
                same = false;
            }
            i = i + 1;
        }
        if !same {
            return Err(incompatible_error("expert_gate", w, ix));
        }
        assert(ix@ =~= w@);
        let ghost ws = w@;
        let mut lead = shape_vec(w);
        lead.pop();
        assert(lead@ =~= ws.drop_last());
        let rows = numel(lead.as_slice());
        assert(rows == numel_spec(ws.drop_last()));
        let mut out: Vec<usize> = Vec::new();
        out.push(rows);
        out.push(1);
        let mut inputs: Vec<usize> = Vec::new();
        inputs.push(self.id);
        inputs.push(indices.id);
        let requires_grad = g.nodes[self.id].requires_grad;
        let id = g.nodes.len();
        let node = TensorInner {
            id,
            shape: out,
            op: Op::ExpertGate { expert },
            inputs,
            parents: Vec::new(),
            parent_req: Vec::new(),
            requires_grad,
            has_backward: false,
            grad: None,
        };
        assert(node.inputs@ =~= seq![self.id, indices.id]);
        assert(node.shape@ =~= seq![rows, 1usize]);
        g.push_node(node);
        Ok(Tensor { id })
    }

    /// For the selected experts `self` (any shape), the fraction of all selections that chose
    /// each of `num_experts` experts, shape `[num_experts]`, as a node that is never
    /// differentiated.
    pub fn expert_load(&self, g: &mut Graph, num_experts: usize) -> (t: Tensor)
        requires
            old(g).wf(),
            self.valid(*old(g)),
        ensures
            final(g).wf(),
            old(g).extended_by(*final(g)),
            final(g).buffers == old(g).buffers,
            final(g).nodes@.len() == old(g).nodes@.len() + 1,
            t.id == old(g).nodes@.len(),
            t.shape_of(*final(g)) == seq![num_experts],
            final(g).nodes@[t.id as int].op == (Op::ExpertLoad { num_experts }),
            final(g).nodes@[t.id as int].inputs@ == seq![self.id],
            final(g).nodes@[t.id as int].parents@ == Seq::<usize>::empty(),
            !final(g).nodes@[t.id as int].requires_grad,
            final(g).nodes@[t.id as int].grad is None,
    {
        let mut out: Vec<usize> = Vec::new();
        out.push(num_experts);
        let mut inputs: Vec<usize> = Vec::new();
        inputs.push(self.id);
        let id = g.nodes.len();
        let node = TensorInner::detached(id, out, Op::ExpertLoad { num_experts }, inputs);
        assert(node.inputs@ =~= seq![self.id]);
        assert(node.shape@ =~= seq![num_experts]);
        g.push_node(node);
        Tensor { id }
    }

    // --- Elementwise functions ---

    fn unary(&self, g: &mut Graph, op: Op) -> (t: Tensor)
        requires
            old(g).wf(),
            self.valid(*old(g)),
        ensures
            unary_result(*old(g), *final(g), *self, t, op),
    {
        let out = shape_vec(g.nodes[self.id].shape.as_slice());
        let mut inputs: Vec<usize> = Vec::new();
        inputs.push(self.id);
        let t = record(g, out, op, inputs);
        assert(inputs@ =~= seq![self.id]);
        t
    }

    /// Elementwise negation.
    pub fn neg(&self, g: &mut Graph) -> (t: Tensor)
        requires
            old(g).wf(),
            self.valid(*old(g)),
        ensures
            unary_result(*old(g), *final(g), *self, t, Op::Neg),
    {
        self.unary(g, Op::Neg)
    }

    /// Elementwise natural exponential.
    pub fn exp(&self, g: &mut Graph) -> (r: Result<Tensor, EngineError>)
        requires
            old(g).wf(),
            self.valid(*old(g)),
        ensures
            r matches Ok(t) && unary_result(*old(g), *final(g), *self, t, Op::Exp),
    {
        Ok(self.unary(g, Op::Exp))
    }

    /// Elementwise natural logarithm.
    pub fn log(&self, g: &mut Graph) -> (r: Result<Tensor, EngineError>)
        requires
            old(g).wf(),
            self.valid(*old(g)),
        ensures
            r matches Ok(t) && unary_result(*old(g), *final(g), *self, t, Op::Log),
    {
        Ok(self.unary(g, Op::Log))
    }

    /// Elementwise square root.
    pub fn sqrt(&self, g: &mut Graph) -> (r: Result<Tensor, EngineError>)
        requires
            old(g).wf(),
            self.valid(*old(g)),
        ensures
            r matches Ok(t) && unary_result(*old(g), *final(g), *self, t, Op::Sqrt),
    {
        Ok(self.unary(g, Op::Sqrt))
    }

    /// Each entry raised to the `f32` power whose bit pattern is `exponent_bits`.
    pub fn powf(&self, g: &mut Graph, exponent_bits: u32) -> (r: Result<Tensor, EngineError>)
        requires
            old(g).wf(),
            self.valid(*old(g)),
        ensures
            r matches Ok(t) && unary_result(*old(g), *final(g), *self, t, Op::Powf { exponent_bits }),
    {
        Ok(self.unary(g, Op::Powf { exponent_bits }))
    }

    /// Leaky ReLU: entries above zero pass, the rest are scaled by the negative slope whose
    /// `f32` bit pattern is `slope_bits`.
    pub fn leaky_relu(&self, g: &mut Graph, slope_bits: u32) -> (r: Result<Tensor, EngineError>)
        requires
            old(g).wf(),
            self.valid(*old(g)),
        ensures
            r matches Ok(t) && unary_result(*old(g), *final(g), *self, t, Op::LeakyRelu { slope_bits }),
    {
        Ok(self.unary(g, Op::LeakyRelu { slope_bits }))
    }

    /// Elementwise square (power with exponent 2).
    pub fn square(&self, g: &mut Graph) -> (r: Result<Tensor, EngineError>)
        requires
            old(g).wf(),
            self.valid(*old(g)),
        ensures
            r matches Ok(t) && unary_result(*old(g), *final(g), *self, t, Op::Square),
    {
        Ok(self.unary(g, Op::Square))
    }

    /// Elementwise hyperbolic tangent.
    pub fn tanh(&self, g: &mut Graph) -> (r: Result<Tensor, EngineError>)
        requires
            old(g).wf(),
            self.valid(*old(g)),
        ensures
            r matches Ok(t) && unary_result(*old(g), *final(g), *self, t, Op::Tanh),
    {
        Ok(self.unary(g, Op::Tanh))
    }

    /// Elementwise logistic sigmoid.
    pub fn sigmoid(&self, g: &mut Graph) -> (r: Result<Tensor, EngineError>)
        requires
            old(g).wf(),
            self.valid(*old(g)),
        ensures
            r matches Ok(t) && unary_result(*old(g), *final(g), *self, t, Op::Sigmoid),
    {
        Ok(self.unary(g, Op::Sigmoid))
    }

    /// Elementwise rectified linear unit.
    pub fn relu(&self, g: &mut Graph) -> (r: Result<Tensor, EngineError>)
        requires
            old(g).wf(),
            self.valid(*old(g)),
        ensures
            r matches Ok(t) && unary_result(*old(g), *final(g), *self, t, Op::Relu),
    {
        Ok(self.unary(g, Op::Relu))
    }

    /// Elementwise Gaussian error linear unit (tanh approximation).
    pub fn gelu(&self, g: &mut Graph) -> (r: Result<Tensor, EngineError>)
        requires
            old(g).wf(),
            self.valid(*old(g)),
        ensures
            r matches Ok(t) && unary_result(*old(g), *final(g), *self, t, Op::Gelu),
    {
        Ok(self.unary(g, Op::Gelu))
    }

    /// Elementwise sigmoid linear unit `x * sigmoid(x)`.
    pub fn silu(&self, g: &mut Graph) -> (r: Result<Tensor, EngineError>)
        requires
            old(g).wf(),
            self.valid(*old(g)),
        ensures
            r matches Ok(t) && unary_result(*old(g), *final(g), *self, t, Op::Silu),
    {
        Ok(self.unary(g, Op::Silu))
    }

    /// Elementwise absolute value.
    pub fn abs(&self, g: &mut Graph) -> (r: Result<Tensor, EngineError>)
        requires
            old(g).wf(),
            self.valid(*old(g)),
        ensures
            r matches Ok(t) && unary_result(*old(g), *final(g), *self, t, Op::Abs),
    {
        Ok(self.unary(g, Op::Abs))
    }

    /// Log-softmax along `axis`.
    pub fn log_softmax(&self, g: &mut Graph, axis: usize) -> (r: Result<Tensor, EngineError>)
        requires
            old(g).wf(),
            self.valid(*old(g)),
        ensures
            axis_result(*old(g), *final(g), *self, axis, r, Op::LogSoftmax { axis }),
    {
        let n = g.nodes[self.id].shape.len();
        if axis >= n {
            return Err(EngineError::DimensionOutOfBounds { axis, ndim: n });
        }
        Ok(self.unary(g, Op::LogSoftmax { axis }))
    }

    /// Softmax along `axis`.
    pub fn softmax(&self, g: &mut Graph, axis: usize) -> (r: Result<Tensor, EngineError>)
        requires
            old(g).wf(),
            self.valid(*old(g)),
        ensures
            axis_result(*old(g), *final(g), *self, axis, r, Op::Softmax { axis }),
    {
        let n = g.nodes[self.id].shape.len();
        if axis >= n {
            return Err(EngineError::DimensionOutOfBounds { axis, ndim: n });
        }
        Ok(self.unary(g, Op::Softmax { axis }))
    }

    // --- Matrix products ---

    /// Matrix product `self @ other` with broadcast batch dimensions.
    pub fn matmul(&self, g: &mut Graph, other: &Tensor) -> (r: Result<Tensor, EngineError>)
        requires
            old(g).wf(),
            self.valid(*old(g)),
            other.valid(*old(g)),
        ensures
            match r {
                Ok(t) => matmul_ok(self.shape_of(*old(g)), other.shape_of(*old(g)))
                    && recorded(*old(g), *final(g), t, matmul_spec(self.shape_of(*old(g)), other.shape_of(*old(g))), seq![self.id, other.id])
                    && final(g).nodes@[t.id as int].op == Op::MatMul,
                Err(e) => !matmul_ok(self.shape_of(*old(g)), other.shape_of(*old(g)))
                    && *final(g) == *old(g)
                    && incompatible(e, "matmul", seq![self.shape_of(*old(g)), other.shape_of(*old(g))]),
            },
    {
        let a = g.nodes[self.id].shape.as_slice();
        let b = g.nodes[other.id].shape.as_slice();
        match matmul_shape(a, b, false) {
            Some(out) => {
                let mut inputs: Vec<usize> = Vec::new();
                inputs.push(self.id);
                inputs.push(other.id);
                let t = record(g, out, Op::MatMul, inputs);
                assert(inputs@ =~= seq![self.id, other.id]);
                Ok(t)
            },
            None => Err(incompatible_error("matmul", a, b)),
        }
    }

    /// Matrix product `self @ other^T` with broadcast batch dimensions, without forming the
    /// transpose.
    pub fn matmul_transposed_b(&self, g: &mut Graph, other: &Tensor) -> (r: Result<Tensor, EngineError>)
        requires
            old(g).wf(),
            self.valid(*old(g)),
            other.valid(*old(g)),
        ensures
            match r {
                Ok(t) => matmul_tb_ok(self.shape_of(*old(g)), other.shape_of(*old(g)))
                    && recorded(*old(g), *final(g), t, matmul_tb_spec(self.shape_of(*old(g)), other.shape_of(*old(g))), seq![self.id, other.id])
                    && final(g).nodes@[t.id as int].op == Op::MatMulTransposedB,
                Err(e) => !matmul_tb_ok(self.shape_of(*old(g)), other.shape_of(*old(g)))
                    && *final(g) == *old(g)
                    && incompatible(e, "matmul_transposed_b", seq![self.shape_of(*old(g)), other.shape_of(*old(g))]),
            },
    {
        let a = g.nodes[self.id].shape.as_slice();
        let b = g.nodes[other.id].shape.as_slice();
        match matmul_shape(a, b, true) {
            Some(out) => {
                let mut inputs: Vec<usize> = Vec::new();
                inputs.push(self.id);
                inputs.push(other.id);
                let t = record(g, out, Op::MatMulTransposedB, inputs);
                assert(inputs@ =~= seq![self.id, other.id]);
                Ok(t)
            },
            None => Err(incompatible_error("matmul_transposed_b", a, b)),
        }
    }

    // --- Reductions ---

    fn reduce(&self, g: &mut Graph, axis: usize, keepdim: bool, op: Op) -> (r: Result<Tensor, EngineError>)
        requires
            old(g).wf(),
            self.valid(*old(g)),
        ensures
            reduce_result(*old(g), *final(g), *self, axis, keepdim, r, op),
    {
        let n = g.nodes[self.id].shape.len();
        if axis >= n {
            return Err(EngineError::DimensionOutOfBounds { axis, ndim: n });
        }
        let out = reduce_shape(g.nodes[self.id].shape.as_slice(), axis, keepdim);
        let mut inputs: Vec<usize> = Vec::new();
        inputs.push(self.id);
        let t = record(g, out, op, inputs);
        assert(inputs@ =~= seq![self.id]);
        Ok(t)
    }

    /// Sum along `axis`, keeping it as size 1 when `keepdim`.
    pub fn sum(&self, g: &mut Graph, axis: usize, keepdim: bool) -> (r: Result<Tensor, EngineError>)
        requires
            old(g).wf(),
            self.valid(*old(g)),
        ensures
            reduce_result(*old(g), *final(g), *self, axis, keepdim, r, Op::Sum { axis, keepdim }),
    {
        self.reduce(g, axis, keepdim, Op::Sum { axis, keepdim })
    }

    /// Mean along `axis`, keeping it as size 1 when `keepdim`.
    pub fn mean(&self, g: &mut Graph, axis: usize, keepdim: bool) -> (r: Result<Tensor, EngineError>)
        requires
            old(g).wf(),
            self.valid(*old(g)),
        ensures
            reduce_result(*old(g), *final(g), *self, axis, keepdim, r, Op::Mean { axis, keepdim }),
    {
        self.reduce(g, axis, keepdim, Op::Mean { axis, keepdim })
    }

    /// Sum of all elements, as a scalar (shape `[]`).
    pub fn sum_all(&self, g: &mut Graph) -> (t: Tensor)
        requires
            old(g).wf(),
            self.valid(*old(g)),
        ensures
            recorded(*old(g), *final(g), t, Seq::<usize>::empty(), seq![self.id]),
            final(g).nodes@[t.id as int].op == Op::SumAll,
    {
        let mut inputs: Vec<usize> = Vec::new();
        inputs.push(self.id);
        let t = record(g, Vec::new(), Op::SumAll, inputs);
        assert(inputs@ =~= seq![self.id]);
        t
    }

    /// Mean of all elements, as a scalar (shape `[]`).
    pub fn mean_all(&self, g: &mut Graph) -> (t: Tensor)
        requires
            old(g).wf(),
            self.valid(*old(g)),
        ensures
            recorded(*old(g), *final(g), t, Seq::<usize>::empty(), seq![self.id]),
            final(g).nodes@[t.id as int].op == Op::MeanAll,
    {
        let mut inputs: Vec<usize> = Vec::new();
        inputs.push(self.id);
        let t = record(g, Vec::new(), Op::MeanAll, inputs);
        assert(inputs@ =~= seq![self.id]);
        t
    }

    // --- Layout ---

    /// Reshapes to `new_shape`, which must hold as many elements.
    pub fn reshape(&self, g: &mut Graph, new_shape: &[usize]) -> (r: Result<Tensor, EngineError>)
        requires
            old(g).wf(),
            self.valid(*old(g)),
        ensures
            match r {
                Ok(t) => reshape_ok(self.shape_of(*old(g)), new_shape@)
                    && recorded(*old(g), *final(g), t, new_shape@, seq![self.id])
                    && final(g).nodes@[t.id as int].op == Op::Reshape,
                Err(e) => !reshape_ok(self.shape_of(*old(g)), new_shape@)
                    && *final(g) == *old(g)
                    && (e matches EngineError::ShapeMismatch { expected, actual }
                        && expected@ == new_shape@ && actual@ == self.shape_of(*old(g))),
            },
    {
        match (checked_numel(g.nodes[self.id].shape.as_slice()), checked_numel(new_shape)) {
            (Some(n_old), Some(n_new)) => {
                if n_new == n_old {
                    let mut inputs: Vec<usize> = Vec::new();
                    inputs.push(self.id);
                    let t = record(g, shape_vec(new_shape), Op::Reshape, inputs);
                    assert(inputs@ =~= seq![self.id]);
                    return Ok(t);
                }
            },
            _ => {},
        }
        Err(EngineError::ShapeMismatch {
            expected: shape_vec(new_shape),
            actual: shape_vec(g.nodes[self.id].shape.as_slice()),
        })
    }

    /// Exchanges dimensions `dim0` and `dim1`.
    pub fn transpose(&self, g: &mut Graph, dim0: usize, dim1: usize) -> (r: Result<Tensor, EngineError>)
        requires
            old(g).wf(),
            self.valid(*old(g)),
        ensures
            match r {
                Ok(t) => dim0 < self.shape_of(*old(g)).len() && dim1 < self.shape_of(*old(g)).len()
                    && recorded(*old(g), *final(g), t, transpose_spec(self.shape_of(*old(g)), dim0 as int, dim1 as int), seq![self.id])
                    && final(g).nodes@[t.id as int].op == (Op::Transpose { dim0, dim1 }),
                Err(e) => *final(g) == *old(g) && (
                    if dim0 >= self.shape_of(*old(g)).len() {
                        out_of_bounds(e, dim0, self.shape_of(*old(g)).len() as usize)
                    } else {
                        dim1 >= self.shape_of(*old(g)).len() && out_of_bounds(e, dim1, self.shape_of(*old(g)).len() as usize)
                    }),
            },
    {
        let n = g.nodes[self.id].shape.len();
        if dim0 >= n {
            return Err(EngineError::DimensionOutOfBounds { axis: dim0, ndim: n });
        }
        if dim1 >= n {
            return Err(EngineError::DimensionOutOfBounds { axis: dim1, ndim: n });
        }
        let out = transpose_shape(g.nodes[self.id].shape.as_slice(), dim0, dim1);
        let mut inputs: Vec<usize> = Vec::new();
        inputs.push(self.id);
        let t = record(g, out, Op::Transpose { dim0, dim1 }, inputs);
        assert(inputs@ =~= seq![self.id]);
        Ok(t)
    }

    /// Moves axis `dims[i]` to position `i`; the backward pass applies the inverse permutation.
    pub fn permute(&self, g: &mut Graph, dims: &[usize]) -> (r: Result<Tensor, EngineError>)
        requires
            old(g).wf(),
            self.valid(*old(g)),
        ensures
            match r {
                Ok(t) => is_permutation(dims@, self.shape_of(*old(g)).len() as int)
                    && recorded(*old(g), *final(g), t, permute_spec(self.shape_of(*old(g)), dims@), seq![self.id])
                    && (final(g).nodes@[t.id as int].op matches Op::Permute { dims: d, inverse: inv }
                        && d@ == dims@
                        && is_permutation(inv@, dims@.len() as int)
                        && forall|i: int| 0 <= i < dims@.len() ==> inv@[#[trigger] dims@[i] as int] == i),
                Err(e) => !is_permutation(dims@, self.shape_of(*old(g)).len() as int)
                    && *final(g) == *old(g) && e is InvalidArgument,
            },
    {
        let n = g.nodes[self.id].shape.len();
        if !check_permutation(dims, n) {
            return Err(EngineError::InvalidArgument("permute: dims must list every axis exactly once".to_owned()));
        }
        let out = permute_shape(g.nodes[self.id].shape.as_slice(), dims);
        let inverse = inverse_permutation(dims);
        let mut inputs: Vec<usize> = Vec::new();
        inputs.push(self.id);
        let t = record(g, out, Op::Permute { dims: shape_vec(dims), inverse }, inputs);
        assert(inputs@ =~= seq![self.id]);
        Ok(t)
    }

    /// The slice `[start, end)` of `axis`.
    pub fn slice(&self, g: &mut Graph, axis: usize, start: usize, end: usize) -> (r: Result<Tensor, EngineError>)
        requires
            old(g).wf(),
            self.valid(*old(g)),
        ensures
            match r {
                Ok(t) => axis < self.shape_of(*old(g)).len() && start <= end <= self.shape_of(*old(g))[axis as int]
                    && recorded(*old(g), *final(g), t, slice_spec(self.shape_of(*old(g)), axis as int, start as int, end as int), seq![self.id])
                    && final(g).nodes@[t.id as int].op == (Op::Slice { axis, start, end }),
                Err(e) => *final(g) == *old(g) && (
                    if axis >= self.shape_of(*old(g)).len() {
                        out_of_bounds(e, axis, self.shape_of(*old(g)).len() as usize)
                    } else if end > self.shape_of(*old(g))[axis as int] {
                        e == EngineError::IndexOutOfBounds { index: end, size: self.shape_of(*old(g))[axis as int] }
                    } else {
                        start > end && e == EngineError::IndexOutOfBounds { index: start, size: end }
                    }),
            },
    {
        let n = g.nodes[self.id].shape.len();
        if axis >= n {
            return Err(EngineError::DimensionOutOfBounds { axis, ndim: n });
        }
        let dim = g.nodes[self.id].shape[axis];
        if end > dim {
            return Err(EngineError::IndexOutOfBounds { index: end, size: dim });
        }
        if start > end {
            return Err(EngineError::IndexOutOfBounds { index: start, size: end });
        }
        let out = slice_shape(g.nodes[self.id].shape.as_slice(), axis, start, end);
        let mut inputs: Vec<usize> = Vec::new();
        inputs.push(self.id);
        let t = record(g, out, Op::Slice { axis, start, end }, inputs);
        assert(inputs@ =~= seq![self.id]);
        Ok(t)
    }

    /// Inserts a dimension of size 1 at `axis`.
    pub fn unsqueeze(&self, g: &mut Graph, axis: usize) -> (r: Result<Tensor, EngineError>)
        requires
            old(g).wf(),
            self.valid(*old(g)),
        ensures
            match r {
                Ok(t) => axis <= self.shape_of(*old(g)).len()
                    && recorded(*old(g), *final(g), t, unsqueeze_spec(self.shape_of(*old(g)), axis as int), seq![self.id])
                    && final(g).nodes@[t.id as int].op == (Op::Unsqueeze { axis }),
                Err(e) => axis > self.shape_of(*old(g)).len() && *final(g) == *old(g)
                    && out_of_bounds(e, axis, self.shape_of(*old(g)).len() as usize),
            },
    {
        let n = g.nodes[self.id].shape.len();
        if axis > n {
            return Err(EngineError::DimensionOutOfBounds { axis, ndim: n });
        }
        let out = unsqueeze_shape(g.nodes[self.id].shape.as_slice(), axis);
        let mut inputs: Vec<usize> = Vec::new();
        inputs.push(self.id);
        let t = record(g, out, Op::Unsqueeze { axis }, inputs);
        assert(inputs@ =~= seq![self.id]);
        Ok(t)
    }

    /// Removes `axis` when it has size 1 (a larger axis stays).
    pub fn squeeze(&self, g: &mut Graph, axis: usize) -> (r: Result<Tensor, EngineError>)
        requires
            old(g).wf(),
            self.valid(*old(g)),
        ensures
            match r {
                Ok(t) => axis < self.shape_of(*old(g)).len()
                    && recorded(*old(g), *final(g), t, squeeze_spec(self.shape_of(*old(g)), axis as int), seq![self.id])
                    && final(g).nodes@[t.id as int].op == (Op::Squeeze { axis }),
                Err(e) => axis >= self.shape_of(*old(g)).len() && *final(g) == *old(g)
                    && out_of_bounds(e, axis, self.shape_of(*old(g)).len() as usize),
            },
    {
        let n = g.nodes[self.id].shape.len();
        if axis >= n {
            return Err(EngineError::DimensionOutOfBounds { axis, ndim: n });
        }
        let out = squeeze_shape(g.nodes[self.id].shape.as_slice(), axis);
        let mut inputs: Vec<usize> = Vec::new();
        inputs.push(self.id);
        let t = record(g, out, Op::Squeeze { axis }, inputs);
        assert(inputs@ =~= seq![self.id]);
        Ok(t)
    }

    /// Flattens to one dimension.
    pub fn flatten(&self, g: &mut Graph) -> (r: Result<Tensor, EngineError>)
        requires
            old(g).wf(),
            self.valid(*old(g)),
            shape_fits(self.shape_of(*old(g))),
        ensures
            r matches Ok(t) && recorded(*old(g), *final(g), t, seq![numel_spec(self.shape_of(*old(g))) as usize], seq![self.id])
                && final(g).nodes@[t.id as int].op == Op::Reshape,
    {
        let n = self.numel(g);
        let mut s: Vec<usize> = Vec::new();
        s.push(n);
        proof {
            assert(s@.drop_last() =~= Seq::<usize>::empty());
            assert(numel_spec(Seq::<usize>::empty()) == 1);
            assert(numel_spec(s@) == numel_spec(s@.drop_last()) * n);
            assert(numel_spec(s@) == n);
            assert forall|i: int| 0 <= i <= s@.len() implies #[trigger] numel_spec(s@.subrange(0, i)) <= usize::MAX by {
                if i == 0 {
                    assert(s@.subrange(0, 0) =~= Seq::<usize>::empty());
                } else {
                    assert(s@.subrange(0, 1) =~= s@);
                }
            }
            assert(s@ =~= seq![numel_spec(self.shape_of(*g)) as usize]);
        }
        self.reshape(g, s.as_slice())
    }

    // --- Concatenation ---

    /// The `k` largest entries along the last axis, and a detached tensor of their
    /// positions within each row; the values pass gradients back to the entries they took.
    pub fn topk(&self, g: &mut Graph, k: usize) -> (r: Result<(Tensor, Tensor), EngineError>)
        requires
            old(g).wf(),
            self.valid(*old(g)),
        ensures
            ({
                let s = self.shape_of(*old(g));
                match r {
                    Ok((vals, idx)) => {
                        let out = s.update(s.len() - 1, k);
                        &&& s.len() > 0 && k <= s[s.len() - 1]
                        &&& final(g).wf()
                        &&& old(g).extended_by(*final(g))
                        &&& final(g).nodes@.len() == old(g).nodes@.len() + 2
                        &&& vals.id == old(g).nodes@.len()
                        &&& idx.id == old(g).nodes@.len() + 1
                        &&& final(g).nodes@[vals.id as int].shape@ == out
                        &&& final(g).nodes@[vals.id as int].op == (Op::TopK { k })
                        &&& final(g).nodes@[vals.id as int].inputs@ == seq![self.id]
                        &&& final(g).nodes@[vals.id as int].requires_grad == grad_flows(*old(g), seq![self.id])
                        &&& final(g).nodes@[vals.id as int].parents@ == (if grad_flows(*old(g), seq![self.id]) { seq![self.id] } else { Seq::<usize>::empty() })
                        &&& final(g).nodes@[idx.id as int].shape@ == out
                        &&& final(g).nodes@[idx.id as int].op == (Op::TopKIndices { k })
                        &&& final(g).nodes@[idx.id as int].inputs@ == seq![self.id]
                        &&& !final(g).nodes@[idx.id as int].requires_grad
                        &&& final(g).nodes@[idx.id as int].parents@ == Seq::<usize>::empty()
                    },
                    Err(e) => (s.len() == 0 || k > s[s.len() - 1]) && *final(g) == *old(g) && e is InvalidArgument,
                }
            }),
    {
        let n = g.nodes[self.id].shape.len();
        if n == 0 {
            return Err(EngineError::InvalidArgument("topk of a tensor without dimensions".to_string()));
        }
        if k > g.nodes[self.id].shape[n - 1] {
            return Err(EngineError::InvalidArgument("topk: k exceeds the size of the last dimension".to_string()));
        }
        let mut out = shape_vec(g.nodes[self.id].shape.as_slice());
        out.set(n - 1, k);
        let out2 = shape_vec(out.as_slice());
        let mut inputs: Vec<usize> = Vec::new();
        inputs.push(self.id);
        let ghost g0 = *g;
        let vals = record(g, out, Op::TopK { k }, inputs);
        assert(inputs@ =~= seq![self.id]);
        let id = g.nodes.len();
        let mut idx_inputs: Vec<usize> = Vec::new();
        idx_inputs.push(self.id);
        let node = TensorInner::detached(id, out2, Op::TopKIndices { k }, idx_inputs);
        let ghost g1 = *g;
        g.push_node(node);
        proof {
            assert(idx_inputs@ =~= seq![self.id]);
            assert(g.nodes@[vals.id as int] == g1.nodes@[vals.id as int]);
            assert forall|j: int| 0 <= j < g0.nodes@.len() implies #[trigger] g.nodes@[j] == g0.nodes@[j] by {
                assert(g1.nodes@[j] == g0.nodes@[j]);
            }
        }
        Ok((vals, Tensor { id }))
    }

    /// Concatenates tensors along `axis`; all other dimensions must agree.
    pub fn cat(g: &mut Graph, tensors: &[Tensor], axis: usize) -> (r: Result<Tensor, EngineError>)
        requires
            old(g).wf(),
            forall|k: int| 0 <= k < tensors@.len() ==> (#[trigger] tensors@[k]).valid(*old(g)),
        ensures
            match r {
                Ok(t) => cat_ok(*old(g), tensors@, axis as int)
                    && recorded(*old(g), *final(g), t, cat_spec(*old(g), tensors@, axis as int), ids_of(tensors@))
                    && final(g).nodes@[t.id as int].op == (Op::Cat { axis }),
                Err(e) => !cat_ok(*old(g), tensors@, axis as int) && *final(g) == *old(g) && (
                    if tensors@.len() == 0 {
                        e is InvalidArgument
                    } else if axis >= tensors@[0].shape_of(*old(g)).len() {
                        out_of_bounds(e, axis, tensors@[0].shape_of(*old(g)).len() as usize)
                    } else if !cat_shapes_agree(*old(g), tensors@, axis as int) {
                        incompatible(e, "cat", shapes_of(*old(g), tensors@))
                    } else {
                        e is InvalidArgument
                    }),
            },
    {
        if tensors.len() == 0 {
            return Err(EngineError::InvalidArgument("cat: no tensors to concatenate".to_owned()));
        }
        let first = tensors[0].id;
        let rank = g.nodes[first].shape.len();
        if axis >= rank {
            return Err(EngineError::DimensionOutOfBounds { axis, ndim: rank });
        }
        let ghost ts = tensors@;
        let ghost s0 = tensors@[0].shape_of(*g);
        // Every tensor has the rank of the first and agrees with it off `axis`.
        let mut agree = true;
        let mut k: usize = 0;
        while k < tensors.len()
            invariant
                g.wf(),
                ts == tensors@,
                ts.len() > 0,
                first == ts[0].id,
                s0 == ts[0].shape_of(*g),
                rank == s0.len(),
                axis < rank,
                forall|i: int| 0 <= i < ts.len() ==> (#[trigger] ts[i]).valid(*g),
                k <= ts.len(),
                agree == (forall|i: int| 0 <= i < k ==> #[trigger] agrees_with(ts[i].shape_of(*g), s0, axis as int)),
            decreases tensors.len() - k,
        {
            let sk = g.nodes[tensors[k].id].shape.as_slice();
            let mut ok = sk.len() == rank;
            if ok {
                let mut d: usize = 0;
                while d < rank
                    invariant
                        g.wf(),
                        sk@ == ts[k as int].shape_of(*g),
                        s0 == ts[0].shape_of(*g),
                        rank == s0.len(),
                        sk@.len() == rank,
                        first == ts[0].id,
                        ts[0].valid(*g),
                        d <= rank,
                        ok == (forall|e: int| 0 <= e < d && e != axis ==> sk@[e] == s0[e]),
                    decreases rank - d,
                {
                    if d != axis && sk[d] != g.nodes[first].shape[d] {
                        ok = false;
                    }
                    d = d + 1;
                }
            }
            if !ok {
                agree = false;
            }
            assert(ok == agrees_with(ts[k as int].shape_of(*g), s0, axis as int));
            k = k + 1;
        }
        if !agree {
            let mut shapes: Vec<Vec<usize>> = Vec::new();
            let mut i: usize = 0;
            while i < tensors.len()
                invariant
                    g.wf(),
                    ts == tensors@,
                    forall|m: int| 0 <= m < ts.len() ==> (#[trigger] ts[m]).valid(*g),
                    i <= ts.len(),
                    shapes@.len() == i,
                    forall|m: int| 0 <= m < i ==> (#[trigger] shapes@[m])@ == ts[m].shape_of(*g),
                decreases tensors.len() - i,
            {
                shapes.push(shape_vec(g.nodes[tensors[i].id].shape.as_slice()));
                i = i + 1;
            }
            return Err(EngineError::IncompatibleShapes { op: "cat", shapes });
        }
        // Total length along `axis`.
        let mut total: usize = 0;
        let mut ids: Vec<usize> = Vec::new();
        let mut i: usize = 0;
        while i < tensors.len()
            invariant
                g.wf(),
                ts == tensors@,
                forall|m: int| 0 <= m < ts.len() ==> (#[trigger] ts[m]).valid(*g),
                cat_shapes_agree(*g, ts, axis as int),
                s0 == ts[0].shape_of(*g),
                axis < s0.len(),
                i <= ts.len(),
                total == cat_total(*g, ts, axis as int, i as int),
                ids@ == ids_of(ts).subrange(0, i as int),
            decreases tensors.len() - i,
        {
            assert(agrees_with(ts[i as int].shape_of(*g), s0, axis as int));
            let len = g.nodes[tensors[i].id].shape[axis];
            match total.checked_add(len) {
                Some(v) => {
                    total = v;
                },
                None => {
                    proof {
                        lemma_cat_total_mono(*g, ts, axis as int, i + 1, ts.len() as int);
                    }
                    return Err(EngineError::InvalidArgument("cat: concatenated length does not fit in usize".to_owned()));
                },
            }
            ids.push(tensors[i].id);
            i = i + 1;
            assert(ids@ =~= ids_of(ts).subrange(0, i as int));
        }
        assert(ids@ =~= ids_of(ts));
        let mut out = shape_vec(g.nodes[first].shape.as_slice());
        out.set(axis, total);
        assert(out@ =~= cat_spec(*g, ts, axis as int));
        let t = record(g, out, Op::Cat { axis }, ids);
        Ok(t)
    }

    // --- Convolution, pooling, embedding ---

    /// 2D convolution of an `[N, C, H, W]` input with an `[O, C, KH, KW]` weight and an optional
    /// `[O]` bias.
    pub fn conv2d(&self, g: &mut Graph, weight: &Tensor, bias: Option<&Tensor>, params: Conv2dParams) -> (r: Result<Tensor, EngineError>)
        requires
            old(g).wf(),
            self.valid(*old(g)),
            weight.valid(*old(g)),
            bias matches Some(b) ==> b.valid(*old(g)),
        ensures
            match r {
                Ok(t) => conv_shapes_ok(self.shape_of(*old(g)), weight.shape_of(*old(g)), bias_shape(*old(g), bias))
                    && conv_window_ok(self.shape_of(*old(g)), weight.shape_of(*old(g)), params)
                    && recorded(*old(g), *final(g), t, conv_spec(self.shape_of(*old(g)), weight.shape_of(*old(g)), params),
                        match bias { Some(b) => seq![self.id, weight.id, b.id], None => seq![self.id, weight.id] })
                    && final(g).nodes@[t.id as int].op == (Op::Conv2d { params }),
                Err(e) => *final(g) == *old(g) && (
                    if !conv_shapes_ok(self.shape_of(*old(g)), weight.shape_of(*old(g)), bias_shape(*old(g), bias)) {
                        incompatible(e, "conv2d", seq![self.shape_of(*old(g)), weight.shape_of(*old(g))])
                    } else {
                        !conv_window_ok(self.shape_of(*old(g)), weight.shape_of(*old(g)), params) && e is InvalidConvParams
                    }),
            },
    {
        let x = g.nodes[self.id].shape.as_slice();
        let w = g.nodes[weight.id].shape.as_slice();
        let mut shapes_ok = x.len() == 4 && w.len() == 4 && x[1] == w[1];
        if shapes_ok {
            match bias {
                Some(b) => {
                    let bs = g.nodes[b.id].shape.as_slice();
                    if !(bs.len() == 1 && bs[0] == w[0]) {
                        shapes_ok = false;
                    }
                    assert(shapes_ok == (bs@ =~= seq![w@[0]]));
                },
                None => {},
            }
        }
        if !shapes_ok {
            return Err(incompatible_error("conv2d", x, w));
        }
        let oh = conv_out_dim(x[2], w[2], params.stride.0, params.padding.0, params.dilation.0);
        let ow = conv_out_dim(x[3], w[3], params.stride.1, params.padding.1, params.dilation.1);
        match (oh, ow) {
            (Some(oh), Some(ow)) => {
                let mut out: Vec<usize> = Vec::new();
                out.push(x[0]);
                out.push(w[0]);
                out.push(oh);
                out.push(ow);
                let mut inputs: Vec<usize> = Vec::new();
                inputs.push(self.id);
                inputs.push(weight.id);
                match bias {
                    Some(b) => {
                        inputs.push(b.id);
                    },
                    None => {},
                }
                assert(out@ =~= conv_spec(x@, w@, params));
                let t = record(g, out, Op::Conv2d { params }, inputs);
                match bias {
                    Some(b) => {
                        assert(inputs@ =~= seq![self.id, weight.id, b.id]);
                    },
                    None => {
                        assert(inputs@ =~= seq![self.id, weight.id]);
                    },
                }
                Ok(t)
            },
            _ => Err(EngineError::InvalidConvParams { details: "conv2d: the kernel window does not fit the padded input".to_owned() }),
        }
    }

    /// 2D max pooling of an `[N, C, H, W]` input.
    pub fn max_pool2d(&self, g: &mut Graph, kernel_size: (usize, usize), stride: (usize, usize)) -> (r: Result<Tensor, EngineError>)
        requires
            old(g).wf(),
            self.valid(*old(g)),
        ensures
            match r {
                Ok(t) => pool_ok(self.shape_of(*old(g)), kernel_size, stride)
                    && recorded(*old(g), *final(g), t, pool_spec(self.shape_of(*old(g)), kernel_size, stride), seq![self.id])
                    && final(g).nodes@[t.id as int].op == (Op::MaxPool2d { kernel_size, stride }),
                Err(e) => !pool_ok(self.shape_of(*old(g)), kernel_size, stride) && *final(g) == *old(g) && (
                    if self.shape_of(*old(g)).len() != 4 {
                        incompatible(e, "max_pool2d", seq![self.shape_of(*old(g))])
                    } else {
                        e is InvalidConvParams
                    }),
            },
    {
        let x = g.nodes[self.id].shape.as_slice();
        if x.len() != 4 {
            return Err(incompatible_error1("max_pool2d", x));
        }
        let oh = pool_out_dim(x[2], kernel_size.0, stride.0);
        let ow = pool_out_dim(x[3], kernel_size.1, stride.1);
        match (oh, ow) {
            (Some(oh), Some(ow)) => {
                let mut out: Vec<usize> = Vec::new();
                out.push(x[0]);
                out.push(x[1]);
                out.push(oh);
                out.push(ow);
                assert(out@ =~= pool_spec(x@, kernel_size, stride));
                let mut inputs: Vec<usize> = Vec::new();
                inputs.push(self.id);
                let t = record(g, out, Op::MaxPool2d { kernel_size, stride }, inputs);
                assert(inputs@ =~= seq![self.id]);
                Ok(t)
            },
            _ => Err(EngineError::InvalidConvParams { details: "max_pool2d: the pooling window does not fit the input".to_owned() }),
        }
    }

    /// Looks up rows `indices` of a `[num_embeddings, dim]` table, giving `[indices.len(), dim]`.
    pub fn embedding(&self, g: &mut Graph, indices: &[usize]) -> (r: Result<Tensor, EngineError>)
        requires
            old(g).wf(),
            self.valid(*old(g)),
        ensures
            match r {
                Ok(t) => self.shape_of(*old(g)).len() == 2
                    && (forall|i: int| 0 <= i < indices@.len() ==> #[trigger] indices@[i] < self.shape_of(*old(g))[0])
                    && recorded(*old(g), *final(g), t, seq![indices@.len() as usize, self.shape_of(*old(g))[1]], seq![self.id])
                    && (final(g).nodes@[t.id as int].op matches Op::Embedding { indices: ix } && ix@ == indices@),
                Err(e) => *final(g) == *old(g) && (
                    if self.shape_of(*old(g)).len() != 2 {
                        incompatible(e, "embedding", seq![self.shape_of(*old(g))])
                    } else {
                        exists|i: int| 0 <= i < indices@.len() && indices@[i] >= self.shape_of(*old(g))[0]
                            && (forall|j: int| 0 <= j < i ==> #[trigger] indices@[j] < self.shape_of(*old(g))[0])
                            && e == (EngineError::IndexOutOfBounds { index: indices@[i], size: self.shape_of(*old(g))[0] })
                    }),
            },
    {
        let w = g.nodes[self.id].shape.as_slice();
        if w.len() != 2 {
            return Err(incompatible_error1("embedding", w));
        }
        let rows = w[0];
        let dim = w[1];
        let mut i: usize = 0;
        while i < indices.len()
            invariant
                *g == *old(g),
                self.valid(*g),
                self.shape_of(*g).len() == 2,
                rows == self.shape_of(*g)[0],
                i <= indices@.len(),
                forall|j: int| 0 <= j < i ==> #[trigger] indices@[j] < rows,
            decreases indices.len() - i,
        {
            if indices[i] >= rows {
                let e = EngineError::IndexOutOfBounds { index: indices[i], size: rows };
                assert(0 <= i < indices@.len() && indices@[i as int] >= rows
                    && (forall|j: int| 0 <= j < i ==> #[trigger] indices@[j] < rows)
                    && e == (EngineError::IndexOutOfBounds { index: indices@[i as int], size: rows }));
                return Err(e);
            }
            i = i + 1;
        }
        let mut out: Vec<usize> = Vec::new();
        out.push(indices.len());
        out.push(dim);
        assert(out@ =~= seq![indices@.len() as usize, dim]);
        let mut inputs: Vec<usize> = Vec::new();
        inputs.push(self.id);
        let t = record(g, out, Op::Embedding { indices: shape_vec(indices) }, inputs);
        assert(inputs@ =~= seq![self.id]);
        Ok(t)
    }
}

} // verus!
