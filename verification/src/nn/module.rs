//! The interface shared by every layer and container.

use vstd::prelude::*;
use crate::autograd::node::{Graph, TensorInner};
use crate::autograd::tensor::Tensor;
use crate::error::EngineError;

verus! {

/// Every tensor of `ts` lives in `g` with the shape paired with it.
pub open spec fn shapes_hold(g: Graph, ts: Seq<(Tensor, Seq<usize>)>) -> bool {
    forall|k: int| 0 <= k < ts.len() ==> (#[trigger] ts[k]).0.valid(g) && ts[k].0.shape_of(g) == ts[k].1
}

/// Recording more nodes keeps every tensor where it is, with its shape.
pub proof fn lemma_shapes_hold_extend(g1: Graph, g2: Graph, ts: Seq<(Tensor, Seq<usize>)>)
    requires
        shapes_hold(g1, ts),
        g1.extended_by(g2),
    ensures
        shapes_hold(g2, ts),
{
    assert forall|k: int| 0 <= k < ts.len() implies (#[trigger] ts[k]).0.valid(g2) && ts[k].0.shape_of(g2) == ts[k].1 by {
        assert(g2.nodes@[ts[k].0.id as int] == g1.nodes@[ts[k].0.id as int]);
    }
}

/// The tensors of two lists hold exactly when those of their concatenation do.
pub proof fn lemma_shapes_hold_concat(g: Graph, a: Seq<(Tensor, Seq<usize>)>, b: Seq<(Tensor, Seq<usize>)>)
    ensures
        shapes_hold(g, a + b) <==> shapes_hold(g, a) && shapes_hold(g, b),
{
    if shapes_hold(g, a + b) {
        assert forall|k: int| 0 <= k < a.len() implies (#[trigger] a[k]).0.valid(g) && a[k].0.shape_of(g) == a[k].1 by {
            assert((a + b)[k] == a[k]);
        }
        assert forall|k: int| 0 <= k < b.len() implies (#[trigger] b[k]).0.valid(g) && b[k].0.shape_of(g) == b[k].1 by {
            assert((a + b)[k + a.len()] == b[k]);
        }
    }
    if shapes_hold(g, a) && shapes_hold(g, b) {
        assert forall|k: int| 0 <= k < (a + b).len() implies (#[trigger] (a + b)[k]).0.valid(g) && (a + b)[k].0.shape_of(g) == (a + b)[k].1 by {
            if k < a.len() {
                assert(a[k] == (a + b)[k]);
            } else {
                assert(b[k - a.len()] == (a + b)[k]);
            }
        }
    }
}

/// The tensors of a list of tensors with shapes.
pub open spec fn tensors_of(ts: Seq<(Tensor, Seq<usize>)>) -> Seq<Tensor> {
    Seq::new(ts.len(), |k: int| ts[k].0)
}

/// The tensors of a concatenation are the concatenation of the tensors.
pub proof fn lemma_tensors_of_concat(a: Seq<(Tensor, Seq<usize>)>, b: Seq<(Tensor, Seq<usize>)>)
    ensures
        tensors_of(a + b) == tensors_of(a) + tensors_of(b),
{
    assert(tensors_of(a + b) =~= tensors_of(a) + tensors_of(b));
}

/// When the tensors of `ts` hold in `g`, each of them names a node of `g`.
pub proof fn lemma_tensors_valid(g: Graph, ts: Seq<(Tensor, Seq<usize>)>)
    requires
        shapes_hold(g, ts),
    ensures
        forall|k: int| 0 <= k < tensors_of(ts).len() ==> (#[trigger] tensors_of(ts)[k]).valid(g),
{
    assert forall|k: int| 0 <= k < tensors_of(ts).len() implies (#[trigger] tensors_of(ts)[k]).valid(g) by {
        assert(tensors_of(ts)[k] == ts[k].0);
    }
}

/// Every buffer slot of `bs` exists in `g` and holds a node of the shape paired with it.
pub open spec fn buffers_hold(g: Graph, bs: Seq<(usize, Seq<usize>)>) -> bool {
    forall|k: int| 0 <= k < bs.len() ==> (#[trigger] bs[k]).0 < g.buffers@.len() && g.buffer_shape(bs[k].0 as int) == bs[k].1
}

/// Extending the graph keeps every buffer, with the shape of the node it holds.
pub proof fn lemma_buffers_hold_extend(g1: Graph, g2: Graph, bs: Seq<(usize, Seq<usize>)>)
    requires
        buffers_hold(g1, bs),
        g1.extended_by(g2),
    ensures
        buffers_hold(g2, bs),
{
    assert forall|k: int| 0 <= k < bs.len() implies (#[trigger] bs[k]).0 < g2.buffers@.len() && g2.buffer_shape(bs[k].0 as int) == bs[k].1 by {
        assert(g2.buffer_shape(bs[k].0 as int) == g1.buffer_shape(bs[k].0 as int));
    }
}

/// The buffers of two lists hold exactly when those of their concatenation do.
pub proof fn lemma_buffers_hold_concat(g: Graph, a: Seq<(usize, Seq<usize>)>, b: Seq<(usize, Seq<usize>)>)
    ensures
        buffers_hold(g, a + b) <==> buffers_hold(g, a) && buffers_hold(g, b),
{
    if buffers_hold(g, a + b) {
        assert forall|k: int| 0 <= k < a.len() implies (#[trigger] a[k]).0 < g.buffers@.len() && g.buffer_shape(a[k].0 as int) == a[k].1 by {
            assert((a + b)[k] == a[k]);
        }
        assert forall|k: int| 0 <= k < b.len() implies (#[trigger] b[k]).0 < g.buffers@.len() && g.buffer_shape(b[k].0 as int) == b[k].1 by {
            assert((a + b)[k + a.len()] == b[k]);
        }
    }
    if buffers_hold(g, a) && buffers_hold(g, b) {
        assert forall|k: int| 0 <= k < (a + b).len() implies (#[trigger] (a + b)[k]).0 < g.buffers@.len() && g.buffer_shape((a + b)[k].0 as int) == (a + b)[k].1 by {
            if k < a.len() {
                assert(a[k] == (a + b)[k]);
            } else {
                assert(b[k - a.len()] == (a + b)[k]);
            }
        }
    }
}

/// One of the tensors of `ts` is node `j`.
pub open spec fn names_node(ts: Seq<Tensor>, j: int) -> bool {
    exists|m: int| 0 <= m < ts.len() && (#[trigger] ts[m]).id == j
}

/// A layer or container of layers.
pub trait Module {
    /// The module's tensors, each with the shape the module expects it to have.
    spec fn tensor_shapes(&self) -> Seq<(Tensor, Seq<usize>)>;

    /// The buffers the module reads and updates, each with the shape of the node it holds.
    spec fn buffer_shapes(&self) -> Seq<(usize, Seq<usize>)>;

    /// The learnable parameter tensors, in the order `parameters` gives them.
    spec fn param_list(&self) -> Seq<Tensor>;

    /// Every part of the module that `train` and `eval` switch is in training mode (`true`) or
    /// in evaluation mode (`false`); a module without such a part is in both.
    spec fn mode_is(&self, training: bool) -> bool;

    /// Computes the forward pass, recording its nodes in `g`.
    fn forward(&self, g: &mut Graph, input: &Tensor) -> (r: Result<Tensor, EngineError>)
        requires
            old(g).wf(),
            shapes_hold(*old(g), self.tensor_shapes()),
            buffers_hold(*old(g), self.buffer_shapes()),
            input.valid(*old(g)),
        ensures
            final(g).wf(),
            old(g).extended_by(*final(g)),
            r matches Ok(t) ==> t.valid(*final(g)),
    ;

    /// The learnable parameter tensors.
    fn parameters(&self) -> (r: Vec<Tensor>)
        ensures
            r@ == self.param_list(),
            forall|g: Graph| #[trigger] shapes_hold(g, self.tensor_shapes()) ==> forall|k: int| 0 <= k < r@.len() ==> (#[trigger] r@[k]).valid(g),
    ;

    /// Resets the gradients of all parameters: every node that is one of the module's parameters
    /// loses its gradient and keeps everything else; every other node is unchanged.
    fn zero_grad(&self, g: &mut Graph)
        requires
            old(g).wf(),
            shapes_hold(*old(g), self.tensor_shapes()),
        ensures
            final(g).wf(),
            final(g).grad_enabled == old(g).grad_enabled,
            final(g).buffers == old(g).buffers,
            final(g).nodes@.len() == old(g).nodes@.len(),
            forall|j: int| 0 <= j < old(g).nodes@.len() ==> #[trigger] final(g).nodes@[j] == (if names_node(self.param_list(), j) {
                TensorInner { grad: None, ..old(g).nodes@[j] }
            } else {
                old(g).nodes@[j]
            }),
    {
        let params = self.parameters();
        let ghost g0 = *g;
        let ghost n = g.nodes@.len();
        let mut k: usize = 0;
        proof {
            assert(params@.take(0) =~= Seq::<Tensor>::empty());
        }
        while k < params.len()
            invariant
                g.wf(),
                g.grad_enabled == g0.grad_enabled,
                g.buffers == g0.buffers,
                g.nodes@.len() == n,
                n == g0.nodes@.len(),
                forall|m: int| 0 <= m < params@.len() ==> (#[trigger] params@[m]).valid(g0),
                k <= params@.len(),
                forall|j: int| 0 <= j < n ==> #[trigger] g.nodes@[j] == (if names_node(params@.take(k as int), j) {
                    TensorInner { grad: None, ..g0.nodes@[j] }
                } else {
                    g0.nodes@[j]
                }),
            decreases params.len() - k,
        {
            let ghost gk = *g;
            let ghost p = params@[k as int];
            params[k].zero_grad(g);
            proof {
                assert forall|j: int| 0 <= j < n implies #[trigger] g.nodes@[j] == (if names_node(params@.take(k + 1), j) {
                    TensorInner { grad: None, ..g0.nodes@[j] }
                } else {
                    g0.nodes@[j]
                }) by {
                    assert(params@.take(k + 1)[k as int] == p);
                    if j == p.id {
                        assert(names_node(params@.take(k + 1), j));
                    } else {
                        assert(g.nodes@[j] == gk.nodes@[j]);
                        if names_node(params@.take(k + 1), j) {
                            let m = choose|m: int| 0 <= m < params@.take(k + 1).len() && (#[trigger] params@.take(k + 1)[m]).id == j;
                            assert(params@.take(k as int)[m] == params@.take(k + 1)[m]);
                            assert(names_node(params@.take(k as int), j));
                        }
                        if names_node(params@.take(k as int), j) {
                            let m = choose|m: int| 0 <= m < params@.take(k as int).len() && (#[trigger] params@.take(k as int)[m]).id == j;
                            assert(params@.take(k as int)[m] == params@.take(k + 1)[m]);
                        }
                    }
                }
            }
            k = k + 1;
        }
        proof {
            assert(params@.take(params@.len() as int) =~= params@);
        }
    }

    /// Switches to training mode; the module's tensors, parameters and buffers stay as they were.
    fn train(&mut self)
        ensures
            final(self).mode_is(true),
            final(self).tensor_shapes() == old(self).tensor_shapes(),
            final(self).buffer_shapes() == old(self).buffer_shapes(),
            final(self).param_list() == old(self).param_list(),
    ;

    /// Switches to evaluation mode; the module's tensors, parameters and buffers stay as they
    /// were.
    fn eval(&mut self)
        ensures
            final(self).mode_is(false),
            final(self).tensor_shapes() == old(self).tensor_shapes(),
            final(self).buffer_shapes() == old(self).buffer_shapes(),
            final(self).param_list() == old(self).param_list(),
    ;
}

/// The tensors of every module of `ms`, in order, with their expected shapes.
pub open spec fn seq_shapes<M: Module>(ms: Seq<M>) -> Seq<(Tensor, Seq<usize>)>
    decreases ms.len(),
{
    if ms.len() == 0 {
        Seq::empty()
    } else {
        seq_shapes(ms.drop_last()) + ms.last().tensor_shapes()
    }
}

/// The tensors of a list of modules hold exactly when those of each module do.
pub proof fn lemma_seq_shapes_hold<M: Module>(g: Graph, ms: Seq<M>)
    ensures
        shapes_hold(g, seq_shapes(ms)) <==> forall|k: int| 0 <= k < ms.len() ==> shapes_hold(g, (#[trigger] ms[k]).tensor_shapes()),
    decreases ms.len(),
{
    if ms.len() > 0 {
        let init = ms.drop_last();
        lemma_seq_shapes_hold(g, init);
        lemma_shapes_hold_concat(g, seq_shapes(init), ms.last().tensor_shapes());
        if shapes_hold(g, seq_shapes(ms)) {
            assert forall|k: int| 0 <= k < ms.len() implies shapes_hold(g, (#[trigger] ms[k]).tensor_shapes()) by {
                if k < ms.len() - 1 {
                    assert(init[k] == ms[k]);
                }
            }
        }
        if forall|k: int| 0 <= k < ms.len() ==> shapes_hold(g, (#[trigger] ms[k]).tensor_shapes()) {
            assert forall|k: int| 0 <= k < init.len() implies shapes_hold(g, (#[trigger] init[k]).tensor_shapes()) by {
                assert(init[k] == ms[k]);
            }
            assert(shapes_hold(g, ms[ms.len() - 1].tensor_shapes()));
        }
    }
}

/// The parameters of every module of `ms`, in order.
pub open spec fn seq_params<M: Module>(ms: Seq<M>) -> Seq<Tensor>
    decreases ms.len(),
{
    if ms.len() == 0 {
        Seq::empty()
    } else {
        seq_params(ms.drop_last()) + ms.last().param_list()
    }
}

/// Taking one more module adds that module's parameters at the end.
pub proof fn lemma_seq_params_step<M: Module>(ms: Seq<M>, k: int)
    requires
        0 <= k < ms.len(),
    ensures
        seq_params(ms.take(k + 1)) == seq_params(ms.take(k)) + ms[k].param_list(),
{
    assert(ms.take(k + 1).drop_last() =~= ms.take(k));
    assert(ms.take(k + 1).last() == ms[k]);
}

/// The learnable tensors of every module of `ms`, in order.
pub fn seq_parameters<M: Module>(ms: &Vec<M>) -> (r: Vec<Tensor>)
    ensures
        r@ == seq_params(ms@),
        forall|g: Graph| #[trigger] shapes_hold(g, seq_shapes(ms@)) ==> forall|j: int| 0 <= j < r@.len() ==> (#[trigger] r@[j]).valid(g),
{
    let mut params: Vec<Tensor> = Vec::new();
    let mut k: usize = 0;
    proof {
        assert(ms@.take(0) =~= Seq::<M>::empty());
    }
    while k < ms.len()
        invariant
            k <= ms@.len(),
            params@ == seq_params(ms@.take(k as int)),
            forall|g: Graph| #[trigger] shapes_hold(g, seq_shapes(ms@)) ==> all_valid(g, params@),
        decreases ms.len() - k,
    {
        let mut p = ms[k].parameters();
        proof {
            lemma_seq_params_step(ms@, k as int);
            assert forall|g: Graph| #[trigger] shapes_hold(g, seq_shapes(ms@)) implies all_valid(g, params@ + p@) by {
                lemma_seq_shapes_hold(g, ms@);
                assert(shapes_hold(g, ms@[k as int].tensor_shapes()));
                lemma_all_valid_concat(g, params@, p@);
            }
        }
        params.append(&mut p);
        k = k + 1;
    }
    proof {
        assert(ms@.take(ms@.len() as int) =~= ms@);
        assert forall|g: Graph| #[trigger] shapes_hold(g, seq_shapes(ms@)) implies forall|j: int| 0 <= j < params@.len() ==> (#[trigger] params@[j]).valid(g) by {
            assert(all_valid(g, params@));
        }
    }
    params
}

/// The buffers of every module of `ms`, in order, with the shapes of the nodes they hold.
pub open spec fn seq_buffers<M: Module>(ms: Seq<M>) -> Seq<(usize, Seq<usize>)>
    decreases ms.len(),
{
    if ms.len() == 0 {
        Seq::empty()
    } else {
        seq_buffers(ms.drop_last()) + ms.last().buffer_shapes()
    }
}

/// When the buffers of a list of modules hold, those of each module do.
pub proof fn lemma_seq_buffers_hold<M: Module>(g: Graph, ms: Seq<M>)
    requires
        buffers_hold(g, seq_buffers(ms)),
    ensures
        forall|k: int| 0 <= k < ms.len() ==> buffers_hold(g, (#[trigger] ms[k]).buffer_shapes()),
    decreases ms.len(),
{
    if ms.len() > 0 {
        let init = ms.drop_last();
        lemma_buffers_hold_concat(g, seq_buffers(init), ms.last().buffer_shapes());
        lemma_seq_buffers_hold(g, init);
        assert forall|k: int| 0 <= k < ms.len() implies buffers_hold(g, (#[trigger] ms[k]).buffer_shapes()) by {
            if k < ms.len() - 1 {
                assert(init[k] == ms[k]);
            }
        }
    }
}

/// Every tensor of `ts` names a node of `g`.
pub open spec fn all_valid(g: Graph, ts: Seq<Tensor>) -> bool {
    forall|k: int| 0 <= k < ts.len() ==> (#[trigger] ts[k]).valid(g)
}

/// Two lists of valid tensors make a list of valid tensors.
pub proof fn lemma_all_valid_concat(g: Graph, a: Seq<Tensor>, b: Seq<Tensor>)
    requires
        all_valid(g, a),
        all_valid(g, b),
    ensures
        all_valid(g, a + b),
{
    assert forall|k: int| 0 <= k < (a + b).len() implies (#[trigger] (a + b)[k]).valid(g) by {
        if k < a.len() {
            assert((a + b)[k] == a[k]);
        } else {
            assert((a + b)[k] == b[k - a.len()]);
        }
    }
}

/// The tensors of a list whose shapes hold are valid.
pub proof fn lemma_all_valid_shapes(g: Graph, ts: Seq<(Tensor, Seq<usize>)>)
    requires
        shapes_hold(g, ts),
    ensures
        all_valid(g, tensors_of(ts)),
{
    lemma_tensors_valid(g, ts);
}

} // verus!
