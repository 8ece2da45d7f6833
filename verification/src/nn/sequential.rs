//! Container that applies its layers one after another.

use vstd::prelude::*;
use crate::autograd::node::Graph;
use crate::autograd::tensor::Tensor;
use crate::error::EngineError;
use crate::nn::module::{Module, buffers_hold, lemma_buffers_hold_extend, lemma_shapes_hold_extend, shapes_hold};

verus! {

/// Layers applied in order, each to the output of the previous one.
pub struct Sequential {
    pub layers: Vec<Box<dyn Module>>,
}

impl Sequential {
    /// An empty container.
    pub fn new() -> (r: Sequential)
        ensures
            r.layers@.len() == 0,
    {
        Sequential { layers: Vec::new() }
    }

    /// Returns the container with `module` appended.
    pub fn add<M: Module + 'static>(self, module: M) -> (r: Sequential)
        ensures
            r.layers@.len() == self.layers@.len() + 1,
            forall|k: int| 0 <= k < self.layers@.len() ==> #[trigger] r.layers@[k] == self.layers@[k],
    {
        let mut s = self;
        s.push(module);
        s
    }

    /// Appends `module` in place.
    pub fn push<M: Module + 'static>(&mut self, module: M)
        ensures
            final(self).layers@.len() == old(self).layers@.len() + 1,
            forall|k: int| 0 <= k < old(self).layers@.len() ==> #[trigger] final(self).layers@[k] == old(self).layers@[k],
    {
        let b: Box<dyn Module> = Box::new(module);
        let ghost l0 = self.layers@;
        self.layers.push(b);
        proof {
            vstd::seq::axiom_seq_push_len(l0, b);
            vstd::seq::axiom_seq_push_index_same(l0, b, l0.len() as int);
            assert forall|k: int| 0 <= k < l0.len() implies #[trigger] self.layers@[k] == l0[k] by {
                vstd::seq::axiom_seq_push_index_different(l0, b, k);
            }
        }
    }
}

/// The tensors of all `layers`, in order, with their expected shapes.
pub open spec fn layers_shapes(layers: Seq<Box<dyn Module>>) -> Seq<(Tensor, Seq<usize>)>
    decreases layers.len(),
{
    if layers.len() == 0 {
        Seq::empty()
    } else {
        layers_shapes(layers.drop_last()) + layers.last().tensor_shapes()
    }
}

/// The parameters of all `layers`, in order.
pub open spec fn layers_params(layers: Seq<Box<dyn Module>>) -> Seq<Tensor>
    decreases layers.len(),
{
    if layers.len() == 0 {
        Seq::empty()
    } else {
        layers_params(layers.drop_last()) + layers.last().param_list()
    }
}

/// Taking one more layer adds that layer's parameters at the end.
pub proof fn lemma_layers_params_step(layers: Seq<Box<dyn Module>>, k: int)
    requires
        0 <= k < layers.len(),
    ensures
        layers_params(layers.take(k + 1)) == layers_params(layers.take(k)) + layers[k].param_list(),
{
    assert(layers.take(k + 1).drop_last() =~= layers.take(k));
    assert(layers.take(k + 1).last() == layers[k]);
}

/// When the tensors of all layers hold in `g`, the tensors of each layer do.
pub proof fn lemma_layers_shapes_hold(g: Graph, layers: Seq<Box<dyn Module>>)
    requires
        shapes_hold(g, layers_shapes(layers)),
    ensures
        forall|k: int| 0 <= k < layers.len() ==> shapes_hold(g, (#[trigger] layers[k]).tensor_shapes()),
    decreases layers.len(),
{
    if layers.len() > 0 {
        let init = layers_shapes(layers.drop_last());
        let last = layers.last().tensor_shapes();
        assert forall|k: int| 0 <= k < init.len() implies (#[trigger] init[k]).0.valid(g) && init[k].0.shape_of(g) == init[k].1 by {
            assert((init + last)[k] == init[k]);
        }
        assert forall|k: int| 0 <= k < last.len() implies (#[trigger] last[k]).0.valid(g) && last[k].0.shape_of(g) == last[k].1 by {
            assert((init + last)[init.len() + k] == last[k]);
        }
        lemma_layers_shapes_hold(g, layers.drop_last());
        assert forall|k: int| 0 <= k < layers.len() implies shapes_hold(g, (#[trigger] layers[k]).tensor_shapes()) by {
            if k < layers.len() - 1 {
                assert(layers.drop_last()[k] == layers[k]);
            }
        }
    }
}

/// The buffers of all `layers`, in order, with the shapes of the nodes they hold.
pub open spec fn layers_buffers(layers: Seq<Box<dyn Module>>) -> Seq<(usize, Seq<usize>)>
    decreases layers.len(),
{
    if layers.len() == 0 {
        Seq::empty()
    } else {
        layers_buffers(layers.drop_last()) + layers.last().buffer_shapes()
    }
}

/// When the buffers of all layers hold in `g`, the buffers of each layer do.
pub proof fn lemma_layers_buffers_hold(g: Graph, layers: Seq<Box<dyn Module>>)
    requires
        buffers_hold(g, layers_buffers(layers)),
    ensures
        forall|k: int| 0 <= k < layers.len() ==> buffers_hold(g, (#[trigger] layers[k]).buffer_shapes()),
    decreases layers.len(),
{
    if layers.len() > 0 {
        let init = layers_buffers(layers.drop_last());
        let last = layers.last().buffer_shapes();
        crate::nn::module::lemma_buffers_hold_concat(g, init, last);
        lemma_layers_buffers_hold(g, layers.drop_last());
        assert forall|k: int| 0 <= k < layers.len() implies buffers_hold(g, (#[trigger] layers[k]).buffer_shapes()) by {
            if k < layers.len() - 1 {
                assert(layers.drop_last()[k] == layers[k]);
            }
        }
    }
}

/// Two lists of layers of one length whose layers have, place by place, the same tensors,
/// buffers and parameters have the same tensors, buffers and parameters.
pub proof fn lemma_layers_same(a: Seq<Box<dyn Module>>, b: Seq<Box<dyn Module>>)
    requires
        a.len() == b.len(),
        forall|k: int| 0 <= k < a.len() ==> (#[trigger] a[k]).tensor_shapes() == b[k].tensor_shapes()
            && a[k].buffer_shapes() == b[k].buffer_shapes() && a[k].param_list() == b[k].param_list(),
    ensures
        layers_shapes(a) == layers_shapes(b),
        layers_buffers(a) == layers_buffers(b),
        layers_params(a) == layers_params(b),
    decreases a.len(),
{
    if a.len() > 0 {
        let (ia, ib) = (a.drop_last(), b.drop_last());
        assert forall|k: int| 0 <= k < ia.len() implies (#[trigger] ia[k]).tensor_shapes() == ib[k].tensor_shapes()
            && ia[k].buffer_shapes() == ib[k].buffer_shapes() && ia[k].param_list() == ib[k].param_list() by {
            assert(ia[k] == a[k] && ib[k] == b[k]);
        }
        lemma_layers_same(ia, ib);
        assert(a.last() == a[a.len() - 1] && b.last() == b[b.len() - 1]);
    }
}

impl Sequential {
    /// Switches every layer to training (`training`) or evaluation mode, one after another.
    fn set_mode(&mut self, training: bool)
        ensures
            final(self).mode_is(training),
            final(self).layers@.len() == old(self).layers@.len(),
            final(self).tensor_shapes() == old(self).tensor_shapes(),
            final(self).buffer_shapes() == old(self).buffer_shapes(),
            final(self).param_list() == old(self).param_list(),
    {
        let ghost l0 = self.layers@;
        let n = self.layers.len();
        let mut k: usize = 0;
        while k < n
            invariant
                k <= n,
                n == l0.len(),
                self.layers@.len() == n,
                forall|j: int| 0 <= j < k ==> (#[trigger] self.layers@[j]).mode_is(training),
                forall|j: int| k <= j < n ==> #[trigger] self.layers@[j] == l0[j],
                forall|j: int| 0 <= j < n ==> (#[trigger] self.layers@[j]).tensor_shapes() == l0[j].tensor_shapes()
                    && self.layers@[j].buffer_shapes() == l0[j].buffer_shapes() && self.layers@[j].param_list() == l0[j].param_list(),
            decreases n - k,
        {
            let ghost lk = self.layers@;
            if training {
                self.layers[k].train();
            } else {
                self.layers[k].eval();
            }
            proof {
                let nk = self.layers@[k as int];
                vstd::seq::axiom_seq_update_len(lk, k as int, nk);
                assert forall|j: int| 0 <= j < n && j != k implies #[trigger] self.layers@[j] == lk[j] by {
                    vstd::seq::axiom_seq_update_different(lk, j, k as int, nk);
                }
            }
            k = k + 1;
        }
        proof {
            lemma_layers_same(self.layers@, l0);
        }
    }
}

impl Module for Sequential {
    open spec fn mode_is(&self, training: bool) -> bool {
        forall|k: int| 0 <= k < self.layers@.len() ==> (#[trigger] self.layers@[k]).mode_is(training)
    }

    open spec fn param_list(&self) -> Seq<Tensor> {
        layers_params(self.layers@)
    }

    open spec fn tensor_shapes(&self) -> Seq<(Tensor, Seq<usize>)> {
        layers_shapes(self.layers@)
    }

    open spec fn buffer_shapes(&self) -> Seq<(usize, Seq<usize>)> {
        layers_buffers(self.layers@)
    }

    /// Applies the layers in order, each to the output of the one before; with no layers the
    /// input comes back as it is and nothing is recorded.
    fn forward(&self, g: &mut Graph, input: &Tensor) -> (r: Result<Tensor, EngineError>)
        ensures
            self.layers@.len() == 0 ==> r == Ok::<Tensor, EngineError>(*input) && *final(g) == *old(g),
    {
        let ghost g0 = *g;
        let mut current = *input;
        let mut k: usize = 0;
        while k < self.layers.len()
            invariant
                g0 == *old(g),
                g.wf(),
                g0.extended_by(*g),
                shapes_hold(*g, self.tensor_shapes()),
                buffers_hold(*g, self.buffer_shapes()),
                current.valid(*g),
                k <= self.layers@.len(),
                k == 0 ==> current == *input && *g == g0,
            decreases self.layers.len() - k,
        {
            let ghost gk = *g;
            proof {
                lemma_layers_shapes_hold(*g, self.layers@);
                lemma_layers_buffers_hold(*g, self.layers@);
            }
            assert(shapes_hold(*g, self.layers@[k as int].tensor_shapes()));
            match self.layers[k].forward(g, &current) {
                Ok(t) => {
                    current = t;
                },
                Err(e) => {
                    proof {
                        g0.lemma_extended_trans(gk, *g);
                    }
                    return Err(e);
                },
            }
            proof {
                lemma_shapes_hold_extend(gk, *g, self.tensor_shapes());
                lemma_buffers_hold_extend(gk, *g, self.buffer_shapes());
                g0.lemma_extended_trans(gk, *g);
            }
            k = k + 1;
        }
        Ok(current)
    }

    fn parameters(&self) -> (r: Vec<Tensor>)
    {
        let mut params: Vec<Tensor> = Vec::new();
        let mut k: usize = 0;
        proof {
            assert(layers_params(self.layers@.take(0)) =~= Seq::<Tensor>::empty());
        }
        while k < self.layers.len()
            invariant
                k <= self.layers@.len(),
                params@ == layers_params(self.layers@.take(k as int)),
                forall|g: Graph| #[trigger] shapes_hold(g, self.tensor_shapes()) ==> forall|m: int| 0 <= m < params@.len() ==> (#[trigger] params@[m]).valid(g),
            decreases self.layers.len() - k,
        {
            let p = self.layers[k].parameters();
            let ghost before = params@;
            let mut i: usize = 0;
            while i < p.len()
                invariant
                    k < self.layers@.len(),
                    i <= p@.len(),
                    params@.len() == before.len() + i,
                    forall|m: int| 0 <= m < before.len() ==> params@[m] == before[m],
                    forall|m: int| 0 <= m < i ==> params@[before.len() + m] == p@[m],
                    forall|g: Graph| #[trigger] shapes_hold(g, self.layers@[k as int].tensor_shapes()) ==> forall|m: int| 0 <= m < p@.len() ==> (#[trigger] p@[m]).valid(g),
                    forall|g: Graph| #[trigger] shapes_hold(g, self.tensor_shapes()) ==> forall|m: int| 0 <= m < before.len() ==> (#[trigger] before[m]).valid(g),
                decreases p.len() - i,
            {
                params.push(p[i]);
                i = i + 1;
            }
            proof {
                assert(params@ =~= before + p@);
                lemma_layers_params_step(self.layers@, k as int);
                assert forall|g: Graph| #[trigger] shapes_hold(g, self.tensor_shapes()) implies forall|m: int| 0 <= m < params@.len() ==> (#[trigger] params@[m]).valid(g) by {
                    lemma_layers_shapes_hold(g, self.layers@);
                    assert(shapes_hold(g, self.layers@[k as int].tensor_shapes()));
                    assert forall|m: int| 0 <= m < params@.len() implies (#[trigger] params@[m]).valid(g) by {
                        if m < before.len() {
                            assert(params@[m] == before[m]);
                        } else {
                            assert(params@[m] == p@[m - before.len()]);
                        }
                    }
                }
            }
            k = k + 1;
        }
        proof {
            assert(self.layers@.take(self.layers@.len() as int) =~= self.layers@);
        }
        params
    }

    /// Switches every layer to training mode.
    fn train(&mut self) {
        self.set_mode(true);
    }

    /// Switches every layer to evaluation mode.
    fn eval(&mut self) {
        self.set_mode(false);
    }
}

} // verus!
