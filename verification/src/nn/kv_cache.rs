//! Key-value cache for autoregressive decoding.

use vstd::prelude::*;
use crate::autograd::node::{Graph, Op};
use crate::autograd::tensor::{Tensor, cat_ok, cat_spec, ids_of, lemma_cat_same_shapes};
use crate::error::EngineError;

verus! {

/// Per layer, the keys and values seen so far, shaped `[batch, heads, cached_len, head_dim]`.
pub struct KVCache {
    pub layers: Vec<Option<(Tensor, Tensor)>>,
}

/// Sequence length cached for a slot: dimension 2 of its keys, 0 for an empty slot.
pub open spec fn slot_len(g: Graph, slot: Option<(Tensor, Tensor)>) -> int {
    match slot {
        Some((k, _)) => k.shape_of(g)[2] as int,
        None => 0,
    }
}

impl KVCache {
    /// A cache with `num_layers` empty slots.
    pub fn new(num_layers: usize) -> (r: KVCache)
        ensures
            r.layers@.len() == num_layers,
            forall|i: int| 0 <= i < num_layers ==> (#[trigger] r.layers@[i]) is None,
    {
        let mut layers: Vec<Option<(Tensor, Tensor)>> = Vec::with_capacity(num_layers);
        let mut i: usize = 0;
        while i < num_layers
            invariant
                i <= num_layers,
                layers@.len() == i,
                forall|j: int| 0 <= j < i ==> (#[trigger] layers@[j]) is None,
            decreases num_layers - i,
        {
            layers.push(None);
            i = i + 1;
        }
        KVCache { layers }
    }

    /// Empties every slot.
    pub fn reset(&mut self)
        ensures
            final(self).layers@.len() == old(self).layers@.len(),
            forall|i: int| 0 <= i < final(self).layers@.len() ==> (#[trigger] final(self).layers@[i]) is None,
    {
        let n = self.layers.len();
        let mut i: usize = 0;
        while i < n
            invariant
                i <= n,
                self.layers@.len() == n,
                forall|j: int| 0 <= j < i ==> (#[trigger] self.layers@[j]) is None,
            decreases n - i,
        {
            self.layers.set(i, None);
            i = i + 1;
        }
    }

    /// Number of layers the cache serves.
    pub fn num_layers(&self) -> (r: usize)
        ensures
            r == self.layers@.len(),
    {
        self.layers.len()
    }

    /// Sequence length cached for `layer_idx`: 0 for an empty slot or an index past the cache.
    pub fn current_seq_len(&self, g: &Graph, layer_idx: usize) -> (r: usize)
        requires
            layer_idx < self.layers@.len() ==> match self.layers@[layer_idx as int] {
                Some((k, _)) => k.valid(*g) && k.shape_of(*g).len() >= 3,
                None => true,
            },
        ensures
            r == (if layer_idx < self.layers@.len() { slot_len(*g, self.layers@[layer_idx as int]) } else { 0 }),
    {
        if layer_idx < self.layers.len() {
            match &self.layers[layer_idx] {
                Some((k, _)) => {
                    return g.nodes[k.id].shape[2];
                },
                None => {},
            }
        }
        0
    }

    /// Appends `k_new` and `v_new` to the slot of `layer_idx` along the sequence axis (2) and
    /// returns the full keys and values. An empty slot takes the new tensors as they are. A
    /// refused concatenation leaves the slot empty.
    pub fn update(&mut self, g: &mut Graph, layer_idx: usize, k_new: &Tensor, v_new: &Tensor) -> (r: Result<(Tensor, Tensor), EngineError>)
        requires
            old(g).wf(),
            k_new.valid(*old(g)),
            v_new.valid(*old(g)),
            forall|i: int| 0 <= i < old(self).layers@.len() ==> match #[trigger] old(self).layers@[i] {
                Some((k, v)) => k.valid(*old(g)) && v.valid(*old(g)),
                None => true,
            },
        ensures
            final(g).wf(),
            old(g).extended_by(*final(g)),
            final(self).layers@.len() == old(self).layers@.len(),
            forall|i: int| 0 <= i < old(self).layers@.len() && i != layer_idx ==> #[trigger] final(self).layers@[i] == old(self).layers@[i],
            layer_idx >= old(self).layers@.len() ==> r is Err && (r matches Err(e) && e is InvalidArgument) && *final(g) == *old(g),
            layer_idx < old(self).layers@.len() ==> match old(self).layers@[layer_idx as int] {
                None => r == Ok::<(Tensor, Tensor), EngineError>((*k_new, *v_new))
                    && final(self).layers@[layer_idx as int] == Some((*k_new, *v_new))
                    && *final(g) == *old(g),
                Some((kp, vp)) => {
                    let gk = seq![kp, *k_new];
                    let gv = seq![vp, *v_new];
                    &&& r is Ok <==> (cat_ok(*old(g), gk, 2) && cat_ok(*old(g), gv, 2))
                    &&& r matches Ok((k_all, v_all)) ==> {
                        &&& final(self).layers@[layer_idx as int] == Some((k_all, v_all))
                        &&& k_all.valid(*final(g)) && v_all.valid(*final(g))
                        &&& k_all.shape_of(*final(g)) == cat_spec(*old(g), gk, 2)
                        &&& k_all.shape_of(*final(g))[2] == kp.shape_of(*old(g))[2] + k_new.shape_of(*old(g))[2]
                        &&& v_all.shape_of(*final(g))[2] == vp.shape_of(*old(g))[2] + v_new.shape_of(*old(g))[2]
                        &&& final(g).nodes@[k_all.id as int].op == (Op::Cat { axis: 2 })
                        &&& final(g).nodes@[k_all.id as int].inputs@ == seq![kp.id, k_new.id]
                        &&& final(g).nodes@[v_all.id as int].op == (Op::Cat { axis: 2 })
                        &&& final(g).nodes@[v_all.id as int].inputs@ == seq![vp.id, v_new.id]
                    }
                    &&& r is Err ==> final(self).layers@[layer_idx as int] is None
                },
            },
    {
        if layer_idx >= self.layers.len() {
            return Err(EngineError::InvalidArgument("KVCache: layer index out of range".to_owned()));
        }
        let prev = self.layers[layer_idx];
        self.layers.set(layer_idx, None);
        match prev {
            Some((k_prev, v_prev)) => {
                let mut ks: Vec<Tensor> = Vec::new();
                ks.push(k_prev);
                ks.push(*k_new);
                assert(ks@ =~= seq![k_prev, *k_new]);
                let ghost g0 = *g;
                let k_cat = match Tensor::cat(g, ks.as_slice(), 2) {
                    Ok(t) => t,
                    Err(e) => {
                        return Err(e);
                    },
                };
                let ghost g1 = *g;
                assert(ids_of(ks@) =~= seq![k_prev.id, k_new.id]);
                let mut vs: Vec<Tensor> = Vec::new();
                vs.push(v_prev);
                vs.push(*v_new);
                assert(vs@ =~= seq![v_prev, *v_new]);
                assert(g1.nodes@[v_prev.id as int] == g0.nodes@[v_prev.id as int]);
                assert(g1.nodes@[v_new.id as int] == g0.nodes@[v_new.id as int]);
                proof {
                    assert forall|m: int| 0 <= m < vs@.len() implies (#[trigger] vs@[m]).shape_of(g0) == vs@[m].shape_of(g1) by {
                        if m == 0 {} else {}
                    }
                    lemma_cat_same_shapes(g0, g1, vs@, 2);
                }
                let v_cat = match Tensor::cat(g, vs.as_slice(), 2) {
                    Ok(t) => t,
                    Err(e) => {
                        proof {
                            g0.lemma_extended_trans(g1, *g);
                        }
                        assert(self.layers@[layer_idx as int] is None);
                        return Err(e);
                    },
                };
                assert(ids_of(vs@) =~= seq![v_prev.id, v_new.id]);
                proof {
                    g0.lemma_extended_trans(g1, *g);
                    assert(g.nodes@[k_cat.id as int] == g1.nodes@[k_cat.id as int]);
                    crate::autograd::tensor::lemma_cat_pair(g0, k_prev, *k_new, 2);
                    crate::autograd::tensor::lemma_cat_pair(g1, v_prev, *v_new, 2);
                }
                self.layers.set(layer_idx, Some((k_cat, v_cat)));
                Ok((k_cat, v_cat))
            },
            None => {
                self.layers.set(layer_idx, Some((*k_new, *v_new)));
                Ok((*k_new, *v_new))
            },
        }
    }
}

} // verus!
