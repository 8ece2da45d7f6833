//! Embedding lookup table.

use vstd::prelude::*;
use crate::autograd::node::{Graph, LeafInit, Op};
use crate::autograd::tensor::Tensor;
use crate::autograd::tensor::reshape_ok;
use crate::error::EngineError;
use crate::shape::{numel_spec, shape_fits, shape_vec};

verus! {

/// A `[num_embeddings, embedding_dim]` table of learnable rows.
#[derive(Clone, Copy)]
pub struct Embedding {
    pub weight: Tensor,
    pub num_embeddings: usize,
    pub embedding_dim: usize,
}

impl Embedding {
    /// The table lives in `g` with the expected shape.
    pub open spec fn wf_in(&self, g: Graph) -> bool {
        self.weight.valid(g) && self.weight.shape_of(g) == seq![self.num_embeddings, self.embedding_dim]
    }

    /// A table initialized with standard normal values.
    pub fn new(g: &mut Graph, num_embeddings: usize, embedding_dim: usize) -> (r: Embedding)
        requires
            old(g).wf(),
        ensures
            final(g).wf(),
            old(g).extended_by(*final(g)),
            r.wf_in(*final(g)),
            r.num_embeddings == num_embeddings,
            r.embedding_dim == embedding_dim,
            final(g).nodes@[r.weight.id as int].op == Op::Leaf(LeafInit::StandardNormal),
            final(g).nodes@[r.weight.id as int].requires_grad,
    {
        let mut ws: Vec<usize> = Vec::new();
        ws.push(num_embeddings);
        ws.push(embedding_dim);
        let weight = Tensor::leaf(g, ws.as_slice(), LeafInit::StandardNormal, true);
        assert(ws@ =~= seq![num_embeddings, embedding_dim]);
        Embedding { weight, num_embeddings, embedding_dim }
    }

    /// Looks up the rows `indices`, giving `[indices.len(), embedding_dim]`; an index past the
    /// table is refused with `IndexOutOfBounds`.
    pub fn forward_indices(&self, g: &mut Graph, indices: &[usize]) -> (r: Result<Tensor, EngineError>)
        requires
            old(g).wf(),
            self.wf_in(*old(g)),
        ensures
            final(g).wf(),
            old(g).extended_by(*final(g)),
            r is Ok <==> forall|i: int| 0 <= i < indices@.len() ==> #[trigger] indices@[i] < self.num_embeddings,
            r matches Ok(t) ==> t.valid(*final(g)) && t.shape_of(*final(g)) == seq![indices@.len() as usize, self.embedding_dim]
                && (final(g).nodes@[t.id as int].op matches Op::Embedding { indices: ix } && ix@ == indices@),
            r matches Ok(t) ==> final(g).nodes@[t.id as int].inputs@ == seq![self.weight.id],
            r matches Err(e) ==> exists|i: int| 0 <= i < indices@.len() && indices@[i] >= self.num_embeddings
                && (forall|j: int| 0 <= j < i ==> #[trigger] indices@[j] < self.num_embeddings)
                && e == (EngineError::IndexOutOfBounds { index: indices@[i], size: self.num_embeddings }),
    {
        self.weight.embedding(g, indices)
    }

    /// Looks up a tensor of indices of shape `shape`, given flat in row-major order: the
    /// result has shape `shape` followed by `embedding_dim`. Refused for an index past the
    /// table (`IndexOutOfBounds`), and when the result's element count overflows.
    pub fn forward_ids(&self, g: &mut Graph, ids: &[usize], shape: &[usize]) -> (r: Result<Tensor, EngineError>)
        requires
            old(g).wf(),
            self.wf_in(*old(g)),
            shape_fits(shape@),
            numel_spec(shape@) == ids@.len(),
        ensures
            final(g).wf(),
            old(g).extended_by(*final(g)),
            r is Ok <==> (forall|i: int| 0 <= i < ids@.len() ==> #[trigger] ids@[i] < self.num_embeddings)
                && reshape_ok(seq![ids@.len() as usize, self.embedding_dim], shape@.push(self.embedding_dim)),
            r matches Ok(t) ==> t.valid(*final(g)) && t.shape_of(*final(g)) == shape@.push(self.embedding_dim),
    {
        let ghost g0 = *g;
        let flat = self.forward_indices(g, ids)?;
        let mut target = shape_vec(shape);
        target.push(self.embedding_dim);
        let ghost g1 = *g;
        let out = flat.reshape(g, target.as_slice());
        proof {
            g0.lemma_extended_trans(g1, *g);
        }
        out
    }

    /// The learnable table.
    pub fn parameters(&self) -> (r: Vec<Tensor>)
        ensures
            r@ == seq![self.weight],
    {
        let mut params: Vec<Tensor> = Vec::new();
        params.push(self.weight);
        assert(params@ =~= seq![self.weight]);
        params
    }
}

} // verus!
