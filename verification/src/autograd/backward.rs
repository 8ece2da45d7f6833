//! Reverse-mode differentiation: the topological order of a graph and the flow of gradients.

use vstd::prelude::*;
use crate::autograd::node::{Graph, TensorInner, accumulate_spec, node_wf};
use crate::autograd::tensor::Tensor;
use crate::shape::{broadcastable, shape_vec};

verus! {

/// Parents of node `i`.
pub open spec fn parents_of(g: Graph, i: usize) -> Seq<usize> {
    g.nodes@[i as int].parents@
}

/// `v` occurs among the first `k` entries of `topo`.
pub open spec fn occurs_before(topo: Seq<usize>, v: usize, k: int) -> bool {
    exists|m: int| 0 <= m < k && topo[m] == v
}

/// No node occurs twice in `topo`.
pub open spec fn no_dup(topo: Seq<usize>) -> bool {
    forall|a: int, b: int| 0 <= a < b < topo.len() ==> topo[a] != topo[b]
}

/// Every parent of a node of `topo` occurs before it.
pub open spec fn parents_first(g: Graph, topo: Seq<usize>) -> bool {
    forall|k: int, j: int|
        0 <= k < topo.len() && 0 <= j < parents_of(g, topo[k]).len() ==> occurs_before(
            topo,
            #[trigger] parents_of(g, topo[k])[j],
            k,
        )
}

/// Entry `k` of `topo` is a parent of an entry at a position in `(k, hi)`.
pub open spec fn feeds(g: Graph, topo: Seq<usize>, k: int, hi: int) -> bool {
    exists|m: int, j: int|
        k < m < hi && 0 <= j < parents_of(g, topo[m]).len() && #[trigger] parents_of(g, topo[m])[j] == topo[k]
}

/// `topo` lists each node reachable from `root` through parent links exactly once, every
/// node after its parents, and `root` last.
pub open spec fn is_topo_order(g: Graph, root: usize, topo: Seq<usize>) -> bool {
    &&& topo.len() > 0
    &&& topo.last() == root
    &&& forall|k: int| 0 <= k < topo.len() ==> #[trigger] topo[k] < g.nodes@.len()
    &&& no_dup(topo)
    &&& parents_first(g, topo)
    &&& forall|k: int| 0 <= k < topo.len() - 1 ==> #[trigger] feeds(g, topo, k, topo.len() as int)
}

/// The backward pass sends a gradient from node `c` to its `j`-th parent.
pub open spec fn flow_edge(g: Graph, c: usize, j: int) -> bool {
    &&& g.nodes@[c as int].has_backward
    &&& 0 <= j < g.nodes@[c as int].parents@.len()
    &&& g.nodes@[c as int].parent_req@[j]
    &&& g.nodes@[g.nodes@[c as int].parents@[j] as int].requires_grad
}

/// Node `i` receives a gradient from a node of `topo` that receives one itself.
pub open spec fn fed_by(g: Graph, topo: Seq<usize>, recv: Seq<bool>, i: usize) -> bool {
    exists|k: int, j: int|
        0 <= k < topo.len() && recv[topo[k] as int] && flow_edge(g, topo[k], j)
            && #[trigger] parents_of(g, topo[k])[j] == i
}

/// `recv` marks the nodes that receive a gradient when differentiating from `root`: the root,
/// every parent to which a receiving node of `topo` sends a gradient, and nothing else.
pub open spec fn gradient_flow(g: Graph, root: usize, topo: Seq<usize>, recv: Seq<bool>) -> bool {
    &&& recv.len() == g.nodes@.len()
    &&& recv[root as int]
    &&& forall|i: int| 0 <= i < recv.len() && #[trigger] recv[i] ==> topo.contains(i as usize)
    &&& forall|k: int, j: int|
        0 <= k < topo.len() && recv[topo[k] as int] && flow_edge(g, topo[k], j) ==> recv[#[trigger] parents_of(g, topo[k])[j] as int]
    &&& forall|i: int| 0 <= i < recv.len() && #[trigger] recv[i] && i != root ==> fed_by(g, topo, recv, i as usize)
}

/// A stored gradient of every node that requires one can absorb a gradient of the node's shape.
pub open spec fn grads_compatible(g: Graph) -> bool {
    forall|i: int|
        0 <= i < g.nodes@.len() && (#[trigger] g.nodes@[i]).requires_grad ==> match g.nodes@[i].grad {
            Some(e) => broadcastable(e@, g.nodes@[i].shape@),
            None => true,
        }
}

/// Node `i` is a leaf that accumulates the gradient it receives.
pub open spec fn accumulates(g: Graph, i: int) -> bool {
    g.nodes@[i].parents@.len() == 0 && g.nodes@[i].requires_grad
}

/// Depth-first search from `node` that appends to `topo` every unvisited node reachable from
/// it, each after its parents.
fn build_topo(g: &Graph, node: usize, visited: &mut Vec<bool>, topo: &mut Vec<usize>)
    requires
        g.wf(),
        node < g.nodes@.len(),
        old(visited)@.len() == g.nodes@.len(),
        forall|i: int| 0 <= i <= node && #[trigger] old(visited)@[i] ==> old(topo)@.contains(i as usize),
        forall|k: int| 0 <= k < old(topo)@.len() ==> #[trigger] old(topo)@[k] < g.nodes@.len()
            && old(visited)@[old(topo)@[k] as int],
        no_dup(old(topo)@),
        parents_first(*g, old(topo)@),
    ensures
        final(visited)@.len() == g.nodes@.len(),
        final(topo)@.len() >= old(topo)@.len(),
        final(topo)@.subrange(0, old(topo)@.len() as int) == old(topo)@,
        forall|i: int| 0 <= i < g.nodes@.len() && old(visited)@[i] ==> #[trigger] final(visited)@[i],
        forall|i: int| 0 <= i < g.nodes@.len() && #[trigger] final(visited)@[i] && !old(visited)@[i] ==> i <= node && final(topo)@.contains(i as usize),
        final(topo)@.contains(node),
        forall|k: int| 0 <= k < final(topo)@.len() ==> #[trigger] final(topo)@[k] < g.nodes@.len()
            && final(visited)@[final(topo)@[k] as int],
        no_dup(final(topo)@),
        parents_first(*g, final(topo)@),
        !old(visited)@[node as int] ==> final(topo)@.last() == node,
        old(visited)@[node as int] ==> final(topo)@ == old(topo)@,
        forall|k: int| old(topo)@.len() <= k < final(topo)@.len() ==> #[trigger] final(topo)@[k] <= node,
        forall|k: int| old(topo)@.len() <= k < final(topo)@.len() - 1 ==> #[trigger] feeds(*g, final(topo)@, k, final(topo)@.len() as int),
    decreases node,
{
    if visited[node] {
        return;
    }
    visited.set(node, true);
    let ghost topo0 = topo@;
    let ghost vis0 = old(visited)@;
    let np = g.nodes[node].parents.len();
    let mut j: usize = 0;
    while j < np
        invariant
            g.wf(),
            node < g.nodes@.len(),
            np == parents_of(*g, node).len(),
            topo0 == old(topo)@,
            vis0 == old(visited)@,
            !vis0[node as int],
            visited@.len() == g.nodes@.len(),
            visited@[node as int],
            j <= np,
            topo@.len() >= topo0.len(),
            topo@.subrange(0, topo0.len() as int) == topo0,
            forall|i: int| 0 <= i < g.nodes@.len() && vis0[i] ==> #[trigger] visited@[i],
            forall|i: int| 0 <= i < g.nodes@.len() && #[trigger] visited@[i] && !vis0[i] && i != node ==> i < node && topo@.contains(i as usize),
            forall|i: int| 0 <= i < node && #[trigger] visited@[i] ==> topo@.contains(i as usize),
            forall|k: int| 0 <= k < topo@.len() ==> #[trigger] topo@[k] < g.nodes@.len() && visited@[topo@[k] as int],
            no_dup(topo@),
            parents_first(*g, topo@),
            forall|m: int| 0 <= m < j ==> topo@.contains(#[trigger] parents_of(*g, node)[m]),
            forall|k: int| topo0.len() <= k < topo@.len() ==> #[trigger] topo@[k] < node,
            forall|k: int| topo0.len() <= k < topo@.len() ==> #[trigger] feeds(*g, topo@, k, topo@.len() as int) || parents_of(*g, node).contains(topo@[k]),
        decreases np - j,
    {
        let p = g.nodes[node].parents[j];
        assert(node_wf(g.nodes@[node as int], node as int));
        assert(p == parents_of(*g, node)[j as int]);
        assert(p < node);
        let ghost topo1 = topo@;
        let ghost vis1 = visited@;
        build_topo(g, p, visited, topo);
        proof {
            // Facts about earlier entries carry over to the extended order.
            assert forall|i: int| 0 <= i < node && #[trigger] visited@[i] implies topo@.contains(i as usize) by {
                if vis1[i] {
                    let m = choose|m: int| 0 <= m < topo1.len() && topo1[m] == i as usize;
                    assert(topo@.subrange(0, topo1.len() as int)[m] == topo@[m]);
                }
            }
            assert forall|i: int| 0 <= i < g.nodes@.len() && #[trigger] visited@[i] && !vis0[i] && i != node implies i < node && topo@.contains(i as usize) by {
                if vis1[i] {
                    let m = choose|m: int| 0 <= m < topo1.len() && topo1[m] == i as usize;
                    assert(topo@.subrange(0, topo1.len() as int)[m] == topo@[m]);
                }
            }
            assert forall|m: int| 0 <= m < j + 1 implies topo@.contains(#[trigger] parents_of(*g, node)[m]) by {
                if m < j {
                    let q = parents_of(*g, node)[m];
                    let w = choose|w: int| 0 <= w < topo1.len() && topo1[w] == q;
                    assert(topo@.subrange(0, topo1.len() as int)[w] == topo@[w]);
                }
            }
            assert(topo@.subrange(0, topo0.len() as int) =~= topo0) by {
                assert(topo@.subrange(0, topo1.len() as int) == topo1);
                assert forall|w: int| 0 <= w < topo0.len() implies topo@[w] == topo0[w] by {
                    assert(topo@.subrange(0, topo1.len() as int)[w] == topo1[w]);
                    assert(topo1.subrange(0, topo0.len() as int)[w] == topo0[w]);
                }
            }
            assert forall|k: int| topo0.len() <= k < topo@.len() implies #[trigger] topo@[k] < node by {
                if k < topo1.len() {
                    assert(topo@.subrange(0, topo1.len() as int)[k] == topo1[k]);
                }
            }
            assert forall|k: int| topo0.len() <= k < topo@.len() implies #[trigger] feeds(*g, topo@, k, topo@.len() as int) || parents_of(*g, node).contains(topo@[k]) by {
                if k < topo1.len() {
                    assert(topo@.subrange(0, topo1.len() as int)[k] == topo1[k]);
                    if feeds(*g, topo1, k, topo1.len() as int) {
                        let (m, jj) = choose|m: int, jj: int| k < m < topo1.len() && 0 <= jj < parents_of(*g, topo1[m]).len() && #[trigger] parents_of(*g, topo1[m])[jj] == topo1[k];
                        assert(topo@.subrange(0, topo1.len() as int)[m] == topo1[m]);
                        assert(parents_of(*g, topo@[m])[jj] == topo@[k]);
                    }
                } else if k < topo@.len() - 1 {
                } else {
                    assert(!vis1[p as int]);
                    assert(topo@[k] == p);
                    assert(parents_of(*g, node)[j as int] == p);
                }
            }
        }
        j = j + 1;
    }
    proof {
        // `node` is not in the order yet: it was unvisited, and the searches from its parents
        // only reached smaller nodes.
        assert(!topo@.contains(node)) by {
            if topo@.contains(node) {
                let m = choose|m: int| 0 <= m < topo@.len() && topo@[m] == node;
                if m < topo0.len() {
                    assert(topo@.subrange(0, topo0.len() as int)[m] == topo0[m]);
                    assert(old(visited)@[node as int]);
                }
            }
        }
    }
    let ghost topo2 = topo@;
    topo.push(node);
    proof {
        assert forall|a: int, b: int| 0 <= a < b < topo@.len() implies topo@[a] != topo@[b] by {
            if b == topo@.len() - 1 {
                assert(topo2[a] == topo@[a]);
            }
        }
        assert forall|k: int, jj: int| 0 <= k < topo@.len() && 0 <= jj < parents_of(*g, topo@[k]).len() implies occurs_before(topo@, #[trigger] parents_of(*g, topo@[k])[jj], k) by {
            if k < topo2.len() {
                let q = parents_of(*g, topo2[k])[jj];
                assert(occurs_before(topo2, q, k));
                let m = choose|m: int| 0 <= m < k && topo2[m] == q;
                assert(topo@[m] == q);
            } else {
                let q = parents_of(*g, node)[jj];
                assert(topo2.contains(q));
                let m = choose|m: int| 0 <= m < topo2.len() && topo2[m] == q;
                assert(topo@[m] == q);
            }
        }
        assert(topo@.subrange(0, topo0.len() as int) =~= topo0) by {
            assert forall|w: int| 0 <= w < topo0.len() implies topo@[w] == topo0[w] by {
                assert(topo2.subrange(0, topo0.len() as int)[w] == topo0[w]);
            }
        }
        assert forall|k: int| topo0.len() <= k < topo@.len() - 1 implies #[trigger] feeds(*g, topo@, k, topo@.len() as int) by {
            assert(topo@[k] == topo2[k]);
            if feeds(*g, topo2, k, topo2.len() as int) {
                let (m, jj) = choose|m: int, jj: int| k < m < topo2.len() && 0 <= jj < parents_of(*g, topo2[m]).len() && #[trigger] parents_of(*g, topo2[m])[jj] == topo2[k];
                assert(topo@[m] == topo2[m]);
                assert(parents_of(*g, topo@[m])[jj] == topo@[k]);
            } else {
                assert(parents_of(*g, node).contains(topo2[k]));
                let jj = choose|jj: int| 0 <= jj < parents_of(*g, node).len() && parents_of(*g, node)[jj] == topo2[k];
                let m = topo@.len() - 1;
                assert(topo@[m] == node);
                assert(parents_of(*g, topo@[m])[jj] == topo@[k]);
            }
        }
        assert forall|i: int| 0 <= i < g.nodes@.len() && #[trigger] visited@[i] && !old(visited)@[i] implies i <= node && topo@.contains(i as usize) by {
            if i == node {
                assert(topo@[topo@.len() - 1] == node);
            } else {
                let m = choose|m: int| 0 <= m < topo2.len() && topo2[m] == i as usize;
                assert(topo@[m] == topo2[m]);
            }
        }
        assert(topo@[topo@.len() - 1] == node);
        assert forall|k: int| topo0.len() <= k < topo@.len() implies #[trigger] topo@[k] <= node by {
            if k < topo2.len() {
                assert(topo@[k] == topo2[k]);
            }
        }
    }
}

/// `i` occurs in `topo` at a position `>= k`.
pub open spec fn occurs_from(topo: Seq<usize>, i: int, k: int) -> bool {
    exists|m: int| k <= m < topo.len() && topo[m] == i
}

/// `new` is `old` with only gradients changed: a node marked in `recv` that accumulates gets
/// the gradient of its own shape added to its stored gradient, all others keep theirs.
pub open spec fn grads_after(old: Graph, new: Graph, recv: Seq<bool>) -> bool {
    &&& new.nodes@.len() == old.nodes@.len()
    &&& new.grad_enabled == old.grad_enabled
    &&& forall|i: int| 0 <= i < old.nodes@.len() ==> #[trigger] new.nodes@[i] == (TensorInner { grad: new.nodes@[i].grad, ..old.nodes@[i] })
    &&& forall|i: int| 0 <= i < old.nodes@.len() && recv[i] && accumulates(old, i) ==>
        (#[trigger] new.nodes@[i].grad matches Some(ng) && ng@ == accumulate_spec(old.nodes@[i].grad, old.nodes@[i].shape@))
    &&& forall|i: int| 0 <= i < old.nodes@.len() && !(recv[i] && accumulates(old, i)) ==>
        #[trigger] new.nodes@[i].grad == old.nodes@[i].grad
}

impl Tensor {
    /// Runs reverse-mode differentiation from this tensor. It orders the nodes reachable from
    /// it by depth-first search, then walks that order backwards from this tensor (seeded with
    /// a gradient of its own shape), sending gradients from each node that receives one to the
    /// parents its backward function serves; leaves that require a gradient accumulate what they
    /// receive. Returns the order, parents first.
    pub fn backward(&self, g: &mut Graph) -> (topo: Vec<usize>)
        requires
            old(g).wf(),
            self.valid(*old(g)),
            grads_compatible(*old(g)),
        ensures
            final(g).wf(),
            is_topo_order(*old(g), self.id, topo@),
            exists|recv: Seq<bool>| gradient_flow(*old(g), self.id, topo@, recv) && grads_after(*old(g), *final(g), recv),
    {
        let n = g.nodes.len();
        let root = self.id;
        let mut visited: Vec<bool> = Vec::with_capacity(n);
        let mut i: usize = 0;
        while i < n
            invariant
                i <= n,
                visited@.len() == i,
                forall|m: int| 0 <= m < i ==> !(#[trigger] visited@[m]),
            decreases n - i,
        {
            visited.push(false);
            i = i + 1;
        }
        let mut topo: Vec<usize> = Vec::new();
        build_topo(g, root, &mut visited, &mut topo);
        let ghost g0 = *g;
        proof {
            assert(topo@.subrange(0, 0) =~= Seq::<usize>::empty());
            assert(topo@.len() > 0);
            assert forall|k: int| 0 <= k < topo@.len() - 1 implies #[trigger] feeds(g0, topo@, k, topo@.len() as int) by {}
        }
        // Walk the order backwards, marking the nodes that receive a gradient.
        let mut recv: Vec<bool> = Vec::with_capacity(n);
        let mut i: usize = 0;
        while i < n
            invariant
                i <= n,
                recv@.len() == i,
                forall|m: int| 0 <= m < i ==> !(#[trigger] recv@[m]),
            decreases n - i,
        {
            recv.push(false);
            i = i + 1;
        }
        recv.set(root, true);
        let mut k: usize = topo.len();
        while k > 0
            invariant
                g.wf(),
                g0.wf(),
                n == g0.nodes@.len(),
                root == self.id,
                root < n,
                grads_compatible(g0),
                is_topo_order(g0, root, topo@),
                k <= topo@.len(),
                recv@.len() == n,
                recv@[root as int],
                forall|i: int| 0 <= i < n && #[trigger] recv@[i] ==> topo@.contains(i as usize),
                forall|kk: int, j: int|
                    k <= kk < topo@.len() && recv@[topo@[kk] as int] && flow_edge(g0, topo@[kk], j) ==> recv@[#[trigger] parents_of(g0, topo@[kk])[j] as int],
                forall|i: int| 0 <= i < n && #[trigger] recv@[i] && i != root ==> exists|kk: int, j: int|
                    k <= kk < topo@.len() && recv@[topo@[kk] as int] && flow_edge(g0, topo@[kk], j)
                        && #[trigger] parents_of(g0, topo@[kk])[j] == i,
                g.nodes@.len() == n,
                g.grad_enabled == g0.grad_enabled,
                forall|i: int| 0 <= i < n ==> #[trigger] g.nodes@[i] == (TensorInner { grad: g.nodes@[i].grad, ..g0.nodes@[i] }),
                forall|i: int| 0 <= i < n && occurs_from(topo@, i, k as int) && recv@[i] && accumulates(g0, i) ==>
                    (#[trigger] g.nodes@[i].grad matches Some(ng) && ng@ == accumulate_spec(g0.nodes@[i].grad, g0.nodes@[i].shape@)),
                forall|i: int| 0 <= i < n && !(occurs_from(topo@, i, k as int) && recv@[i] && accumulates(g0, i)) ==>
                    #[trigger] g.nodes@[i].grad == g0.nodes@[i].grad,
            decreases k,
        {
            k = k - 1;
            let c = topo[k];
            let ghost recv0 = recv@;
            let ghost gk = *g;
            assert(c < n);
            proof {
                // `c` occurs only at position `k`.
                assert forall|m: int| 0 <= m < topo@.len() && topo@[m] == c implies m == k by {
                    if m < k {
                        assert(topo@[m] != topo@[k as int]);
                    } else if m > k {
                        assert(topo@[k as int] != topo@[m]);
                    }
                }
            }
            if recv[c] {
                if g.nodes[c].parents.len() == 0 && g.nodes[c].requires_grad {
                    let sh = shape_vec(g.nodes[c].shape.as_slice());
                    assert(!occurs_from(topo@, c as int, k + 1));
                    assert(g.nodes@[c as int].grad == g0.nodes@[c as int].grad);
                    assert(g0.nodes@[c as int].requires_grad);
                    g.nodes[c].accumulate_grad(sh);
                    proof {
                        assert forall|i: int| 0 <= i < g.nodes@.len() implies node_wf(#[trigger] g.nodes@[i], i) by {
                            assert(node_wf(g0.nodes@[i], i));
                            if i != c {
                                assert(g.nodes@[i] == gk.nodes@[i]);
                            }
                        }
                    }
                }
                if g.nodes[c].has_backward {
                    let np = g.nodes[c].parents.len();
                    let mut j: usize = 0;
                    while j < np
                        invariant
                            g0.wf(),
                            n == g0.nodes@.len(),
                            c < n,
                            np == parents_of(g0, c).len(),
                            g.nodes@.len() == n,
                            forall|i: int| 0 <= i < n ==> #[trigger] g.nodes@[i] == (TensorInner { grad: g.nodes@[i].grad, ..g0.nodes@[i] }),
                            recv0[c as int],
                            g0.nodes@[c as int].has_backward,
                            recv@.len() == n,
                            j <= np,
                            forall|i: int| 0 <= i < n && recv0[i] ==> #[trigger] recv@[i],
                            forall|i: int| 0 <= i < n && #[trigger] recv@[i] && !recv0[i] ==> exists|jj: int| 0 <= jj < j && flow_edge(g0, c, jj) && #[trigger] parents_of(g0, c)[jj] == i,
                            forall|jj: int| 0 <= jj < j && flow_edge(g0, c, jj) ==> recv@[#[trigger] parents_of(g0, c)[jj] as int],
                        decreases np - j,
                    {
                        let p = g.nodes[c].parents[j];
                        assert(g.nodes@[c as int].parents == g0.nodes@[c as int].parents);
                        assert(node_wf(g0.nodes@[c as int], c as int));
                        assert(p < n);
                        assert(g.nodes@[p as int].requires_grad == g0.nodes@[p as int].requires_grad);
                        if g.nodes[c].parent_req[j] && g.nodes[p].requires_grad {
                            recv.set(p, true);
                            assert(flow_edge(g0, c, j as int));
                        }
                        j = j + 1;
                    }
                }
            }
            proof {
                // Only parents of `c` were newly marked, and they all occur before position `k`.
                assert forall|i: int| 0 <= i < n && #[trigger] recv@[i] && !recv0[i] implies
                    exists|m: int| 0 <= m < k && topo@[m] == i as usize by {
                    let jj = choose|jj: int| 0 <= jj < parents_of(g0, c).len() && flow_edge(g0, c, jj) && #[trigger] parents_of(g0, c)[jj] == i;
                    assert(occurs_before(topo@, parents_of(g0, topo@[k as int])[jj], k as int));
                }
                assert forall|kk: int| k <= kk < topo@.len() implies recv@[#[trigger] topo@[kk] as int] == recv0[topo@[kk] as int] by {
                    let i = topo@[kk] as int;
                    if recv@[i] && !recv0[i] {
                        let m = choose|m: int| 0 <= m < k && topo@[m] == i as usize;
                        assert(topo@[m] != topo@[kk]);
                    }
                }
                assert forall|i: int| 0 <= i < n && #[trigger] recv@[i] implies topo@.contains(i as usize) by {
                    if !recv0[i] {
                        let m = choose|m: int| 0 <= m < k && topo@[m] == i as usize;
                    }
                }
                assert forall|kk: int, j: int|
                    k <= kk < topo@.len() && recv@[topo@[kk] as int] && flow_edge(g0, topo@[kk], j) implies recv@[#[trigger] parents_of(g0, topo@[kk])[j] as int] by {
                    assert(recv@[topo@[kk] as int] == recv0[topo@[kk] as int]);
                    if kk > k {
                        assert(recv0[parents_of(g0, topo@[kk])[j] as int]);
                    }
                }
                assert forall|i: int| 0 <= i < n && #[trigger] recv@[i] && i != root implies exists|kk: int, j: int|
                    k <= kk < topo@.len() && recv@[topo@[kk] as int] && flow_edge(g0, topo@[kk], j)
                        && #[trigger] parents_of(g0, topo@[kk])[j] == i by {
                    if recv0[i] {
                        let (kk, j) = choose|kk: int, j: int| k + 1 <= kk < topo@.len() && recv0[topo@[kk] as int] && flow_edge(g0, topo@[kk], j)
                            && #[trigger] parents_of(g0, topo@[kk])[j] == i;
                        assert(recv@[topo@[kk] as int] == recv0[topo@[kk] as int]);
                    } else {
                        let jj = choose|jj: int| 0 <= jj < parents_of(g0, c).len() && flow_edge(g0, c, jj) && #[trigger] parents_of(g0, c)[jj] == i;
                        assert(recv@[topo@[k as int] as int] == recv0[topo@[k as int] as int]);
                        assert(parents_of(g0, topo@[k as int])[jj] == i);
                    }
                }
                assert forall|i: int| 0 <= i < n && occurs_from(topo@, i, k as int) && recv@[i] && accumulates(g0, i) implies
                    (#[trigger] g.nodes@[i].grad matches Some(ng) && ng@ == accumulate_spec(g0.nodes@[i].grad, g0.nodes@[i].shape@)) by {
                    let m = choose|m: int| k <= m < topo@.len() && topo@[m] == i;
                    assert(recv@[topo@[m] as int] == recv0[topo@[m] as int]);
                    if m > k {
                        assert(occurs_from(topo@, i, k + 1));
                        assert(i != c);
                    }
                }
                assert forall|i: int| 0 <= i < n && !(occurs_from(topo@, i, k as int) && recv@[i] && accumulates(g0, i)) implies
                    #[trigger] g.nodes@[i].grad == g0.nodes@[i].grad by {
                    if i == c {
                        assert(occurs_from(topo@, i, k as int));
                        assert(recv@[topo@[k as int] as int] == recv0[topo@[k as int] as int]);
                    } else {
                        if occurs_from(topo@, i, k + 1) && recv0[i] && accumulates(g0, i) {
                            let m = choose|m: int| k + 1 <= m < topo@.len() && topo@[m] == i;
                            assert(recv@[topo@[m] as int] == recv0[topo@[m] as int]);
                            assert(occurs_from(topo@, i, k as int));
                        }
                    }
                }
            }
        }
        proof {
            assert forall|i: int| 0 <= i < n && #[trigger] recv@[i] && i != root implies fed_by(g0, topo@, recv@, i as usize) by {
                let (kk, j) = choose|kk: int, j: int| 0 <= kk < topo@.len() && recv@[topo@[kk] as int] && flow_edge(g0, topo@[kk], j)
                    && #[trigger] parents_of(g0, topo@[kk])[j] == i;
            }
            assert(gradient_flow(g0, root, topo@, recv@));
            assert forall|i: int| 0 <= i < n && recv@[i] && accumulates(g0, i) implies
                (#[trigger] g.nodes@[i].grad matches Some(ng) && ng@ == accumulate_spec(g0.nodes@[i].grad, g0.nodes@[i].shape@)) by {
                assert(topo@.contains(i as usize));
                let m = choose|m: int| 0 <= m < topo@.len() && topo@[m] == i as usize;
                assert(occurs_from(topo@, i, 0));
            }
            assert forall|i: int| 0 <= i < n && !(recv@[i] && accumulates(g0, i)) implies
                #[trigger] g.nodes@[i].grad == g0.nodes@[i].grad by {}
            assert(grads_after(g0, *g, recv@));
        }
        topo
    }
}

} // verus!
