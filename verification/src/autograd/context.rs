//! The switch that turns gradient tracking on and off, and the guard that turns it off for a
//! scope.

use vstd::prelude::*;
use crate::autograd::node::Graph;
use crate::autograd::tensor::{Tensor, recorded};

verus! {

/// Whether gradient tracking is enabled for operations recorded in `g`.
pub fn is_grad_enabled(g: &Graph) -> (r: bool)
    ensures
        r == g.grad_enabled,
{
    g.grad_enabled
}

/// Turns gradient tracking on or off for operations recorded in `g`.
pub fn set_grad_enabled(g: &mut Graph, enabled: bool)
    ensures
        final(g).grad_enabled == enabled,
        final(g).nodes == old(g).nodes,
        final(g).buffers == old(g).buffers,
{
    g.grad_enabled = enabled;
}

/// Guard that disables gradient tracking and remembers the previous setting, which
/// `release` restores.
pub struct NoGradGuard {
    pub prev_state: bool,
}

impl NoGradGuard {
    /// Disables gradient tracking and remembers whether it was enabled.
    pub fn new(g: &mut Graph) -> (r: NoGradGuard)
        ensures
            r.prev_state == old(g).grad_enabled,
            !final(g).grad_enabled,
            final(g).nodes == old(g).nodes,
            final(g).buffers == old(g).buffers,
    {
        let prev_state = is_grad_enabled(g);
        set_grad_enabled(g, false);
        NoGradGuard { prev_state }
    }

    /// Restores the setting that was in force when the guard was created.
    pub fn release(self, g: &mut Graph)
        ensures
            final(g).grad_enabled == self.prev_state,
            final(g).nodes == old(g).nodes,
            final(g).buffers == old(g).buffers,
    {
        set_grad_enabled(g, self.prev_state);
    }
}

/// With gradient tracking off, every operation's result, which its contract describes as
/// `recorded`, neither requires a gradient nor keeps parents or a backward step, whatever its
/// inputs require.
pub proof fn lemma_no_grad_result(old: Graph, new: Graph, t: Tensor, shape: Seq<usize>, inputs: Seq<usize>)
    requires
        !old.grad_enabled,
        recorded(old, new, t, shape, inputs),
    ensures
        !new.nodes@[t.id as int].requires_grad,
        !new.nodes@[t.id as int].has_backward,
        new.nodes@[t.id as int].parents@.len() == 0,
{
}

/// Runs `f` with gradient tracking disabled, then restores the previous setting. `f` is called
/// once, on the caller's graph with the switch off, and what it returns is the result.
pub fn no_grad<F, R>(g: &mut Graph, f: F) -> (r: R)
    where
        F: FnOnce(&mut Graph) -> R,
    requires
        forall|h: &mut Graph| mut_ref_current(h).nodes == old(g).nodes && mut_ref_current(h).buffers == old(g).buffers
            && !mut_ref_current(h).grad_enabled ==> #[trigger] call_requires(f, (h,)),
    ensures
        final(g).grad_enabled == old(g).grad_enabled,
        exists|h: &mut Graph| {
            &&& call_ensures(f, (h,), r)
            &&& !mut_ref_current(h).grad_enabled
            &&& mut_ref_current(h).nodes == old(g).nodes
            &&& mut_ref_current(h).buffers == old(g).buffers
            &&& mut_ref_future(h).nodes == final(g).nodes
            &&& mut_ref_future(h).buffers == final(g).buffers
        },
{
    let guard = NoGradGuard::new(g);
    let r = f(g);
    guard.release(g);
    r
}

} // verus!
