//! Loss functions. Each reduces to a scalar (shape `[]`).

use vstd::prelude::*;
use crate::autograd::node::{Graph, LeafInit, Op};
use crate::autograd::tensor::{Tensor, incompatible};
use crate::error::EngineError;
use crate::shape::{broadcast_spec, broadcastable, lemma_broadcast_absorb, lemma_broadcast_self};

verus! {

/// Mean squared error.
pub struct MSELoss;

/// Cross entropy of logits, computed through a numerically stable log-softmax.
pub struct CrossEntropyLoss;

/// Binary cross entropy with logits: `max(x, 0) - x * y + log(1 + exp(-|x|))`.
pub struct BCEWithLogitsLoss;

/// Mean absolute error.
pub struct L1Loss;

/// Node `t` of `g` is the mean squared error of node `p` against node `y`: the mean of
/// `(p - y)^2`.
pub open spec fn mse_structure(g: Graph, t: int, p: int, y: int) -> bool {
    let sq = g.nodes@[t].inputs@[0] as int;
    let d = g.nodes@[sq].inputs@[0] as int;
    &&& g.nodes@[t].op == Op::MeanAll && g.nodes@[t].inputs@.len() == 1
    &&& g.nodes@[sq].op == Op::Square && g.nodes@[sq].inputs@.len() == 1
    &&& g.nodes@[d].op == Op::Sub && g.nodes@[d].inputs@ == seq![p as usize, y as usize]
}

/// Node `t` of `g` is the mean absolute error of node `p` against node `y`: the mean of
/// `|p - y|`.
pub open spec fn l1_structure(g: Graph, t: int, p: int, y: int) -> bool {
    let a = g.nodes@[t].inputs@[0] as int;
    let d = g.nodes@[a].inputs@[0] as int;
    &&& g.nodes@[t].op == Op::MeanAll && g.nodes@[t].inputs@.len() == 1
    &&& g.nodes@[a].op == Op::Abs && g.nodes@[a].inputs@.len() == 1
    &&& g.nodes@[d].op == Op::Sub && g.nodes@[d].inputs@ == seq![p as usize, y as usize]
}

/// Node `t` of `g` is the binary cross-entropy of logits node `x` against targets node `y`:
/// the mean of `(relu(x) - x * y) + log(exp(-|x|) + 1)`, the constant 1 being a leaf of ones.
pub open spec fn bce_structure(g: Graph, t: int, x: int, y: int) -> bool {
    let ins = |k: int| g.nodes@[k].inputs@;
    let l = ins(t)[0] as int;
    let d = ins(l)[0] as int;
    let lt = ins(l)[1] as int;
    let rx = ins(d)[0] as int;
    let xy = ins(d)[1] as int;
    let op1 = ins(lt)[0] as int;
    let e = ins(op1)[0] as int;
    let one = ins(op1)[1] as int;
    let na = ins(e)[0] as int;
    let ab = ins(na)[0] as int;
    &&& g.nodes@[t].op == Op::MeanAll && ins(t).len() == 1
    &&& g.nodes@[l].op == Op::Add && ins(l).len() == 2
    &&& g.nodes@[d].op == Op::Sub && ins(d).len() == 2
    &&& g.nodes@[rx].op == Op::Relu && ins(rx) == seq![x as usize]
    &&& g.nodes@[xy].op == Op::Mul && ins(xy) == seq![x as usize, y as usize]
    &&& g.nodes@[lt].op == Op::Log && ins(lt).len() == 1
    &&& g.nodes@[op1].op == Op::Add && ins(op1).len() == 2
    &&& g.nodes@[one].op == Op::Leaf(LeafInit::Ones)
    &&& g.nodes@[e].op == Op::Exp && ins(e).len() == 1
    &&& g.nodes@[na].op == Op::Neg && ins(na).len() == 1
    &&& g.nodes@[ab].op == Op::Abs && ins(ab) == seq![x as usize]
}

/// Node `t` of `g` is the cross-entropy of logits node `x` against target probabilities node
/// `y`: the mean over rows of the row sums of `-(log_softmax(x) * y)`, softmax along the classes.
pub open spec fn soft_cross_entropy_structure(g: Graph, t: int, x: int, y: int) -> bool {
    let ins = |k: int| g.nodes@[k].inputs@;
    let pr = ins(t)[0] as int;
    let nll = ins(pr)[0] as int;
    let prod = ins(nll)[0] as int;
    let lp = ins(prod)[0] as int;
    &&& g.nodes@[t].op == Op::MeanAll && ins(t).len() == 1
    &&& g.nodes@[pr].op == (Op::Sum { axis: 1, keepdim: false }) && ins(pr).len() == 1
    &&& g.nodes@[nll].op == Op::Neg && ins(nll).len() == 1
    &&& g.nodes@[prod].op == Op::Mul && ins(prod).len() == 2 && ins(prod)[1] == y
    &&& g.nodes@[lp].op == (Op::LogSoftmax { axis: 1 }) && ins(lp) == seq![x as usize]
}

/// Node `t` of `g` is the cross-entropy of the logits node `x` against the class indices
/// `targets`: the mean over rows of the row sums of the negated product of `log_softmax(x)`
/// along the classes with the one-hot rows of `targets`, that is the mean of
/// `-log_softmax(x)[b, targets[b]]`.
pub open spec fn cross_entropy_structure(g: Graph, t: int, x: int, targets: Seq<usize>) -> bool {
    let ins = |k: int| g.nodes@[k].inputs@;
    let pr = ins(t)[0] as int;
    let nll = ins(pr)[0] as int;
    let prod = ins(nll)[0] as int;
    let lp = ins(prod)[0] as int;
    let mask = ins(prod)[1] as int;
    &&& g.nodes@[t].op == Op::MeanAll && ins(t).len() == 1
    &&& g.nodes@[pr].op == (Op::Sum { axis: 1, keepdim: false }) && ins(pr).len() == 1
    &&& g.nodes@[nll].op == Op::Neg && ins(nll).len() == 1
    &&& g.nodes@[prod].op == Op::Mul && ins(prod).len() == 2
    &&& g.nodes@[lp].op == (Op::LogSoftmax { axis: 1 }) && ins(lp) == seq![x as usize]
    &&& g.nodes@[mask].op matches Op::Leaf(LeafInit::OneHot { targets: tv }) && tv@ == targets
}

/// In a cross-entropy, what is summed per row is the negation of the log-probabilities picked
/// by the one-hot mask, so the loss is the mean of `-log_softmax` at the targets, never its
/// mean without the sign.
pub proof fn lemma_cross_entropy_negates(g: Graph, t: int, x: int, targets: Seq<usize>)
    requires
        cross_entropy_structure(g, t, x, targets),
    ensures
        ({
            let pr = g.nodes@[t].inputs@[0] as int;
            let nll = g.nodes@[pr].inputs@[0] as int;
            let prod = g.nodes@[nll].inputs@[0] as int;
            &&& g.nodes@[nll].op == Op::Neg
            &&& g.nodes@[prod].op == Op::Mul
            &&& g.nodes@[g.nodes@[prod].inputs@[0] as int].op == (Op::LogSoftmax { axis: 1 })
        }),
{
}

/// `r` is a scalar loss recorded in `new`, whose last operation is a mean of all elements.
pub open spec fn scalar_loss(new: Graph, r: Result<Tensor, EngineError>) -> bool {
    r matches Ok(t) ==> t.valid(new) && t.shape_of(new) == Seq::<usize>::empty() && new.nodes@[t.id as int].op == Op::MeanAll
}

impl MSELoss {
    /// `mean((pred - target)^2)`; refused when the shapes do not broadcast.
    pub fn forward(g: &mut Graph, pred: &Tensor, target: &Tensor) -> (r: Result<Tensor, EngineError>)
        requires
            old(g).wf(),
            pred.valid(*old(g)),
            target.valid(*old(g)),
        ensures
            final(g).wf(),
            old(g).extended_by(*final(g)),
            r is Ok <==> broadcastable(pred.shape_of(*old(g)), target.shape_of(*old(g))),
            scalar_loss(*final(g), r),
            r matches Ok(t) ==> mse_structure(*final(g), t.id as int, pred.id as int, target.id as int),
            r matches Err(e) ==> incompatible(e, "sub", seq![pred.shape_of(*old(g)), target.shape_of(*old(g))]),
    {
        let ghost g0 = *g;
        let diff = pred.sub(g, target)?;
        let ghost g1 = *g;
        let sq = diff.square(g)?;
        let ghost g2 = *g;
        let t = sq.mean_all(g);
        proof {
            g0.lemma_extended_trans(g1, g2);
            g0.lemma_extended_trans(g2, *g);
            assert(g.nodes@[diff.id as int] == g1.nodes@[diff.id as int]);
            assert(g.nodes@[sq.id as int] == g2.nodes@[sq.id as int]);
        }
        Ok(t)
    }
}

impl L1Loss {
    /// `mean(|pred - target|)`; refused when the shapes do not broadcast.
    pub fn forward(g: &mut Graph, pred: &Tensor, target: &Tensor) -> (r: Result<Tensor, EngineError>)
        requires
            old(g).wf(),
            pred.valid(*old(g)),
            target.valid(*old(g)),
        ensures
            final(g).wf(),
            old(g).extended_by(*final(g)),
            r is Ok <==> broadcastable(pred.shape_of(*old(g)), target.shape_of(*old(g))),
            scalar_loss(*final(g), r),
            r matches Ok(t) ==> l1_structure(*final(g), t.id as int, pred.id as int, target.id as int),
            r matches Err(e) ==> incompatible(e, "sub", seq![pred.shape_of(*old(g)), target.shape_of(*old(g))]),
    {
        let ghost g0 = *g;
        let diff = pred.sub(g, target)?;
        let ghost g1 = *g;
        let a = diff.abs(g)?;
        let ghost g2 = *g;
        let t = a.mean_all(g);
        proof {
            g0.lemma_extended_trans(g1, g2);
            g0.lemma_extended_trans(g2, *g);
            assert(g.nodes@[diff.id as int] == g1.nodes@[diff.id as int]);
            assert(g.nodes@[a.id as int] == g2.nodes@[a.id as int]);
        }
        Ok(t)
    }
}

impl BCEWithLogitsLoss {
    /// Mean of `max(x, 0) - x * y + log(1 + exp(-|x|))`; refused when the shapes of logits and
    /// targets do not broadcast.
    pub fn forward(g: &mut Graph, logits: &Tensor, targets: &Tensor) -> (r: Result<Tensor, EngineError>)
        requires
            old(g).wf(),
            logits.valid(*old(g)),
            targets.valid(*old(g)),
        ensures
            final(g).wf(),
            old(g).extended_by(*final(g)),
            r is Ok <==> broadcastable(logits.shape_of(*old(g)), targets.shape_of(*old(g))),
            scalar_loss(*final(g), r),
            r matches Err(e) ==> incompatible(e, "mul", seq![logits.shape_of(*old(g)), targets.shape_of(*old(g))]),
            r matches Ok(t) ==> bce_structure(*final(g), t.id as int, logits.id as int, targets.id as int),
    {
        let ghost g0 = *g;
        let ghost x = logits.shape_of(*g);
        let ghost y = targets.shape_of(*g);
        let relu_x = logits.relu(g)?;
        let ghost g1 = *g;
        let x_mul_y = match logits.mul(g, targets) {
            Ok(t) => t,
            Err(e) => {
                proof {
                    g0.lemma_extended_trans(g1, *g);
                }
                return Err(e);
            },
        };
        let ghost g2 = *g;
        let ghost b = broadcast_spec(x, y);
        let abs_x = logits.abs(g)?;
        let ghost g3 = *g;
        let neg_abs = abs_x.neg(g);
        let ghost g4 = *g;
        let e = neg_abs.exp(g)?;
        let ghost g5 = *g;
        let one = Tensor::ones(g, &[], false);
        let ghost g6 = *g;
        proof {
            lemma_broadcast_absorb(x, y);
            assert(broadcastable(x, Seq::<usize>::empty())) by {
                crate::shape::lemma_broadcast_scalar(x);
            }
            crate::shape::lemma_broadcast_scalar(x);
            assert(g6.nodes@[e.id as int] == g5.nodes@[e.id as int]);
        }
        let one_plus = e.add(g, &one)?;
        let ghost g7 = *g;
        let log_term = one_plus.log(g)?;
        let ghost g8 = *g;
        proof {
            assert(g8.nodes@[relu_x.id as int] == g1.nodes@[relu_x.id as int]);
            assert(g8.nodes@[x_mul_y.id as int] == g2.nodes@[x_mul_y.id as int]);
        }
        let diff = relu_x.sub(g, &x_mul_y)?;
        let ghost g9 = *g;
        proof {
            assert(g9.nodes@[log_term.id as int] == g8.nodes@[log_term.id as int]);
        }
        let loss = diff.add(g, &log_term)?;
        let ghost g10 = *g;
        let t = loss.mean_all(g);
        proof {
            g0.lemma_extended_trans(g1, g2);
            g0.lemma_extended_trans(g2, g3);
            g0.lemma_extended_trans(g3, g4);
            g0.lemma_extended_trans(g4, g5);
            g0.lemma_extended_trans(g5, g6);
            g0.lemma_extended_trans(g6, g7);
            g0.lemma_extended_trans(g7, g8);
            g0.lemma_extended_trans(g8, g9);
            g0.lemma_extended_trans(g9, g10);
            g0.lemma_extended_trans(g10, *g);
            let gz = *g;
            g1.lemma_extended_trans(g2, gz);
            g2.lemma_extended_trans(g3, gz);
            g3.lemma_extended_trans(g4, gz);
            g4.lemma_extended_trans(g5, gz);
            g5.lemma_extended_trans(g6, gz);
            g6.lemma_extended_trans(g7, gz);
            g7.lemma_extended_trans(g8, gz);
            g8.lemma_extended_trans(g9, gz);
            g9.lemma_extended_trans(g10, gz);
            assert(gz.nodes@[relu_x.id as int] == g1.nodes@[relu_x.id as int]);
            assert(gz.nodes@[x_mul_y.id as int] == g2.nodes@[x_mul_y.id as int]);
            assert(gz.nodes@[abs_x.id as int] == g3.nodes@[abs_x.id as int]);
            assert(gz.nodes@[neg_abs.id as int] == g4.nodes@[neg_abs.id as int]);
            assert(gz.nodes@[e.id as int] == g5.nodes@[e.id as int]);
            assert(gz.nodes@[one.id as int] == g6.nodes@[one.id as int]);
            assert(gz.nodes@[one_plus.id as int] == g7.nodes@[one_plus.id as int]);
            assert(gz.nodes@[log_term.id as int] == g8.nodes@[log_term.id as int]);
            assert(gz.nodes@[diff.id as int] == g9.nodes@[diff.id as int]);
            assert(gz.nodes@[loss.id as int] == g10.nodes@[loss.id as int]);
        }
        Ok(t)
    }
}

impl CrossEntropyLoss {
    /// Mean over the batch of `-log_softmax(logits)[b, target[b]]` for `[N, C]` logits and `N`
    /// class indices. Refused with `InvalidArgument` for logits that are not 2D or an index
    /// `>= C`, and with `ShapeMismatch` when there are not `N` indices.
    pub fn forward_with_indices(g: &mut Graph, logits: &Tensor, target_indices: &[usize]) -> (r: Result<Tensor, EngineError>)
        requires
            old(g).wf(),
            logits.valid(*old(g)),
        ensures
            final(g).wf(),
            old(g).extended_by(*final(g)),
            r is Ok <==> (logits.shape_of(*old(g)).len() == 2 && target_indices@.len() == logits.shape_of(*old(g))[0]
                && forall|b: int| 0 <= b < target_indices@.len() ==> #[trigger] target_indices@[b] < logits.shape_of(*old(g))[1]),
            logits.shape_of(*old(g)).len() != 2 ==> (r matches Err(e) && e is InvalidArgument),
            logits.shape_of(*old(g)).len() == 2 && target_indices@.len() != logits.shape_of(*old(g))[0] ==> (r matches Err(e)
                && e is ShapeMismatch && e->expected@ == seq![logits.shape_of(*old(g))[0]]
                && e->actual@ == seq![target_indices@.len() as usize]),
            logits.shape_of(*old(g)).len() == 2 && target_indices@.len() == logits.shape_of(*old(g))[0] && r is Err ==> (r matches Err(e) && e is InvalidArgument),
            scalar_loss(*final(g), r),
            r matches Ok(t) ==> cross_entropy_structure(*final(g), t.id as int, logits.id as int, target_indices@),
    {
        let ghost g0 = *g;
        let shape = logits.shape(g);
        if shape.len() != 2 {
            return Err(EngineError::InvalidArgument("CrossEntropyLoss expects 2D logits [BatchSize, NumClasses]".to_owned()));
        }
        let batch_size = shape[0];
        let num_classes = shape[1];
        if batch_size != target_indices.len() {
            let mut expected: Vec<usize> = Vec::new();
            expected.push(batch_size);
            let mut actual: Vec<usize> = Vec::new();
            actual.push(target_indices.len());
            assert(expected@ =~= seq![batch_size]);
            assert(actual@ =~= seq![target_indices@.len() as usize]);
            return Err(EngineError::ShapeMismatch { expected, actual });
        }
        let mut b: usize = 0;
        while b < target_indices.len()
            invariant
                g0 == *old(g),
                *g == g0,
                g.wf(),
                logits.valid(*g),
                shape@ == logits.shape_of(*g),
                shape@.len() == 2,
                num_classes == shape@[1],
                target_indices@.len() == shape@[0],
                b <= target_indices@.len(),
                forall|j: int| 0 <= j < b ==> #[trigger] target_indices@[j] < num_classes,
            decreases target_indices.len() - b,
        {
            if target_indices[b] >= num_classes {
                assert(target_indices@[b as int] >= shape@[1]);
                return Err(EngineError::InvalidArgument("CrossEntropyLoss: target class index out of bounds".to_owned()));
            }
            b = b + 1;
        }
        let log_probs = logits.log_softmax(g, 1)?;
        let ghost g1 = *g;
        let mut ts: Vec<usize> = Vec::new();
        ts.push(batch_size);
        ts.push(num_classes);
        let mask = Tensor::leaf(g, ts.as_slice(), LeafInit::OneHot { targets: crate::shape::shape_vec(target_indices) }, false);
        let ghost g2 = *g;
        proof {
            assert(ts@ =~= seq![batch_size, num_classes]);
            assert(g2.nodes@[log_probs.id as int] == g1.nodes@[log_probs.id as int]);
            lemma_broadcast_self(ts@);
        }
        let prod = log_probs.mul(g, &mask)?;
        let ghost g3 = *g;
        let nll = prod.neg(g);
        let ghost g4 = *g;
        let per_row = nll.sum(g, 1, false)?;
        let ghost g5 = *g;
        let t = per_row.mean_all(g);
        proof {
            g0.lemma_extended_trans(g1, g2);
            g0.lemma_extended_trans(g2, g3);
            g0.lemma_extended_trans(g3, g4);
            g0.lemma_extended_trans(g4, g5);
            g0.lemma_extended_trans(g5, *g);
            let gz = *g;
            g1.lemma_extended_trans(g2, gz);
            g2.lemma_extended_trans(g3, gz);
            g3.lemma_extended_trans(g4, gz);
            g4.lemma_extended_trans(g5, gz);
            assert(gz.nodes@[log_probs.id as int] == g1.nodes@[log_probs.id as int]);
            assert(gz.nodes@[mask.id as int] == g2.nodes@[mask.id as int]);
            assert(gz.nodes@[prod.id as int] == g3.nodes@[prod.id as int]);
            assert(gz.nodes@[nll.id as int] == g4.nodes@[nll.id as int]);
            assert(gz.nodes@[per_row.id as int] == g5.nodes@[per_row.id as int]);
        }
        Ok(t)
    }

    /// Mean over the batch of `-sum(targets * log_softmax(logits))` for `[N, C]` logits and
    /// `[N, C]` target probabilities. Refused with `InvalidArgument` when either is not 2D and
    /// with `ShapeMismatch` when their shapes differ.
    pub fn forward_with_probabilities(g: &mut Graph, logits: &Tensor, targets: &Tensor) -> (r: Result<Tensor, EngineError>)
        requires
            old(g).wf(),
            logits.valid(*old(g)),
            targets.valid(*old(g)),
        ensures
            final(g).wf(),
            old(g).extended_by(*final(g)),
            r is Ok <==> (logits.shape_of(*old(g)).len() == 2 && targets.shape_of(*old(g)).len() == 2
                && logits.shape_of(*old(g)) == targets.shape_of(*old(g))),
            (logits.shape_of(*old(g)).len() != 2 || targets.shape_of(*old(g)).len() != 2) ==> (r matches Err(e) && e is InvalidArgument),
            (logits.shape_of(*old(g)).len() == 2 && targets.shape_of(*old(g)).len() == 2
                && logits.shape_of(*old(g)) != targets.shape_of(*old(g))) ==> (r matches Err(e)
                && e is ShapeMismatch && e->expected@ == logits.shape_of(*old(g)) && e->actual@ == targets.shape_of(*old(g))),
            scalar_loss(*final(g), r),
            r matches Ok(t) ==> soft_cross_entropy_structure(*final(g), t.id as int, logits.id as int, targets.id as int),
    {
        let ghost g0 = *g;
        let l_shape = logits.shape(g);
        let t_shape = targets.shape(g);
        if l_shape.len() != 2 {
            return Err(EngineError::InvalidArgument("CrossEntropyLoss expects 2D logits [BatchSize, NumClasses]".to_owned()));
        }
        if t_shape.len() != 2 {
            return Err(EngineError::InvalidArgument("CrossEntropyLoss expects 2D targets [BatchSize, NumClasses]".to_owned()));
        }
        if l_shape[0] != t_shape[0] || l_shape[1] != t_shape[1] {
            return Err(EngineError::ShapeMismatch { expected: l_shape, actual: t_shape });
        }
        assert(l_shape@ =~= t_shape@);
        let log_probs = logits.log_softmax(g, 1)?;
        let ghost g1 = *g;
        proof {
            assert(g1.nodes@[targets.id as int] == g0.nodes@[targets.id as int]);
            lemma_broadcast_self(l_shape@);
        }
        let prod = log_probs.mul(g, targets)?;
        let ghost g2 = *g;
        let nll = prod.neg(g);
        let ghost g3 = *g;
        let per_row = nll.sum(g, 1, false)?;
        let ghost g4 = *g;
        let t = per_row.mean_all(g);
        proof {
            g0.lemma_extended_trans(g1, g2);
            g0.lemma_extended_trans(g2, g3);
            g0.lemma_extended_trans(g3, g4);
            g0.lemma_extended_trans(g4, *g);
            let gz = *g;
            g1.lemma_extended_trans(g2, gz);
            g2.lemma_extended_trans(g3, gz);
            g3.lemma_extended_trans(g4, gz);
            assert(gz.nodes@[log_probs.id as int] == g1.nodes@[log_probs.id as int]);
            assert(gz.nodes@[prod.id as int] == g2.nodes@[prod.id as int]);
            assert(gz.nodes@[nll.id as int] == g3.nodes@[nll.id as int]);
            assert(gz.nodes@[per_row.id as int] == g4.nodes@[per_row.id as int]);
        }
        Ok(t)
    }
}

} // verus!
