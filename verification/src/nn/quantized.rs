//! Shape rules and memory accounting of the int8 quantized linear layer; the quantization and
//! the dot products themselves work on `f32` values and run on the host.

use vstd::prelude::*;
use crate::error::EngineError;
use crate::shape::{numel, numel_spec, shape_fits, shape_vec};

verus! {

/// Output of the quantized layer for input of shape `x`: the last axis becomes `out_features`.
pub open spec fn qlinear_out_shape(x: Seq<usize>, out_features: usize) -> Seq<usize> {
    x.update(x.len() - 1, out_features)
}

/// Checks input of shape `in_shape` for a quantized layer `in_features -> out_features` and
/// returns the output shape and the number of rows (the product of all but the last axis).
/// Input of rank below 2 is refused with `InvalidArgument`, and a last axis other than
/// `in_features` with `ShapeMismatch { expected: [in_features], actual: [last] }`.
pub fn qlinear_plan(in_shape: &[usize], in_features: usize, out_features: usize) -> (r: Result<(Vec<usize>, usize), EngineError>)
    requires
        shape_fits(in_shape@),
    ensures
        r is Ok <==> in_shape@.len() >= 2 && in_shape@[in_shape@.len() - 1] == in_features,
        in_shape@.len() < 2 ==> (r matches Err(e) && e is InvalidArgument),
        (in_shape@.len() >= 2 && in_shape@[in_shape@.len() - 1] != in_features) ==> (r matches Err(e)
            && (e matches EngineError::ShapeMismatch { expected, actual }
                && expected@ == seq![in_features] && actual@ == seq![in_shape@[in_shape@.len() - 1]])),
        r matches Ok((out, rows)) ==> out@ == qlinear_out_shape(in_shape@, out_features)
            && rows == numel_spec(in_shape@.drop_last()),
{
    let ndim = in_shape.len();
    if ndim < 2 {
        return Err(EngineError::InvalidArgument("QLinear forward expects tensor with at least 2 dimensions".to_string()));
    }
    let in_k = in_shape[ndim - 1];
    if in_k != in_features {
        let mut expected: Vec<usize> = Vec::new();
        expected.push(in_features);
        let mut actual: Vec<usize> = Vec::new();
        actual.push(in_k);
        proof {
            assert(expected@ =~= seq![in_features]);
            assert(actual@ =~= seq![in_k]);
        }
        return Err(EngineError::ShapeMismatch { expected, actual });
    }
    let mut lead = shape_vec(in_shape);
    lead.pop();
    proof {
        assert(lead@ =~= in_shape@.drop_last());
        assert forall|i: int| 0 <= i <= lead@.len() implies #[trigger] numel_spec(lead@.subrange(0, i)) <= usize::MAX by {
            assert(lead@.subrange(0, i) =~= in_shape@.subrange(0, i));
        }
    }
    let rows = numel(lead.as_slice());
    let mut out = shape_vec(in_shape);
    out.set(ndim - 1, out_features);
    Ok((out, rows))
}

/// Bytes held by a quantized layer: one per int8 weight, four per `f32` scale and four per
/// `f32` bias entry.
pub fn qlinear_memory_bytes(qweight_len: usize, scales_len: usize, bias_len: Option<usize>) -> (r: usize)
    requires
        qweight_len + 4 * scales_len + 4 * (match bias_len { Some(b) => b as int, None => 0 }) <= usize::MAX,
    ensures
        r == qweight_len + 4 * scales_len + 4 * (match bias_len { Some(b) => b as int, None => 0 }),
{
    let b = match bias_len {
        Some(n) => n * 4,
        None => 0,
    };
    qweight_len + scales_len * 4 + b
}

} // verus!
