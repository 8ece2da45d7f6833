//! Dispatch plans of the GPU kernels: the shapes each kernel accepts, the shape and byte size of
//! its output, the four words of its parameter block and the number of workgroups it runs.
//! The device work itself (buffers, bind groups, submission) is done by the host side with a
//! plan in hand.

use vstd::prelude::*;
use crate::autograd::tensor::incompatible;
use crate::error::EngineError;
use crate::shape::{numel, numel_spec, shape_fits, shape_vec};

verus! {

/// `a / b` rounded up.
pub open spec fn div_ceil_spec(a: nat, b: nat) -> nat {
    ((a + b - 1) as nat) / b
}

/// `a / b` rounded up, as `u32::div_ceil` computes it.
pub fn div_ceil_u32(a: u32, b: u32) -> (r: u32)
    requires
        b > 0,
    ensures
        r == div_ceil_spec(a as nat, b as nat),
{
    let q = a / b;
    let rem = a % b;
    proof {
        assert(a == q * b + rem) by (nonlinear_arith)
            requires
                q == a / b,
                rem == a % b,
                b > 0,
        ;
    }
    if rem != 0 {
        proof {
            assert(q + 1 <= u32::MAX) by (nonlinear_arith)
                requires
                    a == q * b + rem,
                    0 < rem < b,
                    a <= u32::MAX,
            ;
            assert((a + b - 1) / (b as int) == q + 1) by (nonlinear_arith)
                requires
                    a == q * b + rem,
                    0 < rem < b,
            ;
        }
        q + 1
    } else {
        proof {
            assert((a + b - 1) / (b as int) == q) by (nonlinear_arith)
                requires
                    a == q * b,
                    b > 0,
            ;
        }
        q
    }
}

/// Dispatch coverage: `div_ceil(a, b)` workgroups of `b` threads cover all `a` elements, and
/// none of them is left without an element (the last one starts before `a`).
pub proof fn lemma_dispatch_covers(a: nat, b: nat)
    requires
        b > 0,
    ensures
        div_ceil_spec(a, b) * b >= a,
        div_ceil_spec(a, b) > 0 ==> (div_ceil_spec(a, b) - 1) * b < a,
{
    let q = div_ceil_spec(a, b);
    assert(q * b >= a && (q > 0 ==> (q - 1) * b < a)) by (nonlinear_arith)
        requires
            b > 0,
            q == ((a + b - 1) as nat) / b,
    ;
}

/// What the host needs to run one kernel.
pub struct KernelPlan {
    /// Shape of the output tensor.
    pub out_shape: Vec<usize>,
    /// Size of the output buffer in bytes (four per `f32`).
    pub out_bytes: u64,
    /// The four 32-bit words of the kernel's parameter block.
    pub params: Vec<u32>,
    /// Workgroups along x and y.
    pub workgroups: (u32, u32),
    /// Number of zero `f32`s in the placeholder buffer bound for an absent operand (0 when
    /// every operand is present).
    pub placeholder_len: usize,
}

/// Element-wise operation codes of the element-wise kernel.
pub const GPU_OP_ADD: u32 = 0;
pub const GPU_OP_SUB: u32 = 1;
pub const GPU_OP_MUL: u32 = 2;
pub const GPU_OP_DIV: u32 = 3;
pub const GPU_OP_RELU: u32 = 4;
pub const GPU_OP_GELU: u32 = 5;
pub const GPU_OP_SILU: u32 = 6;
pub const GPU_OP_TANH: u32 = 7;
pub const GPU_OP_SIGMOID: u32 = 8;
pub const GPU_OP_SCALE: u32 = 9;

/// Workgroup width of the matrix product along each output axis.
pub const GEMM_TILE: u32 = 64;
/// Workgroup width of the element-wise kernel.
pub const ELEMENTWISE_WORKGROUP: u32 = 256;
/// Rows handled by one workgroup of the row-wise kernels (softmax and normalizations).
pub const ROWS_PER_WORKGROUP: u32 = 64;

/// An upload of `n` values as a tensor of shape `shape` is accepted exactly when the counts
/// agree; otherwise `IncompatibleShapes` names `[n]` and the shape.
pub fn check_upload(n: usize, shape: &[usize]) -> (r: Result<(), EngineError>)
    requires
        shape_fits(shape@),
    ensures
        r is Ok <==> n == numel_spec(shape@),
        r matches Err(e) ==> incompatible(e, "GpuTensor::from_slice", seq![seq![n], shape@]),
{
    let expected = numel(shape);
    if n != expected {
        let mut first: Vec<usize> = Vec::new();
        first.push(n);
        let mut shapes: Vec<Vec<usize>> = Vec::new();
        shapes.push(first);
        shapes.push(shape_vec(shape));
        proof {
            assert(shapes@[0]@ =~= seq![n]);
        }
        return Err(EngineError::IncompatibleShapes { op: "GpuTensor::from_slice", shapes });
    }
    Ok(())
}

fn two_shapes_error(op: &'static str, a: &[usize], b: &[usize]) -> (e: EngineError)
    ensures
        incompatible(e, op, seq![a@, b@]),
{
    let mut shapes: Vec<Vec<usize>> = Vec::new();
    shapes.push(shape_vec(a));
    shapes.push(shape_vec(b));
    EngineError::IncompatibleShapes { op, shapes }
}

/// Plan of the matrix product `a @ b` of the last two axes: `[m, k] @ [k, n]` gives `[m, n]`.
/// An operand of rank below 2 is refused with `IncompatibleShapes` ("GpuTensor::matmul"), and
/// inner dimensions that differ with `IncompatibleShapes` ("... inner dimensions mismatch").
pub fn matmul_plan(a: &[usize], b: &[usize]) -> (r: Result<KernelPlan, EngineError>)
    requires
        a@.len() >= 2 && b@.len() >= 2 ==> a@[a@.len() - 2] * b@[b@.len() - 1] * 4 <= usize::MAX,
    ensures
        r is Ok <==> a@.len() >= 2 && b@.len() >= 2 && a@[a@.len() - 1] == b@[b@.len() - 2],
        r matches Err(e) ==> if a@.len() < 2 || b@.len() < 2 {
            incompatible(e, "GpuTensor::matmul", seq![a@, b@])
        } else {
            incompatible(e, "GpuTensor::matmul (inner dimensions mismatch)", seq![a@, b@])
        },
        r matches Ok(p) ==> {
            let m = a@[a@.len() - 2];
            let k = a@[a@.len() - 1];
            let n = b@[b@.len() - 1];
            &&& p.out_shape@ == seq![m, n]
            &&& p.out_bytes == m * n * 4
            &&& p.params@ == seq![m as u32, k as u32, n as u32, 0u32]
            &&& p.workgroups == (div_ceil_spec((n as u32) as nat, 64) as u32, div_ceil_spec((m as u32) as nat, 64) as u32)
            &&& p.placeholder_len == 0
        },
{
    if a.len() < 2 || b.len() < 2 {
        return Err(two_shapes_error("GpuTensor::matmul", a, b));
    }
    let m = a[a.len() - 2];
    let k_a = a[a.len() - 1];
    let k_b = b[b.len() - 2];
    let n = b[b.len() - 1];
    if k_a != k_b {
        return Err(two_shapes_error("GpuTensor::matmul (inner dimensions mismatch)", a, b));
    }
    let bytes = m * n * 4;
    let mut out_shape: Vec<usize> = Vec::new();
    out_shape.push(m);
    out_shape.push(n);
    let mut params: Vec<u32> = Vec::new();
    params.push(m as u32);
    params.push(k_a as u32);
    params.push(n as u32);
    params.push(0);
    let wx = div_ceil_u32(n as u32, GEMM_TILE);
    let wy = div_ceil_u32(m as u32, GEMM_TILE);
    assert(params@ =~= seq![m as u32, k_a as u32, n as u32, 0u32]);
    assert(out_shape@ =~= seq![m, n]);
    Ok(KernelPlan { out_shape, out_bytes: bytes as u64, params, workgroups: (wx, wy), placeholder_len: 0 })
}

/// Whether two shapes are equal.
fn same_shape(a: &[usize], b: &[usize]) -> (r: bool)
    ensures
        r <==> a@ == b@,
{
    if a.len() != b.len() {
        return false;
    }
    let mut i: usize = 0;
    while i < a.len()
        invariant
            a@.len() == b@.len(),
            i <= a@.len(),
            forall|j: int| 0 <= j < i ==> a@[j] == b@[j],
        decreases a.len() - i,
    {
        if a[i] != b[i] {
            return false;
        }
        i = i + 1;
    }
    assert(a@ =~= b@);
    true
}

/// The element-wise kernel accepts a second operand of shape `b` next to `a`: the same shape,
/// a single element, or as many elements as the last axis of `a`.
pub open spec fn elementwise_ok(a: Seq<usize>, b: Seq<usize>) -> bool {
    ||| b == a
    ||| numel_spec(b) == 1
    ||| (a.len() > 0 && numel_spec(b) == a[a.len() - 1])
}

/// Plan of element-wise operation `op` (one of the `GPU_OP_*` codes) on `a`, with the second
/// operand of shape `b` when there is one and the scalar whose `f32` bit pattern is
/// `scalar_bits`. The output has `a`'s shape; an absent operand is replaced by a placeholder of
/// one value. A second operand that the kernel does not accept is refused with
/// `IncompatibleShapes` ("GpuTensor elementwise").
pub fn elementwise_plan(a: &[usize], b: Option<&[usize]>, op: u32, scalar_bits: u32) -> (r: Result<KernelPlan, EngineError>)
    requires
        shape_fits(a@),
        b matches Some(s) ==> shape_fits(s@),
        numel_spec(a@) * 4 <= usize::MAX,
    ensures
        r is Ok <==> (b matches Some(s) ==> elementwise_ok(a@, s@)),
        r matches Err(e) ==> (b matches Some(s) && incompatible(e, "GpuTensor elementwise", seq![a@, s@])),
        r matches Ok(p) ==> {
            let len = numel_spec(a@);
            let b_len = match b { Some(s) => numel_spec(s@), None => 1 };
            &&& p.out_shape@ == a@
            &&& p.out_bytes == len * 4
            &&& p.params@ == seq![len as u32, op, scalar_bits, b_len as u32]
            &&& p.workgroups == (div_ceil_spec((len as u32) as nat, 256) as u32, 1u32)
            &&& p.placeholder_len == (if b is None { 1usize } else { 0usize })
        },
{
    let len = numel(a);
    let b_len = match b {
        Some(s) => {
            let o_len = numel(s);
            let same = same_shape(a, s);
            if !same && o_len != 1 && (a.len() == 0 || o_len != a[a.len() - 1]) {
                return Err(two_shapes_error("GpuTensor elementwise", a, s));
            }
            o_len
        },
        None => 1,
    };
    let mut params: Vec<u32> = Vec::new();
    params.push(len as u32);
    params.push(op);
    params.push(scalar_bits);
    params.push(b_len as u32);
    assert(params@ =~= seq![len as u32, op, scalar_bits, b_len as u32]);
    let wx = div_ceil_u32(len as u32, ELEMENTWISE_WORKGROUP);
    let placeholder_len: usize = if b.is_none() { 1 } else { 0 };
    Ok(KernelPlan { out_shape: shape_vec(a), out_bytes: (len * 4) as u64, params, workgroups: (wx, 1), placeholder_len })
}

/// Plan of the row-wise softmax of a `[rows, cols, ...]` tensor over `cols`: the output has the
/// input's shape. A tensor of rank below 2 is refused with `IncompatibleShapes`.
pub fn softmax_plan(a: &[usize]) -> (r: Result<KernelPlan, EngineError>)
    requires
        a@.len() >= 2 ==> a@[0] * a@[1] * 4 <= usize::MAX,
    ensures
        r is Ok <==> a@.len() >= 2,
        r matches Err(e) ==> incompatible(e, "GpuTensor::softmax (expected 2D tensor)", seq![a@]),
        r matches Ok(p) ==> {
            &&& p.out_shape@ == a@
            &&& p.out_bytes == a@[0] * a@[1] * 4
            &&& p.params@ == seq![a@[0] as u32, a@[1] as u32, 0u32, 0u32]
            &&& p.workgroups == (div_ceil_spec((a@[0] as u32) as nat, 64) as u32, 1u32)
            &&& p.placeholder_len == 0
        },
{
    if a.len() < 2 {
        let mut shapes: Vec<Vec<usize>> = Vec::new();
        shapes.push(shape_vec(a));
        return Err(EngineError::IncompatibleShapes { op: "GpuTensor::softmax (expected 2D tensor)", shapes });
    }
    let rows = a[0];
    let cols = a[1];
    let mut params: Vec<u32> = Vec::new();
    params.push(rows as u32);
    params.push(cols as u32);
    params.push(0);
    params.push(0);
    assert(params@ =~= seq![rows as u32, cols as u32, 0u32, 0u32]);
    let wx = div_ceil_u32(rows as u32, ROWS_PER_WORKGROUP);
    Ok(KernelPlan { out_shape: shape_vec(a), out_bytes: (rows * cols * 4) as u64, params, workgroups: (wx, 1), placeholder_len: 0 })
}

/// Plan of the row-wise normalization of a `[rows, cols, ...]` tensor over `cols` with the
/// epsilon whose `f32` bit pattern is `eps_bits`: layer normalization (`rms` false), whose
/// absent shift is replaced by `cols` zeros, or RMS normalization (`rms` true), which always
/// binds `cols` zeros as its shift. The output has the input's shape.
pub fn norm_plan(a: &[usize], eps_bits: u32, rms: bool, has_beta: bool) -> (r: KernelPlan)
    requires
        a@.len() >= 2,
        a@[0] * a@[1] * 4 <= usize::MAX,
    ensures
        r.out_shape@ == a@,
        r.out_bytes == a@[0] * a@[1] * 4,
        r.params@ == seq![a@[0] as u32, a@[1] as u32, eps_bits, if rms { 1u32 } else { 0u32 }],
        r.workgroups == (div_ceil_spec((a@[0] as u32) as nat, 64) as u32, 1u32),
        r.placeholder_len == (if rms || !has_beta { a@[1] } else { 0usize }),
{
    let rows = a[0];
    let cols = a[1];
    let mut params: Vec<u32> = Vec::new();
    params.push(rows as u32);
    params.push(cols as u32);
    params.push(eps_bits);
    params.push(if rms { 1 } else { 0 });
    assert(params@ =~= seq![rows as u32, cols as u32, eps_bits, if rms { 1u32 } else { 0u32 }]);
    let wx = div_ceil_u32(rows as u32, ROWS_PER_WORKGROUP);
    let placeholder_len = if rms || !has_beta { cols } else { 0 };
    KernelPlan { out_shape: shape_vec(a), out_bytes: (rows * cols * 4) as u64, params, workgroups: (wx, 1), placeholder_len }
}

} // verus!
