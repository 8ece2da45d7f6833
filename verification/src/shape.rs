//! Shape algebra of strided tensors: element counts, NumPy broadcasting, reductions,
//! reshapes, transposes, permutations, slicing, concatenation, matrix products,
//! convolution and pooling output sizes, and C-contiguous strides and offsets.

use vstd::prelude::*;

verus! {

// ---------------------------------------------------------------------------
// Element counts
// ---------------------------------------------------------------------------

/// Number of elements of a tensor with shape `s`: the product of its dimensions.
pub open spec fn numel_spec(s: Seq<usize>) -> int
    decreases s.len(),
{
    if s.len() == 0 {
        1
    } else {
        numel_spec(s.drop_last()) * s.last()
    }
}

/// Every partial product of the dimensions fits in a `usize`, so the element count can be
/// computed by multiplying the dimensions from the first to the last.
pub open spec fn shape_fits(s: Seq<usize>) -> bool {
    forall|i: int| 0 <= i <= s.len() ==> #[trigger] numel_spec(s.subrange(0, i)) <= usize::MAX
}

pub proof fn lemma_numel_nonneg(s: Seq<usize>)
    ensures
        numel_spec(s) >= 0,
    decreases s.len(),
{
    if s.len() > 0 {
        lemma_numel_nonneg(s.drop_last());
        assert(numel_spec(s.drop_last()) * s.last() >= 0) by (nonlinear_arith)
            requires
                numel_spec(s.drop_last()) >= 0,
        ;
    }
}

proof fn lemma_numel_prefix_step(s: Seq<usize>, i: int)
    requires
        0 <= i < s.len(),
    ensures
        numel_spec(s.subrange(0, i + 1)) == numel_spec(s.subrange(0, i)) * s[i],
{
    assert(s.subrange(0, i + 1).drop_last() =~= s.subrange(0, i));
}

/// Element count of a shape whose partial products fit in a `usize`.
pub fn numel(shape: &[usize]) -> (n: usize)
    requires
        shape_fits(shape@),
    ensures
        n == numel_spec(shape@),
{
    let mut acc: usize = 1;
    let mut i: usize = 0;
    assert(shape@.subrange(0, 0) =~= Seq::<usize>::empty());
    while i < shape.len()
        invariant
            i <= shape@.len(),
            shape_fits(shape@),
            acc == numel_spec(shape@.subrange(0, i as int)),
        decreases shape.len() - i,
    {
        proof {
            lemma_numel_prefix_step(shape@, i as int);
            assert(numel_spec(shape@.subrange(0, i + 1)) <= usize::MAX);
        }
        acc = acc * shape[i];
        i = i + 1;
    }
    assert(shape@.subrange(0, shape@.len() as int) =~= shape@);
    acc
}

/// Element count of a shape, or `None` where a partial product does not fit in a `usize`.
pub fn checked_numel(shape: &[usize]) -> (r: Option<usize>)
    ensures
        r is Some <==> shape_fits(shape@),
        r matches Some(n) ==> n == numel_spec(shape@),
{
    let mut acc: usize = 1;
    let mut i: usize = 0;
    assert(shape@.subrange(0, 0) =~= Seq::<usize>::empty());
    while i < shape.len()
        invariant
            i <= shape@.len(),
            acc == numel_spec(shape@.subrange(0, i as int)),
            forall|j: int| 0 <= j <= i ==> #[trigger] numel_spec(shape@.subrange(0, j)) <= usize::MAX,
        decreases shape.len() - i,
    {
        proof {
            lemma_numel_prefix_step(shape@, i as int);
        }
        match acc.checked_mul(shape[i]) {
            Some(v) => {
                acc = v;
            },
            None => {
                assert(!(numel_spec(shape@.subrange(0, i + 1)) <= usize::MAX));
                return None;
            },
        }
        i = i + 1;
        assert forall|j: int| 0 <= j <= i implies #[trigger] numel_spec(shape@.subrange(0, j))
            <= usize::MAX by {
            if j == i {
            }
        }
    }
    assert(shape@.subrange(0, shape@.len() as int) =~= shape@);
    Some(acc)
}

// ---------------------------------------------------------------------------
// Broadcasting (NumPy semantics: shapes are aligned at their last dimension)
// ---------------------------------------------------------------------------

/// Dimension `i` of shape `s` once it is left-padded with ones to rank `n`.
pub open spec fn bdim(s: Seq<usize>, n: int, i: int) -> usize {
    if i >= n - s.len() {
        s[i - (n - s.len())]
    } else {
        1
    }
}

/// Rank of the broadcast of two shapes.
pub open spec fn brank(a: Seq<usize>, b: Seq<usize>) -> int {
    if a.len() >= b.len() {
        a.len() as int
    } else {
        b.len() as int
    }
}

/// Two shapes can be broadcast together: aligned at their last dimension, each pair of
/// dimensions is equal or one of them is 1.
pub open spec fn broadcastable(a: Seq<usize>, b: Seq<usize>) -> bool {
    let n = brank(a, b);
    forall|i: int|
        0 <= i < n ==> {
            let da = #[trigger] bdim(a, n, i);
            let db = bdim(b, n, i);
            da == db || da == 1 || db == 1
        }
}

/// The broadcast shape of `a` and `b`: each dimension is the one of the pair that is not 1.
pub open spec fn broadcast_spec(a: Seq<usize>, b: Seq<usize>) -> Seq<usize> {
    let n = brank(a, b);
    Seq::new(
        n as nat,
        |i: int|
            if bdim(a, n, i) == 1 {
                bdim(b, n, i)
            } else {
                bdim(a, n, i)
            },
    )
}

/// Broadcasts two shapes together, or returns `None` where they are incompatible.
pub fn broadcast_shapes(a: &[usize], b: &[usize]) -> (r: Option<Vec<usize>>)
    ensures
        r is Some <==> broadcastable(a@, b@),
        r matches Some(v) ==> v@ == broadcast_spec(a@, b@),
{
    let la = a.len();
    let lb = b.len();
    let n = if la >= lb {
        la
    } else {
        lb
    };
    let mut out: Vec<usize> = Vec::with_capacity(n);
    let mut i: usize = 0;
    while i < n
        invariant
            la == a@.len(),
            lb == b@.len(),
            n as int == brank(a@, b@),
            i <= n,
            out@.len() == i,
            forall|j: int| 0 <= j < i ==> #[trigger] out@[j] == broadcast_spec(a@, b@)[j],
            forall|j: int|
                0 <= j < i ==> {
                    let da = #[trigger] bdim(a@, n as int, j);
                    let db = bdim(b@, n as int, j);
                    da == db || da == 1 || db == 1
                },
        decreases n - i,
    {
        let da = if i >= n - la {
            a[i - (n - la)]
        } else {
            1
        };
        let db = if i >= n - lb {
            b[i - (n - lb)]
        } else {
            1
        };
        assert(da == bdim(a@, n as int, i as int));
        assert(db == bdim(b@, n as int, i as int));
        if da == db || db == 1 {
            out.push(da);
        } else if da == 1 {
            out.push(db);
        } else {
            return None;
        }
        i = i + 1;
    }
    assert(out@ =~= broadcast_spec(a@, b@));
    Some(out)
}

/// Broadcasting is symmetric, and the broadcast shape does not depend on the order of the operands.
pub proof fn lemma_broadcast_commutes(a: Seq<usize>, b: Seq<usize>)
    ensures
        broadcastable(a, b) == broadcastable(b, a),
        broadcastable(a, b) ==> broadcast_spec(a, b) == broadcast_spec(b, a),
{
    let n = brank(a, b);
    assert(brank(b, a) == n);
    if broadcastable(a, b) {
        assert forall|i: int| 0 <= i < n implies {
            let da = #[trigger] bdim(b, n, i);
            let db = bdim(a, n, i);
            da == db || da == 1 || db == 1
        } by {
            let _ = bdim(a, n, i);
        }
        assert(broadcast_spec(a, b) =~= broadcast_spec(b, a)) by {
            assert forall|i: int| 0 <= i < n implies broadcast_spec(a, b)[i] == broadcast_spec(
                b,
                a,
            )[i] by {
                let _ = bdim(a, n, i);
            }
        }
    }
    if broadcastable(b, a) {
        assert forall|i: int| 0 <= i < n implies {
            let da = #[trigger] bdim(a, n, i);
            let db = bdim(b, n, i);
            da == db || da == 1 || db == 1
        } by {
            let _ = bdim(b, n, i);
        }
    }
}

/// A shape broadcast with itself is itself.
pub proof fn lemma_broadcast_self(a: Seq<usize>)
    ensures
        broadcastable(a, a),
        broadcast_spec(a, a) == a,
{
    assert(broadcast_spec(a, a) =~= a);
}

/// A scalar broadcasts with every shape and leaves it unchanged.
pub proof fn lemma_broadcast_scalar(a: Seq<usize>)
    ensures
        broadcastable(a, Seq::<usize>::empty()),
        broadcast_spec(a, Seq::<usize>::empty()) == a,
{
    assert(broadcast_spec(a, Seq::<usize>::empty()) =~= a);
}

// ---------------------------------------------------------------------------
// Reductions
// ---------------------------------------------------------------------------

/// Shape after reducing `axis`: the axis is kept as 1 with `keepdim`, removed otherwise.
pub open spec fn reduce_spec(s: Seq<usize>, axis: int, keepdim: bool) -> Seq<usize> {
    if keepdim {
        s.update(axis, 1)
    } else {
        s.remove(axis)
    }
}

/// Shape after reducing `axis`; the caller checks that the axis exists.
pub fn reduce_shape(s: &[usize], axis: usize, keepdim: bool) -> (r: Vec<usize>)
    requires
        axis < s@.len(),
    ensures
        r@ == reduce_spec(s@, axis as int, keepdim),
{
    let mut out: Vec<usize> = Vec::with_capacity(s.len());
    let mut i: usize = 0;
    while i < s.len()
        invariant
            axis < s@.len(),
            i <= s@.len(),
            out@ == (if keepdim {
                s@.update(axis as int, 1).subrange(0, i as int)
            } else if i <= axis {
                s@.subrange(0, i as int)
            } else {
                s@.remove(axis as int).subrange(0, i - 1)
            }),
        decreases s.len() - i,
    {
        if i == axis {
            if keepdim {
                out.push(1);
            }
        } else {
            out.push(s[i]);
        }
        proof {
            if keepdim {
                assert(s@.update(axis as int, 1).subrange(0, i + 1) =~= s@.update(
                    axis as int,
                    1,
                ).subrange(0, i as int).push(if i == axis { 1 } else { s@[i as int] }));
            } else if i < axis {
                assert(s@.subrange(0, i + 1) =~= s@.subrange(0, i as int).push(s@[i as int]));
            } else if i == axis {
                assert(s@.remove(axis as int).subrange(0, i as int) =~= s@.subrange(0, i as int));
            } else {
                assert(s@.remove(axis as int).subrange(0, i as int) =~= s@.remove(
                    axis as int,
                ).subrange(0, i - 1).push(s@[i as int]));
            }
        }
        i = i + 1;
    }
    proof {
        if keepdim {
            assert(s@.update(axis as int, 1).subrange(0, s@.len() as int) =~= s@.update(
                axis as int,
                1,
            ));
        } else {
            assert(s@.remove(axis as int).subrange(0, s@.len() - 1) =~= s@.remove(axis as int));
        }
    }
    out
}

// ---------------------------------------------------------------------------
// Layout changes
// ---------------------------------------------------------------------------

/// Shape after exchanging dimensions `d0` and `d1`.
pub open spec fn transpose_spec(s: Seq<usize>, d0: int, d1: int) -> Seq<usize> {
    s.update(d0, s[d1]).update(d1, s[d0])
}

/// `dims` lists every axis of a rank-`n` tensor exactly once.
pub open spec fn is_permutation(dims: Seq<usize>, n: int) -> bool {
    &&& dims.len() == n
    &&& forall|i: int| 0 <= i < n ==> #[trigger] dims[i] < n
    &&& forall|i: int, j: int| 0 <= i < j < n ==> dims[i] != dims[j]
}

/// Shape after moving axis `dims[i]` to position `i`.
pub open spec fn permute_spec(s: Seq<usize>, dims: Seq<usize>) -> Seq<usize> {
    Seq::new(dims.len(), |i: int| s[dims[i] as int])
}

/// Shape after inserting a dimension of size 1 at `axis`.
pub open spec fn unsqueeze_spec(s: Seq<usize>, axis: int) -> Seq<usize> {
    s.insert(axis, 1)
}

/// Shape after removing `axis` when it has size 1 (a larger axis is left in place).
pub open spec fn squeeze_spec(s: Seq<usize>, axis: int) -> Seq<usize> {
    if s[axis] == 1 {
        s.remove(axis)
    } else {
        s
    }
}

/// Shape of the slice `[start, end)` of `axis`.
pub open spec fn slice_spec(s: Seq<usize>, axis: int, start: int, end: int) -> Seq<usize> {
    s.update(axis, (end - start) as usize)
}

/// Checks that `dims` is a permutation of the axes of a rank-`n` tensor.
pub fn check_permutation(dims: &[usize], n: usize) -> (r: bool)
    ensures
        r == is_permutation(dims@, n as int),
{
    if dims.len() != n {
        return false;
    }
    let mut seen: Vec<bool> = Vec::with_capacity(n);
    let mut k: usize = 0;
    while k < n
        invariant
            k <= n,
            seen@.len() == k,
            forall|j: int| 0 <= j < k ==> !(#[trigger] seen@[j]),
        decreases n - k,
    {
        seen.push(false);
        k = k + 1;
    }
    let mut i: usize = 0;
    while i < n
        invariant
            dims@.len() == n,
            i <= n,
            seen@.len() == n,
            forall|j: int| 0 <= j < i ==> #[trigger] dims@[j] < n,
            forall|j: int, l: int| 0 <= j < l < i ==> dims@[j] != dims@[l],
            forall|v: int| 0 <= v < n ==> (#[trigger] seen@[v] <==> exists|j: int| 0 <= j < i && dims@[j] == v),
        decreases n - i,
    {
        let d = dims[i];
        if d >= n {
            return false;
        }
        if seen[d] {
            return false;
        }
        seen.set(d, true);
        proof {
            assert forall|v: int| 0 <= v < n implies (#[trigger] seen@[v] <==> exists|j: int|
                0 <= j < i + 1 && dims@[j] == v) by {
                if v == d {
                    assert(dims@[i as int] == v);
                } else if seen@[v] {
                    let j = choose|j: int| 0 <= j < i && dims@[j] == v;
                    assert(0 <= j < i + 1 && dims@[j] == v);
                } else {
                    if exists|j: int| 0 <= j < i + 1 && dims@[j] == v {
                        let j = choose|j: int| 0 <= j < i + 1 && dims@[j] == v;
                        assert(j != i);
                    }
                }
            }
            assert forall|j: int, l: int| 0 <= j < l < i + 1 implies dims@[j] != dims@[l] by {
                if l == i && dims@[j] == dims@[l] {
                    assert(seen@[d as int]) by {
                        assert(0 <= j < i && dims@[j] == d);
                    }
                }
            }
        }
        i = i + 1;
    }
    true
}

/// Inverse of a permutation: `inv[dims[i]] == i`.
pub fn inverse_permutation(dims: &[usize]) -> (inv: Vec<usize>)
    requires
        is_permutation(dims@, dims@.len() as int),
    ensures
        inv@.len() == dims@.len(),
        forall|i: int| 0 <= i < dims@.len() ==> inv@[dims@[i] as int] == i,
        is_permutation(inv@, dims@.len() as int),
{
    let n = dims.len();
    let mut inv: Vec<usize> = Vec::with_capacity(n);
    let mut k: usize = 0;
    while k < n
        invariant
            k <= n,
            inv@.len() == k,
        decreases n - k,
    {
        inv.push(0);
        k = k + 1;
    }
    let mut i: usize = 0;
    while i < n
        invariant
            n == dims@.len(),
            is_permutation(dims@, n as int),
            i <= n,
            inv@.len() == n,
            forall|j: int| 0 <= j < i ==> inv@[#[trigger] dims@[j] as int] == j,
        decreases n - i,
    {
        inv.set(dims[i], i);
        proof {
            assert forall|j: int| 0 <= j < i + 1 implies inv@[#[trigger] dims@[j] as int] == j by {
                if j < i {
                    assert(dims@[j] != dims@[i as int]);
                }
            }
        }
        i = i + 1;
    }
    proof {
        lemma_permutation_onto(dims@, n as int);
        assert forall|v: int| 0 <= v < n implies #[trigger] inv@[v] < n by {
            assert(lists_axis(dims@, n as int, v));
            let j = choose|j: int| 0 <= j < n && dims@[j] == v;
            assert(inv@[dims@[j] as int] == j);
        }
        assert forall|v: int, w: int| 0 <= v < w < n implies inv@[v] != inv@[w] by {
            assert(lists_axis(dims@, n as int, v));
            assert(lists_axis(dims@, n as int, w));
            let j = choose|j: int| 0 <= j < n && dims@[j] == v;
            let l = choose|l: int| 0 <= l < n && dims@[l] == w;
            assert(inv@[dims@[j] as int] == j);
            assert(inv@[dims@[l] as int] == l);
        }
    }
    inv
}

/// Axis `v` is listed among the first `n` entries of `dims`.
pub open spec fn lists_axis(dims: Seq<usize>, n: int, v: int) -> bool {
    exists|j: int| 0 <= j < n && dims[j] == v
}

/// A permutation of `0..n` reaches every axis.
pub proof fn lemma_permutation_onto(dims: Seq<usize>, n: int)
    requires
        is_permutation(dims, n),
    ensures
        forall|v: int| 0 <= v < n ==> #[trigger] lists_axis(dims, n, v),
{
    assert forall|v: int| 0 <= v < n implies #[trigger] lists_axis(dims, n, v) by {
        if !lists_axis(dims, n, v) {
            let f = |j: int| dims[j] as int;
            let dom = vstd::set_lib::set_int_range(0, n);
            let img = vstd::set_lib::set_int_range(0, n).remove(v);
            vstd::set_lib::lemma_int_range(0, n);
            let mapped = dom.map(f);
            assert forall|y: int| mapped.contains(y) implies img.contains(y) by {
                let j = choose|j: int| dom.contains(j) && f(j) == y;
                assert(dims[j] < n);
                assert(dims[j] != v);
            }
            assert(mapped.subset_of(img));
            assert(vstd::relations::injective_on(f, dom)) by {
                assert forall|x: int, y: int|
                    dom.contains(x) && dom.contains(y) && #[trigger] f(x) == #[trigger] f(y) implies x
                    == y by {
                    if x < y {
                        assert(dims[x] != dims[y]);
                    } else if y < x {
                        assert(dims[y] != dims[x]);
                    }
                }
            }
            vstd::set_lib::lemma_map_size(dom, mapped, f);
            vstd::set_lib::lemma_len_subset(mapped, img);
            assert(img.len() == n - 1);
        }
    }
}

/// Copies a shape into a fresh vector.
pub fn shape_vec(s: &[usize]) -> (r: Vec<usize>)
    ensures
        r@ == s@,
{
    let mut out: Vec<usize> = Vec::with_capacity(s.len());
    let mut i: usize = 0;
    while i < s.len()
        invariant
            i <= s@.len(),
            out@ == s@.subrange(0, i as int),
        decreases s.len() - i,
    {
        out.push(s[i]);
        i = i + 1;
        assert(out@ =~= s@.subrange(0, i as int));
    }
    assert(out@ =~= s@);
    out
}

/// Shape with dimensions `d0` and `d1` exchanged.
pub fn transpose_shape(s: &[usize], d0: usize, d1: usize) -> (r: Vec<usize>)
    requires
        d0 < s@.len(),
        d1 < s@.len(),
    ensures
        r@ == transpose_spec(s@, d0 as int, d1 as int),
{
    let a = s[d0];
    let b = s[d1];
    let mut out = shape_vec(s);
    out.set(d0, b);
    out.set(d1, a);
    out
}

/// Shape with axis `dims[i]` moved to position `i`.
pub fn permute_shape(s: &[usize], dims: &[usize]) -> (r: Vec<usize>)
    requires
        is_permutation(dims@, s@.len() as int),
    ensures
        r@ == permute_spec(s@, dims@),
{
    let mut out: Vec<usize> = Vec::with_capacity(dims.len());
    let mut i: usize = 0;
    while i < dims.len()
        invariant
            is_permutation(dims@, s@.len() as int),
            i <= dims@.len(),
            out@ == permute_spec(s@, dims@).subrange(0, i as int),
        decreases dims.len() - i,
    {
        out.push(s[dims[i]]);
        i = i + 1;
        assert(out@ =~= permute_spec(s@, dims@).subrange(0, i as int));
    }
    assert(out@ =~= permute_spec(s@, dims@));
    out
}

/// Shape with a dimension of size 1 inserted at `axis`.
pub fn unsqueeze_shape(s: &[usize], axis: usize) -> (r: Vec<usize>)
    requires
        axis <= s@.len(),
    ensures
        r@ == unsqueeze_spec(s@, axis as int),
{
    let mut out = shape_vec(s);
    out.insert(axis, 1);
    out
}

/// Shape with `axis` removed when it has size 1.
pub fn squeeze_shape(s: &[usize], axis: usize) -> (r: Vec<usize>)
    requires
        axis < s@.len(),
    ensures
        r@ == squeeze_spec(s@, axis as int),
{
    let mut out = shape_vec(s);
    if s[axis] == 1 {
        out.remove(axis);
    }
    out
}

/// Shape of the slice `[start, end)` along `axis`.
pub fn slice_shape(s: &[usize], axis: usize, start: usize, end: usize) -> (r: Vec<usize>)
    requires
        axis < s@.len(),
        start <= end,
    ensures
        r@ == slice_spec(s@, axis as int, start as int, end as int),
{
    let mut out = shape_vec(s);
    out.set(axis, end - start);
    out
}

// ---------------------------------------------------------------------------
// Matrix products
// ---------------------------------------------------------------------------

/// Batch dimensions of a shape of rank at least 2: all but the last two.
pub open spec fn batch_dims(s: Seq<usize>) -> Seq<usize> {
    s.subrange(0, s.len() - 2)
}

/// `a @ b` is defined: both have rank at least 2, the inner dimensions agree and the batch
/// dimensions broadcast.
pub open spec fn matmul_ok(a: Seq<usize>, b: Seq<usize>) -> bool {
    &&& a.len() >= 2
    &&& b.len() >= 2
    &&& a[a.len() - 1] == b[b.len() - 2]
    &&& broadcastable(batch_dims(a), batch_dims(b))
}

/// Shape of `a @ b`: broadcast batch dimensions, then `[a rows, b columns]`.
pub open spec fn matmul_spec(a: Seq<usize>, b: Seq<usize>) -> Seq<usize> {
    broadcast_spec(batch_dims(a), batch_dims(b)).push(a[a.len() - 2]).push(b[b.len() - 1])
}

/// `a @ b^T` is defined: both have rank at least 2, the last dimensions agree and the batch
/// dimensions broadcast.
pub open spec fn matmul_tb_ok(a: Seq<usize>, b: Seq<usize>) -> bool {
    &&& a.len() >= 2
    &&& b.len() >= 2
    &&& a[a.len() - 1] == b[b.len() - 1]
    &&& broadcastable(batch_dims(a), batch_dims(b))
}

/// Shape of `a @ b^T`: broadcast batch dimensions, then `[a rows, b rows]`.
pub open spec fn matmul_tb_spec(a: Seq<usize>, b: Seq<usize>) -> Seq<usize> {
    broadcast_spec(batch_dims(a), batch_dims(b)).push(a[a.len() - 2]).push(b[b.len() - 2])
}

/// Shape of `a @ b` (or of `a @ b^T` when `transposed_b`), or `None` where it is undefined.
pub fn matmul_shape(a: &[usize], b: &[usize], transposed_b: bool) -> (r: Option<Vec<usize>>)
    ensures
        !transposed_b ==> (r is Some <==> matmul_ok(a@, b@)),
        !transposed_b ==> (r matches Some(v) ==> v@ == matmul_spec(a@, b@)),
        transposed_b ==> (r is Some <==> matmul_tb_ok(a@, b@)),
        transposed_b ==> (r matches Some(v) ==> v@ == matmul_tb_spec(a@, b@)),
{
    let la = a.len();
    let lb = b.len();
    if la < 2 || lb < 2 {
        return None;
    }
    let inner_b = if transposed_b {
        b[lb - 1]
    } else {
        b[lb - 2]
    };
    if a[la - 1] != inner_b {
        return None;
    }
    let ba = shape_vec(a);
    let bb = shape_vec(b);
    let mut ba = ba;
    let mut bb = bb;
    ba.truncate(la - 2);
    bb.truncate(lb - 2);
    assert(ba@ =~= batch_dims(a@));
    assert(bb@ =~= batch_dims(b@));
    match broadcast_shapes(ba.as_slice(), bb.as_slice()) {
        None => None,
        Some(mut out) => {
            out.push(a[la - 2]);
            if transposed_b {
                out.push(b[lb - 2]);
            } else {
                out.push(b[lb - 1]);
            }
            Some(out)
        },
    }
}

// ---------------------------------------------------------------------------
// Convolution and pooling windows
// ---------------------------------------------------------------------------

/// A convolution window of size `k`, stride `st`, padding `p` and dilation `d` fits an input
/// of size `n` (the padded size fits in a `usize`).
pub open spec fn conv_dim_ok(n: int, k: int, st: int, p: int, d: int) -> bool {
    &&& k >= 1
    &&& st >= 1
    &&& d >= 1
    &&& n + 2 * p <= usize::MAX
    &&& d * (k - 1) + 1 <= n + 2 * p
}

/// Output size of a convolution along one spatial dimension.
pub open spec fn conv_dim_spec(n: int, k: int, st: int, p: int, d: int) -> int {
    (n + 2 * p - d * (k - 1) - 1) / st + 1
}

/// Output size of a convolution along one spatial dimension, or `None` where the window
/// does not fit.
pub fn conv_out_dim(n: usize, k: usize, st: usize, p: usize, d: usize) -> (r: Option<usize>)
    ensures
        r is Some <==> conv_dim_ok(n as int, k as int, st as int, p as int, d as int),
        r matches Some(v) ==> v == conv_dim_spec(n as int, k as int, st as int, p as int, d as int),
{
    if k == 0 || st == 0 || d == 0 {
        return None;
    }
    let padded = match p.checked_mul(2) {
        Some(pp) => match n.checked_add(pp) {
            Some(v) => v,
            None => return None,
        },
        None => return None,
    };
    let span = match d.checked_mul(k - 1) {
        Some(v) => v,
        None => {
            assert(d * (k - 1) > usize::MAX);
            return None;
        },
    };
    if span >= padded {
        return None;
    }
    let q = (padded - span - 1) / st;
    assert(q <= padded) by (nonlinear_arith)
        requires
            st >= 1,
            q as int == (padded - span - 1) as int / st as int,
            padded - span - 1 >= 0,
    ;
    Some(q + 1)
}

/// A pooling window of size `k` and stride `st` fits an input of size `n`.
pub open spec fn pool_dim_ok(n: int, k: int, st: int) -> bool {
    1 <= k <= n && st >= 1
}

/// Output size of a pooling window along one spatial dimension.
pub open spec fn pool_dim_spec(n: int, k: int, st: int) -> int {
    (n - k) / st + 1
}

/// Output size of a pooling window along one spatial dimension, or `None` where the window
/// does not fit.
pub fn pool_out_dim(n: usize, k: usize, st: usize) -> (r: Option<usize>)
    ensures
        r is Some <==> pool_dim_ok(n as int, k as int, st as int),
        r matches Some(v) ==> v == pool_dim_spec(n as int, k as int, st as int),
{
    if k == 0 || k > n || st == 0 {
        return None;
    }
    let q = (n - k) / st;
    assert(q <= n) by (nonlinear_arith)
        requires
            st >= 1,
            q as int == (n - k) as int / st as int,
            n - k >= 0,
    ;
    Some(q + 1)
}

/// Broadcasting a shape with one of its suffixes (such as a bias over the last dimension)
/// leaves the shape unchanged.
pub proof fn lemma_broadcast_suffix(s: Seq<usize>, t: Seq<usize>)
    requires
        t.len() <= s.len(),
        t == s.subrange(s.len() - t.len(), s.len() as int),
    ensures
        broadcastable(s, t),
        broadcast_spec(s, t) == s,
{
    let n = brank(s, t);
    assert(n == s.len());
    assert forall|i: int| 0 <= i < n implies bdim(s, n, i) == s[i] && (#[trigger] bdim(t, n, i) == s[i] || bdim(t, n, i) == 1) by {
        if i >= n - t.len() {
            assert(t[i - (n - t.len())] == s.subrange(s.len() - t.len(), s.len() as int)[i - (n - t.len())]);
        }
    }
    assert(broadcast_spec(s, t) =~= s);
}

/// `x @ w` where `w` is `[k, m]` and `x` ends in `k`: the last dimension becomes `m`.
pub proof fn lemma_matmul_by_matrix(x: Seq<usize>, k: usize, m: usize)
    requires
        x.len() >= 2,
        x[x.len() - 1] == k,
    ensures
        matmul_ok(x, seq![k, m]),
        matmul_spec(x, seq![k, m]) == x.update(x.len() - 1, m),
{
    let w = seq![k, m];
    assert(batch_dims(w) =~= Seq::<usize>::empty());
    lemma_broadcast_scalar(batch_dims(x));
    assert(matmul_spec(x, w) =~= x.update(x.len() - 1, m));
}

/// `x @ w^T` where `w` is `[m, k]` and `x` ends in `k`: the last dimension becomes `m`.
pub proof fn lemma_matmul_tb_by_matrix(x: Seq<usize>, m: usize, k: usize)
    requires
        x.len() >= 2,
        x[x.len() - 1] == k,
    ensures
        matmul_tb_ok(x, seq![m, k]),
        matmul_tb_spec(x, seq![m, k]) == x.update(x.len() - 1, m),
{
    let w = seq![m, k];
    assert(batch_dims(w) =~= Seq::<usize>::empty());
    lemma_broadcast_scalar(batch_dims(x));
    assert(matmul_tb_spec(x, w) =~= x.update(x.len() - 1, m));
}

/// Broadcasting an operand with the broadcast shape it took part in gives that shape again.
pub proof fn lemma_broadcast_absorb(a: Seq<usize>, b: Seq<usize>)
    requires
        broadcastable(a, b),
    ensures
        broadcastable(a, broadcast_spec(a, b)),
        broadcast_spec(a, broadcast_spec(a, b)) == broadcast_spec(a, b),
        broadcastable(broadcast_spec(a, b), a),
        broadcast_spec(broadcast_spec(a, b), a) == broadcast_spec(a, b),
{
    let c = broadcast_spec(a, b);
    let n = brank(a, b);
    assert(c.len() == n);
    assert(brank(a, c) == n);
    assert forall|i: int| 0 <= i < n implies {
        let da = #[trigger] bdim(a, n, i);
        let dc = bdim(c, n, i);
        (da == dc || da == 1 || dc == 1) && (if da == 1 { dc } else { da }) == c[i]
    } by {
        let _ = bdim(b, n, i);
    }
    assert(broadcast_spec(a, c) =~= c);
    lemma_broadcast_commutes(a, c);
}

/// The second operand is absorbed too: `bc(bc(a, b), b) == bc(a, b)` in either order.
pub proof fn lemma_broadcast_absorb_right(a: Seq<usize>, b: Seq<usize>)
    requires
        broadcastable(a, b),
    ensures
        broadcastable(broadcast_spec(a, b), b),
        broadcast_spec(broadcast_spec(a, b), b) == broadcast_spec(a, b),
        broadcastable(b, broadcast_spec(a, b)),
        broadcast_spec(b, broadcast_spec(a, b)) == broadcast_spec(a, b),
{
    lemma_broadcast_commutes(a, b);
    lemma_broadcast_absorb(b, a);
}

/// The shape `[a]`.
pub fn shape1(a: usize) -> (r: Vec<usize>)
    ensures
        r@ == seq![a],
{
    let mut v: Vec<usize> = Vec::new();
    v.push(a);
    assert(v@ =~= seq![a]);
    v
}

/// The shape `[a, b]`.
pub fn shape2(a: usize, b: usize) -> (r: Vec<usize>)
    ensures
        r@ == seq![a, b],
{
    let mut v: Vec<usize> = Vec::new();
    v.push(a);
    v.push(b);
    assert(v@ =~= seq![a, b]);
    v
}

/// The shape `[a, b, c]`.
pub fn shape3(a: usize, b: usize, c: usize) -> (r: Vec<usize>)
    ensures
        r@ == seq![a, b, c],
{
    let mut v: Vec<usize> = Vec::new();
    v.push(a);
    v.push(b);
    v.push(c);
    assert(v@ =~= seq![a, b, c]);
    v
}

/// The shape `[a, b, c, d, e]`.
pub fn shape5(a: usize, b: usize, c: usize, d: usize, e: usize) -> (r: Vec<usize>)
    ensures
        r@ == seq![a, b, c, d, e],
{
    let mut v: Vec<usize> = Vec::new();
    v.push(a);
    v.push(b);
    v.push(c);
    v.push(d);
    v.push(e);
    assert(v@ =~= seq![a, b, c, d, e]);
    v
}

/// The shape `[a, b, c, d]`.
pub fn shape4(a: usize, b: usize, c: usize, d: usize) -> (r: Vec<usize>)
    ensures
        r@ == seq![a, b, c, d],
{
    let mut v: Vec<usize> = Vec::new();
    v.push(a);
    v.push(b);
    v.push(c);
    v.push(d);
    assert(v@ =~= seq![a, b, c, d]);
    v
}

/// Batched product of `[b, h, m, k]` and `[b, h, k, n]` gives `[b, h, m, n]`.
pub proof fn lemma_matmul_4d(b: usize, h: usize, m: usize, k: usize, n: usize)
    ensures
        matmul_ok(seq![b, h, m, k], seq![b, h, k, n]),
        matmul_spec(seq![b, h, m, k], seq![b, h, k, n]) == seq![b, h, m, n],
{
    assert(batch_dims(seq![b, h, m, k]) =~= seq![b, h]);
    assert(batch_dims(seq![b, h, k, n]) =~= seq![b, h]);
    lemma_broadcast_self(seq![b, h]);
    assert(matmul_spec(seq![b, h, m, k], seq![b, h, k, n]) =~= seq![b, h, m, n]);
}

/// A `[1, 1, t, u]` table broadcasts over `[b, h, t, u]` without changing its shape.
pub proof fn lemma_broadcast_heads(b: usize, h: usize, t: usize, u: usize)
    ensures
        broadcastable(seq![b, h, t, u], seq![1usize, 1usize, t, u]),
        broadcast_spec(seq![b, h, t, u], seq![1usize, 1usize, t, u]) == seq![b, h, t, u],
{
    let x = seq![b, h, t, u];
    let y = seq![1usize, 1usize, t, u];
    assert forall|i: int| 0 <= i < 4 implies #[trigger] bdim(x, 4, i) == x[i] && bdim(y, 4, i) == y[i] by {}
    assert(broadcast_spec(x, y) =~= x);
}

/// A shape broadcasts with any shape of its rank whose every dimension is its own or 1 (such
/// as the shape of a reduction with the axes kept), in either order, and is unchanged.
pub proof fn lemma_broadcast_collapsed(s: Seq<usize>, t: Seq<usize>)
    requires
        t.len() == s.len(),
        forall|i: int| 0 <= i < s.len() ==> #[trigger] t[i] == s[i] || t[i] == 1,
    ensures
        broadcastable(s, t),
        broadcast_spec(s, t) == s,
        broadcastable(t, s),
        broadcast_spec(t, s) == s,
{
    let n = brank(s, t);
    assert forall|i: int| 0 <= i < n implies {
        let da = #[trigger] bdim(s, n, i);
        let db = bdim(t, n, i);
        da == db || da == 1 || db == 1
    } by {
        assert(t[i] == s[i] || t[i] == 1);
    }
    assert forall|i: int| 0 <= i < n implies #[trigger] broadcast_spec(s, t)[i] == s[i] by {
        assert(t[i] == s[i] || t[i] == 1);
    }
    assert(broadcast_spec(s, t) =~= s);
    lemma_broadcast_commutes(s, t);
}

/// Every dimension is nonzero, so a tensor of this shape holds at least one element.
pub open spec fn has_elements(s: Seq<usize>) -> bool {
    forall|i: int| 0 <= i < s.len() ==> #[trigger] s[i] != 0
}

/// Whether a tensor of shape `s` holds at least one element.
pub fn shape_has_elements(s: &[usize]) -> (r: bool)
    ensures
        r == has_elements(s@),
{
    let mut k: usize = 0;
    while k < s.len()
        invariant
            k <= s@.len(),
            forall|i: int| 0 <= i < k ==> #[trigger] s@[i] != 0,
        decreases s.len() - k,
    {
        if s[k] == 0 {
            assert(s@[k as int] == 0);
            return false;
        }
        k = k + 1;
    }
    true
}

/// The element count is positive exactly when no dimension is zero.
pub proof fn lemma_numel_positive(s: Seq<usize>)
    ensures
        numel_spec(s) > 0 <==> has_elements(s),
    decreases s.len(),
{
    if s.len() > 0 {
        let p = s.drop_last();
        lemma_numel_positive(p);
        lemma_numel_nonneg(p);
        assert(has_elements(s) <==> has_elements(p) && s.last() != 0) by {
            if has_elements(p) && s.last() != 0 {
                assert forall|i: int| 0 <= i < s.len() implies #[trigger] s[i] != 0 by {
                    if i < s.len() - 1 {
                        assert(s[i] == p[i]);
                    }
                }
            }
            if has_elements(s) {
                assert forall|i: int| 0 <= i < p.len() implies #[trigger] p[i] != 0 by {
                    assert(s[i] == p[i]);
                }
                assert(s[s.len() - 1] != 0);
            }
        }
        let a = numel_spec(p);
        let b = s.last() as int;
        assert(a * b > 0 <==> a > 0 && b > 0) by (nonlinear_arith)
            requires
                a >= 0,
                b >= 0,
        ;
    }
}

/// Exchanging the same two axes twice gives the shape back.
pub proof fn lemma_transpose_involution(s: Seq<usize>, d0: int, d1: int)
    requires
        0 <= d0 < s.len(),
        0 <= d1 < s.len(),
    ensures
        transpose_spec(transpose_spec(s, d0, d1), d0, d1) == s,
{
    assert(transpose_spec(transpose_spec(s, d0, d1), d0, d1) =~= s);
}

/// Removing the axis that was just inserted gives the shape back.
pub proof fn lemma_squeeze_unsqueeze(s: Seq<usize>, axis: int)
    requires
        0 <= axis <= s.len(),
    ensures
        squeeze_spec(unsqueeze_spec(s, axis), axis) == s,
{
    assert(unsqueeze_spec(s, axis)[axis] == 1);
    assert(unsqueeze_spec(s, axis).remove(axis) =~= s);
}

/// Permuting with `dims` and then with its inverse gives the shape back.
pub proof fn lemma_permute_inverse(s: Seq<usize>, dims: Seq<usize>, inv: Seq<usize>)
    requires
        is_permutation(dims, s.len() as int),
        inv.len() == dims.len(),
        forall|i: int| 0 <= i < dims.len() ==> inv[dims[i] as int] == i,
    ensures
        permute_spec(permute_spec(s, dims), inv) == s,
{
    let n = s.len() as int;
    lemma_permutation_onto(dims, n);
    let p = permute_spec(s, dims);
    assert forall|v: int| 0 <= v < n implies #[trigger] permute_spec(p, inv)[v] == s[v] by {
        assert(lists_axis(dims, n, v));
        let j = choose|j: int| 0 <= j < n && dims[j] == v;
        assert(inv[dims[j] as int] == j);
        assert(p[j] == s[dims[j] as int]);
    }
    assert(permute_spec(p, inv) =~= s);
}

} // verus!