//! Size-bucketed cache of GPU buffers, so that buffers freed by one computation are reused by
//! the next instead of being allocated again.

use vstd::prelude::*;
use vstd::arithmetic::power2::{lemma2_to64, lemma_pow2_unfold, pow2};

verus! {

/// A GPU buffer; the cache only holds and hands out such handles.
#[verifier::external_type_specification]
#[verifier::external_body]
pub struct ExGpuBuffer(wgpu::Buffer);

/// Smallest bucket: buffers of up to `2^8 = 256` bytes.
pub const GPU_MIN_BUCKET_POW2: usize = 8;
/// Largest bucket: buffers of `2^30` bytes (1 GiB) and more.
pub const GPU_MAX_BUCKET_POW2: usize = 30;
/// Number of buckets, one per power of two from the smallest to the largest.
pub const GPU_NUM_BUCKETS: usize = 23;

/// Counters of the cache.
#[derive(Clone, Copy, PartialEq, Eq, Structural)]
pub struct GpuPoolStats {
    /// Requests served from the cache.
    pub hits: usize,
    /// Requests that needed a new buffer.
    pub misses: usize,
    /// Bytes held by cached buffers.
    pub cached_bytes: usize,
    /// Bytes of all buffers allocated on misses.
    pub allocated_bytes: usize,
    /// Number of cached buffers.
    pub free_buffers: usize,
}

impl Default for GpuPoolStats {
    fn default() -> (r: GpuPoolStats)
        ensures
            r == (GpuPoolStats { hits: 0, misses: 0, cached_bytes: 0, allocated_bytes: 0, free_buffers: 0 }),
    {
        GpuPoolStats { hits: 0, misses: 0, cached_bytes: 0, allocated_bytes: 0, free_buffers: 0 }
    }
}

/// Bucket of a request of `size` bytes: the smallest `b` in `0..=22` whose buffers of
/// `2^(b + 8)` bytes hold `size`, or the last bucket when none does.
pub open spec fn is_bucket_of(size: nat, b: nat) -> bool {
    &&& b < GPU_NUM_BUCKETS
    &&& b + 1 < GPU_NUM_BUCKETS ==> size <= pow2(b + 8)
    &&& b > 0 ==> size > pow2((b + 7) as nat)
}

/// Size of the buffers of bucket `b` for a request of `size` bytes: the bucket's power of two,
/// or the request itself when larger.
pub open spec fn target_size(size: nat, b: nat) -> nat {
    if pow2(b + 8) >= size {
        pow2(b + 8)
    } else {
        size
    }
}

/// Number of buffers in all buckets.
pub open spec fn total_len(bs: Seq<Vec<wgpu::Buffer>>) -> nat
    decreases bs.len(),
{
    if bs.len() == 0 {
        0
    } else {
        total_len(bs.drop_last()) + bs.last()@.len()
    }
}

proof fn lemma_total_len_update(bs: Seq<Vec<wgpu::Buffer>>, i: int, v: Vec<wgpu::Buffer>)
    requires
        0 <= i < bs.len(),
    ensures
        total_len(bs.update(i, v)) == total_len(bs) - bs[i]@.len() + v@.len(),
    decreases bs.len(),
{
    if i < bs.len() - 1 {
        lemma_total_len_update(bs.drop_last(), i, v);
        assert(bs.update(i, v).drop_last() =~= bs.drop_last().update(i, v));
    } else {
        assert(bs.update(i, v).drop_last() =~= bs.drop_last());
    }
}

proof fn lemma_total_len_prefix(bs: Seq<Vec<wgpu::Buffer>>, k: int)
    requires
        0 <= k < bs.len(),
    ensures
        total_len(bs.subrange(0, k + 1)) == total_len(bs.subrange(0, k)) + bs[k]@.len(),
        total_len(bs.subrange(0, k)) <= total_len(bs),
    decreases bs.len(),
{
    assert(bs.subrange(0, k + 1).drop_last() =~= bs.subrange(0, k));
    if k < bs.len() - 1 {
        lemma_total_len_prefix(bs.drop_last(), k);
        assert(bs.drop_last().subrange(0, k + 1) =~= bs.subrange(0, k + 1));
        assert(bs.drop_last().subrange(0, k) =~= bs.subrange(0, k));
    } else {
        assert(bs.subrange(0, k + 1) =~= bs);
    }
}

/// Index of the bucket for a request of `size_bytes` bytes.
pub fn bucket_idx(size_bytes: u64) -> (r: usize)
    ensures
        is_bucket_of(size_bytes as nat, r as nat),
{
    let mut b: usize = 0;
    let mut cap: u64 = 256;
    proof {
        lemma2_to64();
    }
    while b + 1 < GPU_NUM_BUCKETS && size_bytes > cap
        invariant
            b < GPU_NUM_BUCKETS,
            cap as nat == pow2((b + 8) as nat),
            pow2(30) == 0x4000_0000,
            cap <= 0x4000_0000,
            b > 0 ==> size_bytes > pow2((b + 7) as nat),
        decreases GPU_NUM_BUCKETS - b,
    {
        proof {
            lemma_pow2_unfold((b + 9) as nat);
            lemma_pow2_le((b + 9) as nat, 30);
        }
        cap = cap * 2;
        b = b + 1;
    }
    b
}

/// Powers of two grow with the exponent.
proof fn lemma_pow2_le(a: nat, b: nat)
    requires
        a <= b,
    ensures
        pow2(a) <= pow2(b),
    decreases b - a,
{
    if a < b {
        lemma_pow2_le(a, (b - 1) as nat);
        lemma_pow2_unfold(b);
    }
}

/// Cache of GPU buffers in size buckets, holding at most `max_cached_bytes` bytes.
pub struct GpuBufferPool {
    buckets: Vec<Vec<wgpu::Buffer>>,
    max_cached_bytes: usize,
    cached_bytes: usize,
    hits: usize,
    misses: usize,
    allocated_bytes: usize,
    enabled: bool,
}

impl GpuBufferPool {
    /// There is one bucket per power of two, the cached bytes stay within the limit and the
    /// buffers can be counted in a `usize`.
    pub closed spec fn wf(&self) -> bool {
        &&& self.buckets@.len() == GPU_NUM_BUCKETS
        &&& self.cached_bytes <= self.max_cached_bytes
        &&& total_len(self.buckets@) <= usize::MAX
    }

    /// Number of cached buffers in each bucket.
    pub closed spec fn counts(&self) -> Seq<nat> {
        Seq::new(self.buckets@.len(), |i: int| self.buckets@[i]@.len())
    }

    /// The cached buffers of each bucket, the most recently returned last.
    pub closed spec fn contents(&self) -> Seq<Seq<wgpu::Buffer>> {
        Seq::new(self.buckets@.len(), |i: int| self.buckets@[i]@)
    }

    /// The counters, with the number of cached buffers.
    pub closed spec fn stats_spec(&self) -> GpuPoolStats {
        GpuPoolStats {
            hits: self.hits,
            misses: self.misses,
            cached_bytes: self.cached_bytes,
            allocated_bytes: self.allocated_bytes,
            free_buffers: total_len(self.buckets@) as usize,
        }
    }

    /// The limit on cached bytes.
    pub closed spec fn limit(&self) -> usize {
        self.max_cached_bytes
    }

    /// Whether the cache keeps and serves buffers.
    pub closed spec fn is_enabled(&self) -> bool {
        self.enabled
    }

    /// An empty, enabled cache with the given limit.
    pub fn new(max_cached_bytes: usize) -> (r: GpuBufferPool)
        ensures
            r.wf(),
            r.counts() == Seq::new(GPU_NUM_BUCKETS as nat, |i: int| 0nat),
            r.stats_spec() == (GpuPoolStats { hits: 0, misses: 0, cached_bytes: 0, allocated_bytes: 0, free_buffers: 0 }),
            r.limit() == max_cached_bytes,
            r.is_enabled(),
    {
        let mut buckets: Vec<Vec<wgpu::Buffer>> = Vec::new();
        let mut k: usize = 0;
        while k < GPU_NUM_BUCKETS
            invariant
                k <= GPU_NUM_BUCKETS,
                buckets@.len() == k,
                forall|i: int| 0 <= i < k ==> (#[trigger] buckets@[i])@.len() == 0,
                total_len(buckets@) == 0,
            decreases GPU_NUM_BUCKETS - k,
        {
            let ghost before = buckets@;
            buckets.push(Vec::new());
            assert(buckets@.drop_last() =~= before);
            k = k + 1;
        }
        let r = GpuBufferPool {
            buckets,
            max_cached_bytes,
            cached_bytes: 0,
            hits: 0,
            misses: 0,
            allocated_bytes: 0,
            enabled: true,
        };
        assert(r.counts() =~= Seq::new(GPU_NUM_BUCKETS as nat, |i: int| 0nat));
        r
    }
}

impl GpuBufferPool {
    /// Takes a cached buffer for a request of `size_bytes` bytes from its bucket, if the cache
    /// is enabled and the bucket is not empty; otherwise counts a miss and the bytes of the
    /// buffer that the caller is to allocate. Also returns the size of the buffers of that
    /// bucket: its power of two, or the request when larger.
    pub fn pop(&mut self, size_bytes: u64) -> (r: (Option<wgpu::Buffer>, u64))
        requires
            old(self).wf(),
            old(self).stats_spec().hits < usize::MAX,
            old(self).stats_spec().misses < usize::MAX,
            old(self).stats_spec().allocated_bytes + size_bytes + 0x4000_0000 <= usize::MAX,
        ensures
            ({
                let b = choose|b: nat| is_bucket_of(size_bytes as nat, b);
                let t = target_size(size_bytes as nat, b);
                let o = old(self).stats_spec();
                let n = final(self).stats_spec();
                &&& final(self).wf()
                &&& is_bucket_of(size_bytes as nat, b)
                &&& r.1 == t
                &&& final(self).limit() == old(self).limit()
                &&& final(self).is_enabled() == old(self).is_enabled()
                &&& n.allocated_bytes == o.allocated_bytes + (if r.0 is Some { 0 } else { t })
                &&& if old(self).is_enabled() && old(self).counts()[b as int] > 0 {
                    &&& r.0 == Some(old(self).contents()[b as int].last())
                    &&& final(self).contents() == old(self).contents().update(b as int, old(self).contents()[b as int].drop_last())
                    &&& final(self).counts() == old(self).counts().update(b as int, (old(self).counts()[b as int] - 1) as nat)
                    &&& n.hits == o.hits + 1 && n.misses == o.misses
                    &&& n.cached_bytes == (if o.cached_bytes >= t { (o.cached_bytes - t) as usize } else { 0 })
                    &&& n.free_buffers == o.free_buffers - 1
                } else {
                    &&& r.0 is None
                    &&& final(self).counts() == old(self).counts()
                    &&& final(self).contents() == old(self).contents()
                    &&& n.hits == o.hits && n.misses == o.misses + 1
                    &&& n.cached_bytes == o.cached_bytes
                    &&& n.free_buffers == o.free_buffers
                }
            }),
    {
        proof {
            lemma2_to64();
        }
        let idx = bucket_idx(size_bytes);
        proof {
            lemma_bucket_unique(size_bytes as nat, idx as nat);
            lemma_pow2_le((idx + 8) as nat, 30);
        }
        let bucket_bytes: u64 = 1u64 << ((idx + GPU_MIN_BUCKET_POW2) as u64);
        assert(bucket_bytes as nat == pow2((idx + 8) as nat)) by {
            vstd::bits::lemma_u64_shl_is_mul(1, (idx + 8) as u64);
            vstd::arithmetic::power2::lemma_pow2(((idx + 8) as nat));
        }
        let target = if bucket_bytes >= size_bytes { bucket_bytes } else { size_bytes };
        if self.enabled && self.buckets[idx].len() > 0 {
            let ghost before = self.buckets@;
            let mut bucket: Vec<wgpu::Buffer> = Vec::new();
            let ghost empty = bucket;
            proof {
                lemma_total_len_update(before, idx as int, empty);
            }
            std::mem::swap(&mut bucket, &mut self.buckets[idx]);
            let buf = bucket.pop();
            proof {
                lemma_total_len_update(before.update(idx as int, empty), idx as int, bucket);
            }
            self.buckets.set(idx, bucket);
            proof {
                assert(before.update(idx as int, empty).update(idx as int, bucket) =~= self.buckets@);
                assert(self.counts() =~= old(self).counts().update(idx as int, (old(self).counts()[idx as int] - 1) as nat));
                assert(self.contents() =~= old(self).contents().update(idx as int, old(self).contents()[idx as int].drop_last()));
            }
            self.hits = self.hits + 1;
            let t = target as usize;
            self.cached_bytes = if self.cached_bytes >= t { self.cached_bytes - t } else { 0 };
            return (buf, target);
        }
        self.misses = self.misses + 1;
        self.allocated_bytes = self.allocated_bytes + target as usize;
        (None, target)
    }
}

/// A request has exactly one bucket.
proof fn lemma_bucket_unique(size: nat, b: nat)
    requires
        is_bucket_of(size, b),
    ensures
        forall|c: nat| is_bucket_of(size, c) ==> c == b,
{
    assert forall|c: nat| is_bucket_of(size, c) implies c == b by {
        if c < b {
            lemma_pow2_le(c + 8, (b + 7) as nat);
        } else if b < c {
            lemma_pow2_le(b + 8, (c + 7) as nat);
        }
    }
}

impl GpuBufferPool {
    /// Returns a buffer of `size_bytes` bytes to its bucket, unless the cache is disabled or
    /// would then hold more than its limit, in which case the buffer is released.
    pub fn push(&mut self, buffer: wgpu::Buffer, size_bytes: u64)
        requires
            old(self).wf(),
            old(self).stats_spec().free_buffers < usize::MAX,
        ensures
            final(self).wf(),
            final(self).limit() == old(self).limit(),
            final(self).is_enabled() == old(self).is_enabled(),
            ({
                let b = choose|b: nat| is_bucket_of(size_bytes as nat, b);
                let o = old(self).stats_spec();
                let n = final(self).stats_spec();
                let bytes = size_bytes as usize;
                &&& is_bucket_of(size_bytes as nat, b)
                &&& n.hits == o.hits && n.misses == o.misses && n.allocated_bytes == o.allocated_bytes
                &&& if old(self).is_enabled() && o.cached_bytes + bytes <= old(self).limit() {
                    &&& final(self).counts() == old(self).counts().update(b as int, old(self).counts()[b as int] + 1)
                    &&& final(self).contents() == old(self).contents().update(b as int, old(self).contents()[b as int].push(buffer))
                    &&& n.cached_bytes == o.cached_bytes + bytes
                    &&& n.free_buffers == o.free_buffers + 1
                } else {
                    &&& final(self).counts() == old(self).counts()
                    &&& final(self).contents() == old(self).contents()
                    &&& n == o
                }
            }),
    {
        let bytes = size_bytes as usize;
        let idx = bucket_idx(size_bytes);
        proof {
            lemma_bucket_unique(size_bytes as nat, idx as nat);
        }
        if !self.enabled {
            return;
        }
        let total = match self.cached_bytes.checked_add(bytes) {
            Some(t) => t,
            None => {
                return;
            },
        };
        if total > self.max_cached_bytes {
            return;
        }
        let ghost before = self.buckets@;
        let mut bucket: Vec<wgpu::Buffer> = Vec::new();
        let ghost empty = bucket;
        proof {
            lemma_total_len_update(before, idx as int, empty);
        }
        std::mem::swap(&mut bucket, &mut self.buckets[idx]);
        bucket.push(buffer);
        proof {
            lemma_total_len_update(before.update(idx as int, empty), idx as int, bucket);
        }
        self.buckets.set(idx, bucket);
        proof {
            assert(before.update(idx as int, empty).update(idx as int, bucket) =~= self.buckets@);
            assert(self.counts() =~= old(self).counts().update(idx as int, old(self).counts()[idx as int] + 1));
            assert(self.contents() =~= old(self).contents().update(idx as int, old(self).contents()[idx as int].push(buffer)));
        }
        self.cached_bytes = total;
    }

    /// Releases every cached buffer.
    pub fn clear(&mut self)
        requires
            old(self).wf(),
        ensures
            final(self).wf(),
            final(self).counts() == Seq::new(GPU_NUM_BUCKETS as nat, |i: int| 0nat),
            final(self).stats_spec() == (GpuPoolStats { cached_bytes: 0, free_buffers: 0, ..old(self).stats_spec() }),
            final(self).limit() == old(self).limit(),
            final(self).is_enabled() == old(self).is_enabled(),
    {
        let mut k: usize = 0;
        while k < self.buckets.len()
            invariant
                self.buckets@.len() == GPU_NUM_BUCKETS,
                k <= GPU_NUM_BUCKETS,
                forall|i: int| 0 <= i < k ==> (#[trigger] self.buckets@[i])@.len() == 0,
                total_len(self.buckets@) <= total_len(old(self).buckets@),
                total_len(old(self).buckets@) <= usize::MAX,
                self.cached_bytes == old(self).cached_bytes,
                self.max_cached_bytes == old(self).max_cached_bytes,
                self.hits == old(self).hits,
                self.misses == old(self).misses,
                self.allocated_bytes == old(self).allocated_bytes,
                self.enabled == old(self).enabled,
            decreases GPU_NUM_BUCKETS - k,
        {
            let ghost before = self.buckets@;
            let mut bucket: Vec<wgpu::Buffer> = Vec::new();
            let ghost empty = bucket;
            std::mem::swap(&mut bucket, &mut self.buckets[k]);
            proof {
                lemma_total_len_update(before, k as int, empty);
                assert(before.update(k as int, empty) =~= self.buckets@);
            }
            bucket.clear();
            k = k + 1;
        }
        proof {
            lemma_total_len_zero(self.buckets@);
        }
        self.cached_bytes = 0;
        assert(self.counts() =~= Seq::new(GPU_NUM_BUCKETS as nat, |i: int| 0nat));
    }

    /// The counters and the number of cached buffers.
    pub fn stats(&self) -> (r: GpuPoolStats)
        requires
            self.wf(),
        ensures
            r == self.stats_spec(),
    {
        let mut free_buffers: usize = 0;
        let mut k: usize = 0;
        while k < self.buckets.len()
            invariant
                self.wf(),
                k <= self.buckets@.len(),
                free_buffers == total_len(self.buckets@.subrange(0, k as int)),
            decreases self.buckets@.len() - k,
        {
            proof {
                lemma_total_len_prefix(self.buckets@, k as int);
                if k + 1 < self.buckets@.len() {
                    lemma_total_len_prefix(self.buckets@, k + 1);
                } else {
                    assert(self.buckets@.subrange(0, k + 1) =~= self.buckets@);
                }
            }
            free_buffers = free_buffers + self.buckets[k].len();
            k = k + 1;
        }
        assert(self.buckets@.subrange(0, k as int) =~= self.buckets@);
        GpuPoolStats {
            hits: self.hits,
            misses: self.misses,
            cached_bytes: self.cached_bytes,
            allocated_bytes: self.allocated_bytes,
            free_buffers,
        }
    }

    /// Enables or disables the cache; disabling it releases every cached buffer.
    pub fn set_enabled(&mut self, enabled: bool)
        requires
            old(self).wf(),
        ensures
            final(self).wf(),
            final(self).is_enabled() == enabled,
            final(self).limit() == old(self).limit(),
            enabled ==> final(self).counts() == old(self).counts() && final(self).stats_spec() == old(self).stats_spec(),
            !enabled ==> final(self).counts() == Seq::new(GPU_NUM_BUCKETS as nat, |i: int| 0nat)
                && final(self).stats_spec() == (GpuPoolStats { cached_bytes: 0, free_buffers: 0, ..old(self).stats_spec() }),
    {
        self.enabled = enabled;
        if !enabled {
            self.clear();
        }
    }
}

/// Buckets that are all empty hold no buffer.
proof fn lemma_total_len_zero(bs: Seq<Vec<wgpu::Buffer>>)
    requires
        forall|i: int| 0 <= i < bs.len() ==> (#[trigger] bs[i])@.len() == 0,
    ensures
        total_len(bs) == 0,
    decreases bs.len(),
{
    if bs.len() > 0 {
        assert(bs.last()@.len() == 0);
        lemma_total_len_zero(bs.drop_last());
    }
}

/// A buffer that `push` has just cached in bucket `b` (contents going from `before` to
/// `after`) is the one that the next `pop` from that bucket hands out, and that `pop` leaves
/// the cache's contents as they were before the `push`.
pub proof fn lemma_push_then_pop(before: Seq<Seq<wgpu::Buffer>>, after: Seq<Seq<wgpu::Buffer>>, b: int, buffer: wgpu::Buffer)
    requires
        0 <= b < before.len(),
        after == before.update(b, before[b].push(buffer)),
    ensures
        after[b].len() > 0,
        after[b].last() == buffer,
        after.update(b, after[b].drop_last()) == before,
{
    assert(after[b].drop_last() =~= before[b]);
    assert(after.update(b, after[b].drop_last()) =~= before);
}

/// A larger request never goes to a smaller bucket.
pub proof fn lemma_bucket_monotone(s1: nat, s2: nat, b1: nat, b2: nat)
    requires
        is_bucket_of(s1, b1),
        is_bucket_of(s2, b2),
        s1 <= s2,
    ensures
        b1 <= b2,
{
    if b1 > b2 {
        lemma_pow2_le(b2 + 8, (b1 + 7) as nat);
    }
}

/// The buffers handed out for a request hold it.
pub proof fn lemma_target_holds_request(size: nat, b: nat)
    ensures
        target_size(size, b) >= size,
{
}

} // verus!