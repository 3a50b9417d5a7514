use vstd::prelude::*;

verus! {

/// A fixed-boundary histogram over `u64` samples. `counts[i]` counts the
/// samples strictly below `bounds[i]` and not below any earlier bound; the
/// final entry counts the samples not below any bound. `sum` accumulates
/// the samples, saturating at `u64::MAX`.
pub struct Hist {
    pub bounds: Vec<u64>,
    pub counts: Vec<u64>,
    pub sum: u64,
}

/// Well-formedness: one counter per bound, plus the overflow bucket.
pub open spec fn hist_wf(h: Hist) -> bool {
    h.counts@.len() == h.bounds@.len() + 1
}

/// Bucket a sample falls into: the first bound the sample is strictly
/// below, or one past the last bound.
pub open spec fn bucket_of(bounds: Seq<u64>, v: u64) -> int
    decreases bounds.len(),
{
    if bounds.len() == 0 {
        0
    } else if v < bounds[0] {
        0
    } else {
        1 + bucket_of(bounds.drop_first(), v)
    }
}

pub proof fn lemma_bucket_of_range(bounds: Seq<u64>, v: u64)
    ensures
        0 <= bucket_of(bounds, v) <= bounds.len(),
    decreases bounds.len(),
{
    if bounds.len() > 0 && !(v < bounds[0]) {
        lemma_bucket_of_range(bounds.drop_first(), v);
    }
}

/// One observation: bump the bucket's counter, saturate the sum.
pub open spec fn spec_observe(counts: Seq<u64>, sum: u64, bounds: Seq<u64>, v: u64) -> (Seq<u64>,
    u64) {
    let i = bucket_of(bounds, v);
    (counts.update(i, counts[i].saturating_add(1)), sum.saturating_add(v))
}

/// Find the bucket of `v` under `bounds`.
fn find_bucket(bounds: &Vec<u64>, v: u64) -> (i: usize)
    ensures
        i == bucket_of(bounds@, v),
        i <= bounds@.len(),
{
    proof {
        assert(bounds@.skip(0) =~= bounds@);
    }
    let mut i: usize = 0;
    while i < bounds.len() && v >= bounds[i]
        invariant
            i <= bounds@.len(),
            bucket_of(bounds@, v) == i + bucket_of(bounds@.skip(i as int), v),
        decreases bounds@.len() - i,
    {
        proof {
            assert(bounds@.skip(i as int)[0] == bounds@[i as int]);
            assert(bounds@.skip(i as int).drop_first() =~= bounds@.skip(i as int + 1));
        }
        i = i + 1;
    }
    proof {
        if i < bounds@.len() {
            assert(bounds@.skip(i as int)[0] == bounds@[i as int]);
        }
        assert(bucket_of(bounds@.skip(i as int), v) == 0);
    }
    i
}

/// Copy a counter vector.
fn copy_u64_vec(v: &Vec<u64>) -> (r: Vec<u64>)
    ensures
        r@ == v@,
{
    let n: usize = v.len();
    let mut r: Vec<u64> = Vec::new();
    let mut i: usize = 0;
    while i < n
        invariant
            i <= n,
            n == v@.len(),
            r@ == v@.subrange(0, i as int),
        decreases n - i,
    {
        r.push(v[i]);
        proof {
            assert(v@.subrange(0, i as int + 1) =~= v@.subrange(0, i as int).push(v@[i as int]));
        }
        i = i + 1;
    }
    proof {
        assert(v@.subrange(0, n as int) =~= v@);
    }
    r
}

impl Hist {
    /// An independent copy with the same bounds, counters and sum.
    pub fn duplicate(&self) -> (h: Hist)
        ensures
            h.bounds@ == self.bounds@,
            h.counts@ == self.counts@,
            h.sum == self.sum,
    {
        Hist {
            bounds: copy_u64_vec(&self.bounds),
            counts: copy_u64_vec(&self.counts),
            sum: self.sum,
        }
    }

    /// A fresh histogram over the given bounds, with every counter zero.
    pub fn new(bounds: Vec<u64>) -> (h: Hist)
        ensures
            hist_wf(h),
            h.bounds@ == bounds@,
            h.sum == 0,
            forall|i: int| 0 <= i < h.counts@.len() ==> h.counts@[i] == 0u64,
    {
        let n: usize = bounds.len();
        let mut counts: Vec<u64> = Vec::new();
        let mut i: usize = 0;
        while i < n
            invariant
                i <= n,
                counts@.len() == i,
                forall|j: int| 0 <= j < i ==> counts@[j] == 0u64,
            decreases n - i,
        {
            counts.push(0);
            i = i + 1;
        }
        counts.push(0);
        Hist { bounds, counts, sum: 0 }
    }

    /// Record one sample.
    pub fn observe(&mut self, v: u64)
        requires
            hist_wf(*old(self)),
        ensures
            hist_wf(*final(self)),
            final(self).bounds == old(self).bounds,
            (final(self).counts@, final(self).sum) == spec_observe(
                old(self).counts@,
                old(self).sum,
                old(self).bounds@,
                v,
            ),
    {
        let i: usize = find_bucket(&self.bounds, v);
        let c: u64 = self.counts[i];
        self.counts[i] = c.saturating_add(1);
        self.sum = self.sum.saturating_add(v);
    }
}

} // verus!
