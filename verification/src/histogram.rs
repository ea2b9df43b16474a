//! Histogram of corner angles per tile: a finite map from (tile x, tile y,
//! angle in degrees) to an occurrence count, kept as a vector of distinct
//! buckets.  Its abstract content is the per-bucket count sum, and its grand
//! total is the quantity the zoom-pyramid reduction conserves.

use vstd::prelude::*;

verus! {

/// One histogram bucket: a tile at the working zoom level together with an
/// integer corner angle in degrees.
#[derive(Clone, Copy, PartialEq, Eq, Structural, Debug)]
pub struct Bucket {
    pub x: u32,
    pub y: u32,
    pub angle: i16,
}

/// A bucket together with its occurrence count.
#[derive(Clone, Copy, PartialEq, Eq, Structural, Debug)]
pub struct BucketCount {
    pub bucket: Bucket,
    pub count: u64,
}

/// Sum of the counts of a record sequence.
pub open spec fn count_sum(s: Seq<BucketCount>) -> int
    decreases s.len(),
{
    if s.len() == 0 {
        0
    } else {
        s[0].count + count_sum(s.drop_first())
    }
}

/// Sum of the counts of the records that hit one bucket.
pub open spec fn bucket_sum(s: Seq<BucketCount>, b: Bucket) -> int
    decreases s.len(),
{
    if s.len() == 0 {
        0
    } else {
        (if s[0].bucket == b {
            s[0].count as int
        } else {
            0
        }) + bucket_sum(s.drop_first(), b)
    }
}

pub proof fn lemma_count_sum_nonneg(s: Seq<BucketCount>)
    ensures
        count_sum(s) >= 0,
    decreases s.len(),
{
    if s.len() > 0 {
        lemma_count_sum_nonneg(s.drop_first());
    }
}

/// Any single record's count is at most the whole sum.
pub proof fn lemma_count_sum_elem(s: Seq<BucketCount>, i: int)
    requires
        0 <= i < s.len(),
    ensures
        s[i].count <= count_sum(s),
    decreases s.len(),
{
    if i == 0 {
        lemma_count_sum_nonneg(s.drop_first());
    } else {
        lemma_count_sum_elem(s.drop_first(), i - 1);
    }
}

pub proof fn lemma_count_sum_push(s: Seq<BucketCount>, e: BucketCount)
    ensures
        count_sum(s.push(e)) == count_sum(s) + e.count,
    decreases s.len(),
{
    assert(s.push(e).len() == s.len() + 1);
    assert(count_sum(s.push(e)) == s.push(e)[0].count + count_sum(s.push(e).drop_first()));
    if s.len() == 0 {
        assert(s.push(e)[0] == e);
        assert(s.push(e).drop_first() =~= Seq::<BucketCount>::empty());
    } else {
        assert(s.push(e)[0] == s[0]);
        assert(s.push(e).drop_first() =~= s.drop_first().push(e));
        lemma_count_sum_push(s.drop_first(), e);
    }
}

pub proof fn lemma_bucket_sum_push(s: Seq<BucketCount>, e: BucketCount, b: Bucket)
    ensures
        bucket_sum(s.push(e), b) == bucket_sum(s, b) + (if e.bucket == b {
            e.count as int
        } else {
            0
        }),
    decreases s.len(),
{
    assert(s.push(e).len() == s.len() + 1);
    assert(bucket_sum(s.push(e), b) == (if s.push(e)[0].bucket == b {
        s.push(e)[0].count as int
    } else {
        0
    }) + bucket_sum(s.push(e).drop_first(), b));
    if s.len() == 0 {
        assert(s.push(e)[0] == e);
        assert(s.push(e).drop_first() =~= Seq::<BucketCount>::empty());
    } else {
        assert(s.push(e)[0] == s[0]);
        assert(s.push(e).drop_first() =~= s.drop_first().push(e));
        lemma_bucket_sum_push(s.drop_first(), e, b);
    }
}

pub proof fn lemma_count_sum_update(s: Seq<BucketCount>, i: int, e: BucketCount)
    requires
        0 <= i < s.len(),
    ensures
        count_sum(s.update(i, e)) == count_sum(s) - s[i].count + e.count,
    decreases s.len(),
{
    if i == 0 {
        assert(s.update(0, e).drop_first() =~= s.drop_first());
    } else {
        assert(s.update(i, e).drop_first() =~= s.drop_first().update(i - 1, e));
        lemma_count_sum_update(s.drop_first(), i - 1, e);
    }
}

pub proof fn lemma_bucket_sum_update(s: Seq<BucketCount>, i: int, e: BucketCount, b: Bucket)
    requires
        0 <= i < s.len(),
    ensures
        bucket_sum(s.update(i, e), b) == bucket_sum(s, b) - (if s[i].bucket == b {
            s[i].count as int
        } else {
            0
        }) + (if e.bucket == b {
            e.count as int
        } else {
            0
        }),
    decreases s.len(),
{
    if i == 0 {
        assert(s.update(0, e).drop_first() =~= s.drop_first());
    } else {
        assert(s.update(i, e).drop_first() =~= s.drop_first().update(i - 1, e));
        lemma_bucket_sum_update(s.drop_first(), i - 1, e, b);
    }
}

/// A sequence with no record for a bucket sums to zero there.
pub proof fn lemma_bucket_sum_missing(s: Seq<BucketCount>, b: Bucket)
    requires
        forall|k: int| 0 <= k < s.len() ==> (#[trigger] s[k]).bucket != b,
    ensures
        bucket_sum(s, b) == 0,
    decreases s.len(),
{
    if s.len() > 0 {
        assert forall|k: int| 0 <= k < s.drop_first().len() implies (
        #[trigger] s.drop_first()[k]).bucket != b by {
            assert(s.drop_first()[k] == s[k + 1]);
        }
        lemma_bucket_sum_missing(s.drop_first(), b);
    }
}

/// With pairwise-distinct buckets, the sum for a bucket is exactly the one
/// matching record's count.
pub proof fn lemma_bucket_sum_matched(s: Seq<BucketCount>, i: int, b: Bucket)
    requires
        0 <= i < s.len(),
        s[i].bucket == b,
        forall|j1: int, j2: int| 0 <= j1 < j2 < s.len() ==> s[j1].bucket != s[j2].bucket,
    ensures
        bucket_sum(s, b) == s[i].count,
    decreases s.len(),
{
    assert forall|k: int| 0 <= k < s.drop_first().len() implies #[trigger] s.drop_first()[k] == s[
        k + 1
    ] by {
    }
    if i == 0 {
        assert forall|k: int| 0 <= k < s.drop_first().len() implies (
        #[trigger] s.drop_first()[k]).bucket != b by {
            assert(s[0].bucket != s[k + 1].bucket);
        }
        lemma_bucket_sum_missing(s.drop_first(), b);
    } else {
        assert(s[0].bucket != s[i].bucket);
        lemma_bucket_sum_matched(s.drop_first(), i - 1, b);
    }
}

/// The histogram proper.  One record per bucket, every count at least one,
/// and a running total equal to the sum of all counts.
pub struct Histogram {
    entries: Vec<BucketCount>,
    total: u64,
}

impl Histogram {
    /// The record sequence the histogram holds.
    pub closed spec fn entries_view(self) -> Seq<BucketCount> {
        self.entries@
    }

    /// The grand total: how many corners were ever recorded.
    pub open spec fn total(self) -> int {
        count_sum(self.entries_view())
    }

    /// The count the histogram holds for one bucket; zero when absent.
    pub open spec fn spec_count(self, b: Bucket) -> int {
        bucket_sum(self.entries_view(), b)
    }

    /// Well-formed: buckets pairwise distinct, counts positive, running
    /// total in agreement with the records.
    pub closed spec fn wf(self) -> bool {
        &&& self.total as int == count_sum(self.entries@)
        &&& forall|i: int, j: int|
            0 <= i < j < self.entries@.len() ==> self.entries@[i].bucket != self.entries@[j].bucket
        &&& forall|i: int| 0 <= i < self.entries@.len() ==> self.entries@[i].count >= 1
    }

    /// What well-formedness lets every consumer rely on: the grand total
    /// fits a machine word and every kept record counts at least one corner.
    pub proof fn lemma_wf_facts(&self)
        requires
            self.wf(),
        ensures
            self.total() <= u64::MAX,
            forall|i: int|
                0 <= i < self.entries_view().len() ==> #[trigger] self.entries_view()[i].count
                    >= 1,
    {
    }

    /// An empty histogram.
    pub fn new() -> (h: Self)
        ensures
            h.wf(),
            h.total() == 0,
            h.entries_view() =~= Seq::<BucketCount>::empty(),
            forall|b: Bucket| h.spec_count(b) == 0,
    {
        Histogram { entries: Vec::new(), total: 0 }
    }

    /// The grand total as a machine word.
    pub fn total_count(&self) -> (t: u64)
        requires
            self.wf(),
        ensures
            t as int == self.total(),
    {
        self.total
    }

    /// How many distinct buckets hold a count.
    pub fn num_buckets(&self) -> (n: usize)
        ensures
            n == self.entries_view().len(),
    {
        self.entries.len()
    }

    /// The records, for emission; one per bucket.
    pub fn entries(&self) -> (r: &Vec<BucketCount>)
        ensures
            r@ == self.entries_view(),
    {
        &self.entries
    }

    /// The count one bucket holds.
    pub fn count_for(&self, b: Bucket) -> (c: u64)
        requires
            self.wf(),
        ensures
            c as int == self.spec_count(b),
    {
        let n: usize = self.entries.len();
        let mut i: usize = 0;
        while i < n && !(self.entries[i].bucket == b)
            invariant
                n == self.entries@.len(),
                i <= n,
                forall|k: int| 0 <= k < i ==> self.entries@[k].bucket != b,
            decreases n - i,
        {
            i = i + 1;
        }
        if i < n {
            proof {
                lemma_bucket_sum_matched(self.entries@, i as int, b);
            }
            self.entries[i].count
        } else {
            proof {
                lemma_bucket_sum_missing(self.entries@, b);
            }
            0
        }
    }

    /// Add `c` occurrences to one bucket: that bucket's count grows by `c`,
    /// every other bucket keeps its count, and the grand total grows by `c`.
    pub fn add_count(&mut self, b: Bucket, c: u64)
        requires
            old(self).wf(),
            c >= 1,
            old(self).total() + c <= u64::MAX,
        ensures
            final(self).wf(),
            final(self).spec_count(b) == old(self).spec_count(b) + c,
            forall|b2: Bucket| b2 != b ==> final(self).spec_count(b2) == old(self).spec_count(b2),
            final(self).total() == old(self).total() + c,
    {
        let n: usize = self.entries.len();
        let mut i: usize = 0;
        while i < n && !(self.entries[i].bucket == b)
            invariant
                *self == *old(self),
                n == self.entries@.len(),
                i <= n,
                forall|k: int| 0 <= k < i ==> self.entries@[k].bucket != b,
            decreases n - i,
        {
            i = i + 1;
        }
        if i < n {
            let prior: u64 = self.entries[i].count;
            proof {
                lemma_count_sum_elem(self.entries@, i as int);
            }
            let updated = BucketCount { bucket: b, count: prior + c };
            let slot = vstd::std_specs::vec::vec_index_mut(&mut self.entries, i);
            *slot = updated;
            self.total = self.total + c;
            proof {
                lemma_count_sum_update(old(self).entries@, i as int, updated);
                lemma_bucket_sum_update(old(self).entries@, i as int, updated, b);
                assert forall|b2: Bucket| b2 != b implies bucket_sum(self.entries@, b2)
                    == bucket_sum(old(self).entries@, b2) by {
                    lemma_bucket_sum_update(old(self).entries@, i as int, updated, b2);
                }
            }
        } else {
            let added = BucketCount { bucket: b, count: c };
            self.entries.push(added);
            self.total = self.total + c;
            proof {
                lemma_count_sum_push(old(self).entries@, added);
                lemma_bucket_sum_push(old(self).entries@, added, b);
                assert forall|b2: Bucket| b2 != b implies bucket_sum(self.entries@, b2)
                    == bucket_sum(old(self).entries@, b2) by {
                    lemma_bucket_sum_push(old(self).entries@, added, b2);
                }
            }
        }
    }

    /// Record one corner in a bucket.
    pub fn record(&mut self, b: Bucket)
        requires
            old(self).wf(),
            old(self).total() < u64::MAX,
        ensures
            final(self).wf(),
            final(self).spec_count(b) == old(self).spec_count(b) + 1,
            forall|b2: Bucket| b2 != b ==> final(self).spec_count(b2) == old(self).spec_count(b2),
            final(self).total() == old(self).total() + 1,
    {
        self.add_count(b, 1);
    }
}

} // verus!
