//! Zoom-pyramid reduction: the finest-level histogram is emitted, then folded
//! into the next-coarser level by halving both tile coordinates and summing
//! counts, down to zoom level zero.  Each emitted level holds, bucket for
//! bucket, the sums of the finest-level buckets that coarsen into it, and so
//! the conservation law holds throughout: every level's rows sum to the same
//! grand total — no corner is ever dropped or double-counted.

use vstd::prelude::*;
use crate::histogram::{
    Bucket, BucketCount, Histogram, bucket_sum, count_sum, lemma_count_sum_push,
};

verus! {

/// The bucket one zoom level coarser: tile coordinates halved toward zero,
/// angle kept.
pub open spec fn parent_bucket(b: Bucket) -> Bucket {
    Bucket { x: b.x / 2, y: b.y / 2, angle: b.angle }
}

/// Sum of the counts of the records whose bucket folds into `p`.
pub open spec fn folded_sum(s: Seq<BucketCount>, p: Bucket) -> int
    decreases s.len(),
{
    if s.len() == 0 {
        0
    } else {
        (if parent_bucket(s[0].bucket) == p {
            s[0].count as int
        } else {
            0
        }) + folded_sum(s.drop_first(), p)
    }
}

pub proof fn lemma_folded_sum_push(s: Seq<BucketCount>, e: BucketCount, p: Bucket)
    ensures
        folded_sum(s.push(e), p) == folded_sum(s, p) + (if parent_bucket(e.bucket) == p {
            e.count as int
        } else {
            0
        }),
    decreases s.len(),
{
    assert(s.push(e).len() == s.len() + 1);
    assert(folded_sum(s.push(e), p) == (if parent_bucket(s.push(e)[0].bucket) == p {
        s.push(e)[0].count as int
    } else {
        0
    }) + folded_sum(s.push(e).drop_first(), p));
    if s.len() == 0 {
        assert(s.push(e)[0] == e);
        assert(s.push(e).drop_first() =~= Seq::<BucketCount>::empty());
    } else {
        assert(s.push(e)[0] == s[0]);
        assert(s.push(e).drop_first() =~= s.drop_first().push(e));
        lemma_folded_sum_push(s.drop_first(), e, p);
    }
}

/// The bucket `steps` zoom levels coarser.
pub open spec fn ancestor_bucket(b: Bucket, steps: nat) -> Bucket
    decreases steps,
{
    if steps == 0 {
        b
    } else {
        parent_bucket(ancestor_bucket(b, (steps - 1) as nat))
    }
}

/// Sum of the counts of the records whose bucket coarsens into `p` after
/// `steps` halvings.
pub open spec fn deep_sum(s: Seq<BucketCount>, steps: nat, p: Bucket) -> int
    decreases s.len(),
{
    if s.len() == 0 {
        0
    } else {
        (if ancestor_bucket(s[0].bucket, steps) == p {
            s[0].count as int
        } else {
            0
        }) + deep_sum(s.drop_first(), steps, p)
    }
}

/// Zero halvings coarsen nothing: the deep sum is the plain bucket sum.
pub proof fn lemma_deep_sum_zero(s: Seq<BucketCount>, p: Bucket)
    ensures
        deep_sum(s, 0, p) == bucket_sum(s, p),
    decreases s.len(),
{
    if s.len() > 0 {
        lemma_deep_sum_zero(s.drop_first(), p);
    }
}

/// The four buckets that halve into `p`, indexed by the two dropped bits.
pub open spec fn child_bucket(p: Bucket, dx: int, dy: int) -> Bucket {
    Bucket { x: (2 * p.x + dx) as u32, y: (2 * p.y + dy) as u32, angle: p.angle }
}

/// A bucket can be a parent only below half the coordinate range.
pub open spec fn parent_in_range(p: Bucket) -> bool {
    p.x < 0x80000000 && p.y < 0x80000000
}

/// Halving a bucket lands below half the coordinate range.
pub proof fn lemma_parent_in_range(b: Bucket)
    ensures
        parent_in_range(parent_bucket(b)),
{
}

/// A bucket's parent is `p` exactly when the bucket is one of `p`'s four
/// children.
pub proof fn lemma_parent_iff_child(b: Bucket, p: Bucket)
    requires
        parent_in_range(p),
    ensures
        (parent_bucket(b) == p) <==> (b == child_bucket(p, 0, 0) || b == child_bucket(p, 1, 0)
            || b == child_bucket(p, 0, 1) || b == child_bucket(p, 1, 1)),
{
}

/// What one fold gathers for `p` is what its four children held.
pub proof fn lemma_folded_sum_children(s: Seq<BucketCount>, p: Bucket)
    requires
        parent_in_range(p),
    ensures
        folded_sum(s, p) == bucket_sum(s, child_bucket(p, 0, 0)) + bucket_sum(
            s,
            child_bucket(p, 1, 0),
        ) + bucket_sum(s, child_bucket(p, 0, 1)) + bucket_sum(s, child_bucket(p, 1, 1)),
    decreases s.len(),
{
    if s.len() > 0 {
        lemma_parent_iff_child(s[0].bucket, p);
        lemma_folded_sum_children(s.drop_first(), p);
    }
}

/// Out of parent range nothing folds in.
pub proof fn lemma_folded_sum_out_of_range(s: Seq<BucketCount>, p: Bucket)
    requires
        !parent_in_range(p),
    ensures
        folded_sum(s, p) == 0,
    decreases s.len(),
{
    if s.len() > 0 {
        lemma_parent_in_range(s[0].bucket);
        lemma_folded_sum_out_of_range(s.drop_first(), p);
    }
}

/// One more halving gathers for `p` what its four children held.
pub proof fn lemma_deep_sum_children(s: Seq<BucketCount>, steps: nat, p: Bucket)
    requires
        parent_in_range(p),
    ensures
        deep_sum(s, steps + 1, p) == deep_sum(s, steps, child_bucket(p, 0, 0)) + deep_sum(
            s,
            steps,
            child_bucket(p, 1, 0),
        ) + deep_sum(s, steps, child_bucket(p, 0, 1)) + deep_sum(s, steps, child_bucket(p, 1, 1)),
    decreases s.len(),
{
    if s.len() > 0 {
        lemma_parent_iff_child(ancestor_bucket(s[0].bucket, steps), p);
        assert(ancestor_bucket(s[0].bucket, steps + 1) == parent_bucket(
            ancestor_bucket(s[0].bucket, steps),
        ));
        lemma_deep_sum_children(s.drop_first(), steps, p);
    }
}

/// Out of parent range no halving lands.
pub proof fn lemma_deep_sum_out_of_range(s: Seq<BucketCount>, steps: nat, p: Bucket)
    requires
        !parent_in_range(p),
        steps >= 1,
    ensures
        deep_sum(s, steps, p) == 0,
    decreases s.len(),
{
    if s.len() > 0 {
        lemma_parent_in_range(ancestor_bucket(s[0].bucket, (steps - 1) as nat));
        assert(ancestor_bucket(s[0].bucket, steps) == parent_bucket(
            ancestor_bucket(s[0].bucket, (steps - 1) as nat),
        ));
        lemma_deep_sum_out_of_range(s.drop_first(), steps, p);
    }
}

/// A prefix of a record sequence never sums to more than the whole.
pub proof fn lemma_count_sum_take_le(s: Seq<BucketCount>, k: int)
    requires
        0 <= k <= s.len(),
    ensures
        count_sum(s.take(k)) <= count_sum(s),
    decreases s.len() - k,
{
    if k == s.len() {
        assert(s.take(k) =~= s);
    } else {
        assert(s.take(k + 1) =~= s.take(k).push(s[k]));
        lemma_count_sum_push(s.take(k), s[k]);
        lemma_count_sum_take_le(s, k + 1);
    }
}

/// Fold a histogram one zoom level coarser.  Every coarser bucket receives
/// exactly the sum of the counts of the finer buckets that halve into it,
/// and the grand total is conserved.
pub fn fold_level(h: &Histogram) -> (r: Histogram)
    requires
        h.wf(),
    ensures
        r.wf(),
        r.total() == h.total(),
        forall|p: Bucket| r.spec_count(p) == folded_sum(h.entries_view(), p),
{
    let mut r = Histogram::new();
    let src = h.entries();
    let n: usize = src.len();
    let mut i: usize = 0;
    proof {
        h.lemma_wf_facts();
    }
    while i < n
        invariant
            h.wf(),
            r.wf(),
            src@ == h.entries_view(),
            n == src@.len(),
            i <= n,
            r.total() == count_sum(src@.take(i as int)),
            forall|p: Bucket| r.spec_count(p) == folded_sum(src@.take(i as int), p),
        decreases n - i,
    {
        let e = src[i];
        let p = Bucket { x: e.bucket.x / 2, y: e.bucket.y / 2, angle: e.bucket.angle };
        proof {
            h.lemma_wf_facts();
            assert(src@.take(i + 1) =~= src@.take(i as int).push(src@[i as int]));
            lemma_count_sum_push(src@.take(i as int), src@[i as int]);
            lemma_count_sum_take_le(src@, i + 1);
            assert(p == parent_bucket(e.bucket));
        }
        r.add_count(p, e.count);
        proof {
            assert forall|q: Bucket| r.spec_count(q) == folded_sum(
                src@.take(i + 1),
                q,
            ) by {
                lemma_folded_sum_push(src@.take(i as int), src@[i as int], q);
            }
        }
        i = i + 1;
    }
    proof {
        assert(src@.take(n as int) =~= src@);
    }
    r
}

/// One output row: a zoom level, a tile, an angle, and the count of corners
/// that fell in that bucket.
#[derive(Clone, Copy, PartialEq, Eq, Structural, Debug)]
pub struct OutputRow {
    pub zoom: u8,
    pub x: u32,
    pub y: u32,
    pub angle: i16,
    pub count: u64,
}

/// The row that presents one histogram record at a zoom level.
pub open spec fn row_of(e: BucketCount, zoom: u8) -> OutputRow {
    OutputRow { zoom: zoom, x: e.bucket.x, y: e.bucket.y, angle: e.bucket.angle, count: e.count }
}

/// Sum of the counts of the rows that belong to one zoom level.
pub open spec fn level_sum(rows: Seq<OutputRow>, zoom: u8) -> int
    decreases rows.len(),
{
    if rows.len() == 0 {
        0
    } else {
        (if rows[0].zoom == zoom {
            rows[0].count as int
        } else {
            0
        }) + level_sum(rows.drop_first(), zoom)
    }
}

pub proof fn lemma_level_sum_push(rows: Seq<OutputRow>, r: OutputRow, zoom: u8)
    ensures
        level_sum(rows.push(r), zoom) == level_sum(rows, zoom) + (if r.zoom == zoom {
            r.count as int
        } else {
            0
        }),
    decreases rows.len(),
{
    assert(rows.push(r).len() == rows.len() + 1);
    assert(level_sum(rows.push(r), zoom) == (if rows.push(r)[0].zoom == zoom {
        rows.push(r)[0].count as int
    } else {
        0
    }) + level_sum(rows.push(r).drop_first(), zoom));
    if rows.len() == 0 {
        assert(rows.push(r)[0] == r);
        assert(rows.push(r).drop_first() =~= Seq::<OutputRow>::empty());
    } else {
        assert(rows.push(r)[0] == rows[0]);
        assert(rows.push(r).drop_first() =~= rows.drop_first().push(r));
        lemma_level_sum_push(rows.drop_first(), r, zoom);
    }
}

/// The bucket a row presents.
pub open spec fn row_bucket(r: OutputRow) -> Bucket {
    Bucket { x: r.x, y: r.y, angle: r.angle }
}

/// Sum of the counts of the rows at one zoom level that present one bucket.
pub open spec fn level_bucket_sum(rows: Seq<OutputRow>, zoom: u8, b: Bucket) -> int
    decreases rows.len(),
{
    if rows.len() == 0 {
        0
    } else {
        (if rows[0].zoom == zoom && row_bucket(rows[0]) == b {
            rows[0].count as int
        } else {
            0
        }) + level_bucket_sum(rows.drop_first(), zoom, b)
    }
}

pub proof fn lemma_level_bucket_sum_push(rows: Seq<OutputRow>, r: OutputRow, zoom: u8, b: Bucket)
    ensures
        level_bucket_sum(rows.push(r), zoom, b) == level_bucket_sum(rows, zoom, b) + (if r.zoom
            == zoom && row_bucket(r) == b {
            r.count as int
        } else {
            0
        }),
    decreases rows.len(),
{
    assert(rows.push(r).len() == rows.len() + 1);
    assert(level_bucket_sum(rows.push(r), zoom, b) == (if rows.push(r)[0].zoom == zoom
        && row_bucket(rows.push(r)[0]) == b {
        rows.push(r)[0].count as int
    } else {
        0
    }) + level_bucket_sum(rows.push(r).drop_first(), zoom, b));
    if rows.len() == 0 {
        assert(rows.push(r)[0] == r);
        assert(rows.push(r).drop_first() =~= Seq::<OutputRow>::empty());
    } else {
        assert(rows.push(r)[0] == rows[0]);
        assert(rows.push(r).drop_first() =~= rows.drop_first().push(r));
        lemma_level_bucket_sum_push(rows.drop_first(), r, zoom, b);
    }
}

/// Append one row per histogram record at the given zoom level.  The level
/// receives exactly the histogram's per-bucket counts and its grand total;
/// every other level keeps its sums.
pub fn emit_level(rows: &mut Vec<OutputRow>, h: &Histogram, zoom: u8)
    ensures
        final(rows)@.len() == old(rows)@.len() + h.entries_view().len(),
        forall|k: int| 0 <= k < old(rows)@.len() ==> final(rows)@[k] == old(rows)@[k],
        forall|k: int|
            0 <= k < h.entries_view().len() ==> final(rows)@[old(rows)@.len() + k] == row_of(
                h.entries_view()[k],
                zoom,
            ),
        level_sum(final(rows)@, zoom) == level_sum(old(rows)@, zoom) + h.total(),
        forall|z: u8| z != zoom ==> level_sum(final(rows)@, z) == level_sum(old(rows)@, z),
        forall|b: Bucket|
            level_bucket_sum(final(rows)@, zoom, b) == level_bucket_sum(old(rows)@, zoom, b)
                + h.spec_count(b),
        forall|z: u8, b: Bucket|
            z != zoom ==> level_bucket_sum(final(rows)@, z, b) == level_bucket_sum(
                old(rows)@,
                z,
                b,
            ),
{
    let src = h.entries();
    let n: usize = src.len();
    let mut i: usize = 0;
    while i < n
        invariant
            src@ == h.entries_view(),
            n == src@.len(),
            i <= n,
            rows@.len() == old(rows)@.len() + i,
            forall|k: int| 0 <= k < old(rows)@.len() ==> rows@[k] == old(rows)@[k],
            forall|k: int|
                0 <= k < i ==> rows@[old(rows)@.len() + k] == row_of(src@[k], zoom),
            level_sum(rows@, zoom) == level_sum(old(rows)@, zoom) + count_sum(
                src@.take(i as int),
            ),
            forall|z: u8| z != zoom ==> level_sum(rows@, z) == level_sum(old(rows)@, z),
            forall|b: Bucket|
                level_bucket_sum(rows@, zoom, b) == level_bucket_sum(old(rows)@, zoom, b)
                    + bucket_sum(src@.take(i as int), b),
            forall|z: u8, b: Bucket|
                z != zoom ==> level_bucket_sum(rows@, z, b) == level_bucket_sum(old(rows)@, z, b),
        decreases n - i,
    {
        let e = src[i];
        let row = OutputRow {
            zoom: zoom,
            x: e.bucket.x,
            y: e.bucket.y,
            angle: e.bucket.angle,
            count: e.count,
        };
        proof {
            assert(src@.take(i + 1) =~= src@.take(i as int).push(src@[i as int]));
            lemma_count_sum_push(src@.take(i as int), src@[i as int]);
            assert forall|z: u8| true implies level_sum(rows@.push(row), z) == level_sum(rows@, z)
                + (if z == zoom {
                e.count as int
            } else {
                0
            }) by {
                lemma_level_sum_push(rows@, row, z);
            }
            assert(row_bucket(row) == e.bucket);
            assert forall|z: u8, b: Bucket| true implies level_bucket_sum(rows@.push(row), z, b)
                == level_bucket_sum(rows@, z, b) + (if z == zoom && e.bucket == b {
                e.count as int
            } else {
                0
            }) by {
                lemma_level_bucket_sum_push(rows@, row, z, b);
            }
            assert forall|b: Bucket| true implies bucket_sum(src@.take(i + 1), b) == bucket_sum(
                src@.take(i as int),
                b,
            ) + (if e.bucket == b {
                e.count as int
            } else {
                0
            }) by {
                crate::histogram::lemma_bucket_sum_push(src@.take(i as int), src@[i as int], b);
            }
        }
        rows.push(row);
        i = i + 1;
    }
    proof {
        assert(src@.take(n as int) =~= src@);
    }
}

/// Materialize every zoom level from the finest one down to zero, finest
/// first.  Every level's rows sum to the histogram's grand total — the
/// conservation law of the reduction; each level's bucket holds exactly the
/// counts of the finest buckets that coarsen into it; and the rows of one
/// level stand together, coarser levels later.
pub fn reduce_levels(finest: u8, h: Histogram) -> (rows: Vec<OutputRow>)
    requires
        h.wf(),
    ensures
        forall|z: u8| z <= finest ==> level_sum(rows@, z) == h.total(),
        forall|z: u8| z > finest ==> level_sum(rows@, z) == 0,
        forall|z: u8, b: Bucket|
            z <= finest ==> level_bucket_sum(rows@, z, b) == deep_sum(
                h.entries_view(),
                (finest - z) as nat,
                b,
            ),
        h.entries_view().len() <= rows@.len(),
        forall|k: int|
            0 <= k < h.entries_view().len() ==> rows@[k] == row_of(
                #[trigger] h.entries_view()[k],
                finest,
            ),
        forall|k: int| 0 <= k < rows@.len() ==> (#[trigger] rows@[k]).zoom <= finest,
        forall|k1: int, k2: int|
            0 <= k1 < k2 < rows@.len() ==> (#[trigger] rows@[k1]).zoom >= (#[trigger] rows@[k2]).zoom,
{
    let ghost t0: int = h.total();
    let ghost finest_entries: Seq<BucketCount> = h.entries_view();
    let mut rows: Vec<OutputRow> = Vec::new();
    let mut cur: Histogram = h;
    let mut level: u8 = finest;
    emit_level(&mut rows, &cur, level);
    proof {
        assert forall|k: int| 0 <= k < rows@.len() implies level <= (#[trigger] rows@[k]).zoom
            <= finest by {
            assert(rows@[k] == row_of(cur.entries_view()[k], finest));
        }
        assert forall|b: Bucket| cur.spec_count(b) == deep_sum(
            finest_entries,
            (finest - level) as nat,
            b,
        ) by {
            lemma_deep_sum_zero(finest_entries, b);
        }
        assert forall|z: u8, b: Bucket| level <= z <= finest implies level_bucket_sum(rows@, z, b)
            == deep_sum(finest_entries, (finest - z) as nat, b) by {
            lemma_deep_sum_zero(finest_entries, b);
        }
    }
    while level > 0
        invariant
            cur.wf(),
            cur.total() == t0,
            level <= finest,
            forall|z: u8| level <= z <= finest ==> level_sum(rows@, z) == t0,
            forall|z: u8| z < level || z > finest ==> level_sum(rows@, z) == 0,
            forall|b: Bucket|
                cur.spec_count(b) == deep_sum(finest_entries, (finest - level) as nat, b),
            forall|z: u8, b: Bucket|
                level <= z <= finest ==> level_bucket_sum(rows@, z, b) == deep_sum(
                    finest_entries,
                    (finest - z) as nat,
                    b,
                ),
            forall|z: u8, b: Bucket|
                z < level || z > finest ==> level_bucket_sum(rows@, z, b) == 0,
            finest_entries.len() <= rows@.len(),
            forall|k: int|
                0 <= k < finest_entries.len() ==> rows@[k] == row_of(
                    #[trigger] finest_entries[k],
                    finest,
                ),
            forall|k: int|
                0 <= k < rows@.len() ==> level <= (#[trigger] rows@[k]).zoom <= finest,
            forall|k1: int, k2: int|
                0 <= k1 < k2 < rows@.len() ==> (#[trigger] rows@[k1]).zoom >= (
                #[trigger] rows@[k2]).zoom,
        decreases level,
    {
        let next = fold_level(&cur);
        level = level - 1;
        let ghost rows0: Seq<OutputRow> = rows@;
        let ghost lvl0: u8 = (level + 1) as u8;
        let ghost steps0: nat = (finest - lvl0) as nat;
        proof {
            assert forall|p: Bucket| next.spec_count(p) == deep_sum(
                finest_entries,
                (finest - level) as nat,
                p,
            ) by {
                assert((finest - level) as nat == steps0 + 1);
                assert(next.spec_count(p) == folded_sum(cur.entries_view(), p));
                if parent_in_range(p) {
                    lemma_folded_sum_children(cur.entries_view(), p);
                    lemma_deep_sum_children(finest_entries, steps0, p);
                    assert(cur.spec_count(child_bucket(p, 0, 0)) == deep_sum(
                        finest_entries,
                        steps0,
                        child_bucket(p, 0, 0),
                    ));
                    assert(cur.spec_count(child_bucket(p, 1, 0)) == deep_sum(
                        finest_entries,
                        steps0,
                        child_bucket(p, 1, 0),
                    ));
                    assert(cur.spec_count(child_bucket(p, 0, 1)) == deep_sum(
                        finest_entries,
                        steps0,
                        child_bucket(p, 0, 1),
                    ));
                    assert(cur.spec_count(child_bucket(p, 1, 1)) == deep_sum(
                        finest_entries,
                        steps0,
                        child_bucket(p, 1, 1),
                    ));
                } else {
                    lemma_folded_sum_out_of_range(cur.entries_view(), p);
                    lemma_deep_sum_out_of_range(finest_entries, steps0 + 1, p);
                }
            }
        }
        emit_level(&mut rows, &next, level);
        proof {
            assert forall|z: u8, b: Bucket| level <= z <= finest implies level_bucket_sum(
                rows@,
                z,
                b,
            ) == deep_sum(finest_entries, (finest - z) as nat, b) by {
                if z == level {
                    assert(level_bucket_sum(rows0, z, b) == 0);
                } else {
                    assert(level_bucket_sum(rows@, z, b) == level_bucket_sum(rows0, z, b));
                }
            }
            assert forall|k: int| 0 <= k < rows@.len() implies level <= (#[trigger] rows@[k]).zoom
                <= finest by {
                if k < rows0.len() {
                    assert(rows@[k] == rows0[k]);
                } else {
                    assert(rows@[k] == row_of(next.entries_view()[k - rows0.len()], level));
                }
            }
            assert forall|k1: int, k2: int| 0 <= k1 < k2 < rows@.len() implies (
            #[trigger] rows@[k1]).zoom >= (#[trigger] rows@[k2]).zoom by {
                if k2 < rows0.len() {
                    assert(rows@[k1] == rows0[k1]);
                    assert(rows@[k2] == rows0[k2]);
                } else {
                    assert(rows@[k2] == row_of(next.entries_view()[k2 - rows0.len()], level));
                    if k1 < rows0.len() {
                        assert(rows@[k1] == rows0[k1]);
                        assert(lvl0 <= rows0[k1].zoom);
                    } else {
                        assert(rows@[k1] == row_of(next.entries_view()[k1 - rows0.len()], level));
                    }
                }
            }
        }
        cur = next;
    }
    rows
}

} // verus!
