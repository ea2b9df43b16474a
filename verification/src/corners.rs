//! Cyclic corner windows of a closed building ring.
//!
//! A stored ring `v0 .. v(n-1)` lists its first vertex again as its last, so
//! it has `n - 1` distinct vertices and exactly `n - 1` corners: one window
//! `(left, centre, right)` for every distinct vertex, the last window wrapping
//! around to close the ring.

use vstd::prelude::*;

verus! {

/// The corner windows of a stored ring, in order of their centre vertex:
/// window `i` for `i < n - 2` is `(v[i], v[i+1], v[i+2])`, and the closing
/// window is `(v[n-2], v[0], v[1])`.
pub open spec fn corner_triples(s: Seq<u64>) -> Seq<(u64, u64, u64)>
    recommends
        s.len() >= 3,
{
    Seq::new((s.len() - 1) as nat, |i: int|
        if i < s.len() - 2 {
            (s[i], s[i + 1], s[i + 2])
        } else {
            (s[s.len() - 2], s[0], s[1])
        })
}

/// A closed ring yields one corner per distinct vertex: its stored length
/// less the repeated closing vertex.  Together with the histogram's and the
/// reduction's total conservation, the grand total at every zoom level is
/// the sum over all buildings of their distinct-vertex counts.
pub proof fn lemma_corner_count(ring: Seq<u64>)
    requires
        ring.len() >= 3,
    ensures
        corner_triples(ring).len() == ring.len() - 1,
{
}

/// Total number of corner windows a set of stored rings yields.
pub open spec fn corner_total(rings: Seq<Seq<u64>>) -> int
    decreases rings.len(),
{
    if rings.len() == 0 {
        0
    } else {
        corner_triples(rings[0]).len() + corner_total(rings.drop_first())
    }
}

/// Total number of distinct vertices over a set of stored rings, each ring
/// counted without its repeated closing vertex.
pub open spec fn distinct_vertex_total(rings: Seq<Seq<u64>>) -> int
    decreases rings.len(),
{
    if rings.len() == 0 {
        0
    } else {
        (rings[0].len() - 1) + distinct_vertex_total(rings.drop_first())
    }
}

/// Over any set of closed rings, the corners enumerated equal the distinct
/// vertices: with the histogram's and the reduction's conservation, every
/// zoom level's grand total is the buildings' distinct-vertex total.
pub proof fn lemma_corner_total_is_vertex_total(rings: Seq<Seq<u64>>)
    requires
        forall|k: int| 0 <= k < rings.len() ==> (#[trigger] rings[k]).len() >= 3,
    ensures
        corner_total(rings) == distinct_vertex_total(rings),
    decreases rings.len(),
{
    if rings.len() > 0 {
        assert forall|k: int| 0 <= k < rings.drop_first().len() implies (
        #[trigger] rings.drop_first()[k]).len() >= 3 by {
            assert(rings.drop_first()[k] == rings[k + 1]);
        }
        lemma_corner_total_is_vertex_total(rings.drop_first());
    }
}

/// Enumerate the corner windows of a stored ring.  A ring with `n` stored
/// vertices yields `n - 1` windows, one per distinct vertex.
pub fn corner_ids(ring: &Vec<u64>) -> (r: Vec<(u64, u64, u64)>)
    requires
        ring@.len() >= 3,
    ensures
        r@ == corner_triples(ring@),
        r@.len() == ring@.len() - 1,
{
    let n: usize = ring.len();
    let mut r: Vec<(u64, u64, u64)> = Vec::new();
    let mut i: usize = 0;
    while i < n - 2
        invariant
            ring@.len() == n,
            3 <= n,
            i <= n - 2,
            r@.len() == i,
            forall|k: int| 0 <= k < i ==> r@[k] == corner_triples(ring@)[k],
        decreases n - 2 - i,
    {
        r.push((ring[i], ring[i + 1], ring[i + 2]));
        i = i + 1;
    }
    r.push((ring[n - 2], ring[0], ring[1]));
    proof {
        assert(r@ =~= corner_triples(ring@));
    }
    r
}

} // verus!
