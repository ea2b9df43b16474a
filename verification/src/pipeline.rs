//! The decisions of the two passes, kept apart from the input decoding and
//! the floating-point geometry that surround them: which ways enter the
//! building corpus, and how a corner's three point IDs resolve through the
//! coordinate store.

use vstd::prelude::*;
use crate::coords::{Coord, CoordStore};
use crate::corpus::{BuildingCorpus, valid_ring};

verus! {

/// The view of an optional tag value.
pub open spec fn tag_view(tag: Option<String>) -> Option<Seq<char>> {
    match tag {
        Option::Some(s) => Option::Some(s@),
        Option::None => Option::None,
    }
}

/// Whether a way's `building` tag marks it as a building: the tag is present
/// with any value other than the literal refusal `"no"`; a missing tag is no
/// error, just "not a building".
pub open spec fn spec_marks_building(tag: Option<Seq<char>>) -> bool {
    match tag {
        Option::Some(v) => v != "no"@,
        Option::None => false,
    }
}

/// Decide whether a way's `building` tag value marks it as a building.
pub fn building_tag_marks(tag: &Option<String>) -> (r: bool)
    ensures
        r == spec_marks_building(tag_view(*tag)),
{
    match tag {
        Option::Some(v) => {
            let no: String = "no".to_owned();
            !v.eq(&no)
        },
        Option::None => false,
    }
}

/// Extraction-pass decision for one way: append its node list to the corpus
/// exactly when its tag marks a building and the list is a storable closed
/// ring (at least three IDs, none the reserved terminator zero).
pub fn maybe_append_building(
    corpus: &mut BuildingCorpus,
    tag: &Option<String>,
    nodes: &Vec<u64>,
) -> (added: bool)
    requires
        old(corpus).wf(),
    ensures
        final(corpus).wf(),
        final(corpus).read_count() == old(corpus).read_count(),
        added == (spec_marks_building(tag_view(*tag)) && valid_ring(nodes@)),
        added ==> final(corpus).rings() == old(corpus).rings().push(nodes@),
        !added ==> final(corpus).rings() == old(corpus).rings(),
{
    if !building_tag_marks(tag) {
        return false;
    }
    let n: usize = nodes.len();
    if n < 3 {
        return false;
    }
    let mut i: usize = 0;
    while i < n
        invariant
            *corpus == *old(corpus),
            old(corpus).wf(),
            n == nodes@.len(),
            i <= n,
            forall|k: int| 0 <= k < i ==> nodes@[k] != 0,
        decreases n - i,
    {
        if nodes[i] == 0 {
            return false;
        }
        i = i + 1;
    }
    corpus.append_building(nodes);
    true
}

/// The tile a scaled coordinate pair falls in at a zoom level.  Zoom level
/// zero has the single root tile, so the assignment there is (0, 0) whatever
/// the coordinate was; at any other level the scaled pair stands as computed.
pub fn tile_at_zoom(zoom: u8, xtile: u32, ytile: u32) -> (r: (u32, u32))
    ensures
        zoom == 0 ==> r == (0u32, 0u32),
        zoom != 0 ==> r == (xtile, ytile),
{
    if zoom == 0 {
        (0, 0)
    } else {
        (xtile, ytile)
    }
}

/// Resolve a corner window `(left, centre, right)` of point IDs through the
/// coordinate store: all three coordinates, or `None` as soon as any of the
/// three is absent — the caller treats that as a fatal data-integrity error.
pub fn resolve_corner(store: &CoordStore, corner: (u64, u64, u64)) -> (r: Option<
    (Coord, Coord, Coord),
>)
    ensures
        (r is Some) <==> (store.spec_get(corner.0) is Some && store.spec_get(corner.1) is Some
            && store.spec_get(corner.2) is Some),
        r matches Some(t) ==> (Some(t.0) == store.spec_get(corner.0) && Some(t.1)
            == store.spec_get(corner.1) && Some(t.2) == store.spec_get(corner.2)),
{
    let left = store.get(corner.0);
    let centre = store.get(corner.1);
    let right = store.get(corner.2);
    match (left, centre, right) {
        (Option::Some(a), Option::Some(b), Option::Some(c)) => Option::Some((a, b, c)),
        _ => Option::None,
    }
}

} // verus!
