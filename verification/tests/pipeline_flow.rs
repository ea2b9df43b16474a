use building_angles::coords::{Coord, CoordStore};
use building_angles::corners::corner_ids;
use building_angles::corpus::BuildingCorpus;
use building_angles::encoding::{push_u64_be, read_u64_be};
use building_angles::histogram::{Bucket, Histogram};
use building_angles::pipeline::{maybe_append_building, resolve_corner, tile_at_zoom};
use building_angles::pyramid::reduce_levels;

fn coord(x: f32, y: f32) -> Coord {
    Coord { x_bits: x.to_bits(), y_bits: y.to_bits() }
}

#[test]
fn words_round_trip_big_endian() {
    let mut buf: Vec<u8> = Vec::new();
    push_u64_be(&mut buf, 0x0102030405060708);
    assert_eq!(buf, vec![1, 2, 3, 4, 5, 6, 7, 8]);
    push_u64_be(&mut buf, u64::MAX - 1);
    assert_eq!(read_u64_be(&buf, 0), 0x0102030405060708);
    assert_eq!(read_u64_be(&buf, 8), u64::MAX - 1);
}

#[test]
fn zoom_zero_is_always_the_root_tile() {
    assert_eq!(tile_at_zoom(0, 139753, 108228), (0, 0));
    assert_eq!(tile_at_zoom(0, u32::MAX, u32::MAX), (0, 0));
    assert_eq!(tile_at_zoom(18, 139753, 108228), (139753, 108228));
}

#[test]
fn corners_resolve_through_the_store() {
    let mut store = CoordStore::new();
    store.set(1, coord(0.0, 0.0));
    store.set(2, coord(4.0, 0.0));
    store.set(3, coord(0.0, 3.0));
    let (l, c, r) = resolve_corner(&store, (1, 2, 3)).expect("all three stored");
    assert_eq!(l, coord(0.0, 0.0));
    assert_eq!(c, coord(4.0, 0.0));
    assert_eq!(r, coord(0.0, 3.0));
}

#[test]
fn a_missing_point_fails_resolution() {
    let mut store = CoordStore::new();
    store.set(1, coord(0.0, 0.0));
    store.set(3, coord(0.0, 3.0));
    assert!(resolve_corner(&store, (1, 9, 3)).is_none());
    // id 2 sits inside the store's extent but was never written
    assert!(resolve_corner(&store, (1, 2, 3)).is_none());
}

#[test]
fn a_synthetic_ring_flows_through_both_passes() {
    // extraction pass: one closed triangle tagged as a building
    let mut store = CoordStore::new();
    store.set(1, coord(0.0, 0.0));
    store.set(2, coord(4.0, 0.0));
    store.set(3, coord(0.0, 3.0));
    let mut corpus = BuildingCorpus::new();
    let added = maybe_append_building(
        &mut corpus,
        &Some("yes".to_string()),
        &vec![1, 2, 3, 1],
    );
    assert!(added);

    // aggregation pass: every corner resolves; the triangle's integer angles
    // (right angle and its two complements) land in one finest-zoom tile
    let mut h = Histogram::new();
    let angles: [i16; 3] = [90, 37, 53];
    while let Some(ring) = corpus.next_building() {
        let corners = corner_ids(&ring);
        assert_eq!(corners.len(), 3);
        for (k, corner) in corners.into_iter().enumerate() {
            assert!(resolve_corner(&store, corner).is_some());
            h.record(Bucket { x: 5, y: 5, angle: angles[k] });
        }
    }
    assert_eq!(h.total_count(), 3);

    // reduction: the total is conserved at every level and the coarsest
    // level is the single origin tile
    let rows = reduce_levels(3, h);
    for zoom in 0u8..=3 {
        let level_total: u64 =
            rows.iter().filter(|r| r.zoom == zoom).map(|r| r.count).sum();
        assert_eq!(level_total, 3);
    }
    for r in rows.iter().filter(|r| r.zoom == 0) {
        assert_eq!((r.x, r.y), (0, 0));
    }
}
