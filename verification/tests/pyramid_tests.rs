use building_angles::histogram::{Bucket, Histogram};
use building_angles::pyramid::{fold_level, reduce_levels};

fn bucket(x: u32, y: u32, angle: i16) -> Bucket {
    Bucket { x, y, angle }
}

#[test]
fn recording_accumulates_per_bucket() {
    let mut h = Histogram::new();
    h.record(bucket(7, 3, 90));
    h.record(bucket(7, 3, 90));
    h.record(bucket(7, 3, 120));
    assert_eq!(h.total_count(), 3);
    assert_eq!(h.num_buckets(), 2);
    let counts: Vec<u64> = h.entries().iter().map(|e| e.count).collect();
    assert_eq!(counts.iter().sum::<u64>(), 3);
}

#[test]
fn folding_halves_tiles_and_conserves_the_total() {
    let mut h = Histogram::new();
    h.record(bucket(2, 3, 45));
    h.record(bucket(3, 3, 45));
    h.record(bucket(3, 3, 45));
    h.record(bucket(2, 2, 170));
    let coarser = fold_level(&h);
    assert_eq!(coarser.total_count(), h.total_count());
    assert_eq!(coarser.num_buckets(), 2);
    assert_eq!(coarser.count_for(bucket(1, 1, 45)), 3);
    assert_eq!(coarser.count_for(bucket(1, 1, 170)), 1);
    assert_eq!(coarser.count_for(bucket(2, 3, 45)), 0);
}

#[test]
fn every_level_of_the_pyramid_sums_alike() {
    let mut h = Histogram::new();
    // four corners of one synthetic ring, distinct angles, tiles at zoom 2
    h.record(bucket(1, 1, 97));
    h.record(bucket(1, 1, 83));
    h.record(bucket(2, 1, 97));
    h.record(bucket(3, 2, 61));
    let rows = reduce_levels(2, h);
    for zoom in 0u8..=2 {
        let level_total: u64 =
            rows.iter().filter(|r| r.zoom == zoom).map(|r| r.count).sum();
        assert_eq!(level_total, 4, "conservation failed at zoom {zoom}");
    }
    // the coarsest level collapses onto the single origin tile, with each
    // angle holding exactly the counts that coarsened into it
    for r in rows.iter().filter(|r| r.zoom == 0) {
        assert_eq!((r.x, r.y), (0, 0));
        match r.angle {
            97 => assert_eq!(r.count, 2),
            83 | 61 => assert_eq!(r.count, 1),
            other => panic!("unexpected angle {other}"),
        }
    }
    // finest level first, coarser levels after
    let zooms: Vec<u8> = rows.iter().map(|r| r.zoom).collect();
    let mut sorted = zooms.clone();
    sorted.sort_by(|a, b| b.cmp(a));
    assert_eq!(zooms, sorted);
}

#[test]
fn a_single_level_pyramid_is_just_the_histogram() {
    let mut h = Histogram::new();
    h.record(bucket(0, 0, 180));
    let rows = reduce_levels(0, h);
    assert_eq!(rows.len(), 1);
    assert_eq!((rows[0].zoom, rows[0].x, rows[0].y, rows[0].angle, rows[0].count),
        (0, 0, 0, 180, 1));
}

#[test]
fn an_empty_histogram_reduces_to_no_rows() {
    let rows = reduce_levels(18, Histogram::new());
    assert!(rows.is_empty());
}
