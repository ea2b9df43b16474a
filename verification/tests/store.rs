use building_angles::coords::{ABSENT_BITS, Coord, CoordStore};

fn coord(x: f32, y: f32) -> Coord {
    Coord { x_bits: x.to_bits(), y_bits: y.to_bits() }
}

#[test]
fn sparse_writes_leave_gaps_absent() {
    let mut store = CoordStore::new();
    store.set(5, coord(1327136.5, 3492158.5));
    store.set(2, coord(-7.25, 8.5));
    for id in [0u64, 1, 3, 4] {
        assert!(store.get(id).is_none());
    }
    let five = store.get(5).expect("id 5 was stored");
    assert_eq!(f32::from_bits(five.x_bits), 1327136.5);
    assert_eq!(f32::from_bits(five.y_bits), 3492158.5);
    let two = store.get(2).expect("id 2 was stored");
    assert_eq!(f32::from_bits(two.x_bits), -7.25);
    assert_eq!(f32::from_bits(two.y_bits), 8.5);
}

#[test]
fn rewriting_one_id_disturbs_no_other() {
    let mut store = CoordStore::new();
    store.set(5, coord(100.0, 200.0));
    store.set(2, coord(1.0, 2.0));
    store.set(2, coord(3.0, 4.0));
    let five = store.get(5).expect("id 5 still stored");
    assert_eq!(f32::from_bits(five.x_bits), 100.0);
    assert_eq!(f32::from_bits(five.y_bits), 200.0);
    let two = store.get(2).expect("id 2 still stored");
    assert_eq!(f32::from_bits(two.x_bits), 3.0);
}

#[test]
fn absence_comes_from_the_sentinel_not_the_length() {
    let mut store = CoordStore::new();
    store.set(3, Coord { x_bits: ABSENT_BITS, y_bits: ABSENT_BITS });
    assert_eq!(store.len(), 4);
    assert!(store.get(3).is_none());
    assert!(store.get(100).is_none());
}

#[test]
fn record_zero_is_not_mistaken_for_absent() {
    let mut store = CoordStore::new();
    store.set(7, coord(0.0, 0.0));
    let zero = store.get(7).expect("a zero coordinate is a real coordinate");
    assert_eq!(f32::from_bits(zero.x_bits), 0.0);
    assert_eq!(f32::from_bits(zero.y_bits), 0.0);
}

#[test]
fn file_image_is_fixed_stride_big_endian() {
    let mut store = CoordStore::new();
    store.set(1, coord(1.0, -2.0));
    let bytes = store.file_image();
    assert_eq!(bytes.len(), 16);
    // record 0 is the sentinel pair, 0x7f800000 twice
    assert_eq!(&bytes[0..8], &[0x7f, 0x80, 0, 0, 0x7f, 0x80, 0, 0]);
    // record 1 holds 1.0f32 (0x3f800000) and -2.0f32 (0xc0000000)
    assert_eq!(&bytes[8..16], &[0x3f, 0x80, 0, 0, 0xc0, 0, 0, 0]);
}

#[test]
fn file_image_round_trips() {
    let mut store = CoordStore::new();
    store.set(0, coord(12.5, -0.75));
    store.set(4, coord(-1024.0, 65536.0));
    let bytes = store.file_image();
    let back = CoordStore::of_file_image(&bytes).expect("image length is a multiple of 8");
    for id in 0u64..6 {
        assert_eq!(store.get(id), back.get(id));
    }
}

#[test]
fn a_ragged_image_is_refused() {
    let bytes = vec![1u8, 2, 3];
    assert!(CoordStore::of_file_image(&bytes).is_none());
}
