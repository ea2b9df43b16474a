use building_angles::corners::corner_ids;
use building_angles::corpus::BuildingCorpus;
use building_angles::pipeline::maybe_append_building;

#[test]
fn rings_read_back_in_order() {
    let mut corpus = BuildingCorpus::new();
    let a: Vec<u64> = vec![1, 2, 3, 1];
    let b: Vec<u64> = vec![10, 20, 30];
    corpus.append_building(&a);
    corpus.append_building(&b);
    assert_eq!(corpus.next_building(), Some(a.clone()));
    assert_eq!(corpus.next_building(), Some(b.clone()));
    assert_eq!(corpus.next_building(), None);
    corpus.rewind();
    assert_eq!(corpus.next_building(), Some(a));
}

#[test]
fn large_ids_survive_the_byte_stream() {
    let mut corpus = BuildingCorpus::new();
    let ring: Vec<u64> = vec![u64::MAX, 0x0102030405060708, 9_000_000_000, u64::MAX];
    corpus.append_building(&ring);
    assert_eq!(corpus.next_building(), Some(ring));
    assert_eq!(corpus.next_building(), None);
}

#[test]
fn the_stream_is_big_endian_words_with_zero_terminators() {
    let mut corpus = BuildingCorpus::new();
    corpus.append_building(&vec![1, 0x0203, 4, 1]);
    let bytes = corpus.byte_image();
    assert_eq!(bytes.len(), 40);
    assert_eq!(&bytes[0..8], &[0, 0, 0, 0, 0, 0, 0, 1]);
    assert_eq!(&bytes[8..16], &[0, 0, 0, 0, 0, 0, 2, 3]);
    assert_eq!(&bytes[24..32], &[0, 0, 0, 0, 0, 0, 0, 1]);
    assert_eq!(&bytes[32..40], &[0; 8]);
}

#[test]
fn empty_corpus_yields_nothing() {
    let mut corpus = BuildingCorpus::new();
    assert_eq!(corpus.next_building(), None);
}

#[test]
fn tagged_ways_enter_the_corpus() {
    let mut corpus = BuildingCorpus::new();
    let ring: Vec<u64> = vec![1, 2, 3, 1];
    assert!(maybe_append_building(&mut corpus, &Some("yes".to_string()), &ring));
    assert!(maybe_append_building(&mut corpus, &Some("garage".to_string()), &ring));
    assert!(!maybe_append_building(&mut corpus, &Some("no".to_string()), &ring));
    assert!(!maybe_append_building(&mut corpus, &None, &ring));
    assert_eq!(corpus.next_building(), Some(ring.clone()));
    assert_eq!(corpus.next_building(), Some(ring));
    assert_eq!(corpus.next_building(), None);
}

#[test]
fn unstorable_rings_are_refused() {
    let mut corpus = BuildingCorpus::new();
    let tag = Some("yes".to_string());
    assert!(!maybe_append_building(&mut corpus, &tag, &vec![1, 2]));
    assert!(!maybe_append_building(&mut corpus, &tag, &vec![1, 0, 3, 1]));
    assert_eq!(corpus.next_building(), None);
}

#[test]
fn corner_windows_wrap_around() {
    let ring: Vec<u64> = vec![1, 2, 3, 1];
    let corners = corner_ids(&ring);
    assert_eq!(corners, vec![(1, 2, 3), (2, 3, 1), (3, 1, 2)]);
}

#[test]
fn corner_count_is_distinct_vertex_count() {
    let ring: Vec<u64> = vec![5, 6, 7, 8, 5];
    let corners = corner_ids(&ring);
    assert_eq!(corners.len(), ring.len() - 1);
    assert_eq!(corners[3], (8, 5, 6));
}
