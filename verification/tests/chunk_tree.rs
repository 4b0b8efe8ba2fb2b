use btrfs_fuzz::imgcompress::chunk_tree::{ChunkTreeCache, ChunkTreeKey, ChunkTreeValue};

#[test]
fn test_ctc_basic() {
    let mut tree = ChunkTreeCache::default();
    tree.insert(
        ChunkTreeKey { start: 0, size: 5 },
        ChunkTreeValue { offset: 123 },
    );
    tree.insert(
        ChunkTreeKey { start: 5, size: 5 },
        ChunkTreeValue { offset: 234 },
    );

    assert_eq!(tree.offset(0), Some(123));
    assert_eq!(tree.offset(1), Some(124));
    assert_eq!(tree.offset(5), Some(234));
    assert_eq!(tree.offset(6), Some(235));
    assert_eq!(tree.offset(11), None);
}

#[test]
fn test_ctc_random_order() {
    let mut tree = ChunkTreeCache::default();
    tree.insert(
        ChunkTreeKey { start: 10, size: 3 },
        ChunkTreeValue { offset: 345 },
    );
    tree.insert(
        ChunkTreeKey { start: 25, size: 5 },
        ChunkTreeValue { offset: 456 },
    );
    tree.insert(
        ChunkTreeKey { start: 15, size: 5 },
        ChunkTreeValue { offset: 567 },
    );
    tree.insert(
        ChunkTreeKey { start: 0, size: 5 },
        ChunkTreeValue { offset: 123 },
    );
    tree.insert(
        ChunkTreeKey { start: 5, size: 5 },
        ChunkTreeValue { offset: 234 },
    );

    assert_eq!(tree.offset(0), Some(123));
    assert_eq!(tree.offset(1), Some(124));
    assert_eq!(tree.offset(5), Some(234));
    assert_eq!(tree.offset(6), Some(235));
    assert_eq!(tree.offset(11), Some(346));
    assert_eq!(tree.offset(14), None);
    assert_eq!(tree.offset(18), Some(570));
    assert_eq!(tree.offset(20), None);
    assert_eq!(tree.offset(25), Some(456));
}

#[test]
fn an_overlapping_range_is_detected_before_it_is_inserted() {
    let mut tree = ChunkTreeCache::default();
    tree.insert(
        ChunkTreeKey { start: 0, size: 5 },
        ChunkTreeValue { offset: 123 },
    );
    // the end of the stored range lies inside the new one
    assert!(tree.contains_overlapping(&ChunkTreeKey { start: 4, size: 5 }));
    // the new range lies inside the stored one
    assert!(tree.contains_overlapping(&ChunkTreeKey { start: 1, size: 2 }));
    // the stored range lies inside the new one
    tree.insert(
        ChunkTreeKey { start: 20, size: 2 },
        ChunkTreeValue { offset: 500 },
    );
    assert!(tree.contains_overlapping(&ChunkTreeKey { start: 18, size: 10 }));
    assert!(tree.contains_overlapping(&ChunkTreeKey { start: 20, size: 3 }));
    assert!(tree.contains_overlapping(&ChunkTreeKey { start: 19, size: 3 }));
}

#[test]
fn touching_ranges_and_equal_ranges_do_not_overlap() {
    let mut tree = ChunkTreeCache::default();
    tree.insert(
        ChunkTreeKey { start: 10, size: 5 },
        ChunkTreeValue { offset: 123 },
    );
    assert!(!tree.contains_overlapping(&ChunkTreeKey { start: 15, size: 5 }));
    assert!(!tree.contains_overlapping(&ChunkTreeKey { start: 5, size: 5 }));
    assert!(!tree.contains_overlapping(&ChunkTreeKey { start: 10, size: 5 }));
    assert!(!tree.contains_overlapping(&ChunkTreeKey { start: 100, size: 5 }));
    assert!(!tree.contains_overlapping(&ChunkTreeKey { start: u64::MAX, size: u64::MAX }));
}

#[test]
fn the_first_of_two_equal_ranges_answers() {
    let mut tree = ChunkTreeCache::default();
    tree.insert(
        ChunkTreeKey { start: 10, size: 5 },
        ChunkTreeValue { offset: 100 },
    );
    tree.insert(
        ChunkTreeKey { start: 10, size: 5 },
        ChunkTreeValue { offset: 900 },
    );
    assert_eq!(tree.offset(12), Some(102));
    let (key, value) = tree.mapping_kv(14).unwrap();
    assert_eq!((key.start, key.size, value.offset), (10, 5, 100));
    assert!(tree.mapping_kv(15).is_none());
    assert!(tree.mapping_kv(9).is_none());
}

#[test]
fn ranges_at_the_end_of_the_address_space_are_mapped() {
    let mut tree = ChunkTreeCache::default();
    tree.insert(
        ChunkTreeKey { start: u64::MAX - 10, size: 10 },
        ChunkTreeValue { offset: u64::MAX - 9 },
    );
    assert_eq!(tree.offset(u64::MAX - 1), Some(u64::MAX));
    assert_eq!(tree.offset(u64::MAX), None);
    tree.insert(
        ChunkTreeKey { start: 7, size: 0 },
        ChunkTreeValue { offset: u64::MAX },
    );
    assert_eq!(tree.offset(7), None);
}

/// Inserts a range the way every caller must: a range that overlaps a
/// stored one is fatal.
fn checked_insert(tree: &mut ChunkTreeCache, key: ChunkTreeKey, value: ChunkTreeValue) {
    if tree.contains_overlapping(&key) {
        panic!("overlapping chunk range detected");
    }
    tree.insert(key, value);
}

#[test]
#[should_panic]
fn test_ctc_edge_overlap() {
    let mut tree = ChunkTreeCache::default();
    checked_insert(
        &mut tree,
        ChunkTreeKey { start: 0, size: 5 },
        ChunkTreeValue { offset: 123 },
    );
    checked_insert(
        &mut tree,
        ChunkTreeKey { start: 4, size: 5 },
        ChunkTreeValue { offset: 234 },
    );

    // unreached
    assert!(false);
}

#[test]
#[should_panic]
fn test_ctc_inside_overlap() {
    let mut tree = ChunkTreeCache::default();
    checked_insert(
        &mut tree,
        ChunkTreeKey { start: 0, size: 5 },
        ChunkTreeValue { offset: 123 },
    );
    checked_insert(
        &mut tree,
        ChunkTreeKey { start: 1, size: 2 },
        ChunkTreeValue { offset: 234 },
    );

    // unreached
    assert!(false);
}
