use btrfs_fuzz::imgcompress::{CompressedBtrfsImage, MetadataExtent};
use btrfs_fuzz::mutator::{Mutator, MutatorError};
use fuzzmutator::mutator::MutatorEngine;

fn sample() -> (Vec<MetadataExtent>, CompressedBtrfsImage) {
    let metadata = vec![
        MetadataExtent { needs_csum_fixup: true, offset: 0x1_0000, size: 3531 },
        MetadataExtent { needs_csum_fixup: true, offset: 0x50_0000, size: 469 },
    ];
    let image = CompressedBtrfsImage::new(vec![1, 2, 3], metadata.clone(), vec![0; 4000], 16384);
    (metadata, image)
}

#[test]
fn the_mutator_keeps_the_extents() {
    let mut mutator = Mutator::new().expect("Failed to init mutator engine");
    let (metadata, mut image) = sample();
    for _ in 0..200 {
        let fits = mutator.fuzz(&mut image, 1 << 20);
        assert!(fits);
        assert_eq!(image.metadata, metadata);
        assert_eq!(image.base(), &vec![1, 2, 3]);
        assert_eq!(image.node_size(), 16384);
        assert_eq!(image.data.len(), 4000);
    }
}

#[test]
fn the_mutator_changes_the_payload() {
    let mut mutator = Mutator::new().expect("Failed to init mutator engine");
    let (_, mut image) = sample();
    let mut changed = false;
    for _ in 0..200 {
        mutator.fuzz(&mut image, 1 << 20);
        changed = changed || image.data.iter().any(|byte| *byte != 0);
    }
    assert!(changed);
}

#[test]
fn the_mutator_says_when_the_result_is_too_long() {
    let mut mutator = Mutator::new().expect("Failed to init mutator engine");
    let (_, mut image) = sample();
    assert!(!mutator.fuzz(&mut image, 4001));
    let (_, mut image) = sample();
    assert!(!mutator.fuzz(&mut image, 0));
    // the engine may append to a payload that is too short to mutate
    for _ in 0..50 {
        let mut empty = CompressedBtrfsImage::default();
        let fits = mutator.fuzz(&mut empty, 0);
        assert_eq!(fits, empty.data.is_empty());
        let fits = mutator.fuzz(&mut empty, 1 << 20);
        assert!(fits);
    }
}

#[test]
fn the_mutator_keeps_the_length_of_the_payload() {
    let mut mutator = Mutator::new().expect("Failed to init mutator engine");
    for len in [2usize, 3, 4, 5, 8, 100, 1000] {
        let mut image = CompressedBtrfsImage::new(Vec::new(), Vec::new(), vec![7; len], 4096);
        for _ in 0..300 {
            mutator.fuzz(&mut image, 1 << 20);
            assert_eq!(image.data.len(), len);
        }
    }
    // a payload of fewer than two bytes never shrinks
    for len in [0usize, 1] {
        for _ in 0..100 {
            let mut image = CompressedBtrfsImage::new(Vec::new(), Vec::new(), vec![7; len], 4096);
            mutator.fuzz(&mut image, 1 << 20);
            assert!(image.data.len() >= len);
        }
    }
}

#[test]
fn a_mutator_is_made_of_an_engine_or_not_at_all() {
    let failed = std::io::Error::new(std::io::ErrorKind::NotFound, "no random device");
    assert_eq!(Mutator::from_engine(Err(failed)).err(), Some(MutatorError::NoRandomness));

    let engine = MutatorEngine::new().expect("Failed to init mutator engine");
    let mut mutator = match Mutator::from_engine(Ok(engine)) {
        Ok(mutator) => mutator,
        Err(e) => panic!("no mutator of a good engine: {:?}", e),
    };
    let (metadata, mut image) = sample();
    assert!(mutator.fuzz(&mut image, 1 << 20));
    assert_eq!(image.metadata, metadata);
}
