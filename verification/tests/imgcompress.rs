use btrfs_fuzz::imgcompress::btrfs::{bootstrap_chunk_tree, parse_superblock, read_chunk_tree, Btrfs};
use btrfs_fuzz::imgcompress::restore::{lay_down_extents, repair_checksums};
use btrfs_fuzz::imgcompress::error::{CompressError, DecompressError};
use btrfs_fuzz::imgcompress::structs::{
    BTRFS_CSUM_SIZE, BTRFS_SUPERBLOCK_OFFSET, BTRFS_SUPERBLOCK_OFFSET2, BTRFS_SUPERBLOCK_RECORD_SIZE,
};
use btrfs_fuzz::imgcompress::{compress, decompress, CompressedBtrfsImage, MetadataExtent};

const SB: usize = 0x1_0000;
const NODE_SIZE: usize = 4096;
const IMAGE_SIZE: usize = 0x4_0000;
const HEADER: usize = 101;
const CHUNK_ITEM: u8 = 228;
const ROOT_ITEM: u8 = 132;

// Physical positions of the blocks of the test image. Logical addresses
// 0x100000.. map to 0x20000.. and 0x200000.. to 0x30000..
const CHUNK_ROOT: usize = 0x2_0000;
const CHUNK_LEAF: usize = 0x2_1000;
const ROOT_TREE: usize = 0x3_0000;
const TREE_A: usize = 0x3_1000;
const TREE_B: usize = 0x3_2000;
const TREE_B_LEFT: usize = 0x3_3000;
const TREE_B_RIGHT: usize = 0x3_4000;
const LOG_TREE: usize = 0x3_5000;

fn logical(physical: usize) -> u64 {
    if physical >= 0x3_0000 {
        (physical - 0x3_0000 + 0x20_0000) as u64
    } else {
        (physical - 0x2_0000 + 0x10_0000) as u64
    }
}

fn put_u16(img: &mut [u8], at: usize, value: u16) {
    img[at..at + 2].copy_from_slice(&value.to_le_bytes());
}

fn put_u32(img: &mut [u8], at: usize, value: u32) {
    img[at..at + 4].copy_from_slice(&value.to_le_bytes());
}

fn put_u64(img: &mut [u8], at: usize, value: u64) {
    img[at..at + 8].copy_from_slice(&value.to_le_bytes());
}

fn put_key(img: &mut [u8], at: usize, objectid: u64, ty: u8, offset: u64) {
    put_u64(img, at, objectid);
    img[at + 8] = ty;
    put_u64(img, at + 9, offset);
}

fn put_header(img: &mut [u8], node: usize, nritems: u32, level: u8) {
    put_u64(img, node + 48, logical(node));
    put_u64(img, node + 80, 7);
    put_u32(img, node + 96, nritems);
    img[node + 100] = level;
}

fn put_item(img: &mut [u8], node: usize, index: usize, ty: u8, key_offset: u64, offset: u32, size: u32) {
    let at = node + HEADER + 25 * index;
    put_key(img, at, 256 + index as u64, ty, key_offset);
    put_u32(img, at + 17, offset);
    put_u32(img, at + 21, size);
}

fn put_key_ptr(img: &mut [u8], node: usize, index: usize, child: u64) {
    let at = node + HEADER + 33 * index;
    put_key(img, at, 256 + index as u64, 1, 0);
    put_u64(img, at + 17, child);
    put_u64(img, at + 25, 7);
}

fn put_chunk(img: &mut [u8], at: usize, length: u64, physical: u64, num_stripes: u16) {
    put_u64(img, at, length);
    put_u64(img, at + 8, 2);
    put_u64(img, at + 16, 0x1_0000);
    put_u64(img, at + 24, 2);
    put_u32(img, at + 32, 4096);
    put_u32(img, at + 36, 4096);
    put_u32(img, at + 40, 4096);
    put_u16(img, at + 44, num_stripes);
    put_u16(img, at + 46, 0);
    for stripe in 0..num_stripes as usize {
        put_u64(img, at + 48 + 32 * stripe, 1);
        put_u64(img, at + 56 + 32 * stripe, physical + 0x100_0000 * stripe as u64);
    }
}

fn put_root_item(img: &mut [u8], at: usize, bytenr: u64) {
    put_u64(img, at + 160, 7);
    put_u64(img, at + 168, 256);
    put_u64(img, at + 176, bytenr);
}

fn seal_block(img: &mut [u8], at: usize, size: usize) {
    let checksum = crc32c::crc32c(&img[at + 32..at + size]);
    img[at..at + 4].copy_from_slice(&checksum.to_le_bytes());
}

fn seal_all(img: &mut [u8]) {
    let blocks = [
        CHUNK_ROOT,
        CHUNK_LEAF,
        ROOT_TREE,
        TREE_A,
        TREE_B,
        TREE_B_LEFT,
        TREE_B_RIGHT,
        LOG_TREE,
    ];
    for block in blocks {
        seal_block(img, block, NODE_SIZE);
    }
    seal_block(img, SB, 4096);
}

/// A small image with the shape of one that `mkfs.btrfs` makes: a
/// superblock, a chunk tree of two levels, a root tree that describes two
/// trees, one of them of two levels, and no log tree.
fn generate_test_image() -> Vec<u8> {
    let mut img = vec![0u8; IMAGE_SIZE];
    for (i, byte) in img.iter_mut().enumerate() {
        // Payload that is not all zero, so that a misplaced byte shows.
        *byte = (i % 251) as u8;
    }
    for block in [SB, CHUNK_ROOT, CHUNK_LEAF, ROOT_TREE, TREE_A, TREE_B, TREE_B_LEFT, TREE_B_RIGHT, LOG_TREE] {
        for byte in img[block..block + NODE_SIZE].iter_mut() {
            *byte = 0;
        }
    }

    // Superblock
    put_u64(&mut img, SB + 48, SB as u64);
    img[SB + 64..SB + 72].copy_from_slice(b"_BHRfS_M");
    put_u64(&mut img, SB + 72, 7);
    put_u64(&mut img, SB + 80, logical(ROOT_TREE));
    put_u64(&mut img, SB + 88, logical(CHUNK_ROOT));
    put_u64(&mut img, SB + 96, 0);
    put_u64(&mut img, SB + 112, IMAGE_SIZE as u64);
    put_u32(&mut img, SB + 144, 4096);
    put_u32(&mut img, SB + 148, NODE_SIZE as u32);
    put_u32(&mut img, SB + 152, NODE_SIZE as u32);
    put_u32(&mut img, SB + 160, 17 + 80 + 32);
    put_u16(&mut img, SB + 196, 0);
    // System chunk array: one chunk with two stripes
    put_key(&mut img, SB + 811, 256, CHUNK_ITEM, logical(CHUNK_ROOT));
    put_chunk(&mut img, SB + 811 + 17, 0x1_0000, CHUNK_ROOT as u64, 2);

    // Chunk tree: a root with one leaf
    put_header(&mut img, CHUNK_ROOT, 1, 1);
    put_key_ptr(&mut img, CHUNK_ROOT, 0, logical(CHUNK_LEAF));
    put_header(&mut img, CHUNK_LEAF, 3, 0);
    put_item(&mut img, CHUNK_LEAF, 0, 216, 1, 3900, 98);
    put_item(&mut img, CHUNK_LEAF, 1, CHUNK_ITEM, logical(CHUNK_ROOT), 3700, 112);
    put_chunk(&mut img, CHUNK_LEAF + HEADER + 3700, 0x1_0000, CHUNK_ROOT as u64, 2);
    put_item(&mut img, CHUNK_LEAF, 2, CHUNK_ITEM, logical(ROOT_TREE), 3600, 80);
    put_chunk(&mut img, CHUNK_LEAF + HEADER + 3600, 0x1_0000, ROOT_TREE as u64, 1);

    // Root tree: a leaf that describes tree A and tree B
    put_header(&mut img, ROOT_TREE, 3, 0);
    put_item(&mut img, ROOT_TREE, 0, ROOT_ITEM, 0, 3556, 439);
    put_root_item(&mut img, ROOT_TREE + HEADER + 3556, logical(TREE_A));
    put_item(&mut img, ROOT_TREE, 1, 1, 0, 3100, 10);
    put_item(&mut img, ROOT_TREE, 2, ROOT_ITEM, 0, 2600, 439);
    put_root_item(&mut img, ROOT_TREE + HEADER + 2600, logical(TREE_B));

    // Tree A: one leaf
    put_header(&mut img, TREE_A, 2, 0);
    put_item(&mut img, TREE_A, 0, 1, 0, 3900, 50);
    put_item(&mut img, TREE_A, 1, 12, 0, 3800, 50);

    // Tree B: a root with two leaves
    put_header(&mut img, TREE_B, 2, 1);
    put_key_ptr(&mut img, TREE_B, 0, logical(TREE_B_LEFT));
    put_key_ptr(&mut img, TREE_B, 1, logical(TREE_B_RIGHT));
    put_header(&mut img, TREE_B_LEFT, 1, 0);
    put_item(&mut img, TREE_B_LEFT, 0, 1, 0, 3900, 50);
    put_header(&mut img, TREE_B_RIGHT, 0, 0);

    // A leaf for a log tree, which the superblock does not name yet
    put_header(&mut img, LOG_TREE, 0, 0);

    seal_all(&mut img);
    img
}

fn extent(offset: usize, size: usize) -> MetadataExtent {
    MetadataExtent { needs_csum_fixup: true, offset: offset as u64, size: size as u64 }
}

/// Test that compressing and decompressing an image results in bit-for-bit equality
#[test]
fn test_compress_decompress() {
    let orig_buffer = generate_test_image();
    let compressed = compress(&orig_buffer).expect("Failed to compress image");
    let decompressed = decompress(&compressed).expect("Failed to decompress image");

    assert!(orig_buffer == decompressed);
}

/// Test that checksums are correctly fixed up if they get corrupted
#[test]
fn test_checksum_fixup() {
    let orig_buffer = generate_test_image();

    let mut corrupted_buffer = orig_buffer.clone();
    let random: Vec<u8> = vec![0xDE, 0xAD, 0xBE, 0xEF];
    corrupted_buffer.splice(SB..(SB + 4), random.iter().cloned());

    // Now compress and decompress corrupted buffer
    let compressed = compress(&corrupted_buffer).expect("Failed to compress corrupted image");
    let decompressed = decompress(&compressed).expect("Failed to decompress corrupted image");

    // Corrupted checksum should be fixed up
    assert!(orig_buffer == decompressed);
}

#[test]
fn test_superblock_magic_fixup() {
    let orig_buffer = generate_test_image();

    let mut compressed = compress(&orig_buffer).expect("Failed to compress corrupted image");

    // Corrupt the magic in the superblock
    let mut data_idx: usize = 0;
    let mut corrupted_super = false;
    let extents: Vec<MetadataExtent> = compressed.metadata.clone();
    for metadata in &extents {
        let offset: usize = metadata.offset.try_into().unwrap();
        let size: usize = metadata.size.try_into().unwrap();

        if offset == SB {
            // Magic corruption
            compressed.data[data_idx + 64 + 3] = b'Z';
            corrupted_super = true;
        }

        data_idx += size;
    }
    assert!(corrupted_super);

    let decompressed = decompress(&compressed).expect("Failed to decompress corrupted image");

    // Corrupted checksum should be fixed up
    assert!(orig_buffer == decompressed);
}

/// Test that checksums are recalculated on metadata changes. Note that this is pretty difficult to
/// test accurately so we opt to just check that the checksum was changed.
#[test]
fn test_checksum_fixup_on_metadata_corruption() {
    let orig_buffer = generate_test_image();

    let mut compressed = compress(&orig_buffer).expect("Failed to compress corrupted image");
    let ones: Vec<u8> = vec![1; 45];

    let mut first = true;
    let mut data_idx: usize = 0;
    let mut csum_before: Option<Vec<u8>> = None;
    let mut scribbed_offset: usize = 0;
    let extents: Vec<MetadataExtent> = compressed.metadata.clone();
    for metadata in &extents {
        let size: usize = metadata.size.try_into().unwrap();

        if !metadata.needs_csum_fixup {
            data_idx += size;
            continue;
        }

        // Skip superblock to avoid overtesting the superblock
        if first {
            first = false;
            data_idx += size;
            continue;
        }

        scribbed_offset = metadata.offset.try_into().unwrap();

        // Store checksum before
        csum_before = Some(compressed.data[data_idx..(data_idx + BTRFS_CSUM_SIZE)].to_owned());

        // Scribble over metadata a little
        let begin = data_idx + BTRFS_CSUM_SIZE;
        let end = data_idx + BTRFS_CSUM_SIZE + ones.len();
        let _: Vec<_> = compressed
            .data
            .splice(begin..end, ones.iter().cloned())
            .collect();

        data_idx += size;
    }

    let decompressed = decompress(&compressed).expect("Failed to decompress corrupted image");
    let csum_after = &decompressed[scribbed_offset..(scribbed_offset + BTRFS_CSUM_SIZE)];

    // First test that the ones we wrote are where we expect so we know we didn't mess up the
    // offset calculations somewhere
    let begin = scribbed_offset + BTRFS_CSUM_SIZE;
    let end = scribbed_offset + BTRFS_CSUM_SIZE + ones.len();
    assert!(&decompressed[begin..end] == ones.as_slice());

    // Test that checksum changed
    assert!(csum_before.unwrap() != csum_after);
}

#[test]
fn compress_records_superblock_and_trees_in_walk_order() {
    let img = generate_test_image();
    let compressed = compress(&img).unwrap();
    let expected = vec![
        extent(SB, 3531),
        extent(ROOT_TREE, 101 + 3 * 25),
        extent(TREE_B, 101 + 2 * 33),
        extent(TREE_B_LEFT, 101 + 25),
        extent(TREE_B_RIGHT, 101),
        extent(TREE_A, 101 + 2 * 25),
    ];
    assert_eq!(compressed.metadata, expected);
    assert_eq!(compressed.node_size(), NODE_SIZE);
    assert_eq!(BTRFS_SUPERBLOCK_RECORD_SIZE, 3531);
    assert_eq!(BTRFS_SUPERBLOCK_OFFSET, 0x1_0000);
}

#[test]
fn compress_payload_is_the_bytes_of_the_extents() {
    let img = generate_test_image();
    let compressed = compress(&img).unwrap();
    let mut expected: Vec<u8> = Vec::new();
    let mut total: u64 = 0;
    for extent in &compressed.metadata {
        let start = extent.offset as usize;
        expected.extend_from_slice(&img[start..start + extent.size as usize]);
        total += extent.size;
    }
    assert_eq!(compressed.data, expected);
    assert_eq!(total as usize, compressed.data.len());
    assert_eq!(total, 3531 + 176 + 167 + 126 + 101 + 151);
}

#[test]
fn compress_base_is_a_zstd_frame_of_the_image() {
    let img = generate_test_image();
    let compressed = compress(&img).unwrap();
    assert!(compressed.base() != &img);
    assert!(compressed.base().len() < img.len());
    assert_eq!(zstd::stream::decode_all(compressed.base().as_slice()).unwrap(), img);
}

#[test]
fn compress_walks_the_log_tree_last() {
    let mut img = generate_test_image();
    put_u64(&mut img, SB + 96, logical(LOG_TREE));
    seal_all(&mut img);
    let compressed = compress(&img).unwrap();
    assert_eq!(compressed.metadata.len(), 7);
    assert_eq!(compressed.metadata[6], extent(LOG_TREE, 101));
    assert_eq!(decompress(&compressed).unwrap(), img);
}

#[test]
fn compress_rejects_an_image_without_room_for_the_superblock() {
    let img = generate_test_image();
    assert_eq!(compress(&img[..SB + 3530]).err(), Some(CompressError::ImageTooSmall));
    assert_eq!(compress(&[]).err(), Some(CompressError::ImageTooSmall));
}

#[test]
fn compress_rejects_a_wrong_magic() {
    let mut img = generate_test_image();
    img[SB + 64 + 3] = b'Z';
    assert_eq!(compress(&img).err(), Some(CompressError::BadMagic));
}

#[test]
fn compress_rejects_an_oversized_system_chunk_array() {
    let mut img = generate_test_image();
    put_u32(&mut img, SB + 160, 2049);
    assert_eq!(compress(&img).err(), Some(CompressError::SysArrayTooLarge));
}

#[test]
fn compress_rejects_a_short_key_in_the_system_chunk_array() {
    let mut img = generate_test_image();
    put_u32(&mut img, SB + 160, 16);
    assert_eq!(compress(&img).err(), Some(CompressError::ShortKey));
}

#[test]
fn compress_rejects_an_unknown_item_in_the_system_chunk_array() {
    let mut img = generate_test_image();
    img[SB + 811 + 8] = 229;
    assert_eq!(compress(&img).err(), Some(CompressError::UnknownItemType));
}

#[test]
fn compress_rejects_a_short_chunk_in_the_system_chunk_array() {
    let mut img = generate_test_image();
    put_u32(&mut img, SB + 160, 17 + 79);
    assert_eq!(compress(&img).err(), Some(CompressError::ShortChunk));
}

#[test]
fn compress_rejects_a_chunk_without_stripes() {
    let mut img = generate_test_image();
    put_u16(&mut img, SB + 811 + 17 + 44, 0);
    assert_eq!(compress(&img).err(), Some(CompressError::NoStripes));
}

#[test]
fn compress_rejects_missing_stripes_in_the_system_chunk_array() {
    let mut img = generate_test_image();
    put_u32(&mut img, SB + 160, 17 + 80 + 31);
    assert_eq!(compress(&img).err(), Some(CompressError::ShortStripes));
}

#[test]
fn compress_rejects_a_chunk_that_leaves_the_address_space() {
    let mut img = generate_test_image();
    put_u64(&mut img, SB + 811 + 17, u64::MAX);
    assert_eq!(compress(&img).err(), Some(CompressError::ChunkOutOfRange));
}

#[test]
fn compress_rejects_overlapping_chunks() {
    let mut img = generate_test_image();
    // The second chunk of the leaf now starts inside the first one.
    let at = CHUNK_LEAF + HEADER + 25 * 2;
    put_key(&mut img, at, 258, CHUNK_ITEM, logical(CHUNK_ROOT) + 0x8000);
    assert_eq!(compress(&img).err(), Some(CompressError::ChunkOverlap));
}

#[test]
fn compress_accepts_the_same_chunk_twice() {
    // The system chunk stands in the superblock and in the chunk tree.
    let img = generate_test_image();
    assert!(compress(&img).is_ok());
}

#[test]
fn compress_rejects_an_unmapped_root() {
    let mut img = generate_test_image();
    put_u64(&mut img, SB + 80, 0x30_0000);
    assert_eq!(compress(&img).err(), Some(CompressError::Unmapped));
    let mut img = generate_test_image();
    put_u64(&mut img, SB + 88, 0x30_0000);
    assert_eq!(compress(&img).err(), Some(CompressError::Unmapped));
}

#[test]
fn compress_rejects_a_block_past_the_end_of_the_image() {
    let img = generate_test_image();
    assert_eq!(compress(&img[..TREE_B_RIGHT + 100]).err(), Some(CompressError::ShortRead));
}

#[test]
fn compress_rejects_blocks_shorter_than_a_header() {
    let mut img = generate_test_image();
    put_u32(&mut img, SB + 148, 100);
    assert_eq!(compress(&img).err(), Some(CompressError::ShortHeader));
}

#[test]
fn compress_rejects_a_table_longer_than_its_block() {
    let mut img = generate_test_image();
    put_u32(&mut img, TREE_A + 96, 160);
    assert_eq!(compress(&img).err(), Some(CompressError::ShortNode));
    let mut img = generate_test_image();
    put_u32(&mut img, TREE_B + 96, 122);
    assert_eq!(compress(&img).err(), Some(CompressError::ShortNode));
}

#[test]
fn compress_accepts_a_table_that_fills_its_block() {
    let mut img = generate_test_image();
    // 101 + 159 * 25 = 4076 bytes of 4096
    put_u32(&mut img, TREE_A + 96, 159);
    let compressed = compress(&img).unwrap();
    assert_eq!(compressed.metadata[5], extent(TREE_A, 4076));
}

#[test]
fn compress_rejects_an_item_that_leaves_its_leaf() {
    let mut img = generate_test_image();
    // bytenr of the root item would end one byte past the leaf
    put_u32(&mut img, ROOT_TREE + HEADER + 17, (NODE_SIZE - HEADER - 184 + 1) as u32);
    assert_eq!(compress(&img).err(), Some(CompressError::ItemOutOfBounds));
    let mut img = generate_test_image();
    put_u32(&mut img, CHUNK_LEAF + HEADER + 25 + 17, (NODE_SIZE - HEADER - 80 + 1) as u32);
    assert_eq!(compress(&img).err(), Some(CompressError::ItemOutOfBounds));
}

#[test]
fn compress_reads_a_root_item_that_ends_with_its_leaf() {
    let mut img = generate_test_image();
    // A short root item of an old kernel: bytenr is its last field in the leaf
    let offset = NODE_SIZE - HEADER - 184;
    put_u32(&mut img, ROOT_TREE + HEADER + 17, offset as u32);
    put_root_item(&mut img, ROOT_TREE + HEADER + offset, logical(TREE_A));
    let compressed = compress(&img).unwrap();
    assert_eq!(compressed.metadata[5], extent(TREE_A, 151));
}

#[test]
fn compress_rejects_a_root_tree_of_two_levels() {
    let mut img = generate_test_image();
    img[ROOT_TREE + 100] = 1;
    assert_eq!(compress(&img).err(), Some(CompressError::RootNotLeaf));
}

#[test]
fn compress_rejects_a_tree_that_contains_itself() {
    let mut img = generate_test_image();
    put_key_ptr(&mut img, TREE_B, 1, logical(TREE_B));
    assert_eq!(compress(&img).err(), Some(CompressError::Cycle));
    let mut img = generate_test_image();
    put_key_ptr(&mut img, CHUNK_ROOT, 0, logical(CHUNK_ROOT));
    assert_eq!(compress(&img).err(), Some(CompressError::Cycle));
}

#[test]
fn compress_records_a_block_once_for_each_way_to_it() {
    let mut img = generate_test_image();
    put_key_ptr(&mut img, TREE_B, 1, logical(TREE_B_LEFT));
    let compressed = compress(&img).unwrap();
    assert_eq!(compressed.metadata[3], extent(TREE_B_LEFT, 126));
    assert_eq!(compressed.metadata[4], extent(TREE_B_LEFT, 126));
}

#[test]
fn a_root_tree_that_is_no_leaf_leaves_nothing_behind() {
    let mut img = generate_test_image();
    img[ROOT_TREE + 100] = 1;
    let btrfs = Btrfs::new(&img).unwrap();
    let mut compressed = CompressedBtrfsImage::default();
    compressed.mark_as_metadata(SB as u64, &img[SB..SB + 3531], true);
    assert_eq!(btrfs.parse_root_tree(&mut compressed).err(), Some(CompressError::RootNotLeaf));
    assert_eq!(compressed.metadata, vec![extent(SB, 3531)]);
    assert_eq!(compressed.data, &img[SB..SB + 3531]);

    // the same where the root cannot be read at all
    let mut img = generate_test_image();
    put_u64(&mut img, SB + 80, 0x30_0000);
    let btrfs = Btrfs::new(&img).unwrap();
    let mut compressed = CompressedBtrfsImage::default();
    assert_eq!(btrfs.parse_root_tree(&mut compressed).err(), Some(CompressError::Unmapped));
    assert!(compressed.metadata.is_empty());
    assert!(compressed.data.is_empty());
}

#[test]
fn a_walk_that_fails_keeps_the_blocks_that_it_reached() {
    let mut img = generate_test_image();
    put_key_ptr(&mut img, TREE_B, 1, 0x30_0000);
    let btrfs = Btrfs::new(&img).unwrap();

    let mut compressed = CompressedBtrfsImage::default();
    let mut path = Vec::new();
    assert_eq!(
        btrfs.parse_tree(logical(TREE_B), &mut compressed, &mut path).err(),
        Some(CompressError::Unmapped)
    );
    assert!(path.is_empty());
    assert_eq!(compressed.metadata, vec![extent(TREE_B, 167), extent(TREE_B_LEFT, 126)]);
    let mut expected = img[TREE_B..TREE_B + 167].to_vec();
    expected.extend_from_slice(&img[TREE_B_LEFT..TREE_B_LEFT + 126]);
    assert_eq!(compressed.data, expected);

    // the root tree reaches tree B first; tree A is never walked
    let mut compressed = CompressedBtrfsImage::default();
    assert_eq!(btrfs.parse_root_tree(&mut compressed).err(), Some(CompressError::Unmapped));
    assert_eq!(
        compressed.metadata,
        vec![extent(ROOT_TREE, 176), extent(TREE_B, 167), extent(TREE_B_LEFT, 126)]
    );
    assert_eq!(compressed.data.len(), 176 + 167 + 126);
}

#[test]
fn a_walk_records_a_node_before_its_children() {
    let img = generate_test_image();
    let btrfs = Btrfs::new(&img).unwrap();
    let mut compressed = CompressedBtrfsImage::default();
    let mut path = Vec::new();
    assert!(btrfs.parse_tree(logical(TREE_B), &mut compressed, &mut path).is_ok());
    assert_eq!(
        compressed.metadata,
        vec![extent(TREE_B, 167), extent(TREE_B_LEFT, 126), extent(TREE_B_RIGHT, 101)]
    );
    assert_eq!(compressed.data.len(), 167 + 126 + 101);
}

#[test]
fn a_chunk_walk_that_fails_keeps_the_chunks_that_it_found() {
    let mut img = generate_test_image();
    // the leaf now holds a chunk at 0x400000 and one that starts inside it
    put_item(&mut img, CHUNK_LEAF, 1, CHUNK_ITEM, 0x40_0000, 3700, 112);
    put_chunk(&mut img, CHUNK_LEAF + HEADER + 3700, 0x1000, 0x5_0000, 2);
    put_item(&mut img, CHUNK_LEAF, 2, CHUNK_ITEM, 0x40_0800, 3600, 80);
    let superblock = parse_superblock(&img).unwrap();
    let mut cache = bootstrap_chunk_tree(&superblock).unwrap();
    let mut path = Vec::new();
    let walked = read_chunk_tree(&img, superblock.chunk_root, &mut cache, superblock.node_size, &mut path);
    assert_eq!(walked.err(), Some(CompressError::ChunkOverlap));
    assert!(path.is_empty());
    assert_eq!(cache.offset(logical(CHUNK_ROOT)), Some(CHUNK_ROOT as u64));
    assert_eq!(cache.offset(0x40_0010), Some(0x5_0010));
    assert_eq!(cache.offset(0x40_1000), None);
    assert_eq!(cache.offset(logical(ROOT_TREE)), None);

    // a root that cannot be read adds nothing
    let mut cache = bootstrap_chunk_tree(&superblock).unwrap();
    let walked = read_chunk_tree(&img, 0x30_0000, &mut cache, superblock.node_size, &mut path);
    assert_eq!(walked.err(), Some(CompressError::Unmapped));
    assert_eq!(cache.offset(0x40_0010), None);
}

#[test]
fn extents_are_laid_down_all_or_not_at_all() {
    let start: Vec<u8> = (0u8..50).collect();
    let good = MetadataExtent { needs_csum_fixup: false, offset: 10, size: 4 };

    let mut image = start.clone();
    let past = MetadataExtent { needs_csum_fixup: false, offset: 47, size: 4 };
    assert_eq!(
        lay_down_extents(&mut image, &[good, past], &[9; 8]).err(),
        Some(DecompressError::ExtentOutOfImage)
    );
    assert_eq!(image, start);

    assert_eq!(
        lay_down_extents(&mut image, &[good, good], &[9; 7]).err(),
        Some(DecompressError::ShortData)
    );
    assert_eq!(image, start);

    // both faults in one extent: the payload is looked at first
    assert_eq!(lay_down_extents(&mut image, &[past], &[9; 3]).err(), Some(DecompressError::ShortData));
    assert_eq!(image, start);

    assert!(lay_down_extents(&mut image, &[good, good], &[1, 2, 3, 4, 5, 6, 7, 8, 9]).is_ok());
    assert_eq!(&image[9..15], &[9, 5, 6, 7, 8, 14]);
}

#[test]
fn checksums_are_repaired_all_or_not_at_all() {
    let start: Vec<u8> = (0u8..200).collect();
    let at = |offset: u64| MetadataExtent { needs_csum_fixup: true, offset, size: 0 };

    let mut image = start.clone();
    assert_eq!(repair_checksums(&mut image, &[at(0), at(101)], 100).err(), Some(DecompressError::BadBlock));
    assert_eq!(image, start);

    assert!(repair_checksums(&mut image, &[at(0), at(100)], 100).is_ok());
    let mut expected = start.clone();
    expected[0..4].copy_from_slice(&crc32c::crc32c(&start[32..100]).to_le_bytes());
    expected[100..104].copy_from_slice(&crc32c::crc32c(&start[132..200]).to_le_bytes());
    assert_eq!(image, expected);
}

fn image_of(base: &[u8], metadata: Vec<MetadataExtent>, data: Vec<u8>, node_size: usize) -> CompressedBtrfsImage {
    let frame = zstd::stream::encode_all(base, 0).unwrap();
    CompressedBtrfsImage::new(frame, metadata, data, node_size)
}

#[test]
fn decompress_rejects_a_base_that_is_no_frame() {
    let compressed = CompressedBtrfsImage::new(vec![1, 2, 3, 4, 5], Vec::new(), Vec::new(), 4096);
    assert_eq!(decompress(&compressed).err(), Some(DecompressError::Codec));
}

#[test]
fn decompress_rejects_an_image_without_room_for_the_superblock() {
    let base = vec![0u8; SB + 4095];
    let compressed = image_of(&base, Vec::new(), Vec::new(), 4096);
    assert_eq!(decompress(&compressed).err(), Some(DecompressError::ImageTooSmall));
    let compressed = CompressedBtrfsImage::default();
    assert_eq!(decompress(&compressed).err(), Some(DecompressError::Codec));
}

#[test]
fn decompress_rejects_an_extent_past_the_end_of_the_image() {
    let base = vec![0u8; SB + 4096];
    let metadata = vec![MetadataExtent { needs_csum_fixup: false, offset: (SB + 4090) as u64, size: 7 }];
    let compressed = image_of(&base, metadata, vec![9; 7], 4096);
    assert_eq!(decompress(&compressed).err(), Some(DecompressError::ExtentOutOfImage));
    let metadata = vec![MetadataExtent { needs_csum_fixup: false, offset: u64::MAX, size: 7 }];
    let compressed = image_of(&base, metadata, vec![9; 7], 4096);
    assert_eq!(decompress(&compressed).err(), Some(DecompressError::ExtentOutOfImage));
}

#[test]
fn decompress_rejects_a_payload_shorter_than_its_extents() {
    let base = vec![0u8; SB + 4096];
    let metadata = vec![
        MetadataExtent { needs_csum_fixup: false, offset: 0, size: 4 },
        MetadataExtent { needs_csum_fixup: false, offset: 8, size: 4 },
    ];
    let compressed = image_of(&base, metadata, vec![9; 7], 4096);
    assert_eq!(decompress(&compressed).err(), Some(DecompressError::ShortData));
}

#[test]
fn decompress_rejects_a_block_that_cannot_be_summed() {
    let base = vec![0u8; SB + 4096];
    let marked = |offset: u64| vec![MetadataExtent { needs_csum_fixup: true, offset, size: 0 }];
    // no room for the checksum field
    let compressed = image_of(&base, marked(0), Vec::new(), 31);
    assert_eq!(decompress(&compressed).err(), Some(DecompressError::BadBlock));
    let compressed = image_of(&base, marked(0), Vec::new(), 0);
    assert_eq!(decompress(&compressed).err(), Some(DecompressError::BadBlock));
    // the block ends past the image
    let compressed = image_of(&base, marked((SB + 1) as u64), Vec::new(), 4096);
    assert_eq!(decompress(&compressed).err(), Some(DecompressError::BadBlock));
    // a block of nothing but its checksum field
    let compressed = image_of(&base, marked(0), Vec::new(), 32);
    assert!(decompress(&compressed).is_ok());
}

#[test]
fn decompress_sums_a_mirror_of_the_superblock_as_a_superblock() {
    // The image ends 100 bytes into the first mirror: enough for a block of
    // 32 bytes, not for a superblock.
    let base = vec![0u8; BTRFS_SUPERBLOCK_OFFSET2 as usize + 100];
    let at = |offset: u64| vec![MetadataExtent { needs_csum_fixup: true, offset, size: 0 }];
    let compressed = image_of(&base, at(BTRFS_SUPERBLOCK_OFFSET2), Vec::new(), 32);
    assert_eq!(decompress(&compressed).err(), Some(DecompressError::BadBlock));
    let compressed = image_of(&base, at(BTRFS_SUPERBLOCK_OFFSET2 + 1), Vec::new(), 32);
    assert!(decompress(&compressed).is_ok());
}

#[test]
fn decompress_lays_extents_down_in_order() {
    let base = vec![0u8; SB + 4096];
    let metadata = vec![
        MetadataExtent { needs_csum_fixup: false, offset: 10, size: 3 },
        MetadataExtent { needs_csum_fixup: false, offset: 2, size: 2 },
        MetadataExtent { needs_csum_fixup: false, offset: 11, size: 1 },
    ];
    let compressed = image_of(&base, metadata, vec![1, 2, 3, 4, 5, 6], 4096);
    let image = decompress(&compressed).unwrap();
    assert_eq!(&image[0..14], &[0, 0, 4, 5, 0, 0, 0, 0, 0, 0, 1, 6, 3, 0]);
    assert_eq!(image.len(), SB + 4096);
}

#[test]
fn decompress_keeps_extents_that_keep_apart() {
    let mut base = vec![0u8; SB + 4096];
    for (i, byte) in base.iter_mut().enumerate() {
        *byte = (i % 7) as u8 + 100;
    }
    let metadata = vec![
        MetadataExtent { needs_csum_fixup: false, offset: 300, size: 4 },
        MetadataExtent { needs_csum_fixup: false, offset: 20, size: 2 },
        MetadataExtent { needs_csum_fixup: false, offset: 304, size: 3 },
        MetadataExtent { needs_csum_fixup: false, offset: 0, size: 0 },
    ];
    let data = vec![1, 2, 3, 4, 5, 6, 7, 8, 9];
    let compressed = image_of(&base, metadata, data, 4096);
    let image = decompress(&compressed).unwrap();
    assert_eq!(&image[300..304], &[1, 2, 3, 4]);
    assert_eq!(&image[20..22], &[5, 6]);
    assert_eq!(&image[304..307], &[7, 8, 9]);
    for i in 0..SB {
        if !(20..22).contains(&i) && !(300..307).contains(&i) {
            assert_eq!(image[i], base[i], "at {}", i);
        }
    }
}

#[test]
fn decompress_leaves_every_block_with_a_valid_checksum() {
    let img = generate_test_image();
    let mut compressed = compress(&img).unwrap();
    for (i, byte) in compressed.data.iter_mut().enumerate() {
        // Scribble over everything but the fields that say where blocks lie.
        if i % 3 == 0 {
            *byte = byte.wrapping_add(i as u8);
        }
    }
    let image = decompress(&compressed).unwrap();
    assert_eq!(&image[SB + 64..SB + 72], b"_BHRfS_M");
    for extent in &compressed.metadata {
        let start = extent.offset as usize;
        let size = if start == SB { 4096 } else { NODE_SIZE };
        let expected = crc32c::crc32c(&image[start + 32..start + size]);
        assert_eq!(&image[start..start + 4], &expected.to_le_bytes());
    }
}

#[test]
fn decompress_writes_the_magic() {
    let base = vec![0u8; SB + 4096];
    let compressed = image_of(&base, Vec::new(), Vec::new(), 4096);
    let image = decompress(&compressed).unwrap();
    assert_eq!(&image[SB + 64..SB + 72], b"_BHRfS_M");
    assert!(image[..SB + 64].iter().all(|byte| *byte == 0));
    assert!(image[SB + 72..].iter().all(|byte| *byte == 0));
}

#[test]
fn decompress_sums_blocks_of_node_size_and_superblocks_of_4096() {
    let mut base = vec![0u8; SB + 4096];
    for (i, byte) in base.iter_mut().enumerate() {
        *byte = (i % 13) as u8;
    }
    let metadata = vec![
        MetadataExtent { needs_csum_fixup: true, offset: 500, size: 0 },
        MetadataExtent { needs_csum_fixup: true, offset: SB as u64, size: 0 },
        MetadataExtent { needs_csum_fixup: false, offset: 100, size: 0 },
    ];
    let compressed = image_of(&base, metadata, Vec::new(), 200);
    let image = decompress(&compressed).unwrap();

    let mut expected = base.clone();
    expected[SB + 64..SB + 72].copy_from_slice(b"_BHRfS_M");
    let node = crc32c::crc32c_append(0, &expected[532..700]);
    expected[500..504].copy_from_slice(&node.to_le_bytes());
    let superblock = crc32c::crc32c_append(0, &expected[SB + 32..SB + 4096]);
    expected[SB..SB + 4].copy_from_slice(&superblock.to_le_bytes());
    assert_eq!(image, expected);
    // the other 28 bytes of the checksum field stay
    assert_eq!(&image[504..532], &base[504..532]);
}

#[test]
fn compressed_image_keeps_what_it_is_made_of() {
    let metadata = vec![MetadataExtent { needs_csum_fixup: true, offset: 5, size: 2 }];
    let mut image = CompressedBtrfsImage::new(vec![1, 2], metadata.clone(), vec![7, 8], 16384);
    assert_eq!(image.base(), &vec![1, 2]);
    assert_eq!(image.node_size(), 16384);
    assert_eq!(image.extent_count(), 1);
    image.mark_as_metadata(77, &[3, 4, 5], false);
    assert_eq!(image.metadata[1], MetadataExtent { needs_csum_fixup: false, offset: 77, size: 3 });
    assert_eq!(image.data, vec![7, 8, 3, 4, 5]);
    let taken = image.take_data();
    assert_eq!(taken, vec![7, 8, 3, 4, 5]);
    assert!(image.data.is_empty());
    image.set_data(vec![9]);
    assert_eq!(image.data, vec![9]);
    let image = image.with_base(vec![6], 4096);
    assert_eq!(image.base(), &vec![6]);
    assert_eq!(image.node_size(), 4096);
    assert_eq!(image.metadata.len(), 2);
}
