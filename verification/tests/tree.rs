use btrfs_fuzz::imgcompress::btrfs::{
    bootstrap_chunk_tree, is_superblock_magic, parse_superblock, read_root_node, striped_system_chunks,
};
use btrfs_fuzz::imgcompress::chunk_tree::{ChunkTreeCache, ChunkTreeKey, ChunkTreeValue};
use btrfs_fuzz::imgcompress::error::CompressError;
use btrfs_fuzz::imgcompress::structs::{
    BtrfsChunk, BtrfsDevItem, BtrfsDirItem, BtrfsHeader, BtrfsInodeItem, BtrfsInodeRef, BtrfsItem, BtrfsKey,
    BtrfsKeyPtr, BtrfsLeaf, BtrfsNode, BtrfsRootBackup, BtrfsRootItem, BtrfsStripe, BtrfsSuperblock, BtrfsTimespec,
    BTRFS_CHUNK_ITEM_KEY, BTRFS_CHUNK_SIZE, BTRFS_DEV_ITEM_SIZE, BTRFS_DIR_ITEM_SIZE, BTRFS_HEADER_SIZE,
    BTRFS_INODE_ITEM_SIZE, BTRFS_INODE_REF_SIZE, BTRFS_ITEM_SIZE, BTRFS_KEY_PTR_SIZE, BTRFS_KEY_SIZE,
    BTRFS_LEAF_SIZE, BTRFS_NODE_SIZE, BTRFS_ROOT_BACKUP_SIZE, BTRFS_ROOT_ITEM_KEY, BTRFS_ROOT_ITEM_SIZE,
    BTRFS_STRIPE_SIZE, BTRFS_SUPERBLOCK_MAGIC, BTRFS_SUPERBLOCK_RECORD_SIZE, BTRFS_TIMESPEC_SIZE,
};
use btrfs_fuzz::imgcompress::tree::{parse_btrfs_header, parse_btrfs_leaf, parse_btrfs_node};

/// Bytes that count up from 1 and wrap after 250, so that every field of a
/// record gets a value of its own.
fn counting(len: usize) -> Vec<u8> {
    (0..len).map(|i| (i % 250 + 1) as u8).collect()
}

fn le64(buf: &[u8], at: usize) -> u64 {
    let mut bytes = [0u8; 8];
    bytes.copy_from_slice(&buf[at..at + 8]);
    u64::from_le_bytes(bytes)
}

fn le32(buf: &[u8], at: usize) -> u32 {
    let mut bytes = [0u8; 4];
    bytes.copy_from_slice(&buf[at..at + 4]);
    u32::from_le_bytes(bytes)
}

fn le16(buf: &[u8], at: usize) -> u16 {
    u16::from_le_bytes([buf[at], buf[at + 1]])
}

#[test]
fn records_are_packed() {
    assert_eq!(BTRFS_KEY_SIZE, 17);
    assert_eq!(BTRFS_DEV_ITEM_SIZE, 98);
    assert_eq!(BTRFS_ROOT_BACKUP_SIZE, 168);
    assert_eq!(BTRFS_SUPERBLOCK_RECORD_SIZE, 3531);
    assert_eq!(BTRFS_STRIPE_SIZE, 32);
    assert_eq!(BTRFS_CHUNK_SIZE, 80);
    assert_eq!(BTRFS_TIMESPEC_SIZE, 12);
    assert_eq!(BTRFS_INODE_ITEM_SIZE, 160);
    assert_eq!(BTRFS_ROOT_ITEM_SIZE, 439);
    assert_eq!(BTRFS_DIR_ITEM_SIZE, 30);
    assert_eq!(BTRFS_INODE_REF_SIZE, 10);
    assert_eq!(BTRFS_HEADER_SIZE, 101);
    assert_eq!(BTRFS_ITEM_SIZE, 25);
    assert_eq!(BTRFS_LEAF_SIZE, 101);
    assert_eq!(BTRFS_KEY_PTR_SIZE, 33);
    assert_eq!(BTRFS_NODE_SIZE, 101);
    assert_eq!(BTRFS_CHUNK_ITEM_KEY, 228);
    assert_eq!(BTRFS_ROOT_ITEM_KEY, 132);
    assert_eq!(&BTRFS_SUPERBLOCK_MAGIC, b"_BHRfS_M");
}

#[test]
fn a_key_is_read_from_its_offset() {
    let buf = counting(40);
    let key = BtrfsKey::parse(&buf, 5);
    assert_eq!(key.objectid, le64(&buf, 5));
    assert_eq!(key.objectid, 0x0d0c_0b0a_0908_0706);
    assert_eq!(key.ty, 14);
    assert_eq!(key.offset, 0x1615_1413_1211_100f);
}

#[test]
fn a_header_is_read_field_by_field() {
    let buf = counting(120);
    let header = BtrfsHeader::parse(&buf, 3);
    assert_eq!(&header.csum[..], &buf[3..35]);
    assert_eq!(&header.fsid[..], &buf[35..51]);
    assert_eq!(header.bytenr, le64(&buf, 51));
    assert_eq!(header.flags, le64(&buf, 59));
    assert_eq!(&header.chunk_tree_uuid[..], &buf[67..83]);
    assert_eq!(header.generation, le64(&buf, 83));
    assert_eq!(header.owner, le64(&buf, 91));
    assert_eq!(header.nritems, le32(&buf, 99));
    assert_eq!(header.level, buf[103]);
    let leaf = BtrfsLeaf::parse(&buf, 3);
    assert_eq!(leaf.header.nritems, header.nritems);
    let node = BtrfsNode::parse(&buf, 3);
    assert_eq!(node.header.level, header.level);
}

#[test]
fn items_and_key_pointers_are_read_field_by_field() {
    let buf = counting(60);
    let item = BtrfsItem::parse(&buf, 1);
    assert_eq!(item.key.objectid, le64(&buf, 1));
    assert_eq!(item.key.ty, buf[9]);
    assert_eq!(item.key.offset, le64(&buf, 10));
    assert_eq!(item.offset, le32(&buf, 18));
    assert_eq!(item.size, le32(&buf, 22));
    let ptr = BtrfsKeyPtr::parse(&buf, 1);
    assert_eq!(ptr.key.offset, le64(&buf, 10));
    assert_eq!(ptr.blockptr, le64(&buf, 18));
    assert_eq!(ptr.generation, le64(&buf, 26));
}

#[test]
fn a_chunk_is_read_with_its_first_stripe() {
    let buf = counting(100);
    let chunk = BtrfsChunk::parse(&buf, 2);
    assert_eq!(chunk.length, le64(&buf, 2));
    assert_eq!(chunk.owner, le64(&buf, 10));
    assert_eq!(chunk.stripe_len, le64(&buf, 18));
    assert_eq!(chunk.ty, le64(&buf, 26));
    assert_eq!(chunk.io_align, le32(&buf, 34));
    assert_eq!(chunk.io_width, le32(&buf, 38));
    assert_eq!(chunk.sector_size, le32(&buf, 42));
    assert_eq!(chunk.num_stripes, le16(&buf, 46));
    assert_eq!(chunk.sub_stripes, le16(&buf, 48));
    assert_eq!(chunk.stripe.devid, le64(&buf, 50));
    assert_eq!(chunk.stripe.offset, le64(&buf, 58));
    assert_eq!(&chunk.stripe.dev_uuid[..], &buf[66..82]);
    let stripe = BtrfsStripe::parse(&buf, 50);
    assert_eq!(stripe.offset, chunk.stripe.offset);
}

#[test]
fn a_root_item_is_read_field_by_field() {
    let buf = counting(500);
    let root = BtrfsRootItem::parse(&buf, 7);
    assert_eq!(root.inode.generation, le64(&buf, 7));
    assert_eq!(root.inode.nlink, le32(&buf, 7 + 40));
    assert_eq!(root.inode.reserved[3], le64(&buf, 7 + 80 + 24));
    assert_eq!(root.inode.otime.nsec, le32(&buf, 7 + 148 + 8));
    assert_eq!(root.generation, le64(&buf, 7 + 160));
    assert_eq!(root.bytenr, le64(&buf, 7 + 176));
    assert_eq!(BtrfsRootItem::parse_bytenr(&buf, 7), root.bytenr);
    assert_eq!(root.refs, le32(&buf, 7 + 216));
    assert_eq!(root.drop_progress.ty, buf[7 + 228]);
    assert_eq!(root.drop_level, buf[7 + 237]);
    assert_eq!(root.level, buf[7 + 238]);
    assert_eq!(root.generation_v2, le64(&buf, 7 + 239));
    assert_eq!(&root.received_uuid[..], &buf[7 + 279..7 + 295]);
    assert_eq!(root.rtransid, le64(&buf, 7 + 319));
    assert_eq!(root.rtime.sec, le64(&buf, 7 + 363));
    assert_eq!(root.reserved[7], le64(&buf, 7 + 375 + 56));
    let inode = BtrfsInodeItem::parse(&buf, 7);
    assert_eq!(inode.sequence, root.inode.sequence);
    let time = BtrfsTimespec::parse(&buf, 7 + 112);
    assert_eq!(time.sec, root.inode.atime.sec);
    assert_eq!(time.nsec, root.inode.atime.nsec);
}

#[test]
fn directory_records_are_read_field_by_field() {
    let buf = counting(40);
    let entry = BtrfsDirItem::parse(&buf, 0);
    assert_eq!(entry.location.offset, le64(&buf, 9));
    assert_eq!(entry.transid, le64(&buf, 17));
    assert_eq!(entry.data_len, le16(&buf, 25));
    assert_eq!(entry.name_len, le16(&buf, 27));
    assert_eq!(entry.ty, buf[29]);
    let link = BtrfsInodeRef::parse(&buf, 4);
    assert_eq!(link.index, le64(&buf, 4));
    assert_eq!(link.name_len, le16(&buf, 12));
}

#[test]
fn a_superblock_is_read_field_by_field() {
    let buf = counting(3600);
    let sb = BtrfsSuperblock::parse(&buf, 10);
    assert_eq!(&sb.csum[..], &buf[10..42]);
    assert_eq!(sb.bytenr, le64(&buf, 10 + 48));
    assert_eq!(&sb.magic[..], &buf[10 + 64..10 + 72]);
    assert_eq!(sb.root, le64(&buf, 10 + 80));
    assert_eq!(sb.chunk_root, le64(&buf, 10 + 88));
    assert_eq!(sb.log_root, le64(&buf, 10 + 96));
    assert_eq!(sb.sector_size, le32(&buf, 10 + 144));
    assert_eq!(sb.node_size, le32(&buf, 10 + 148));
    assert_eq!(sb.sys_chunk_array_size, le32(&buf, 10 + 160));
    assert_eq!(sb.csum_type, le16(&buf, 10 + 196));
    assert_eq!(sb.log_root_level, buf[10 + 200]);
    assert_eq!(sb.dev_item.devid, le64(&buf, 10 + 201));
    assert_eq!(&sb.dev_item.fsid[..], &buf[10 + 283..10 + 299]);
    assert_eq!(&sb.label[..], &buf[10 + 299..10 + 555]);
    assert_eq!(sb.uuid_tree_generation, le64(&buf, 10 + 563));
    assert_eq!(sb._reserved[27], le64(&buf, 10 + 587 + 27 * 8));
    assert_eq!(&sb.sys_chunk_array[..], &buf[10 + 811..10 + 2859]);
    assert_eq!(sb.root_backups[0].tree_root, le64(&buf, 10 + 2859));
    assert_eq!(sb.root_backups[3].num_devices, le64(&buf, 10 + 2859 + 3 * 168 + 112));
    assert_eq!(sb.root_backups[3].unused_64[3], le64(&buf, 10 + 2859 + 3 * 168 + 144));
    assert_eq!(&sb.root_backups[3].unused_8[..], &buf[10 + 3521..10 + 3531]);
    let dev = BtrfsDevItem::parse(&buf, 10 + 201);
    assert_eq!(dev.bandwidth, sb.dev_item.bandwidth);
    assert_eq!(dev.bandwidth, buf[10 + 201 + 65]);
    let backup = BtrfsRootBackup::parse(&buf, 10 + 2859 + 168);
    assert_eq!(backup.csum_root_level, sb.root_backups[1].csum_root_level);
}

#[test]
fn a_header_needs_all_its_bytes() {
    let buf = counting(101);
    assert!(parse_btrfs_header(&buf).is_ok());
    assert_eq!(parse_btrfs_header(&buf[..100]).err(), Some(CompressError::ShortHeader));
    assert_eq!(parse_btrfs_header(&[]).err(), Some(CompressError::ShortHeader));
    assert_eq!(parse_btrfs_leaf(&buf[..100]).err(), Some(CompressError::ShortHeader));
    assert_eq!(parse_btrfs_node(&buf[..100]).err(), Some(CompressError::ShortHeader));
}

#[test]
fn a_leaf_gives_its_items() {
    let mut buf = counting(101 + 3 * 25);
    buf[96..100].copy_from_slice(&3u32.to_le_bytes());
    buf[100] = 0;
    let items = parse_btrfs_leaf(&buf).unwrap();
    assert_eq!(items.len(), 3);
    for (i, item) in items.iter().enumerate() {
        let at = 101 + 25 * i;
        assert_eq!(item.key.objectid, le64(&buf, at));
        assert_eq!(item.key.ty, buf[at + 8]);
        assert_eq!(item.offset, le32(&buf, at + 17));
        assert_eq!(item.size, le32(&buf, at + 21));
    }
    assert_eq!(parse_btrfs_leaf(&buf[..175]).err(), Some(CompressError::ShortNode));
    buf[96..100].copy_from_slice(&u32::MAX.to_le_bytes());
    assert_eq!(parse_btrfs_leaf(&buf).err(), Some(CompressError::ShortNode));
    buf[96..100].copy_from_slice(&0u32.to_le_bytes());
    assert!(parse_btrfs_leaf(&buf).unwrap().is_empty());
}

#[test]
fn an_internal_node_gives_its_key_pointers() {
    let mut buf = counting(101 + 2 * 33);
    buf[96..100].copy_from_slice(&2u32.to_le_bytes());
    buf[100] = 1;
    let ptrs = parse_btrfs_node(&buf).unwrap();
    assert_eq!(ptrs.len(), 2);
    assert_eq!(ptrs[0].blockptr, le64(&buf, 101 + 17));
    assert_eq!(ptrs[1].blockptr, le64(&buf, 101 + 33 + 17));
    assert_eq!(ptrs[1].generation, le64(&buf, 101 + 33 + 25));
    assert_eq!(parse_btrfs_node(&buf[..166]).err(), Some(CompressError::ShortNode));
}

#[test]
fn the_magic_is_eight_exact_bytes() {
    assert!(is_superblock_magic(b"_BHRfS_M"));
    assert!(!is_superblock_magic(b"_BHRfS_m"));
    assert!(!is_superblock_magic(b"xBHRfS_M"));
    assert!(!is_superblock_magic(&[0; 8]));
}

#[test]
fn a_superblock_is_found_at_its_offset() {
    let mut img = vec![0u8; 0x1_0000 + 3531];
    img[0x1_0000 + 64..0x1_0000 + 72].copy_from_slice(b"_BHRfS_M");
    img[0x1_0000 + 148..0x1_0000 + 152].copy_from_slice(&16384u32.to_le_bytes());
    let superblock = parse_superblock(&img).unwrap();
    assert_eq!(superblock.node_size, 16384);
    assert_eq!(parse_superblock(&img[..0x1_0000 + 3530]).err(), Some(CompressError::ImageTooSmall));
    img[0x1_0000 + 64] = 0;
    assert_eq!(parse_superblock(&img).err(), Some(CompressError::BadMagic));
}

fn superblock_with_array(array: &[u8]) -> BtrfsSuperblock {
    let mut img = vec![0u8; 3531];
    img[160..164].copy_from_slice(&(array.len() as u32).to_le_bytes());
    img[811..811 + array.len()].copy_from_slice(array);
    BtrfsSuperblock::parse(&img, 0)
}

fn chunk_pair(logical: u64, length: u64, physical: u64, num_stripes: u16) -> Vec<u8> {
    let mut pair = vec![0u8; 17 + 80 + 32 * (num_stripes as usize).saturating_sub(1)];
    pair[0..8].copy_from_slice(&256u64.to_le_bytes());
    pair[8] = 228;
    pair[9..17].copy_from_slice(&logical.to_le_bytes());
    pair[17..25].copy_from_slice(&length.to_le_bytes());
    pair[17 + 44..17 + 46].copy_from_slice(&num_stripes.to_le_bytes());
    pair[17 + 56..17 + 64].copy_from_slice(&physical.to_le_bytes());
    pair
}

#[test]
fn the_system_chunk_array_fills_the_cache() {
    let mut array = chunk_pair(0x10_0000, 0x8000, 0x2_0000, 1);
    array.extend(chunk_pair(0x20_0000, 0x4000, 0x9_0000, 3));
    // mapped already: skipped
    array.extend(chunk_pair(0x10_1000, 0x100, 0x7_0000, 1));
    let cache = bootstrap_chunk_tree(&superblock_with_array(&array)).unwrap();
    assert_eq!(cache.offset(0x10_0000), Some(0x2_0000));
    assert_eq!(cache.offset(0x10_1010), Some(0x2_1010));
    assert_eq!(cache.offset(0x10_8000), None);
    assert_eq!(cache.offset(0x20_3fff), Some(0x9_3fff));
    assert_eq!(cache.offset(0x20_4000), None);
    let empty = bootstrap_chunk_tree(&superblock_with_array(&[])).unwrap();
    assert_eq!(empty.offset(0), None);
}

#[test]
fn the_system_chunk_array_may_be_full() {
    // 21 pairs of 97 bytes and 11 bytes that are not used
    let mut array: Vec<u8> = Vec::new();
    for i in 0..21u64 {
        array.extend(chunk_pair(0x1000 * i, 0x1000, 0x10_0000 + 0x1000 * i, 1));
    }
    let cache = bootstrap_chunk_tree(&superblock_with_array(&array)).unwrap();
    assert_eq!(cache.offset(0x1000 * 20 + 5), Some(0x10_0000 + 0x1000 * 20 + 5));
}

#[test]
fn an_overlapping_system_chunk_is_an_error() {
    let mut array = chunk_pair(0, 5, 123, 1);
    array.extend(chunk_pair(u64::MAX - 3, 9, 234, 1));
    assert_eq!(
        bootstrap_chunk_tree(&superblock_with_array(&array)).err(),
        Some(CompressError::ChunkOutOfRange)
    );
    let mut array = chunk_pair(4, 5, 123, 1);
    array.extend(chunk_pair(0, 5, 234, 1));
    assert_eq!(bootstrap_chunk_tree(&superblock_with_array(&array)).err(), Some(CompressError::ChunkOverlap));
}

#[test]
fn a_block_is_borrowed_from_the_image() {
    let img = counting(1000);
    let mut cache = ChunkTreeCache::default();
    cache.insert(ChunkTreeKey { start: 5000, size: 900 }, ChunkTreeValue { offset: 100 });
    let (physical, node) = read_root_node(&img, 5010, &cache, 200).unwrap();
    assert_eq!(physical, 110);
    assert_eq!(node, &img[110..310]);
    let (physical, node) = read_root_node(&img, 5800, &cache, 100).unwrap();
    assert_eq!(physical, 900);
    assert_eq!(node, &img[900..1000]);
    assert_eq!(read_root_node(&img, 5801, &cache, 100).err(), Some(CompressError::ShortRead));
    assert_eq!(read_root_node(&img, 4999, &cache, 100).err(), Some(CompressError::Unmapped));
    assert_eq!(read_root_node(&img, 5900, &cache, 100).err(), Some(CompressError::Unmapped));
}

#[test]
fn chunks_of_more_than_one_stripe_are_listed() {
    let mut array = chunk_pair(0x10_0000, 0x8000, 0x2_0000, 2);
    array.extend(chunk_pair(0x20_0000, 0x4000, 0x9_0000, 1));
    array.extend(chunk_pair(0x30_0000, 0x4000, 0xa_0000, 5));
    let superblock = superblock_with_array(&array);
    assert_eq!(striped_system_chunks(&superblock), vec![2, 5]);
    assert!(bootstrap_chunk_tree(&superblock).is_ok());

    let single = chunk_pair(0x10_0000, 0x8000, 0x2_0000, 1);
    assert!(striped_system_chunks(&superblock_with_array(&single)).is_empty());
    assert!(striped_system_chunks(&superblock_with_array(&[])).is_empty());
}

#[test]
fn the_list_of_striped_chunks_ends_where_the_array_breaks() {
    // the third chunk item is no chunk item
    let mut array = chunk_pair(0x10_0000, 0x8000, 0x2_0000, 3);
    array.extend(chunk_pair(0x20_0000, 0x4000, 0x9_0000, 2));
    let broken_at = array.len();
    array.extend(chunk_pair(0x30_0000, 0x4000, 0xa_0000, 4));
    array[broken_at + 8] = 1;
    assert_eq!(striped_system_chunks(&superblock_with_array(&array)), vec![3, 2]);

    // the stripes of the last chunk are cut off: it is still listed
    let mut array = chunk_pair(0x10_0000, 0x8000, 0x2_0000, 1);
    array.extend(chunk_pair(0x20_0000, 0x4000, 0x9_0000, 2));
    array.truncate(array.len() - 1);
    assert_eq!(striped_system_chunks(&superblock_with_array(&array)), vec![2]);

    // a chunk without stripes ends the list
    let mut array = chunk_pair(0x10_0000, 0x8000, 0x2_0000, 0);
    array.extend(chunk_pair(0x20_0000, 0x4000, 0x9_0000, 2));
    assert!(striped_system_chunks(&superblock_with_array(&array)).is_empty());

    // an array that claims more bytes than it has lists nothing
    let mut img = vec![0u8; 3531];
    img[160..164].copy_from_slice(&2049u32.to_le_bytes());
    let superblock = btrfs_fuzz::imgcompress::structs::BtrfsSuperblock::parse(&img, 0);
    assert!(striped_system_chunks(&superblock).is_empty());
}
