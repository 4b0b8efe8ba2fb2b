//! What holds of compression and decompression together.

use crate::bytes::{le_u32, lemma_u32_le_round_trip, u32_le_bytes};
use crate::imgcompress::btrfs::{
    block_extent, chunk_map, compressed, holds_superblock, image_extents, lemma_unvisited_shrinks, node_bytes,
    node_position, superblock_extent, superblock_log_root, superblock_magic, superblock_node_size, superblock_root,
    unvisited, walk_children, walk_root_item, walk_root_items, walk_root_tree, walk_tree, Chunks, Walk,
};
use crate::imgcompress::btrfs::BASE_COMPRESSION_LEVEL;
use crate::imgcompress::codec::{zstd_decoded, zstd_encoded};
use crate::imgcompress::error::{CompressError, DecompressError};
use crate::imgcompress::frame::{chunks_behind, lemma_compression_frame};
use crate::imgcompress::restore::{
    block_checksum, block_fits, block_size, fix_block, fix_checksums_from, fix_magic, holds_superblock_block,
    lay_down, lay_down_from, overlay, restored, BTRFS_SUPERBLOCK_MAGIC_OFFSET,
};
use crate::imgcompress::structs::{
    BtrfsRootItem, BTRFS_HEADER_SIZE, BTRFS_SUPERBLOCK_MAGIC, BTRFS_SUPERBLOCK_OFFSET, BTRFS_SUPERBLOCK_SIZE,
};
use crate::imgcompress::tree::{
    header_level, header_nritems, leaf_item, leaf_table_end, node_key_ptr, node_table_end,
};
use crate::imgcompress::{
    decompressed, extents_bytes, extents_in_image, lemma_total_size, total_size, CompressedView, MetadataExtent,
};
use vstd::prelude::*;

verus! {

/// Every extent starts a tree block that lies in an image of `len` bytes,
/// is marked for a new checksum, and covers no more than the block.
pub open spec fn extents_are_blocks(extents: Seq<MetadataExtent>, len: nat, node_size: u32) -> bool {
    forall|i: int|
        0 <= i < extents.len() ==> {
            &&& (#[trigger] extents[i]).needs_csum_fixup
            &&& extents[i].size <= node_size
            &&& extents[i].offset + node_size <= len
            &&& BTRFS_HEADER_SIZE <= node_size
        }
}

/// Blocks behind blocks are blocks.
proof fn lemma_blocks_joined(first: Seq<MetadataExtent>, rest: Seq<MetadataExtent>, len: nat, node_size: u32)
    requires
        extents_are_blocks(first, len, node_size),
        extents_are_blocks(rest, len, node_size),
    ensures
        extents_are_blocks(first + rest, len, node_size),
{
    let all = first + rest;
    assert forall|i: int| 0 <= i < all.len() implies {
        &&& (#[trigger] all[i]).needs_csum_fixup
        &&& all[i].size <= node_size
        &&& all[i].offset + node_size <= len
        &&& BTRFS_HEADER_SIZE <= node_size
    } by {
        if i < first.len() {
            assert(all[i] == first[i]);
        } else {
            assert(all[i] == rest[i - first.len()]);
        }
    }
}

/// What a walk records, to its end or to its failure, starts tree blocks
/// of the image.
pub proof fn lemma_walk_tree_blocks(img: Seq<u8>, chunks: Chunks, node_size: u32, logical: u64, path: Seq<u64>)
    ensures
        extents_are_blocks(walk_tree(img, chunks, node_size, logical, path).extents, img.len(), node_size),
    decreases unvisited(img.len(), path).len(), 0int, 0int,
{
    if let Ok(p) = node_position(img, chunks, node_size, logical) {
        let node = node_bytes(img, node_size, p);
        if !path.contains(p) && node_size >= BTRFS_HEADER_SIZE {
            if header_level(node) == 0 {
                let extent = block_extent(p, leaf_table_end(node));
                assert(seq![extent][0] == extent);
            } else if node_table_end(node) <= node_size {
                let extent = block_extent(p, node_table_end(node));
                assert(seq![extent][0] == extent);
                lemma_unvisited_shrinks(img.len(), path, p);
                lemma_walk_children_blocks(img, chunks, node_size, node, 0, path.push(p));
                lemma_blocks_joined(
                    seq![extent],
                    walk_children(img, chunks, node_size, node, 0, path.push(p)).extents,
                    img.len(),
                    node_size,
                );
            }
        }
    }
}

/// What a walk through the children of a node records starts tree blocks
/// of the image.
pub proof fn lemma_walk_children_blocks(
    img: Seq<u8>,
    chunks: Chunks,
    node_size: u32,
    node: Seq<u8>,
    i: int,
    path: Seq<u64>,
)
    ensures
        extents_are_blocks(walk_children(img, chunks, node_size, node, i, path).extents, img.len(), node_size),
    decreases unvisited(img.len(), path).len(), 1int, header_nritems(node) - i,
{
    if i < header_nritems(node) {
        let child = node_key_ptr(node, i).blockptr;
        lemma_walk_tree_blocks(img, chunks, node_size, child, path);
        lemma_walk_children_blocks(img, chunks, node_size, node, i + 1, path);
        lemma_blocks_joined(
            walk_tree(img, chunks, node_size, child, path).extents,
            walk_children(img, chunks, node_size, node, i + 1, path).extents,
            img.len(),
            node_size,
        );
    }
}

/// What the walk of the trees that the root tree describes records starts
/// tree blocks of the image.
pub proof fn lemma_walk_root_items_blocks(img: Seq<u8>, chunks: Chunks, node_size: u32, node: Seq<u8>, k: int)
    ensures
        extents_are_blocks(walk_root_items(img, chunks, node_size, node, k).extents, img.len(), node_size),
    decreases k,
{
    if k > 0 {
        let item = leaf_item(node, k - 1);
        lemma_walk_tree_blocks(
            img,
            chunks,
            node_size,
            BtrfsRootItem::bytenr_at(node, BTRFS_HEADER_SIZE + item.offset),
            Seq::empty(),
        );
        lemma_walk_root_items_blocks(img, chunks, node_size, node, k - 1);
        lemma_blocks_joined(
            walk_root_item(img, chunks, node_size, node, item).extents,
            walk_root_items(img, chunks, node_size, node, k - 1).extents,
            img.len(),
            node_size,
        );
    }
}

/// What the walk of the root tree and of the trees that it describes
/// records starts tree blocks of the image.
pub proof fn lemma_walk_root_tree_blocks(img: Seq<u8>, chunks: Chunks, node_size: u32, logical: u64)
    ensures
        extents_are_blocks(walk_root_tree(img, chunks, node_size, logical).extents, img.len(), node_size),
{
    if let Ok(p) = node_position(img, chunks, node_size, logical) {
        let node = node_bytes(img, node_size, p);
        if node_size >= BTRFS_HEADER_SIZE && header_level(node) == 0 && leaf_table_end(node) <= node_size {
            let extent = block_extent(p, leaf_table_end(node));
            assert(seq![extent][0] == extent);
            lemma_walk_root_items_blocks(img, chunks, node_size, node, header_nritems(node));
            lemma_blocks_joined(
                seq![extent],
                walk_root_items(img, chunks, node_size, node, header_nritems(node)).extents,
                img.len(),
                node_size,
            );
        }
    }
}

/// The extents of an image lie in it: the record of the superblock, then
/// tree blocks.
pub proof fn lemma_image_extents_in_image(img: Seq<u8>, chunks: Chunks)
    requires
        holds_superblock(img),
    ensures
        image_extents(img, chunks) matches Ok(extents) ==> {
            &&& extents.len() > 0
            &&& extents[0] == superblock_extent()
            &&& extents_in_image(extents, img.len())
            &&& extents_are_blocks(extents.subrange(1, extents.len() as int), img.len(), superblock_node_size(img))
        },
{
    let node_size = superblock_node_size(img);
    let log_root = superblock_log_root(img);
    if let Ok(extents) = image_extents(img, chunks) {
        let trees = walk_root_tree(img, chunks, node_size, superblock_root(img));
        let log = if log_root == 0 {
            Walk::done(Seq::empty())
        } else {
            walk_tree(img, chunks, node_size, log_root, Seq::empty())
        };
        lemma_walk_root_tree_blocks(img, chunks, node_size, superblock_root(img));
        lemma_walk_tree_blocks(img, chunks, node_size, log_root, Seq::empty());
        lemma_blocks_joined(trees.extents, log.extents, img.len(), node_size);
        let blocks = trees.followed_by(log).extents;
        assert(extents == seq![superblock_extent()] + blocks);
        assert(extents.subrange(1, extents.len() as int) =~= blocks);
        assert forall|i: int| 0 <= i < extents.len() implies (#[trigger] extents[i]).offset + extents[i].size
            <= img.len() by {
            if i > 0 {
                assert(extents[i] == blocks[i - 1]);
            }
        }
    }
}

/// The payload of extents that lie in the image is as long as the extents
/// are together, and holds for each extent the bytes that the image has
/// there.
pub proof fn lemma_extents_bytes(img: Seq<u8>, extents: Seq<MetadataExtent>, i: int)
    requires
        extents_in_image(extents, img.len()),
        0 <= i < extents.len(),
    ensures
        extents_bytes(img, extents).len() == total_size(extents),
        0 <= total_size(extents.take(i)),
        total_size(extents.take(i + 1)) == total_size(extents.take(i)) + extents[i].size,
        total_size(extents.take(i + 1)) <= total_size(extents),
        extents_bytes(img, extents).subrange(total_size(extents.take(i)), total_size(extents.take(i + 1)))
            == img.subrange(extents[i].offset as int, extents[i].offset + extents[i].size),
    decreases extents.len(),
{
    let front = extents.drop_last();
    let last = extents.last();
    let head = extents_bytes(img, front);
    let tail = img.subrange(last.offset as int, last.offset + last.size);
    lemma_total_size(img, front);
    assert(extents.take(i + 1).drop_last() =~= extents.take(i));
    if i < extents.len() - 1 {
        lemma_extents_bytes(img, front, i);
        assert(front.take(i) =~= extents.take(i));
        assert(front.take(i + 1) =~= extents.take(i + 1));
        assert((head + tail).subrange(total_size(extents.take(i)), total_size(extents.take(i + 1)))
            =~= head.subrange(total_size(extents.take(i)), total_size(extents.take(i + 1))));
    } else {
        assert(extents.take(i) =~= front);
        assert(extents.take(i + 1) =~= extents);
        assert((head + tail).subrange(head.len() as int, (head.len() + tail.len()) as int) =~= tail);
    }
}

/// Laying the bytes of an image over the image changes nothing.
pub proof fn lemma_lay_down_own_bytes(img: Seq<u8>, extents: Seq<MetadataExtent>, i: int)
    requires
        extents_in_image(extents, img.len()),
        0 <= i <= extents.len(),
    ensures
        lay_down_from(img, extents, extents_bytes(img, extents), i, total_size(extents.take(i))) == Ok::<
            Seq<u8>,
            DecompressError,
        >(img),
    decreases extents.len() - i,
{
    if i < extents.len() {
        let data = extents_bytes(img, extents);
        let at = total_size(extents.take(i));
        lemma_extents_bytes(img, extents, i);
        assert(overlay(img, extents[i].offset as int, data.subrange(at, at + extents[i].size)) =~= img);
        lemma_lay_down_own_bytes(img, extents, i + 1);
    }
}

/// The block of `size` bytes at `offset` lies in `img` and carries the
/// checksum of its bytes.
pub open spec fn checksum_valid(img: Seq<u8>, offset: int, size: int) -> bool {
    &&& block_fits(img, offset, size)
    &&& img.subrange(offset, offset + 4) == u32_le_bytes(block_checksum(img, offset, size))
}

/// Every block that an extent marks carries the checksum of its bytes.
pub open spec fn checksums_valid(img: Seq<u8>, extents: Seq<MetadataExtent>, node_size: nat) -> bool {
    forall|i: int|
        0 <= i < extents.len() && (#[trigger] extents[i]).needs_csum_fixup ==> checksum_valid(
            img,
            extents[i].offset as int,
            block_size(extents[i].offset, node_size) as int,
        )
}

/// After its repair a block carries the checksum of its bytes: the first
/// four bytes of the block, read as an integer, are the checksum of all
/// that follows the checksum field. The rest of the image is as before.
pub proof fn lemma_fix_block_valid(img: Seq<u8>, offset: int, size: int)
    requires
        0 <= offset,
        block_fits(img, offset, size),
    ensures
        checksum_valid(fix_block(img, offset, size), offset, size),
        le_u32(fix_block(img, offset, size), offset) == block_checksum(fix_block(img, offset, size), offset, size),
        fix_block(img, offset, size).len() == img.len(),
        forall|i: int|
            0 <= i < img.len() && !(offset <= i < offset + 4) ==> fix_block(img, offset, size)[i] == img[i],
{
    let fixed = fix_block(img, offset, size);
    let checksum = u32_le_bytes(block_checksum(img, offset, size));
    assert(fixed.subrange(offset + 32, offset + size) =~= img.subrange(offset + 32, offset + size));
    assert(fixed.subrange(offset, offset + 4) =~= checksum);
    lemma_u32_le_round_trip(block_checksum(img, offset, size));
}

/// The repair of a block does not look at the checksum that the block
/// carried: two images that differ in nothing else are the same after it.
pub proof fn lemma_fix_block_heals(a: Seq<u8>, b: Seq<u8>, offset: int, size: int)
    requires
        0 <= offset,
        a.len() == b.len(),
        block_fits(a, offset, size),
        forall|i: int| 0 <= i < a.len() && !(offset <= i < offset + 4) ==> a[i] == b[i],
    ensures
        fix_block(a, offset, size) == fix_block(b, offset, size),
{
    assert(a.subrange(offset + 32, offset + size) =~= b.subrange(offset + 32, offset + size));
    assert(fix_block(a, offset, size) =~= fix_block(b, offset, size));
}

/// The repair of a block that carries the checksum of its bytes changes
/// nothing.
pub proof fn lemma_fix_valid_block(img: Seq<u8>, offset: int, size: int)
    requires
        0 <= offset,
        checksum_valid(img, offset, size),
    ensures
        fix_block(img, offset, size) == img,
{
    let checksum = u32_le_bytes(block_checksum(img, offset, size));
    assert forall|i: int| offset <= i < offset + 4 implies checksum[i - offset] == img[i] by {
        assert(img.subrange(offset, offset + 4)[i - offset] == img[i]);
    }
    assert(fix_block(img, offset, size) =~= img);
}

/// The repair of checksums changes nothing in an image whose marked blocks
/// all carry the checksums of their bytes.
pub proof fn lemma_fix_valid_checksums(img: Seq<u8>, extents: Seq<MetadataExtent>, node_size: nat, i: int)
    requires
        0 <= i,
        checksums_valid(img, extents, node_size),
    ensures
        fix_checksums_from(img, extents, node_size, i) == Ok::<Seq<u8>, DecompressError>(img),
    decreases extents.len() - i,
{
    if i < extents.len() {
        if extents[i].needs_csum_fixup {
            lemma_fix_valid_block(
                img,
                extents[i].offset as int,
                block_size(extents[i].offset, node_size) as int,
            );
        }
        lemma_fix_valid_checksums(img, extents, node_size, i + 1);
    }
}

/// Any two blocks that the extents mark share no byte, unless they are one
/// and the same block.
pub open spec fn blocks_apart(extents: Seq<MetadataExtent>, node_size: nat) -> bool {
    forall|i: int, j: int|
        0 <= i < extents.len() && 0 <= j < extents.len() && (#[trigger] extents[i]).needs_csum_fixup && (
        #[trigger] extents[j]).needs_csum_fixup ==> {
            ||| extents[i].offset == extents[j].offset
            ||| extents[i].offset + block_size(extents[i].offset, node_size) <= extents[j].offset
            ||| extents[j].offset + block_size(extents[j].offset, node_size) <= extents[i].offset
        }
}

/// No marked block has its checksum where the magic of the primary
/// superblock stands.
pub open spec fn checksums_spare_magic(extents: Seq<MetadataExtent>) -> bool {
    forall|i: int|
        0 <= i < extents.len() && (#[trigger] extents[i]).needs_csum_fixup ==> {
            ||| extents[i].offset + 4 <= BTRFS_SUPERBLOCK_OFFSET + 64
            ||| extents[i].offset >= BTRFS_SUPERBLOCK_OFFSET + 72
        }
}

/// A block keeps its valid checksum when another block, which shares no
/// byte with it, is repaired.
pub proof fn lemma_valid_block_kept(img: Seq<u8>, offset: int, size: int, other: int, other_size: int)
    requires
        0 <= offset,
        0 <= other,
        checksum_valid(img, offset, size),
        block_fits(img, other, other_size),
        other + other_size <= offset || offset + size <= other,
    ensures
        checksum_valid(fix_block(img, other, other_size), offset, size),
{
    let fixed = fix_block(img, other, other_size);
    assert(fixed.subrange(offset + 32, offset + size) =~= img.subrange(offset + 32, offset + size));
    assert(fixed.subrange(offset, offset + 4) =~= img.subrange(offset, offset + 4));
}

/// The repair of checksums changes the first four bytes of marked blocks
/// and nothing else.
pub proof fn lemma_fix_checksums_frame(img: Seq<u8>, extents: Seq<MetadataExtent>, node_size: nat, i: int)
    requires
        0 <= i,
    ensures
        fix_checksums_from(img, extents, node_size, i) matches Ok(fixed) ==> {
            &&& fixed.len() == img.len()
            &&& forall|p: int|
                0 <= p < img.len() && (forall|j: int|
                    0 <= j < extents.len() && (#[trigger] extents[j]).needs_csum_fixup ==> !(extents[j].offset
                        <= p < extents[j].offset + 4)) ==> fixed[p] == img[p]
        },
    decreases extents.len() - i,
{
    if i < extents.len() {
        if !extents[i].needs_csum_fixup {
            lemma_fix_checksums_frame(img, extents, node_size, i + 1);
        } else {
            let offset = extents[i].offset as int;
            let size = block_size(extents[i].offset, node_size) as int;
            if block_fits(img, offset, size) {
                let next = fix_block(img, offset, size);
                lemma_fix_checksums_frame(next, extents, node_size, i + 1);
                if let Ok(fixed) = fix_checksums_from(img, extents, node_size, i) {
                    assert forall|p: int|
                        0 <= p < img.len() && (forall|j: int|
                            0 <= j < extents.len() && (#[trigger] extents[j]).needs_csum_fixup ==> !(
                            extents[j].offset <= p < extents[j].offset + 4)) implies fixed[p] == img[p] by {
                        assert(!(extents[i].offset <= p < extents[i].offset + 4));
                        assert(next[p] == img[p]);
                    }
                }
            }
        }
    }
}

/// Once the blocks marked by the first `i` extents carry valid checksums,
/// the repair of the others leaves every marked block with a valid
/// checksum, as long as the blocks keep apart.
pub proof fn lemma_fix_checksums_valid(img: Seq<u8>, extents: Seq<MetadataExtent>, node_size: nat, i: int)
    requires
        0 <= i <= extents.len(),
        blocks_apart(extents, node_size),
        forall|j: int|
            0 <= j < i && (#[trigger] extents[j]).needs_csum_fixup ==> checksum_valid(
                img,
                extents[j].offset as int,
                block_size(extents[j].offset, node_size) as int,
            ),
    ensures
        fix_checksums_from(img, extents, node_size, i) matches Ok(fixed) ==> checksums_valid(
            fixed,
            extents,
            node_size,
        ),
    decreases extents.len() - i,
{
    if i < extents.len() {
        if !extents[i].needs_csum_fixup {
            lemma_fix_checksums_valid(img, extents, node_size, i + 1);
        } else {
            let offset = extents[i].offset as int;
            let size = block_size(extents[i].offset, node_size) as int;
            if block_fits(img, offset, size) {
                let next = fix_block(img, offset, size);
                lemma_fix_block_valid(img, offset, size);
                assert forall|j: int|
                    0 <= j < i + 1 && (#[trigger] extents[j]).needs_csum_fixup implies checksum_valid(
                    next,
                    extents[j].offset as int,
                    block_size(extents[j].offset, node_size) as int,
                ) by {
                    if extents[j].offset != extents[i].offset {
                        lemma_valid_block_kept(
                            img,
                            extents[j].offset as int,
                            block_size(extents[j].offset, node_size) as int,
                            offset,
                            size,
                        );
                    }
                }
                lemma_fix_checksums_valid(next, extents, node_size, i + 1);
            }
        }
    }
}

/// Laying extents down keeps the length of the image.
pub proof fn lemma_lay_down_len(img: Seq<u8>, extents: Seq<MetadataExtent>, data: Seq<u8>, i: int, at: int)
    requires
        0 <= i,
    ensures
        lay_down_from(img, extents, data, i, at) matches Ok(laid) ==> laid.len() == img.len(),
    decreases extents.len() - i,
{
    if i < extents.len() {
        lemma_lay_down_len(
            overlay(img, extents[i].offset as int, data.subrange(at, at + extents[i].size)),
            extents,
            data,
            i + 1,
            at + extents[i].size,
        );
    }
}

/// What decompression is for: the image that it gives is as long as the
/// base, its primary superblock carries the magic, and every marked block
/// carries the checksum of its bytes. The marked blocks must keep apart
/// and off the magic, as the blocks of a file system do.
pub proof fn lemma_restored_is_valid(base: Seq<u8>, extents: Seq<MetadataExtent>, data: Seq<u8>, node_size: nat)
    requires
        blocks_apart(extents, node_size),
        checksums_spare_magic(extents),
    ensures
        restored(base, extents, data, node_size) matches Ok(img) ==> {
            &&& img.len() == base.len()
            &&& superblock_magic(img) == BTRFS_SUPERBLOCK_MAGIC@
            &&& checksums_valid(img, extents, node_size)
        },
{
    if let Ok(img) = restored(base, extents, data, node_size) {
        let laid = lay_down(base, extents, data).unwrap();
        lemma_lay_down_len(base, extents, data, 0, 0);
        let marked = fix_magic(laid);
        lemma_fix_magic_valid(laid);
        lemma_fix_checksums_frame(marked, extents, node_size, 0);
        lemma_fix_checksums_valid(marked, extents, node_size, 0);
        assert(superblock_magic(img) =~= superblock_magic(marked));
    }
}

/// After its repair the primary superblock carries the magic.
pub proof fn lemma_fix_magic_valid(img: Seq<u8>)
    requires
        holds_superblock_block(img),
    ensures
        superblock_magic(fix_magic(img)) == BTRFS_SUPERBLOCK_MAGIC@,
{
    assert(superblock_magic(fix_magic(img)) =~= BTRFS_SUPERBLOCK_MAGIC@);
}

/// The repair of the magic does not look at the magic that the superblock
/// carried: two images that differ in nothing else are the same after it.
pub proof fn lemma_fix_magic_heals(a: Seq<u8>, b: Seq<u8>)
    requires
        a.len() == b.len(),
        forall|i: int|
            0 <= i < a.len() && !(BTRFS_SUPERBLOCK_OFFSET + 64 <= i < BTRFS_SUPERBLOCK_OFFSET + 72) ==> a[i]
                == b[i],
    ensures
        fix_magic(a) == fix_magic(b),
{
    assert(fix_magic(a) =~= fix_magic(b));
}

/// The repair of the magic changes nothing in an image whose primary
/// superblock carries the magic.
pub proof fn lemma_fix_valid_magic(img: Seq<u8>)
    requires
        holds_superblock_block(img),
        superblock_magic(img) == BTRFS_SUPERBLOCK_MAGIC@,
    ensures
        fix_magic(img) == img,
{
    let at = BTRFS_SUPERBLOCK_OFFSET + BTRFS_SUPERBLOCK_MAGIC_OFFSET;
    assert forall|i: int| at <= i < at + 8 implies BTRFS_SUPERBLOCK_MAGIC@[i - at] == img[i] by {
        assert(superblock_magic(img)[i - at] == img[i]);
    }
    assert(fix_magic(img) =~= img);
}

/// What compression keeps of an image fits together: the payload is as
/// long as the extents say, and every extent lies in the image.
pub proof fn lemma_envelope_consistent(img: Seq<u8>, packed: CompressedView)
    requires
        compressed(img) == Ok::<CompressedView, CompressError>(packed),
    ensures
        total_size(packed.metadata) == packed.data.len(),
        extents_in_image(packed.metadata, img.len()),
        packed.metadata.len() > 0,
        packed.metadata[0] == superblock_extent(),
{
    let chunks = chunk_map(img).unwrap();
    lemma_image_extents_in_image(img, chunks);
    lemma_total_size(img, packed.metadata);
}

/// Round trip: an image that can be compressed, and whose superblock and
/// recorded tree blocks carry the checksums of their bytes, comes back from
/// decompression byte for byte. The codec must have kept its promise that
/// the base decodes to the image.
pub proof fn lemma_round_trip(img: Seq<u8>, packed: CompressedView)
    requires
        compressed(img) == Ok::<CompressedView, CompressError>(packed),
        zstd_decoded(packed.base) == Some(img),
        checksums_valid(img, packed.metadata, packed.node_size),
    ensures
        decompressed(packed) == Ok::<Seq<u8>, DecompressError>(img),
{
    lemma_envelope_consistent(img, packed);
    assert(packed.metadata.take(0) =~= Seq::empty());
    lemma_lay_down_own_bytes(img, packed.metadata, 0);
    assert(packed.metadata[0].needs_csum_fixup);
    assert(holds_superblock_block(img));
    lemma_fix_valid_magic(img);
    lemma_fix_valid_checksums(img, packed.metadata, packed.node_size, 0);
}

/// Magic recovery: whatever eight bytes the payload puts where the magic of
/// the primary superblock belongs, decompression gives the image with the
/// valid magic. Here `img` carries the magic and valid checksums, and the
/// extents laid over `base` give `img` but for those eight bytes.
pub proof fn lemma_magic_recovery(
    img: Seq<u8>,
    base: Seq<u8>,
    extents: Seq<MetadataExtent>,
    data: Seq<u8>,
    node_size: nat,
)
    requires
        holds_superblock_block(img),
        superblock_magic(img) == BTRFS_SUPERBLOCK_MAGIC@,
        checksums_valid(img, extents, node_size),
        lay_down(base, extents, data) matches Ok(laid) && laid.len() == img.len() && forall|i: int|
            0 <= i < img.len() && !(BTRFS_SUPERBLOCK_OFFSET + 64 <= i < BTRFS_SUPERBLOCK_OFFSET + 72)
                ==> laid[i] == img[i],
    ensures
        restored(base, extents, data, node_size) == Ok::<Seq<u8>, DecompressError>(img),
{
    let laid = lay_down(base, extents, data).unwrap();
    lemma_fix_magic_heals(laid, img);
    lemma_fix_valid_magic(img);
    lemma_fix_valid_checksums(img, extents, node_size, 0);
}

/// Checksum self-healing: whatever four bytes the payload puts where the
/// checksum of the primary superblock belongs, decompression gives the
/// image with the valid checksum. Here `img` carries the magic and valid
/// checksums, the first extent is the superblock, as in every compressed
/// image, and the extents laid over `base` give `img` but for those four
/// bytes.
pub proof fn lemma_checksum_self_healing(
    img: Seq<u8>,
    base: Seq<u8>,
    extents: Seq<MetadataExtent>,
    data: Seq<u8>,
    node_size: nat,
)
    requires
        holds_superblock_block(img),
        superblock_magic(img) == BTRFS_SUPERBLOCK_MAGIC@,
        checksums_valid(img, extents, node_size),
        extents.len() > 0,
        extents[0] == superblock_extent(),
        lay_down(base, extents, data) matches Ok(laid) && laid.len() == img.len() && forall|i: int|
            0 <= i < img.len() && !(BTRFS_SUPERBLOCK_OFFSET <= i < BTRFS_SUPERBLOCK_OFFSET + 4) ==> laid[i]
                == img[i],
    ensures
        restored(base, extents, data, node_size) == Ok::<Seq<u8>, DecompressError>(img),
{
    let laid = lay_down(base, extents, data).unwrap();
    let offset = BTRFS_SUPERBLOCK_OFFSET as int;
    let size = BTRFS_SUPERBLOCK_SIZE as int;
    lemma_fix_valid_magic(img);
    assert(extents[0].needs_csum_fixup);
    assert(block_size(extents[0].offset, node_size) == size);
    assert forall|i: int| 0 <= i < img.len() && !(offset <= i < offset + 4) implies fix_magic(laid)[i]
        == img[i] by {
        assert(fix_magic(img)[i] == img[i]);
    }
    lemma_fix_block_heals(fix_magic(laid), img, offset, size);
    lemma_fix_valid_block(img, offset, size);
    lemma_fix_valid_checksums(img, extents, node_size, 1);
}

/// Checksum self-healing, from image to image: an image that differs from
/// a well-formed one in the first four bytes of the checksum of its
/// primary superblock is compressed to the same extents and comes back
/// from decompression as the well-formed image. Well-formed means here
/// that the image can be compressed, that its superblock and recorded
/// tree blocks carry the checksums of their bytes, and that none of its
/// chunks lies in front of the fields of the superblock. The codec must
/// have kept its promise that the base decodes to what was encoded.
pub proof fn lemma_corrupted_checksum_round_trip(img: Seq<u8>, corrupted: Seq<u8>)
    requires
        compressed(img) matches Ok(packed) && checksums_valid(img, packed.metadata, packed.node_size),
        chunk_map(img) matches Ok(chunks) && chunks_behind(chunks, BTRFS_SUPERBLOCK_OFFSET + 4),
        corrupted.len() == img.len(),
        forall|i: int|
            0 <= i < img.len() && !(BTRFS_SUPERBLOCK_OFFSET <= i < BTRFS_SUPERBLOCK_OFFSET + 4) ==> corrupted[i]
                == img[i],
        zstd_encoded(corrupted, BASE_COMPRESSION_LEVEL as int) matches Some(base) && zstd_decoded(base) == Some(
            corrupted,
        ),
    ensures
        compressed(corrupted) matches Ok(packed) && decompressed(packed) == Ok::<Seq<u8>, DecompressError>(img),
{
    let packed = compressed(img).unwrap();
    let extents = packed.metadata;
    lemma_compression_frame(img, corrupted, BTRFS_SUPERBLOCK_OFFSET + 4);
    lemma_envelope_consistent(img, packed);
    let repacked = compressed(corrupted).unwrap();
    assert(repacked.metadata == extents);
    assert(extents.take(0) =~= Seq::empty());
    lemma_lay_down_own_bytes(corrupted, extents, 0);
    assert(extents[0].needs_csum_fixup);
    lemma_checksum_self_healing(img, corrupted, extents, repacked.data, packed.node_size);
}

/// Laying down a payload that was changed where it holds the magic of the
/// superblock gives the image back but for the magic.
proof fn lemma_lay_down_scribbled_magic(
    img: Seq<u8>,
    current: Seq<u8>,
    extents: Seq<MetadataExtent>,
    data: Seq<u8>,
    i: int,
)
    requires
        extents_in_image(extents, img.len()),
        extents.len() > 0,
        extents[0] == superblock_extent(),
        0 <= i <= extents.len(),
        data.len() == total_size(extents),
        forall|q: int| 0 <= q < data.len() && !(64 <= q < 72) ==> data[q] == extents_bytes(img, extents)[q],
        current.len() == img.len(),
        forall|p: int|
            0 <= p < img.len() && !(BTRFS_SUPERBLOCK_OFFSET + 64 <= p < BTRFS_SUPERBLOCK_OFFSET + 72)
                ==> current[p] == img[p],
    ensures
        lay_down_from(current, extents, data, i, total_size(extents.take(i))) matches Ok(laid) && laid.len()
            == img.len() && forall|p: int|
            0 <= p < img.len() && !(BTRFS_SUPERBLOCK_OFFSET + 64 <= p < BTRFS_SUPERBLOCK_OFFSET + 72)
                ==> laid[p] == img[p],
    decreases extents.len() - i,
{
    if i < extents.len() {
        let own = extents_bytes(img, extents);
        let at = total_size(extents.take(i));
        let offset = extents[i].offset as int;
        let size = extents[i].size as int;
        lemma_extents_bytes(img, extents, i);
        lemma_extents_bytes(img, extents, 0);
        assert(extents.take(0) =~= Seq::empty());
        if i > 0 {
            lemma_take_grows(img, extents, 1, i);
        }
        let next = overlay(current, offset, data.subrange(at, at + size));
        assert forall|p: int|
            0 <= p < img.len() && !(BTRFS_SUPERBLOCK_OFFSET + 64 <= p < BTRFS_SUPERBLOCK_OFFSET + 72) implies next[p]
            == img[p] by {
            if offset <= p < offset + size {
                let q = at + (p - offset);
                assert(own.subrange(at, at + size)[p - offset] == img.subrange(offset, offset + size)[p - offset]);
                assert(data[q] == own[q]);
            }
        }
        lemma_lay_down_scribbled_magic(img, next, extents, data, i + 1);
    }
}

/// The first `j` extents are together at least as long as the first `i`.
proof fn lemma_take_grows(img: Seq<u8>, extents: Seq<MetadataExtent>, i: int, j: int)
    requires
        extents_in_image(extents, img.len()),
        0 <= i <= j <= extents.len(),
    ensures
        total_size(extents.take(i)) <= total_size(extents.take(j)),
    decreases j - i,
{
    if i < j {
        lemma_extents_bytes(img, extents, j - 1);
        lemma_take_grows(img, extents, i, j - 1);
    }
}

/// Magic recovery, from image to image: whatever eight bytes are written
/// over the magic of the superblock in the payload of a compressed
/// well-formed image, decompression gives the image back byte for byte.
/// Well-formed means here that the image can be compressed and that its
/// superblock and recorded tree blocks carry the checksums of their bytes.
/// The superblock is the first extent, so its magic is at offset 64 of the
/// payload.
pub proof fn lemma_corrupted_magic_round_trip(img: Seq<u8>, packed: CompressedView, scribbled: Seq<u8>)
    requires
        compressed(img) == Ok::<CompressedView, CompressError>(packed),
        zstd_decoded(packed.base) == Some(img),
        checksums_valid(img, packed.metadata, packed.node_size),
        scribbled.len() == packed.data.len(),
        forall|q: int| 0 <= q < scribbled.len() && !(64 <= q < 72) ==> scribbled[q] == packed.data[q],
    ensures
        decompressed(CompressedView { data: scribbled, ..packed }) == Ok::<Seq<u8>, DecompressError>(img),
{
    let extents = packed.metadata;
    lemma_envelope_consistent(img, packed);
    assert(extents.take(0) =~= Seq::empty());
    lemma_lay_down_scribbled_magic(img, img, extents, scribbled, 0);
    assert(extents[0].needs_csum_fixup);
    assert(holds_superblock_block(img));
    lemma_magic_recovery(img, img, extents, scribbled, packed.node_size);
}

/// No two extents share a byte of the image.
pub open spec fn extents_apart(extents: Seq<MetadataExtent>) -> bool {
    forall|i: int, j: int|
        0 <= i < extents.len() && 0 <= j < extents.len() && i != j ==> {
            ||| (#[trigger] extents[i]).offset + extents[i].size <= (#[trigger] extents[j]).offset
            ||| extents[j].offset + extents[j].size <= extents[i].offset
        }
}

/// `p` lies in extent `k`.
pub open spec fn in_extent(extents: Seq<MetadataExtent>, k: int, p: int) -> bool {
    extents[k].offset <= p < extents[k].offset + extents[k].size
}

/// Where the payload of extent `k` starts in the data.
pub open spec fn payload_start(extents: Seq<MetadataExtent>, k: int) -> int {
    total_size(extents.take(k))
}

/// Extents that keep apart do not disturb each other when they are laid
/// down: afterwards the image holds the payload of every extent where the
/// extent belongs, and what the base held everywhere else.
pub proof fn lemma_lay_down_apart(img: Seq<u8>, extents: Seq<MetadataExtent>, data: Seq<u8>)
    requires
        extents_in_image(extents, img.len()),
        extents_apart(extents),
        total_size(extents) <= data.len(),
    ensures
        lay_down(img, extents, data) matches Ok(laid) && {
            &&& laid.len() == img.len()
            &&& forall|k: int, p: int|
                0 <= k < extents.len() && #[trigger] in_extent(extents, k, p) ==> laid[p] == data[payload_start(
                    extents,
                    k,
                ) + (p - extents[k].offset)]
            &&& forall|p: int|
                0 <= p < img.len() && (forall|k: int| 0 <= k < extents.len() ==> !#[trigger] in_extent(extents, k, p))
                    ==> laid[p] == img[p]
        },
{
    assert(extents.take(0) =~= Seq::empty());
    lemma_lay_down_apart_from(img, img, extents, data, 0);
}

/// The induction behind `lemma_lay_down_apart`: `current` is the image
/// after the first `i` extents were laid down.
proof fn lemma_lay_down_apart_from(
    img: Seq<u8>,
    current: Seq<u8>,
    extents: Seq<MetadataExtent>,
    data: Seq<u8>,
    i: int,
)
    requires
        extents_in_image(extents, img.len()),
        extents_apart(extents),
        total_size(extents) <= data.len(),
        0 <= i <= extents.len(),
        current.len() == img.len(),
        forall|k: int, p: int|
            0 <= k < i && #[trigger] in_extent(extents, k, p) ==> current[p] == data[payload_start(extents, k) + (p
                - extents[k].offset)],
        forall|p: int|
            0 <= p < img.len() && (forall|k: int| 0 <= k < i ==> !#[trigger] in_extent(extents, k, p)) ==> current[p]
                == img[p],
    ensures
        lay_down_from(current, extents, data, i, payload_start(extents, i)) matches Ok(laid) && {
            &&& laid.len() == img.len()
            &&& forall|k: int, p: int|
                0 <= k < extents.len() && #[trigger] in_extent(extents, k, p) ==> laid[p] == data[payload_start(
                    extents,
                    k,
                ) + (p - extents[k].offset)]
            &&& forall|p: int|
                0 <= p < img.len() && (forall|k: int| 0 <= k < extents.len() ==> !#[trigger] in_extent(extents, k, p))
                    ==> laid[p] == img[p]
        },
    decreases extents.len() - i,
{
    if i < extents.len() {
        let at = payload_start(extents, i);
        let offset = extents[i].offset as int;
        let size = extents[i].size as int;
        lemma_extents_bytes(img, extents, i);
        let next = overlay(current, offset, data.subrange(at, at + size));
        assert forall|k: int, p: int| 0 <= k < i + 1 && #[trigger] in_extent(extents, k, p) implies next[p]
            == data[payload_start(extents, k) + (p - extents[k].offset)] by {
            if k < i {
                assert(!in_extent(extents, i, p));
            }
        }
        assert forall|p: int|
            0 <= p < img.len() && (forall|k: int|
                0 <= k < i + 1 ==> !#[trigger] in_extent(extents, k, p)) implies next[p] == img[p] by {
            assert(!in_extent(extents, i, p));
        }
        lemma_lay_down_apart_from(img, next, extents, data, i + 1);
    }
}

} // verus!
