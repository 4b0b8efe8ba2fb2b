//! What compression reads of an image.
//!
//! Compression reads the fields of the superblock and the tree blocks that
//! the chunks lead it to. Two images that agree from some offset on, and
//! whose chunks all lie behind that offset, are therefore walked alike.

use crate::imgcompress::btrfs::{
    bootstrap, chunk_map, image_extents, lemma_unvisited_shrinks, node_bytes, node_position, superblock_chunk_root,
    superblock_log_root, superblock_magic, superblock_node_size, superblock_root, superblock_sys_array,
    superblock_sys_array_size, unvisited, walk_chunk_children, walk_chunk_leaf, walk_chunk_tree, walk_children,
    walk_root_item, walk_root_items, walk_root_tree, walk_tree, with_leaf_item, Chunks,
};
use crate::imgcompress::chunk_tree::{lemma_lookup_first, lookup, representable, translate};
use crate::imgcompress::structs::{BtrfsRootItem, BTRFS_HEADER_SIZE, BTRFS_ROOT_ITEM_KEY, BTRFS_SUPERBLOCK_OFFSET};
use crate::imgcompress::tree::{header_level, header_nritems, leaf_item, node_key_ptr, node_table_end};
use crate::imgcompress::{begins_with, lemma_begins_with_chain};
use vstd::prelude::*;

verus! {

/// The two images are of one length and hold the same bytes from `floor` on.
pub open spec fn agree_from(a: Seq<u8>, b: Seq<u8>, floor: int) -> bool {
    &&& a.len() == b.len()
    &&& forall|i: int| floor <= i < a.len() ==> a[i] == b[i]
}

/// Every chunk is representable and lies at `floor` or behind it on the
/// device.
pub open spec fn chunks_behind(chunks: Chunks, floor: int) -> bool {
    forall|i: int|
        0 <= i < chunks.len() ==> representable((#[trigger] chunks[i]).0, chunks[i].1) && chunks[i].1.offset
            >= floor
}

/// A block that chunks behind `floor` lead to lies behind `floor`.
pub proof fn lemma_translate_behind(chunks: Chunks, floor: int, logical: u64)
    requires
        chunks_behind(chunks, floor),
    ensures
        translate(chunks, logical) matches Some(p) ==> p >= floor,
{
    lemma_lookup_first(chunks, logical);
    if let Some(kv) = lookup(chunks, logical) {
        let i = choose|i: int|
            0 <= i < chunks.len() && #[trigger] chunks[i] == kv && kv.0.contains(logical) && forall|j: int|
                0 <= j < i ==> !(#[trigger] chunks[j].0).contains(logical);
        assert(representable(chunks[i].0, chunks[i].1));
    }
}

/// The chunks at the start of chunks behind `floor` lie behind `floor`.
proof fn lemma_front_behind(all: Chunks, front: Chunks, floor: int)
    requires
        begins_with(all, front),
        chunks_behind(all, floor),
    ensures
        chunks_behind(front, floor),
{
    assert forall|i: int| 0 <= i < front.len() implies representable((#[trigger] front[i]).0, front[i].1)
        && front[i].1.offset >= floor by {
        assert(all.subrange(0, front.len() as int)[i] == all[i]);
    }
}

/// A leaf of the chunk tree only adds chunks to the cache.
pub proof fn lemma_chunk_leaf_extends(node: Seq<u8>, i: int, chunks: Chunks)
    ensures
        begins_with(walk_chunk_leaf(node, i, chunks).chunks, chunks),
    decreases header_nritems(node) - i,
{
    assert(chunks.subrange(0, chunks.len() as int) =~= chunks);
    if i < header_nritems(node) {
        if let Ok(next) = with_leaf_item(node, leaf_item(node, i), chunks) {
            assert(next.subrange(0, chunks.len() as int) =~= chunks);
            lemma_chunk_leaf_extends(node, i + 1, next);
            lemma_begins_with_chain(walk_chunk_leaf(node, i + 1, next).chunks, next, chunks);
        }
    }
}

/// A walk of the chunk tree only adds chunks to the cache.
pub proof fn lemma_chunk_tree_extends(img: Seq<u8>, node_size: u32, logical: u64, chunks: Chunks, path: Seq<u64>)
    ensures
        begins_with(walk_chunk_tree(img, node_size, logical, chunks, path).chunks, chunks),
    decreases unvisited(img.len(), path).len(), 0int, 0int,
{
    assert(chunks.subrange(0, chunks.len() as int) =~= chunks);
    if let Ok(p) = node_position(img, chunks, node_size, logical) {
        let node = node_bytes(img, node_size, p);
        if !path.contains(p) && node_size >= BTRFS_HEADER_SIZE {
            if header_level(node) == 0 {
                lemma_chunk_leaf_extends(node, 0, chunks);
            } else if node_table_end(node) <= node_size {
                lemma_unvisited_shrinks(img.len(), path, p);
                lemma_chunk_children_extends(img, node_size, node, 0, chunks, path.push(p));
            }
        }
    }
}

/// A walk through the children of a node of the chunk tree only adds
/// chunks to the cache.
pub proof fn lemma_chunk_children_extends(
    img: Seq<u8>,
    node_size: u32,
    node: Seq<u8>,
    i: int,
    chunks: Chunks,
    path: Seq<u64>,
)
    ensures
        begins_with(walk_chunk_children(img, node_size, node, i, chunks, path).chunks, chunks),
    decreases unvisited(img.len(), path).len(), 1int, header_nritems(node) - i,
{
    assert(chunks.subrange(0, chunks.len() as int) =~= chunks);
    if i < header_nritems(node) {
        let child = walk_chunk_tree(img, node_size, node_key_ptr(node, i).blockptr, chunks, path);
        lemma_chunk_tree_extends(img, node_size, node_key_ptr(node, i).blockptr, chunks, path);
        if child.failure is None {
            lemma_chunk_children_extends(img, node_size, node, i + 1, child.chunks, path);
            lemma_begins_with_chain(
                walk_chunk_children(img, node_size, node, i + 1, child.chunks, path).chunks,
                child.chunks,
                chunks,
            );
        }
    }
}

/// Two images that agree from `floor` on hold the same block wherever
/// chunks behind `floor` lead.
pub proof fn lemma_same_block(a: Seq<u8>, b: Seq<u8>, floor: int, chunks: Chunks, node_size: u32, logical: u64)
    requires
        agree_from(a, b, floor),
        chunks_behind(chunks, floor),
    ensures
        node_position(a, chunks, node_size, logical) == node_position(b, chunks, node_size, logical),
        node_position(a, chunks, node_size, logical) matches Ok(p) ==> node_bytes(a, node_size, p) == node_bytes(
            b,
            node_size,
            p,
        ),
{
    lemma_translate_behind(chunks, floor, logical);
    if let Ok(p) = node_position(a, chunks, node_size, logical) {
        assert(node_bytes(a, node_size, p) =~= node_bytes(b, node_size, p));
    }
}

/// A walk of the chunk tree that ends with chunks behind `floor` has read
/// nothing in front of `floor`: it goes the same way through an image that
/// agrees from `floor` on.
pub proof fn lemma_chunk_tree_frame(
    a: Seq<u8>,
    b: Seq<u8>,
    floor: int,
    node_size: u32,
    logical: u64,
    chunks: Chunks,
    path: Seq<u64>,
)
    requires
        agree_from(a, b, floor),
        chunks_behind(walk_chunk_tree(a, node_size, logical, chunks, path).chunks, floor),
    ensures
        walk_chunk_tree(b, node_size, logical, chunks, path) == walk_chunk_tree(a, node_size, logical, chunks, path),
    decreases unvisited(a.len(), path).len(), 0int, 0int,
{
    let all = walk_chunk_tree(a, node_size, logical, chunks, path).chunks;
    lemma_chunk_tree_extends(a, node_size, logical, chunks, path);
    lemma_front_behind(all, chunks, floor);
    lemma_same_block(a, b, floor, chunks, node_size, logical);
    if let Ok(p) = node_position(a, chunks, node_size, logical) {
        let node = node_bytes(a, node_size, p);
        if !path.contains(p) && node_size >= BTRFS_HEADER_SIZE && header_level(node) != 0 && node_table_end(node)
            <= node_size {
            lemma_unvisited_shrinks(a.len(), path, p);
            lemma_chunk_children_frame(a, b, floor, node_size, node, 0, chunks, path.push(p));
        }
    }
}

/// The same for a walk through the children of a node of the chunk tree.
pub proof fn lemma_chunk_children_frame(
    a: Seq<u8>,
    b: Seq<u8>,
    floor: int,
    node_size: u32,
    node: Seq<u8>,
    i: int,
    chunks: Chunks,
    path: Seq<u64>,
)
    requires
        agree_from(a, b, floor),
        chunks_behind(walk_chunk_children(a, node_size, node, i, chunks, path).chunks, floor),
    ensures
        walk_chunk_children(b, node_size, node, i, chunks, path) == walk_chunk_children(
            a,
            node_size,
            node,
            i,
            chunks,
            path,
        ),
    decreases unvisited(a.len(), path).len(), 1int, header_nritems(node) - i,
{
    if i < header_nritems(node) {
        let all = walk_chunk_children(a, node_size, node, i, chunks, path).chunks;
        let blockptr = node_key_ptr(node, i).blockptr;
        let child = walk_chunk_tree(a, node_size, blockptr, chunks, path);
        if child.failure is None {
            lemma_chunk_children_extends(a, node_size, node, i + 1, child.chunks, path);
            lemma_front_behind(all, child.chunks, floor);
            lemma_chunk_tree_frame(a, b, floor, node_size, blockptr, chunks, path);
            lemma_chunk_children_frame(a, b, floor, node_size, node, i + 1, child.chunks, path);
        } else {
            lemma_chunk_tree_frame(a, b, floor, node_size, blockptr, chunks, path);
        }
    }
}

/// A walk of a tree by chunks behind `floor` reads nothing in front of
/// `floor`: it gives the same for an image that agrees from `floor` on.
pub proof fn lemma_tree_frame(
    a: Seq<u8>,
    b: Seq<u8>,
    floor: int,
    chunks: Chunks,
    node_size: u32,
    logical: u64,
    path: Seq<u64>,
)
    requires
        agree_from(a, b, floor),
        chunks_behind(chunks, floor),
    ensures
        walk_tree(b, chunks, node_size, logical, path) == walk_tree(a, chunks, node_size, logical, path),
    decreases unvisited(a.len(), path).len(), 0int, 0int,
{
    lemma_same_block(a, b, floor, chunks, node_size, logical);
    if let Ok(p) = node_position(a, chunks, node_size, logical) {
        let node = node_bytes(a, node_size, p);
        if !path.contains(p) && node_size >= BTRFS_HEADER_SIZE && header_level(node) != 0
            && node_table_end(node) <= node_size {
            lemma_unvisited_shrinks(a.len(), path, p);
            lemma_children_frame(a, b, floor, chunks, node_size, node, 0, path.push(p));
        }
    }
}

/// The same for a walk through the children of a node.
pub proof fn lemma_children_frame(
    a: Seq<u8>,
    b: Seq<u8>,
    floor: int,
    chunks: Chunks,
    node_size: u32,
    node: Seq<u8>,
    i: int,
    path: Seq<u64>,
)
    requires
        agree_from(a, b, floor),
        chunks_behind(chunks, floor),
    ensures
        walk_children(b, chunks, node_size, node, i, path) == walk_children(a, chunks, node_size, node, i, path),
    decreases unvisited(a.len(), path).len(), 1int, header_nritems(node) - i,
{
    if i < header_nritems(node) {
        lemma_tree_frame(a, b, floor, chunks, node_size, node_key_ptr(node, i).blockptr, path);
        lemma_children_frame(a, b, floor, chunks, node_size, node, i + 1, path);
    }
}

/// The same for the trees that the root tree describes.
pub proof fn lemma_root_items_frame(
    a: Seq<u8>,
    b: Seq<u8>,
    floor: int,
    chunks: Chunks,
    node_size: u32,
    node: Seq<u8>,
    k: int,
)
    requires
        agree_from(a, b, floor),
        chunks_behind(chunks, floor),
    ensures
        walk_root_items(b, chunks, node_size, node, k) == walk_root_items(a, chunks, node_size, node, k),
    decreases k,
{
    if k > 0 {
        let item = leaf_item(node, k - 1);
        if item.key.ty == BTRFS_ROOT_ITEM_KEY {
            lemma_tree_frame(
                a,
                b,
                floor,
                chunks,
                node_size,
                BtrfsRootItem::bytenr_at(node, BTRFS_HEADER_SIZE + item.offset),
                Seq::empty(),
            );
        }
        assert(walk_root_item(b, chunks, node_size, node, item) == walk_root_item(a, chunks, node_size, node, item));
        lemma_root_items_frame(a, b, floor, chunks, node_size, node, k - 1);
    }
}

/// The same for the root tree.
pub proof fn lemma_root_tree_frame(a: Seq<u8>, b: Seq<u8>, floor: int, chunks: Chunks, node_size: u32, logical: u64)
    requires
        agree_from(a, b, floor),
        chunks_behind(chunks, floor),
    ensures
        walk_root_tree(b, chunks, node_size, logical) == walk_root_tree(a, chunks, node_size, logical),
{
    lemma_same_block(a, b, floor, chunks, node_size, logical);
    if let Ok(p) = node_position(a, chunks, node_size, logical) {
        let node = node_bytes(a, node_size, p);
        lemma_root_items_frame(a, b, floor, chunks, node_size, node, header_nritems(node));
    }
}

/// Compression looks at nothing in front of the magic of the superblock,
/// unless a chunk leads it there: two images that agree from `floor` on,
/// `floor` being no further than the magic, have the same chunks and the
/// same extents, if the chunks of the one lie behind `floor`.
pub proof fn lemma_compression_frame(a: Seq<u8>, b: Seq<u8>, floor: int)
    requires
        agree_from(a, b, floor),
        floor <= BTRFS_SUPERBLOCK_OFFSET + 64,
        chunk_map(a) matches Ok(chunks) && chunks_behind(chunks, floor),
    ensures
        chunk_map(b) == chunk_map(a),
        image_extents(b, chunk_map(a).unwrap()) == image_extents(a, chunk_map(a).unwrap()),
        superblock_node_size(b) == superblock_node_size(a),
{
    let chunks = chunk_map(a).unwrap();
    assert(superblock_magic(b) =~= superblock_magic(a));
    assert(superblock_sys_array(b) =~= superblock_sys_array(a));
    assert(superblock_sys_array_size(b) == superblock_sys_array_size(a));
    assert(superblock_node_size(b) == superblock_node_size(a));
    assert(superblock_chunk_root(b) == superblock_chunk_root(a));
    assert(superblock_root(b) == superblock_root(a));
    assert(superblock_log_root(b) == superblock_log_root(a));
    let first = bootstrap(superblock_sys_array(a), superblock_sys_array_size(a) as int).unwrap();
    lemma_chunk_tree_frame(
        a,
        b,
        floor,
        superblock_node_size(a),
        superblock_chunk_root(a),
        first,
        Seq::empty(),
    );
    lemma_root_tree_frame(a, b, floor, chunks, superblock_node_size(a), superblock_root(a));
    lemma_tree_frame(a, b, floor, chunks, superblock_node_size(a), superblock_log_root(a), Seq::empty());
}

} // verus!
