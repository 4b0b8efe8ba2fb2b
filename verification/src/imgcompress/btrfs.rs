//! Finding the metadata blocks of a btrfs image.
//!
//! The superblock names the roots of the chunk tree, the root tree and the
//! log tree by logical address. The system chunk array in the superblock
//! maps enough logical addresses to read the chunk tree, which maps the
//! rest.

use crate::bytes::{le_u32, le_u64};
use crate::imgcompress::chunk_tree::{
    overlapping, representable, translate, ChunkTreeCache, ChunkTreeKey, ChunkTreeValue,
};
use crate::imgcompress::error::CompressError;
use crate::imgcompress::structs::{
    BtrfsChunk, BtrfsItem, BtrfsKey, BtrfsRootItem, BtrfsSuperblock, BTRFS_CHUNK_ITEM_KEY, BTRFS_CHUNK_SIZE,
    BTRFS_HEADER_SIZE, BTRFS_ITEM_SIZE, BTRFS_KEY_PTR_SIZE, BTRFS_KEY_SIZE, BTRFS_ROOT_ITEM_BYTENR,
    BTRFS_ROOT_ITEM_KEY, BTRFS_SUPERBLOCK_MAGIC, BTRFS_SUPERBLOCK_OFFSET, BTRFS_SUPERBLOCK_RECORD_SIZE,
    BTRFS_SYSTEM_CHUNK_ARRAY_SIZE,
};
use crate::imgcompress::codec::{zstd_decoded, zstd_encode, zstd_encoded};
use crate::imgcompress::tree::{
    header_level, header_nritems, leaf_item, leaf_table_end, node_key_ptr, node_table_end, parse_btrfs_header,
    parse_btrfs_leaf, parse_btrfs_node,
};
use crate::imgcompress::{
    begins_with, extents_bytes, lemma_begins_with_chain, lemma_begins_with_more, lemma_total_size, total_size,
    CompressedBtrfsImage, CompressedView, MetadataExtent,
};
use vstd::prelude::*;
use vstd::set_lib::{lemma_int_range, lemma_len_subset, set_int_range};

verus! {

/// The entries of a chunk tree cache.
pub type Chunks = Seq<(ChunkTreeKey, ChunkTreeValue)>;

/// The image holds the whole record of the primary superblock.
pub open spec fn holds_superblock(img: Seq<u8>) -> bool {
    BTRFS_SUPERBLOCK_OFFSET + BTRFS_SUPERBLOCK_RECORD_SIZE <= img.len()
}

/// Magic of the primary superblock.
pub open spec fn superblock_magic(img: Seq<u8>) -> Seq<u8> {
    img.subrange(BTRFS_SUPERBLOCK_OFFSET + 64, BTRFS_SUPERBLOCK_OFFSET + 72)
}

/// Whether `magic` marks a superblock.
pub fn is_superblock_magic(magic: &[u8; 8]) -> (same: bool)
    ensures
        same == (magic@ == BTRFS_SUPERBLOCK_MAGIC@),
{
    let mut i: usize = 0;
    while i < 8
        invariant
            i <= 8,
            forall|j: int| 0 <= j < i ==> magic@[j] == BTRFS_SUPERBLOCK_MAGIC@[j],
        decreases 8 - i,
    {
        if magic[i] != BTRFS_SUPERBLOCK_MAGIC[i] {
            return false;
        }
        i += 1;
    }
    assert(magic@ =~= BTRFS_SUPERBLOCK_MAGIC@);
    true
}

/// Reads the primary superblock and tests its magic.
pub fn parse_superblock(img: &[u8]) -> (parsed: Result<BtrfsSuperblock, CompressError>)
    ensures
        match parsed {
            Ok(superblock) => {
                &&& holds_superblock(img@)
                &&& superblock.decodes(img@, BTRFS_SUPERBLOCK_OFFSET as int)
                &&& superblock.magic@ == BTRFS_SUPERBLOCK_MAGIC@
            },
            Err(e) => if holds_superblock(img@) {
                superblock_magic(img@) != BTRFS_SUPERBLOCK_MAGIC@ && e == CompressError::BadMagic
            } else {
                e == CompressError::ImageTooSmall
            },
        },
{
    if img.len() < BTRFS_SUPERBLOCK_RECORD_SIZE || BTRFS_SUPERBLOCK_OFFSET > (img.len()
        - BTRFS_SUPERBLOCK_RECORD_SIZE) as u64 {
        return Err(CompressError::ImageTooSmall);
    }
    let superblock = BtrfsSuperblock::parse(img, BTRFS_SUPERBLOCK_OFFSET as usize);
    if !is_superblock_magic(&superblock.magic) {
        return Err(CompressError::BadMagic);
    }
    Ok(superblock)
}

/// The cache with one more chunk, unless the chunk cannot be stored.
pub open spec fn with_chunk(entries: Chunks, key: ChunkTreeKey, value: ChunkTreeValue) -> Result<
    Chunks,
    CompressError,
> {
    if !representable(key, value) {
        Err(CompressError::ChunkOutOfRange)
    } else if overlapping(entries, key) {
        Err(CompressError::ChunkOverlap)
    } else {
        Ok(entries.push((key, value)))
    }
}

/// What the chunk item at `at`, under a key with offset `logical`, adds to
/// the cache: its logical range and the physical offset of its first
/// stripe. Further stripes are copies and are not looked at.
pub open spec fn chunk_mapping(logical: u64, s: Seq<u8>, at: int) -> (ChunkTreeKey, ChunkTreeValue) {
    (
        ChunkTreeKey { start: logical, size: BtrfsChunk::length_at(s, at) },
        ChunkTreeValue { offset: BtrfsChunk::stripe_offset_at(s, at) },
    )
}

/// The cache after reading the `(BtrfsKey, BtrfsChunk)` pairs of the first
/// `size` bytes of `array` from `at` on. A chunk whose first address is
/// mapped already is skipped.
pub open spec fn bootstrap_from(array: Seq<u8>, size: int, at: int, entries: Chunks) -> Result<
    Chunks,
    CompressError,
>
    decreases size - at,
{
    let chunk_at = at + BTRFS_KEY_SIZE;
    let key = BtrfsKey::decode(array, at);
    let mapping = chunk_mapping(key.offset, array, chunk_at);
    let num_stripes = BtrfsChunk::num_stripes_at(array, chunk_at);
    let next = chunk_at + BtrfsChunk::item_size(num_stripes);
    if at >= size {
        Ok(entries)
    } else if at + BTRFS_KEY_SIZE > size {
        Err(CompressError::ShortKey)
    } else if key.ty != BTRFS_CHUNK_ITEM_KEY {
        Err(CompressError::UnknownItemType)
    } else if chunk_at + BTRFS_CHUNK_SIZE > size {
        Err(CompressError::ShortChunk)
    } else if num_stripes == 0 {
        Err(CompressError::NoStripes)
    } else {
        let added = if translate(entries, key.offset) is None {
            with_chunk(entries, mapping.0, mapping.1)
        } else {
            Ok(entries)
        };
        match added {
            Err(e) => Err(e),
            Ok(entries) => if next > size {
                Err(CompressError::ShortStripes)
            } else {
                bootstrap_from(array, size, next, entries)
            },
        }
    }
}

/// The cache that the system chunk array of a superblock gives.
pub open spec fn bootstrap(array: Seq<u8>, size: int) -> Result<Chunks, CompressError> {
    if size > BTRFS_SYSTEM_CHUNK_ARRAY_SIZE {
        Err(CompressError::SysArrayTooLarge)
    } else {
        bootstrap_from(array, size, 0, Seq::empty())
    }
}

/// Adds a chunk to the cache, unless it cannot be stored.
pub fn add_chunk(cache: &mut ChunkTreeCache, key: ChunkTreeKey, value: ChunkTreeValue) -> (added: Result<
    (),
    CompressError,
>)
    requires
        old(cache).wf(),
    ensures
        final(cache).wf(),
        match added {
            Ok(()) => with_chunk(old(cache)@, key, value) == Ok::<Chunks, CompressError>(final(cache)@),
            Err(e) => with_chunk(old(cache)@, key, value) == Err::<Chunks, CompressError>(e) && final(cache)@
                == old(cache)@,
        },
{
    if key.size > u64::MAX - key.start || (key.size > 0 && value.offset > u64::MAX - (key.size - 1)) {
        return Err(CompressError::ChunkOutOfRange);
    }
    if cache.contains_overlapping(&key) {
        return Err(CompressError::ChunkOverlap);
    }
    cache.insert(key, value);
    Ok(())
}

/// Builds the first chunk tree cache from the system chunk array of the
/// superblock.
pub fn bootstrap_chunk_tree(superblock: &BtrfsSuperblock) -> (cache: Result<ChunkTreeCache, CompressError>)
    ensures
        match cache {
            Ok(c) => c.wf() && bootstrap(superblock.sys_chunk_array@, superblock.sys_chunk_array_size as int)
                == Ok::<Chunks, CompressError>(c@),
            Err(e) => bootstrap(superblock.sys_chunk_array@, superblock.sys_chunk_array_size as int) == Err::<
                Chunks,
                CompressError,
            >(e),
        },
{
    if superblock.sys_chunk_array_size as u64 > BTRFS_SYSTEM_CHUNK_ARRAY_SIZE as u64 {
        return Err(CompressError::SysArrayTooLarge);
    }
    let array_size: usize = superblock.sys_chunk_array_size as usize;
    let array: &[u8] = superblock.sys_chunk_array.as_slice();
    let mut offset: usize = 0;
    let mut chunk_tree_cache = ChunkTreeCache::default();

    while offset < array_size
        invariant
            offset <= array_size <= BTRFS_SYSTEM_CHUNK_ARRAY_SIZE,
            array@ == superblock.sys_chunk_array@,
            array_size == superblock.sys_chunk_array_size,
            chunk_tree_cache.wf(),
            bootstrap_from(array@, array_size as int, offset as int, chunk_tree_cache@) == bootstrap_from(
                array@,
                array_size as int,
                0,
                Seq::empty(),
            ),
        decreases array_size - offset,
    {
        if offset + BTRFS_KEY_SIZE > array_size {
            return Err(CompressError::ShortKey);
        }
        let key = BtrfsKey::parse(array, offset);
        if key.ty != BTRFS_CHUNK_ITEM_KEY {
            return Err(CompressError::UnknownItemType);
        }
        let chunk_at: usize = offset + BTRFS_KEY_SIZE;
        if chunk_at + BTRFS_CHUNK_SIZE > array_size {
            return Err(CompressError::ShortChunk);
        }
        let chunk = BtrfsChunk::parse(array, chunk_at);
        proof {
            chunk.lemma_decoded_fields(array@, chunk_at as int);
        }
        if chunk.num_stripes == 0 {
            return Err(CompressError::NoStripes);
        }
        let logical = key.offset;
        if chunk_tree_cache.offset(logical).is_none() {
            add_chunk(
                &mut chunk_tree_cache,
                ChunkTreeKey { start: logical, size: chunk.length },
                ChunkTreeValue { offset: chunk.stripe.offset },
            )?;
        }
        // The further stripes are skipped, not read.
        let chunk_item_size: usize = BTRFS_CHUNK_SIZE + 32 * (chunk.num_stripes as usize - 1);
        if chunk_at + chunk_item_size > array_size {
            return Err(CompressError::ShortStripes);
        }
        offset = chunk_at + chunk_item_size;
    }
    Ok(chunk_tree_cache)
}


/// The numbers of stripes of those chunk items in the first `size` bytes
/// of `array`, from `at` on, that have more than one stripe. The row ends
/// where the array ends or where it stops being a row of
/// `(BtrfsKey, BtrfsChunk)` pairs.
pub open spec fn striped_from(array: Seq<u8>, size: int, at: int) -> Seq<u16>
    decreases size - at,
{
    let chunk_at = at + BTRFS_KEY_SIZE;
    let num_stripes = BtrfsChunk::num_stripes_at(array, chunk_at);
    let next = chunk_at + BtrfsChunk::item_size(num_stripes);
    let here = if num_stripes > 1 {
        seq![num_stripes]
    } else {
        Seq::empty()
    };
    if at >= size || chunk_at > size || BtrfsKey::decode(array, at).ty != BTRFS_CHUNK_ITEM_KEY || chunk_at
        + BTRFS_CHUNK_SIZE > size || num_stripes == 0 {
        Seq::empty()
    } else if next > size {
        here
    } else {
        here + striped_from(array, size, next)
    }
}

/// The numbers of stripes of the chunks of a system chunk array that have
/// more than one stripe.
pub open spec fn striped_chunks(array: Seq<u8>, size: int) -> Seq<u16> {
    if size > BTRFS_SYSTEM_CHUNK_ARRAY_SIZE {
        Seq::empty()
    } else {
        striped_from(array, size, 0)
    }
}

/// Lists the numbers of stripes of the chunks of the system chunk array
/// that have more than one stripe. Of each of them only the first stripe
/// is looked at, which is worth a warning to whoever compresses the image.
pub fn striped_system_chunks(superblock: &BtrfsSuperblock) -> (counts: Vec<u16>)
    ensures
        counts@ == striped_chunks(superblock.sys_chunk_array@, superblock.sys_chunk_array_size as int),
{
    let mut counts: Vec<u16> = Vec::new();
    if superblock.sys_chunk_array_size as u64 > BTRFS_SYSTEM_CHUNK_ARRAY_SIZE as u64 {
        return counts;
    }
    let array_size: usize = superblock.sys_chunk_array_size as usize;
    let array: &[u8] = superblock.sys_chunk_array.as_slice();
    let mut offset: usize = 0;
    assert(counts@ + striped_from(array@, array_size as int, 0) =~= striped_from(array@, array_size as int, 0));

    while offset < array_size
        invariant
            offset <= array_size <= BTRFS_SYSTEM_CHUNK_ARRAY_SIZE,
            array@ == superblock.sys_chunk_array@,
            array_size == superblock.sys_chunk_array_size,
            counts@ + striped_from(array@, array_size as int, offset as int) == striped_from(
                array@,
                array_size as int,
                0,
            ),
        decreases array_size - offset,
    {
        let ghost before = counts@;
        let ghost rest = striped_from(array@, array_size as int, offset as int);
        assert(before + Seq::<u16>::empty() =~= before);
        let chunk_at: usize = offset + BTRFS_KEY_SIZE;
        if chunk_at > array_size || BtrfsKey::parse(array, offset).ty != BTRFS_CHUNK_ITEM_KEY || chunk_at
            + BTRFS_CHUNK_SIZE > array_size {
            return counts;
        }
        let chunk = BtrfsChunk::parse(array, chunk_at);
        proof {
            chunk.lemma_decoded_fields(array@, chunk_at as int);
        }
        if chunk.num_stripes == 0 {
            return counts;
        }
        if chunk.num_stripes > 1 {
            counts.push(chunk.num_stripes);
            assert(counts@ =~= before + seq![chunk.num_stripes]);
        }
        let next: usize = chunk_at + BTRFS_CHUNK_SIZE + 32 * (chunk.num_stripes as usize - 1);
        if next > array_size {
            return counts;
        }
        proof {
            let here = counts@.subrange(before.len() as int, counts@.len() as int);
            assert(counts@ =~= before + here);
            assert(before + (here + striped_from(array@, array_size as int, next as int)) =~= counts@ + striped_from(
                array@,
                array_size as int,
                next as int,
            ));
        }
        offset = next;
    }
    assert(counts@ + Seq::<u16>::empty() =~= counts@);
    counts
}

/// Positions of the image that are not on `path`.
pub open spec fn unvisited(len: nat, path: Seq<u64>) -> Set<int> {
    Set::new(|p: int| 0 <= p < len && forall|i: int| 0 <= i < path.len() ==> path[i] != p)
}

/// A step down the tree leaves fewer positions to visit.
pub proof fn lemma_unvisited_shrinks(len: nat, path: Seq<u64>, p: u64)
    requires
        p < len,
        !path.contains(p),
    ensures
        unvisited(len, path.push(p)).len() < unvisited(len, path).len(),
{
    let before = unvisited(len, path);
    let after = unvisited(len, path.push(p));
    lemma_int_range(0, len as int);
    assert(before.subset_of(set_int_range(0, len as int)));
    lemma_len_subset(before, set_int_range(0, len as int));
    let longer = path.push(p);
    assert forall|q: int| after.contains(q) <==> before.remove(p as int).contains(q) by {
        if after.contains(q) {
            assert(longer[path.len() as int] == p);
            assert forall|i: int| 0 <= i < path.len() implies path[i] != q by {
                assert(longer[i] == path[i]);
            }
        }
        if before.remove(p as int).contains(q) {
            assert forall|i: int| 0 <= i < longer.len() implies longer[i] != q by {
                if i < path.len() {
                    assert(longer[i] == path[i]);
                }
            }
        }
    }
    assert(after =~= before.remove(p as int));
    assert(before.contains(p as int));
}

/// Where the tree block at `logical` starts in the image.
pub open spec fn node_position(img: Seq<u8>, chunks: Chunks, node_size: u32, logical: u64) -> Result<
    u64,
    CompressError,
> {
    match translate(chunks, logical) {
        None => Err(CompressError::Unmapped),
        Some(p) => if p + node_size > img.len() {
            Err(CompressError::ShortRead)
        } else {
            Ok(p)
        },
    }
}

/// The `node_size` bytes of the image from `p` on.
pub open spec fn node_bytes(img: Seq<u8>, node_size: u32, p: u64) -> Seq<u8> {
    img.subrange(p as int, p + node_size)
}

/// Finds the tree block at `logical` and borrows its bytes from the image.
pub fn read_root_node<'a>(img: &'a [u8], logical: u64, cache: &ChunkTreeCache, node_size: u32) -> (found:
    Result<(u64, &'a [u8]), CompressError>)
    requires
        cache.wf(),
    ensures
        match found {
            Ok((p, node)) => node_position(img@, cache@, node_size, logical) == Ok::<u64, CompressError>(p)
                && node@ == node_bytes(img@, node_size, p),
            Err(e) => node_position(img@, cache@, node_size, logical) == Err::<u64, CompressError>(e),
        },
{
    let physical: u64 = match cache.offset(logical) {
        Some(p) => p,
        None => {
            return Err(CompressError::Unmapped);
        },
    };
    let len: u64 = img.len() as u64;
    if physical > len || node_size as u64 > len - physical {
        return Err(CompressError::ShortRead);
    }
    let start: usize = physical as usize;
    Ok((physical, &img[start..start + node_size as usize]))
}

/// The cache after reading `item` of the chunk tree leaf `node`: a chunk
/// item adds its chunk, any other item adds nothing.
pub open spec fn with_leaf_item(node: Seq<u8>, item: BtrfsItem, chunks: Chunks) -> Result<Chunks, CompressError> {
    let at = BTRFS_HEADER_SIZE + item.offset;
    let mapping = chunk_mapping(item.key.offset, node, at);
    if item.key.ty != BTRFS_CHUNK_ITEM_KEY {
        Ok(chunks)
    } else if at + BTRFS_CHUNK_SIZE > node.len() {
        Err(CompressError::ItemOutOfBounds)
    } else {
        with_chunk(chunks, mapping.0, mapping.1)
    }
}

/// The cache at the end of a walk of the chunk tree, and the error that
/// ended the walk, if one did. A walk that fails has still added the
/// chunks that it found before.
pub struct ChunkWalk {
    pub chunks: Chunks,
    pub failure: Option<CompressError>,
}

impl ChunkWalk {
    /// The walk that ends well with `chunks`.
    pub open spec fn done(chunks: Chunks) -> ChunkWalk {
        ChunkWalk { chunks, failure: None }
    }

    /// The walk that fails with `e` when the cache holds `chunks`.
    pub open spec fn failed(chunks: Chunks, e: CompressError) -> ChunkWalk {
        ChunkWalk { chunks, failure: Some(e) }
    }

    /// How the walk ends.
    pub open spec fn ended(self) -> Result<(), CompressError> {
        match self.failure {
            None => Ok(()),
            Some(e) => Err(e),
        }
    }

    /// The chunks of a walk that ends well, the error of one that fails.
    pub open spec fn outcome(self) -> Result<Chunks, CompressError> {
        match self.failure {
            None => Ok(self.chunks),
            Some(e) => Err(e),
        }
    }
}

/// The walk of the items of the chunk tree leaf `node` from item `i` on,
/// begun with `chunks` in the cache. It ends with the first item that
/// cannot be read.
pub open spec fn walk_chunk_leaf(node: Seq<u8>, i: int, chunks: Chunks) -> ChunkWalk
    decreases header_nritems(node) - i,
{
    if i >= header_nritems(node) {
        ChunkWalk::done(chunks)
    } else {
        match with_leaf_item(node, leaf_item(node, i), chunks) {
            Err(e) => ChunkWalk::failed(chunks, e),
            Ok(chunks) => walk_chunk_leaf(node, i + 1, chunks),
        }
    }
}

/// Adds the chunk of `item`, an entry of the item table of the chunk tree
/// leaf `node`, to the cache.
pub fn read_leaf_item(node: &[u8], item: &BtrfsItem, cache: &mut ChunkTreeCache) -> (read: Result<
    (),
    CompressError,
>)
    requires
        old(cache).wf(),
    ensures
        final(cache).wf(),
        match read {
            Ok(()) => with_leaf_item(node@, *item, old(cache)@) == Ok::<Chunks, CompressError>(final(cache)@),
            Err(e) => with_leaf_item(node@, *item, old(cache)@) == Err::<Chunks, CompressError>(e) && final(cache)@
                == old(cache)@,
        },
{
    if item.key.ty != BTRFS_CHUNK_ITEM_KEY {
        return Ok(());
    }
    let at: u64 = BTRFS_HEADER_SIZE as u64 + item.offset as u64;
    if at + BTRFS_CHUNK_SIZE as u64 > node.len() as u64 {
        return Err(CompressError::ItemOutOfBounds);
    }
    let chunk = BtrfsChunk::parse(node, at as usize);
    proof {
        chunk.lemma_decoded_fields(node@, at as int);
    }
    add_chunk(
        cache,
        ChunkTreeKey { start: item.key.offset, size: chunk.length },
        ChunkTreeValue { offset: chunk.stripe.offset },
    )
}

/// The walk of the part of the chunk tree below the block at `logical`,
/// begun with `chunks` in the cache. Addresses are translated with what
/// the walk has found so far. `path` holds the positions of the blocks
/// above.
pub open spec fn walk_chunk_tree(img: Seq<u8>, node_size: u32, logical: u64, chunks: Chunks, path: Seq<u64>)
    -> ChunkWalk
    decreases unvisited(img.len(), path).len(), 0int, 0int,
{
    match node_position(img, chunks, node_size, logical) {
        Err(e) => ChunkWalk::failed(chunks, e),
        Ok(p) => {
            let node = node_bytes(img, node_size, p);
            if path.contains(p) {
                ChunkWalk::failed(chunks, CompressError::Cycle)
            } else if node_size < BTRFS_HEADER_SIZE {
                ChunkWalk::failed(chunks, CompressError::ShortHeader)
            } else if header_level(node) == 0 {
                if leaf_table_end(node) > node_size {
                    ChunkWalk::failed(chunks, CompressError::ShortNode)
                } else {
                    walk_chunk_leaf(node, 0, chunks)
                }
            } else {
                if node_table_end(node) > node_size {
                    ChunkWalk::failed(chunks, CompressError::ShortNode)
                } else {
                    proof {
                        lemma_unvisited_shrinks(img.len(), path, p);
                    }
                    walk_chunk_children(img, node_size, node, 0, chunks, path.push(p))
                }
            }
        },
    }
}

/// The walk of the children of the internal node `node` from child `i` on,
/// begun with `chunks` in the cache. It ends with the first child whose
/// walk fails.
pub open spec fn walk_chunk_children(
    img: Seq<u8>,
    node_size: u32,
    node: Seq<u8>,
    i: int,
    chunks: Chunks,
    path: Seq<u64>,
) -> ChunkWalk
    decreases unvisited(img.len(), path).len(), 1int, header_nritems(node) - i,
{
    if i >= header_nritems(node) {
        ChunkWalk::done(chunks)
    } else {
        let child = walk_chunk_tree(img, node_size, node_key_ptr(node, i).blockptr, chunks, path);
        if child.failure is Some {
            child
        } else {
            walk_chunk_children(img, node_size, node, i + 1, child.chunks, path)
        }
    }
}

/// Whether `p` is on `path`.
pub fn on_path(path: &Vec<u64>, p: u64) -> (found: bool)
    ensures
        found == path@.contains(p),
{
    let mut i: usize = 0;
    while i < path.len()
        invariant
            i <= path.len(),
            forall|j: int| 0 <= j < i ==> path@[j] != p,
        decreases path.len() - i,
    {
        if path[i] == p {
            return true;
        }
        i += 1;
    }
    false
}

/// Walks the part of the chunk tree below the block at `logical` and adds
/// every chunk it finds to the cache: see [`walk_chunk_tree`]. `path` holds
/// the positions of the blocks above. A walk that fails has added the
/// chunks that it found before.
pub fn read_chunk_tree(
    img: &[u8],
    logical: u64,
    chunk_tree_cache: &mut ChunkTreeCache,
    node_size: u32,
    path: &mut Vec<u64>,
) -> (walked: Result<(), CompressError>)
    requires
        old(chunk_tree_cache).wf(),
    ensures
        final(chunk_tree_cache)@ == walk_chunk_tree(
            img@,
            node_size,
            logical,
            old(chunk_tree_cache)@,
            old(path)@,
        ).chunks,
        walked == walk_chunk_tree(img@, node_size, logical, old(chunk_tree_cache)@, old(path)@).ended(),
        final(chunk_tree_cache).wf(),
        begins_with(final(chunk_tree_cache)@, old(chunk_tree_cache)@),
        final(path)@ == old(path)@,
    decreases unvisited(img@.len(), old(path)@).len(),
{
    let ghost entry = chunk_tree_cache@;
    let ghost goal = walk_chunk_tree(img@, node_size, logical, entry, old(path)@);
    proof {
        lemma_begins_with_more(entry, Seq::empty());
    }
    let (physical, node) = read_root_node(img, logical, chunk_tree_cache, node_size)?;
    if on_path(path, physical) {
        return Err(CompressError::Cycle);
    }
    let header = parse_btrfs_header(node)?;
    if header.level == 0 {
        let items = parse_btrfs_leaf(node)?;
        assert(goal == walk_chunk_leaf(node@, 0, entry));
        let mut i: usize = 0;
        while i < items.len()
            invariant
                i <= items.len(),
                items@.len() == header_nritems(node@),
                forall|j: int| 0 <= j < items@.len() ==> items@[j] == leaf_item(node@, j),
                chunk_tree_cache.wf(),
                begins_with(chunk_tree_cache@, old(chunk_tree_cache)@),
                path@ == old(path)@,
                walk_chunk_leaf(node@, i as int, chunk_tree_cache@) == goal,
                goal == walk_chunk_tree(img@, node_size, logical, old(chunk_tree_cache)@, old(path)@),
            decreases items.len() - i,
        {
            let ghost before = chunk_tree_cache@;
            read_leaf_item(node, &items[i], chunk_tree_cache)?;
            proof {
                lemma_begins_with_more(before, seq![chunk_tree_cache@.last()]);
                assert(chunk_tree_cache@ == before || chunk_tree_cache@ == before + seq![chunk_tree_cache@.last()]);
                lemma_begins_with_chain(chunk_tree_cache@, before, old(chunk_tree_cache)@);
            }
            i += 1;
        }
    } else {
        let ptrs = parse_btrfs_node(node)?;
        proof {
            lemma_unvisited_shrinks(img@.len(), path@, physical);
        }
        path.push(physical);
        assert(goal == walk_chunk_children(img@, node_size, node@, 0, entry, path@));
        let mut i: usize = 0;
        while i < ptrs.len()
            invariant
                i <= ptrs.len(),
                ptrs@.len() == header_nritems(node@),
                forall|j: int| 0 <= j < ptrs@.len() ==> ptrs@[j] == node_key_ptr(node@, j),
                chunk_tree_cache.wf(),
                begins_with(chunk_tree_cache@, old(chunk_tree_cache)@),
                path@ == old(path)@.push(physical),
                unvisited(img@.len(), path@).len() < unvisited(img@.len(), old(path)@).len(),
                walk_chunk_children(img@, node_size, node@, i as int, chunk_tree_cache@, path@) == goal,
                goal == walk_chunk_tree(img@, node_size, logical, old(chunk_tree_cache)@, old(path)@),
            decreases ptrs.len() - i,
        {
            let ptr = ptrs[i];
            let ghost before = chunk_tree_cache@;
            let walked = read_chunk_tree(img, ptr.blockptr, chunk_tree_cache, node_size, path);
            proof {
                lemma_begins_with_chain(chunk_tree_cache@, before, old(chunk_tree_cache)@);
            }
            match walked {
                Ok(()) => {},
                Err(e) => {
                    path.pop();
                    assert(path@ == old(path)@);
                    return Err(e);
                },
            }
            i += 1;
        }
        path.pop();
        assert(path@ == old(path)@);
    }
    Ok(())
}


/// Extents of a walk, or the error that ended it.
pub type Walked = Result<Seq<MetadataExtent>, CompressError>;

/// What a walk has recorded when it ends, and the error that ended it, if
/// one did. A walk that fails has still recorded the blocks that it
/// reached before.
pub struct Walk {
    pub extents: Seq<MetadataExtent>,
    pub failure: Option<CompressError>,
}

impl Walk {
    /// The walk that records `extents` and ends well.
    pub open spec fn done(extents: Seq<MetadataExtent>) -> Walk {
        Walk { extents, failure: None }
    }

    /// The walk that fails with `e` before it has recorded anything.
    pub open spec fn failed(e: CompressError) -> Walk {
        Walk { extents: Seq::empty(), failure: Some(e) }
    }

    /// The walk `rest`, begun when `first` was recorded already.
    pub open spec fn after(first: Seq<MetadataExtent>, rest: Walk) -> Walk {
        Walk { extents: first + rest.extents, failure: rest.failure }
    }

    /// This walk and, where it ends well, the walk `next` behind it.
    pub open spec fn followed_by(self, next: Walk) -> Walk {
        if self.failure is Some {
            self
        } else {
            Walk::after(self.extents, next)
        }
    }

    /// How the walk ends.
    pub open spec fn ended(self) -> Result<(), CompressError> {
        match self.failure {
            None => Ok(()),
            Some(e) => Err(e),
        }
    }

    /// The extents of a walk that ends well, the error of one that fails.
    pub open spec fn outcome(self) -> Walked {
        match self.failure {
            None => Ok(self.extents),
            Some(e) => Err(e),
        }
    }
}

/// The extent that keeps the first `size` bytes of the block at `p`.
pub open spec fn block_extent(p: u64, size: int) -> MetadataExtent {
    MetadataExtent { needs_csum_fixup: true, offset: p, size: size as u64 }
}

/// The walk of the part of a tree below the block at `logical`: it records
/// the block first, then walks its children from first to last. A leaf is
/// recorded with its header and item table, an internal node with its
/// header and key pointers. A block that cannot be read is not recorded
/// and ends the walk. `path` holds the positions of the blocks above.
pub open spec fn walk_tree(img: Seq<u8>, chunks: Chunks, node_size: u32, logical: u64, path: Seq<u64>) -> Walk
    decreases unvisited(img.len(), path).len(), 0int, 0int,
{
    match node_position(img, chunks, node_size, logical) {
        Err(e) => Walk::failed(e),
        Ok(p) => {
            let node = node_bytes(img, node_size, p);
            if path.contains(p) {
                Walk::failed(CompressError::Cycle)
            } else if node_size < BTRFS_HEADER_SIZE {
                Walk::failed(CompressError::ShortHeader)
            } else if header_level(node) == 0 {
                if leaf_table_end(node) > node_size {
                    Walk::failed(CompressError::ShortNode)
                } else {
                    Walk::done(seq![block_extent(p, leaf_table_end(node))])
                }
            } else {
                if node_table_end(node) > node_size {
                    Walk::failed(CompressError::ShortNode)
                } else {
                    proof {
                        lemma_unvisited_shrinks(img.len(), path, p);
                    }
                    Walk::after(
                        seq![block_extent(p, node_table_end(node))],
                        walk_children(img, chunks, node_size, node, 0, path.push(p)),
                    )
                }
            }
        },
    }
}

/// The walk of the parts of a tree below the children of the internal node
/// `node`, from child `i` on. It ends with the first child whose walk
/// fails.
pub open spec fn walk_children(
    img: Seq<u8>,
    chunks: Chunks,
    node_size: u32,
    node: Seq<u8>,
    i: int,
    path: Seq<u64>,
) -> Walk
    decreases unvisited(img.len(), path).len(), 1int, header_nritems(node) - i,
{
    if i >= header_nritems(node) {
        Walk::done(Seq::empty())
    } else {
        walk_tree(img, chunks, node_size, node_key_ptr(node, i).blockptr, path).followed_by(
            walk_children(img, chunks, node_size, node, i + 1, path),
        )
    }
}

/// The walk of the tree that `item`, an entry of the item table of the root
/// tree leaf `node`, describes. Only root items describe trees.
pub open spec fn walk_root_item(img: Seq<u8>, chunks: Chunks, node_size: u32, node: Seq<u8>, item: BtrfsItem)
    -> Walk {
    let at = BTRFS_HEADER_SIZE + item.offset;
    if item.key.ty != BTRFS_ROOT_ITEM_KEY {
        Walk::done(Seq::empty())
    } else if at + BTRFS_ROOT_ITEM_BYTENR + 8 > node.len() {
        Walk::failed(CompressError::ItemOutOfBounds)
    } else {
        walk_tree(img, chunks, node_size, BtrfsRootItem::bytenr_at(node, at), Seq::empty())
    }
}

/// The walk of the trees that the first `k` items of the root tree leaf
/// `node` describe, the tree of the last of these items first. It ends
/// with the first tree whose walk fails.
pub open spec fn walk_root_items(img: Seq<u8>, chunks: Chunks, node_size: u32, node: Seq<u8>, k: int) -> Walk
    decreases k,
{
    if k <= 0 {
        Walk::done(Seq::empty())
    } else {
        walk_root_item(img, chunks, node_size, node, leaf_item(node, k - 1)).followed_by(
            walk_root_items(img, chunks, node_size, node, k - 1),
        )
    }
}

/// The walk of the root tree, whose root at `logical` must be a leaf, and
/// of all the trees that it describes. A root that cannot be read or is no
/// leaf is not recorded.
pub open spec fn walk_root_tree(img: Seq<u8>, chunks: Chunks, node_size: u32, logical: u64) -> Walk {
    match node_position(img, chunks, node_size, logical) {
        Err(e) => Walk::failed(e),
        Ok(p) => {
            let node = node_bytes(img, node_size, p);
            if node_size < BTRFS_HEADER_SIZE {
                Walk::failed(CompressError::ShortHeader)
            } else if header_level(node) != 0 {
                Walk::failed(CompressError::RootNotLeaf)
            } else if leaf_table_end(node) > node_size {
                Walk::failed(CompressError::ShortNode)
            } else {
                Walk::after(
                    seq![block_extent(p, leaf_table_end(node))],
                    walk_root_items(img, chunks, node_size, node, header_nritems(node)),
                )
            }
        },
    }
}

/// Recording `a` and then `b` before a walk is recording `a + b` before
/// it, and a walk that records nothing adds nothing.
pub proof fn lemma_after_twice(a: Seq<MetadataExtent>, b: Seq<MetadataExtent>, rest: Walk)
    ensures
        Walk::after(a, Walk::after(b, rest)) == Walk::after(a + b, rest),
        Walk::after(a, Walk::done(Seq::empty())) == Walk::done(a),
{
    assert(a + (b + rest.extents) =~= (a + b) + rest.extents);
    assert(a + Seq::<MetadataExtent>::empty() =~= a);
}

/// Root of the root tree, as the primary superblock of `img` names it.
pub open spec fn superblock_root(img: Seq<u8>) -> u64 {
    le_u64(img, BTRFS_SUPERBLOCK_OFFSET + 80) as u64
}

/// Root of the chunk tree, as the primary superblock of `img` names it.
pub open spec fn superblock_chunk_root(img: Seq<u8>) -> u64 {
    le_u64(img, BTRFS_SUPERBLOCK_OFFSET + 88) as u64
}

/// Root of the log tree, as the primary superblock of `img` names it; zero
/// where there is no log tree.
pub open spec fn superblock_log_root(img: Seq<u8>) -> u64 {
    le_u64(img, BTRFS_SUPERBLOCK_OFFSET + 96) as u64
}

/// Size of a tree block, as the primary superblock of `img` gives it.
pub open spec fn superblock_node_size(img: Seq<u8>) -> u32 {
    le_u32(img, BTRFS_SUPERBLOCK_OFFSET + 148) as u32
}

/// Number of bytes in use of the system chunk array of `img`.
pub open spec fn superblock_sys_array_size(img: Seq<u8>) -> u32 {
    le_u32(img, BTRFS_SUPERBLOCK_OFFSET + 160) as u32
}

/// The system chunk array of `img`.
pub open spec fn superblock_sys_array(img: Seq<u8>) -> Seq<u8> {
    img.subrange(BTRFS_SUPERBLOCK_OFFSET + 811, BTRFS_SUPERBLOCK_OFFSET + 2859)
}

/// The chunks of `img`: those of the system chunk array, then those of the
/// chunk tree.
pub open spec fn chunk_map(img: Seq<u8>) -> Result<Chunks, CompressError> {
    if !holds_superblock(img) {
        Err(CompressError::ImageTooSmall)
    } else if superblock_magic(img) != BTRFS_SUPERBLOCK_MAGIC@ {
        Err(CompressError::BadMagic)
    } else {
        match bootstrap(superblock_sys_array(img), superblock_sys_array_size(img) as int) {
            Err(e) => Err(e),
            Ok(chunks) => walk_chunk_tree(
                img,
                superblock_node_size(img),
                superblock_chunk_root(img),
                chunks,
                Seq::empty(),
            ).outcome(),
        }
    }
}

/// The extent that keeps the record of the primary superblock.
pub open spec fn superblock_extent() -> MetadataExtent {
    MetadataExtent {
        needs_csum_fixup: true,
        offset: BTRFS_SUPERBLOCK_OFFSET,
        size: BTRFS_SUPERBLOCK_RECORD_SIZE as u64,
    }
}

/// The walk of all metadata of `img`, whose chunks are `chunks`: the
/// superblock, the root tree with the trees that it describes, and the log
/// tree where there is one.
pub open spec fn walk_image(img: Seq<u8>, chunks: Chunks) -> Walk {
    let node_size = superblock_node_size(img);
    let log_root = superblock_log_root(img);
    Walk::after(
        seq![superblock_extent()],
        walk_root_tree(img, chunks, node_size, superblock_root(img)).followed_by(
            if log_root == 0 {
                Walk::done(Seq::empty())
            } else {
                walk_tree(img, chunks, node_size, log_root, Seq::empty())
            },
        ),
    )
}

/// The metadata extents of `img`, whose chunks are `chunks`, or the error
/// that ends the walk.
pub open spec fn image_extents(img: Seq<u8>, chunks: Chunks) -> Walked {
    walk_image(img, chunks).outcome()
}

/// Level at which the base image is compressed: the default of the codec.
pub const BASE_COMPRESSION_LEVEL: i32 = 0;

/// The compressed form of `img`, whose chunks are `chunks`: its metadata
/// extents with their bytes, the whole image as compressed base, and the
/// size of its tree blocks.
pub open spec fn compressed_with(img: Seq<u8>, chunks: Chunks) -> Result<CompressedView, CompressError> {
    match image_extents(img, chunks) {
        Err(e) => Err(e),
        Ok(extents) => match zstd_encoded(img, BASE_COMPRESSION_LEVEL as int) {
            None => Err(CompressError::Codec),
            Some(base) => Ok(
                CompressedView {
                    base,
                    metadata: extents,
                    data: extents_bytes(img, extents),
                    node_size: superblock_node_size(img) as nat,
                },
            ),
        },
    }
}

/// The compressed form of `img`.
pub open spec fn compressed(img: Seq<u8>) -> Result<CompressedView, CompressError> {
    match chunk_map(img) {
        Err(e) => Err(e),
        Ok(chunks) => compressed_with(img, chunks),
    }
}

/// A btrfs image whose superblock and chunk tree have been read.
pub struct Btrfs<'a> {
    image: &'a [u8],
    superblock: BtrfsSuperblock,
    chunk_tree_cache: ChunkTreeCache,
}

impl<'a> Btrfs<'a> {
    /// The bytes of the image.
    pub closed spec fn image(&self) -> Seq<u8> {
        self.image@
    }

    /// The chunks of the image.
    pub closed spec fn chunks(&self) -> Chunks {
        self.chunk_tree_cache@
    }

    /// The superblock and the chunks are those of the image.
    #[verifier::opaque]
    pub closed spec fn wf(&self) -> bool {
        &&& holds_superblock(self.image@)
        &&& self.superblock.decodes(self.image@, BTRFS_SUPERBLOCK_OFFSET as int)
        &&& self.chunk_tree_cache.wf()
        &&& chunk_map(self.image@) == Ok::<Chunks, CompressError>(self.chunk_tree_cache@)
    }

    /// What the walks need of a well-formed value.
    proof fn lemma_wf(&self)
        requires
            self.wf(),
        ensures
            holds_superblock(self.image@),
            self.chunk_tree_cache.wf(),
            self.superblock.node_size == superblock_node_size(self.image@),
            self.superblock.root == superblock_root(self.image@),
            self.superblock.log_root == superblock_log_root(self.image@),
            chunk_map(self.image@) == Ok::<Chunks, CompressError>(self.chunk_tree_cache@),
    {
        reveal(Btrfs::wf);
    }

    /// Reads the superblock of `img` and all of its chunk tree, which every
    /// later step needs to find a tree block.
    pub fn new(img: &'a [u8]) -> (opened: Result<Self, CompressError>)
        ensures
            match opened {
                Ok(btrfs) => btrfs.wf() && btrfs.image() == img@ && chunk_map(img@) == Ok::<
                    Chunks,
                    CompressError,
                >(btrfs.chunks()),
                Err(e) => chunk_map(img@) == Err::<Chunks, CompressError>(e),
            },
    {
        let superblock = parse_superblock(img)?;
        assert(superblock.sys_chunk_array@ == superblock_sys_array(img@));
        let mut chunk_tree_cache = bootstrap_chunk_tree(&superblock)?;
        let mut path: Vec<u64> = Vec::new();
        read_chunk_tree(img, superblock.chunk_root, &mut chunk_tree_cache, superblock.node_size, &mut path)?;
        let btrfs = Btrfs { image: img, superblock, chunk_tree_cache };
        proof {
            reveal(Btrfs::wf);
        }
        Ok(btrfs)
    }

    /// Appends the first `size` bytes of the block `node`, which lies at
    /// `physical`, to `compressed`.
    fn record_block(&self, compressed: &mut CompressedBtrfsImage, physical: u64, node: &[u8], size: usize)
        requires
            size <= node.len(),
            physical + node.len() <= self.image().len(),
            node@ == self.image().subrange(physical as int, physical + node.len()),
            old(compressed)@.mirrors(self.image()),
        ensures
            final(compressed)@.mirrors(self.image()),
            final(compressed)@.base == old(compressed)@.base,
            final(compressed)@.node_size == old(compressed)@.node_size,
            final(compressed)@.metadata == old(compressed)@.metadata + seq![block_extent(physical, size as int)],
    {
        compressed.mark_as_metadata(physical, &node[0..size], true);
        proof {
            let extent = block_extent(physical, size as int);
            assert(compressed@.metadata.drop_last() == old(compressed)@.metadata);
            assert(node@.subrange(0, size as int) == self.image().subrange(physical as int, physical + size));
            assert(old(compressed)@.metadata + seq![extent] == old(compressed)@.metadata.push(extent));
        }
    }

    /// Walks the part of a tree below the block at `logical` and appends
    /// the extents of its blocks to `compressed`: see [`walk_tree`]. `path`
    /// holds the positions of the blocks above. A walk that fails has
    /// appended the blocks that it reached before; the payload is as long
    /// as the extents say in either case.
    pub fn parse_tree(&self, logical: u64, compressed: &mut CompressedBtrfsImage, path: &mut Vec<u64>) -> (walked:
        Result<(), CompressError>)
        requires
            self.wf(),
            old(compressed)@.mirrors(self.image()),
        ensures
            final(compressed)@.metadata == old(compressed)@.metadata + walk_tree(
                self.image(),
                self.chunks(),
                superblock_node_size(self.image()),
                logical,
                old(path)@,
            ).extents,
            walked == walk_tree(
                self.image(),
                self.chunks(),
                superblock_node_size(self.image()),
                logical,
                old(path)@,
            ).ended(),
            final(compressed)@.mirrors(self.image()),
            total_size(final(compressed)@.metadata) == final(compressed)@.data.len(),
            final(compressed)@.base == old(compressed)@.base,
            final(compressed)@.node_size == old(compressed)@.node_size,
            final(path)@ == old(path)@,
        decreases unvisited(self.image().len(), old(path)@).len(),
    {
        proof {
            self.lemma_wf();
            lemma_total_size(self.image(), compressed@.metadata);
        }
        let node_size: u32 = self.superblock.node_size;
        let ghost img = self.image@;
        let ghost chunks = self.chunk_tree_cache@;
        let ghost entry = compressed@.metadata;
        let ghost goal = walk_tree(img, chunks, node_size, logical, old(path)@);
        assert(entry + Seq::<MetadataExtent>::empty() =~= entry);
        let (physical, node) = read_root_node(self.image, logical, &self.chunk_tree_cache, node_size)?;
        if on_path(path, physical) {
            return Err(CompressError::Cycle);
        }
        let header = parse_btrfs_header(node)?;
        if header.level == 0 {
            let metadata_size: u64 = BTRFS_HEADER_SIZE as u64 + header.nritems as u64 * BTRFS_ITEM_SIZE as u64;
            if metadata_size > node_size as u64 {
                return Err(CompressError::ShortNode);
            }
            self.record_block(compressed, physical, node, metadata_size as usize);
        } else {
            let metadata_size: u64 = BTRFS_HEADER_SIZE as u64 + header.nritems as u64 * BTRFS_KEY_PTR_SIZE as u64;
            if metadata_size > node_size as u64 {
                return Err(CompressError::ShortNode);
            }
            self.record_block(compressed, physical, node, metadata_size as usize);
            let ptrs = match parse_btrfs_node(node) {
                Ok(ptrs) => ptrs,
                Err(e) => {
                    return Err(e);
                },
            };
            proof {
                lemma_unvisited_shrinks(img.len(), path@, physical);
            }
            path.push(physical);
            proof {
                lemma_after_twice(
                    entry,
                    seq![block_extent(physical, metadata_size as int)],
                    walk_children(img, chunks, node_size, node@, 0, path@),
                );
            }
            let mut i: usize = 0;
            while i < ptrs.len()
                invariant
                    i <= ptrs.len(),
                    self.wf(),
                    img == self.image(),
                    chunks == self.chunks(),
                    node_size == superblock_node_size(img),
                    ptrs@.len() == header_nritems(node@),
                    forall|j: int| 0 <= j < ptrs@.len() ==> ptrs@[j] == node_key_ptr(node@, j),
                    compressed@.mirrors(img),
                    compressed@.base == old(compressed)@.base,
                    compressed@.node_size == old(compressed)@.node_size,
                    path@ == old(path)@.push(physical),
                    unvisited(img.len(), path@).len() < unvisited(img.len(), old(path)@).len(),
                    Walk::after(compressed@.metadata, walk_children(img, chunks, node_size, node@, i as int, path@))
                        == Walk::after(entry, goal),
                    goal == walk_tree(img, chunks, node_size, logical, old(path)@),
                    entry == old(compressed)@.metadata,
                decreases ptrs.len() - i,
            {
                let ptr = ptrs[i];
                let ghost before = compressed@.metadata;
                let walked = self.parse_tree(ptr.blockptr, compressed, path);
                proof {
                    let child = walk_tree(img, chunks, node_size, ptr.blockptr, path@);
                    lemma_after_twice(before, child.extents, walk_children(img, chunks, node_size, node@, i + 1, path@));
                }
                match walked {
                    Ok(()) => {},
                    Err(e) => {
                        path.pop();
                        assert(path@ == old(path)@);
                        return Err(e);
                    },
                }
                i += 1;
            }
            path.pop();
            assert(path@ == old(path)@);
            assert(compressed@.metadata + Seq::<MetadataExtent>::empty() =~= compressed@.metadata);
        }
        proof {
            lemma_total_size(img, compressed@.metadata);
        }
        Ok(())
    }

    /// Walks the tree that `item`, an entry of the item table of the root
    /// tree leaf `node`, describes, if it is a root item.
    fn parse_root_item(&self, node: &[u8], item: &BtrfsItem, compressed: &mut CompressedBtrfsImage) -> (walked:
        Result<(), CompressError>)
        requires
            self.wf(),
            old(compressed)@.mirrors(self.image()),
        ensures
            final(compressed)@.metadata == old(compressed)@.metadata + walk_root_item(
                self.image(),
                self.chunks(),
                superblock_node_size(self.image()),
                node@,
                *item,
            ).extents,
            walked == walk_root_item(
                self.image(),
                self.chunks(),
                superblock_node_size(self.image()),
                node@,
                *item,
            ).ended(),
            final(compressed)@.mirrors(self.image()),
            final(compressed)@.base == old(compressed)@.base,
            final(compressed)@.node_size == old(compressed)@.node_size,
    {
        assert(compressed@.metadata + Seq::<MetadataExtent>::empty() =~= compressed@.metadata);
        if item.key.ty != BTRFS_ROOT_ITEM_KEY {
            return Ok(());
        }
        let at: u64 = BTRFS_HEADER_SIZE as u64 + item.offset as u64;
        if at + BTRFS_ROOT_ITEM_BYTENR as u64 + 8 > node.len() as u64 {
            return Err(CompressError::ItemOutOfBounds);
        }
        let bytenr = BtrfsRootItem::parse_bytenr(node, at as usize);
        let mut path: Vec<u64> = Vec::new();
        self.parse_tree(bytenr, compressed, &mut path)
    }

    /// Records the root of the root tree, which must be a leaf, and walks
    /// every tree that it describes, the one of its last root item first:
    /// see [`walk_root_tree`]. Where the root cannot be read or is no leaf,
    /// `compressed` stays as it is. A walk that fails later has appended
    /// the blocks that it reached before; the payload is as long as the
    /// extents say in either case.
    pub fn parse_root_tree(&self, compressed: &mut CompressedBtrfsImage) -> (walked: Result<(), CompressError>)
        requires
            self.wf(),
            old(compressed)@.mirrors(self.image()),
        ensures
            final(compressed)@.metadata == old(compressed)@.metadata + walk_root_tree(
                self.image(),
                self.chunks(),
                superblock_node_size(self.image()),
                superblock_root(self.image()),
            ).extents,
            walked == walk_root_tree(
                self.image(),
                self.chunks(),
                superblock_node_size(self.image()),
                superblock_root(self.image()),
            ).ended(),
            final(compressed)@.mirrors(self.image()),
            total_size(final(compressed)@.metadata) == final(compressed)@.data.len(),
            final(compressed)@.base == old(compressed)@.base,
            final(compressed)@.node_size == old(compressed)@.node_size,
            walk_root_tree(
                self.image(),
                self.chunks(),
                superblock_node_size(self.image()),
                superblock_root(self.image()),
            ).extents.len() == 0 ==> final(compressed)@ == old(compressed)@,
    {
        proof {
            self.lemma_wf();
            lemma_total_size(self.image(), compressed@.metadata);
        }
        let node_size: u32 = self.superblock.node_size;
        let ghost img = self.image@;
        let ghost chunks = self.chunk_tree_cache@;
        let ghost entry = compressed@.metadata;
        let ghost goal = walk_root_tree(img, chunks, node_size, self.superblock.root);
        assert(entry + Seq::<MetadataExtent>::empty() =~= entry);
        let (physical, node) = read_root_node(self.image, self.superblock.root, &self.chunk_tree_cache, node_size)?;
        let header = parse_btrfs_header(node)?;
        if header.level != 0 {
            return Err(CompressError::RootNotLeaf);
        }
        let metadata_size: u64 = BTRFS_HEADER_SIZE as u64 + header.nritems as u64 * BTRFS_ITEM_SIZE as u64;
        if metadata_size > node_size as u64 {
            return Err(CompressError::ShortNode);
        }
        self.record_block(compressed, physical, node, metadata_size as usize);
        let items = match parse_btrfs_leaf(node) {
            Ok(items) => items,
            Err(e) => {
                return Err(e);
            },
        };
        proof {
            lemma_after_twice(
                entry,
                seq![block_extent(physical, metadata_size as int)],
                walk_root_items(img, chunks, node_size, node@, header_nritems(node@)),
            );
            assert(goal.extents.len() > 0);
        }
        let mut k: usize = items.len();
        while k > 0
            invariant
                k <= items.len(),
                self.wf(),
                img == self.image(),
                chunks == self.chunks(),
                node_size == superblock_node_size(img),
                items@.len() == header_nritems(node@),
                forall|j: int| 0 <= j < items@.len() ==> items@[j] == leaf_item(node@, j),
                compressed@.mirrors(img),
                compressed@.base == old(compressed)@.base,
                compressed@.node_size == old(compressed)@.node_size,
                Walk::after(compressed@.metadata, walk_root_items(img, chunks, node_size, node@, k as int))
                    == Walk::after(entry, goal),
                goal == walk_root_tree(img, chunks, node_size, superblock_root(img)),
                goal.extents.len() > 0,
                entry == old(compressed)@.metadata,
            decreases k,
        {
            let ghost before = compressed@.metadata;
            let walked = self.parse_root_item(node, &items[k - 1], compressed);
            proof {
                let tree = walk_root_item(img, chunks, node_size, node@, items@[k - 1]);
                lemma_after_twice(before, tree.extents, walk_root_items(img, chunks, node_size, node@, k - 1));
                lemma_total_size(img, compressed@.metadata);
            }
            walked?;
            k -= 1;
        }
        proof {
            assert(compressed@.metadata + Seq::<MetadataExtent>::empty() =~= compressed@.metadata);
            lemma_total_size(img, compressed@.metadata);
        }
        Ok(())
    }

    /// Compresses the image: keeps the superblock, the blocks of the root
    /// tree and of the trees that it describes, and the blocks of the log
    /// tree as metadata, and the whole image as compressed base.
    pub fn compress(&self) -> (packed: Result<CompressedBtrfsImage, CompressError>)
        requires
            self.wf(),
        ensures
            match packed {
                Ok(image) => compressed_with(self.image(), self.chunks()) == Ok::<CompressedView, CompressError>(
                    image@,
                ) && zstd_decoded(image@.base) == Some(self.image()),
                Err(e) => compressed_with(self.image(), self.chunks()) == Err::<CompressedView, CompressError>(e),
            },
    {
        proof {
            self.lemma_wf();
        }
        let ghost img = self.image@;
        let ghost chunks = self.chunk_tree_cache@;
        let node_size: u32 = self.superblock.node_size;
        let mut compressed = CompressedBtrfsImage::default();
        assert(compressed@.metadata =~= Seq::empty());
        assert(compressed@.data =~= Seq::empty());

        let start: usize = BTRFS_SUPERBLOCK_OFFSET as usize;
        self.record_block(
            &mut compressed,
            BTRFS_SUPERBLOCK_OFFSET,
            &self.image[start..start + BTRFS_SUPERBLOCK_RECORD_SIZE],
            BTRFS_SUPERBLOCK_RECORD_SIZE,
        );
        assert(compressed@.metadata == seq![superblock_extent()]);
        let ghost trees = walk_root_tree(img, chunks, node_size, superblock_root(img));
        let ghost log = if superblock_log_root(img) == 0 {
            Walk::done(Seq::empty())
        } else {
            walk_tree(img, chunks, node_size, superblock_log_root(img), Seq::empty())
        };

        self.parse_root_tree(&mut compressed)?;

        // The log tree hangs from the superblock, not from the root tree.
        if self.superblock.log_root != 0 {
            let mut path: Vec<u64> = Vec::new();
            self.parse_tree(self.superblock.log_root, &mut compressed, &mut path)?;
        }
        proof {
            lemma_after_twice(seq![superblock_extent()], trees.extents, log);
            assert(compressed@.metadata + Seq::<MetadataExtent>::empty() =~= compressed@.metadata);
        }
        let base = match zstd_encode(self.image, BASE_COMPRESSION_LEVEL) {
            Ok(base) => base,
            Err(_) => {
                return Err(CompressError::Codec);
            },
        };
        Ok(compressed.with_base(base, node_size as usize))
    }
}

} // verus!
