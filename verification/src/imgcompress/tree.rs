//! Reading the blocks of a btrfs tree.
//!
//! A block starts with a `BtrfsHeader`. A leaf (level zero) goes on with a
//! table of `BtrfsItem`s, an internal node with a table of `BtrfsKeyPtr`s.

use crate::bytes::le_u32;
use crate::imgcompress::error::CompressError;
use crate::imgcompress::structs::{
    BtrfsHeader, BtrfsItem, BtrfsKeyPtr, BTRFS_HEADER_SIZE, BTRFS_ITEM_SIZE, BTRFS_KEY_PTR_SIZE,
};
use vstd::prelude::*;

verus! {

/// Number of entries that the header of `node` announces.
pub open spec fn header_nritems(node: Seq<u8>) -> int {
    le_u32(node, 96)
}

/// Level that the header of `node` announces.
pub open spec fn header_level(node: Seq<u8>) -> int {
    node[100] as int
}

/// Bytes of a leaf's header and item table.
pub open spec fn leaf_table_end(node: Seq<u8>) -> int {
    BTRFS_HEADER_SIZE + header_nritems(node) * BTRFS_ITEM_SIZE
}

/// Bytes of an internal node's header and key pointer table.
pub open spec fn node_table_end(node: Seq<u8>) -> int {
    BTRFS_HEADER_SIZE + header_nritems(node) * BTRFS_KEY_PTR_SIZE
}

/// Entry `i` of the item table of a leaf.
pub open spec fn leaf_item(node: Seq<u8>, i: int) -> BtrfsItem {
    BtrfsItem::decode(node, BTRFS_HEADER_SIZE + BTRFS_ITEM_SIZE * i)
}

/// Entry `i` of the key pointer table of an internal node.
pub open spec fn node_key_ptr(node: Seq<u8>, i: int) -> BtrfsKeyPtr {
    BtrfsKeyPtr::decode(node, BTRFS_HEADER_SIZE + BTRFS_KEY_PTR_SIZE * i)
}

/// The item table of a leaf.
pub open spec fn leaf_items(node: Seq<u8>) -> Seq<BtrfsItem> {
    Seq::new(header_nritems(node) as nat, |i: int| leaf_item(node, i))
}

/// The key pointer table of an internal node.
pub open spec fn node_key_ptrs(node: Seq<u8>) -> Seq<BtrfsKeyPtr> {
    Seq::new(header_nritems(node) as nat, |i: int| node_key_ptr(node, i))
}

/// Reads the header of a tree block.
pub fn parse_btrfs_header(buf: &[u8]) -> (parsed: Result<BtrfsHeader, CompressError>)
    ensures
        match parsed {
            Ok(header) => {
                &&& buf.len() >= BTRFS_HEADER_SIZE
                &&& header.decodes(buf@, 0)
                &&& header.nritems == header_nritems(buf@)
                &&& header.level == header_level(buf@)
            },
            Err(e) => buf.len() < BTRFS_HEADER_SIZE && e == CompressError::ShortHeader,
        },
{
    if buf.len() < BTRFS_HEADER_SIZE {
        return Err(CompressError::ShortHeader);
    }
    Ok(BtrfsHeader::parse(buf, 0))
}

/// Reads the key pointers of an internal node. Whether `buf` is one is for
/// the caller to know: a leaf's item table is read as if it held pointers.
pub fn parse_btrfs_node(buf: &[u8]) -> (parsed: Result<Vec<BtrfsKeyPtr>, CompressError>)
    ensures
        match parsed {
            Ok(ptrs) => {
                &&& buf.len() >= BTRFS_HEADER_SIZE
                &&& node_table_end(buf@) <= buf.len()
                &&& ptrs@ == node_key_ptrs(buf@)
            },
            Err(e) => if buf.len() < BTRFS_HEADER_SIZE {
                e == CompressError::ShortHeader
            } else {
                node_table_end(buf@) > buf.len() && e == CompressError::ShortNode
            },
        },
{
    let header = parse_btrfs_header(buf)?;
    let count: u64 = header.nritems as u64;
    if BTRFS_HEADER_SIZE as u64 + count * (BTRFS_KEY_PTR_SIZE as u64) > buf.len() as u64 {
        return Err(CompressError::ShortNode);
    }
    let mut ptrs: Vec<BtrfsKeyPtr> = Vec::new();
    let mut offset: usize = BTRFS_HEADER_SIZE;
    let mut i: u64 = 0;
    while i < count
        invariant
            i <= count,
            count == header_nritems(buf@),
            offset == BTRFS_HEADER_SIZE + BTRFS_KEY_PTR_SIZE * i,
            node_table_end(buf@) <= buf.len(),
            ptrs@.len() == i,
            forall|j: int| 0 <= j < i ==> ptrs@[j] == node_key_ptr(buf@, j),
        decreases count - i,
    {
        ptrs.push(BtrfsKeyPtr::parse(buf, offset));
        offset += BTRFS_KEY_PTR_SIZE;
        i += 1;
    }
    assert(ptrs@ =~= node_key_ptrs(buf@));
    Ok(ptrs)
}

/// Reads the item table of a leaf.
pub fn parse_btrfs_leaf(buf: &[u8]) -> (parsed: Result<Vec<BtrfsItem>, CompressError>)
    ensures
        match parsed {
            Ok(items) => {
                &&& buf.len() >= BTRFS_HEADER_SIZE
                &&& leaf_table_end(buf@) <= buf.len()
                &&& items@ == leaf_items(buf@)
            },
            Err(e) => if buf.len() < BTRFS_HEADER_SIZE {
                e == CompressError::ShortHeader
            } else {
                leaf_table_end(buf@) > buf.len() && e == CompressError::ShortNode
            },
        },
{
    let header = parse_btrfs_header(buf)?;
    let count: u64 = header.nritems as u64;
    if BTRFS_HEADER_SIZE as u64 + count * (BTRFS_ITEM_SIZE as u64) > buf.len() as u64 {
        return Err(CompressError::ShortNode);
    }
    let mut items: Vec<BtrfsItem> = Vec::new();
    let mut offset: usize = BTRFS_HEADER_SIZE;
    let mut i: u64 = 0;
    while i < count
        invariant
            i <= count,
            count == header_nritems(buf@),
            offset == BTRFS_HEADER_SIZE + BTRFS_ITEM_SIZE * i,
            leaf_table_end(buf@) <= buf.len(),
            items@.len() == i,
            forall|j: int| 0 <= j < i ==> items@[j] == leaf_item(buf@, j),
        decreases count - i,
    {
        items.push(BtrfsItem::parse(buf, offset));
        offset += BTRFS_ITEM_SIZE;
        i += 1;
    }
    assert(items@ =~= leaf_items(buf@));
    Ok(items)
}

} // verus!
