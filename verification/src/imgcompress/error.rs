//! What can go wrong while an image is compressed or rebuilt.

use vstd::prelude::*;

verus! {

/// Why an image could not be compressed.
#[derive(Clone, Copy, Debug, PartialEq, Eq, Structural)]
pub enum CompressError {
    /// The image ends before the end of the primary superblock.
    ImageTooSmall,
    /// The superblock does not carry `BTRFS_SUPERBLOCK_MAGIC`.
    BadMagic,
    /// The superblock claims more system chunk bytes than it can hold.
    SysArrayTooLarge,
    /// The system chunk array ends inside a key.
    ShortKey,
    /// The system chunk array holds an item that is no chunk item.
    UnknownItemType,
    /// The system chunk array ends inside a chunk item.
    ShortChunk,
    /// A chunk of the system chunk array has no stripe.
    NoStripes,
    /// The system chunk array ends inside the stripes of a chunk item.
    ShortStripes,
    /// A chunk, or the physical range behind it, leaves the 64-bit address space.
    ChunkOutOfRange,
    /// A chunk overlaps one that was found before.
    ChunkOverlap,
    /// No chunk maps the logical address of a tree block.
    Unmapped,
    /// A tree block ends past the end of the image.
    ShortRead,
    /// A tree block is shorter than its header.
    ShortHeader,
    /// A tree block is shorter than the table that its header announces.
    ShortNode,
    /// The payload of an item ends past the end of its leaf.
    ItemOutOfBounds,
    /// The root of the root tree is no leaf.
    RootNotLeaf,
    /// A tree block is its own descendant.
    Cycle,
    /// The stream codec failed on the image.
    Codec,
}

/// Why a compressed image could not be rebuilt.
#[derive(Clone, Copy, Debug, PartialEq, Eq, Structural)]
pub enum DecompressError {
    /// The base image is no valid compressed stream.
    Codec,
    /// An extent ends past the end of the image.
    ExtentOutOfImage,
    /// The payload ends before the end of an extent.
    ShortData,
    /// The image ends before the end of the primary superblock.
    ImageTooSmall,
    /// A block whose checksum is to be recomputed is shorter than a
    /// checksum field or ends past the end of the image.
    BadBlock,
}

} // verus!
