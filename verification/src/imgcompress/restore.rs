//! Putting the metadata back into an image.
//!
//! The extents are laid over the image in their order. Then the envelope
//! that the kernel tests before anything else is repaired: the magic of the
//! primary superblock, and the checksum of every block that an extent marks.

use crate::bytes::{u32_le_bytes, u32_to_le};
use crate::imgcompress::codec::crc32c_digest;
use crate::imgcompress::error::DecompressError;
use crate::imgcompress::structs::{
    BTRFS_CSUM_CRC32_SEED, BTRFS_CSUM_SIZE, BTRFS_SUPERBLOCK_MAGIC, BTRFS_SUPERBLOCK_OFFSET,
    BTRFS_SUPERBLOCK_OFFSET2, BTRFS_SUPERBLOCK_OFFSET3, BTRFS_SUPERBLOCK_SIZE,
};
use crate::imgcompress::MetadataExtent;
use vstd::prelude::*;

verus! {

/// An image, or the reason why there is none.
pub type Restored = Result<Seq<u8>, DecompressError>;

/// Offset of the magic in a superblock.
pub const BTRFS_SUPERBLOCK_MAGIC_OFFSET: usize = 64;

/// `img` with `bytes` written over it from `at` on.
pub open spec fn overlay(img: Seq<u8>, at: int, bytes: Seq<u8>) -> Seq<u8> {
    Seq::new(
        img.len(),
        |i: int|
            if at <= i < at + bytes.len() {
                bytes[i - at]
            } else {
                img[i]
            },
    )
}

/// `img` after the extents from number `i` on were laid over it, the bytes
/// of their payload taken from `data` from `at` on.
pub open spec fn lay_down_from(img: Seq<u8>, extents: Seq<MetadataExtent>, data: Seq<u8>, i: int, at: int)
    -> Restored
    decreases extents.len() - i,
{
    if i >= extents.len() {
        Ok(img)
    } else if at + extents[i].size > data.len() {
        Err(DecompressError::ShortData)
    } else if extents[i].offset + extents[i].size > img.len() {
        Err(DecompressError::ExtentOutOfImage)
    } else {
        lay_down_from(
            overlay(img, extents[i].offset as int, data.subrange(at, at + extents[i].size)),
            extents,
            data,
            i + 1,
            at + extents[i].size,
        )
    }
}

/// `img` after all extents were laid over it.
pub open spec fn lay_down(img: Seq<u8>, extents: Seq<MetadataExtent>, data: Seq<u8>) -> Restored {
    lay_down_from(img, extents, data, 0, 0)
}

/// The image holds the whole block of the primary superblock.
pub open spec fn holds_superblock_block(img: Seq<u8>) -> bool {
    BTRFS_SUPERBLOCK_OFFSET + BTRFS_SUPERBLOCK_SIZE <= img.len()
}

/// `img` with the magic of the primary superblock made valid.
pub open spec fn fix_magic(img: Seq<u8>) -> Seq<u8> {
    overlay(img, BTRFS_SUPERBLOCK_OFFSET + BTRFS_SUPERBLOCK_MAGIC_OFFSET, BTRFS_SUPERBLOCK_MAGIC@)
}

/// Whether a superblock or one of its mirrors lies at `offset`.
pub open spec fn is_superblock_offset(offset: u64) -> bool {
    offset == BTRFS_SUPERBLOCK_OFFSET || offset == BTRFS_SUPERBLOCK_OFFSET2 || offset == BTRFS_SUPERBLOCK_OFFSET3
}

/// Size of the checksummed block at `offset`.
pub open spec fn block_size(offset: u64, node_size: nat) -> nat {
    if is_superblock_offset(offset) {
        BTRFS_SUPERBLOCK_SIZE as nat
    } else {
        node_size
    }
}

/// The checksum that belongs in the block of `size` bytes at `offset`: that
/// of all its bytes but the checksum field.
pub open spec fn block_checksum(img: Seq<u8>, offset: int, size: int) -> u32 {
    crc32c_digest(BTRFS_CSUM_CRC32_SEED, img.subrange(offset + BTRFS_CSUM_SIZE, offset + size))
}

/// `img` with the checksum of the block of `size` bytes at `offset` made
/// valid. The checksum fills the first four bytes of the checksum field.
pub open spec fn fix_block(img: Seq<u8>, offset: int, size: int) -> Seq<u8> {
    overlay(img, offset, u32_le_bytes(block_checksum(img, offset, size)))
}

/// The block of `size` bytes at `offset` has a checksum field and lies in `img`.
pub open spec fn block_fits(img: Seq<u8>, offset: int, size: int) -> bool {
    BTRFS_CSUM_SIZE <= size && offset + size <= img.len()
}

/// `img` after the checksums of the blocks that the extents from number
/// `i` on mark were made valid, one block after the other.
pub open spec fn fix_checksums_from(img: Seq<u8>, extents: Seq<MetadataExtent>, node_size: nat, i: int)
    -> Restored
    decreases extents.len() - i,
{
    if i >= extents.len() {
        Ok(img)
    } else if !extents[i].needs_csum_fixup {
        fix_checksums_from(img, extents, node_size, i + 1)
    } else if !block_fits(img, extents[i].offset as int, block_size(extents[i].offset, node_size) as int) {
        Err(DecompressError::BadBlock)
    } else {
        fix_checksums_from(
            fix_block(img, extents[i].offset as int, block_size(extents[i].offset, node_size) as int),
            extents,
            node_size,
            i + 1,
        )
    }
}

/// The image that `extents` and `data` make of the base image `img`.
pub open spec fn restored(img: Seq<u8>, extents: Seq<MetadataExtent>, data: Seq<u8>, node_size: nat) -> Restored {
    match lay_down(img, extents, data) {
        Err(e) => Err(e),
        Ok(laid) => if !holds_superblock_block(laid) {
            Err(DecompressError::ImageTooSmall)
        } else {
            fix_checksums_from(fix_magic(laid), extents, node_size, 0)
        },
    }
}

/// Writes `bytes` over `image` from `at` on.
pub fn write_over(image: &mut Vec<u8>, at: usize, bytes: &[u8])
    requires
        at + bytes.len() <= old(image).len(),
    ensures
        final(image)@ == overlay(old(image)@, at as int, bytes@),
{
    let mut j: usize = 0;
    while j < bytes.len()
        invariant
            j <= bytes.len(),
            at + bytes.len() <= image.len(),
            image@.len() == old(image)@.len(),
            forall|k: int| 0 <= k < image@.len() ==> image@[k] == if at <= k < at + j {
                bytes@[k - at]
            } else {
                old(image)@[k]
            },
        decreases bytes.len() - j,
    {
        image[at + j] = bytes[j];
        j += 1;
    }
    assert(image@ =~= overlay(old(image)@, at as int, bytes@));
}

/// Lays the extents over `image`, each with its bytes of `data`. All
/// extents are tested before the first one is laid, so that an image which
/// cannot take them all is left as it is.
pub fn lay_down_extents(image: &mut Vec<u8>, metadata: &[MetadataExtent], data: &[u8]) -> (laid: Result<
    (),
    DecompressError,
>)
    ensures
        match laid {
            Ok(()) => lay_down(old(image)@, metadata@, data@) == Ok::<Seq<u8>, DecompressError>(final(image)@),
            Err(e) => lay_down(old(image)@, metadata@, data@) == Err::<Seq<u8>, DecompressError>(e)
                && final(image)@ == old(image)@,
        },
{
    let len: u64 = image.len() as u64;
    let ghost mut laid = image@;
    let mut data_idx: usize = 0;
    let mut i: usize = 0;
    while i < metadata.len()
        invariant
            i <= metadata.len(),
            data_idx <= data.len(),
            image@ == old(image)@,
            len == image@.len(),
            laid.len() == image@.len(),
            lay_down_from(laid, metadata@, data@, i as int, data_idx as int) == lay_down(
                old(image)@,
                metadata@,
                data@,
            ),
        decreases metadata.len() - i,
    {
        let extent = metadata[i];
        if extent.size > (data.len() - data_idx) as u64 {
            return Err(DecompressError::ShortData);
        }
        if extent.offset > len || extent.size > len - extent.offset {
            return Err(DecompressError::ExtentOutOfImage);
        }
        proof {
            laid = overlay(laid, extent.offset as int, data@.subrange(data_idx as int, data_idx + extent.size));
        }
        data_idx += extent.size as usize;
        i += 1;
    }

    data_idx = 0;
    i = 0;
    while i < metadata.len()
        invariant
            i <= metadata.len(),
            data_idx <= data.len(),
            image@.len() == old(image)@.len(),
            lay_down(old(image)@, metadata@, data@) is Ok,
            lay_down_from(image@, metadata@, data@, i as int, data_idx as int) == lay_down(
                old(image)@,
                metadata@,
                data@,
            ),
        decreases metadata.len() - i,
    {
        let extent = metadata[i];
        let size: usize = extent.size as usize;
        write_over(image, extent.offset as usize, &data[data_idx..data_idx + size]);
        data_idx += size;
        i += 1;
    }
    Ok(())
}

/// Makes the magic of the primary superblock valid.
pub fn repair_magic(image: &mut Vec<u8>)
    requires
        holds_superblock_block(old(image)@),
    ensures
        final(image)@ == fix_magic(old(image)@),
{
    let at: usize = BTRFS_SUPERBLOCK_OFFSET as usize + BTRFS_SUPERBLOCK_MAGIC_OFFSET;
    write_over(image, at, BTRFS_SUPERBLOCK_MAGIC.as_slice());
}

/// Size of the checksummed block at `offset`.
pub fn block_size_at(offset: u64, node_size: usize) -> (size: usize)
    ensures
        size == block_size(offset, node_size as nat),
{
    if offset == BTRFS_SUPERBLOCK_OFFSET || offset == BTRFS_SUPERBLOCK_OFFSET2 || offset
        == BTRFS_SUPERBLOCK_OFFSET3 {
        BTRFS_SUPERBLOCK_SIZE
    } else {
        node_size
    }
}

/// Makes the checksum of the block of `size` bytes at `offset` valid.
pub fn repair_block(image: &mut Vec<u8>, offset: usize, size: usize)
    requires
        block_fits(old(image)@, offset as int, size as int),
    ensures
        final(image)@ == fix_block(old(image)@, offset as int, size as int),
{
    assert(offset + size <= image.len());
    let checksum: u32 = crc32c::crc32c_append(
        BTRFS_CSUM_CRC32_SEED,
        &image[offset + BTRFS_CSUM_SIZE..offset + size],
    );
    let bytes = u32_to_le(checksum);
    write_over(image, offset, bytes.as_slice());
}

/// Makes the checksums of all blocks valid that an extent marks. All
/// blocks are tested before the first one is repaired, so that an image
/// with a block that cannot be summed is left as it is.
pub fn repair_checksums(image: &mut Vec<u8>, metadata: &[MetadataExtent], node_size: usize) -> (repaired:
    Result<(), DecompressError>)
    ensures
        match repaired {
            Ok(()) => fix_checksums_from(old(image)@, metadata@, node_size as nat, 0) == Ok::<
                Seq<u8>,
                DecompressError,
            >(final(image)@),
            Err(e) => fix_checksums_from(old(image)@, metadata@, node_size as nat, 0) == Err::<
                Seq<u8>,
                DecompressError,
            >(e) && final(image)@ == old(image)@,
        },
{
    let len: u64 = image.len() as u64;
    let ghost mut fixed = image@;
    let mut i: usize = 0;
    while i < metadata.len()
        invariant
            i <= metadata.len(),
            image@ == old(image)@,
            len == image@.len(),
            fixed.len() == image@.len(),
            fix_checksums_from(fixed, metadata@, node_size as nat, i as int) == fix_checksums_from(
                old(image)@,
                metadata@,
                node_size as nat,
                0,
            ),
        decreases metadata.len() - i,
    {
        let extent = metadata[i];
        if extent.needs_csum_fixup {
            let size = block_size_at(extent.offset, node_size);
            if size < BTRFS_CSUM_SIZE || extent.offset > len || size as u64 > len - extent.offset {
                return Err(DecompressError::BadBlock);
            }
            proof {
                fixed = fix_block(fixed, extent.offset as int, size as int);
            }
        }
        i += 1;
    }

    i = 0;
    while i < metadata.len()
        invariant
            i <= metadata.len(),
            image@.len() == old(image)@.len(),
            fix_checksums_from(old(image)@, metadata@, node_size as nat, 0) is Ok,
            fix_checksums_from(image@, metadata@, node_size as nat, i as int) == fix_checksums_from(
                old(image)@,
                metadata@,
                node_size as nat,
                0,
            ),
        decreases metadata.len() - i,
    {
        let extent = metadata[i];
        if extent.needs_csum_fixup {
            let size = block_size_at(extent.offset, node_size);
            assert(block_fits(image@, extent.offset as int, size as int));
            assert(extent.offset + size <= image.len());
            repair_block(image, extent.offset as usize, size);
        }
        i += 1;
    }
    Ok(())
}

/// Rebuilds an image from its decoded base image `image`: lays the extents
/// over it, makes the magic of the primary superblock valid, and then the
/// checksums of the blocks that the extents mark.
pub fn restore(image: Vec<u8>, metadata: &[MetadataExtent], data: &[u8], node_size: usize) -> (rebuilt: Result<
    Vec<u8>,
    DecompressError,
>)
    ensures
        match rebuilt {
            Ok(bytes) => restored(image@, metadata@, data@, node_size as nat) == Ok::<Seq<u8>, DecompressError>(
                bytes@,
            ),
            Err(e) => restored(image@, metadata@, data@, node_size as nat) == Err::<Seq<u8>, DecompressError>(e),
        },
{
    let mut image = image;
    lay_down_extents(&mut image, metadata, data)?;
    if image.len() < BTRFS_SUPERBLOCK_SIZE || BTRFS_SUPERBLOCK_OFFSET > (image.len() - BTRFS_SUPERBLOCK_SIZE) as u64 {
        return Err(DecompressError::ImageTooSmall);
    }
    repair_magic(&mut image);
    repair_checksums(&mut image, metadata, node_size)?;
    Ok(image)
}

} // verus!
