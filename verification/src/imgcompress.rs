//! Lossless codec between a full btrfs image and its metadata blocks.
//!
//! A compressed image keeps the metadata blocks of a btrfs image apart from
//! the rest, so that a fuzzer can change them and nothing else.
//! [`decompress`] puts them back and repairs what the kernel tests first:
//! the magic of the superblock and the checksum of every block.

pub mod btrfs;
pub mod chunk_tree;
pub mod codec;
pub mod error;
pub mod frame;
pub mod laws;
pub mod restore;
pub mod structs;
pub mod tree;

use crate::imgcompress::btrfs::{compressed, Btrfs};
use crate::imgcompress::codec::{zstd_decode, zstd_decoded};
use crate::imgcompress::error::{CompressError, DecompressError};
use crate::imgcompress::laws::lemma_envelope_consistent;
use crate::imgcompress::restore::{restore, restored, Restored};
use vstd::prelude::*;

verus! {

/// Where a run of metadata bytes belongs in the image.
#[derive(Clone, Copy, Debug, Default, PartialEq, Eq, Structural)]
pub struct MetadataExtent {
    /// The extent starts a block whose checksum field has to be recomputed.
    pub needs_csum_fixup: bool,
    /// Offset in the image at which the extent is written.
    pub offset: u64,
    /// Number of bytes of the extent.
    pub size: u64,
}

/// A btrfs image, split into its metadata and the rest.
pub struct CompressedBtrfsImage {
    /// The whole image, compressed. The metadata is laid over what it decodes to.
    base: Vec<u8>,
    /// One entry for each extent in `data`, in the order of their bytes.
    pub metadata: Vec<MetadataExtent>,
    /// The bytes of all extents, one after the other.
    pub data: Vec<u8>,
    /// Size of a tree block, for the checksums of the blocks.
    node_size: usize,
}

/// A compressed image as a mathematical value.
pub struct CompressedView {
    pub base: Seq<u8>,
    pub metadata: Seq<MetadataExtent>,
    pub data: Seq<u8>,
    pub node_size: nat,
}

impl View for CompressedBtrfsImage {
    type V = CompressedView;

    closed spec fn view(&self) -> CompressedView {
        CompressedView {
            base: self.base@,
            metadata: self.metadata@,
            data: self.data@,
            node_size: self.node_size as nat,
        }
    }
}

/// `front` is how `all` begins.
pub open spec fn begins_with<T>(all: Seq<T>, front: Seq<T>) -> bool {
    front.len() <= all.len() && all.subrange(0, front.len() as int) == front
}

/// What begins with the end of a chain begins with its start.
pub proof fn lemma_begins_with_chain<T>(all: Seq<T>, middle: Seq<T>, front: Seq<T>)
    requires
        begins_with(all, middle),
        begins_with(middle, front),
    ensures
        begins_with(all, front),
{
    assert forall|i: int| 0 <= i < front.len() implies all[i] == front[i] by {
        assert(all.subrange(0, middle.len() as int)[i] == all[i]);
        assert(middle.subrange(0, front.len() as int)[i] == middle[i]);
    }
    assert(all.subrange(0, front.len() as int) =~= front);
}

/// A sequence begins with itself, and still does when more is added.
pub proof fn lemma_begins_with_more<T>(front: Seq<T>, more: Seq<T>)
    ensures
        begins_with(front + more, front),
        begins_with(front, front),
{
    assert((front + more).subrange(0, front.len() as int) =~= front);
    assert(front.subrange(0, front.len() as int) =~= front);
}

/// Sum of the sizes of `extents`.
pub open spec fn total_size(extents: Seq<MetadataExtent>) -> int
    decreases extents.len(),
{
    if extents.len() == 0 {
        0
    } else {
        total_size(extents.drop_last()) + extents.last().size
    }
}

/// The bytes of `img` that `extents` cover, one extent after the other.
pub open spec fn extents_bytes(img: Seq<u8>, extents: Seq<MetadataExtent>) -> Seq<u8>
    decreases extents.len(),
{
    if extents.len() == 0 {
        Seq::empty()
    } else {
        extents_bytes(img, extents.drop_last()) + img.subrange(
            extents.last().offset as int,
            extents.last().offset + extents.last().size,
        )
    }
}

/// Every extent lies in an image of `len` bytes.
pub open spec fn extents_in_image(extents: Seq<MetadataExtent>, len: nat) -> bool {
    forall|i: int| 0 <= i < extents.len() ==> (#[trigger] extents[i]).offset + extents[i].size <= len
}

/// The payload of extents that lie in the image is as long as the extents
/// are together.
pub proof fn lemma_total_size(img: Seq<u8>, extents: Seq<MetadataExtent>)
    requires
        extents_in_image(extents, img.len()),
    ensures
        extents_bytes(img, extents).len() == total_size(extents),
        0 <= total_size(extents),
    decreases extents.len(),
{
    if extents.len() > 0 {
        lemma_total_size(img, extents.drop_last());
    }
}

impl CompressedView {
    /// The extents lie in `img`, and the payload is what `img` holds there.
    pub open spec fn mirrors(self, img: Seq<u8>) -> bool {
        &&& extents_in_image(self.metadata, img.len())
        &&& self.data == extents_bytes(img, self.metadata)
    }
}

impl Default for CompressedBtrfsImage {
    fn default() -> (image: Self)
        ensures
            image@.base.len() == 0,
            image@.metadata.len() == 0,
            image@.data.len() == 0,
            image@.node_size == 0,
    {
        CompressedBtrfsImage { base: Vec::new(), metadata: Vec::new(), data: Vec::new(), node_size: 0 }
    }
}

impl CompressedBtrfsImage {
    /// Puts a compressed image together.
    pub fn new(base: Vec<u8>, metadata: Vec<MetadataExtent>, data: Vec<u8>, node_size: usize) -> (image: Self)
        ensures
            image@ == (CompressedView {
                base: base@,
                metadata: metadata@,
                data: data@,
                node_size: node_size as nat,
            }),
    {
        CompressedBtrfsImage { base, metadata, data, node_size }
    }

    /// The compressed base image.
    pub fn base(&self) -> (base: &Vec<u8>)
        ensures
            base@ == self@.base,
    {
        &self.base
    }

    /// Size of a tree block of the image.
    pub fn node_size(&self) -> (node_size: usize)
        ensures
            node_size == self@.node_size,
    {
        self.node_size
    }

    /// Takes the image apart: base, extents, payload and node size.
    pub fn into_parts(self) -> (parts: (Vec<u8>, Vec<MetadataExtent>, Vec<u8>, usize))
        ensures
            parts.0@ == self@.base,
            parts.1@ == self@.metadata,
            parts.2@ == self@.data,
            parts.3 == self@.node_size,
    {
        (self.base, self.metadata, self.data, self.node_size)
    }

    /// The image with another base and node size.
    pub fn with_base(self, base: Vec<u8>, node_size: usize) -> (image: Self)
        ensures
            image@ == (CompressedView { base: base@, node_size: node_size as nat, ..self@ }),
    {
        CompressedBtrfsImage { base, metadata: self.metadata, data: self.data, node_size }
    }

    /// Number of extents.
    pub fn extent_count(&self) -> (count: usize)
        ensures
            count == self@.metadata.len(),
    {
        self.metadata.len()
    }

    /// Takes the payload out and leaves an empty one.
    pub fn take_data(&mut self) -> (data: Vec<u8>)
        ensures
            data@ == old(self)@.data,
            final(self)@ == (CompressedView { data: Seq::empty(), ..old(self)@ }),
    {
        let mut data: Vec<u8> = Vec::new();
        std::mem::swap(&mut self.data, &mut data);
        data
    }

    /// Puts another payload in.
    pub fn set_data(&mut self, data: Vec<u8>)
        ensures
            final(self)@ == (CompressedView { data: data@, ..old(self)@ }),
    {
        self.data = data;
    }

    /// Appends `metadata` to the payload as an extent that belongs at
    /// `physical`.
    pub fn mark_as_metadata(&mut self, physical: u64, metadata: &[u8], needs_csum_fixup: bool)
        ensures
            final(self)@.metadata == old(self)@.metadata.push(
                MetadataExtent { needs_csum_fixup, offset: physical, size: metadata.len() as u64 },
            ),
            final(self)@.data == old(self)@.data + metadata@,
            final(self)@.base == old(self)@.base,
            final(self)@.node_size == old(self)@.node_size,
    {
        self.metadata.push(MetadataExtent { needs_csum_fixup, offset: physical, size: metadata.len() as u64 });
        self.data.extend_from_slice(metadata);
    }
}

/// The image that a compressed image stands for: what its extents and
/// payload make of its decoded base.
pub open spec fn decompressed(image: CompressedView) -> Restored {
    match zstd_decoded(image.base) {
        None => Err(DecompressError::Codec),
        Some(base) => restored(base, image.metadata, image.data, image.node_size),
    }
}

/// Compresses a btrfs image: see [`compressed`]. The payload of the
/// result is as long as its extents say, and its base decodes to `img`.
pub fn compress(img: &[u8]) -> (packed: Result<CompressedBtrfsImage, CompressError>)
    ensures
        match packed {
            Ok(image) => {
                &&& compressed(img@) == Ok::<CompressedView, CompressError>(image@)
                &&& zstd_decoded(image@.base) == Some(img@)
                &&& total_size(image@.metadata) == image@.data.len()
            },
            Err(e) => compressed(img@) == Err::<CompressedView, CompressError>(e),
        },
{
    let btrfs = Btrfs::new(img)?;
    let packed = btrfs.compress()?;
    proof {
        lemma_envelope_consistent(img@, packed@);
    }
    Ok(packed)
}

/// Rebuilds the image that a compressed image stands for, with a valid
/// superblock magic and valid checksums.
pub fn decompress(compressed: &CompressedBtrfsImage) -> (rebuilt: Result<Vec<u8>, DecompressError>)
    ensures
        match rebuilt {
            Ok(bytes) => decompressed(compressed@) == Ok::<Seq<u8>, DecompressError>(bytes@),
            Err(e) => decompressed(compressed@) == Err::<Seq<u8>, DecompressError>(e),
        },
{
    let image = match zstd_decode(compressed.base.as_slice()) {
        Ok(image) => image,
        Err(_) => {
            return Err(DecompressError::Codec);
        },
    };
    restore(image, compressed.metadata.as_slice(), compressed.data.as_slice(), compressed.node_size)
}

} // verus!
