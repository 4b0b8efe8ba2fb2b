//! Records of the btrfs on-disk format.
//!
//! On disk a record is packed: its fields follow each other without padding,
//! and every integer is stored least significant byte first. Each record has
//! its size, a `decodes` predicate that ties every field to its bytes, and a
//! `parse` function that reads it.

use crate::bytes::{le_u16, le_u32, le_u64, le_u64s, read_bytes, read_u16, read_u32, read_u64, read_u64s, read_u8};
use vstd::prelude::*;

verus! {

/// Bytes of the checksum field at the start of every checksummed block.
pub const BTRFS_CSUM_SIZE: usize = 32;

/// Bytes of the label of a filesystem.
pub const BTRFS_LABEL_SIZE: usize = 256;

/// Bytes of the identity of a filesystem.
pub const BTRFS_FSID_SIZE: usize = 16;

/// Bytes of the identity of a device or of a tree.
pub const BTRFS_UUID_SIZE: usize = 16;

/// Bytes that a superblock keeps for the system chunk array.
pub const BTRFS_SYSTEM_CHUNK_ARRAY_SIZE: usize = 2048;

/// Offset of the primary superblock in the image.
pub const BTRFS_SUPERBLOCK_OFFSET: u64 = 0x1_0000;

/// Offset of the first mirror of the superblock.
pub const BTRFS_SUPERBLOCK_OFFSET2: u64 = 0x400_0000;

/// Offset of the second mirror of the superblock.
pub const BTRFS_SUPERBLOCK_OFFSET3: u64 = 0x40_0000_0000;

/// The bytes `_BHRfS_M`, which mark a superblock.
pub const BTRFS_SUPERBLOCK_MAGIC: [u8; 8] = [0x5f, 0x42, 0x48, 0x52, 0x66, 0x53, 0x5f, 0x4d];

/// Bytes of the block that the checksum of a superblock covers.
pub const BTRFS_SUPERBLOCK_SIZE: usize = 4096;

/// Checksum type of CRC32C.
pub const BTRFS_CSUM_TYPE_CRC32: u16 = 0;

/// Value from which the checksum of a block starts.
pub const BTRFS_CSUM_CRC32_SEED: u32 = 0;

/// Kind of the items that describe chunks.
pub const BTRFS_CHUNK_ITEM_KEY: u8 = 228;

/// Kind of the items that describe trees.
pub const BTRFS_ROOT_ITEM_KEY: u8 = 132;

/// Key of an item: what it belongs to, what kind it is, and a value whose
/// meaning depends on the kind.
#[derive(Clone, Copy)]
pub struct BtrfsKey {
    pub objectid: u64,
    /// Kind of the item, such as `BTRFS_CHUNK_ITEM_KEY`.
    pub ty: u8,
    /// For a chunk item: the first logical address of the chunk.
    pub offset: u64,
}

/// Bytes that a `BtrfsKey` takes on disk.
pub const BTRFS_KEY_SIZE: usize = 17;

impl BtrfsKey {
    /// The record that the 17 bytes of `s` from `at` hold.
    pub open spec fn decode(s: Seq<u8>, at: int) -> Self {
        BtrfsKey {
            objectid: le_u64(s, at) as u64,
            ty: s[at + 8],
            offset: le_u64(s, at + 9) as u64,
        }
    }

    /// `self` is what the 17 bytes of `s` from `at` hold.
    pub open spec fn decodes(self, s: Seq<u8>, at: int) -> bool {
        self == Self::decode(s, at)
    }

    /// Reads the record that starts at `at`.
    pub fn parse(buf: &[u8], at: usize) -> (key: Self)
        requires
            at + BTRFS_KEY_SIZE <= buf.len(),
        ensures
            key.decodes(buf@, at as int),
    {
        BtrfsKey {
            objectid: read_u64(buf, at),
            ty: read_u8(buf, at + 8),
            offset: read_u64(buf, at + 9),
        }
    }
}

/// Description of one device of the filesystem.
#[derive(Clone, Copy)]
pub struct BtrfsDevItem {
    pub devid: u64,
    /// Size of the device.
    pub total_bytes: u64,
    pub bytes_used: u64,
    pub io_align: u32,
    pub io_width: u32,
    pub sector_size: u32,
    pub ty: u64,
    pub generation: u64,
    pub start_offset: u64,
    pub dev_group: u32,
    pub seek_speed: u8,
    pub bandwidth: u8,
    /// Identity of the device.
    pub uuid: [u8; BTRFS_UUID_SIZE],
    /// Identity of the filesystem that owns the device.
    pub fsid: [u8; BTRFS_UUID_SIZE],
}

/// Bytes that a `BtrfsDevItem` takes on disk.
pub const BTRFS_DEV_ITEM_SIZE: usize = 98;

impl BtrfsDevItem {
    /// `self` is what the 98 bytes of `s` from `at` hold.
    pub open spec fn decodes(self, s: Seq<u8>, at: int) -> bool {
        &&& self.devid == le_u64(s, at)
        &&& self.total_bytes == le_u64(s, at + 8)
        &&& self.bytes_used == le_u64(s, at + 16)
        &&& self.io_align == le_u32(s, at + 24)
        &&& self.io_width == le_u32(s, at + 28)
        &&& self.sector_size == le_u32(s, at + 32)
        &&& self.ty == le_u64(s, at + 36)
        &&& self.generation == le_u64(s, at + 44)
        &&& self.start_offset == le_u64(s, at + 52)
        &&& self.dev_group == le_u32(s, at + 60)
        &&& self.seek_speed == s[at + 64]
        &&& self.bandwidth == s[at + 65]
        &&& self.uuid@ == s.subrange(at + 66, at + 82)
        &&& self.fsid@ == s.subrange(at + 82, at + 98)
    }

    /// Reads the record that starts at `at`.
    pub fn parse(buf: &[u8], at: usize) -> (item: Self)
        requires
            at + BTRFS_DEV_ITEM_SIZE <= buf.len(),
        ensures
            item.decodes(buf@, at as int),
    {
        BtrfsDevItem {
            devid: read_u64(buf, at),
            total_bytes: read_u64(buf, at + 8),
            bytes_used: read_u64(buf, at + 16),
            io_align: read_u32(buf, at + 24),
            io_width: read_u32(buf, at + 28),
            sector_size: read_u32(buf, at + 32),
            ty: read_u64(buf, at + 36),
            generation: read_u64(buf, at + 44),
            start_offset: read_u64(buf, at + 52),
            dev_group: read_u32(buf, at + 60),
            seek_speed: read_u8(buf, at + 64),
            bandwidth: read_u8(buf, at + 65),
            uuid: read_bytes(buf, at + 66),
            fsid: read_bytes(buf, at + 82),
        }
    }
}

/// Earlier roots of the main trees, kept in the superblock for recovery.
#[derive(Clone, Copy)]
pub struct BtrfsRootBackup {
    pub tree_root: u64,
    pub tree_root_gen: u64,
    pub chunk_root: u64,
    pub chunk_root_gen: u64,
    pub extent_root: u64,
    pub extent_root_gen: u64,
    pub fs_root: u64,
    pub fs_root_gen: u64,
    pub dev_root: u64,
    pub dev_root_gen: u64,
    pub csum_root: u64,
    pub csum_root_gen: u64,
    pub total_bytes: u64,
    pub bytes_used: u64,
    pub num_devices: u64,
    pub unused_64: [u64; 4],
    pub tree_root_level: u8,
    pub chunk_root_level: u8,
    pub extent_root_level: u8,
    pub fs_root_level: u8,
    pub dev_root_level: u8,
    pub csum_root_level: u8,
    pub unused_8: [u8; 10],
}

/// Bytes that a `BtrfsRootBackup` takes on disk.
pub const BTRFS_ROOT_BACKUP_SIZE: usize = 168;

impl BtrfsRootBackup {
    /// `self` is what the 168 bytes of `s` from `at` hold.
    pub open spec fn decodes(self, s: Seq<u8>, at: int) -> bool {
        &&& self.tree_root == le_u64(s, at)
        &&& self.tree_root_gen == le_u64(s, at + 8)
        &&& self.chunk_root == le_u64(s, at + 16)
        &&& self.chunk_root_gen == le_u64(s, at + 24)
        &&& self.extent_root == le_u64(s, at + 32)
        &&& self.extent_root_gen == le_u64(s, at + 40)
        &&& self.fs_root == le_u64(s, at + 48)
        &&& self.fs_root_gen == le_u64(s, at + 56)
        &&& self.dev_root == le_u64(s, at + 64)
        &&& self.dev_root_gen == le_u64(s, at + 72)
        &&& self.csum_root == le_u64(s, at + 80)
        &&& self.csum_root_gen == le_u64(s, at + 88)
        &&& self.total_bytes == le_u64(s, at + 96)
        &&& self.bytes_used == le_u64(s, at + 104)
        &&& self.num_devices == le_u64(s, at + 112)
        &&& self.unused_64@ == le_u64s(s, at + 120, 4)
        &&& self.tree_root_level == s[at + 152]
        &&& self.chunk_root_level == s[at + 153]
        &&& self.extent_root_level == s[at + 154]
        &&& self.fs_root_level == s[at + 155]
        &&& self.dev_root_level == s[at + 156]
        &&& self.csum_root_level == s[at + 157]
        &&& self.unused_8@ == s.subrange(at + 158, at + 168)
    }

    /// Reads the record that starts at `at`.
    pub fn parse(buf: &[u8], at: usize) -> (backup: Self)
        requires
            at + BTRFS_ROOT_BACKUP_SIZE <= buf.len(),
        ensures
            backup.decodes(buf@, at as int),
    {
        BtrfsRootBackup {
            tree_root: read_u64(buf, at),
            tree_root_gen: read_u64(buf, at + 8),
            chunk_root: read_u64(buf, at + 16),
            chunk_root_gen: read_u64(buf, at + 24),
            extent_root: read_u64(buf, at + 32),
            extent_root_gen: read_u64(buf, at + 40),
            fs_root: read_u64(buf, at + 48),
            fs_root_gen: read_u64(buf, at + 56),
            dev_root: read_u64(buf, at + 64),
            dev_root_gen: read_u64(buf, at + 72),
            csum_root: read_u64(buf, at + 80),
            csum_root_gen: read_u64(buf, at + 88),
            total_bytes: read_u64(buf, at + 96),
            bytes_used: read_u64(buf, at + 104),
            num_devices: read_u64(buf, at + 112),
            unused_64: read_u64s(buf, at + 120),
            tree_root_level: read_u8(buf, at + 152),
            chunk_root_level: read_u8(buf, at + 153),
            extent_root_level: read_u8(buf, at + 154),
            fs_root_level: read_u8(buf, at + 155),
            dev_root_level: read_u8(buf, at + 156),
            csum_root_level: read_u8(buf, at + 157),
            unused_8: read_bytes(buf, at + 158),
        }
    }
}

/// Root record of the filesystem.
#[derive(Clone, Copy)]
pub struct BtrfsSuperblock {
    /// Checksum of the block; CRC32C fills the first four bytes.
    pub csum: [u8; BTRFS_CSUM_SIZE],
    pub fsid: [u8; BTRFS_FSID_SIZE],
    /// Physical address of this copy of the superblock.
    pub bytenr: u64,
    pub flags: u64,
    /// Must be `BTRFS_SUPERBLOCK_MAGIC`.
    pub magic: [u8; 8],
    pub generation: u64,
    /// Logical address of the root of the root tree.
    pub root: u64,
    /// Logical address of the root of the chunk tree.
    pub chunk_root: u64,
    /// Logical address of the root of the log tree.
    pub log_root: u64,
    pub log_root_transid: u64,
    pub total_bytes: u64,
    pub bytes_used: u64,
    pub root_dir_objectid: u64,
    pub num_devices: u64,
    pub sector_size: u32,
    /// Size of every tree block.
    pub node_size: u32,
    pub leafsize: u32,
    pub stripesize: u32,
    /// Number of bytes of `sys_chunk_array` in use.
    pub sys_chunk_array_size: u32,
    pub chunk_root_generation: u64,
    pub compat_flags: u64,
    pub compat_ro_flags: u64,
    pub incompat_flags: u64,
    /// Checksum algorithm; `BTRFS_CSUM_TYPE_CRC32` is the only one supported.
    pub csum_type: u16,
    pub root_level: u8,
    pub chunk_root_level: u8,
    pub log_root_level: u8,
    pub dev_item: BtrfsDevItem,
    pub label: [u8; BTRFS_LABEL_SIZE],
    pub cache_generation: u64,
    pub uuid_tree_generation: u64,
    pub metadata_uuid: [u8; BTRFS_FSID_SIZE],
    pub _reserved: [u64; 28],
    /// The chunks needed to read the chunk tree, as `(BtrfsKey, BtrfsChunk)`
    /// pairs.
    pub sys_chunk_array: [u8; BTRFS_SYSTEM_CHUNK_ARRAY_SIZE],
    pub root_backups: [BtrfsRootBackup; 4],
}

/// Bytes that a `BtrfsSuperblock` takes on disk.
pub const BTRFS_SUPERBLOCK_RECORD_SIZE: usize = 3531;

impl BtrfsSuperblock {
    /// `self` is what the 3531 bytes of `s` from `at` hold.
    pub open spec fn decodes(self, s: Seq<u8>, at: int) -> bool {
        &&& self.csum@ == s.subrange(at, at + 32)
        &&& self.fsid@ == s.subrange(at + 32, at + 48)
        &&& self.bytenr == le_u64(s, at + 48)
        &&& self.flags == le_u64(s, at + 56)
        &&& self.magic@ == s.subrange(at + 64, at + 72)
        &&& self.generation == le_u64(s, at + 72)
        &&& self.root == le_u64(s, at + 80)
        &&& self.chunk_root == le_u64(s, at + 88)
        &&& self.log_root == le_u64(s, at + 96)
        &&& self.log_root_transid == le_u64(s, at + 104)
        &&& self.total_bytes == le_u64(s, at + 112)
        &&& self.bytes_used == le_u64(s, at + 120)
        &&& self.root_dir_objectid == le_u64(s, at + 128)
        &&& self.num_devices == le_u64(s, at + 136)
        &&& self.sector_size == le_u32(s, at + 144)
        &&& self.node_size == le_u32(s, at + 148)
        &&& self.leafsize == le_u32(s, at + 152)
        &&& self.stripesize == le_u32(s, at + 156)
        &&& self.sys_chunk_array_size == le_u32(s, at + 160)
        &&& self.chunk_root_generation == le_u64(s, at + 164)
        &&& self.compat_flags == le_u64(s, at + 172)
        &&& self.compat_ro_flags == le_u64(s, at + 180)
        &&& self.incompat_flags == le_u64(s, at + 188)
        &&& self.csum_type == le_u16(s, at + 196)
        &&& self.root_level == s[at + 198]
        &&& self.chunk_root_level == s[at + 199]
        &&& self.log_root_level == s[at + 200]
        &&& self.dev_item.decodes(s, at + 201)
        &&& self.label@ == s.subrange(at + 299, at + 555)
        &&& self.cache_generation == le_u64(s, at + 555)
        &&& self.uuid_tree_generation == le_u64(s, at + 563)
        &&& self.metadata_uuid@ == s.subrange(at + 571, at + 587)
        &&& self._reserved@ == le_u64s(s, at + 587, 28)
        &&& self.sys_chunk_array@ == s.subrange(at + 811, at + 2859)
        &&& forall|i: int| 0 <= i < 4 ==> (#[trigger] self.root_backups@[i]).decodes(s, at + 2859 + 168 * i)
    }

    /// Reads the record that starts at `at`.
    #[verifier::rlimit(30)]
    pub fn parse(buf: &[u8], at: usize) -> (superblock: Self)
        requires
            at + BTRFS_SUPERBLOCK_RECORD_SIZE <= buf.len(),
        ensures
            superblock.decodes(buf@, at as int),
    {
        BtrfsSuperblock {
            csum: read_bytes(buf, at),
            fsid: read_bytes(buf, at + 32),
            bytenr: read_u64(buf, at + 48),
            flags: read_u64(buf, at + 56),
            magic: read_bytes(buf, at + 64),
            generation: read_u64(buf, at + 72),
            root: read_u64(buf, at + 80),
            chunk_root: read_u64(buf, at + 88),
            log_root: read_u64(buf, at + 96),
            log_root_transid: read_u64(buf, at + 104),
            total_bytes: read_u64(buf, at + 112),
            bytes_used: read_u64(buf, at + 120),
            root_dir_objectid: read_u64(buf, at + 128),
            num_devices: read_u64(buf, at + 136),
            sector_size: read_u32(buf, at + 144),
            node_size: read_u32(buf, at + 148),
            leafsize: read_u32(buf, at + 152),
            stripesize: read_u32(buf, at + 156),
            sys_chunk_array_size: read_u32(buf, at + 160),
            chunk_root_generation: read_u64(buf, at + 164),
            compat_flags: read_u64(buf, at + 172),
            compat_ro_flags: read_u64(buf, at + 180),
            incompat_flags: read_u64(buf, at + 188),
            csum_type: read_u16(buf, at + 196),
            root_level: read_u8(buf, at + 198),
            chunk_root_level: read_u8(buf, at + 199),
            log_root_level: read_u8(buf, at + 200),
            dev_item: BtrfsDevItem::parse(buf, at + 201),
            label: read_bytes(buf, at + 299),
            cache_generation: read_u64(buf, at + 555),
            uuid_tree_generation: read_u64(buf, at + 563),
            metadata_uuid: read_bytes(buf, at + 571),
            _reserved: read_u64s(buf, at + 587),
            sys_chunk_array: read_bytes(buf, at + 811),
            root_backups: [
                BtrfsRootBackup::parse(buf, at + 2859),
                BtrfsRootBackup::parse(buf, at + 3027),
                BtrfsRootBackup::parse(buf, at + 3195),
                BtrfsRootBackup::parse(buf, at + 3363),
            ],
        }
    }
}

/// Where one copy of a chunk lies on a device.
#[derive(Clone, Copy)]
pub struct BtrfsStripe {
    pub devid: u64,
    /// Physical offset of the copy on the device.
    pub offset: u64,
    pub dev_uuid: [u8; BTRFS_UUID_SIZE],
}

/// Bytes that a `BtrfsStripe` takes on disk.
pub const BTRFS_STRIPE_SIZE: usize = 32;

impl BtrfsStripe {
    /// `self` is what the 32 bytes of `s` from `at` hold.
    pub open spec fn decodes(self, s: Seq<u8>, at: int) -> bool {
        &&& self.devid == le_u64(s, at)
        &&& self.offset == le_u64(s, at + 8)
        &&& self.dev_uuid@ == s.subrange(at + 16, at + 32)
    }

    /// Reads the record that starts at `at`.
    pub fn parse(buf: &[u8], at: usize) -> (stripe: Self)
        requires
            at + BTRFS_STRIPE_SIZE <= buf.len(),
        ensures
            stripe.decodes(buf@, at as int),
    {
        BtrfsStripe {
            devid: read_u64(buf, at),
            offset: read_u64(buf, at + 8),
            dev_uuid: read_bytes(buf, at + 16),
        }
    }
}

/// A chunk item with its first stripe. Further stripes follow it on disk.
#[derive(Clone, Copy)]
pub struct BtrfsChunk {
    /// Number of logical addresses that the chunk covers.
    pub length: u64,
    pub owner: u64,
    pub stripe_len: u64,
    pub ty: u64,
    pub io_align: u32,
    pub io_width: u32,
    pub sector_size: u32,
    /// Number of stripes, the first one included.
    pub num_stripes: u16,
    pub sub_stripes: u16,
    pub stripe: BtrfsStripe,
}

/// Bytes that a `BtrfsChunk` takes on disk.
pub const BTRFS_CHUNK_SIZE: usize = 80;

impl BtrfsChunk {
    /// `self` is what the 80 bytes of `s` from `at` hold.
    pub open spec fn decodes(self, s: Seq<u8>, at: int) -> bool {
        &&& self.length == le_u64(s, at)
        &&& self.owner == le_u64(s, at + 8)
        &&& self.stripe_len == le_u64(s, at + 16)
        &&& self.ty == le_u64(s, at + 24)
        &&& self.io_align == le_u32(s, at + 32)
        &&& self.io_width == le_u32(s, at + 36)
        &&& self.sector_size == le_u32(s, at + 40)
        &&& self.num_stripes == le_u16(s, at + 44)
        &&& self.sub_stripes == le_u16(s, at + 46)
        &&& self.stripe.decodes(s, at + 48)
    }

    /// Reads the record that starts at `at`.
    pub fn parse(buf: &[u8], at: usize) -> (chunk: Self)
        requires
            at + BTRFS_CHUNK_SIZE <= buf.len(),
        ensures
            chunk.decodes(buf@, at as int),
    {
        BtrfsChunk {
            length: read_u64(buf, at),
            owner: read_u64(buf, at + 8),
            stripe_len: read_u64(buf, at + 16),
            ty: read_u64(buf, at + 24),
            io_align: read_u32(buf, at + 32),
            io_width: read_u32(buf, at + 36),
            sector_size: read_u32(buf, at + 40),
            num_stripes: read_u16(buf, at + 44),
            sub_stripes: read_u16(buf, at + 46),
            stripe: BtrfsStripe::parse(buf, at + 48),
        }
    }

    /// Length of the chunk item at `at`.
    pub open spec fn length_at(s: Seq<u8>, at: int) -> u64 {
        le_u64(s, at) as u64
    }

    /// Number of stripes of the chunk item at `at`.
    pub open spec fn num_stripes_at(s: Seq<u8>, at: int) -> u16 {
        le_u16(s, at + 44) as u16
    }

    /// Physical offset of the first stripe of the chunk item at `at`.
    pub open spec fn stripe_offset_at(s: Seq<u8>, at: int) -> u64 {
        le_u64(s, at + 56) as u64
    }

    /// Bytes of a chunk item with `num_stripes` stripes, which is at least
    /// one.
    pub open spec fn item_size(num_stripes: u16) -> int {
        BTRFS_CHUNK_SIZE + BTRFS_STRIPE_SIZE * (num_stripes - 1)
    }

    /// A chunk holds what `length_at`, `num_stripes_at` and
    /// `stripe_offset_at` read from its bytes.
    pub proof fn lemma_decoded_fields(self, s: Seq<u8>, at: int)
        requires
            self.decodes(s, at),
        ensures
            self.length == Self::length_at(s, at),
            self.num_stripes == Self::num_stripes_at(s, at),
            self.stripe.offset == Self::stripe_offset_at(s, at),
    {
    }
}

/// A point in time.
#[derive(Clone, Copy)]
pub struct BtrfsTimespec {
    pub sec: u64,
    pub nsec: u32,
}

/// Bytes that a `BtrfsTimespec` takes on disk.
pub const BTRFS_TIMESPEC_SIZE: usize = 12;

impl BtrfsTimespec {
    /// The record that the 12 bytes of `s` from `at` hold.
    pub open spec fn decode(s: Seq<u8>, at: int) -> Self {
        BtrfsTimespec {
            sec: le_u64(s, at) as u64,
            nsec: le_u32(s, at + 8) as u32,
        }
    }

    /// `self` is what the 12 bytes of `s` from `at` hold.
    pub open spec fn decodes(self, s: Seq<u8>, at: int) -> bool {
        self == Self::decode(s, at)
    }

    /// Reads the record that starts at `at`.
    pub fn parse(buf: &[u8], at: usize) -> (time: Self)
        requires
            at + BTRFS_TIMESPEC_SIZE <= buf.len(),
        ensures
            time.decodes(buf@, at as int),
    {
        BtrfsTimespec {
            sec: read_u64(buf, at),
            nsec: read_u32(buf, at + 8),
        }
    }
}

/// Attributes of an inode.
#[derive(Clone, Copy)]
pub struct BtrfsInodeItem {
    pub generation: u64,
    pub transid: u64,
    pub size: u64,
    pub nbytes: u64,
    pub block_group: u64,
    pub nlink: u32,
    pub uid: u32,
    pub gid: u32,
    pub mode: u32,
    pub rdev: u64,
    pub flags: u64,
    pub sequence: u64,
    pub reserved: [u64; 4],
    pub atime: BtrfsTimespec,
    pub ctime: BtrfsTimespec,
    pub mtime: BtrfsTimespec,
    pub otime: BtrfsTimespec,
}

/// Bytes that a `BtrfsInodeItem` takes on disk.
pub const BTRFS_INODE_ITEM_SIZE: usize = 160;

impl BtrfsInodeItem {
    /// `self` is what the 160 bytes of `s` from `at` hold.
    pub open spec fn decodes(self, s: Seq<u8>, at: int) -> bool {
        &&& self.generation == le_u64(s, at)
        &&& self.transid == le_u64(s, at + 8)
        &&& self.size == le_u64(s, at + 16)
        &&& self.nbytes == le_u64(s, at + 24)
        &&& self.block_group == le_u64(s, at + 32)
        &&& self.nlink == le_u32(s, at + 40)
        &&& self.uid == le_u32(s, at + 44)
        &&& self.gid == le_u32(s, at + 48)
        &&& self.mode == le_u32(s, at + 52)
        &&& self.rdev == le_u64(s, at + 56)
        &&& self.flags == le_u64(s, at + 64)
        &&& self.sequence == le_u64(s, at + 72)
        &&& self.reserved@ == le_u64s(s, at + 80, 4)
        &&& self.atime.decodes(s, at + 112)
        &&& self.ctime.decodes(s, at + 124)
        &&& self.mtime.decodes(s, at + 136)
        &&& self.otime.decodes(s, at + 148)
    }

    /// Reads the record that starts at `at`.
    pub fn parse(buf: &[u8], at: usize) -> (inode: Self)
        requires
            at + BTRFS_INODE_ITEM_SIZE <= buf.len(),
        ensures
            inode.decodes(buf@, at as int),
    {
        BtrfsInodeItem {
            generation: read_u64(buf, at),
            transid: read_u64(buf, at + 8),
            size: read_u64(buf, at + 16),
            nbytes: read_u64(buf, at + 24),
            block_group: read_u64(buf, at + 32),
            nlink: read_u32(buf, at + 40),
            uid: read_u32(buf, at + 44),
            gid: read_u32(buf, at + 48),
            mode: read_u32(buf, at + 52),
            rdev: read_u64(buf, at + 56),
            flags: read_u64(buf, at + 64),
            sequence: read_u64(buf, at + 72),
            reserved: read_u64s(buf, at + 80),
            atime: BtrfsTimespec::parse(buf, at + 112),
            ctime: BtrfsTimespec::parse(buf, at + 124),
            mtime: BtrfsTimespec::parse(buf, at + 136),
            otime: BtrfsTimespec::parse(buf, at + 148),
        }
    }
}

/// Item of the root tree that describes one tree.
#[derive(Clone, Copy)]
pub struct BtrfsRootItem {
    pub inode: BtrfsInodeItem,
    pub generation: u64,
    pub root_dirid: u64,
    /// Logical address of the root of the tree.
    pub bytenr: u64,
    pub byte_limit: u64,
    pub bytes_used: u64,
    pub last_snapshot: u64,
    pub flags: u64,
    pub refs: u32,
    pub drop_progress: BtrfsKey,
    pub drop_level: u8,
    pub level: u8,
    pub generation_v2: u64,
    pub uuid: [u8; BTRFS_UUID_SIZE],
    pub parent_uuid: [u8; BTRFS_UUID_SIZE],
    pub received_uuid: [u8; BTRFS_UUID_SIZE],
    pub ctransid: u64,
    pub otransid: u64,
    pub stransid: u64,
    pub rtransid: u64,
    pub ctime: BtrfsTimespec,
    pub otime: BtrfsTimespec,
    pub stime: BtrfsTimespec,
    pub rtime: BtrfsTimespec,
    pub reserved: [u64; 8],
}

/// Bytes that a `BtrfsRootItem` takes on disk.
pub const BTRFS_ROOT_ITEM_SIZE: usize = 439;

impl BtrfsRootItem {
    /// `self` is what the 439 bytes of `s` from `at` hold.
    pub open spec fn decodes(self, s: Seq<u8>, at: int) -> bool {
        &&& self.inode.decodes(s, at)
        &&& self.generation == le_u64(s, at + 160)
        &&& self.root_dirid == le_u64(s, at + 168)
        &&& self.bytenr == le_u64(s, at + 176)
        &&& self.byte_limit == le_u64(s, at + 184)
        &&& self.bytes_used == le_u64(s, at + 192)
        &&& self.last_snapshot == le_u64(s, at + 200)
        &&& self.flags == le_u64(s, at + 208)
        &&& self.refs == le_u32(s, at + 216)
        &&& self.drop_progress.decodes(s, at + 220)
        &&& self.drop_level == s[at + 237]
        &&& self.level == s[at + 238]
        &&& self.generation_v2 == le_u64(s, at + 239)
        &&& self.uuid@ == s.subrange(at + 247, at + 263)
        &&& self.parent_uuid@ == s.subrange(at + 263, at + 279)
        &&& self.received_uuid@ == s.subrange(at + 279, at + 295)
        &&& self.ctransid == le_u64(s, at + 295)
        &&& self.otransid == le_u64(s, at + 303)
        &&& self.stransid == le_u64(s, at + 311)
        &&& self.rtransid == le_u64(s, at + 319)
        &&& self.ctime.decodes(s, at + 327)
        &&& self.otime.decodes(s, at + 339)
        &&& self.stime.decodes(s, at + 351)
        &&& self.rtime.decodes(s, at + 363)
        &&& self.reserved@ == le_u64s(s, at + 375, 8)
    }

    /// Reads the record that starts at `at`.
    pub fn parse(buf: &[u8], at: usize) -> (root: Self)
        requires
            at + BTRFS_ROOT_ITEM_SIZE <= buf.len(),
        ensures
            root.decodes(buf@, at as int),
    {
        BtrfsRootItem {
            inode: BtrfsInodeItem::parse(buf, at),
            generation: read_u64(buf, at + 160),
            root_dirid: read_u64(buf, at + 168),
            bytenr: read_u64(buf, at + 176),
            byte_limit: read_u64(buf, at + 184),
            bytes_used: read_u64(buf, at + 192),
            last_snapshot: read_u64(buf, at + 200),
            flags: read_u64(buf, at + 208),
            refs: read_u32(buf, at + 216),
            drop_progress: BtrfsKey::parse(buf, at + 220),
            drop_level: read_u8(buf, at + 237),
            level: read_u8(buf, at + 238),
            generation_v2: read_u64(buf, at + 239),
            uuid: read_bytes(buf, at + 247),
            parent_uuid: read_bytes(buf, at + 263),
            received_uuid: read_bytes(buf, at + 279),
            ctransid: read_u64(buf, at + 295),
            otransid: read_u64(buf, at + 303),
            stransid: read_u64(buf, at + 311),
            rtransid: read_u64(buf, at + 319),
            ctime: BtrfsTimespec::parse(buf, at + 327),
            otime: BtrfsTimespec::parse(buf, at + 339),
            stime: BtrfsTimespec::parse(buf, at + 351),
            rtime: BtrfsTimespec::parse(buf, at + 363),
            reserved: read_u64s(buf, at + 375),
        }
    }

    /// Root of the tree that the root item at `at` describes.
    pub open spec fn bytenr_at(s: Seq<u8>, at: int) -> u64 {
        le_u64(s, at + BTRFS_ROOT_ITEM_BYTENR) as u64
    }

    /// Reads `bytenr` of the root item at `at`. Root items written by old
    /// kernels are shorter than `BTRFS_ROOT_ITEM_SIZE` but all reach past
    /// this field.
    pub fn parse_bytenr(buf: &[u8], at: usize) -> (bytenr: u64)
        requires
            at + BTRFS_ROOT_ITEM_BYTENR + 8 <= buf.len(),
        ensures
            bytenr == Self::bytenr_at(buf@, at as int),
    {
        read_u64(buf, at + BTRFS_ROOT_ITEM_BYTENR)
    }
}

/// Offset of `bytenr` in a `BtrfsRootItem`.
pub const BTRFS_ROOT_ITEM_BYTENR: usize = 176;

/// Head of a directory entry; the name follows it on disk.
#[derive(Clone, Copy)]
pub struct BtrfsDirItem {
    pub location: BtrfsKey,
    pub transid: u64,
    pub data_len: u16,
    pub name_len: u16,
    pub ty: u8,
}

/// Bytes that a `BtrfsDirItem` takes on disk.
pub const BTRFS_DIR_ITEM_SIZE: usize = 30;

impl BtrfsDirItem {
    /// The record that the 30 bytes of `s` from `at` hold.
    pub open spec fn decode(s: Seq<u8>, at: int) -> Self {
        BtrfsDirItem {
            location: BtrfsKey::decode(s, at),
            transid: le_u64(s, at + 17) as u64,
            data_len: le_u16(s, at + 25) as u16,
            name_len: le_u16(s, at + 27) as u16,
            ty: s[at + 29],
        }
    }

    /// `self` is what the 30 bytes of `s` from `at` hold.
    pub open spec fn decodes(self, s: Seq<u8>, at: int) -> bool {
        self == Self::decode(s, at)
    }

    /// Reads the record that starts at `at`.
    pub fn parse(buf: &[u8], at: usize) -> (entry: Self)
        requires
            at + BTRFS_DIR_ITEM_SIZE <= buf.len(),
        ensures
            entry.decodes(buf@, at as int),
    {
        BtrfsDirItem {
            location: BtrfsKey::parse(buf, at),
            transid: read_u64(buf, at + 17),
            data_len: read_u16(buf, at + 25),
            name_len: read_u16(buf, at + 27),
            ty: read_u8(buf, at + 29),
        }
    }
}

/// Head of a back reference from an inode to a directory; the name follows it
/// on disk.
#[derive(Clone, Copy)]
pub struct BtrfsInodeRef {
    pub index: u64,
    pub name_len: u16,
}

/// Bytes that a `BtrfsInodeRef` takes on disk.
pub const BTRFS_INODE_REF_SIZE: usize = 10;

impl BtrfsInodeRef {
    /// The record that the 10 bytes of `s` from `at` hold.
    pub open spec fn decode(s: Seq<u8>, at: int) -> Self {
        BtrfsInodeRef {
            index: le_u64(s, at) as u64,
            name_len: le_u16(s, at + 8) as u16,
        }
    }

    /// `self` is what the 10 bytes of `s` from `at` hold.
    pub open spec fn decodes(self, s: Seq<u8>, at: int) -> bool {
        self == Self::decode(s, at)
    }

    /// Reads the record that starts at `at`.
    pub fn parse(buf: &[u8], at: usize) -> (link: Self)
        requires
            at + BTRFS_INODE_REF_SIZE <= buf.len(),
        ensures
            link.decodes(buf@, at as int),
    {
        BtrfsInodeRef {
            index: read_u64(buf, at),
            name_len: read_u16(buf, at + 8),
        }
    }
}

/// Head of every tree block.
#[derive(Clone, Copy)]
pub struct BtrfsHeader {
    /// Checksum of the block; CRC32C fills the first four bytes.
    pub csum: [u8; BTRFS_CSUM_SIZE],
    pub fsid: [u8; BTRFS_FSID_SIZE],
    /// Logical address at which the block is meant to lie.
    pub bytenr: u64,
    pub flags: u64,
    pub chunk_tree_uuid: [u8; BTRFS_UUID_SIZE],
    pub generation: u64,
    pub owner: u64,
    /// Number of items of a leaf, or of key pointers of an internal node.
    pub nritems: u32,
    /// Zero for a leaf.
    pub level: u8,
}

/// Bytes that a `BtrfsHeader` takes on disk.
pub const BTRFS_HEADER_SIZE: usize = 101;

impl BtrfsHeader {
    /// `self` is what the 101 bytes of `s` from `at` hold.
    pub open spec fn decodes(self, s: Seq<u8>, at: int) -> bool {
        &&& self.csum@ == s.subrange(at, at + 32)
        &&& self.fsid@ == s.subrange(at + 32, at + 48)
        &&& self.bytenr == le_u64(s, at + 48)
        &&& self.flags == le_u64(s, at + 56)
        &&& self.chunk_tree_uuid@ == s.subrange(at + 64, at + 80)
        &&& self.generation == le_u64(s, at + 80)
        &&& self.owner == le_u64(s, at + 88)
        &&& self.nritems == le_u32(s, at + 96)
        &&& self.level == s[at + 100]
    }

    /// Reads the record that starts at `at`.
    pub fn parse(buf: &[u8], at: usize) -> (header: Self)
        requires
            at + BTRFS_HEADER_SIZE <= buf.len(),
        ensures
            header.decodes(buf@, at as int),
    {
        BtrfsHeader {
            csum: read_bytes(buf, at),
            fsid: read_bytes(buf, at + 32),
            bytenr: read_u64(buf, at + 48),
            flags: read_u64(buf, at + 56),
            chunk_tree_uuid: read_bytes(buf, at + 64),
            generation: read_u64(buf, at + 80),
            owner: read_u64(buf, at + 88),
            nritems: read_u32(buf, at + 96),
            level: read_u8(buf, at + 100),
        }
    }
}

/// Entry of the item table of a leaf. `offset` and `size` say where the payload
/// of the item lies, counted from the end of the header.
#[derive(Clone, Copy)]
pub struct BtrfsItem {
    pub key: BtrfsKey,
    pub offset: u32,
    pub size: u32,
}

/// Bytes that a `BtrfsItem` takes on disk.
pub const BTRFS_ITEM_SIZE: usize = 25;

impl BtrfsItem {
    /// The record that the 25 bytes of `s` from `at` hold.
    pub open spec fn decode(s: Seq<u8>, at: int) -> Self {
        BtrfsItem {
            key: BtrfsKey::decode(s, at),
            offset: le_u32(s, at + 17) as u32,
            size: le_u32(s, at + 21) as u32,
        }
    }

    /// `self` is what the 25 bytes of `s` from `at` hold.
    pub open spec fn decodes(self, s: Seq<u8>, at: int) -> bool {
        self == Self::decode(s, at)
    }

    /// Reads the record that starts at `at`.
    pub fn parse(buf: &[u8], at: usize) -> (item: Self)
        requires
            at + BTRFS_ITEM_SIZE <= buf.len(),
        ensures
            item.decodes(buf@, at as int),
    {
        BtrfsItem {
            key: BtrfsKey::parse(buf, at),
            offset: read_u32(buf, at + 17),
            size: read_u32(buf, at + 21),
        }
    }
}

/// Fixed part of a leaf. Its `BtrfsItem`s follow it on disk.
#[derive(Clone, Copy)]
pub struct BtrfsLeaf {
    pub header: BtrfsHeader,
}

/// Bytes that a `BtrfsLeaf` takes on disk.
pub const BTRFS_LEAF_SIZE: usize = 101;

impl BtrfsLeaf {
    /// `self` is what the 101 bytes of `s` from `at` hold.
    pub open spec fn decodes(self, s: Seq<u8>, at: int) -> bool {
        self.header.decodes(s, at)
    }

    /// Reads the record that starts at `at`.
    pub fn parse(buf: &[u8], at: usize) -> (leaf: Self)
        requires
            at + BTRFS_LEAF_SIZE <= buf.len(),
        ensures
            leaf.decodes(buf@, at as int),
    {
        BtrfsLeaf {
            header: BtrfsHeader::parse(buf, at),
        }
    }
}

/// Entry of an internal node: the first key of a child and where the child
/// lies.
#[derive(Clone, Copy)]
pub struct BtrfsKeyPtr {
    pub key: BtrfsKey,
    /// Logical address of the child.
    pub blockptr: u64,
    pub generation: u64,
}

/// Bytes that a `BtrfsKeyPtr` takes on disk.
pub const BTRFS_KEY_PTR_SIZE: usize = 33;

impl BtrfsKeyPtr {
    /// The record that the 33 bytes of `s` from `at` hold.
    pub open spec fn decode(s: Seq<u8>, at: int) -> Self {
        BtrfsKeyPtr {
            key: BtrfsKey::decode(s, at),
            blockptr: le_u64(s, at + 17) as u64,
            generation: le_u64(s, at + 25) as u64,
        }
    }

    /// `self` is what the 33 bytes of `s` from `at` hold.
    pub open spec fn decodes(self, s: Seq<u8>, at: int) -> bool {
        self == Self::decode(s, at)
    }

    /// Reads the record that starts at `at`.
    pub fn parse(buf: &[u8], at: usize) -> (ptr: Self)
        requires
            at + BTRFS_KEY_PTR_SIZE <= buf.len(),
        ensures
            ptr.decodes(buf@, at as int),
    {
        BtrfsKeyPtr {
            key: BtrfsKey::parse(buf, at),
            blockptr: read_u64(buf, at + 17),
            generation: read_u64(buf, at + 25),
        }
    }
}

/// Fixed part of an internal node. Its `BtrfsKeyPtr`s follow it on disk.
#[derive(Clone, Copy)]
pub struct BtrfsNode {
    pub header: BtrfsHeader,
}

/// Bytes that a `BtrfsNode` takes on disk.
pub const BTRFS_NODE_SIZE: usize = 101;

impl BtrfsNode {
    /// `self` is what the 101 bytes of `s` from `at` hold.
    pub open spec fn decodes(self, s: Seq<u8>, at: int) -> bool {
        self.header.decodes(s, at)
    }

    /// Reads the record that starts at `at`.
    pub fn parse(buf: &[u8], at: usize) -> (node: Self)
        requires
            at + BTRFS_NODE_SIZE <= buf.len(),
        ensures
            node.decodes(buf@, at as int),
    {
        BtrfsNode {
            header: BtrfsHeader::parse(buf, at),
        }
    }
}

} // verus!
