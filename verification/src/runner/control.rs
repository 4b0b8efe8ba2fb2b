//! Argument of the requests to the btrfs control device.

use vstd::prelude::*;

verus! {

/// Longest path that the argument can name.
pub const BTRFS_PATH_NAME_MAX: usize = 4087;

/// Bytes of the argument as the kernel reads it: the descriptor and the
/// path with its final zero.
pub const BTRFS_IOCTL_VOL_ARGS_SIZE: usize = 4096;

/// Argument of a request on a volume: a file descriptor and a path.
pub struct BtrfsIoctlVolArgs {
    pub fd: i64,
    pub name: [u8; 4088],
}

impl BtrfsIoctlVolArgs {
    /// The argument that names nothing, as the request to forget all
    /// devices takes it.
    pub fn zeroed() -> (args: Self)
        ensures
            args.fd == 0,
            forall|i: int| 0 <= i < 4088 ==> args.name@[i] == 0,
    {
        BtrfsIoctlVolArgs { fd: 0, name: [0u8; 4088] }
    }
}

} // verus!
