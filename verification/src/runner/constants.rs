//! Numbers that the fuzzer and the runner agree on.

use vstd::prelude::*;

verus! {

/// Size of the edge bitmap that the fuzzer shares.
pub const AFL_MAP_SIZE: u32 = 0x1_0000;

/// Flag of the greeting: the forkserver is there and takes options.
pub const AFL_FS_OPT_ENABLED: u32 = 0x8000_0001;

/// Flag of the greeting: the greeting carries the size of the bitmap.
pub const AFL_FS_OPT_MAPSIZE: u32 = 0x4000_0000;

/// File descriptor on which the fuzzer talks to the forkserver.
pub const AFL_FORKSERVER_READ_FD: i32 = 198;

/// File descriptor on which the forkserver answers the fuzzer.
pub const AFL_FORKSERVER_WRITE_FD: i32 = AFL_FORKSERVER_READ_FD + 1;

} // verus!
