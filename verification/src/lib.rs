//! Building blocks of a coverage-guided fuzzing harness for the btrfs driver.
//!
//! * [`imgcompress`] strips a btrfs image down to the metadata blocks that the
//!   kernel walks at mount time and rebuilds a mountable image from them.
//! * [`mutator`] mutates the metadata payload of a compressed image while
//!   keeping its extent map intact.
//! * [`runner`] holds the decisions of the per-testcase loop: the forkserver
//!   wire protocol, the folding of kernel coverage into the edge bitmap, the
//!   scan of the kernel log and the mount life cycle.

pub mod bytes;
pub mod imgcompress;
pub mod mutator;
pub mod runner;
