//! Decisions of the runner, which feeds one test case after the other to
//! the kernel.
//!
//! The runner itself reads and writes file descriptors, forks and mounts.
//! What it decides in between is here: what to tell the fuzzer and when a
//! transfer is complete, which edges a trace of program counters covers,
//! whether the kernel log shows a crash, what the end of the child means,
//! and in which order a loop device is attached, mounted and released.

pub mod constants;
pub mod control;
pub mod coverage;
pub mod forkserver;
pub mod kmsg;
pub mod mount;
pub mod outcome;
