//! The fuzzer's side of the story: a forkserver that forks nothing.
//!
//! The fuzzer believes that it asks a forkserver for one child per test
//! case. The runner stays alive instead and answers with a process id that
//! never changes. Every message is one 32-bit word, least significant byte
//! first. This file says which words are sent; sending them is for the
//! runner.

use crate::bytes::{u32_le_bytes, u32_to_le};
use crate::runner::constants::{AFL_FS_OPT_ENABLED, AFL_FS_OPT_MAPSIZE, AFL_MAP_SIZE};
use vstd::prelude::*;

verus! {

/// How a test case ended.
#[derive(Clone, Copy, Debug, PartialEq, Eq, Structural)]
pub enum RunStatus {
    Success,
    Failure,
}

/// Bytes of every message between fuzzer and forkserver.
pub const MESSAGE_SIZE: usize = 4;

/// Process id that the fuzzer is told for every test case.
pub const FAKE_PID: u32 = 0x7fff_ffff;

/// Wait status of a child that a segmentation fault has ended.
pub const FAILURE_STATUS: u32 = 139;

/// The size of the bitmap as the greeting carries it.
pub open spec fn mapsize_option(size: u32) -> u32 {
    ((size - 1) as u32) << 1
}

/// The greeting: both flags and the size of the bitmap.
pub open spec fn hello_word() -> u32 {
    AFL_FS_OPT_ENABLED | AFL_FS_OPT_MAPSIZE | mapsize_option(AFL_MAP_SIZE)
}

/// The word that reports `status`.
pub open spec fn status_word(status: RunStatus) -> u32 {
    match status {
        RunStatus::Success => 0,
        RunStatus::Failure => FAILURE_STATUS,
    }
}

/// Whether a read or write that moved `n` bytes moved a whole message.
/// Anything else breaks the protocol.
pub fn is_complete_transfer(n: usize) -> (complete: bool)
    ensures
        complete == (n == MESSAGE_SIZE),
{
    n == MESSAGE_SIZE
}

/// The forkserver as the fuzzer sees it.
pub struct Forkserver {
    /// No fuzzer listens: the runner was started by hand, most likely to
    /// run one test case again.
    disabled: bool,
}

impl Forkserver {
    /// Whether no message is to be sent or read.
    pub closed spec fn is_disabled(&self) -> bool {
        self.disabled
    }

    /// The forkserver talks if the fuzzer has shared its bitmap
    /// (`has_shared_map`) and has not been told to do without a forkserver
    /// (`no_forkserver`).
    pub fn new(has_shared_map: bool, no_forkserver: bool) -> (forkserver: Self)
        ensures
            forkserver.is_disabled() == (no_forkserver || !has_shared_map),
    {
        Forkserver { disabled: no_forkserver || !has_shared_map }
    }

    /// Whether no message is to be sent or read.
    pub fn disabled(&self) -> (disabled: bool)
        ensures
            disabled == self.is_disabled(),
    {
        self.disabled
    }

    /// Encodes the size of the bitmap for the greeting.
    pub fn forkserver_opt_set_mapsize(size: u32) -> (option: u32)
        requires
            size >= 1,
        ensures
            option == mapsize_option(size),
    {
        (size - 1) << 1
    }

    /// The greeting to write once at the start, if any.
    pub fn hello(&self) -> (message: Option<[u8; 4]>)
        ensures
            match message {
                Some(bytes) => !self.is_disabled() && bytes@ == u32_le_bytes(hello_word()) && bytes@.len()
                    == MESSAGE_SIZE,
                None => self.is_disabled(),
            },
    {
        if self.disabled {
            return None;
        }
        let word: u32 = AFL_FS_OPT_ENABLED | AFL_FS_OPT_MAPSIZE | Self::forkserver_opt_set_mapsize(AFL_MAP_SIZE);
        Some(u32_to_le(word))
    }

    /// Starts a test case. If a message comes back, the runner first reads
    /// one message from the fuzzer, whose content does not matter, and then
    /// writes the one returned here: the process id of the child that the
    /// fuzzer believes in.
    pub fn new_run(&self) -> (reply: Option<[u8; 4]>)
        ensures
            match reply {
                Some(bytes) => !self.is_disabled() && bytes@ == u32_le_bytes(FAKE_PID) && bytes@.len()
                    == MESSAGE_SIZE,
                None => self.is_disabled(),
            },
    {
        if self.disabled {
            return None;
        }
        Some(u32_to_le(FAKE_PID))
    }

    /// The message that tells the fuzzer how the test case ended, if any.
    pub fn report(&self, status: RunStatus) -> (message: Option<[u8; 4]>)
        ensures
            match message {
                Some(bytes) => !self.is_disabled() && bytes@ == u32_le_bytes(status_word(status)) && bytes@.len()
                    == MESSAGE_SIZE,
                None => self.is_disabled(),
            },
    {
        if self.disabled {
            return None;
        }
        let word: u32 = match status {
            RunStatus::Success => 0,
            RunStatus::Failure => FAILURE_STATUS,
        };
        Some(u32_to_le(word))
    }
}

} // verus!
