//! What the end of a test case means.

use crate::runner::forkserver::RunStatus;
use vstd::prelude::*;

verus! {

/// Exit code of a child that has done its work.
pub const EXIT_OK: i32 = 88;

/// Exit code of a child that could not start its work.
pub const EXIT_BAD: i32 = 89;

/// How the child of a test case ended.
#[derive(Clone, Copy, Debug, PartialEq, Eq, Structural)]
pub enum ChildExit {
    /// It exited with this code.
    Exited(i32),
    /// A signal ended it.
    Signaled,
    /// It has not ended: it was stopped or continued.
    Other,
}

/// Why the harness cannot go on.
#[derive(Clone, Copy, Debug, PartialEq, Eq, Structural)]
pub enum HarnessError {
    /// The child exited with a code other than `EXIT_OK`.
    UncleanExit(i32),
    /// The child was waited for and has not ended.
    UnexpectedStatus,
}

/// What a test case counts as. A crash in the kernel log is a failure
/// whatever became of the child. Otherwise the clean exit is a success, a
/// death by signal a failure, and anything else a fault of the harness.
pub open spec fn run_outcome(kmsg_has_bug: bool, exit: ChildExit) -> Result<RunStatus, HarnessError> {
    if kmsg_has_bug {
        Ok(RunStatus::Failure)
    } else {
        match exit {
            ChildExit::Exited(code) => if code == EXIT_OK {
                Ok(RunStatus::Success)
            } else {
                Err(HarnessError::UncleanExit(code))
            },
            ChildExit::Signaled => Ok(RunStatus::Failure),
            ChildExit::Other => Err(HarnessError::UnexpectedStatus),
        }
    }
}

/// Decides what a test case counts as.
pub fn classify_run(kmsg_has_bug: bool, exit: ChildExit) -> (outcome: Result<RunStatus, HarnessError>)
    ensures
        outcome == run_outcome(kmsg_has_bug, exit),
{
    if kmsg_has_bug {
        return Ok(RunStatus::Failure);
    }
    match exit {
        ChildExit::Exited(code) => {
            if code != EXIT_OK {
                return Err(HarnessError::UncleanExit(code));
            }
            Ok(RunStatus::Success)
        },
        ChildExit::Signaled => Ok(RunStatus::Failure),
        ChildExit::Other => Err(HarnessError::UnexpectedStatus),
    }
}

/// The file, of `slots` files, that keeps test case number `count`: the
/// files are written in turn, so the last `slots` test cases can be found
/// after a crash of the kernel.
pub fn ring_slot(count: u64, slots: u64) -> (slot: u64)
    requires
        slots > 0,
    ensures
        slot == count % slots,
{
    count % slots
}

/// Whether `hash` is the hash of an input that is known to crash.
pub fn is_known_crash(known: &[u64], hash: u64) -> (found: bool)
    ensures
        found == known@.contains(hash),
{
    let mut i: usize = 0;
    while i < known.len()
        invariant
            i <= known.len(),
            forall|j: int| 0 <= j < i ==> known@[j] != hash,
        decreases known.len() - i,
    {
        if known[i] == hash {
            return true;
        }
        i += 1;
    }
    false
}

} // verus!
