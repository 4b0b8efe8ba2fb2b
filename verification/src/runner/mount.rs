//! The life cycle of the loop device that carries the image.
//!
//! A file is attached to the loop device, the device is mounted, unmounted
//! and detached again. The kernel holds on to a mounted device, so the
//! device must never be detached while it is mounted; and a device that
//! stays attached makes the next attach fail. This file says which step
//! comes next; taking it is for the runner.

use vstd::prelude::*;

verus! {

/// What has been done to the loop device.
#[derive(Clone, Copy, Debug, PartialEq, Eq, Structural)]
pub enum MountState {
    /// No file is attached.
    Idle,
    /// A file is attached and the device is not mounted.
    Attached,
    /// A file is attached and the device is mounted.
    Mounted,
}

/// A step on the loop device.
#[derive(Clone, Copy, Debug, PartialEq, Eq, Structural)]
pub enum MountStep {
    Attach,
    Mount,
    Unmount,
    Detach,
}

/// The state after `step` was taken in `state`; `None` where the step must
/// not be taken there.
pub open spec fn state_after(state: MountState, step: MountStep) -> Option<MountState> {
    match (state, step) {
        (MountState::Idle, MountStep::Attach) => Some(MountState::Attached),
        (MountState::Attached, MountStep::Mount) => Some(MountState::Mounted),
        (MountState::Mounted, MountStep::Unmount) => Some(MountState::Attached),
        (MountState::Attached, MountStep::Detach) => Some(MountState::Idle),
        _ => None,
    }
}

/// The step that brings `state` nearer to `target`; `None` where they are
/// the same.
pub open spec fn step_towards(state: MountState, target: MountState) -> Option<MountStep> {
    match (state, target) {
        (MountState::Idle, MountState::Attached) => Some(MountStep::Attach),
        (MountState::Idle, MountState::Mounted) => Some(MountStep::Attach),
        (MountState::Attached, MountState::Mounted) => Some(MountStep::Mount),
        (MountState::Attached, MountState::Idle) => Some(MountStep::Detach),
        (MountState::Mounted, MountState::Attached) => Some(MountStep::Unmount),
        (MountState::Mounted, MountState::Idle) => Some(MountStep::Unmount),
        _ => None,
    }
}

/// Number of steps from `state` to `target`.
pub open spec fn distance(state: MountState, target: MountState) -> nat {
    let rank = |s: MountState|
        match s {
            MountState::Idle => 0int,
            MountState::Attached => 1int,
            MountState::Mounted => 2int,
        };
    if rank(state) <= rank(target) {
        (rank(target) - rank(state)) as nat
    } else {
        (rank(state) - rank(target)) as nat
    }
}

/// Every step that `step_towards` names may be taken and leads one step
/// nearer to the target. So a mounted device is unmounted before it is
/// detached, and a failed mount is followed by the detach.
pub proof fn lemma_steps_reach_target(state: MountState, target: MountState)
    ensures
        match step_towards(state, target) {
            Some(step) => state_after(state, step) matches Some(next) && distance(next, target) + 1 == distance(
                state,
                target,
            ),
            None => state == target,
        },
        step_towards(MountState::Mounted, MountState::Idle) == Some(MountStep::Unmount),
        step_towards(MountState::Attached, MountState::Idle) == Some(MountStep::Detach),
{
}

impl MountState {
    /// Takes `step`, if it may be taken in this state.
    pub fn after(self, step: MountStep) -> (next: Option<MountState>)
        ensures
            next == state_after(self, step),
    {
        match (self, step) {
            (MountState::Idle, MountStep::Attach) => Some(MountState::Attached),
            (MountState::Attached, MountStep::Mount) => Some(MountState::Mounted),
            (MountState::Mounted, MountStep::Unmount) => Some(MountState::Attached),
            (MountState::Attached, MountStep::Detach) => Some(MountState::Idle),
            _ => None,
        }
    }

    /// The next step on the way to `target`.
    pub fn towards(self, target: MountState) -> (step: Option<MountStep>)
        ensures
            step == step_towards(self, target),
    {
        match (self, target) {
            (MountState::Idle, MountState::Attached) => Some(MountStep::Attach),
            (MountState::Idle, MountState::Mounted) => Some(MountStep::Attach),
            (MountState::Attached, MountState::Mounted) => Some(MountStep::Mount),
            (MountState::Attached, MountState::Idle) => Some(MountStep::Detach),
            (MountState::Mounted, MountState::Attached) => Some(MountStep::Unmount),
            (MountState::Mounted, MountState::Idle) => Some(MountStep::Unmount),
            _ => None,
        }
    }

    /// Whether a new mount may start: only when no file is attached.
    pub fn can_mount(self) -> (free: bool)
        ensures
            free == (self == MountState::Idle),
    {
        match self {
            MountState::Idle => true,
            _ => false,
        }
    }
}

} // verus!
