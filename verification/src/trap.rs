//! What a trap handler can tell about the system calls of confined programs.
//!
//! A confined program cannot print, so the trap handler narrates for it, from
//! what the kernel's dispatch left behind.

use crate::launch::CPtr;
use vstd::prelude::*;

verus! {

/// The system calls that are narrated.
#[derive(Clone, Copy, PartialEq, Eq, Structural, Debug)]
pub enum Syscall {
    Call,
    Recv,
    Reply,
    CNodeInvoke,
    Signal,
    Other,
}

/// What a client that signals one of two notifications says.
#[derive(Clone, Copy, PartialEq, Eq, Structural, Debug)]
pub enum Verdict {
    Success,
    Failure,
    Unknown,
}

/// What signalling the notification at `signalled` says, when those for
/// success and failure are at these slots.
pub open spec fn verdict_of(signalled: CPtr, success: CPtr, failure: CPtr) -> Verdict {
    if signalled == success {
        Verdict::Success
    } else if signalled == failure {
        Verdict::Failure
    } else {
        Verdict::Unknown
    }
}

/// Tells which of two notifications was signalled.
pub fn verdict(signalled: CPtr, success: CPtr, failure: CPtr) -> (verdict: Verdict)
    ensures
        verdict == verdict_of(signalled, success, failure),
{
    if signalled == success {
        Verdict::Success
    } else if signalled == failure {
        Verdict::Failure
    } else {
        Verdict::Unknown
    }
}

} // verus!
