//! The broker's client: asks for a capability, naming the slot where it is to
//! go, and proves that it got a real one by signalling it.

use crate::broker_demo::{CLIENT_DEST_CPTR, ENDPOINT_CPTR};
use crate::launch::CPtr;
use vstd::prelude::*;

verus! {

/// What the client asks for. It is also what the client waits for.
#[derive(Clone, Copy, PartialEq, Eq, Structural, Debug)]
pub enum Action {
    /// Call, with `dest` as the slot for a capability that the reply attaches.
    CallWithReplySlot { endpoint: CPtr, dest: CPtr, word0: u64, word1: u64 },
    Signal { slot: CPtr },
    /// Nothing, ever again.
    Idle,
}

/// Asks the broker.
pub open spec fn first_action() -> Action {
    Action::CallWithReplySlot {
        endpoint: ENDPOINT_CPTR,
        dest: CLIENT_DEST_CPTR,
        word0: 0,
        word1: 0,
    }
}

/// What the client asks for after `action`, whatever came of it.
pub open spec fn next_of(action: Action) -> Action {
    match action {
        Action::CallWithReplySlot { endpoint, dest, word0, word1 } => Action::Signal {
            slot: CLIENT_DEST_CPTR,
        },
        _ => Action::Idle,
    }
}

/// What the client asks for first.
pub fn start() -> (action: Action)
    ensures
        action == first_action(),
{
    Action::CallWithReplySlot {
        endpoint: ENDPOINT_CPTR,
        dest: CLIENT_DEST_CPTR,
        word0: 0,
        word1: 0,
    }
}

/// Goes on after `action`.
pub fn step(action: Action) -> (next: Action)
    ensures
        next == next_of(action),
{
    match action {
        Action::CallWithReplySlot { .. } => Action::Signal { slot: CLIENT_DEST_CPTR },
        _ => Action::Idle,
    }
}

} // verus!
