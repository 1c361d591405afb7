//! The broker: waits for a client, mints an attenuated copy of the resource it
//! administers, and hands it over with its reply.

use crate::broker_demo::{BROKER_RESOURCE_CPTR, BROKER_SELF_CNODE_CPTR, ENDPOINT_CPTR};
use crate::launch::{CPtr, Rights};
use vstd::prelude::*;

verus! {

/// The slot that the minted copy lies in until it is handed over.
pub const SCRATCH_CPTR: CPtr = 3;

/// The words that go with the reply.
pub const REPLY_WORD0: u64 = 111;

pub const REPLY_WORD1: u64 = 222;

/// What the broker asks for. It is also what the broker waits for the outcome
/// of.
#[derive(Clone, Copy, PartialEq, Eq, Structural, Debug)]
pub enum Action {
    Recv { endpoint: CPtr },
    /// Mint, in the broker's own space `cnode`, a copy of `source` into `dest`.
    Mint { cnode: CPtr, source: CPtr, dest: CPtr, rights: Rights },
    /// Reply, with the capability at `slot` attached.
    GrantViaReply { slot: CPtr, word0: u64, word1: u64 },
    /// Nothing, ever again.
    Idle,
}

/// Waits for a client.
pub open spec fn first_action() -> Action {
    Action::Recv { endpoint: ENDPOINT_CPTR }
}

/// Mints what the client gets: enough to read, to write and to pass on.
pub open spec fn mint_action() -> Action {
    Action::Mint {
        cnode: BROKER_SELF_CNODE_CPTR,
        source: BROKER_RESOURCE_CPTR,
        dest: SCRATCH_CPTR,
        rights: Rights::Only { read: true, write: true, grant: true },
    }
}

/// Hands it over.
pub open spec fn grant_action() -> Action {
    Action::GrantViaReply { slot: SCRATCH_CPTR, word0: REPLY_WORD0, word1: REPLY_WORD1 }
}

/// What the broker asks for after `action` worked or did not. Only a failed
/// mint keeps it from going on.
pub open spec fn next_of(action: Action, worked: bool) -> Action {
    match action {
        Action::Recv { endpoint } => mint_action(),
        Action::Mint { cnode, source, dest, rights } => if worked {
            grant_action()
        } else {
            Action::Idle
        },
        Action::GrantViaReply { slot, word0, word1 } => Action::Idle,
        Action::Idle => Action::Idle,
    }
}

/// What the broker asks for first.
pub fn start() -> (action: Action)
    ensures
        action == first_action(),
{
    Action::Recv { endpoint: ENDPOINT_CPTR }
}

/// Goes on after `action` worked or did not.
pub fn step(action: Action, worked: bool) -> (next: Action)
    ensures
        next == next_of(action, worked),
{
    match action {
        Action::Recv { .. } => Action::Mint {
            cnode: BROKER_SELF_CNODE_CPTR,
            source: BROKER_RESOURCE_CPTR,
            dest: SCRATCH_CPTR,
            rights: Rights::Only { read: true, write: true, grant: true },
        },
        Action::Mint { .. } => {
            if worked {
                Action::GrantViaReply { slot: SCRATCH_CPTR, word0: REPLY_WORD0, word1: REPLY_WORD1 }
            } else {
                Action::Idle
            }
        },
        Action::GrantViaReply { .. } => Action::Idle,
        Action::Idle => Action::Idle,
    }
}

/// What the broker asks for after `outcomes`.
pub open spec fn action_after(outcomes: Seq<bool>) -> Action
    decreases outcomes.len(),
{
    if outcomes.len() == 0 {
        first_action()
    } else {
        next_of(action_after(outcomes.drop_last()), outcomes.last())
    }
}

/// The broker hands something over exactly if its mint worked, right after it,
/// and so only once. It mints after it has waited for a request, whatever came
/// of that; and what it hands over is what it minted.
pub proof fn law_broker_grants_only_what_it_minted(outcomes: Seq<bool>)
    ensures
        action_after(outcomes) is GrantViaReply <==> outcomes.len() == 2 && outcomes[1],
        action_after(outcomes) is GrantViaReply ==> action_after(outcomes.drop_last())
            == mint_action() && mint_action()->dest == action_after(outcomes)->slot,
{
    reveal_with_fuel(action_after, 4);
    lemma_idle_from_third(outcomes);
}

proof fn lemma_idle_from_third(outcomes: Seq<bool>)
    ensures
        outcomes.len() >= 3 ==> action_after(outcomes) == Action::Idle,
    decreases outcomes.len(),
{
    reveal_with_fuel(action_after, 4);
    if outcomes.len() > 3 {
        lemma_idle_from_third(outcomes.drop_last());
    }
}

} // verus!
