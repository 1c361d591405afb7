//! The store's client: gets access, writes a file, reads it back, and signals
//! whether it read what it wrote.

use crate::bytes::same_bytes;
use crate::launch::CPtr;
use crate::store_demo::{CLIENT_FAILURE_CPTR, CLIENT_SUCCESS_CPTR, STORE_CLIENT_ENDPOINT_CPTR};
use vstd::prelude::*;
use vstd::slice::slice_to_vec;

verus! {

/// The slot for the capability that the store grants.
pub const DEST_CPTR: CPtr = 2;

/// The longest replies that are taken, to a write and to a read.
pub const WRITE_REPLY_CAP: usize = 16;

pub const READ_REPLY_CAP: usize = 128;

/// `a confined store secret, encrypted by a confined keystore`.
pub open spec fn content_bytes() -> Seq<u8> {
    seq![
        0x61u8, 0x20, 0x63, 0x6F, 0x6E, 0x66, 0x69, 0x6E, 0x65, 0x64, 0x20, 0x73, 0x74,
        0x6F, 0x72, 0x65, 0x20, 0x73, 0x65, 0x63, 0x72, 0x65, 0x74, 0x2C, 0x20, 0x65,
        0x6E, 0x63, 0x72, 0x79, 0x70, 0x74, 0x65, 0x64, 0x20, 0x62, 0x79, 0x20, 0x61,
        0x20, 0x63, 0x6F, 0x6E, 0x66, 0x69, 0x6E, 0x65, 0x64, 0x20, 0x6B, 0x65, 0x79,
        0x73, 0x74, 0x6F, 0x72, 0x65,
    ]
}

/// What the client asks for. It is also what the client waits for the outcome
/// of.
#[derive(PartialEq, Eq, Debug)]
pub enum Action {
    /// Ask the store for access, to be granted at `dest`.
    Connect { endpoint: CPtr, dest: CPtr, word0: u64, word1: u64 },
    /// Write this content, with room for a reply of `reply_cap` bytes.
    Write { endpoint: CPtr, content: Vec<u8>, reply_cap: usize },
    /// Read it back, likewise. The request is empty.
    Read { endpoint: CPtr, reply_cap: usize },
    /// The round trip is over: nothing where the channel failed, and otherwise
    /// whether the content came back.
    Finished { outcome: Option<bool> },
    /// Signal the verdict.
    Signal { slot: CPtr },
    /// Nothing, ever again.
    Idle,
}

/// What an [`Action`] says.
pub enum ActionView {
    Connect { endpoint: CPtr, dest: CPtr, word0: u64, word1: u64 },
    Write { endpoint: CPtr, content: Seq<u8>, reply_cap: usize },
    Read { endpoint: CPtr, reply_cap: usize },
    Finished { outcome: Option<bool> },
    Signal { slot: CPtr },
    Idle,
}

impl View for Action {
    type V = ActionView;

    open spec fn view(&self) -> ActionView {
        match *self {
            Action::Connect { endpoint, dest, word0, word1 } => ActionView::Connect {
                endpoint,
                dest,
                word0,
                word1,
            },
            Action::Write { endpoint, content, reply_cap } => ActionView::Write {
                endpoint,
                content: content@,
                reply_cap,
            },
            Action::Read { endpoint, reply_cap } => ActionView::Read { endpoint, reply_cap },
            Action::Finished { outcome } => ActionView::Finished { outcome },
            Action::Signal { slot } => ActionView::Signal { slot },
            Action::Idle => ActionView::Idle,
        }
    }
}

/// How what was asked for came out.
#[derive(Clone, Copy)]
pub enum Event<'a> {
    /// It is over, and there is nothing to tell.
    Returned,
    /// Whether the status is good, and the reply; or nothing where the channel
    /// failed.
    Answered { reply: Option<(bool, &'a [u8])> },
}

/// What an [`Event`] says.
pub enum EventView {
    Returned,
    Answered { reply: Option<(bool, Seq<u8>)> },
}

impl<'a> View for Event<'a> {
    type V = EventView;

    open spec fn view(&self) -> EventView {
        match *self {
            Event::Returned => EventView::Returned,
            Event::Answered { reply } => EventView::Answered {
                reply: match reply {
                    Some((status_ok, bytes)) => Some((status_ok, bytes@)),
                    None => None,
                },
            },
        }
    }
}

/// Asks for access.
pub open spec fn first_action() -> ActionView {
    ActionView::Connect {
        endpoint: STORE_CLIENT_ENDPOINT_CPTR,
        dest: DEST_CPTR,
        word0: 0,
        word1: 0,
    }
}

/// Has the content written.
pub open spec fn write_action() -> ActionView {
    ActionView::Write {
        endpoint: DEST_CPTR,
        content: content_bytes(),
        reply_cap: WRITE_REPLY_CAP,
    }
}

/// Has it read back.
pub open spec fn read_action() -> ActionView {
    ActionView::Read { endpoint: DEST_CPTR, reply_cap: READ_REPLY_CAP }
}

/// Signals success exactly if the content came back.
pub open spec fn verdict_action(outcome: Option<bool>) -> ActionView {
    ActionView::Signal {
        slot: if outcome == Some(true) {
            CLIENT_SUCCESS_CPTR
        } else {
            CLIENT_FAILURE_CPTR
        },
    }
}

/// The reply that came, if one did, and whether its status is good.
pub open spec fn reply_of(event: EventView) -> Option<(bool, Seq<u8>)> {
    match event {
        EventView::Answered { reply } => reply,
        EventView::Returned => None,
    }
}

/// What the client asks for next. A broken channel ends the round trip without
/// an outcome; a status that is not good ends it with a mismatch.
pub open spec fn next_of(action: ActionView, event: EventView) -> ActionView {
    match action {
        ActionView::Connect { .. } => write_action(),
        ActionView::Write { .. } => match reply_of(event) {
            Some((status_ok, bytes)) => if status_ok {
                read_action()
            } else {
                ActionView::Finished { outcome: Some(false) }
            },
            None => ActionView::Finished { outcome: None },
        },
        ActionView::Read { .. } => ActionView::Finished {
            outcome: match reply_of(event) {
                Some((status_ok, bytes)) => Some(status_ok && bytes == content_bytes()),
                None => None,
            },
        },
        ActionView::Finished { outcome } => verdict_action(outcome),
        ActionView::Signal { .. } => ActionView::Idle,
        ActionView::Idle => ActionView::Idle,
    }
}

/// The content.
pub fn content() -> (bytes: [u8; 57])
    ensures
        bytes@ == content_bytes(),
{
    let bytes: [u8; 57] = [
        0x61, 0x20, 0x63, 0x6F, 0x6E, 0x66, 0x69, 0x6E, 0x65, 0x64, 0x20, 0x73, 0x74,
        0x6F, 0x72, 0x65, 0x20, 0x73, 0x65, 0x63, 0x72, 0x65, 0x74, 0x2C, 0x20, 0x65,
        0x6E, 0x63, 0x72, 0x79, 0x70, 0x74, 0x65, 0x64, 0x20, 0x62, 0x79, 0x20, 0x61,
        0x20, 0x63, 0x6F, 0x6E, 0x66, 0x69, 0x6E, 0x65, 0x64, 0x20, 0x6B, 0x65, 0x79,
        0x73, 0x74, 0x6F, 0x72, 0x65,
    ];
    assert(bytes@ =~= content_bytes());
    bytes
}

/// What the client asks for first.
pub fn start() -> (action: Action)
    ensures
        action@ == first_action(),
{
    Action::Connect {
        endpoint: STORE_CLIENT_ENDPOINT_CPTR,
        dest: DEST_CPTR,
        word0: 0,
        word1: 0,
    }
}

/// Goes on after what came of `action`.
pub fn step(action: &Action, event: Event) -> (next: Action)
    ensures
        next@ == next_of(action@, event@),
{
    let reply: Option<(bool, &[u8])> = match event {
        Event::Answered { reply } => reply,
        Event::Returned => None,
    };
    match action {
        Action::Connect { .. } => {
            let written: [u8; 57] = content();
            Action::Write {
                endpoint: DEST_CPTR,
                content: slice_to_vec(written.as_slice()),
                reply_cap: WRITE_REPLY_CAP,
            }
        },
        Action::Write { .. } => match reply {
            Some((true, _)) => Action::Read {
                endpoint: DEST_CPTR,
                reply_cap: READ_REPLY_CAP,
            },
            Some((false, _)) => Action::Finished { outcome: Some(false) },
            None => Action::Finished { outcome: None },
        },
        Action::Read { .. } => match reply {
            Some((status_ok, bytes)) => {
                let written: [u8; 57] = content();
                Action::Finished {
                    outcome: Some(status_ok && same_bytes(bytes, written.as_slice())),
                }
            },
            None => Action::Finished { outcome: None },
        },
        Action::Finished { outcome } => match outcome {
            Some(true) => Action::Signal { slot: CLIENT_SUCCESS_CPTR },
            _ => Action::Signal { slot: CLIENT_FAILURE_CPTR },
        },
        Action::Signal { .. } => Action::Idle,
        Action::Idle => Action::Idle,
    }
}

/// What the client asks for after `events`.
pub open spec fn action_after(events: Seq<EventView>) -> ActionView
    decreases events.len(),
{
    if events.len() == 0 {
        first_action()
    } else {
        next_of(action_after(events.drop_last()), events.last())
    }
}

/// Everything went well: both calls came back with a good status, and the
/// second with the content.
pub open spec fn content_came_back(events: Seq<EventView>) -> bool {
    &&& events.len() >= 3
    &&& events[1] matches EventView::Answered { reply: Some((true, _)) }
    &&& events[2] == (EventView::Answered { reply: Some((true, content_bytes())) })
}

proof fn lemma_place(events: Seq<EventView>)
    ensures
        match action_after(events) {
            ActionView::Connect { .. } => events.len() == 0,
            ActionView::Write { .. } => events.len() == 1,
            ActionView::Read { .. } => events.len() == 2,
            ActionView::Finished { .. } => 2 <= events.len() <= 3,
            ActionView::Signal { .. } => 3 <= events.len() <= 4,
            ActionView::Idle => events.len() >= 4,
        },
    decreases events.len(),
{
    if events.len() > 0 {
        lemma_place(events.drop_last());
    }
}

/// Nothing is read back before the content was written under a good status.
pub proof fn law_reads_only_what_it_wrote(events: Seq<EventView>)
    requires
        action_after(events) is Read,
    ensures
        events.len() == 2,
        action_after(events) == (ActionView::Read { endpoint: 2, reply_cap: 128 }),
        action_after(events.drop_last()) == (ActionView::Write {
            endpoint: 2,
            content: content_bytes(),
            reply_cap: 16,
        }),
        events.last() matches EventView::Answered { reply: Some((true, _)) },
{
    lemma_place(events);
    lemma_place(events.drop_last());
    reveal_with_fuel(action_after, 3);
}

/// Where everything went well, the content was written, then read, and the
/// outcome says so.
proof fn lemma_went_well(events: Seq<EventView>)
    requires
        content_came_back(events),
    ensures
        action_after(events.take(1)) == write_action(),
        action_after(events.take(2)) == read_action(),
        action_after(events.take(3)) == (ActionView::Finished { outcome: Some(true) }),
{
    assert(action_after(events.take(0)) == first_action());
    assert(events.take(1).drop_last() =~= events.take(0));
    assert(events.take(2).drop_last() =~= events.take(1));
    assert(events.take(3).drop_last() =~= events.take(2));
    assert(events.take(2).last() == events[1]);
    assert(events.take(3).last() == events[2]);
}

/// A round trip that is over has no outcome exactly if the last call broke on
/// the channel. It has the outcome that the content came back exactly if it
/// did; and the opposite outcome otherwise.
pub proof fn law_outcome_of_the_round_trip(events: Seq<EventView>, outcome: Option<bool>)
    requires
        action_after(events) == (ActionView::Finished { outcome }),
    ensures
        events.len() > 0,
        outcome is Some <==> (events.last() is Answered && events.last()->reply is Some),
        outcome == Some(true) <==> content_came_back(events),
{
    lemma_place(events);
    let before = events.drop_last();
    lemma_place(before);
    if action_after(before) is Read {
        law_reads_only_what_it_wrote(before);
        assert(before.last() == events[1]);
    } else {
        assert(events.len() == 2);
    }
}

/// The client signals success exactly if its write worked and its read gave
/// back what it wrote.
pub proof fn law_success_means_the_content_came_back(events: Seq<EventView>)
    ensures
        action_after(events) == (ActionView::Signal { slot: 3 }) <==> {
            &&& events.len() == 4
            &&& content_came_back(events)
        },
        content_came_back(events) ==> action_after(events.take(1)) == (ActionView::Write {
            endpoint: 2,
            content: content_bytes(),
            reply_cap: 16,
        }) && action_after(events.take(2)) == (ActionView::Read { endpoint: 2, reply_cap: 128 }),
        action_after(events) matches ActionView::Signal { slot } ==> slot == 3 || slot == 4,
        events.len() == 0 ==> action_after(events) == (ActionView::Connect {
            endpoint: 1,
            dest: 2,
            word0: 0,
            word1: 0,
        }),
{
    lemma_place(events);
    if content_came_back(events) {
        lemma_went_well(events);
        if events.len() == 4 {
            assert(events.take(3) =~= events.drop_last());
        }
    }
    if action_after(events) == (ActionView::Signal { slot: CLIENT_SUCCESS_CPTR }) {
        let before = events.drop_last();
        lemma_place(before);
        law_outcome_of_the_round_trip(before, Some(true));
    }
}

/// Nothing is asked for after the verdict.
proof fn lemma_idle_after_the_verdict(events: Seq<EventView>, n: int)
    requires
        0 <= n < events.len(),
        action_after(events.take(n)) is Signal || action_after(events.take(n)) is Idle,
    ensures
        action_after(events) is Idle,
    decreases events.len(),
{
    let before = events.drop_last();
    assert(events.take(n) =~= before.take(n));
    if n < before.len() {
        lemma_idle_after_the_verdict(before, n);
    } else {
        assert(before.take(n) =~= before);
    }
}

/// A verdict is always signalled, after four outcomes at the latest, and only one:
/// `n` is where.
pub proof fn law_one_verdict(events: Seq<EventView>) -> (n: int)
    requires
        events.len() >= 4,
    ensures
        3 <= n <= 4,
        action_after(events.take(n)) is Signal,
        forall|m: int|
            0 <= m <= events.len() && m != n ==> !(#[trigger] action_after(events.take(m))
                is Signal),
        n < events.len() ==> action_after(events) is Idle,
    decreases events.len(),
{
    lemma_place(events);
    let before = events.drop_last();
    assert(events.take(events.len() as int) =~= events);
    assert forall|m: int| 0 <= m < events.len() implies #[trigger] events.take(m) == before.take(
        m,
    ) by {
        assert(events.take(m) =~= before.take(m));
    }
    if action_after(events) is Signal {
        assert forall|m: int| 0 <= m < events.len() implies !(#[trigger] action_after(
            events.take(m),
        ) is Signal) by {
            if action_after(events.take(m)) is Signal {
                lemma_idle_after_the_verdict(events, m);
            }
        }
        events.len() as int
    } else if events.len() > 4 {
        law_one_verdict(before)
    } else {
        lemma_verdict_before(events)
    }
}

proof fn lemma_verdict_before(events: Seq<EventView>) -> (n: int)
    requires
        action_after(events) is Idle,
    ensures
        3 <= n < events.len(),
        action_after(events.take(n)) is Signal,
        forall|m: int|
            0 <= m <= events.len() && m != n ==> !(#[trigger] action_after(events.take(m))
                is Signal),
    decreases events.len(),
{
    let before = events.drop_last();
    lemma_place(events);
    lemma_place(before);
    assert(events.take(events.len() as int) =~= events);
    assert forall|m: int| 0 <= m < events.len() implies #[trigger] events.take(m) == before.take(
        m,
    ) by {
        assert(events.take(m) =~= before.take(m));
    }
    if action_after(before) is Idle {
        lemma_verdict_before(before)
    } else {
        assert(before.take(before.len() as int) =~= before);
        assert forall|m: int| 0 <= m < before.len() implies !(#[trigger] action_after(
            events.take(m),
        ) is Signal) by {
            if action_after(before.take(m)) is Signal {
                lemma_idle_after_the_verdict(before, m);
            }
        }
        before.len() as int
    }
}

} // verus!
