//! A confined service: lets one client in, then answers its requests for good.
//!
//! The keystore and the store are both of this kind. When a client calls, the
//! service mints an attenuated copy of its own endpoint and hands it over with
//! its reply; after that it receives requests on the endpoint, has each handled
//! under the badge that it came with, and replies. The store first gets access
//! to the keystore in the same way, as a client.

use crate::keystore_demo;
use crate::launch::CPtr;
use crate::store_demo;
use vstd::prelude::*;
use vstd::slice::slice_to_vec;

verus! {

/// The longest request that is taken, and the longest reply that is given.
pub const REQUEST_CAP: usize = 256;

/// Every byte of the keystore's demonstration key. A real deployment has its key
/// from hardware.
pub const KEY_SEED_BYTE: u8 = 0x42;

/// The slots that minted copies lie in until they are handed over.
pub const KEYSTORE_SCRATCH_CPTR: CPtr = 3;

pub const STORE_SCRATCH_CPTR: CPtr = 4;

/// The store's slot for the capability that the keystore grants it.
pub const STORE_KS_DEST_CPTR: CPtr = 2;

/// Another service that this one is a client of.
#[derive(Clone, Copy, PartialEq, Eq, Structural, Debug)]
pub struct Upstream {
    pub endpoint: CPtr,
    /// The slot for the capability that the other service grants.
    pub dest: CPtr,
}

/// What a client may do with what it is granted access to.
#[derive(Clone, Copy, PartialEq, Eq, Structural, Debug)]
pub enum Access {
    /// Encrypt and decrypt with the one key, and nothing else.
    EncryptDecrypt,
    /// Read and write the one file, and nothing else.
    ReadWrite,
}

/// Which service this is.
#[derive(Clone, Copy, PartialEq, Eq, Structural, Debug)]
pub struct Service {
    /// The service's own space, which it mints in.
    pub cnode: CPtr,
    /// The endpoint that clients reach the service on, and that what they get
    /// is minted from.
    pub endpoint: CPtr,
    /// The slot that a minted copy lies in until it is handed over.
    pub scratch: CPtr,
    /// What the client may do.
    pub access: Access,
    pub upstream: Option<Upstream>,
}

/// What the service asks for. It is also what it waits for the outcome of.
#[derive(PartialEq, Eq, Debug)]
pub enum Action {
    /// Ask the other service for access.
    Connect { endpoint: CPtr, dest: CPtr, word0: u64, word1: u64 },
    /// Wait for the client.
    AwaitClient { endpoint: CPtr },
    /// Mint the client's access, in the space `cnode`, from `source` into
    /// `dest`.
    MintAccess { cnode: CPtr, source: CPtr, dest: CPtr, access: Access },
    /// Hand it over with the reply.
    DeliverAccess { slot: CPtr, word0: u64, word1: u64 },
    /// Wait for a request.
    AwaitRequest { endpoint: CPtr },
    /// Read the request, which came with this badge, if it has at most `cap`
    /// bytes.
    ReadRequest { badge: u64, cap: usize },
    /// Have the request handled for the holder of this badge, with room for a
    /// reply of `cap` bytes.
    Handle { badge: u64, op: u16, request: Vec<u8>, cap: usize },
    /// Reply with what handling the request gave.
    Answer { status: u16, reply: Vec<u8> },
    /// Nothing, ever again.
    Idle,
}

/// What an [`Action`] says.
pub enum ActionView {
    Connect { endpoint: CPtr, dest: CPtr, word0: u64, word1: u64 },
    AwaitClient { endpoint: CPtr },
    MintAccess { cnode: CPtr, source: CPtr, dest: CPtr, access: Access },
    DeliverAccess { slot: CPtr, word0: u64, word1: u64 },
    AwaitRequest { endpoint: CPtr },
    ReadRequest { badge: u64, cap: usize },
    Handle { badge: u64, op: u16, request: Seq<u8>, cap: usize },
    Answer { status: u16, reply: Seq<u8> },
    Idle,
}

impl View for Action {
    type V = ActionView;

    open spec fn view(&self) -> ActionView {
        match *self {
            Action::Connect { endpoint, dest, word0, word1 } => ActionView::Connect {
                endpoint,
                dest,
                word0,
                word1,
            },
            Action::AwaitClient { endpoint } => ActionView::AwaitClient { endpoint },
            Action::MintAccess { cnode, source, dest, access } => ActionView::MintAccess {
                cnode,
                source,
                dest,
                access,
            },
            Action::DeliverAccess { slot, word0, word1 } => ActionView::DeliverAccess {
                slot,
                word0,
                word1,
            },
            Action::AwaitRequest { endpoint } => ActionView::AwaitRequest { endpoint },
            Action::ReadRequest { badge, cap } => ActionView::ReadRequest { badge, cap },
            Action::Handle { badge, op, request, cap } => ActionView::Handle {
                badge,
                op,
                request: request@,
                cap,
            },
            Action::Answer { status, reply } => ActionView::Answer { status, reply: reply@ },
            Action::Idle => ActionView::Idle,
        }
    }
}

/// How what was asked for came out.
#[derive(Clone, Copy)]
pub enum Event<'a> {
    /// A message came in, with this badge, or receiving failed.
    Received { badge: Option<u64> },
    /// The operation worked, or failed.
    Outcome { worked: bool },
    /// The request is for this operation, with these bytes; or it did not come
    /// through, which has then been answered.
    Read { request: Option<(u16, &'a [u8])> },
    /// Handling the request gave this status and this reply.
    Handled { status: u16, reply: &'a [u8] },
}

/// What an [`Event`] says.
pub enum EventView {
    Received { badge: Option<u64> },
    Outcome { worked: bool },
    Read { request: Option<(u16, Seq<u8>)> },
    Handled { status: u16, reply: Seq<u8> },
}

impl<'a> View for Event<'a> {
    type V = EventView;

    open spec fn view(&self) -> EventView {
        match *self {
            Event::Received { badge } => EventView::Received { badge },
            Event::Outcome { worked } => EventView::Outcome { worked },
            Event::Read { request } => EventView::Read {
                request: match request {
                    Some((op, bytes)) => Some((op, bytes@)),
                    None => None,
                },
            },
            Event::Handled { status, reply } => EventView::Handled { status, reply: reply@ },
        }
    }
}

/// The keystore.
pub open spec fn keystore_of() -> Service {
    Service {
        cnode: keystore_demo::KEYSTORE_SELF_CNODE_CPTR,
        endpoint: keystore_demo::ENDPOINT_CPTR,
        scratch: KEYSTORE_SCRATCH_CPTR,
        access: Access::EncryptDecrypt,
        upstream: None,
    }
}

/// The store, a client of the keystore.
pub open spec fn store_of() -> Service {
    Service {
        cnode: store_demo::STORE_SELF_CNODE_CPTR,
        endpoint: store_demo::STORE_SERVICE_OWN_ENDPOINT_CPTR,
        scratch: STORE_SCRATCH_CPTR,
        access: Access::ReadWrite,
        upstream: Some(
            Upstream { endpoint: store_demo::KS_ENDPOINT_CPTR, dest: STORE_KS_DEST_CPTR },
        ),
    }
}

/// What the service asks for first.
pub open spec fn first_action(service: Service) -> ActionView {
    match service.upstream {
        Some(u) => ActionView::Connect { endpoint: u.endpoint, dest: u.dest, word0: 0, word1: 0 },
        None => ActionView::AwaitClient { endpoint: service.endpoint },
    }
}

/// Mints what the client gets.
pub open spec fn mint_action(service: Service) -> ActionView {
    ActionView::MintAccess {
        cnode: service.cnode,
        source: service.endpoint,
        dest: service.scratch,
        access: service.access,
    }
}

/// Hands it over.
pub open spec fn deliver_action(service: Service) -> ActionView {
    ActionView::DeliverAccess { slot: service.scratch, word0: 0, word1: 0 }
}

/// What the service asks for next. It gives up for good where access cannot
/// be minted or handed over; a request that does not come through is passed
/// over.
pub open spec fn next_of(service: Service, action: ActionView, event: EventView) -> ActionView {
    let await_request = ActionView::AwaitRequest { endpoint: service.endpoint };
    match action {
        ActionView::Connect { .. } => ActionView::AwaitClient { endpoint: service.endpoint },
        ActionView::AwaitClient { .. } => mint_action(service),
        ActionView::MintAccess { .. } => if event == (EventView::Outcome { worked: true }) {
            deliver_action(service)
        } else {
            ActionView::Idle
        },
        ActionView::DeliverAccess { .. } => if event == (EventView::Outcome { worked: true }) {
            await_request
        } else {
            ActionView::Idle
        },
        ActionView::AwaitRequest { .. } => match event {
            EventView::Received { badge: Some(badge) } => ActionView::ReadRequest {
                badge,
                cap: REQUEST_CAP,
            },
            _ => await_request,
        },
        ActionView::ReadRequest { badge, cap } => match event {
            EventView::Read { request: Some((op, request)) } => ActionView::Handle {
                badge,
                op,
                request,
                cap: REQUEST_CAP,
            },
            _ => await_request,
        },
        ActionView::Handle { .. } => match event {
            EventView::Handled { status, reply } => ActionView::Answer { status, reply },
            _ => await_request,
        },
        ActionView::Answer { .. } => await_request,
        ActionView::Idle => ActionView::Idle,
    }
}

/// The keystore.
pub fn keystore() -> (service: Service)
    ensures
        service == keystore_of(),
{
    Service {
        cnode: keystore_demo::KEYSTORE_SELF_CNODE_CPTR,
        endpoint: keystore_demo::ENDPOINT_CPTR,
        scratch: KEYSTORE_SCRATCH_CPTR,
        access: Access::EncryptDecrypt,
        upstream: None,
    }
}

/// The store.
pub fn store() -> (service: Service)
    ensures
        service == store_of(),
{
    Service {
        cnode: store_demo::STORE_SELF_CNODE_CPTR,
        endpoint: store_demo::STORE_SERVICE_OWN_ENDPOINT_CPTR,
        scratch: STORE_SCRATCH_CPTR,
        access: Access::ReadWrite,
        upstream: Some(
            Upstream { endpoint: store_demo::KS_ENDPOINT_CPTR, dest: STORE_KS_DEST_CPTR },
        ),
    }
}

impl Service {
    /// What the service asks for first.
    pub fn start(&self) -> (action: Action)
        ensures
            action@ == first_action(*self),
    {
        match self.upstream {
            Some(u) => Action::Connect { endpoint: u.endpoint, dest: u.dest, word0: 0, word1: 0 },
            None => Action::AwaitClient { endpoint: self.endpoint },
        }
    }

    /// Goes on after what came of `action`.
    pub fn step(&self, action: &Action, event: Event) -> (next: Action)
        ensures
            next@ == next_of(*self, action@, event@),
    {
        let worked: bool = match event {
            Event::Outcome { worked } => worked,
            _ => false,
        };
        match action {
            Action::Connect { .. } => Action::AwaitClient { endpoint: self.endpoint },
            Action::AwaitClient { .. } => Action::MintAccess {
                cnode: self.cnode,
                source: self.endpoint,
                dest: self.scratch,
                access: self.access,
            },
            Action::MintAccess { .. } => {
                if worked {
                    Action::DeliverAccess { slot: self.scratch, word0: 0, word1: 0 }
                } else {
                    Action::Idle
                }
            },
            Action::DeliverAccess { .. } => {
                if worked {
                    Action::AwaitRequest { endpoint: self.endpoint }
                } else {
                    Action::Idle
                }
            },
            Action::AwaitRequest { .. } => match event {
                Event::Received { badge: Some(badge) } => Action::ReadRequest {
                    badge,
                    cap: REQUEST_CAP,
                },
                _ => Action::AwaitRequest { endpoint: self.endpoint },
            },
            Action::ReadRequest { badge, .. } => match event {
                Event::Read { request: Some((op, request)) } => Action::Handle {
                    badge: *badge,
                    op,
                    request: slice_to_vec(request),
                    cap: REQUEST_CAP,
                },
                _ => Action::AwaitRequest { endpoint: self.endpoint },
            },
            Action::Handle { .. } => match event {
                Event::Handled { status, reply } => Action::Answer {
                    status,
                    reply: slice_to_vec(reply),
                },
                _ => Action::AwaitRequest { endpoint: self.endpoint },
            },
            Action::Answer { .. } => Action::AwaitRequest { endpoint: self.endpoint },
            Action::Idle => Action::Idle,
        }
    }
}

/// What the service asks for after `events`.
pub open spec fn action_after(service: Service, events: Seq<EventView>) -> ActionView
    decreases events.len(),
{
    if events.len() == 0 {
        first_action(service)
    } else {
        next_of(service, action_after(service, events.drop_last()), events.last())
    }
}

/// How many steps come before minting the client's access.
pub open spec fn steps_before_mint(service: Service) -> int {
    if service.upstream is Some {
        2
    } else {
        1
    }
}

/// The action is one of serving requests.
pub open spec fn serving(action: ActionView) -> bool {
    action is AwaitRequest || action is ReadRequest || action is Handle || action is Answer
}

/// The client's access was minted, with nothing but what the client may do, and
/// handed over.
pub open spec fn let_in(service: Service, events: Seq<EventView>) -> bool {
    let m = steps_before_mint(service);
    &&& events.len() >= m + 2
    &&& action_after(service, events.take(m)) == (ActionView::MintAccess {
        cnode: service.cnode,
        source: service.endpoint,
        dest: service.scratch,
        access: service.access,
    })
    &&& events[m] == (EventView::Outcome { worked: true })
    &&& action_after(service, events.take(m + 1)) == (ActionView::DeliverAccess {
        slot: service.scratch,
        word0: 0,
        word1: 0,
    })
    &&& events[m + 1] == (EventView::Outcome { worked: true })
}

/// The service never takes a request before it has let its client in: it
/// serves exactly if minting the client's access worked and handing it over
/// worked. Otherwise it idles.
pub proof fn law_serves_only_after_letting_in(service: Service, events: Seq<EventView>)
    requires
        events.len() >= steps_before_mint(service) + 2,
    ensures
        serving(action_after(service, events)) <==> let_in(service, events),
        !let_in(service, events) ==> action_after(service, events) == ActionView::Idle,
    decreases events.len(),
{
    let m = steps_before_mint(service);
    let less = events.drop_last();
    assert(events.take(m) =~= less.take(m));
    assert(events.take(m + 1) =~= less.take(m + 1));
    if events.len() > m + 2 {
        law_serves_only_after_letting_in(service, less);
        assert(less[m] == events[m] && less[m + 1] == events[m + 1]);
    } else {
        reveal_with_fuel(action_after, 5);
        assert(less =~= events.take(m + 1));
        assert(less.drop_last() =~= events.take(m));
        assert(less.last() == events[m]);
        assert(events.last() == events[m + 1]);
    }
}

/// Every request is handled just as it was read, for the holder of the badge
/// that it came with: the service asks to handle one only right after reading
/// it, and reads it only right after receiving it with that badge.
pub proof fn law_requests_are_handled_under_their_badge(
    service: Service,
    events: Seq<EventView>,
    badge: u64,
    op: u16,
    request: Seq<u8>,
    cap: usize,
)
    requires
        action_after(service, events) == (ActionView::Handle { badge, op, request, cap }),
    ensures
        events.len() >= 2,
        events.last() == (EventView::Read { request: Some((op, request)) }),
        events[events.len() - 2] == (EventView::Received { badge: Some(badge) }),
        cap == 256,
{
    reveal_with_fuel(action_after, 3);
    let less = events.drop_last();
    assert(events.len() > 0);
    assert(action_after(service, less) is ReadRequest);
    assert(less.len() > 0);
    assert(less.last() == events[events.len() - 2]);
}

/// Every request that is handled is answered with just what handling it gave,
/// and then the next one awaited, whatever came of the answer.
pub proof fn law_handled_requests_are_answered(
    service: Service,
    events: Seq<EventView>,
    status: u16,
    reply: Seq<u8>,
    answered: EventView,
)
    requires
        action_after(service, events) is Handle,
    ensures
        ({
            let handled = events.push(EventView::Handled { status, reply });
            &&& action_after(service, handled) == (ActionView::Answer { status, reply })
            &&& action_after(service, handled.push(answered)) == (ActionView::AwaitRequest {
                endpoint: service.endpoint,
            })
        }),
{
    let handled = events.push(EventView::Handled { status, reply });
    assert(handled.drop_last() =~= events);
    assert(handled.push(answered).drop_last() =~= handled);
}

/// Nothing is answered but what handling a request gave, right after it was
/// handled.
pub proof fn law_only_handled_requests_are_answered(
    service: Service,
    events: Seq<EventView>,
    status: u16,
    reply: Seq<u8>,
)
    requires
        action_after(service, events) == (ActionView::Answer { status, reply }),
    ensures
        events.len() > 0,
        action_after(service, events.drop_last()) is Handle,
        events.last() == (EventView::Handled { status, reply }),
{
}

/// The keystore mints, in its space at slot 0, from slot 1 to slot 3, the right
/// to encrypt and decrypt; the store, in its own at slot 0, from slot 3 to slot
/// 4, the right to read and write, and gets access to the keystore from slot 1 to
/// slot 2 first.
pub proof fn law_services(one: Service, other: Service)
    requires
        call_ensures(keystore, (), one),
        call_ensures(store, (), other),
    ensures
        one == (Service {
            cnode: 0,
            endpoint: 1,
            scratch: 3,
            access: Access::EncryptDecrypt,
            upstream: None,
        }),
        other == (Service {
            cnode: 0,
            endpoint: 3,
            scratch: 4,
            access: Access::ReadWrite,
            upstream: Some(Upstream { endpoint: 1, dest: 2 }),
        }),
{
}

/// A service that is another's client first asks that one for access, whatever
/// comes of it; then it waits for its own client, whatever comes of that; then
/// it mints.
pub proof fn law_service_begins(service: Service, events: Seq<EventView>)
    ensures
        ({
            let action = action_after(service, events);
            let m = steps_before_mint(service);
            &&& events.len() + 1 == m ==> action == (ActionView::AwaitClient {
                endpoint: service.endpoint,
            })
            &&& events.len() == m ==> action is MintAccess
            &&& events.len() == 0 ==> (service.upstream matches Some(u) ==> action == (
            ActionView::Connect { endpoint: u.endpoint, dest: u.dest, word0: 0, word1: 0 }))
        }),
{
    reveal_with_fuel(action_after, 3);
}

/// What a service that serves asks for next: it waits on its endpoint until a
/// message comes, reads that, and passes over what it cannot read.
pub proof fn law_service_reads_what_comes(
    service: Service,
    events: Seq<EventView>,
    event: EventView,
)
    requires
        serving(action_after(service, events)),
    ensures
        ({
            let next = action_after(service, events.push(event));
            let waits = ActionView::AwaitRequest { endpoint: service.endpoint };
            match action_after(service, events) {
                ActionView::AwaitRequest { .. } => match event {
                    EventView::Received { badge: Some(badge) } => next == (
                    ActionView::ReadRequest { badge, cap: 256 }),
                    _ => next == waits,
                },
                ActionView::ReadRequest { badge, .. } => match event {
                    EventView::Read { request: Some((op, request)) } => next == (
                    ActionView::Handle { badge, op, request, cap: 256 }),
                    _ => next == waits,
                },
                ActionView::Handle { .. } => event is Handled || next == waits,
                _ => next == waits,
            }
        }),
{
    assert(events.push(event).drop_last() =~= events);
}

} // verus!
