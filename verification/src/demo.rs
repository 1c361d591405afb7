//! The smallest demonstration: two threads of the boot image itself, each with
//! its own table and stack, in user mode. The client calls the server once, and
//! the server doubles what it is sent.

use crate::launch::{CPtr, Rights};
use crate::megapage::MEGAPAGE_SIZE;
use crate::paging::{
    build_table, law_stacks_are_private, thread_table, Mapping, KERNEL_MEGAPAGE_BASE,
    UART_MEGAPAGE_BASE,
};
use crate::programs::hello_service::{answer, answer_of, REQUEST};
use crate::trap::Syscall;
use vstd::prelude::*;

verus! {

/// The endpoint's slot in both threads' capability spaces.
pub const ENDPOINT_CPTR: CPtr = 1;

/// The badge of the endpoint that both threads get.
pub const ENDPOINT_BADGE: u64 = 42;

/// A thread to set up.
pub struct ThreadPlan {
    /// The slot of its one capability, the endpoint.
    pub endpoint: CPtr,
    pub entry: u64,
    pub stack_top: u64,
    pub arg0: u64,
    /// The entries of its table.
    pub table: [Mapping; 4],
}

/// The two threads. The server is made ready, and the client is entered.
pub struct DemoPlan {
    /// The rights and the badge of the endpoint that both get.
    pub rights: Rights,
    pub badge: u64,
    pub client: ThreadPlan,
    pub server: ThreadPlan,
}

/// A system call of a thread: which one, on which slot, and with which message.
/// The message tag is empty.
#[derive(Clone, Copy, PartialEq, Eq, Structural, Debug)]
pub struct ThreadCall {
    pub syscall: Syscall,
    pub cptr: CPtr,
    pub mr1: u64,
    pub mr2: u64,
    pub mr3: u64,
}

/// The thread that runs `entry` on the stack at `stack_base`.
pub open spec fn is_thread(
    plan: ThreadPlan,
    entry: u64,
    user_text_base: u64,
    stack_base: u64,
) -> bool {
    &&& plan.endpoint == ENDPOINT_CPTR
    &&& plan.entry == entry
    &&& plan.stack_top == stack_base + MEGAPAGE_SIZE
    &&& plan.arg0 == 0
    &&& plan.table@ == thread_table(user_text_base, stack_base)
}

/// The stack's megapage is aligned and ends in the address range.
pub open spec fn stack_fits(stack_base: u64) -> bool {
    stack_base % MEGAPAGE_SIZE == 0 && stack_base + MEGAPAGE_SIZE <= u64::MAX
}

/// Works out how to set up a thread: a capability space with just the
/// endpoint, a private stack that it starts at the top of, and a table of its
/// own.
pub fn spawn(entry: u64, user_text_base: u64, stack_base: u64) -> (plan: ThreadPlan)
    requires
        user_text_base % MEGAPAGE_SIZE == 0,
        stack_fits(stack_base),
    ensures
        is_thread(plan, entry, user_text_base, stack_base),
{
    ThreadPlan {
        endpoint: ENDPOINT_CPTR,
        entry,
        stack_top: stack_base + MEGAPAGE_SIZE,
        arg0: 0,
        table: build_table(user_text_base, stack_base),
    }
}

/// Works out how to set up both threads.
pub fn run(
    client_entry: u64,
    server_entry: u64,
    user_text_base: u64,
    client_stack_base: u64,
    server_stack_base: u64,
) -> (plan: DemoPlan)
    requires
        user_text_base % MEGAPAGE_SIZE == 0,
        stack_fits(client_stack_base),
        stack_fits(server_stack_base),
    ensures
        plan.rights == Rights::All,
        plan.badge == ENDPOINT_BADGE,
        is_thread(plan.client, client_entry, user_text_base, client_stack_base),
        is_thread(plan.server, server_entry, user_text_base, server_stack_base),
{
    DemoPlan {
        rights: Rights::All,
        badge: ENDPOINT_BADGE,
        client: spawn(client_entry, user_text_base, client_stack_base),
        server: spawn(server_entry, user_text_base, server_stack_base),
    }
}

/// The system call with this one word in its message, and zeros behind it.
pub open spec fn call_of(syscall: Syscall, cptr: CPtr, word: u64) -> ThreadCall {
    ThreadCall { syscall, cptr, mr1: word, mr2: 0, mr3: 0 }
}

/// What the client does.
pub fn client_thread() -> (call: ThreadCall)
    ensures
        call == call_of(Syscall::Call, ENDPOINT_CPTR, REQUEST),
{
    ThreadCall { syscall: Syscall::Call, cptr: ENDPOINT_CPTR, mr1: REQUEST, mr2: 0, mr3: 0 }
}

/// What the server does, before and after the request has come in. A reply goes
/// to whoever called, so it names no slot.
pub fn server_thread(request: Option<u64>) -> (call: ThreadCall)
    ensures
        call == (match request {
            None => call_of(Syscall::Recv, ENDPOINT_CPTR, 0),
            Some(word) => call_of(Syscall::Reply, 0, answer_of(Some(word))),
        }),
{
    match request {
        None => ThreadCall {
            syscall: Syscall::Recv,
            cptr: ENDPOINT_CPTR,
            mr1: 0,
            mr2: 0,
            mr3: 0,
        },
        Some(word) => ThreadCall {
            syscall: Syscall::Reply,
            cptr: 0,
            mr1: answer(Some(word)),
            mr2: 0,
            mr3: 0,
        },
    }
}

/// Neither thread can reach the other's stack.
pub proof fn law_threads_are_isolated(
    plan: DemoPlan,
    client_entry: u64,
    server_entry: u64,
    user_text_base: u64,
    client_stack_base: u64,
    server_stack_base: u64,
    i: int,
)
    requires
        is_thread(plan.client, client_entry, user_text_base, client_stack_base),
        is_thread(plan.server, server_entry, user_text_base, server_stack_base),
        client_stack_base != server_stack_base,
        client_stack_base != user_text_base,
        server_stack_base != user_text_base,
        client_stack_base != KERNEL_MEGAPAGE_BASE,
        server_stack_base != KERNEL_MEGAPAGE_BASE,
        client_stack_base != UART_MEGAPAGE_BASE,
        server_stack_base != UART_MEGAPAGE_BASE,
        0 <= i < 4,
    ensures
        plan.client.table@[i].paddr != server_stack_base,
        plan.server.table@[i].paddr != client_stack_base,
{
    law_stacks_are_private(user_text_base, client_stack_base, server_stack_base, i);
    law_stacks_are_private(user_text_base, server_stack_base, client_stack_base, i);
}

} // verus!
