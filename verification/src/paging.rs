//! Which megapages a table maps for the kernel's sake.
//!
//! A trap does not switch page tables, so every table maps the kernel's own
//! megapage and the console's. Supervisor mode can never fetch from a page that
//! is open to user mode, so those two are closed to it.

use crate::megapage::MEGAPAGE_SIZE;
use vstd::prelude::*;

verus! {

/// Where the firmware loads and enters this image: the base of the kernel's
/// megapage.
pub const KERNEL_MEGAPAGE_BASE: u64 = 0x8020_0000;

/// The base of the megapage of the console's registers.
pub const UART_MEGAPAGE_BASE: u64 = 0x1000_0000;

/// What a table entry allows.
#[derive(Clone, Copy, PartialEq, Eq, Structural, Debug)]
pub struct PteFlags {
    pub read: bool,
    pub write: bool,
    pub execute: bool,
    pub user: bool,
}

/// One megapage entry of a table.
#[derive(Clone, Copy, PartialEq, Eq, Structural, Debug)]
pub struct Mapping {
    pub vaddr: u64,
    pub paddr: u64,
    pub flags: PteFlags,
}

/// The megapage at `base`, mapped to itself.
pub open spec fn identity(base: u64, execute: bool, user: bool) -> Mapping {
    Mapping {
        vaddr: base,
        paddr: base,
        flags: PteFlags { read: true, write: true, execute, user },
    }
}

/// The kernel's megapage: everything but user access.
pub open spec fn kernel_mapping() -> Mapping {
    identity(KERNEL_MEGAPAGE_BASE, true, false)
}

/// The console's megapage: data only, no user access.
pub open spec fn uart_mapping() -> Mapping {
    identity(UART_MEGAPAGE_BASE, false, false)
}

/// The four entries of a thread's own table: the kernel, the shared user
/// code, the console, and the thread's stack, in this order.
pub open spec fn thread_table(user_text_base: u64, stack_base: u64) -> Seq<Mapping> {
    seq![
        kernel_mapping(),
        identity(user_text_base, true, true),
        uart_mapping(),
        identity(stack_base, false, true),
    ]
}

fn identity_mapping(base: u64, execute: bool, user: bool) -> (mapping: Mapping)
    ensures
        mapping == identity(base, execute, user),
{
    Mapping {
        vaddr: base,
        paddr: base,
        flags: PteFlags { read: true, write: true, execute, user },
    }
}

/// The two entries that every table needs for traps and the console to keep
/// working once it is active.
pub fn kernel_mappings() -> (mappings: [Mapping; 2])
    ensures
        mappings@ == seq![kernel_mapping(), uart_mapping()],
{
    let mappings: [Mapping; 2] = [
        identity_mapping(KERNEL_MEGAPAGE_BASE, true, false),
        identity_mapping(UART_MEGAPAGE_BASE, false, false),
    ];
    assert(mappings@ =~= seq![kernel_mapping(), uart_mapping()]);
    mappings
}

/// The entries of a thread's table: the kernel's megapage and the console's,
/// closed to user mode, the shared user code, and a private stack megapage at
/// `stack_base`.
pub fn build_table(user_text_base: u64, stack_base: u64) -> (table: [Mapping; 4])
    requires
        user_text_base % MEGAPAGE_SIZE == 0,
        stack_base % MEGAPAGE_SIZE == 0,
    ensures
        table@ == thread_table(user_text_base, stack_base),
        forall|i: int|
            0 <= i < 4 ==> (#[trigger] table@[i]).vaddr % MEGAPAGE_SIZE == 0 && table@[i].paddr
                == table@[i].vaddr,
{
    let table: [Mapping; 4] = [
        identity_mapping(KERNEL_MEGAPAGE_BASE, true, false),
        identity_mapping(user_text_base, true, true),
        identity_mapping(UART_MEGAPAGE_BASE, false, false),
        identity_mapping(stack_base, false, true),
    ];
    assert(table@ =~= thread_table(user_text_base, stack_base));
    table
}

/// No byte of the kernel's megapage or the console's is reachable from user
/// mode through a thread's table, as long as neither the user code nor the
/// stack lies there.
pub proof fn law_kernel_is_closed_to_user_mode(user_text_base: u64, stack_base: u64, i: int)
    requires
        user_text_base != KERNEL_MEGAPAGE_BASE,
        user_text_base != UART_MEGAPAGE_BASE,
        stack_base != KERNEL_MEGAPAGE_BASE,
        stack_base != UART_MEGAPAGE_BASE,
        0 <= i < thread_table(user_text_base, stack_base).len(),
    ensures
        ({
            let entry = thread_table(user_text_base, stack_base)[i];
            entry.flags.user <==> entry.paddr != KERNEL_MEGAPAGE_BASE && entry.paddr
                != UART_MEGAPAGE_BASE
        }),
{
}

/// Two threads with different stacks share nothing but the kernel, the
/// console and the user code: neither table maps the other's stack.
pub proof fn law_stacks_are_private(
    user_text_base: u64,
    stack_base: u64,
    other_stack_base: u64,
    i: int,
)
    requires
        stack_base != other_stack_base,
        other_stack_base != user_text_base,
        other_stack_base != KERNEL_MEGAPAGE_BASE,
        other_stack_base != UART_MEGAPAGE_BASE,
        0 <= i < thread_table(user_text_base, stack_base).len(),
    ensures
        thread_table(user_text_base, stack_base)[i].paddr != other_stack_base,
{
}

} // verus!
