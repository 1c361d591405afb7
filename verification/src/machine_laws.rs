//! What the small parts do: rounding, memory, tables, threads, the serial port,
//! and what a trap handler says.

use crate::broker_demo;
use crate::bytes::{be_value, has_prefix, le_value, read_be, read_le, same_bytes};
use crate::demo::{self, client_thread, server_thread, DemoPlan, ThreadCall, ThreadPlan};
use crate::elf_laws::lemma_le_step;
use crate::fdt::{align4, be32, read_cells, read_reg, FdtError};
use crate::fdt_laws::{be32_at, be64_at, lemma_be_spelled, lemma_pair, pair_in};
use crate::frame_demo;
use crate::launch::{
    configure, copy_cross, expected_kind, mint, retype, CPtr, Call, CapabilityKind,
    Invocation, ObjectType, Rights,
};
use crate::megapage::{round_down, round_up};
use crate::paging::{build_table, kernel_mappings, Mapping};
use crate::pmm::{general_memory, memory_end, memory_source, MemorySource};
use crate::trap::{verdict, Syscall, Verdict};
use crate::uart::{action_of, sent_next, PortAction};
use crate::wasm_probe_demo;
use vstd::arithmetic::power2::{lemma_pow2_pos, pow2};
use vstd::prelude::*;

verus! {

/// Rounding down gives the last multiple that is not above the address.
pub proof fn law_round_down_is_the_multiple_below(addr: u64, align: u64, n: nat, rounded: u64)
    requires
        n < 64,
        align == pow2(n),
        call_ensures(round_down, (addr, align), rounded),
    ensures
        rounded % align == 0,
        rounded <= addr < rounded + align,
{
    lemma_pow2_pos(n);
    assert(rounded == addr - addr % align);
    assert((addr - addr % align) % (align as int) == 0) by (nonlinear_arith)
        requires
            align > 0,
    ;
}

/// Rounding up gives the first multiple that is not below the address.
pub proof fn law_round_up_is_the_multiple_above(addr: u64, align: u64, n: nat, rounded: u64)
    requires
        n < 64,
        align == pow2(n),
        addr + align - 1 <= u64::MAX,
        call_ensures(round_up, (addr, align), rounded),
    ensures
        rounded % align == 0,
        addr <= rounded < addr + align,
{
    lemma_pow2_pos(n);
    let top = addr + align - 1;
    assert(rounded == top - top % (align as int));
    assert((top - top % (align as int)) % (align as int) == 0) by (nonlinear_arith)
        requires
            align > 0,
    ;
}

/// Memory ends where the device tree's region ends, or with the addresses where
/// the region runs past them; and at 128 MiB where there is no region.
pub proof fn law_memory_ends_with_the_region(
    region: Option<(u64, u64)>,
    source: &MemorySource,
    end: u64,
)
    requires
        call_ensures(memory_source, (region,), *source),
        call_ensures(memory_end, (source,), end),
    ensures
        region matches Some((base, size)) ==> {
            &&& *source == (MemorySource::DeviceTree { base, end })
            &&& base + size < 0x1_0000_0000_0000_0000 ==> end == base + size
            &&& base + size >= 0x1_0000_0000_0000_0000 ==> end == 0xFFFF_FFFF_FFFF_FFFF
        },
        region is None ==> *source == (MemorySource::Fallback { end }) && end == 0x8000_0000
            + 128 * 0x10_0000,
{
}

/// The end of memory is the one that its source gives.
pub proof fn law_end_is_that_of_the_source(base: u64, at: u64, one: u64, other: u64)
    requires
        call_ensures(memory_end, (&MemorySource::DeviceTree { base, end: at },), one),
        call_ensures(memory_end, (&MemorySource::Fallback { end: at },), other),
    ensures
        one == at,
        other == at,
{
}

/// What is given away is the whole megapages between the kernel's own and the
/// end of memory, and never less than one.
pub proof fn law_general_memory_ends_with_memory(mem_end: u64, size: u64)
    requires
        call_ensures(general_memory, (mem_end,), size),
    ensures
        size % 0x20_0000 == 0,
        mem_end >= 0x8080_0000 ==> 0x8060_0000 + size <= mem_end < 0x8060_0000 + size + 0x20_0000,
        mem_end < 0x8080_0000 ==> size == 0x20_0000,
{
}

/// The entry maps the megapage at `base` to itself, for reading and writing, and
/// for execution and user mode as said.
pub open spec fn maps_itself(entry: Mapping, base: int, execute: bool, user: bool) -> bool {
    &&& entry.vaddr == base
    &&& entry.paddr == base
    &&& entry.flags.read
    &&& entry.flags.write
    &&& entry.flags.execute == execute
    &&& entry.flags.user == user
}

/// The kernel's own megapage can be executed and the console's cannot; neither
/// is open to user mode.
pub proof fn law_kernel_entries(mappings: [Mapping; 2])
    requires
        call_ensures(kernel_mappings, (), mappings),
    ensures
        maps_itself(mappings@[0], 0x8020_0000, true, false),
        maps_itself(mappings@[1], 0x1000_0000, false, false),
{
}

/// A thread's table has the kernel's entries, user code to execute, and a stack
/// not to; only the last two are open to user mode.
pub proof fn law_thread_table_entries(user_text_base: u64, stack_base: u64, table: [Mapping; 4])
    requires
        call_ensures(build_table, (user_text_base, stack_base), table),
    ensures
        maps_itself(table@[0], 0x8020_0000, true, false),
        maps_itself(table@[1], user_text_base as int, true, true),
        maps_itself(table@[2], 0x1000_0000, false, false),
        maps_itself(table@[3], stack_base as int, false, true),
{
}

/// The thread starts at `entry` on a stack of its own, at its upper end.
pub open spec fn starts_on(plan: ThreadPlan, entry: u64, text: u64, stack: u64) -> bool {
    &&& plan.endpoint == 1
    &&& plan.entry == entry
    &&& plan.stack_top == stack + 0x20_0000
    &&& plan.arg0 == 0
    &&& maps_itself(plan.table@[0], 0x8020_0000, true, false)
    &&& maps_itself(plan.table@[1], text as int, true, true)
    &&& maps_itself(plan.table@[2], 0x1000_0000, false, false)
    &&& maps_itself(plan.table@[3], stack as int, false, true)
}

/// A thread is set up to start where it is told to, on the stack it is told to.
pub proof fn law_thread_starts_on_its_stack(entry: u64, text: u64, stack: u64, plan: ThreadPlan)
    requires
        call_ensures(demo::spawn, (entry, text, stack), plan),
    ensures
        starts_on(plan, entry, text, stack),
{
}

/// Each of the two threads starts at its own entry on its own stack, and both
/// have the endpoint with all rights and badge 42.
pub proof fn law_demo_threads(
    client_entry: u64,
    server_entry: u64,
    text: u64,
    client_stack: u64,
    server_stack: u64,
    plan: DemoPlan,
)
    requires
        call_ensures(
            demo::run,
            (client_entry, server_entry, text, client_stack, server_stack),
            plan,
        ),
    ensures
        starts_on(plan.client, client_entry, text, client_stack),
        starts_on(plan.server, server_entry, text, server_stack),
        plan.badge == 42,
        plan.rights == Rights::All,
{
}

/// A system call with one word, and zeros behind it.
pub open spec fn says(call: ThreadCall, syscall: Syscall, cptr: CPtr, word: int) -> bool {
    call.syscall == syscall && call.cptr == cptr && call.mr1 == word && call.mr2 == 0 && call.mr3
        == 0
}

/// The client calls on slot 1 with 21. The server receives on slot 1 and replies
/// with twice what it got, as far as a word holds that.
pub proof fn law_demo_conversation(
    call: ThreadCall,
    wait: ThreadCall,
    word: u64,
    answer: ThreadCall,
)
    requires
        call_ensures(client_thread, (), call),
        call_ensures(server_thread, (None,), wait),
        call_ensures(server_thread, (Some(word),), answer),
    ensures
        says(call, Syscall::Call, 1, 21),
        says(wait, Syscall::Recv, 1, 0),
        says(answer, Syscall::Reply, 0, (word + word) % 0x1_0000_0000_0000_0000),
{
}

/// The verdict is success exactly if the slot for success was signalled, and
/// otherwise failure exactly if it was the slot for failure.
pub proof fn law_verdict_is_by_slot(
    signalled: CPtr,
    success: CPtr,
    failure: CPtr,
    said: Verdict,
)
    requires
        call_ensures(verdict, (signalled, success, failure), said),
    ensures
        said == Verdict::Success <==> signalled == success,
        said == Verdict::Failure <==> signalled == failure && signalled != success,
{
}

/// Of the broker's traps, the five system calls of the demonstration are told
/// of, each as what it is, and as having worked exactly if it did; the call
/// itself has no outcome yet.
pub proof fn law_broker_narration(
    syscall: Syscall,
    failed: bool,
    said: Option<broker_demo::Narration>,
)
    requires
        call_ensures(broker_demo::narrate, (syscall, failed), said),
    ensures
        said is None <==> syscall == Syscall::Other,
        said matches Some(narration) ==> match narration {
            broker_demo::Narration::Called => syscall == Syscall::Call,
            broker_demo::Narration::Received { ok } => syscall == Syscall::Recv && ok != failed,
            broker_demo::Narration::Minted { ok } => syscall == Syscall::CNodeInvoke && ok
                != failed,
            broker_demo::Narration::Replied { ok } => syscall == Syscall::Reply && ok != failed,
            broker_demo::Narration::Signalled { ok } => syscall == Syscall::Signal && ok != failed,
        },
{
}

/// The verdict that signalling `invoked` is, of the slots for success and
/// failure.
pub open spec fn judged(said: Verdict, invoked: CPtr, success: CPtr, failure: CPtr) -> bool {
    &&& said == Verdict::Success <==> invoked == success
    &&& said == Verdict::Failure <==> invoked == failure
}

/// Of the frame demonstration's traps, four system calls are told of, each as
/// what it is, and as having worked exactly if it did. Signalling slot 2 is
/// success, and slot 3 failure.
pub proof fn law_frame_narration(
    syscall: Syscall,
    invoked: CPtr,
    failed: bool,
    said: Option<frame_demo::Narration>,
)
    requires
        call_ensures(frame_demo::narrate, (syscall, invoked, failed), said),
    ensures
        said is None <==> syscall == Syscall::Other || syscall == Syscall::CNodeInvoke,
        said matches Some(narration) ==> match narration {
            frame_demo::Narration::Called => syscall == Syscall::Call,
            frame_demo::Narration::Received { ok } => syscall == Syscall::Recv && ok != failed,
            frame_demo::Narration::Replied { ok } => syscall == Syscall::Reply && ok != failed,
            frame_demo::Narration::Signalled { verdict, ok } => syscall == Syscall::Signal && ok
                != failed && judged(verdict, invoked, 2, 3),
        },
{
}

/// Of the probe's traps only signals are told of. Signalling slot 4 is success,
/// and slot 5 failure.
pub proof fn law_probe_narration(
    syscall: Syscall,
    invoked: CPtr,
    failed: bool,
    said: Option<wasm_probe_demo::Narration>,
)
    requires
        call_ensures(wasm_probe_demo::narrate, (syscall, invoked, failed), said),
    ensures
        said is Some <==> syscall == Syscall::Signal,
        said matches Some(narration) ==> narration.ok != failed && judged(
            narration.verdict,
            invoked,
            4,
            5,
        ),
{
}

/// A byte is written exactly if one is left and bit 5 of the line status is set,
/// and it is the first that is not out yet; the port is polled until then.
pub proof fn law_port_is_written_when_ready(text: Seq<u8>, sent: int, status: u8)
    requires
        0 <= sent,
    ensures
        ({
            let action = action_of(text, sent, status);
            &&& action is Done <==> sent >= text.len()
            &&& action is Write <==> sent < text.len() && (status / 32) % 2 == 1
            &&& action matches PortAction::Write { byte } ==> byte == text[sent]
            &&& sent_next(text, sent, status) == (if sent < text.len() && (status / 32) % 2 == 1 {
                sent + 1
            } else {
                sent
            })
        }),
{
    assert(status & 0x20 != 0 <==> (status / 32) % 2 == 1) by (bit_vector);
}

/// An object of a type is made from the memory at `untyped`, and its capability
/// goes to `dest`.
pub proof fn law_retype_call(untyped: CPtr, code: u64, dest: CPtr, call: Invocation)
    requires
        call_ensures(retype, (untyped, code, dest), call),
    ensures
        call.call == Call::UntypedRetype,
        call.target == untyped,
        call.mr1 == code,
        call.mr2 == dest,
        call.mr3 == 0,
{
}

/// A copy is minted in the launcher's own space: the third register has the
/// rights in its low byte and the badge above.
pub proof fn law_mint_call(src: CPtr, dest: CPtr, rights: u8, badge: u64, call: Invocation)
    requires
        call_ensures(mint, (src, dest, rights, badge), call),
    ensures
        call.call == Call::CNodeMint,
        call.target == 0,
        call.mr1 == src,
        call.mr2 == dest,
        call.mr3 % 0x100 == rights,
        call.mr3 / 0x100 == badge % 0x100_0000_0000_0000,
{
}

/// A capability is copied from a slot of one space to a slot of another, which
/// the call is made on.
pub proof fn law_copy_cross_call(
    source_cnode: CPtr,
    source_slot: CPtr,
    dest_cnode: CPtr,
    dest_slot: CPtr,
    call: Invocation,
)
    requires
        call_ensures(copy_cross, (source_cnode, source_slot, dest_cnode, dest_slot), call),
    ensures
        call.call == Call::CNodeCopyCross,
        call.target == dest_cnode,
        call.mr1 == source_cnode,
        call.mr2 == source_slot,
        call.mr3 == dest_slot,
{
}

/// A frame is mapped into an address space, at an address, with permissions.
pub proof fn law_map_call(frame: CPtr, vspace: CPtr, vaddr: u64, perms: u64, call: Invocation)
    requires
        call_ensures(crate::launch::map, (frame, vspace, vaddr, perms), call),
    ensures
        call.call == Call::FrameMap,
        call.target == frame,
        call.mr1 == vspace,
        call.mr2 == vaddr,
        call.mr3 == perms,
{
}

/// A thread is given its capability space, its budget and its address space.
pub proof fn law_configure_call(
    tcb: CPtr,
    cnode: CPtr,
    sched: CPtr,
    vspace: CPtr,
    call: Invocation,
)
    requires
        call_ensures(configure, (tcb, cnode, sched, vspace), call),
    ensures
        call.call == Call::TcbConfigure,
        call.target == tcb,
        call.mr1 == cnode,
        call.mr2 == sched,
        call.mr3 == vspace,
{
}

/// What is made is relied on to be of its own kind; both sizes of frame are
/// frames; and of what is merely handed on nothing is relied on.
pub proof fn law_kinds_of_objects(object: ObjectType, kind: Option<CapabilityKind>)
    requires
        call_ensures(expected_kind, (object,), kind),
    ensures
        kind is None <==> object == ObjectType::Endpoint || object == ObjectType::Notification,
        kind == Some(CapabilityKind::CNode) <==> object == ObjectType::CNode,
        kind == Some(CapabilityKind::Tcb) <==> object == ObjectType::Tcb,
        kind == Some(CapabilityKind::SchedContext) <==> object == ObjectType::SchedContext,
        kind == Some(CapabilityKind::VSpace) <==> object == ObjectType::VSpace,
        kind == Some(CapabilityKind::Frame) <==> object == ObjectType::FrameSmall || object
            == ObjectType::FrameMega,
{
}

/// A word is read exactly where four bytes are left, and is what they spell.
pub proof fn law_words_are_big_endian(bytes: &[u8], off: u64, value: Option<u32>)
    requires
        call_ensures(be32, (bytes, off), value),
    ensures
        value is Some <==> off + 4 <= bytes@.len(),
        value matches Some(v) ==> v == be32_at(bytes@, off as int),
{
    if off + 4 <= bytes@.len() {
        lemma_be_spelled(bytes@, off as int);
    }
}

/// One cell or two spell a number, the highest byte first.
pub proof fn law_cells_are_big_endian(bytes: &[u8], value: u64)
    requires
        call_ensures(read_cells, (bytes,), value),
    ensures
        bytes@.len() == 4 ==> value == be32_at(bytes@, 0),
        bytes@.len() == 8 ==> value == be64_at(bytes@, 0),
{
    if bytes@.len() == 4 || bytes@.len() == 8 {
        lemma_be_spelled(bytes@, 0);
        assert(bytes@.subrange(0, bytes@.len() as int) =~= bytes@);
    }
}

/// What a `reg` begins with is the pair that its first cells spell.
pub proof fn law_reg_is_read_as_written(
    value: &[u8],
    addr_cells: u32,
    size_cells: u32,
    result: Result<(u64, u64), FdtError>,
)
    requires
        call_ensures(read_reg, (value, addr_cells, size_cells), result),
    ensures
        result == pair_in(value@, addr_cells, size_cells),
{
    lemma_pair(value@, addr_cells, size_cells);
}

/// Two byte strings are the same exactly if they are equally long and have equal
/// bytes; one starts with another exactly if it has all its bytes first.
pub proof fn law_bytes_are_compared(a: &[u8], b: &[u8], same: bool, starts: bool)
    requires
        call_ensures(same_bytes, (a, b), same),
        call_ensures(has_prefix, (a, b), starts),
    ensures
        same <==> a@.len() == b@.len() && forall|i: int| 0 <= i < a@.len() ==> a@[i] == b@[i],
        starts <==> b@.len() <= a@.len() && forall|i: int| 0 <= i < b@.len() ==> a@[i] == b@[i],
{
    if a@.len() == b@.len() && forall|i: int| 0 <= i < a@.len() ==> a@[i] == b@[i] {
        assert(a@ =~= b@);
    }
    if b@.len() <= a@.len() {
        if forall|i: int| 0 <= i < b@.len() ==> a@[i] == b@[i] {
            assert(a@.subrange(0, b@.len() as int) =~= b@);
        }
        if starts {
            assert forall|i: int| 0 <= i < b@.len() implies a@[i] == b@[i] by {
                assert(a@.subrange(0, b@.len() as int)[i] == a@[i]);
            }
        }
    }
}

/// One more byte in front of a little-endian number counts its own value and
/// makes the rest 256 times as much.
pub proof fn law_little_endian_numbers_grow_by_a_byte(
    bytes: &[u8],
    offset: u64,
    n: usize,
    value: Option<u64>,
    rest: Option<u64>,
)
    requires
        0 < n <= 8,
        offset < u64::MAX,
        call_ensures(read_le, (bytes, offset, n), value),
        call_ensures(read_le, (bytes, (offset + 1) as u64, (n - 1) as usize), rest),
    ensures
        value is Some <==> offset + n <= bytes@.len(),
        value is Some ==> rest is Some && value->0 == bytes@[offset as int] + 256 * rest->0,
        n == 1 && value is Some ==> value->0 == bytes@[offset as int],
{
    if offset + n <= bytes@.len() {
        lemma_le_step(bytes@, offset as int, n as int);
        if n == 1 {
            assert(bytes@.subrange(offset + 1, offset + 1) =~= Seq::empty());
            assert(le_value(Seq::<u8>::empty()) == 0);
        }
    }
}

/// One more byte behind a big-endian number counts its own value and makes the
/// rest 256 times as much.
pub proof fn law_big_endian_numbers_grow_by_a_byte(
    bytes: &[u8],
    offset: u64,
    n: usize,
    value: Option<u64>,
    rest: Option<u64>,
)
    requires
        0 < n <= 8,
        call_ensures(read_be, (bytes, offset, n), value),
        call_ensures(read_be, (bytes, offset, (n - 1) as usize), rest),
    ensures
        value is Some <==> offset + n <= bytes@.len(),
        value is Some ==> rest is Some && value->0 == 256 * rest->0 + bytes@[offset + n - 1],
        n == 1 && value is Some ==> value->0 == bytes@[offset as int],
{
    if offset + n <= bytes@.len() {
        let all = bytes@.subrange(offset as int, offset + n);
        assert(all.drop_last() =~= bytes@.subrange(offset as int, offset + n - 1));
        if n == 1 {
            assert(all.drop_last() =~= Seq::empty());
            assert(be_value(Seq::<u8>::empty()) == 0);
        }
    }
}

/// Cells of any length: no bytes spell zero, and one more byte behind makes the
/// rest 256 times as much, as far as a word holds that.
pub proof fn law_cells_grow_by_a_byte(bytes: &[u8], less: &[u8], value: u64, rest: u64)
    requires
        call_ensures(read_cells, (bytes,), value),
        call_ensures(read_cells, (less,), rest),
        bytes@.len() > 0,
        less@ == bytes@.drop_last(),
    ensures
        value == (256 * rest + bytes@.last()) % 0x1_0000_0000_0000_0000,
        less@.len() == 0 ==> rest == 0,
{
    let m = 0x1_0000_0000_0000_0000int;
    let x = be_value(less@) as int;
    let b = bytes@.last() as int;
    assert((256 * x + b) % m == (256 * (x % m) + b) % m) by {
        vstd::arithmetic::div_mod::lemma_fundamental_div_mod(x, m);
        assert(256 * x + b == m * (256 * (x / m)) + (256 * (x % m) + b)) by (nonlinear_arith)
            requires
                x == m * (x / m) + x % m,
        ;
        vstd::arithmetic::div_mod::lemma_mod_multiples_vanish(
            256 * (x / m),
            256 * (x % m) + b,
            m,
        );
    }
}

/// Rounding up to four gives the first multiple that is not below.
pub proof fn law_align4_is_the_multiple_above(n: u64, aligned: u64)
    requires
        n + 3 <= u64::MAX,
        call_ensures(align4, (n,), aligned),
    ensures
        aligned % 4 == 0,
        n <= aligned < n + 4,
{
}

} // verus!
