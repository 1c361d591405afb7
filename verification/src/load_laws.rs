//! What a plan that loads a program consists of, step by step and slot by slot.

use crate::elf::header_of;
use crate::elf_laws::{le64, lemma_le_spelled};
use crate::image::{chunks_of, pages_of, Chunk, LoadError, Page};
use crate::image_laws::{chunk_ok, law_chunks_stay_in_bounds, law_pages_are_distinct};
use crate::launch::{
    arena_ops, cnode_slot, copy_ops, cspace_ops, data_pages, data_perms, grant_ops, load_all_of,
    load_of, memory_ops, page_ops, pool_ops, sched_slot, self_cnode_ops, thread_ops, vspace_ops,
    ArenaGrant, LoadPlanView, ObjectType, Op, ProgramSpecView,
};
use crate::launch_laws::{
    image_pages, law_grants_are_exactly_those_described, law_mappings_are_exactly_those_described,
    law_slots_are_consecutive, lemma_select_concat, lemma_select_none, memory_mapped, select, serves, Purpose,
};
use crate::paging::{Mapping, PteFlags};
use vstd::prelude::*;

verus! {

/// No step is for this.
spec fn none_serves(ops: Seq<Op>, purpose: Purpose) -> bool {
    forall|i: int| 0 <= i < ops.len() ==> !serves(#[trigger] ops[i], purpose)
}

proof fn lemma_none_concat(one: Seq<Op>, two: Seq<Op>, purpose: Purpose)
    requires
        none_serves(one, purpose),
        none_serves(two, purpose),
    ensures
        none_serves(one + two, purpose),
{
    assert forall|i: int| 0 <= i < (one + two).len() implies !serves(
        #[trigger] (one + two)[i],
        purpose,
    ) by {
        if i < one.len() {
            assert((one + two)[i] == one[i]);
        } else {
            assert((one + two)[i] == two[i - one.len()]);
        }
    }
}

proof fn lemma_pages_only_make_and_map(vspace: int, first: int, pages: Seq<Page>, purpose: Purpose)
    requires
        !(purpose is Make),
        !(purpose is MapMemory),
    ensures
        none_serves(page_ops(vspace, first, pages), purpose),
    decreases pages.len(),
{
    if pages.len() > 0 {
        lemma_pages_only_make_and_map(vspace, first, pages.drop_last(), purpose);
    }
}

proof fn lemma_pool_only_makes_and_grants(
    cnode: int,
    first: int,
    dest_base: int,
    n: int,
    purpose: Purpose,
)
    requires
        !(purpose is Make),
        !(purpose is Grant),
    ensures
        none_serves(pool_ops(cnode, first, dest_base, n), purpose),
    decreases n,
{
    if n > 0 {
        lemma_pool_only_makes_and_grants(cnode, first, dest_base, n - 1, purpose);
    }
}

/// Setting up memory and capabilities starts no thread and mints nothing.
proof fn lemma_front(
    spec: ProgramSpecView,
    pages: Seq<Page>,
    chunks: Seq<Chunk>,
    slot: int,
    purpose: Purpose,
)
    requires
        purpose is Start || purpose is Equip || purpose is Badge,
    ensures
        none_serves(
            memory_ops(spec, pages, chunks, slot) + cspace_ops(spec, pages.len() as int, slot),
            purpose,
        ),
{
    let n = pages.len() as int;
    let cnode = cnode_slot(spec, n, slot);
    let data = data_pages(spec.heap_megapages as int);
    let a = vspace_ops(slot);
    let b = page_ops(slot, slot + 1, pages);
    let c = copy_ops(slot + 1, chunks);
    let d = page_ops(slot, slot + 1 + n, data);
    lemma_pages_only_make_and_map(slot, slot + 1, pages, purpose);
    lemma_pages_only_make_and_map(slot, slot + 1 + n, data, purpose);
    lemma_none_concat(a, b, purpose);
    lemma_none_concat(a + b, c, purpose);
    lemma_none_concat(a + b + c, d, purpose);
    if let Some(arena) = spec.arena {
        lemma_pool_only_makes_and_grants(
            cnode,
            cnode + 1,
            arena.frame_dest_base as int,
            arena.megapages as int,
            purpose,
        );
    }
    assert(none_serves(arena_ops(slot, cnode, cnode + 1, spec.arena), purpose));
    assert(none_serves(grant_ops(cnode, spec.grants), purpose));
    assert(none_serves(self_cnode_ops(cnode, spec.self_cnode_dest), purpose));
    assert(none_serves(cspace_ops(spec, n, slot), purpose));
    lemma_none_concat(
        memory_ops(spec, pages, chunks, slot),
        cspace_ops(spec, n, slot),
        purpose,
    );
}

/// How many frames a program maps and unmaps itself.
pub open spec fn pool_size(arena: Option<ArenaGrant>) -> int {
    if arena is Some {
        arena->0.megapages as int
    } else {
        0
    }
}

/// A loaded program has exactly one thread, and it starts exactly once: at the
/// image's entry point, with the description's argument, and with its stack
/// pointer at the end of the two megabytes mapped as its stack. It runs in the
/// address space and with the capability space and the budget that were made
/// for it, and is given them last. Loading mints nothing.
pub proof fn law_thread_starts_at_the_top_of_its_stack(
    spec: ProgramSpecView,
    slot: int,
    plan: LoadPlanView,
    end: int,
)
    requires
        0 <= slot,
        end <= u64::MAX,
        load_of(spec, slot) == Ok::<(LoadPlanView, int), LoadError>((plan, end)),
    ensures
        spec.elf.len() >= 64,
        plan.program.vspace_cptr == slot,
        plan.program.tcb_cptr == end - 1,
        select(plan.ops, Purpose::Start) == seq![
            Op::SetContext {
                tcb: plan.program.tcb_cptr,
                entry: le64(spec.elf, 24) as u64,
                stack_top: 0x8620_0000,
                arg0: spec.arg0,
            },
        ],
        select(plan.ops, Purpose::Equip) == seq![
            Op::Configure {
                tcb: plan.program.tcb_cptr,
                cnode: (slot + image_pages(spec).len() + spec.heap_megapages + 2) as u64,
                sched: (end - 2) as u64,
                vspace: slot as u64,
            },
        ],
        select(plan.ops, Purpose::Badge) == Seq::<Op>::empty(),
        plan.ops.len() >= 7,
        plan.ops[plan.ops.len() - 4] is Retype,
        plan.ops[plan.ops.len() - 3] is Retype,
        plan.ops[plan.ops.len() - 2] is SetContext,
        plan.ops[plan.ops.len() - 1] is Configure,
{
    let header = header_of(spec.elf)->Ok_0;
    let pages = image_pages(spec);
    let n = pages.len() as int;
    let chunks = chunks_of(spec.elf, header, pages, header.phnum as int);
    let front = memory_ops(spec, pages, chunks, slot) + cspace_ops(spec, n, slot);
    let sched = sched_slot(spec, n, slot);
    let back = thread_ops(sched, header.entry, spec.arg0, cnode_slot(spec, n, slot), slot);
    assert(plan.ops == front + back);
    lemma_le_spelled(spec.elf, 24);
    lemma_front(spec, pages, chunks, slot, Purpose::Start);
    lemma_front(spec, pages, chunks, slot, Purpose::Equip);
    lemma_front(spec, pages, chunks, slot, Purpose::Badge);
    lemma_select_none(front, Purpose::Start);
    lemma_select_none(front, Purpose::Equip);
    lemma_select_none(front, Purpose::Badge);
    lemma_select_none(back, Purpose::Badge);
    lemma_select_concat(front, back, Purpose::Start);
    lemma_select_concat(front, back, Purpose::Equip);
    lemma_select_concat(front, back, Purpose::Badge);
    let one = seq![back[0], back[1]];
    assert(back =~= one.push(back[2]).push(back[3]));
    assert(back.drop_last() =~= one.push(back[2]));
    assert(back.drop_last().drop_last() =~= one);
    lemma_select_none(one, Purpose::Start);
    lemma_select_none(one, Purpose::Equip);
    reveal_with_fuel(select, 3);
    assert(select(plan.ops, Purpose::Start) =~= seq![back[2]]);
    assert(select(plan.ops, Purpose::Equip) =~= seq![back[3]]);
    assert(select(plan.ops, Purpose::Badge) =~= Seq::<Op>::empty());
}

/// What is made at the slot that is `j` behind the first, when the image has `n`
/// pages, the heap `h` and the arena `m`: the address space, the frames of the
/// image, the stack and the heap, the capability space, the frames of the
/// arena, the budget, and the thread.
pub open spec fn object_at(n: int, h: int, m: int, j: int) -> ObjectType {
    if j == 0 {
        ObjectType::VSpace
    } else if j <= n + 1 + h {
        ObjectType::FrameMega
    } else if j == n + h + 2 {
        ObjectType::CNode
    } else if j <= n + h + 2 + m {
        ObjectType::FrameMega
    } else if j == n + h + m + 3 {
        ObjectType::SchedContext
    } else {
        ObjectType::Tcb
    }
}

/// Loading makes just the objects that the program needs, each at its slot,
/// and leaves no slot out: as many as its image has pages and its heap and its
/// arena megapages, and five more.
pub proof fn law_objects_are_those_needed(
    spec: ProgramSpecView,
    slot: int,
    plan: LoadPlanView,
    end: int,
)
    requires
        0 <= slot,
        end <= u64::MAX,
        load_of(spec, slot) == Ok::<(LoadPlanView, int), LoadError>((plan, end)),
    ensures
        ({
            let n = image_pages(spec).len() as int;
            let h = spec.heap_megapages as int;
            let m = pool_size(spec.arena);
            let objects = select(plan.ops, Purpose::Make);
            &&& objects.len() == n + h + m + 5
            &&& end == slot + n + h + m + 5
            &&& forall|j: int|
                0 <= j < n + h + m + 5 ==> #[trigger] objects[j] == (Op::Retype {
                    object: object_at(n, h, m, j),
                    dest: (slot + j) as u64,
                })
        }),
{
    law_slots_are_consecutive(spec, slot, plan, end);
}

/// A megapage of the kernel's own, mapped to itself and closed to user mode.
pub open spec fn own_page(vspace: int, base: u64, execute: bool) -> Op {
    Op::MapKernel {
        vspace: vspace as u64,
        mapping: Mapping {
            vaddr: base,
            paddr: base,
            flags: PteFlags { read: true, write: true, execute, user: false },
        },
    }
}

/// The frame at `frame`, mapped.
pub open spec fn mapped_at(frame: int, vspace: int, vaddr: int, perms: int) -> Op {
    Op::MapFrame {
        frame: frame as u64,
        vspace: vspace as u64,
        vaddr: vaddr as u64,
        perms: perms as u64,
    }
}

/// The address space has just this: the kernel's megapage, to execute; the
/// console's, not to; the pages of the image, with their permissions; two
/// megabytes of stack; and the heap right behind it. Stack and heap can be read
/// and written (1 and 2) from user mode (8). Each page has a frame of its own,
/// in the order of the slots.
pub proof fn law_memory_is_laid_out(
    spec: ProgramSpecView,
    slot: int,
    plan: LoadPlanView,
    end: int,
)
    requires
        0 <= slot,
        end <= u64::MAX,
        load_of(spec, slot) == Ok::<(LoadPlanView, int), LoadError>((plan, end)),
    ensures
        ({
            let pages = image_pages(spec);
            let n = pages.len() as int;
            let h = spec.heap_megapages as int;
            let ops = select(plan.ops, Purpose::MapMemory);
            &&& ops.len() == n + h + 3
            &&& ops[0] == own_page(slot, 0x8020_0000, true)
            &&& ops[1] == own_page(slot, 0x1000_0000, false)
            &&& forall|k: int|
                0 <= k < n ==> #[trigger] ops[k + 2] == mapped_at(
                    slot + 1 + k,
                    slot,
                    pages[k].vaddr as int,
                    pages[k].perms as int,
                )
            &&& ops[n + 2] == mapped_at(slot + 1 + n, slot, 0x8600_0000, 11)
            &&& forall|k: int|
                0 <= k < h ==> #[trigger] ops[k + n + 3] == mapped_at(
                    slot + 2 + n + k,
                    slot,
                    0x8620_0000 + k * 0x20_0000,
                    11,
                )
        }),
{
    law_mappings_are_exactly_those_described(spec, slot, plan, end);
    let pages = image_pages(spec);
    let n = pages.len() as int;
    let h = spec.heap_megapages as int;
    let ops = memory_mapped(spec, slot);
    let all = pages + data_pages(h);
    assert(data_perms() == 11) by {
        assert(1u64 | 2u64 | 8u64 == 11) by (bit_vector);
    }
    assert forall|k: int| 0 <= k < n implies #[trigger] ops[k + 2] == mapped_at(
        slot + 1 + k,
        slot,
        pages[k].vaddr as int,
        pages[k].perms as int,
    ) by {
        assert(all[k] == pages[k]);
    }
    assert(all[n] == data_pages(h)[0]);
    assert forall|k: int| 0 <= k < h implies #[trigger] ops[k + n + 3] == mapped_at(
        slot + 2 + n + k,
        slot,
        0x8620_0000 + k * 0x20_0000,
        11,
    ) by {
        assert(all[n + 1 + k] == data_pages(h)[1 + k]);
    }
}

/// The capability at the launcher's slot `source`, copied to the slot `dest` of
/// the program.
pub open spec fn granted_to(cnode: int, source: int, dest: int) -> Op {
    Op::CopyCross {
        source_cnode: 0,
        source_slot: source as u64,
        dest_cnode: cnode as u64,
        dest_slot: dest as u64,
    }
}

/// The program gets just this, in its own capability space: what the
/// description grants, each from and to the slots that it names; that space
/// itself, if the description says so; and, if it gets an arena, its own
/// address space and each frame that was made for the arena, at consecutive
/// slots.
pub proof fn law_capabilities_are_those_described(
    spec: ProgramSpecView,
    slot: int,
    plan: LoadPlanView,
    end: int,
)
    requires
        0 <= slot,
        end <= u64::MAX,
        load_of(spec, slot) == Ok::<(LoadPlanView, int), LoadError>((plan, end)),
    ensures
        ({
            let cnode = slot + image_pages(spec).len() + spec.heap_megapages + 2;
            let g = spec.grants.len() as int;
            let own = if spec.self_cnode_dest is Some {
                1int
            } else {
                0
            };
            let ops = select(plan.ops, Purpose::Grant);
            &&& ops.len() == g + own + (if spec.arena is Some {
                1 + pool_size(spec.arena)
            } else {
                0
            })
            &&& forall|i: int|
                0 <= i < g ==> #[trigger] ops[i] == granted_to(
                    cnode,
                    spec.grants[i].0 as int,
                    spec.grants[i].1 as int,
                )
            &&& spec.self_cnode_dest matches Some(dest) ==> ops[g] == granted_to(
                cnode,
                cnode,
                dest as int,
            )
            &&& spec.arena matches Some(arena) ==> ops[g + own] == granted_to(
                cnode,
                slot,
                arena.self_vspace_dest as int,
            ) && forall|i: int|
                0 <= i < arena.megapages ==> #[trigger] ops[i + g + own + 1] == granted_to(
                    cnode,
                    cnode + 1 + i,
                    arena.frame_dest_base + i,
                )
        }),
{
    law_grants_are_exactly_those_described(spec, slot, plan, end);
}

proof fn lemma_copies_are_filling(
    spec: ProgramSpecView,
    pages: Seq<Page>,
    chunks: Seq<Chunk>,
    slot: int,
)
    ensures
        select(
            memory_ops(spec, pages, chunks, slot) + cspace_ops(spec, pages.len() as int, slot),
            Purpose::Fill,
        ) == copy_ops(slot + 1, chunks),
{
    let n = pages.len() as int;
    let cnode = cnode_slot(spec, n, slot);
    let data = data_pages(spec.heap_megapages as int);
    let a = vspace_ops(slot);
    let b = page_ops(slot, slot + 1, pages);
    let c = copy_ops(slot + 1, chunks);
    let d = page_ops(slot, slot + 1 + n, data);
    let e = cspace_ops(spec, n, slot);
    lemma_pages_only_make_and_map(slot, slot + 1, pages, Purpose::Fill);
    lemma_pages_only_make_and_map(slot, slot + 1 + n, data, Purpose::Fill);
    if let Some(arena) = spec.arena {
        lemma_pool_only_makes_and_grants(
            cnode,
            cnode + 1,
            arena.frame_dest_base as int,
            arena.megapages as int,
            Purpose::Fill,
        );
    }
    assert(none_serves(arena_ops(slot, cnode, cnode + 1, spec.arena), Purpose::Fill));
    assert(none_serves(e, Purpose::Fill));
    lemma_select_none(a, Purpose::Fill);
    lemma_select_none(b, Purpose::Fill);
    lemma_select_none(d, Purpose::Fill);
    lemma_select_none(e, Purpose::Fill);
    lemma_select_all_copies(c);
    lemma_select_concat(a, b, Purpose::Fill);
    lemma_select_concat(a + b, c, Purpose::Fill);
    lemma_select_concat(a + b + c, d, Purpose::Fill);
    lemma_select_concat(a + b + c + d, e, Purpose::Fill);
    assert(select(a + b + c + d + e, Purpose::Fill) =~= c);
}

proof fn lemma_select_all_copies(ops: Seq<Op>)
    requires
        forall|i: int| 0 <= i < ops.len() ==> #[trigger] ops[i] is Copy,
    ensures
        select(ops, Purpose::Fill) == ops,
    decreases ops.len(),
{
    if ops.len() > 0 {
        lemma_select_all_copies(ops.drop_last());
        assert(ops.drop_last().push(ops.last()) =~= ops);
    }
}

/// Bytes are copied only from inside the image and only into frames of the
/// image's own pages, never past the end of one. The frames of the stack, the
/// heap and the arena are not written.
pub proof fn law_only_image_frames_are_filled(
    spec: ProgramSpecView,
    slot: int,
    plan: LoadPlanView,
    end: int,
    i: int,
)
    requires
        0 <= slot,
        end <= u64::MAX,
        spec.elf.len() <= u64::MAX,
        load_of(spec, slot) == Ok::<(LoadPlanView, int), LoadError>((plan, end)),
        0 <= i < select(plan.ops, Purpose::Fill).len(),
    ensures
        select(plan.ops, Purpose::Fill)[i] matches Op::Copy {
            frame,
            within_frame,
            file_offset,
            len,
        } && slot + 1 <= frame <= slot + image_pages(spec).len() && within_frame + len
            <= 0x20_0000 && file_offset + len <= spec.elf.len(),
{
    let header = header_of(spec.elf)->Ok_0;
    let pages = image_pages(spec);
    let n = pages.len() as int;
    let chunks = chunks_of(spec.elf, header, pages, header.phnum as int);
    let front = memory_ops(spec, pages, chunks, slot) + cspace_ops(spec, n, slot);
    let back = thread_ops(
        sched_slot(spec, n, slot),
        header.entry,
        spec.arg0,
        cnode_slot(spec, n, slot),
        slot,
    );
    assert(plan.ops == front + back);
    law_pages_are_distinct(spec.elf, header, pages);
    law_chunks_stay_in_bounds(spec.elf, header, pages);
    lemma_copies_are_filling(spec, pages, chunks, slot);
    lemma_select_none(back, Purpose::Fill);
    lemma_select_concat(front, back, Purpose::Fill);
    let ops = select(plan.ops, Purpose::Fill);
    assert(ops =~= copy_ops(slot + 1, chunks));
    assert(chunk_ok(chunks[i], pages, spec.elf));
}

/// Whether a program can be loaded is up to its image alone, and the reason why
/// it cannot is that of the image: of its header, or of the table of its pages.
pub proof fn law_loading_fails_for_the_image_alone(spec: ProgramSpecView, slot: int)
    ensures
        ({
            let header = header_of(spec.elf);
            &&& load_of(spec, slot) is Ok <==> header is Ok && pages_of(
                spec.elf,
                header->Ok_0,
                header->Ok_0.phnum as int,
            ) is Ok
            &&& header matches Err(error) ==> load_of(spec, slot) == Err::<
                (LoadPlanView, int),
                LoadError,
            >(LoadError::Header(error))
            &&& header matches Ok(h) ==> (pages_of(spec.elf, h, h.phnum as int) matches Err(
                error,
            ) ==> load_of(spec, slot) == Err::<(LoadPlanView, int), LoadError>(error))
        }),
{
}

/// Programs are loaded together exactly if each can be loaded, and otherwise the
/// first that cannot is the reason.
pub proof fn law_first_failure_stops_all(specs: Seq<ProgramSpecView>, n: int, slot: int)
    requires
        0 <= n <= specs.len(),
    ensures
        load_all_of(specs, n, slot) is Ok <==> forall|i: int|
            0 <= i < n ==> load_of(#[trigger] specs[i], 0) is Ok,
        load_all_of(specs, n, slot) matches Err(error) ==> exists|i: int|
            0 <= i < n && load_of(#[trigger] specs[i], 0) == Err::<(LoadPlanView, int), LoadError>(
                error,
            ) && forall|j: int| 0 <= j < i ==> load_of(#[trigger] specs[j], 0) is Ok,
    decreases n,
{
    if n > 0 {
        law_first_failure_stops_all(specs, n - 1, slot);
        law_loading_fails_for_the_image_alone(specs[n - 1], 0);
        if let Ok((plans, next)) = load_all_of(specs, n - 1, slot) {
            law_loading_fails_for_the_image_alone(specs[n - 1], next);
            if load_all_of(specs, n, slot) is Err {
                assert(load_of(specs[n - 1], 0) is Err);
            }
        }
    }
}

} // verus!
