//! What is in a loaded program's memory, and who else can see it.

use crate::elf::header_of;
use crate::image::{chunks_of, Chunk, LoadError, Page, PERM_R, PERM_U, PERM_W, PERM_X};
use crate::image_laws::{
    copied_byte, law_chunks_stay_in_bounds, law_copied_pages_hold_the_image, law_pages_are_distinct,
    law_pages_are_user_pages, program_byte,
};
use crate::launch::{
    arena_ops, cnode_slot, copy_op, copy_ops, cspace_ops, data_pages, data_perms, grant_ops,
    load_of, map_op, page_ops, pool_ops, retype_op, sched_slot, self_cnode_ops, shared_frame_ops,
    thread_ops, vspace_ops, CPtr, LoadPlanView, ObjectType, Op, ProgramSpecView, ARENA_VADDR,
    HEAP_VADDR, STACK_VADDR,
};
use crate::launch_laws::{
    image_pages, law_mappings_are_exactly_those_described, mapped, memory_mapped, select, Purpose,
};
use crate::megapage::MEGAPAGE_SIZE;
use vstd::prelude::*;

verus! {

/// The step makes this frame or copies bytes into it.
pub open spec fn changes(op: Op, frame: int) -> bool {
    match op {
        Op::Retype { object, dest } => dest == frame,
        Op::Copy { frame: f, within_frame, file_offset, len } => f == frame,
        _ => false,
    }
}

/// Byte `offset` of a frame after the steps of a plan for `image`: a frame is
/// zeroed when it is made.
pub open spec fn frame_byte(image: Seq<u8>, ops: Seq<Op>, frame: int, offset: int) -> Option<u8>
    decreases ops.len(),
{
    if ops.len() == 0 {
        None
    } else {
        let before = frame_byte(image, ops.drop_last(), frame, offset);
        match ops.last() {
            Op::Retype { object, dest } => if dest == frame {
                Some(0)
            } else {
                before
            },
            Op::Copy { frame: f, within_frame, file_offset, len } => if f == frame && within_frame
                <= offset < within_frame + len {
                Some(image[file_offset + (offset - within_frame)])
            } else {
                before
            },
            _ => before,
        }
    }
}

/// No step of the plan changes the frame.
pub open spec fn leaves_alone(ops: Seq<Op>, frame: int) -> bool {
    forall|i: int| 0 <= i < ops.len() ==> !changes(#[trigger] ops[i], frame)
}

proof fn lemma_left_alone(
    image: Seq<u8>,
    one: Seq<Op>,
    two: Seq<Op>,
    frame: int,
    offset: int,
)
    requires
        leaves_alone(two, frame),
    ensures
        frame_byte(image, one + two, frame, offset) == frame_byte(image, one, frame, offset),
    decreases two.len(),
{
    if two.len() == 0 {
        assert(one + two =~= one);
    } else {
        assert((one + two).drop_last() =~= one + two.drop_last());
        assert(!changes(two[two.len() - 1], frame));
        lemma_left_alone(image, one, two.drop_last(), frame, offset);
    }
}

/// The frames of a run of pages start out as zeroes.
proof fn lemma_fresh_pages(
    image: Seq<u8>,
    before: Seq<Op>,
    vspace: int,
    first: int,
    pages: Seq<Page>,
    frame: int,
    offset: int,
)
    requires
        0 <= first,
        first + pages.len() <= u64::MAX,
    ensures
        frame_byte(image, before + page_ops(vspace, first, pages), frame, offset) == (if first
            <= frame < first + pages.len() {
            Some(0u8)
        } else {
            frame_byte(image, before, frame, offset)
        }),
    decreases pages.len(),
{
    if pages.len() == 0 {
        assert(before + page_ops(vspace, first, pages) =~= before);
    } else {
        let less = page_ops(vspace, first, pages.drop_last());
        let a = retype_op(ObjectType::FrameMega, first + pages.len() - 1);
        let b = map_op(first + pages.len() - 1, vspace, pages.last());
        let all = before + page_ops(vspace, first, pages);
        lemma_fresh_pages(image, before, vspace, first, pages.drop_last(), frame, offset);
        assert(all =~= (before + less).push(a).push(b));
        assert(all.drop_last() =~= (before + less).push(a));
        assert((before + less).push(a).drop_last() =~= before + less);
        assert(frame_byte(image, all, frame, offset) == frame_byte(
            image,
            (before + less).push(a),
            frame,
            offset,
        ));
    }
}

/// Copying chunks into the frames of their pages.
proof fn lemma_copied_frames(
    image: Seq<u8>,
    before: Seq<Op>,
    first: int,
    chunks: Seq<Chunk>,
    page: int,
    offset: int,
    init: u8,
)
    requires
        0 <= first,
        forall|i: int| 0 <= i < chunks.len() ==> first + (#[trigger] chunks[i]).page <= u64::MAX,
        frame_byte(image, before, first + page, offset) == Some(init),
    ensures
        frame_byte(image, before + copy_ops(first, chunks), first + page, offset) == Some(
            copied_byte(image, chunks, page, offset, init),
        ),
    decreases chunks.len(),
{
    let all = before + copy_ops(first, chunks);
    if chunks.len() == 0 {
        assert(all =~= before);
    } else {
        let less = chunks.drop_last();
        assert forall|i: int| 0 <= i < less.len() implies first + (#[trigger] less[i]).page
            <= u64::MAX by {
            assert(less[i] == chunks[i]);
        }
        lemma_copied_frames(image, before, first, less, page, offset, init);
        assert(all.drop_last() =~= before + copy_ops(first, less));
        assert(all.last() == copy_op(first, chunks.last()));
        assert(chunks[chunks.len() - 1] == chunks.last());
    }
}

proof fn lemma_pool_leaves_alone(cnode: int, first: int, dest_base: int, n: int, frame: int)
    requires
        0 <= n,
        frame < first,
        0 <= first,
        first + n <= u64::MAX,
    ensures
        leaves_alone(pool_ops(cnode, first, dest_base, n), frame),
    decreases n,
{
    if n > 0 {
        lemma_pool_leaves_alone(cnode, first, dest_base, n - 1, frame);
    }
}

proof fn lemma_cspace_leaves_alone(spec: ProgramSpecView, n: int, slot: int, frame: int)
    requires
        0 <= slot,
        0 <= n,
        frame < cnode_slot(spec, n, slot),
        sched_slot(spec, n, slot) <= u64::MAX,
    ensures
        leaves_alone(cspace_ops(spec, n, slot), frame),
{
    let cnode = cnode_slot(spec, n, slot);
    let arena = arena_ops(slot, cnode, cnode + 1, spec.arena);
    match spec.arena {
        Some(a) => {
            lemma_pool_leaves_alone(
                cnode,
                cnode + 1,
                a.frame_dest_base as int,
                a.megapages as int,
                frame,
            );
        },
        None => {},
    }
    assert(leaves_alone(arena, frame));
    assert(leaves_alone(grant_ops(cnode, spec.grants), frame));
    assert(leaves_alone(self_cnode_ops(cnode, spec.self_cnode_dest), frame));
}

/// After loading, the frame of each page of the image holds exactly what the
/// image says is at that page's addresses.
pub proof fn law_loaded_pages_hold_the_image(
    spec: ProgramSpecView,
    slot: int,
    plan: LoadPlanView,
    end: int,
    k: int,
    offset: int,
)
    requires
        0 <= slot,
        end <= u64::MAX,
        spec.elf.len() <= u64::MAX,
        load_of(spec, slot) == Ok::<(LoadPlanView, int), LoadError>((plan, end)),
        0 <= k < image_pages(spec).len(),
        0 <= offset < MEGAPAGE_SIZE,
    ensures
        ({
            let image = spec.elf;
            let header = header_of(image)->Ok_0;
            frame_byte(image, plan.ops, slot + 1 + k, offset) == Some(
                program_byte(
                    image,
                    header,
                    header.phnum as int,
                    image_pages(spec)[k].vaddr + offset,
                ),
            )
        }),
{
    let image = spec.elf;
    let header = header_of(image)->Ok_0;
    let pages = image_pages(spec);
    let chunks = chunks_of(image, header, pages, header.phnum as int);
    let n = pages.len() as int;
    let data = data_pages(spec.heap_megapages as int);
    let a = vspace_ops(slot);
    let b = page_ops(slot, slot + 1, pages);
    let c = copy_ops(slot + 1, chunks);
    let d = page_ops(slot, slot + 1 + n, data);
    let e = cspace_ops(spec, n, slot);
    let f = thread_ops(
        sched_slot(spec, n, slot),
        header.entry,
        spec.arg0,
        cnode_slot(spec, n, slot),
        slot,
    );
    assert(plan.ops == a + b + c + d + e + f);
    law_pages_are_distinct(image, header, pages);
    law_chunks_stay_in_bounds(image, header, pages);
    lemma_fresh_pages(image, a, slot, slot + 1, pages, slot + 1 + k, offset);
    lemma_copied_frames(image, a + b, slot + 1, chunks, k, offset, 0);
    lemma_fresh_pages(image, a + b + c, slot, slot + 1 + n, data, slot + 1 + k, offset);
    lemma_cspace_leaves_alone(spec, n, slot, slot + 1 + k);
    lemma_left_alone(image, a + b + c + d, e, slot + 1 + k, offset);
    assert(leaves_alone(f, slot + 1 + k));
    lemma_left_alone(image, a + b + c + d + e, f, slot + 1 + k, offset);
    law_copied_pages_hold_the_image(image, header, pages, k, offset);
}

/// A program starts with an empty stack and heap: their frames hold zeroes
/// only.
pub proof fn law_stack_and_heap_start_empty(
    spec: ProgramSpecView,
    slot: int,
    plan: LoadPlanView,
    end: int,
    k: int,
    offset: int,
)
    requires
        0 <= slot,
        end <= u64::MAX,
        load_of(spec, slot) == Ok::<(LoadPlanView, int), LoadError>((plan, end)),
        image_pages(spec).len() <= k < image_pages(spec).len() + 1 + spec.heap_megapages,
    ensures
        frame_byte(spec.elf, plan.ops, slot + 1 + k, offset) == Some(0u8),
{
    let image = spec.elf;
    let header = header_of(image)->Ok_0;
    let pages = image_pages(spec);
    let chunks = chunks_of(image, header, pages, header.phnum as int);
    let n = pages.len() as int;
    let data = data_pages(spec.heap_megapages as int);
    let abc = vspace_ops(slot) + page_ops(slot, slot + 1, pages) + copy_ops(slot + 1, chunks);
    let d = page_ops(slot, slot + 1 + n, data);
    let e = cspace_ops(spec, n, slot);
    let f = thread_ops(
        sched_slot(spec, n, slot),
        header.entry,
        spec.arg0,
        cnode_slot(spec, n, slot),
        slot,
    );
    assert(plan.ops == abc + d + e + f);
    lemma_fresh_pages(image, abc, slot, slot + 1 + n, data, slot + 1 + k, offset);
    lemma_cspace_leaves_alone(spec, n, slot, slot + 1 + k);
    lemma_left_alone(image, abc + d, e, slot + 1 + k, offset);
    assert(leaves_alone(f, slot + 1 + k));
    lemma_left_alone(image, abc + d + e, f, slot + 1 + k, offset);
}

/// A mapping of the kernel's own is closed to user mode.
pub open spec fn kernel_only(op: Op) -> bool {
    op matches Op::MapKernel { vspace, mapping } && !mapping.flags.user
}

/// A mapping of a frame of the launcher's from `slot` on and below `end`,
/// into the address space at `slot`, open to user mode.
pub open spec fn private_user_page(op: Op, slot: int, end: int) -> bool {
    op matches Op::MapFrame { frame, vspace, vaddr, perms } && slot < frame < end && vspace == slot
        && vaddr % MEGAPAGE_SIZE == 0 && perms & PERM_U != 0
}

proof fn lemma_data_perms()
    ensures
        data_perms() & PERM_R != 0,
        data_perms() & PERM_W != 0,
        data_perms() & PERM_X == 0,
        data_perms() & PERM_U != 0,
{
    assert((1u64 | 2u64 | 8u64) & 1u64 != 0 && (1u64 | 2u64 | 8u64) & 2u64 != 0 && (1u64 | 2u64
        | 8u64) & 4u64 == 0 && (1u64 | 2u64 | 8u64) & 8u64 != 0) by (bit_vector);
}

/// Programs are confined from each other and from the kernel: loading maps
/// the kernel's megapages without user access, and otherwise only frames that
/// it made itself, each into the program's own address space alone.
pub proof fn law_loaded_memory_is_private(
    spec: ProgramSpecView,
    slot: int,
    plan: LoadPlanView,
    end: int,
    i: int,
)
    requires
        0 <= slot,
        end <= u64::MAX,
        HEAP_VADDR + spec.heap_megapages * MEGAPAGE_SIZE <= u64::MAX,
        load_of(spec, slot) == Ok::<(LoadPlanView, int), LoadError>((plan, end)),
        0 <= i < select(plan.ops, Purpose::MapMemory).len(),
    ensures
        ({
            let op = select(plan.ops, Purpose::MapMemory)[i];
            kernel_only(op) || private_user_page(op, slot, end)
        }),
{
    law_mappings_are_exactly_those_described(spec, slot, plan, end);
    let header = header_of(spec.elf)->Ok_0;
    let pages = image_pages(spec);
    let data = data_pages(spec.heap_megapages as int);
    let op = memory_mapped(spec, slot)[i];
    law_pages_are_distinct(spec.elf, header, pages);
    if i >= 2 {
        let k = i - 2;
        assert(op == mapped(slot, slot + 1, pages + data)[k]);
        if k < pages.len() {
            law_pages_are_user_pages(spec.elf, header, pages, k);
            assert((pages + data)[k] == pages[k]);
        } else {
            lemma_data_perms();
            assert((pages + data)[k] == data[k - pages.len()]);
        }
    }
}

/// The stack and the heap can be read and written but not executed.
pub proof fn law_stack_and_heap_are_not_executable(heap_megapages: int, k: int)
    requires
        0 <= k < data_pages(heap_megapages).len(),
    ensures
        data_pages(heap_megapages)[k].perms & PERM_R != 0,
        data_pages(heap_megapages)[k].perms & PERM_W != 0,
        data_pages(heap_megapages)[k].perms & PERM_X == 0,
        data_pages(heap_megapages)[k].perms & PERM_U != 0,
{
    lemma_data_perms();
}

/// The stack, the heap and the arena never overlap, as long as the heap has at
/// most sixteen megapages: the stack's page ends where the heap's begin, and
/// those end at or before the arena.
pub proof fn law_regions_do_not_overlap(heap_megapages: int, k: int)
    requires
        0 <= heap_megapages <= 16,
        0 <= k < heap_megapages,
    ensures
        data_pages(heap_megapages)[0].vaddr == STACK_VADDR,
        STACK_VADDR + MEGAPAGE_SIZE <= data_pages(heap_megapages)[1 + k].vaddr,
        data_pages(heap_megapages)[1 + k].vaddr == HEAP_VADDR + k * MEGAPAGE_SIZE,
        data_pages(heap_megapages)[1 + k].vaddr + MEGAPAGE_SIZE <= ARENA_VADDR,
{
}

/// No page of the image lies where the stack and the heap go.
pub open spec fn linked_clear(pages: Seq<Page>, heap_megapages: int) -> bool {
    forall|k: int|
        0 <= k < pages.len() ==> (#[trigger] pages[k]).vaddr < STACK_VADDR || HEAP_VADDR
            + heap_megapages * MEGAPAGE_SIZE <= pages[k].vaddr
}

/// Loading never maps two frames at one address, as long as the image is
/// linked clear of the stack and the heap.
pub proof fn law_mapped_addresses_are_distinct(
    spec: ProgramSpecView,
    slot: int,
    plan: LoadPlanView,
    end: int,
    i: int,
    j: int,
)
    requires
        0 <= slot,
        end <= u64::MAX,
        HEAP_VADDR + spec.heap_megapages * MEGAPAGE_SIZE <= u64::MAX,
        load_of(spec, slot) == Ok::<(LoadPlanView, int), LoadError>((plan, end)),
        linked_clear(image_pages(spec), spec.heap_megapages as int),
        2 <= i < j < select(plan.ops, Purpose::MapMemory).len(),
    ensures
        ({
            let ops = select(plan.ops, Purpose::MapMemory);
            &&& ops[i] is MapFrame
            &&& ops[j] is MapFrame
            &&& ops[i]->MapFrame_vaddr != ops[j]->MapFrame_vaddr
            &&& ops[i]->MapFrame_frame != ops[j]->MapFrame_frame
        }),
{
    law_mappings_are_exactly_those_described(spec, slot, plan, end);
    let header = header_of(spec.elf)->Ok_0;
    let pages = image_pages(spec);
    let data = data_pages(spec.heap_megapages as int);
    let all = pages + data;
    law_pages_are_distinct(spec.elf, header, pages);
    assert(memory_mapped(spec, slot)[i] == map_op(slot + 1 + (i - 2), slot, all[i - 2]));
    assert(memory_mapped(spec, slot)[j] == map_op(slot + 1 + (j - 2), slot, all[j - 2]));
}

/// A shared frame is mapped into exactly the two address spaces named, at the
/// addresses named, for reading and writing; both mappings are of the one
/// fresh frame, and no program gets a capability to it.
pub proof fn law_shared_frame_is_mapped_twice(
    frame: int,
    vspace_a: CPtr,
    vaddr_a: u64,
    vspace_b: CPtr,
    vaddr_b: u64,
)
    ensures
        ({
            let ops = shared_frame_ops(frame, vspace_a, vaddr_a, vspace_b, vaddr_b);
            &&& select(ops, Purpose::Make) == seq![retype_op(ObjectType::FrameSmall, frame)]
            &&& select(ops, Purpose::Grant) == Seq::<Op>::empty()
            &&& select(ops, Purpose::MapMemory) == seq![
                map_op(frame, vspace_a as int, Page { vaddr: vaddr_a, perms: data_perms() }),
                map_op(frame, vspace_b as int, Page { vaddr: vaddr_b, perms: data_perms() }),
            ]
        }),
{
    let ops = shared_frame_ops(frame, vspace_a, vaddr_a, vspace_b, vaddr_b);
    reveal_with_fuel(select, 4);
    assert(ops.drop_last() =~= seq![ops[0], ops[1]]);
    assert(ops.drop_last().drop_last() =~= seq![ops[0]]);
    assert(ops.drop_last().drop_last().drop_last() =~= Seq::empty());
    assert(select(ops, Purpose::Make) =~= seq![ops[0]]);
    assert(select(ops, Purpose::MapMemory) =~= seq![ops[1], ops[2]]);
}

} // verus!
