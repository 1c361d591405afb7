//! A plan can be carried out step by step: no step names what is not there
//! yet.

use crate::elf::header_of;
use crate::image::{chunks_of, pages_of, Chunk, LoadError, Page};
use crate::image_laws::{law_chunks_stay_in_bounds, law_pages_are_distinct};
use crate::launch::{
    arena_megapages, arena_ops, cnode_slot, copy_ops, cspace_ops, data_pages, grant_op, grant_ops,
    lemma_slots_taken, load_all_of, load_of, map_op, memory_ops, page_ops, pool_ops, retype_op,
    sched_slot, self_cnode_ops, shared_frame_ops, thread_ops, vspace_ops, ArenaGrant, CPtr,
    LoadPlanView, ObjectType, Op, ProgramSpecView,
};
use vstd::prelude::*;

verus! {

/// With the launcher's slots below `next` in use, the step names none of its
/// other slots, and what it makes goes to slot `next`.
pub open spec fn step_ok(op: Op, next: int) -> bool {
    match op {
        Op::Retype { object, dest } => dest == next,
        Op::Mint { src, dest, rights, badge } => src < next && dest == next,
        Op::CopyCross { source_cnode, source_slot, dest_cnode, dest_slot } => source_cnode < next
            && source_slot < next && dest_cnode < next,
        Op::MapKernel { vspace, mapping } => vspace < next,
        Op::MapFrame { frame, vspace, vaddr, perms } => frame < next && vspace < next,
        Op::Copy { frame, within_frame, file_offset, len } => frame < next,
        Op::SetContext { tcb, entry, stack_top, arg0 } => tcb < next,
        Op::Configure { tcb, cnode, sched, vspace } => tcb < next && cnode < next && sched < next
            && vspace < next,
    }
}

/// The first free slot after a step.
pub open spec fn after(op: Op, next: int) -> int {
    if op is Retype || op is Mint {
        next + 1
    } else {
        next
    }
}

/// The first free slot after a plan.
pub open spec fn after_all(ops: Seq<Op>, next: int) -> int
    decreases ops.len(),
{
    if ops.len() == 0 {
        next
    } else {
        after(ops.last(), after_all(ops.drop_last(), next))
    }
}

/// Every step of the plan is in order when its turn comes.
pub open spec fn in_order(ops: Seq<Op>, next: int) -> bool
    decreases ops.len(),
{
    ops.len() == 0 || (in_order(ops.drop_last(), next) && step_ok(
        ops.last(),
        after_all(ops.drop_last(), next),
    ))
}

/// Carrying out one plan after another.
pub proof fn lemma_in_order_concat(one: Seq<Op>, two: Seq<Op>, next: int)
    ensures
        after_all(one + two, next) == after_all(two, after_all(one, next)),
        in_order(one + two, next) <==> in_order(one, next) && in_order(
            two,
            after_all(one, next),
        ),
    decreases two.len(),
{
    if two.len() == 0 {
        assert(one + two =~= one);
    } else {
        assert((one + two).drop_last() =~= one + two.drop_last());
        lemma_in_order_concat(one, two.drop_last(), next);
    }
}

/// A plan that makes nothing.
proof fn lemma_makes_nothing(ops: Seq<Op>, next: int)
    requires
        forall|i: int|
            0 <= i < ops.len() ==> after(#[trigger] ops[i], next) == next && step_ok(ops[i], next),
    ensures
        after_all(ops, next) == next,
        in_order(ops, next),
    decreases ops.len(),
{
    if ops.len() > 0 {
        lemma_makes_nothing(ops.drop_last(), next);
    }
}

/// A plan of one step.
proof fn lemma_one_step(op: Op, next: int)
    ensures
        after_all(seq![op], next) == after(op, next),
        in_order(seq![op], next) <==> step_ok(op, next),
{
    assert(seq![op].drop_last() =~= Seq::empty());
    assert(after_all(Seq::<Op>::empty(), next) == next);
    assert(in_order(Seq::<Op>::empty(), next));
}

/// A plan of two steps.
proof fn lemma_two_steps(a: Op, b: Op, next: int)
    ensures
        after_all(seq![a, b], next) == after(b, after(a, next)),
        in_order(seq![a, b], next) <==> step_ok(a, next) && step_ok(b, after(a, next)),
{
    assert(seq![a, b] =~= seq![a] + seq![b]);
    lemma_one_step(a, next);
    lemma_one_step(b, after(a, next));
    lemma_in_order_concat(seq![a], seq![b], next);
}

proof fn lemma_pages_in_order(vspace: int, first: int, pages: Seq<Page>)
    requires
        0 <= vspace < first,
        first + pages.len() <= u64::MAX,
    ensures
        after_all(page_ops(vspace, first, pages), first) == first + pages.len(),
        in_order(page_ops(vspace, first, pages), first),
    decreases pages.len(),
{
    if pages.len() > 0 {
        let less = pages.drop_last();
        let frame = first + less.len();
        let a = retype_op(ObjectType::FrameMega, frame);
        let b = map_op(frame, vspace, pages.last());
        lemma_pages_in_order(vspace, first, less);
        lemma_two_steps(a, b, frame);
        lemma_in_order_concat(page_ops(vspace, first, less), seq![a, b], first);
    }
}

proof fn lemma_pool_in_order(cnode: int, first: int, dest_base: int, n: int)
    requires
        0 <= cnode < first,
        0 <= n,
        first + n <= u64::MAX,
    ensures
        after_all(pool_ops(cnode, first, dest_base, n), first) == first + n,
        in_order(pool_ops(cnode, first, dest_base, n), first),
    decreases n,
{
    if n > 0 {
        let a = retype_op(ObjectType::FrameMega, first + n - 1);
        let b = grant_op(first + n - 1, cnode, dest_base + n - 1);
        lemma_pool_in_order(cnode, first, dest_base, n - 1);
        lemma_two_steps(a, b, first + n - 1);
        lemma_in_order_concat(pool_ops(cnode, first, dest_base, n - 1), seq![a, b], first);
    }
}

proof fn lemma_memory_in_order(
    spec: ProgramSpecView,
    pages: Seq<Page>,
    chunks: Seq<Chunk>,
    slot: int,
)
    requires
        0 <= slot,
        slot + pages.len() + spec.heap_megapages + 2 <= u64::MAX,
        forall|i: int| 0 <= i < chunks.len() ==> (#[trigger] chunks[i]).page < pages.len(),
    ensures
        after_all(memory_ops(spec, pages, chunks, slot), slot) == slot + pages.len()
            + spec.heap_megapages + 2,
        in_order(memory_ops(spec, pages, chunks, slot), slot),
{
    let n = pages.len() as int;
    let data = data_pages(spec.heap_megapages as int);
    let a = vspace_ops(slot);
    let b = page_ops(slot, slot + 1, pages);
    let c = copy_ops(slot + 1, chunks);
    let d = page_ops(slot, slot + 1 + n, data);
    assert(a =~= seq![a[0]] + seq![a[1], a[2]]);
    lemma_one_step(a[0], slot);
    lemma_two_steps(a[1], a[2], slot + 1);
    lemma_in_order_concat(seq![a[0]], seq![a[1], a[2]], slot);
    lemma_pages_in_order(slot, slot + 1, pages);
    lemma_in_order_concat(a, b, slot);
    lemma_makes_nothing(c, slot + 1 + n);
    lemma_in_order_concat(a + b, c, slot);
    lemma_pages_in_order(slot, slot + 1 + n, data);
    lemma_in_order_concat(a + b + c, d, slot);
}

/// Everything that the description grants is there when the launcher's slots
/// below `slot` are in use.
pub open spec fn sources_exist(spec: ProgramSpecView, slot: int) -> bool {
    forall|i: int| 0 <= i < spec.grants.len() ==> (#[trigger] spec.grants[i]).0 < slot
}

proof fn lemma_arena_in_order(vspace: int, cnode: int, first: int, arena: Option<ArenaGrant>)
    requires
        0 <= vspace < first,
        0 <= cnode < first,
        first + arena_megapages(arena) <= u64::MAX,
    ensures
        after_all(arena_ops(vspace, cnode, first, arena), first) == first + arena_megapages(arena),
        in_order(arena_ops(vspace, cnode, first, arena), first),
{
    match arena {
        Some(a) => {
            let own = grant_op(vspace, cnode, a.self_vspace_dest as int);
            let pool = pool_ops(cnode, first, a.frame_dest_base as int, a.megapages as int);
            lemma_one_step(own, first);
            lemma_pool_in_order(cnode, first, a.frame_dest_base as int, a.megapages as int);
            lemma_in_order_concat(seq![own], pool, first);
        },
        None => {},
    }
}

proof fn lemma_cspace_in_order(spec: ProgramSpecView, n: int, slot: int)
    requires
        0 <= slot,
        0 <= n,
        sources_exist(spec, slot),
        sched_slot(spec, n, slot) <= u64::MAX,
    ensures
        after_all(cspace_ops(spec, n, slot), cnode_slot(spec, n, slot)) == sched_slot(
            spec,
            n,
            slot,
        ),
        in_order(cspace_ops(spec, n, slot), cnode_slot(spec, n, slot)),
{
    let cnode = cnode_slot(spec, n, slot);
    let make = retype_op(ObjectType::CNode, cnode);
    let a = seq![make];
    let b = grant_ops(cnode, spec.grants);
    let c = self_cnode_ops(cnode, spec.self_cnode_dest);
    let d = arena_ops(slot, cnode, cnode + 1, spec.arena);
    lemma_one_step(make, cnode);
    lemma_makes_nothing(b, cnode + 1);
    lemma_in_order_concat(a, b, cnode);
    lemma_makes_nothing(c, cnode + 1);
    lemma_in_order_concat(a + b, c, cnode);
    lemma_arena_in_order(slot, cnode, cnode + 1, spec.arena);
    lemma_in_order_concat(a + b + c, d, cnode);
}

proof fn lemma_thread_in_order(sched: int, entry: u64, arg0: u64, cnode: int, vspace: int)
    requires
        0 <= cnode < sched,
        0 <= vspace < sched,
        sched + 2 <= u64::MAX,
    ensures
        after_all(thread_ops(sched, entry, arg0, cnode, vspace), sched) == sched + 2,
        in_order(thread_ops(sched, entry, arg0, cnode, vspace), sched),
{
    let ops = thread_ops(sched, entry, arg0, cnode, vspace);
    assert(ops =~= seq![ops[0], ops[1]] + seq![ops[2], ops[3]]);
    lemma_two_steps(ops[0], ops[1], sched);
    lemma_two_steps(ops[2], ops[3], sched + 2);
    lemma_in_order_concat(seq![ops[0], ops[1]], seq![ops[2], ops[3]], sched);
}

/// Loading can be carried out step by step: each step names only what was
/// there before or what an earlier step made, and each object goes to the
/// first free slot.
pub proof fn law_load_is_in_order(spec: ProgramSpecView, slot: int, plan: LoadPlanView, end: int)
    requires
        0 <= slot,
        end <= u64::MAX,
        spec.elf.len() <= u64::MAX,
        sources_exist(spec, slot),
        load_of(spec, slot) == Ok::<(LoadPlanView, int), LoadError>((plan, end)),
    ensures
        in_order(plan.ops, slot),
        after_all(plan.ops, slot) == end,
        slot <= plan.program.vspace_cptr < end,
        slot <= plan.program.tcb_cptr < end,
{
    let image = spec.elf;
    let header = header_of(image)->Ok_0;
    let pages = pages_of(image, header, header.phnum as int)->Ok_0;
    let chunks = chunks_of(image, header, pages, header.phnum as int);
    let n = pages.len() as int;
    let cnode = cnode_slot(spec, n, slot);
    let sched = sched_slot(spec, n, slot);
    law_pages_are_distinct(image, header, pages);
    law_chunks_stay_in_bounds(image, header, pages);
    let a = memory_ops(spec, pages, chunks, slot);
    let b = cspace_ops(spec, n, slot);
    let c = thread_ops(sched, header.entry, spec.arg0, cnode, slot);
    assert(plan.ops == a + b + c);
    lemma_memory_in_order(spec, pages, chunks, slot);
    lemma_cspace_in_order(spec, n, slot);
    lemma_thread_in_order(sched, header.entry, spec.arg0, cnode, slot);
    lemma_in_order_concat(a, b, slot);
    lemma_in_order_concat(a + b, c, slot);
}

/// All steps of several plans, one plan after the other.
pub open spec fn all_ops(plans: Seq<LoadPlanView>) -> Seq<Op>
    decreases plans.len(),
{
    if plans.len() == 0 {
        Seq::empty()
    } else {
        all_ops(plans.drop_last()) + plans.last().ops
    }
}

proof fn lemma_load_all_in_order(
    specs: Seq<ProgramSpecView>,
    n: int,
    slot: int,
    plans: Seq<LoadPlanView>,
    end: int,
)
    requires
        0 <= n <= specs.len(),
        0 <= slot,
        end <= u64::MAX,
        forall|i: int|
            0 <= i < specs.len() ==> (#[trigger] specs[i]).elf.len() <= u64::MAX
                && sources_exist(specs[i], slot),
        load_all_of(specs, n, slot) == Ok::<(Seq<LoadPlanView>, int), LoadError>((plans, end)),
    ensures
        slot <= end,
        plans.len() == n,
        in_order(all_ops(plans), slot),
        after_all(all_ops(plans), slot) == end,
    decreases n,
{
    if n > 0 {
        let (less, next) = load_all_of(specs, n - 1, slot)->Ok_0;
        let (plan, last_end) = load_of(specs[n - 1], next)->Ok_0;
        lemma_slots_taken(specs[n - 1], next);
        lemma_load_all_in_order(specs, n - 1, slot, less, next);
        assert(sources_exist(specs[n - 1], next)) by {
            assert(sources_exist(specs[n - 1], slot));
        }
        law_load_is_in_order(specs[n - 1], next, plan, end);
        assert(plans.drop_last() =~= less);
        lemma_in_order_concat(all_ops(less), plan.ops, slot);
    }
}

/// Loading several programs can be carried out step by step, one program
/// after the other: no slot is used twice, and none is skipped.
pub proof fn law_load_all_is_in_order(
    specs: Seq<ProgramSpecView>,
    slot: int,
    plans: Seq<LoadPlanView>,
    end: int,
)
    requires
        0 <= slot,
        end <= u64::MAX,
        forall|i: int|
            0 <= i < specs.len() ==> (#[trigger] specs[i]).elf.len() <= u64::MAX
                && sources_exist(specs[i], slot),
        load_all_of(specs, specs.len() as int, slot) == Ok::<
            (Seq<LoadPlanView>, int),
            LoadError,
        >((plans, end)),
    ensures
        plans.len() == specs.len(),
        in_order(all_ops(plans), slot),
        after_all(all_ops(plans), slot) == end,
{
    lemma_load_all_in_order(specs, specs.len() as int, slot, plans, end);
}

/// Sharing a frame between two loaded programs is in order too.
pub proof fn law_shared_frame_is_in_order(
    frame: int,
    vspace_a: CPtr,
    vaddr_a: u64,
    vspace_b: CPtr,
    vaddr_b: u64,
)
    requires
        0 <= frame <= u64::MAX,
        vspace_a < frame,
        vspace_b < frame,
    ensures
        in_order(shared_frame_ops(frame, vspace_a, vaddr_a, vspace_b, vaddr_b), frame),
        after_all(shared_frame_ops(frame, vspace_a, vaddr_a, vspace_b, vaddr_b), frame) == frame
            + 1,
{
    let ops = shared_frame_ops(frame, vspace_a, vaddr_a, vspace_b, vaddr_b);
    assert(ops =~= seq![ops[0]] + seq![ops[1], ops[2]]);
    lemma_one_step(ops[0], frame);
    lemma_two_steps(ops[1], ops[2], frame + 1);
    lemma_in_order_concat(seq![ops[0]], seq![ops[1], ops[2]], frame);
}

} // verus!
