//! What a launch guarantees: which slots it takes, what a program can reach,
//! and what is in its memory.

use crate::elf::header_of;
use crate::image::{chunks_of, pages_of, Chunk, LoadError, Page};
use crate::launch::{
    arena_megapages, arena_ops, cnode_slot, copy_ops, cspace_ops, data_pages, grant_op, grant_ops,
    lemma_slots_taken, load_all_of, load_of, map_op, memory_ops, packed, page_ops, pool_ops,
    retype_op, sched_slot,
    self_cnode_ops, thread_ops, vspace_ops, ArenaGrant, LoadPlanView, ObjectType, Op,
    ProgramSpecView,
};
use crate::paging::{kernel_mapping, uart_mapping};
use vstd::prelude::*;

verus! {

/// What a step is for.
pub enum Purpose {
    /// It makes an object.
    Make,
    /// It puts a capability into another capability space.
    Grant,
    /// It changes what an address space maps.
    MapMemory,
    /// It copies bytes of the image.
    Fill,
    /// It says where a thread starts.
    Start,
    /// It gives a thread what it runs with.
    Equip,
    /// It puts a copy of a capability, with a badge, into the launcher's own
    /// space.
    Badge,
}

/// The step is for this.
pub open spec fn serves(op: Op, purpose: Purpose) -> bool {
    match purpose {
        Purpose::Make => op is Retype,
        Purpose::Grant => op is CopyCross,
        Purpose::MapMemory => op is MapFrame || op is MapKernel,
        Purpose::Fill => op is Copy,
        Purpose::Start => op is SetContext,
        Purpose::Equip => op is Configure,
        Purpose::Badge => op is Mint,
    }
}

/// The steps of a plan that are for this, in order.
pub open spec fn select(ops: Seq<Op>, purpose: Purpose) -> Seq<Op>
    decreases ops.len(),
{
    if ops.len() == 0 {
        Seq::empty()
    } else if serves(ops.last(), purpose) {
        select(ops.drop_last(), purpose).push(ops.last())
    } else {
        select(ops.drop_last(), purpose)
    }
}

/// Selecting from a plan of two parts.
pub proof fn lemma_select_concat(one: Seq<Op>, two: Seq<Op>, purpose: Purpose)
    ensures
        select(one + two, purpose) == select(one, purpose) + select(two, purpose),
    decreases two.len(),
{
    if two.len() == 0 {
        assert(one + two =~= one);
        assert(select(one, purpose) + select(two, purpose) =~= select(one, purpose));
    } else {
        lemma_select_concat(one, two.drop_last(), purpose);
        assert((one + two).drop_last() =~= one + two.drop_last());
        assert(select(one + two, purpose) =~= select(one, purpose) + select(two, purpose));
    }
}

/// Selecting from a plan of three parts.
proof fn lemma_select_three(a: Seq<Op>, b: Seq<Op>, c: Seq<Op>, purpose: Purpose)
    ensures
        select(a + b + c, purpose) == select(a, purpose) + select(b, purpose) + select(c, purpose),
{
    lemma_select_concat(a, b, purpose);
    lemma_select_concat(a + b, c, purpose);
}

/// Selecting from a plan of four parts.
proof fn lemma_select_four(a: Seq<Op>, b: Seq<Op>, c: Seq<Op>, d: Seq<Op>, purpose: Purpose)
    ensures
        select(a + b + c + d, purpose) == select(a, purpose) + select(b, purpose) + select(
            c,
            purpose,
        ) + select(d, purpose),
{
    lemma_select_three(a, b, c, purpose);
    lemma_select_concat(a + b + c, d, purpose);
}

/// Selecting everything.
proof fn lemma_select_all(ops: Seq<Op>, purpose: Purpose)
    requires
        forall|i: int| 0 <= i < ops.len() ==> serves(#[trigger] ops[i], purpose),
    ensures
        select(ops, purpose) == ops,
    decreases ops.len(),
{
    if ops.len() > 0 {
        lemma_select_all(ops.drop_last(), purpose);
        assert(ops.drop_last().push(ops.last()) =~= ops);
    }
}

/// Selecting nothing.
pub proof fn lemma_select_none(ops: Seq<Op>, purpose: Purpose)
    requires
        forall|i: int| 0 <= i < ops.len() ==> !serves(#[trigger] ops[i], purpose),
    ensures
        select(ops, purpose) == Seq::<Op>::empty(),
    decreases ops.len(),
{
    if ops.len() > 0 {
        lemma_select_none(ops.drop_last(), purpose);
    }
}

/// Selecting from a plan of two steps.
proof fn lemma_select_two(a: Op, b: Op, purpose: Purpose)
    ensures
        select(seq![a, b], purpose) == (if serves(a, purpose) {
            seq![a]
        } else {
            Seq::empty()
        }) + (if serves(b, purpose) {
            seq![b]
        } else {
            Seq::empty()
        }),
{
    let one = seq![a];
    let two = seq![b];
    assert(seq![a, b] =~= one + two);
    lemma_select_concat(one, two, purpose);
    if serves(a, purpose) {
        lemma_select_all(one, purpose);
    } else {
        lemma_select_none(one, purpose);
    }
    if serves(b, purpose) {
        lemma_select_all(two, purpose);
    } else {
        lemma_select_none(two, purpose);
    }
}

/// `n` objects of one type at consecutive slots.
pub open spec fn made(object: ObjectType, first: int, n: int) -> Seq<Op> {
    Seq::new(n as nat, |i: int| retype_op(object, first + i))
}

/// One mapping per page, of frames at consecutive slots.
pub open spec fn mapped(vspace: int, first: int, pages: Seq<Page>) -> Seq<Op> {
    Seq::new(pages.len(), |i: int| map_op(first + i, vspace, pages[i]))
}

/// `n` grants, of consecutive slots to consecutive slots.
pub open spec fn granted(cnode: int, first: int, dest_base: int, n: int) -> Seq<Op> {
    Seq::new(n as nat, |i: int| grant_op(first + i, cnode, dest_base + i))
}

proof fn lemma_select_pages(vspace: int, first: int, pages: Seq<Page>)
    ensures
        select(page_ops(vspace, first, pages), Purpose::Make) == made(
            ObjectType::FrameMega,
            first,
            pages.len() as int,
        ),
        select(page_ops(vspace, first, pages), Purpose::MapMemory) == mapped(vspace, first, pages),
        select(page_ops(vspace, first, pages), Purpose::Grant) == Seq::<Op>::empty(),
    decreases pages.len(),
{
    if pages.len() == 0 {
        assert(made(ObjectType::FrameMega, first, 0) =~= Seq::empty());
        assert(mapped(vspace, first, pages) =~= Seq::empty());
    } else {
        let less = pages.drop_last();
        let frame = first + less.len();
        let a = retype_op(ObjectType::FrameMega, frame);
        let b = map_op(frame, vspace, pages.last());
        lemma_select_pages(vspace, first, less);
        lemma_select_concat(page_ops(vspace, first, less), seq![a, b], Purpose::Make);
        lemma_select_concat(page_ops(vspace, first, less), seq![a, b], Purpose::MapMemory);
        lemma_select_concat(page_ops(vspace, first, less), seq![a, b], Purpose::Grant);
        lemma_select_two(a, b, Purpose::Make);
        lemma_select_two(a, b, Purpose::MapMemory);
        lemma_select_two(a, b, Purpose::Grant);
        assert(made(ObjectType::FrameMega, first, pages.len() as int) =~= made(
            ObjectType::FrameMega,
            first,
            less.len() as int,
        ) + (seq![a] + Seq::<Op>::empty()));
        assert(mapped(vspace, first, pages) =~= mapped(vspace, first, less) + (Seq::<Op>::empty()
            + seq![b]));
        assert(Seq::<Op>::empty() + (Seq::<Op>::empty() + Seq::<Op>::empty()) =~= Seq::empty());
    }
}

proof fn lemma_select_pool(cnode: int, first: int, dest_base: int, n: int)
    requires
        0 <= n,
    ensures
        select(pool_ops(cnode, first, dest_base, n), Purpose::Make) == made(
            ObjectType::FrameMega,
            first,
            n,
        ),
        select(pool_ops(cnode, first, dest_base, n), Purpose::MapMemory) == Seq::<Op>::empty(),
        select(pool_ops(cnode, first, dest_base, n), Purpose::Grant) == granted(
            cnode,
            first,
            dest_base,
            n,
        ),
    decreases n,
{
    if n == 0 {
        assert(made(ObjectType::FrameMega, first, 0) =~= Seq::empty());
        assert(granted(cnode, first, dest_base, 0) =~= Seq::empty());
    } else {
        let less = pool_ops(cnode, first, dest_base, n - 1);
        let a = retype_op(ObjectType::FrameMega, first + n - 1);
        let b = grant_op(first + n - 1, cnode, dest_base + n - 1);
        lemma_select_pool(cnode, first, dest_base, n - 1);
        lemma_select_concat(less, seq![a, b], Purpose::Make);
        lemma_select_concat(less, seq![a, b], Purpose::MapMemory);
        lemma_select_concat(less, seq![a, b], Purpose::Grant);
        lemma_select_two(a, b, Purpose::Make);
        lemma_select_two(a, b, Purpose::MapMemory);
        lemma_select_two(a, b, Purpose::Grant);
        assert(made(ObjectType::FrameMega, first, n) =~= made(ObjectType::FrameMega, first, n - 1)
            + (seq![a] + Seq::<Op>::empty()));
        assert(granted(cnode, first, dest_base, n) =~= granted(cnode, first, dest_base, n - 1) + (
        Seq::<Op>::empty() + seq![b]));
        assert(Seq::<Op>::empty() + (Seq::<Op>::empty() + Seq::<Op>::empty()) =~= Seq::empty());
    }
}

proof fn lemma_select_memory(spec: ProgramSpecView, pages: Seq<Page>, chunks: Seq<Chunk>, slot: int)
    ensures
        select(memory_ops(spec, pages, chunks, slot), Purpose::Make) == seq![
            retype_op(ObjectType::VSpace, slot),
        ] + made(ObjectType::FrameMega, slot + 1, pages.len() + 1 + spec.heap_megapages),
        select(memory_ops(spec, pages, chunks, slot), Purpose::MapMemory) == seq![
            Op::MapKernel { vspace: slot as u64, mapping: kernel_mapping() },
            Op::MapKernel { vspace: slot as u64, mapping: uart_mapping() },
        ] + mapped(slot, slot + 1, pages + data_pages(spec.heap_megapages as int)),
        select(memory_ops(spec, pages, chunks, slot), Purpose::Grant) == Seq::<Op>::empty(),
{
    let data = data_pages(spec.heap_megapages as int);
    let n = pages.len() as int;
    let a1 = retype_op(ObjectType::VSpace, slot);
    let a2 = Op::MapKernel { vspace: slot as u64, mapping: kernel_mapping() };
    let a3 = Op::MapKernel { vspace: slot as u64, mapping: uart_mapping() };
    let a = vspace_ops(slot);
    let b = page_ops(slot, slot + 1, pages);
    let c = copy_ops(slot + 1, chunks);
    let d = page_ops(slot, slot + 1 + n, data);
    assert(a =~= seq![a1] + seq![a2, a3]);
    lemma_select_pages(slot, slot + 1, pages);
    lemma_select_pages(slot, slot + 1 + n, data);
    lemma_select_concat(seq![a1], seq![a2, a3], Purpose::Make);
    lemma_select_concat(seq![a1], seq![a2, a3], Purpose::MapMemory);
    lemma_select_concat(seq![a1], seq![a2, a3], Purpose::Grant);
    lemma_select_four(a, b, c, d, Purpose::Make);
    lemma_select_four(a, b, c, d, Purpose::MapMemory);
    lemma_select_four(a, b, c, d, Purpose::Grant);
    lemma_select_all(seq![a1], Purpose::Make);
    lemma_select_none(seq![a2, a3], Purpose::Make);
    lemma_select_none(c, Purpose::Make);
    lemma_select_none(seq![a1], Purpose::MapMemory);
    lemma_select_all(seq![a2, a3], Purpose::MapMemory);
    lemma_select_none(c, Purpose::MapMemory);
    lemma_select_none(seq![a1], Purpose::Grant);
    lemma_select_none(seq![a2, a3], Purpose::Grant);
    lemma_select_none(c, Purpose::Grant);
    assert(select(a + b + c + d, Purpose::Make) =~= seq![a1] + made(
        ObjectType::FrameMega,
        slot + 1,
        n + 1 + spec.heap_megapages,
    ));
    assert(select(a + b + c + d, Purpose::MapMemory) =~= seq![a2, a3] + mapped(
        slot,
        slot + 1,
        pages + data,
    ));
    assert(select(a + b + c + d, Purpose::Grant) =~= Seq::empty());
}

/// The grants of an arena: the program's own address space, and its frames.
pub open spec fn arena_grants(
    vspace: int,
    cnode: int,
    first: int,
    arena: Option<ArenaGrant>,
) -> Seq<Op> {
    match arena {
        Some(a) => seq![grant_op(vspace, cnode, a.self_vspace_dest as int)] + granted(
            cnode,
            first,
            a.frame_dest_base as int,
            a.megapages as int,
        ),
        None => Seq::empty(),
    }
}

proof fn lemma_select_arena(vspace: int, cnode: int, first: int, arena: Option<ArenaGrant>)
    ensures
        select(arena_ops(vspace, cnode, first, arena), Purpose::Make) == made(
            ObjectType::FrameMega,
            first,
            arena_megapages(arena),
        ),
        select(arena_ops(vspace, cnode, first, arena), Purpose::MapMemory) == Seq::<Op>::empty(),
        select(arena_ops(vspace, cnode, first, arena), Purpose::Grant) == arena_grants(
            vspace,
            cnode,
            first,
            arena,
        ),
{
    match arena {
        Some(a) => {
            let own = seq![grant_op(vspace, cnode, a.self_vspace_dest as int)];
            let pool = pool_ops(cnode, first, a.frame_dest_base as int, a.megapages as int);
            lemma_select_pool(cnode, first, a.frame_dest_base as int, a.megapages as int);
            lemma_select_concat(own, pool, Purpose::Make);
            lemma_select_concat(own, pool, Purpose::MapMemory);
            lemma_select_concat(own, pool, Purpose::Grant);
            lemma_select_none(own, Purpose::Make);
            lemma_select_none(own, Purpose::MapMemory);
            lemma_select_all(own, Purpose::Grant);
            assert(select(own + pool, Purpose::Make) =~= made(
                ObjectType::FrameMega,
                first,
                a.megapages as int,
            ));
            assert(select(own + pool, Purpose::MapMemory) =~= Seq::empty());
        },
        None => {
            assert(made(ObjectType::FrameMega, first, 0) =~= Seq::empty());
        },
    }
}

proof fn lemma_select_cspace(spec: ProgramSpecView, n: int, slot: int)
    ensures
        ({
            let cnode = cnode_slot(spec, n, slot);
            let ops = cspace_ops(spec, n, slot);
            &&& select(ops, Purpose::Make) == seq![retype_op(ObjectType::CNode, cnode)] + made(
                ObjectType::FrameMega,
                cnode + 1,
                arena_megapages(spec.arena),
            )
            &&& select(ops, Purpose::MapMemory) == Seq::<Op>::empty()
            &&& select(ops, Purpose::Grant) == grant_ops(cnode, spec.grants) + self_cnode_ops(
                cnode,
                spec.self_cnode_dest,
            ) + arena_grants(slot, cnode, cnode + 1, spec.arena)
        }),
{
    let cnode = cnode_slot(spec, n, slot);
    let a = seq![retype_op(ObjectType::CNode, cnode)];
    let b = grant_ops(cnode, spec.grants);
    let c = self_cnode_ops(cnode, spec.self_cnode_dest);
    let d = arena_ops(slot, cnode, cnode + 1, spec.arena);
    lemma_select_arena(slot, cnode, cnode + 1, spec.arena);
    lemma_select_four(a, b, c, d, Purpose::Make);
    lemma_select_four(a, b, c, d, Purpose::MapMemory);
    lemma_select_four(a, b, c, d, Purpose::Grant);
    lemma_select_all(a, Purpose::Make);
    lemma_select_none(b, Purpose::Make);
    lemma_select_none(c, Purpose::Make);
    lemma_select_none(a, Purpose::MapMemory);
    lemma_select_none(b, Purpose::MapMemory);
    lemma_select_none(c, Purpose::MapMemory);
    lemma_select_none(a, Purpose::Grant);
    lemma_select_all(b, Purpose::Grant);
    lemma_select_all(c, Purpose::Grant);
    assert(select(a + b + c + d, Purpose::Make) =~= a + made(
        ObjectType::FrameMega,
        cnode + 1,
        arena_megapages(spec.arena),
    ));
    assert(select(a + b + c + d, Purpose::MapMemory) =~= Seq::empty());
    assert(select(a + b + c + d, Purpose::Grant) =~= b + c + arena_grants(
        slot,
        cnode,
        cnode + 1,
        spec.arena,
    ));
}

proof fn lemma_select_thread(sched: int, entry: u64, arg0: u64, cnode: int, vspace: int)
    ensures
        ({
            let ops = thread_ops(sched, entry, arg0, cnode, vspace);
            &&& select(ops, Purpose::Make) == seq![
                retype_op(ObjectType::SchedContext, sched),
                retype_op(ObjectType::Tcb, sched + 1),
            ]
            &&& select(ops, Purpose::MapMemory) == Seq::<Op>::empty()
            &&& select(ops, Purpose::Grant) == Seq::<Op>::empty()
        }),
{
    let ops = thread_ops(sched, entry, arg0, cnode, vspace);
    let a = seq![ops[0], ops[1]];
    let b = seq![ops[2], ops[3]];
    assert(ops =~= a + b);
    lemma_select_concat(a, b, Purpose::Make);
    lemma_select_all(a, Purpose::Make);
    lemma_select_none(b, Purpose::Make);
    lemma_select_none(ops, Purpose::MapMemory);
    lemma_select_none(ops, Purpose::Grant);
    assert(a + Seq::<Op>::empty() =~= a);
}

/// The pages of a program's image, where it can be loaded.
pub open spec fn image_pages(spec: ProgramSpecView) -> Seq<Page> {
    let header = header_of(spec.elf)->Ok_0;
    pages_of(spec.elf, header, header.phnum as int)->Ok_0
}

/// Everything that loading makes, in order: an address space, frames for the
/// image, the stack and the heap, a capability space, the frames of the
/// arena, a budget and a thread.
pub open spec fn objects_made(spec: ProgramSpecView, slot: int) -> Seq<Op> {
    let n = image_pages(spec).len() as int;
    let cnode = cnode_slot(spec, n, slot);
    let sched = sched_slot(spec, n, slot);
    seq![retype_op(ObjectType::VSpace, slot)] + made(
        ObjectType::FrameMega,
        slot + 1,
        n + 1 + spec.heap_megapages,
    ) + seq![retype_op(ObjectType::CNode, cnode)] + made(
        ObjectType::FrameMega,
        cnode + 1,
        arena_megapages(spec.arena),
    ) + seq![retype_op(ObjectType::SchedContext, sched), retype_op(ObjectType::Tcb, sched + 1)]
}

/// Everything that loading puts into the program's capability space.
pub open spec fn capabilities_granted(spec: ProgramSpecView, slot: int) -> Seq<Op> {
    let cnode = cnode_slot(spec, image_pages(spec).len() as int, slot);
    grant_ops(cnode, spec.grants) + self_cnode_ops(cnode, spec.self_cnode_dest) + arena_grants(
        slot,
        cnode,
        cnode + 1,
        spec.arena,
    )
}

/// Everything that loading maps into the program's address space.
pub open spec fn memory_mapped(spec: ProgramSpecView, slot: int) -> Seq<Op> {
    seq![
        Op::MapKernel { vspace: slot as u64, mapping: kernel_mapping() },
        Op::MapKernel { vspace: slot as u64, mapping: uart_mapping() },
    ] + mapped(slot, slot + 1, image_pages(spec) + data_pages(spec.heap_megapages as int))
}

proof fn lemma_select_load(spec: ProgramSpecView, slot: int, plan: LoadPlanView, end: int)
    requires
        load_of(spec, slot) == Ok::<(LoadPlanView, int), LoadError>((plan, end)),
    ensures
        select(plan.ops, Purpose::Make) == objects_made(spec, slot),
        select(plan.ops, Purpose::MapMemory) == memory_mapped(spec, slot),
        select(plan.ops, Purpose::Grant) == capabilities_granted(spec, slot),
{
    let header = header_of(spec.elf)->Ok_0;
    let pages = image_pages(spec);
    let chunks = chunks_of(spec.elf, header, pages, header.phnum as int);
    let n = pages.len() as int;
    let cnode = cnode_slot(spec, n, slot);
    let sched = sched_slot(spec, n, slot);
    let a = memory_ops(spec, pages, chunks, slot);
    let b = cspace_ops(spec, n, slot);
    let c = thread_ops(sched, header.entry, spec.arg0, cnode, slot);
    assert(plan.ops == a + b + c);
    lemma_select_memory(spec, pages, chunks, slot);
    lemma_select_cspace(spec, n, slot);
    lemma_select_thread(sched, header.entry, spec.arg0, cnode, slot);
    lemma_select_three(a, b, c, Purpose::Make);
    lemma_select_three(a, b, c, Purpose::MapMemory);
    lemma_select_three(a, b, c, Purpose::Grant);
    assert(select(plan.ops, Purpose::Make) =~= objects_made(spec, slot));
    assert(select(plan.ops, Purpose::MapMemory) =~= memory_mapped(spec, slot));
    assert(select(plan.ops, Purpose::Grant) =~= capabilities_granted(spec, slot));
}

/// A loaded program's capability space gets exactly the capabilities that its
/// description names, each from the launcher's own space, and nothing else;
/// no other capability space is touched.
pub proof fn law_grants_are_exactly_those_described(
    spec: ProgramSpecView,
    slot: int,
    plan: LoadPlanView,
    end: int,
)
    requires
        load_of(spec, slot) == Ok::<(LoadPlanView, int), LoadError>((plan, end)),
    ensures
        select(plan.ops, Purpose::Grant) == capabilities_granted(spec, slot),
{
    lemma_select_load(spec, slot, plan, end);
}

/// A loaded program's address space maps exactly the kernel's two megapages,
/// the pages of its image, its stack and its heap: a fresh frame for each.
/// The frames of an arena are not mapped.
pub proof fn law_mappings_are_exactly_those_described(
    spec: ProgramSpecView,
    slot: int,
    plan: LoadPlanView,
    end: int,
)
    requires
        load_of(spec, slot) == Ok::<(LoadPlanView, int), LoadError>((plan, end)),
    ensures
        select(plan.ops, Purpose::MapMemory) == memory_mapped(spec, slot),
{
    lemma_select_load(spec, slot, plan, end);
}

/// The step makes an object at this slot.
pub open spec fn makes_at(op: Op, dest: int) -> bool {
    op matches Op::Retype { object, dest: d } && d == dest
}

/// Loading makes one object at each slot from the first free one up to the
/// one it leaves free, in that order, so no slot is used twice and none is
/// skipped.
pub proof fn law_slots_are_consecutive(
    spec: ProgramSpecView,
    slot: int,
    plan: LoadPlanView,
    end: int,
)
    requires
        0 <= slot,
        end <= u64::MAX,
        load_of(spec, slot) == Ok::<(LoadPlanView, int), LoadError>((plan, end)),
    ensures
        select(plan.ops, Purpose::Make) == objects_made(spec, slot),
        objects_made(spec, slot).len() == end - slot,
        forall|i: int|
            0 <= i < end - slot ==> makes_at(#[trigger] objects_made(spec, slot)[i], slot + i),
{
    lemma_select_load(spec, slot, plan, end);
}

/// The register that mints a capability gives its rights and its badge back,
/// for every badge below 2^56. From there on the badge's top byte is lost.
pub proof fn law_minted_rights_and_badge_come_back(rights: u8, badge: u64)
    requires
        badge < 0x100_0000_0000_0000,
    ensures
        packed(rights, badge) <= u64::MAX,
        packed(rights, badge) % 0x100 == rights,
        packed(rights, badge) / 0x100 == badge,
{
}

/// Programs that are loaded together get slots one after the other, and no slot
/// twice: `slots` says where each program's slots start, and each program is
/// loaded just as it would be alone, from there on. Its address space lies at
/// the first of its slots, and its thread behind that; so no two programs have
/// the same address space, and those of later programs lie further on.
pub proof fn law_each_program_has_its_own_slots(
    specs: Seq<ProgramSpecView>,
    n: int,
    slot: int,
    plans: Seq<LoadPlanView>,
    end: int,
) -> (slots: Seq<int>)
    requires
        0 <= n,
        0 <= slot,
        load_all_of(specs, n, slot) == Ok::<(Seq<LoadPlanView>, int), LoadError>((plans, end)),
        end <= u64::MAX,
    ensures
        plans.len() == n,
        slots.len() == n + 1,
        slots[0] == slot,
        slots[n] == end,
        forall|i: int|
            0 <= i < n ==> load_of(specs[i], #[trigger] slots[i]) == Ok::<
                (LoadPlanView, int),
                LoadError,
            >((plans[i], slots[i + 1])),
        forall|i: int|
            0 <= i < n ==> slots[i] == (#[trigger] plans[i]).program.vspace_cptr
                < plans[i].program.tcb_cptr < slots[i + 1],
        forall|i: int, j: int| 0 <= i < j <= n ==> #[trigger] slots[i] < #[trigger] slots[j],
        forall|i: int, j: int|
            0 <= i < j < n ==> (#[trigger] plans[i]).program.tcb_cptr < (
            #[trigger] plans[j]).program.vspace_cptr,
        forall|i: int, j: int|
            0 <= i < j < n ==> (#[trigger] plans[i]).program.vspace_cptr < (
            #[trigger] plans[j]).program.vspace_cptr,
    decreases n,
{
    if n == 0 {
        seq![slot]
    } else {
        let (less, next) = load_all_of(specs, n - 1, slot)->Ok_0;
        lemma_slots_taken(specs[n - 1], next);
        let before = law_each_program_has_its_own_slots(specs, n - 1, slot, less, next);
        let slots = before.push(end);
        assert forall|i: int| 0 <= i < n implies load_of(specs[i], #[trigger] slots[i]) == Ok::<
            (LoadPlanView, int),
            LoadError,
        >((plans[i], slots[i + 1])) by {
            if i < n - 1 {
                assert(slots[i] == before[i] && slots[i + 1] == before[i + 1]);
                assert(plans[i] == less[i]);
            }
        }
        assert forall|i: int| 0 <= i < n implies slots[i] == (
        #[trigger] plans[i]).program.vspace_cptr < plans[i].program.tcb_cptr < slots[i + 1] by {
            if i < n - 1 {
                assert(plans[i] == less[i]);
                assert(slots[i] == before[i] && slots[i + 1] == before[i + 1]);
            }
        }
        assert forall|i: int, j: int| 0 <= i < j <= n implies #[trigger] slots[i]
            < #[trigger] slots[j] by {
            assert(slots[i] == before[i]);
            if j < n {
                assert(slots[j] == before[j]);
            } else if i < n - 1 {
                assert(before[i] < before[n - 1]);
            }
        }
        assert forall|i: int, j: int| 0 <= i < j < n implies (#[trigger] plans[i]).program.tcb_cptr
            < (#[trigger] plans[j]).program.vspace_cptr by {
            assert(slots[i + 1] <= slots[j]);
        }
        slots
    }
}

} // verus!
