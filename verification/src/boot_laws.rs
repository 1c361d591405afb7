//! What booting a launch description guarantees.

use crate::boot::{
    boot_of, launch_fits, lemma_load_all_len, programs_slot, resource_ops, share_ops, BootPlanView,
    LaunchView, Resource, Share, FIRST_FREE_CPTR,
};
use crate::image::LoadError;
use crate::launch::{
    all_slots_at_most, cnode_slot, grant_ops, lemma_all_slots_monotonic, lemma_slots_taken,
    load_all_of, load_of, self_cnode_ops, shared_frame_ops, sizes_fit, LoadPlanView, Op,
    ProgramSpecView,
};
use crate::launch_laws::{
    arena_grants, capabilities_granted, image_pages, law_each_program_has_its_own_slots,
    law_grants_are_exactly_those_described, lemma_select_concat, lemma_select_none, select, Purpose,
};
use crate::launch_memory_laws::{kernel_only, law_loaded_memory_is_private};
use crate::launch_order_laws::{
    after_all, all_ops, in_order, law_load_all_is_in_order, law_shared_frame_is_in_order,
    lemma_in_order_concat, sources_exist,
};
use vstd::prelude::*;

verus! {

/// Everything that the root task does, in order.
pub open spec fn boot_ops(plan: BootPlanView) -> Seq<Op> {
    plan.resources + all_ops(plan.programs) + plan.shares
}

/// Everything that the program is granted is a resource of the launch
/// description: neither the root task's own space nor general memory.
pub open spec fn grants_resources(spec: ProgramSpecView, launch: LaunchView) -> bool {
    forall|j: int|
        0 <= j < spec.grants.len() ==> FIRST_FREE_CPTR <= (#[trigger] spec.grants[j]).0
            < programs_slot(launch)
}

/// What the launch description refers to exists when it is needed: a badged
/// copy is of an earlier resource, and programs are granted resources only.
pub open spec fn launch_closed(launch: LaunchView) -> bool {
    &&& forall|i: int|
        #![trigger launch.resources[i]]
        0 <= i < launch.resources.len() ==> (launch.resources[i] matches Resource::Badged {
            source,
            rights,
            badge,
        } ==> source < FIRST_FREE_CPTR + i)
    &&& forall|i: int|
        0 <= i < launch.programs.len() ==> (#[trigger] launch.programs[i]).elf.len() <= u64::MAX
            && grants_resources(launch.programs[i], launch)
}

proof fn lemma_resources_in_order(resources: Seq<Resource>)
    requires
        FIRST_FREE_CPTR + resources.len() <= u64::MAX,
        forall|i: int|
            #![trigger resources[i]]
            0 <= i < resources.len() ==> (resources[i] matches Resource::Badged {
                source,
                rights,
                badge,
            } ==> source < FIRST_FREE_CPTR + i),
    ensures
        in_order(resource_ops(resources), FIRST_FREE_CPTR as int),
        after_all(resource_ops(resources), FIRST_FREE_CPTR as int) == FIRST_FREE_CPTR
            + resources.len(),
    decreases resources.len(),
{
    if resources.len() > 0 {
        let less = resources.drop_last();
        assert forall|i: int|
            #![trigger less[i]]
            0 <= i < less.len() implies (less[i] matches Resource::Badged {
            source,
            rights,
            badge,
        } ==> source < FIRST_FREE_CPTR + i) by {
            assert(less[i] == resources[i]);
        }
        lemma_resources_in_order(less);
        assert(resource_ops(resources).drop_last() =~= resource_ops(less));
        assert(resources[resources.len() - 1] == resources.last());
    }
}

proof fn lemma_shares_in_order(shares: Seq<Share>, plans: Seq<LoadPlanView>, first: int, n: int)
    requires
        0 <= n <= shares.len(),
        0 <= first,
        first + n <= u64::MAX,
        forall|i: int|
            0 <= i < shares.len() ==> (#[trigger] shares[i]).a < plans.len() && shares[i].b
                < plans.len(),
        forall|i: int|
            0 <= i < plans.len() ==> (#[trigger] plans[i]).program.vspace_cptr < first,
    ensures
        in_order(share_ops(shares, plans, first, n), first),
        after_all(share_ops(shares, plans, first, n), first) == first + n,
    decreases n,
{
    if n > 0 {
        let share = shares[n - 1];
        let a = plans[share.a as int].program.vspace_cptr;
        let b = plans[share.b as int].program.vspace_cptr;
        lemma_shares_in_order(shares, plans, first, n - 1);
        law_shared_frame_is_in_order(first + n - 1, a, share.vaddr_a, b, share.vaddr_b);
        lemma_in_order_concat(
            share_ops(shares, plans, first, n - 1),
            shared_frame_ops(first + n - 1, a, share.vaddr_a, b, share.vaddr_b),
            first,
        );
    }
}

/// Where the plans' threads and address spaces lie.
proof fn lemma_plans_inside(specs: Seq<ProgramSpecView>, n: int, slot: int, i: int)
    requires
        0 <= i < n,
        0 <= slot,
        slot + all_slots_at_most(specs, n) <= u64::MAX,
        load_all_of(specs, n, slot) is Ok,
    ensures
        ({
            let (plans, end) = load_all_of(specs, n, slot)->Ok_0;
            &&& plans.len() == n
            &&& slot <= plans[i].program.vspace_cptr < plans[i].program.tcb_cptr < end
            &&& forall|j: int|
                0 <= j < i ==> (#[trigger] plans[j]).program.tcb_cptr
                    < plans[i].program.vspace_cptr
        }),
{
    let (plans, end) = load_all_of(specs, n, slot)->Ok_0;
    lemma_load_all_len(specs, n, slot);
    let slots = law_each_program_has_its_own_slots(specs, n, slot, plans, end);
    assert(slots[0] <= slots[i] < slots[i + 1] <= slots[n]);
}

/// Booting can be carried out step by step from the root task's two founding
/// capabilities: no step names what is not there yet, and no slot is used
/// twice.
pub proof fn law_boot_is_in_order(launch: LaunchView, mem_end: int, plan: BootPlanView)
    requires
        launch_fits(launch),
        launch_closed(launch),
        boot_of(launch, mem_end) == Ok::<BootPlanView, LoadError>(plan),
    ensures
        in_order(boot_ops(plan), FIRST_FREE_CPTR as int),
        plan.root.self_cnode < FIRST_FREE_CPTR,
        plan.root.untyped < FIRST_FREE_CPTR,
        plan.root.self_cnode != plan.root.untyped,
{
    let slot = programs_slot(launch);
    let count = launch.programs.len() as int;
    let (plans, next) = load_all_of(launch.programs, count, slot)->Ok_0;
    let n = launch.shares.len() as int;
    lemma_all_slots_monotonic(launch.programs, 0, count);
    lemma_load_all_len(launch.programs, count, slot);
    let slots = law_each_program_has_its_own_slots(launch.programs, count, slot, plans, next);
    assert(slots[0] <= slots[count]);
    lemma_resources_in_order(launch.resources);
    assert forall|i: int| 0 <= i < launch.programs.len() implies (
    #[trigger] launch.programs[i]).elf.len() <= u64::MAX && sources_exist(
        launch.programs[i],
        slot,
    ) by {
        assert(grants_resources(launch.programs[i], launch));
    }
    law_load_all_is_in_order(launch.programs, slot, plans, next);
    assert forall|i: int| 0 <= i < plans.len() implies (#[trigger] plans[i]).program.vspace_cptr
        < next by {
        lemma_plans_inside(launch.programs, count, slot, i);
    }
    lemma_shares_in_order(launch.shares, plans, next, n);
    lemma_in_order_concat(plan.resources, all_ops(plans), FIRST_FREE_CPTR as int);
    lemma_in_order_concat(
        plan.resources + all_ops(plans),
        plan.shares,
        FIRST_FREE_CPTR as int,
    );
}

/// Every program is started exactly once: all but the last are made ready, in
/// order, the last is entered, and no two of them have one thread.
pub proof fn law_every_program_starts_once(
    launch: LaunchView,
    mem_end: int,
    plan: BootPlanView,
    i: int,
    j: int,
)
    requires
        launch_fits(launch),
        boot_of(launch, mem_end) == Ok::<BootPlanView, LoadError>(plan),
        0 <= i < j < plan.programs.len(),
    ensures
        plan.programs.len() == launch.programs.len(),
        plan.ready.push(plan.first).len() == plan.programs.len(),
        plan.ready.push(plan.first)[i] == plan.programs[i].program.tcb_cptr,
        plan.ready.push(plan.first)[j] == plan.programs[j].program.tcb_cptr,
        plan.programs[i].program.tcb_cptr != plan.programs[j].program.tcb_cptr,
{
    let slot = programs_slot(launch);
    let count = launch.programs.len() as int;
    lemma_all_slots_monotonic(launch.programs, 0, count);
    lemma_load_all_len(launch.programs, count, slot);
    lemma_plans_inside(launch.programs, count, slot, j);
}

/// Each plan is that of its program, from the slot of its address space on,
/// and ends before the next one begins.
proof fn lemma_plan_of(specs: Seq<ProgramSpecView>, n: int, slot: int, i: int) -> (end_of_i: int)
    requires
        0 <= i < n,
        0 <= slot,
        slot + all_slots_at_most(specs, n) <= u64::MAX,
        load_all_of(specs, n, slot) is Ok,
    ensures
        ({
            let (plans, end) = load_all_of(specs, n, slot)->Ok_0;
            let start = plans[i].program.vspace_cptr as int;
            &&& plans.len() == n
            &&& load_of(specs[i], start) == Ok::<(LoadPlanView, int), LoadError>(
                (plans[i], end_of_i),
            )
            &&& slot <= start
            &&& end_of_i <= end <= u64::MAX
            &&& forall|j: int|
                i < j < n ==> end_of_i <= (#[trigger] plans[j]).program.vspace_cptr
        }),
{
    let (plans, end) = load_all_of(specs, n, slot)->Ok_0;
    lemma_load_all_len(specs, n, slot);
    let slots = law_each_program_has_its_own_slots(specs, n, slot, plans, end);
    assert(slots[0] <= slots[i] < slots[i + 1] <= slots[n]);
    assert forall|j: int| i < j < n implies slots[i + 1] <= (
    #[trigger] plans[j]).program.vspace_cptr by {
        assert(slots[i + 1] <= slots[j]);
    }
    slots[i + 1]
}

proof fn lemma_shares_grant_nothing(
    shares: Seq<Share>,
    plans: Seq<LoadPlanView>,
    first: int,
    n: int,
)
    requires
        0 <= n,
    ensures
        select(share_ops(shares, plans, first, n), Purpose::Grant) == Seq::<Op>::empty(),
    decreases n,
{
    if n > 0 {
        let share = shares[n - 1];
        let a = plans[share.a as int].program.vspace_cptr;
        let b = plans[share.b as int].program.vspace_cptr;
        let last = shared_frame_ops(first + n - 1, a, share.vaddr_a, b, share.vaddr_b);
        lemma_shares_grant_nothing(shares, plans, first, n - 1);
        lemma_select_none(last, Purpose::Grant);
        lemma_select_concat(share_ops(shares, plans, first, n - 1), last, Purpose::Grant);
    }
}

/// Booting gives each program exactly the capabilities that its description
/// names, and gives none in any other way: making the resources and sharing
/// frames grants nothing.
pub proof fn law_boot_grants_only_what_is_described(
    launch: LaunchView,
    mem_end: int,
    plan: BootPlanView,
    i: int,
)
    requires
        launch_fits(launch),
        boot_of(launch, mem_end) == Ok::<BootPlanView, LoadError>(plan),
        0 <= i < launch.programs.len(),
    ensures
        select(plan.resources, Purpose::Grant) == Seq::<Op>::empty(),
        select(plan.shares, Purpose::Grant) == Seq::<Op>::empty(),
        select(plan.programs[i].ops, Purpose::Grant) == capabilities_granted(
            launch.programs[i],
            plan.programs[i].program.vspace_cptr as int,
        ),
{
    let slot = programs_slot(launch);
    let count = launch.programs.len() as int;
    let (plans, next) = load_all_of(launch.programs, count, slot)->Ok_0;
    lemma_all_slots_monotonic(launch.programs, 0, count);
    lemma_load_all_len(launch.programs, count, slot);
    let end_of_i = lemma_plan_of(launch.programs, count, slot, i);
    law_grants_are_exactly_those_described(
        launch.programs[i],
        plans[i].program.vspace_cptr as int,
        plans[i],
        end_of_i,
    );
    lemma_select_none(plan.resources, Purpose::Grant);
    lemma_shares_grant_nothing(launch.shares, plans, next, launch.shares.len() as int);
}

/// The slot that a grant copies from.
pub open spec fn grant_source(op: Op) -> int {
    match op {
        Op::CopyCross { source_cnode, source_slot, dest_cnode, dest_slot } => source_slot as int,
        _ => 0,
    }
}

/// The root task keeps its own authority to itself: no program ever gets its
/// capability space or general memory. What a program gets is a resource, or
/// was made for that very program.
pub proof fn law_root_authority_is_not_granted(
    launch: LaunchView,
    mem_end: int,
    plan: BootPlanView,
    i: int,
    k: int,
)
    requires
        launch_fits(launch),
        launch_closed(launch),
        boot_of(launch, mem_end) == Ok::<BootPlanView, LoadError>(plan),
        0 <= i < launch.programs.len(),
        0 <= k < select(plan.programs[i].ops, Purpose::Grant).len(),
    ensures
        ({
            let source = grant_source(select(plan.programs[i].ops, Purpose::Grant)[k]);
            let program = plan.programs[i].program;
            &&& source != plan.root.self_cnode
            &&& source != plan.root.untyped
            &&& FIRST_FREE_CPTR <= source < programs_slot(launch) || program.vspace_cptr <= source
                < program.tcb_cptr
        }),
{
    let slot = programs_slot(launch);
    let count = launch.programs.len() as int;
    let spec = launch.programs[i];
    let (plans, next) = load_all_of(launch.programs, count, slot)->Ok_0;
    let vspace = plans[i].program.vspace_cptr as int;
    let cnode = cnode_slot(spec, image_pages(spec).len() as int, vspace);
    lemma_all_slots_monotonic(launch.programs, 0, count);
    lemma_load_all_len(launch.programs, count, slot);
    let end_of_i = lemma_plan_of(launch.programs, count, slot, i);
    law_boot_grants_only_what_is_described(launch, mem_end, plan, i);
    assert(grants_resources(spec, launch));
    let described = grant_ops(cnode, spec.grants);
    let own = self_cnode_ops(cnode, spec.self_cnode_dest);
    let arena = arena_grants(vspace, cnode, cnode + 1, spec.arena);
    let all = capabilities_granted(spec, vspace);
    assert(all == described + own + arena);
    if k < described.len() {
        assert(all[k] == described[k]);
        assert(FIRST_FREE_CPTR <= spec.grants[k].0);
    } else if k < described.len() + own.len() {
        assert(all[k] == own[k - described.len()]);
    } else {
        assert(all[k] == arena[k - described.len() - own.len()]);
    }
}

/// Two programs have no memory in common but what the launch description
/// shares between them: loading one never maps a frame that loading the other
/// maps, nor maps anything into the other's address space.
pub proof fn law_boot_keeps_programs_apart(
    launch: LaunchView,
    mem_end: int,
    plan: BootPlanView,
    i: int,
    j: int,
    a: int,
    b: int,
)
    requires
        launch_fits(launch),
        boot_of(launch, mem_end) == Ok::<BootPlanView, LoadError>(plan),
        0 <= i < j < launch.programs.len(),
        0 <= a < select(plan.programs[i].ops, Purpose::MapMemory).len(),
        0 <= b < select(plan.programs[j].ops, Purpose::MapMemory).len(),
    ensures
        ({
            let x = select(plan.programs[i].ops, Purpose::MapMemory)[a];
            let y = select(plan.programs[j].ops, Purpose::MapMemory)[b];
            &&& x is MapFrame || kernel_only(x)
            &&& y is MapFrame || kernel_only(y)
            &&& x is MapFrame && y is MapFrame ==> x->MapFrame_frame != y->MapFrame_frame
                && x->MapFrame_vspace != y->MapFrame_vspace
        }),
{
    let slot = programs_slot(launch);
    let count = launch.programs.len() as int;
    let (plans, next) = load_all_of(launch.programs, count, slot)->Ok_0;
    lemma_all_slots_monotonic(launch.programs, 0, count);
    lemma_load_all_len(launch.programs, count, slot);
    let end_of_i = lemma_plan_of(launch.programs, count, slot, i);
    let end_of_j = lemma_plan_of(launch.programs, count, slot, j);
    assert(sizes_fit(launch.programs[i]));
    assert(sizes_fit(launch.programs[j]));
    lemma_slots_taken(launch.programs[i], plans[i].program.vspace_cptr as int);
    law_loaded_memory_is_private(
        launch.programs[i],
        plans[i].program.vspace_cptr as int,
        plans[i],
        end_of_i,
        a,
    );
    law_loaded_memory_is_private(
        launch.programs[j],
        plans[j].program.vspace_cptr as int,
        plans[j],
        end_of_j,
        b,
    );
}

} // verus!
