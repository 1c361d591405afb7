//! What a boot plan consists of: founding capabilities, resources, programs,
//! shared frames and threads.

use crate::boot::{
    boot, boot_of, launch_fits, lemma_load_all_len, programs_slot, share_ops, BootPlan,
    BootPlanView, Launch, LaunchView, Resource, Share,
};
use crate::image::LoadError;
use crate::launch::{
    all_slots_at_most, data_perms, lemma_all_slots_monotonic, load_all_of, load_of, sizes_fit,
    LoadPlanView, ObjectType, Op, ProgramSpecView, Rights,
};
use crate::launch_laws::law_each_program_has_its_own_slots;
use crate::load_laws::{
    law_first_failure_stops_all, law_thread_starts_at_the_top_of_its_stack, mapped_at,
};
use vstd::prelude::*;

verus! {

/// The root task is given the memory there is and no other: whole megapages,
/// from the end of the kernel's own on, up to the last that ends before memory
/// does. Where memory ends before one megapage it is given that one. It may make
/// a thousand objects of it, with every right, and holds its own space as well.
pub proof fn law_root_is_given_the_memory_there_is(launch: &Launch, mem_end: u64, plan: BootPlan)
    requires
        call_ensures(boot, (launch, mem_end), Ok(plan)),
    ensures
        plan.root.memory_base == 0x8060_0000,
        plan.root.memory_size % 0x20_0000 == 0,
        mem_end >= 0x8080_0000 ==> plan.root.memory_base + plan.root.memory_size <= mem_end
            < plan.root.memory_base + plan.root.memory_size + 0x20_0000,
        mem_end < 0x8080_0000 ==> plan.root.memory_size == 0x20_0000,
        plan.root.budget == 1000,
        plan.root.self_cnode == 0,
        plan.root.untyped == 1,
        plan.root.untyped_rights == Rights::All,
{
    assert(plan@.root == plan.root);
}

/// Each resource is made at its own slot, from slot 2 on, in order: an endpoint,
/// a notification, or a copy of just the capability named, with just the rights
/// and the badge named.
pub proof fn law_resources_are_those_described(
    launch: &Launch,
    mem_end: u64,
    plan: BootPlan,
    i: int,
)
    requires
        launch_fits(launch@),
        call_ensures(boot, (launch, mem_end), Ok(plan)),
        0 <= i < launch.resources@.len(),
    ensures
        plan.resources@.len() == launch.resources@.len(),
        match launch.resources@[i] {
            Resource::Endpoint => plan.resources@[i] == (Op::Retype {
                object: ObjectType::Endpoint,
                dest: (2 + i) as u64,
            }),
            Resource::Notification => plan.resources@[i] == (Op::Retype {
                object: ObjectType::Notification,
                dest: (2 + i) as u64,
            }),
            Resource::Badged { source, rights, badge } => plan.resources@[i] == (Op::Mint {
                src: source,
                dest: (2 + i) as u64,
                rights,
                badge,
            }),
        },
{
    assert(plan@.resources == plan.resources@);
}

/// Each program is loaded just as it would be alone, the first at the slot after
/// the resources, each other at the slot after the one before; `slots` says
/// where each starts, and where the last ends.
pub proof fn law_programs_are_loaded_in_turn(
    launch: LaunchView,
    mem_end: int,
    plan: BootPlanView,
) -> (slots: Seq<int>)
    requires
        launch_fits(launch),
        boot_of(launch, mem_end) == Ok::<BootPlanView, LoadError>(plan),
    ensures
        plan.programs.len() == launch.programs.len(),
        slots.len() == launch.programs.len() + 1,
        slots[0] == 2 + launch.resources.len(),
        slots[launch.programs.len() as int] <= u64::MAX,
        forall|i: int|
            0 <= i < launch.programs.len() ==> slots[i] == (
            #[trigger] plan.programs[i]).program.vspace_cptr && load_of(
                launch.programs[i],
                slots[i],
            ) == Ok::<(LoadPlanView, int), LoadError>((plan.programs[i], slots[i + 1])),
        plan.shares == share_ops(
            launch.shares,
            plan.programs,
            slots[launch.programs.len() as int],
            launch.shares.len() as int,
        ),
{
    let slot = programs_slot(launch);
    let count = launch.programs.len() as int;
    let (plans, end) = load_all_of(launch.programs, count, slot)->Ok_0;
    lemma_all_slots_monotonic(launch.programs, 0, count);
    lemma_load_all_len(launch.programs, count, slot);
    law_each_program_has_its_own_slots(launch.programs, count, slot, plans, end)
}

proof fn lemma_share_at(
    shares: Seq<Share>,
    plans: Seq<LoadPlanView>,
    first: int,
    n: int,
    i: int,
)
    requires
        0 <= i < n <= shares.len(),
    ensures
        ({
            let ops = share_ops(shares, plans, first, n);
            let a = plans[shares[i].a as int].program.vspace_cptr as int;
            let b = plans[shares[i].b as int].program.vspace_cptr as int;
            &&& ops.len() == 3 * n
            &&& ops[3 * i] == (Op::Retype {
                object: ObjectType::FrameSmall,
                dest: (first + i) as u64,
            })
            &&& ops[3 * i + 1] == mapped_at(first + i, a, shares[i].vaddr_a as int, 11)
            &&& ops[3 * i + 2] == mapped_at(first + i, b, shares[i].vaddr_b as int, 11)
        }),
    decreases n,
{
    assert(data_perms() == 11) by {
        assert(1u64 | 2u64 | 8u64 == 11) by (bit_vector);
    }
    lemma_shares_len(shares, plans, first, n - 1);
    if i < n - 1 {
        lemma_share_at(shares, plans, first, n - 1, i);
    }
}

proof fn lemma_shares_len(shares: Seq<Share>, plans: Seq<LoadPlanView>, first: int, n: int)
    requires
        0 <= n,
    ensures
        share_ops(shares, plans, first, n).len() == 3 * n,
    decreases n,
{
    if n > 0 {
        lemma_shares_len(shares, plans, first, n - 1);
    }
}

/// For each frame to be shared, one small frame is made, at the next free slot
/// after the programs, and mapped for reading and writing (1 and 2) from user
/// mode (8) into the address spaces of just the two programs named, at just the
/// addresses named.
pub proof fn law_shares_are_those_described(
    launch: LaunchView,
    mem_end: int,
    plan: BootPlanView,
    i: int,
)
    requires
        launch_fits(launch),
        boot_of(launch, mem_end) == Ok::<BootPlanView, LoadError>(plan),
        0 <= i < launch.shares.len(),
    ensures
        ({
            let share = launch.shares[i];
            let frame = plan.programs.last().program.tcb_cptr + 1 + i;
            let a = plan.programs[share.a as int].program.vspace_cptr as int;
            let b = plan.programs[share.b as int].program.vspace_cptr as int;
            &&& plan.shares.len() == 3 * launch.shares.len()
            &&& plan.shares[3 * i] == (Op::Retype {
                object: ObjectType::FrameSmall,
                dest: frame as u64,
            })
            &&& plan.shares[3 * i + 1] == mapped_at(frame, a, share.vaddr_a as int, 11)
            &&& plan.shares[3 * i + 2] == mapped_at(frame, b, share.vaddr_b as int, 11)
        }),
{
    let slots = law_programs_are_loaded_in_turn(launch, mem_end, plan);
    let n = launch.programs.len() as int;
    let last = plan.programs[n - 1];
    lemma_share_at(launch.shares, plan.programs, slots[n], launch.shares.len() as int, i);
    law_thread_starts_at_the_top_of_its_stack(
        launch.programs[n - 1],
        slots[n - 1],
        last,
        slots[n],
    );
}

/// Nothing is shared that the launch description does not share.
pub proof fn law_nothing_else_is_shared(launch: LaunchView, mem_end: int, plan: BootPlanView)
    requires
        launch_fits(launch),
        boot_of(launch, mem_end) == Ok::<BootPlanView, LoadError>(plan),
    ensures
        plan.shares.len() == 3 * launch.shares.len(),
{
    let slots = law_programs_are_loaded_in_turn(launch, mem_end, plan);
    lemma_shares_len(
        launch.shares,
        plan.programs,
        slots[launch.programs.len() as int],
        launch.shares.len() as int,
    );
}

/// The last program's thread is entered, and those of all the others are made
/// ready, in order.
pub proof fn law_last_program_runs_first(launch: &Launch, mem_end: u64, plan: BootPlan)
    requires
        launch_fits(launch@),
        call_ensures(boot, (launch, mem_end), Ok(plan)),
    ensures
        plan.programs@.len() == launch.programs@.len(),
        plan.ready@.len() == launch.programs@.len() - 1,
        forall|i: int|
            0 <= i < launch.programs@.len() - 1 ==> #[trigger] plan.ready@[i]
                == plan.programs@[i].program.tcb_cptr,
        plan.first == plan.programs@.last().program.tcb_cptr,
{
    let view = plan@;
    let slots = law_programs_are_loaded_in_turn(launch@, mem_end as int, view);
    assert(view.ready == plan.ready@);
    assert(view.programs.len() == plan.programs@.len());
    assert forall|i: int| 0 <= i < launch.programs@.len() - 1 implies #[trigger] plan.ready@[i]
        == plan.programs@[i].program.tcb_cptr by {
        assert(view.programs[i] == plan.programs@[i]@);
    }
    let n = plan.programs@.len() as int;
    assert(view.programs[n - 1] == plan.programs@[n - 1]@);
}

/// Booting fails exactly if some program cannot be loaded, whatever memory there
/// is, and the first such program is the reason.
pub proof fn law_boot_fails_for_a_program(
    launch: &Launch,
    mem_end: u64,
    result: Result<BootPlan, LoadError>,
)
    requires
        call_ensures(boot, (launch, mem_end), result),
    ensures
        result is Ok <==> forall|i: int|
            0 <= i < launch@.programs.len() ==> load_of(#[trigger] launch@.programs[i], 0) is Ok,
        result matches Err(error) ==> exists|i: int|
            0 <= i < launch@.programs.len() && load_of(#[trigger] launch@.programs[i], 0) == Err::<
                (LoadPlanView, int),
                LoadError,
            >(error) && forall|j: int|
                0 <= j < i ==> load_of(#[trigger] launch@.programs[j], 0) is Ok,
{
    law_first_failure_stops_all(
        launch@.programs,
        launch@.programs.len() as int,
        programs_slot(launch@),
    );
}

/// A program of ordinary size: heap and arena have at most 2^32 megapages each,
/// and the arena's slots start below 2^32.
pub open spec fn ordinary(spec: ProgramSpecView) -> bool {
    &&& spec.heap_megapages <= 0x1_0000_0000
    &&& spec.arena matches Some(arena) ==> arena.megapages <= 0x1_0000_0000
        && arena.frame_dest_base <= 0x1_0000_0000
}

proof fn lemma_ordinary_slots(programs: Seq<ProgramSpecView>, n: int)
    requires
        0 <= n <= programs.len(),
        forall|i: int| 0 <= i < programs.len() ==> ordinary(#[trigger] programs[i]),
    ensures
        all_slots_at_most(programs, n) <= n * 0x3_0000_0000,
    decreases n,
{
    if n > 0 {
        lemma_ordinary_slots(programs, n - 1);
        assert(ordinary(programs[n - 1]));
        assert(n * 0x3_0000_0000 == (n - 1) * 0x3_0000_0000 + 0x3_0000_0000);
    }
}

/// Every launch of ordinary size can be booted, if it has a program and shares
/// frames only between programs that it has.
pub proof fn law_ordinary_launches_can_be_booted(launch: LaunchView)
    requires
        0 < launch.programs.len() <= 0x1_0000,
        launch.resources.len() <= 0x1_0000,
        launch.shares.len() <= 0x1_0000,
        forall|i: int| 0 <= i < launch.programs.len() ==> ordinary(#[trigger] launch.programs[i]),
        forall|i: int|
            0 <= i < launch.shares.len() ==> (#[trigger] launch.shares[i]).a
                < launch.programs.len() && launch.shares[i].b < launch.programs.len(),
    ensures
        launch_fits(launch),
{
    let n = launch.programs.len() as int;
    lemma_ordinary_slots(launch.programs, n);
    assert(n * 0x3_0000_0000 <= 0x1_0000 * 0x3_0000_0000);
    assert forall|i: int| 0 <= i < n implies sizes_fit(#[trigger] launch.programs[i]) by {
        assert(ordinary(launch.programs[i]));
    }
}

} // verus!
