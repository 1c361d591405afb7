//! Booting a launch description: what the root task makes, loads and shares,
//! who is ready to run, and who runs first.
//!
//! The root task starts with a capability to its own capability space and one
//! to all general memory, and spends that authority explicitly: everything else
//! that it or a program holds is made, minted or copied from there.

use crate::image::LoadError;
use crate::launch::{
    all_slots_at_most, lemma_all_slots_monotonic, lemma_slots_taken, load_all, load_all_of,
    map_shared_frame, plan_views, program_views, retype_op, shared_frame_ops, sizes_fit, CPtr,
    LoadPlan, LoadPlanView, ObjectType, Op, ProgramSpec, ProgramSpecView, Rights, SELF_CNODE_CPTR,
};
use crate::pmm::{general_memory, general_memory_size, GENERAL_MEMORY_BASE};
use vstd::prelude::*;

verus! {

/// The root task's slot for the capability to general memory.
pub const UNTYPED_CPTR: CPtr = 1;

/// The root task's first free slot.
pub const FIRST_FREE_CPTR: CPtr = 2;

/// How many objects may be made from general memory.
pub const UNTYPED_BUDGET: u64 = 1000;

/// Something that programs get capabilities to. Each takes one slot of the
/// root task's, in order.
#[derive(Clone, Copy, PartialEq, Eq, Structural, Debug)]
pub enum Resource {
    Endpoint,
    Notification,
    /// A copy of the capability at slot `source`, with a badge.
    Badged { source: CPtr, rights: Rights, badge: u64 },
}

/// A frame in common to two programs, named by their place in the launch
/// description, each with the address that it has the frame at.
#[derive(Clone, Copy, PartialEq, Eq, Structural, Debug)]
pub struct Share {
    pub a: usize,
    pub vaddr_a: u64,
    pub b: usize,
    pub vaddr_b: u64,
}

/// Everything to boot. The last program runs first; the others are ready.
pub struct Launch<'a> {
    pub resources: &'a [Resource],
    pub programs: &'a [ProgramSpec<'a>],
    pub shares: &'a [Share],
}

/// What a [`Launch`] says.
pub struct LaunchView {
    pub resources: Seq<Resource>,
    pub programs: Seq<ProgramSpecView>,
    pub shares: Seq<Share>,
}

impl<'a> View for Launch<'a> {
    type V = LaunchView;

    open spec fn view(&self) -> LaunchView {
        LaunchView {
            resources: self.resources@,
            programs: program_views(self.programs@),
            shares: self.shares@,
        }
    }
}

/// The root task's founding capabilities: its own space, and general memory.
#[derive(Clone, Copy, PartialEq, Eq, Structural, Debug)]
pub struct RootSeed {
    pub self_cnode: CPtr,
    pub untyped: CPtr,
    /// The rights on general memory.
    pub untyped_rights: Rights,
    pub budget: u64,
    pub memory_base: u64,
    pub memory_size: u64,
}

/// Everything that the root task does before the first program runs, in this
/// order.
pub struct BootPlan {
    pub root: RootSeed,
    pub resources: Vec<Op>,
    pub programs: Vec<LoadPlan>,
    pub shares: Vec<Op>,
    /// The threads to make ready.
    pub ready: Vec<CPtr>,
    /// The thread to enter.
    pub first: CPtr,
}

/// What a [`BootPlan`] says.
pub struct BootPlanView {
    pub root: RootSeed,
    pub resources: Seq<Op>,
    pub programs: Seq<LoadPlanView>,
    pub shares: Seq<Op>,
    pub ready: Seq<CPtr>,
    pub first: CPtr,
}

impl View for BootPlan {
    type V = BootPlanView;

    open spec fn view(&self) -> BootPlanView {
        BootPlanView {
            root: self.root,
            resources: self.resources@,
            programs: plan_views(self.programs@),
            shares: self.shares@,
            ready: self.ready@,
            first: self.first,
        }
    }
}

/// The founding capabilities, when memory ends at `mem_end`.
pub open spec fn root_seed_of(mem_end: int) -> RootSeed {
    RootSeed {
        self_cnode: SELF_CNODE_CPTR,
        untyped: UNTYPED_CPTR,
        untyped_rights: Rights::All,
        budget: UNTYPED_BUDGET,
        memory_base: GENERAL_MEMORY_BASE,
        memory_size: general_memory_size(mem_end) as u64,
    }
}

/// Makes a resource at a slot.
pub open spec fn resource_op(resource: Resource, slot: int) -> Op {
    match resource {
        Resource::Endpoint => retype_op(ObjectType::Endpoint, slot),
        Resource::Notification => retype_op(ObjectType::Notification, slot),
        Resource::Badged { source, rights, badge } => Op::Mint {
            src: source,
            dest: slot as u64,
            rights,
            badge,
        },
    }
}

/// Makes the resources, at consecutive slots.
pub open spec fn resource_ops(resources: Seq<Resource>) -> Seq<Op> {
    Seq::new(resources.len(), |i: int| resource_op(resources[i], FIRST_FREE_CPTR + i))
}

/// Shares the first `n` frames between loaded programs, at slots from `first`
/// on.
pub open spec fn share_ops(
    shares: Seq<Share>,
    plans: Seq<LoadPlanView>,
    first: int,
    n: int,
) -> Seq<Op>
    decreases n,
{
    if n <= 0 {
        Seq::empty()
    } else {
        let share = shares[n - 1];
        share_ops(shares, plans, first, n - 1) + shared_frame_ops(
            first + n - 1,
            plans[share.a as int].program.vspace_cptr,
            share.vaddr_a,
            plans[share.b as int].program.vspace_cptr,
            share.vaddr_b,
        )
    }
}

/// The threads of all programs but the last.
pub open spec fn ready_threads(plans: Seq<LoadPlanView>) -> Seq<CPtr> {
    Seq::new((plans.len() - 1) as nat, |i: int| plans[i].program.tcb_cptr)
}

/// The first slot after the resources.
pub open spec fn programs_slot(launch: LaunchView) -> int {
    FIRST_FREE_CPTR + launch.resources.len()
}

/// What booting a launch description comes to, when memory ends at `mem_end`.
pub open spec fn boot_of(launch: LaunchView, mem_end: int) -> Result<BootPlanView, LoadError> {
    match load_all_of(launch.programs, launch.programs.len() as int, programs_slot(launch)) {
        Err(error) => Err(error),
        Ok((plans, next)) => Ok(
            BootPlanView {
                root: root_seed_of(mem_end),
                resources: resource_ops(launch.resources),
                programs: plans,
                shares: share_ops(launch.shares, plans, next, launch.shares.len() as int),
                ready: ready_threads(plans),
                first: plans.last().program.tcb_cptr,
            },
        ),
    }
}

/// There is a program, the shares are between programs that there are, and
/// all slots and sizes are machine words.
pub open spec fn launch_fits(launch: LaunchView) -> bool {
    &&& launch.programs.len() > 0
    &&& forall|i: int|
        0 <= i < launch.shares.len() ==> (#[trigger] launch.shares[i]).a < launch.programs.len()
            && launch.shares[i].b < launch.programs.len()
    &&& forall|i: int|
        0 <= i < launch.programs.len() ==> sizes_fit(#[trigger] launch.programs[i])
    &&& programs_slot(launch) + all_slots_at_most(
        launch.programs,
        launch.programs.len() as int,
    ) + launch.shares.len() <= u64::MAX
}

fn root_seed(mem_end: u64) -> (root: RootSeed)
    ensures
        root == root_seed_of(mem_end as int),
{
    RootSeed {
        self_cnode: SELF_CNODE_CPTR,
        untyped: UNTYPED_CPTR,
        untyped_rights: Rights::All,
        budget: UNTYPED_BUDGET,
        memory_base: GENERAL_MEMORY_BASE,
        memory_size: general_memory(mem_end),
    }
}

fn plan_resources(resources: &[Resource]) -> (ops: Vec<Op>)
    requires
        FIRST_FREE_CPTR + resources@.len() <= u64::MAX,
    ensures
        ops@ == resource_ops(resources@),
{
    let mut ops: Vec<Op> = Vec::new();
    let mut i: usize = 0;
    assert(ops@ =~= resource_ops(resources@.take(0)));
    while i < resources.len()
        invariant
            i <= resources@.len(),
            FIRST_FREE_CPTR + resources@.len() <= u64::MAX,
            ops@ == resource_ops(resources@.take(i as int)),
        decreases resources@.len() - i,
    {
        let slot: CPtr = FIRST_FREE_CPTR + i as u64;
        let op: Op = match resources[i] {
            Resource::Endpoint => Op::Retype { object: ObjectType::Endpoint, dest: slot },
            Resource::Notification => Op::Retype { object: ObjectType::Notification, dest: slot },
            Resource::Badged { source, rights, badge } => Op::Mint {
                src: source,
                dest: slot,
                rights,
                badge,
            },
        };
        ops.push(op);
        assert(ops@ =~= resource_ops(resources@.take(i + 1)));
        i = i + 1;
    }
    assert(resources@.take(resources@.len() as int) =~= resources@);
    ops
}

fn plan_shares(shares: &[Share], plans: &Vec<LoadPlan>, first: CPtr) -> (ops: Vec<Op>)
    requires
        first + shares@.len() <= u64::MAX,
        forall|i: int|
            0 <= i < shares@.len() ==> (#[trigger] shares@[i]).a < plans@.len() && shares@[i].b
                < plans@.len(),
    ensures
        ops@ == share_ops(shares@, plan_views(plans@), first as int, shares@.len() as int),
{
    let mut ops: Vec<Op> = Vec::new();
    let mut next: CPtr = first;
    let mut i: usize = 0;
    while i < shares.len()
        invariant
            i <= shares@.len(),
            next == first + i,
            first + shares@.len() <= u64::MAX,
            forall|i: int|
                0 <= i < shares@.len() ==> (#[trigger] shares@[i]).a < plans@.len() && shares@[i].b
                    < plans@.len(),
            ops@ == share_ops(shares@, plan_views(plans@), first as int, i as int),
        decreases shares@.len() - i,
    {
        let share: Share = shares[i];
        let mut more: Vec<Op> = map_shared_frame(
            plans[share.a].program.vspace_cptr,
            share.vaddr_a,
            plans[share.b].program.vspace_cptr,
            share.vaddr_b,
            &mut next,
        );
        ops.append(&mut more);
        i = i + 1;
    }
    ops
}

fn plan_ready(plans: &Vec<LoadPlan>) -> (ready: Vec<CPtr>)
    requires
        plans@.len() > 0,
    ensures
        ready@ == ready_threads(plan_views(plans@)),
{
    let mut ready: Vec<CPtr> = Vec::new();
    let mut i: usize = 0;
    while i < plans.len() - 1
        invariant
            plans@.len() > 0,
            i <= plans@.len() - 1,
            ready@ == ready_threads(plan_views(plans@)).take(i as int),
        decreases plans@.len() - i,
    {
        ready.push(plans[i].program.tcb_cptr);
        assert(ready@ =~= ready_threads(plan_views(plans@)).take(i + 1));
        i = i + 1;
    }
    assert(ready_threads(plan_views(plans@)).take(plans@.len() - 1) =~= ready_threads(
        plan_views(plans@),
    ));
    ready
}

/// Each program has a plan, and together they take no more slots than they may.
pub proof fn lemma_load_all_len(specs: Seq<ProgramSpecView>, n: int, slot: int)
    requires
        0 <= n,
    ensures
        load_all_of(specs, n, slot) matches Ok((plans, next)) ==> plans.len() == n && next <= slot
            + all_slots_at_most(specs, n),
    decreases n,
{
    if n > 0 {
        lemma_load_all_len(specs, n - 1, slot);
        match load_all_of(specs, n - 1, slot) {
            Ok((_, next)) => {
                lemma_slots_taken(specs[n - 1], next);
            },
            Err(_) => {},
        }
    }
}

/// Works out how to boot a launch description when memory ends at `mem_end`.
/// Where one of its programs cannot be loaded, nothing is booted.
pub fn boot(launch: &Launch, mem_end: u64) -> (result: Result<BootPlan, LoadError>)
    requires
        launch_fits(launch@),
    ensures
        (match result {
            Ok(plan) => boot_of(launch@, mem_end as int) == Ok::<BootPlanView, LoadError>(plan@),
            Err(error) => boot_of(launch@, mem_end as int) == Err::<BootPlanView, LoadError>(error),
        }),
{
    proof {
        let count = launch@.programs.len() as int;
        lemma_all_slots_monotonic(launch@.programs, 0, count);
        lemma_load_all_len(launch@.programs, count, programs_slot(launch@));
        assert forall|i: int| 0 <= i < launch.programs@.len() implies sizes_fit(
            (#[trigger] launch.programs@[i])@,
        ) by {
            assert(sizes_fit(launch@.programs[i]));
        }
    }
    let resources: Vec<Op> = plan_resources(launch.resources);
    let mut next: CPtr = FIRST_FREE_CPTR + launch.resources.len() as u64;
    let programs: Vec<LoadPlan> = match load_all(launch.programs, &mut next) {
        Ok(programs) => programs,
        Err(error) => return Err(error),
    };
    assert(plan_views(programs@).len() == launch.programs@.len());
    let shares: Vec<Op> = plan_shares(launch.shares, &programs, next);
    let ready: Vec<CPtr> = plan_ready(&programs);
    let first: CPtr = programs[programs.len() - 1].program.tcb_cptr;
    Ok(BootPlan { root: root_seed(mem_end), resources, programs, shares, ready, first })
}

} // verus!
