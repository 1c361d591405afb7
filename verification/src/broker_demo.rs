//! The broker: a service that hands a client a capability, live, over IPC.
//!
//! The service gets the shared endpoint, the resource that it administers and a
//! capability to its own capability space, to mint in. The client gets the
//! endpoint only; what it signals in the end it can have from the service alone.

use crate::boot::{
    boot, boot_of, launch_fits, BootPlan, BootPlanView, Launch, LaunchView, Resource,
};
use crate::boot_laws::{launch_closed, law_boot_grants_only_what_is_described};
use crate::image::LoadError;
use crate::launch::{
    all_slots_at_most, cnode_slot, grant_op, program_views, CPtr, ProgramSpec, ProgramSpecView,
};
use crate::launch_laws::{capabilities_granted, image_pages, select, Purpose};
use crate::trap::Syscall;
use vstd::prelude::*;

verus! {

/// The endpoint's slot in each program's own capability space.
pub const ENDPOINT_CPTR: CPtr = 1;

/// The service's slot for its own capability space.
pub const BROKER_SELF_CNODE_CPTR: CPtr = 0;

/// The service's slot for the resource.
pub const BROKER_RESOURCE_CPTR: CPtr = 2;

/// The client's slot for what the service will grant it. Nothing is there at
/// first.
pub const CLIENT_DEST_CPTR: CPtr = 2;

pub const ARG0_BROKER: u64 = 0;

pub const ARG0_CLIENT: u64 = 1;

/// The root task's slots for the endpoint and the resource.
pub const ENDPOINT_ROOT_CPTR: CPtr = 2;

pub const RESOURCE_ROOT_CPTR: CPtr = 3;

/// What there is to say on the console after a trap.
#[derive(Clone, Copy, PartialEq, Eq, Structural, Debug)]
pub enum Narration {
    /// The client called. By now another thread runs, so there is no outcome
    /// to tell.
    Called,
    Received { ok: bool },
    Minted { ok: bool },
    Replied { ok: bool },
    Signalled { ok: bool },
}

/// An endpoint and a notification, the broker, and the client.
pub open spec fn broker_launch(service: Seq<u8>, client: Seq<u8>) -> LaunchView {
    LaunchView {
        resources: seq![Resource::Endpoint, Resource::Notification],
        programs: seq![
            ProgramSpecView {
                elf: service,
                arg0: ARG0_BROKER,
                grants: seq![
                    (ENDPOINT_ROOT_CPTR, ENDPOINT_CPTR),
                    (RESOURCE_ROOT_CPTR, BROKER_RESOURCE_CPTR),
                ],
                self_cnode_dest: Some(BROKER_SELF_CNODE_CPTR),
                heap_megapages: 0,
                arena: None,
            },
            ProgramSpecView {
                elf: client,
                arg0: ARG0_CLIENT,
                grants: seq![(ENDPOINT_ROOT_CPTR, ENDPOINT_CPTR)],
                self_cnode_dest: None,
                heap_megapages: 0,
                arena: None,
            },
        ],
        shares: Seq::empty(),
    }
}

/// What to say after a system call, given whether it failed.
pub open spec fn narration_of(syscall: Syscall, failed: bool) -> Option<Narration> {
    match syscall {
        Syscall::Call => Some(Narration::Called),
        Syscall::Recv => Some(Narration::Received { ok: !failed }),
        Syscall::CNodeInvoke => Some(Narration::Minted { ok: !failed }),
        Syscall::Reply => Some(Narration::Replied { ok: !failed }),
        Syscall::Signal => Some(Narration::Signalled { ok: !failed }),
        Syscall::Other => None,
    }
}

/// The launch description fits the machine and refers only to what exists.
pub proof fn law_broker_launch_is_sound(service: Seq<u8>, client: Seq<u8>)
    requires
        service.len() <= u64::MAX,
        client.len() <= u64::MAX,
    ensures
        launch_fits(broker_launch(service, client)),
        launch_closed(broker_launch(service, client)),
{
    reveal_with_fuel(all_slots_at_most, 3);
}

/// The client starts with one capability, the endpoint: it holds neither the
/// resource nor anything at the slot where it will have the broker put one, so
/// what it signals there in the end it can have from the broker alone.
pub proof fn law_broker_client_holds_only_the_endpoint(
    service: Seq<u8>,
    client: Seq<u8>,
    mem_end: int,
    plan: BootPlanView,
)
    requires
        service.len() <= u64::MAX,
        client.len() <= u64::MAX,
        boot_of(broker_launch(service, client), mem_end) == Ok::<BootPlanView, LoadError>(plan),
    ensures
        ({
            let spec = broker_launch(service, client).programs[1];
            let vspace = plan.programs[1].program.vspace_cptr as int;
            let cnode = cnode_slot(spec, image_pages(spec).len() as int, vspace);
            select(plan.programs[1].ops, Purpose::Grant) == seq![
                grant_op(ENDPOINT_ROOT_CPTR as int, cnode, ENDPOINT_CPTR as int),
            ]
        }),
        ENDPOINT_CPTR != CLIENT_DEST_CPTR,
        ENDPOINT_ROOT_CPTR != RESOURCE_ROOT_CPTR,
{
    let launch = broker_launch(service, client);
    let spec = launch.programs[1];
    let vspace = plan.programs[1].program.vspace_cptr as int;
    let cnode = cnode_slot(spec, image_pages(spec).len() as int, vspace);
    law_broker_launch_is_sound(service, client);
    law_boot_grants_only_what_is_described(launch, mem_end, plan, 1);
    assert(capabilities_granted(spec, vspace) =~= seq![
        grant_op(ENDPOINT_ROOT_CPTR as int, cnode, ENDPOINT_CPTR as int),
    ]);
}

/// Works out how to boot the broker and its client from their ELF images, when
/// memory ends at `mem_end`. The client runs first.
pub fn run(mem_end: u64, service: &[u8], client: &[u8]) -> (result: Result<BootPlan, LoadError>)
    ensures
        (match result {
            Ok(plan) => boot_of(broker_launch(service@, client@), mem_end as int) == Ok::<
                BootPlanView,
                LoadError,
            >(plan@),
            Err(error) => boot_of(broker_launch(service@, client@), mem_end as int) == Err::<
                BootPlanView,
                LoadError,
            >(error),
        }),
{
    let resources: [Resource; 2] = [Resource::Endpoint, Resource::Notification];
    let service_grants: [(CPtr, CPtr); 2] = [
        (ENDPOINT_ROOT_CPTR, ENDPOINT_CPTR),
        (RESOURCE_ROOT_CPTR, BROKER_RESOURCE_CPTR),
    ];
    let client_grants: [(CPtr, CPtr); 1] = [(ENDPOINT_ROOT_CPTR, ENDPOINT_CPTR)];
    let programs: [ProgramSpec; 2] = [
        ProgramSpec {
            elf_bytes: service,
            arg0: ARG0_BROKER,
            grants: service_grants.as_slice(),
            self_cnode_dest: Some(BROKER_SELF_CNODE_CPTR),
            heap_megapages: 0,
            arena: None,
        },
        ProgramSpec {
            elf_bytes: client,
            arg0: ARG0_CLIENT,
            grants: client_grants.as_slice(),
            self_cnode_dest: None,
            heap_megapages: 0,
            arena: None,
        },
    ];
    let launch: Launch = Launch {
        resources: resources.as_slice(),
        programs: programs.as_slice(),
        shares: &[],
    };
    proof {
        let view = broker_launch(service@, client@);
        assert(service.len() == service@.len() && client.len() == client@.len());
        assert(resources@ =~= view.resources);
        assert(service_grants@ =~= view.programs[0].grants);
        assert(client_grants@ =~= view.programs[1].grants);
        assert(program_views(programs@) =~= view.programs);
        assert(launch@.shares =~= view.shares);
        law_broker_launch_is_sound(service@, client@);
    }
    boot(&launch, mem_end)
}

/// What to say after a system call, given whether the thread that runs next
/// was left an error.
pub fn narrate(syscall: Syscall, failed: bool) -> (narration: Option<Narration>)
    ensures
        narration == narration_of(syscall, failed),
{
    match syscall {
        Syscall::Call => Some(Narration::Called),
        Syscall::Recv => Some(Narration::Received { ok: !failed }),
        Syscall::CNodeInvoke => Some(Narration::Minted { ok: !failed }),
        Syscall::Reply => Some(Narration::Replied { ok: !failed }),
        Syscall::Signal => Some(Narration::Signalled { ok: !failed }),
        Syscall::Other => None,
    }
}

} // verus!
