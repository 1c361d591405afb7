//! The shared frame: a service and a client that exchange bytes through one
//! frame that both have mapped. The client checks the reply and signals success
//! or failure.

use crate::boot::{
    boot, boot_of, launch_fits, BootPlan, BootPlanView, Launch, LaunchView, Resource, Share,
};
use crate::boot_laws::launch_closed;
use crate::image::LoadError;
use crate::launch::{all_slots_at_most, program_views, CPtr, ProgramSpec, ProgramSpecView};
use crate::trap::{verdict, verdict_of, Syscall, Verdict};
use vstd::prelude::*;

verus! {

/// The endpoint's slot in each program's own capability space.
pub const ENDPOINT_CPTR: CPtr = 1;

/// The client's slots for the notifications that it signals its verdict on.
pub const CLIENT_SUCCESS_CPTR: CPtr = 2;

pub const CLIENT_FAILURE_CPTR: CPtr = 3;

/// Where both programs have the shared frame.
pub const FRAME_VADDR: u64 = 0x9000_0000;

pub const ARG0_SERVICE: u64 = 0;

pub const ARG0_CLIENT: u64 = 1;

/// The root task's slots for the endpoint and the two notifications.
pub const ENDPOINT_ROOT_CPTR: CPtr = 2;

pub const SUCCESS_ROOT_CPTR: CPtr = 3;

pub const FAILURE_ROOT_CPTR: CPtr = 4;

/// What there is to say on the console after a trap.
#[derive(Clone, Copy, PartialEq, Eq, Structural, Debug)]
pub enum Narration {
    /// The client called. By now another thread runs, so there is no outcome
    /// to tell.
    Called,
    Received { ok: bool },
    Replied { ok: bool },
    /// The client signalled its verdict; `ok` says whether the call worked,
    /// which is another matter.
    Signalled { verdict: Verdict, ok: bool },
}

/// An endpoint and two notifications, the service, the client, and a frame
/// between them.
pub open spec fn frame_launch(service: Seq<u8>, client: Seq<u8>) -> LaunchView {
    LaunchView {
        resources: seq![Resource::Endpoint, Resource::Notification, Resource::Notification],
        programs: seq![
            ProgramSpecView {
                elf: service,
                arg0: ARG0_SERVICE,
                grants: seq![(ENDPOINT_ROOT_CPTR, ENDPOINT_CPTR)],
                self_cnode_dest: None,
                heap_megapages: 0,
                arena: None,
            },
            ProgramSpecView {
                elf: client,
                arg0: ARG0_CLIENT,
                grants: seq![
                    (ENDPOINT_ROOT_CPTR, ENDPOINT_CPTR),
                    (SUCCESS_ROOT_CPTR, CLIENT_SUCCESS_CPTR),
                    (FAILURE_ROOT_CPTR, CLIENT_FAILURE_CPTR),
                ],
                self_cnode_dest: None,
                heap_megapages: 0,
                arena: None,
            },
        ],
        shares: seq![Share { a: 0, vaddr_a: FRAME_VADDR, b: 1, vaddr_b: FRAME_VADDR }],
    }
}

/// What to say after a system call on slot `invoked`, given whether it failed.
pub open spec fn narration_of(syscall: Syscall, invoked: CPtr, failed: bool) -> Option<Narration> {
    match syscall {
        Syscall::Call => Some(Narration::Called),
        Syscall::Recv => Some(Narration::Received { ok: !failed }),
        Syscall::Reply => Some(Narration::Replied { ok: !failed }),
        Syscall::Signal => Some(
            Narration::Signalled {
                verdict: verdict_of(invoked, CLIENT_SUCCESS_CPTR, CLIENT_FAILURE_CPTR),
                ok: !failed,
            },
        ),
        _ => None,
    }
}

/// The launch description fits the machine and refers only to what exists.
pub proof fn law_frame_launch_is_sound(service: Seq<u8>, client: Seq<u8>)
    requires
        service.len() <= u64::MAX,
        client.len() <= u64::MAX,
    ensures
        launch_fits(frame_launch(service, client)),
        launch_closed(frame_launch(service, client)),
{
    reveal_with_fuel(all_slots_at_most, 3);
}

/// Works out how to boot the service and the client from their ELF images,
/// with a frame between them, when memory ends at `mem_end`. The client runs
/// first.
pub fn run(mem_end: u64, service: &[u8], client: &[u8]) -> (result: Result<BootPlan, LoadError>)
    ensures
        (match result {
            Ok(plan) => boot_of(frame_launch(service@, client@), mem_end as int) == Ok::<
                BootPlanView,
                LoadError,
            >(plan@),
            Err(error) => boot_of(frame_launch(service@, client@), mem_end as int) == Err::<
                BootPlanView,
                LoadError,
            >(error),
        }),
{
    let resources: [Resource; 3] = [
        Resource::Endpoint,
        Resource::Notification,
        Resource::Notification,
    ];
    let service_grants: [(CPtr, CPtr); 1] = [(ENDPOINT_ROOT_CPTR, ENDPOINT_CPTR)];
    let client_grants: [(CPtr, CPtr); 3] = [
        (ENDPOINT_ROOT_CPTR, ENDPOINT_CPTR),
        (SUCCESS_ROOT_CPTR, CLIENT_SUCCESS_CPTR),
        (FAILURE_ROOT_CPTR, CLIENT_FAILURE_CPTR),
    ];
    let programs: [ProgramSpec; 2] = [
        ProgramSpec {
            elf_bytes: service,
            arg0: ARG0_SERVICE,
            grants: service_grants.as_slice(),
            self_cnode_dest: None,
            heap_megapages: 0,
            arena: None,
        },
        ProgramSpec {
            elf_bytes: client,
            arg0: ARG0_CLIENT,
            grants: client_grants.as_slice(),
            self_cnode_dest: None,
            heap_megapages: 0,
            arena: None,
        },
    ];
    let shares: [Share; 1] = [
        Share { a: 0, vaddr_a: FRAME_VADDR, b: 1, vaddr_b: FRAME_VADDR },
    ];
    let launch: Launch = Launch {
        resources: resources.as_slice(),
        programs: programs.as_slice(),
        shares: shares.as_slice(),
    };
    proof {
        let view = frame_launch(service@, client@);
        assert(service.len() == service@.len() && client.len() == client@.len());
        assert(resources@ =~= view.resources);
        assert(service_grants@ =~= view.programs[0].grants);
        assert(client_grants@ =~= view.programs[1].grants);
        assert(program_views(programs@) =~= view.programs);
        assert(shares@ =~= view.shares);
        law_frame_launch_is_sound(service@, client@);
    }
    boot(&launch, mem_end)
}

/// What to say after a system call that came in with slot `invoked` in its
/// first register, given whether the thread that runs next was left an error.
pub fn narrate(syscall: Syscall, invoked: CPtr, failed: bool) -> (narration: Option<Narration>)
    ensures
        narration == narration_of(syscall, invoked, failed),
{
    match syscall {
        Syscall::Call => Some(Narration::Called),
        Syscall::Recv => Some(Narration::Received { ok: !failed }),
        Syscall::Reply => Some(Narration::Replied { ok: !failed }),
        Syscall::Signal => Some(
            Narration::Signalled {
                verdict: verdict(invoked, CLIENT_SUCCESS_CPTR, CLIENT_FAILURE_CPTR),
                ok: !failed,
            },
        ),
        _ => None,
    }
}

} // verus!
