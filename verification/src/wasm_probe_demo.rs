//! The runtime probe: one program that runs a small component in-process and
//! checks its result. It talks to nobody; it gets two notifications to signal
//! its verdict on, a heap, and an arena of frames that it maps itself.

use crate::boot::{
    boot, boot_of, launch_fits, BootPlan, BootPlanView, Launch, LaunchView, Resource,
};
use crate::boot_laws::launch_closed;
use crate::image::LoadError;
use crate::launch::{
    all_slots_at_most, program_views, ArenaGrant, CPtr, ProgramSpec, ProgramSpecView,
};
use crate::trap::{verdict, verdict_of, Syscall, Verdict};
use vstd::prelude::*;

verus! {

/// The probe's slots for the notifications that it signals its verdict on.
pub const PROBE_SUCCESS_CPTR: CPtr = 4;

pub const PROBE_FAILURE_CPTR: CPtr = 5;

/// The probe's slot for its own address space.
pub const PROBE_SELF_VSPACE_CPTR: CPtr = 6;

/// The probe's slot for the first frame of its arena.
pub const PROBE_ARENA_FRAME_CPTR_BASE: CPtr = 7;

/// How many frames the probe's arena has.
pub const PROBE_ARENA_MEGAPAGES: u64 = 2;

/// How many megapages the probe's heap has.
pub const PROBE_HEAP_MEGAPAGES: u64 = 1;

pub const ARG0_PROBE: u64 = 0;

/// The root task's slots for the two notifications.
pub const SUCCESS_ROOT_CPTR: CPtr = 2;

pub const FAILURE_ROOT_CPTR: CPtr = 3;

/// What there is to say on the console after a trap: the probe signalled its
/// verdict; `ok` says whether the call worked, which is another matter.
#[derive(Clone, Copy, PartialEq, Eq, Structural, Debug)]
pub struct Narration {
    pub verdict: Verdict,
    pub ok: bool,
}

/// Two notifications and the probe.
pub open spec fn probe_launch(probe: Seq<u8>) -> LaunchView {
    LaunchView {
        resources: seq![Resource::Notification, Resource::Notification],
        programs: seq![
            ProgramSpecView {
                elf: probe,
                arg0: ARG0_PROBE,
                grants: seq![
                    (SUCCESS_ROOT_CPTR, PROBE_SUCCESS_CPTR),
                    (FAILURE_ROOT_CPTR, PROBE_FAILURE_CPTR),
                ],
                self_cnode_dest: None,
                heap_megapages: PROBE_HEAP_MEGAPAGES,
                arena: Some(
                    ArenaGrant {
                        megapages: PROBE_ARENA_MEGAPAGES,
                        self_vspace_dest: PROBE_SELF_VSPACE_CPTR,
                        frame_dest_base: PROBE_ARENA_FRAME_CPTR_BASE,
                    },
                ),
            },
        ],
        shares: Seq::empty(),
    }
}

/// What to say after a system call on slot `invoked`, given whether it failed.
pub open spec fn narration_of(syscall: Syscall, invoked: CPtr, failed: bool) -> Option<Narration> {
    if syscall == Syscall::Signal {
        Some(
            Narration {
                verdict: verdict_of(invoked, PROBE_SUCCESS_CPTR, PROBE_FAILURE_CPTR),
                ok: !failed,
            },
        )
    } else {
        None
    }
}

/// The launch description fits the machine and refers only to what exists.
pub proof fn law_probe_launch_is_sound(probe: Seq<u8>)
    requires
        probe.len() <= u64::MAX,
    ensures
        launch_fits(probe_launch(probe)),
        launch_closed(probe_launch(probe)),
{
    reveal_with_fuel(all_slots_at_most, 2);
}

/// Works out how to boot the probe from its ELF image, when memory ends at
/// `mem_end`.
pub fn run(mem_end: u64, probe: &[u8]) -> (result: Result<BootPlan, LoadError>)
    ensures
        (match result {
            Ok(plan) => boot_of(probe_launch(probe@), mem_end as int) == Ok::<
                BootPlanView,
                LoadError,
            >(plan@),
            Err(error) => boot_of(probe_launch(probe@), mem_end as int) == Err::<
                BootPlanView,
                LoadError,
            >(error),
        }),
{
    let resources: [Resource; 2] = [Resource::Notification, Resource::Notification];
    let grants: [(CPtr, CPtr); 2] = [
        (SUCCESS_ROOT_CPTR, PROBE_SUCCESS_CPTR),
        (FAILURE_ROOT_CPTR, PROBE_FAILURE_CPTR),
    ];
    let programs: [ProgramSpec; 1] = [
        ProgramSpec {
            elf_bytes: probe,
            arg0: ARG0_PROBE,
            grants: grants.as_slice(),
            self_cnode_dest: None,
            heap_megapages: PROBE_HEAP_MEGAPAGES,
            arena: Some(
                ArenaGrant {
                    megapages: PROBE_ARENA_MEGAPAGES,
                    self_vspace_dest: PROBE_SELF_VSPACE_CPTR,
                    frame_dest_base: PROBE_ARENA_FRAME_CPTR_BASE,
                },
            ),
        },
    ];
    let launch: Launch = Launch {
        resources: resources.as_slice(),
        programs: programs.as_slice(),
        shares: &[],
    };
    proof {
        let view = probe_launch(probe@);
        assert(probe.len() == probe@.len());
        assert(resources@ =~= view.resources);
        assert(grants@ =~= view.programs[0].grants);
        assert(program_views(programs@) =~= view.programs);
        assert(launch@.shares =~= view.shares);
        law_probe_launch_is_sound(probe@);
    }
    boot(&launch, mem_end)
}

/// What to say after a system call that came in with slot `invoked` in its
/// first register, given whether the thread that runs next was left an error.
pub fn narrate(syscall: Syscall, invoked: CPtr, failed: bool) -> (narration: Option<Narration>)
    ensures
        narration == narration_of(syscall, invoked, failed),
{
    match syscall {
        Syscall::Signal => Some(
            Narration {
                verdict: verdict(invoked, PROBE_SUCCESS_CPTR, PROBE_FAILURE_CPTR),
                ok: !failed,
            },
        ),
        _ => None,
    }
}

} // verus!
