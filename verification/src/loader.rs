//! The hello service: one program, loaded twice, as a server and as a client
//! that are confined from each other and share an endpoint.

use crate::boot::{
    boot, boot_of, launch_fits, BootPlan, BootPlanView, Launch, LaunchView, Resource,
};
use crate::boot_laws::{launch_closed, law_boot_grants_only_what_is_described};
use crate::image::LoadError;
use crate::launch::{
    all_slots_at_most, cnode_slot, grant_op, program_views, CPtr, ProgramSpec, ProgramSpecView,
    Rights,
};
use crate::launch_laws::{capabilities_granted, image_pages, select, Purpose};
use vstd::prelude::*;

verus! {

/// The endpoint's slot in each program's own capability space.
pub const ENDPOINT_CPTR: CPtr = 1;

/// The argument that makes the program the server.
pub const ARG0_SERVER: u64 = 0;

/// The argument that makes the program the client.
pub const ARG0_CLIENT: u64 = 1;

/// The badge of the endpoint that both programs get.
pub const ENDPOINT_BADGE: u64 = 42;

/// The root task's slots for the endpoint and its badged copy.
pub const ENDPOINT_PLAIN_ROOT_CPTR: CPtr = 2;

pub const ENDPOINT_BADGED_ROOT_CPTR: CPtr = 3;

/// One of the two programs: it gets the badged endpoint and nothing else.
pub open spec fn hello_program(elf: Seq<u8>, arg0: u64) -> ProgramSpecView {
    ProgramSpecView {
        elf,
        arg0,
        grants: seq![(ENDPOINT_BADGED_ROOT_CPTR, ENDPOINT_CPTR)],
        self_cnode_dest: None,
        heap_megapages: 0,
        arena: None,
    }
}

/// An endpoint and its badged copy, the server, and the client.
pub open spec fn hello_launch(elf: Seq<u8>) -> LaunchView {
    LaunchView {
        resources: seq![
            Resource::Endpoint,
            Resource::Badged {
                source: ENDPOINT_PLAIN_ROOT_CPTR,
                rights: Rights::All,
                badge: ENDPOINT_BADGE,
            },
        ],
        programs: seq![hello_program(elf, ARG0_SERVER), hello_program(elf, ARG0_CLIENT)],
        shares: Seq::empty(),
    }
}

/// The launch description fits the machine and refers only to what exists.
pub proof fn law_hello_launch_is_sound(elf: Seq<u8>)
    requires
        elf.len() <= u64::MAX,
    ensures
        launch_fits(hello_launch(elf)),
        launch_closed(hello_launch(elf)),
{
    reveal_with_fuel(all_slots_at_most, 3);
}

/// Each of the two programs holds one capability, the badged endpoint, and
/// nothing else: that is all that either can reach the other with.
pub proof fn law_hello_programs_hold_only_the_endpoint(
    elf: Seq<u8>,
    mem_end: int,
    plan: BootPlanView,
    i: int,
)
    requires
        elf.len() <= u64::MAX,
        boot_of(hello_launch(elf), mem_end) == Ok::<BootPlanView, LoadError>(plan),
        0 <= i < 2,
    ensures
        ({
            let spec = hello_launch(elf).programs[i];
            let vspace = plan.programs[i].program.vspace_cptr as int;
            let cnode = cnode_slot(spec, image_pages(spec).len() as int, vspace);
            select(plan.programs[i].ops, Purpose::Grant) == seq![
                grant_op(ENDPOINT_BADGED_ROOT_CPTR as int, cnode, ENDPOINT_CPTR as int),
            ]
        }),
{
    let launch = hello_launch(elf);
    let spec = launch.programs[i];
    let vspace = plan.programs[i].program.vspace_cptr as int;
    let cnode = cnode_slot(spec, image_pages(spec).len() as int, vspace);
    law_hello_launch_is_sound(elf);
    law_boot_grants_only_what_is_described(launch, mem_end, plan, i);
    assert(capabilities_granted(spec, vspace) =~= seq![
        grant_op(ENDPOINT_BADGED_ROOT_CPTR as int, cnode, ENDPOINT_CPTR as int),
    ]);
}

/// Works out how to boot the server and the client from the hello service's
/// ELF image, when memory ends at `mem_end`. The client
/// runs first.
pub fn run(mem_end: u64, elf: &[u8]) -> (result: Result<BootPlan, LoadError>)
    ensures
        (match result {
            Ok(plan) => boot_of(hello_launch(elf@), mem_end as int) == Ok::<
                BootPlanView,
                LoadError,
            >(plan@),
            Err(error) => boot_of(hello_launch(elf@), mem_end as int) == Err::<
                BootPlanView,
                LoadError,
            >(error),
        }),
{
    let resources: [Resource; 2] = [
        Resource::Endpoint,
        Resource::Badged {
            source: ENDPOINT_PLAIN_ROOT_CPTR,
            rights: Rights::All,
            badge: ENDPOINT_BADGE,
        },
    ];
    let grants: [(CPtr, CPtr); 1] = [(ENDPOINT_BADGED_ROOT_CPTR, ENDPOINT_CPTR)];
    let programs: [ProgramSpec; 2] = [
        ProgramSpec {
            elf_bytes: elf,
            arg0: ARG0_SERVER,
            grants: grants.as_slice(),
            self_cnode_dest: None,
            heap_megapages: 0,
            arena: None,
        },
        ProgramSpec {
            elf_bytes: elf,
            arg0: ARG0_CLIENT,
            grants: grants.as_slice(),
            self_cnode_dest: None,
            heap_megapages: 0,
            arena: None,
        },
    ];
    let launch: Launch = Launch {
        resources: resources.as_slice(),
        programs: programs.as_slice(),
        shares: &[],
    };
    proof {
        let view = hello_launch(elf@);
        assert(elf.len() == elf@.len());
        assert(resources@ =~= view.resources);
        assert(grants@ =~= seq![(ENDPOINT_BADGED_ROOT_CPTR, ENDPOINT_CPTR)]);
        assert(program_views(programs@) =~= view.programs);
        assert(launch@.shares =~= view.shares);
        law_hello_launch_is_sound(elf@);
    }
    boot(&launch, mem_end)
}

} // verus!
